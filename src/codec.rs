//! Message codec: each message is one header byte (`[flags:3 | id:5]`)
//! followed by its body. `ser_*` says what the bytes of a message are,
//! `parse_item` what one item found at a position is; the `write_*`
//! functions append exactly the former and `read_item` returns exactly the
//! latter. The round-trip lemmas tie the two together.
use vstd::prelude::*;
use crate::msgs::{
    Close, Declare, InitAck, InitSyn, OpenSyn, Push, RawBody, Request, Response, DeclareView, FrameHeader, InitAckView, InitSynView, Interest, InterestFinal, KeepAlive,
    NetworkBody, NetworkBodyView, OpenAck, OpenSynView, PushView, QoS, Reliability, RequestView,
    Resolution, ResponseFinal, ResponseView, TransportMessage, TransportMessageView, WireExpr,
    WireExprView, ZenohId, zid_wf, EXT_QOS, FLAG_A, FLAG_Z, ID_CLOSE, ID_DECLARE, ID_FRAME, ID_INIT,
    ID_INTEREST, ID_KEEP_ALIVE, ID_OPEN, ID_PUSH, ID_RAW, ID_REQUEST, ID_RESPONSE,
    ID_RESPONSE_FINAL, QOS_DEFAULT,
};
use crate::wire::{
    holds_at, lemma_bytes_round_trip, lemma_parse_zint_bounds_all, lemma_holds_at_split,
    lemma_holds_at_split3, lemma_holds_at_split4, lemma_u16_round_trip,
    lemma_u8_round_trip, lemma_z32_round_trip, lemma_z64_round_trip, parse_bytes, parse_u16,
    parse_u8, parse_z32, parse_z64, read_bytes, read_u16, read_u8, read_z32, read_z64, ser_bytes,
    ser_u16, ser_u8, ser_z64, write_bytes, write_u16, write_u8, write_zint, zint_len,
};

verus! {

// ---------------------------------------------------------------- fields

pub open spec fn ser_wire_expr(w: WireExprView) -> Seq<u8> {
    ser_z64(w.scope) + ser_bytes(w.suffix)
}

pub open spec fn parse_wire_expr(s: Seq<u8>, p: int) -> Option<(WireExprView, int)> {
    match parse_z64(s, p) {
        None => None,
        Some((scope, p1)) => match parse_bytes(s, p1) {
            None => None,
            Some((suffix, p2)) => Some((WireExprView { scope, suffix }, p2)),
        },
    }
}

pub proof fn lemma_wire_expr_round_trip(w: WireExprView, s: Seq<u8>, p: int)
    requires
        holds_at(s, p, ser_wire_expr(w)),
    ensures
        parse_wire_expr(s, p) == Some((w, p + ser_wire_expr(w).len())),
{
    lemma_holds_at_split(s, p, ser_z64(w.scope), ser_bytes(w.suffix));
    lemma_z64_round_trip(w.scope, s, p);
    lemma_bytes_round_trip(w.suffix, s, p + ser_z64(w.scope).len());
}

fn write_wire_expr(out: &mut Vec<u8>, w: &WireExpr)
    ensures
        final(out)@ == old(out)@ + ser_wire_expr(w@),
{
    write_zint(out, w.scope);
    write_bytes(out, w.suffix.as_slice());
    proof {
        assert(final(out)@ =~= old(out)@ + ser_wire_expr(w@));
    }
}

fn read_wire_expr(buf: &[u8], pos: usize) -> (r: Option<(WireExpr, usize)>)
    ensures
        match parse_wire_expr(buf@, pos as int) {
            Some((v, q)) => r matches Some((w, e)) && w@ == v && e == q,
            None => r is None,
        },
{
    let (scope, p1) = match read_z64(buf, pos) {
        Some(x) => x,
        None => return None,
    };
    let (suffix, p2) = match read_bytes(buf, p1) {
        Some(x) => x,
        None => return None,
    };
    Some((WireExpr { scope, suffix }, p2))
}

pub open spec fn parse_zid(s: Seq<u8>, p: int) -> Option<(Seq<u8>, int)> {
    match parse_bytes(s, p) {
        Some((z, q)) => if zid_wf(z) {
            Some((z, q))
        } else {
            None
        },
        None => None,
    }
}

fn read_zid(buf: &[u8], pos: usize) -> (r: Option<(ZenohId, usize)>)
    ensures
        match parse_zid(buf@, pos as int) {
            Some((v, q)) => r matches Some((w, e)) && w@ == v && e == q,
            None => r is None,
        },
{
    let (bytes, q) = match read_bytes(buf, pos) {
        Some(x) => x,
        None => return None,
    };
    if bytes.len() >= 1 && bytes.len() <= 16 {
        Some((ZenohId { bytes }, q))
    } else {
        None
    }
}

// ---------------------------------------------------------------- headers

pub open spec fn network_header(b: NetworkBodyView) -> u8 {
    match b {
        NetworkBodyView::Push(_) => ID_PUSH,
        NetworkBodyView::Request(_) => ID_REQUEST,
        NetworkBodyView::Response(_) => ID_RESPONSE,
        NetworkBodyView::ResponseFinal(_) => ID_RESPONSE_FINAL,
        NetworkBodyView::Interest(m) => (ID_INTEREST + 32 * m.mode) as u8,
        NetworkBodyView::InterestFinal(_) => ID_INTEREST,
        NetworkBodyView::Declare(_) => ID_DECLARE,
        NetworkBodyView::RawBody(_) => ID_RAW,
    }
}

pub open spec fn transport_header(t: TransportMessageView) -> u8 {
    match t {
        TransportMessageView::Close(_) => ID_CLOSE,
        TransportMessageView::InitSyn(_) => ID_INIT,
        TransportMessageView::InitAck(_) => (ID_INIT + FLAG_A) as u8,
        TransportMessageView::KeepAlive(_) => ID_KEEP_ALIVE,
        TransportMessageView::OpenSyn(_) => ID_OPEN,
        TransportMessageView::OpenAck(_) => (ID_OPEN + FLAG_A) as u8,
    }
}

pub open spec fn frame_header_byte(f: FrameHeader) -> u8 {
    (ID_FRAME + (if f.reliability == Reliability::Reliable {
        FLAG_A
    } else {
        0u8
    }) + (if f.qos.inner != QOS_DEFAULT {
        FLAG_Z
    } else {
        0u8
    })) as u8
}

// ---------------------------------------------------------------- bodies

pub open spec fn ser_network_body(b: NetworkBodyView) -> Seq<u8> {
    match b {
        NetworkBodyView::Push(m) => ser_wire_expr(m.wire_expr) + ser_bytes(m.payload),
        NetworkBodyView::Request(m) => ser_z64(m.id) + ser_wire_expr(m.wire_expr) + ser_bytes(
            m.payload,
        ),
        NetworkBodyView::Response(m) => ser_z64(m.rid) + ser_wire_expr(m.wire_expr) + ser_bytes(
            m.payload,
        ),
        NetworkBodyView::ResponseFinal(m) => ser_z64(m.rid),
        NetworkBodyView::Interest(m) => ser_z64(m.id) + ser_u8(m.options),
        NetworkBodyView::InterestFinal(m) => ser_z64(m.id),
        NetworkBodyView::Declare(m) => ser_z64(m.id) + ser_wire_expr(m.wire_expr),
        NetworkBodyView::RawBody(b) => ser_bytes(b),
    }
}

pub open spec fn ser_transport_body(t: TransportMessageView) -> Seq<u8> {
    match t {
        TransportMessageView::Close(m) => ser_u8(m.reason),
        TransportMessageView::InitSyn(m) => ser_u8(m.version) + ser_bytes(m.zid) + ser_u8(
            m.resolution.inner,
        ) + ser_u16(m.batch_size),
        TransportMessageView::InitAck(m) => ser_u8(m.version) + ser_bytes(m.zid) + ser_u8(
            m.resolution.inner,
        ) + ser_u16(m.batch_size) + ser_bytes(m.cookie),
        TransportMessageView::KeepAlive(_) => Seq::empty(),
        TransportMessageView::OpenSyn(m) => ser_z64(m.lease) + ser_z64(m.sn as u64) + ser_bytes(
            m.cookie,
        ),
        TransportMessageView::OpenAck(m) => ser_z64(m.lease) + ser_z64(m.sn as u64),
    }
}

/// The bytes of a network message body with its header.
pub open spec fn ser_network(b: NetworkBodyView) -> Seq<u8> {
    seq![network_header(b)] + ser_network_body(b)
}

/// The bytes of a transport message with its header.
pub open spec fn ser_transport(t: TransportMessageView) -> Seq<u8> {
    seq![transport_header(t)] + ser_transport_body(t)
}

/// The bytes of a frame header: the QoS extension is written only for a
/// QoS other than the default.
pub open spec fn ser_frame(f: FrameHeader) -> Seq<u8> {
    seq![frame_header_byte(f)] + ser_z64(f.sn as u64) + (if f.qos.inner != QOS_DEFAULT {
        seq![EXT_QOS] + ser_z64(f.qos.inner as u64)
    } else {
        Seq::empty()
    })
}

/// The values that the codec can write and read back.
pub open spec fn network_wf(b: NetworkBodyView) -> bool {
    match b {
        NetworkBodyView::Interest(m) => 1 <= m.mode <= 3,
        _ => true,
    }
}

pub open spec fn transport_wf(t: TransportMessageView) -> bool {
    match t {
        TransportMessageView::InitSyn(m) => zid_wf(m.zid),
        TransportMessageView::InitAck(m) => zid_wf(m.zid),
        _ => true,
    }
}

// ---------------------------------------------------------------- parsing

/// One item of a batch: a frame header, a transport message or a network
/// message body.
pub enum Item {
    Frame(FrameHeader),
    Transport(TransportMessageView),
    Network(NetworkBodyView),
}

pub enum Decoded {
    Frame(FrameHeader),
    Transport(TransportMessage),
    Network(NetworkBody),
}

impl View for Decoded {
    type V = Item;

    open spec fn view(&self) -> Item {
        match self {
            Decoded::Frame(f) => Item::Frame(*f),
            Decoded::Transport(t) => Item::Transport(t@),
            Decoded::Network(b) => Item::Network(b@),
        }
    }
}

/// An extension header: bits 0-3 the id, bit 4 "mandatory", bits 5-6 the
/// encoding of its body (0: none, 1: zint, 2: length-prefixed bytes), bit 7
/// "another extension follows".
pub open spec fn ext_id(e: u8) -> u8 {
    e & 0x0f
}

pub open spec fn ext_enc(e: u8) -> u8 {
    (e >> 5u8) & 3u8
}

pub open spec fn ext_mandatory(e: u8) -> bool {
    e & 0x10 != 0
}

pub open spec fn ext_more(e: u8) -> bool {
    e & 0x80 != 0
}

/// The extension chain of a frame from `p` on, with the QoS found so far.
/// The QoS extension (id 1, zint) sets the QoS; other extensions are
/// skipped, unless marked mandatory, which fails the chain.
pub open spec fn parse_exts(s: Seq<u8>, p: int, qos: u8) -> Option<(u8, int)>
    decreases s.len() - p,
{
    if p < 0 || p >= s.len() {
        None
    } else {
        let e = s[p];
        let body: Option<(u8, int)> = if ext_enc(e) == 0 {
            if ext_id(e) == 1 || ext_mandatory(e) {
                None
            } else {
                Some((qos, p + 1))
            }
        } else if ext_enc(e) == 1 {
            match parse_z64(s, p + 1) {
                None => None,
                Some((v, q)) => if ext_id(e) == 1 {
                    if v <= 255 {
                        Some((v as u8, q))
                    } else {
                        None
                    }
                } else if ext_mandatory(e) {
                    None
                } else {
                    Some((qos, q))
                },
            }
        } else if ext_enc(e) == 2 {
            if ext_id(e) == 1 || ext_mandatory(e) {
                None
            } else {
                match parse_bytes(s, p + 1) {
                    None => None,
                    Some((_, q)) => Some((qos, q)),
                }
            }
        } else {
            None
        };
        match body {
            None => None,
            Some((q2, p2)) => if !ext_more(e) {
                Some((q2, p2))
            } else if p2 <= p || p2 > s.len() {
                None
            } else {
                parse_exts(s, p2, q2)
            },
        }
    }
}

pub open spec fn parse_frame_body(s: Seq<u8>, p: int, h: u8) -> Option<(FrameHeader, int)> {
    let reliability = if h & FLAG_A != 0 {
        Reliability::Reliable
    } else {
        Reliability::BestEffort
    };
    if h & 0x40 != 0 {
        None
    } else {
        match parse_z32(s, p) {
            None => None,
            Some((sn, p1)) => if h & FLAG_Z == 0 {
                Some((FrameHeader { reliability, sn, qos: QoS { inner: QOS_DEFAULT } }, p1))
            } else {
                match parse_exts(s, p1, QOS_DEFAULT) {
                    Some((q, p2)) => Some((FrameHeader { reliability, sn, qos: QoS { inner: q } }, p2)),
                    None => None,
                }
            },
        }
    }
}

pub open spec fn parse_payload_tail(s: Seq<u8>, p: int) -> Option<(WireExprView, Seq<u8>, int)> {
    match parse_wire_expr(s, p) {
        None => None,
        Some((w, p1)) => match parse_bytes(s, p1) {
            None => None,
            Some((b, p2)) => Some((w, b, p2)),
        },
    }
}

pub open spec fn parse_network_body(s: Seq<u8>, p: int, h: u8) -> Option<(NetworkBodyView, int)> {
    let id = h & 0x1f;
    if id == ID_PUSH && h == ID_PUSH {
        match parse_payload_tail(s, p) {
            Some((w, b, q)) => Some((NetworkBodyView::Push(PushView { wire_expr: w, payload: b }), q)),
            None => None,
        }
    } else if id == ID_REQUEST && h == ID_REQUEST {
        match parse_z64(s, p) {
            Some((i, p1)) => match parse_payload_tail(s, p1) {
                Some((w, b, q)) => Some(
                    (
                        NetworkBodyView::Request(RequestView { id: i, wire_expr: w, payload: b }),
                        q,
                    ),
                ),
                None => None,
            },
            None => None,
        }
    } else if id == ID_RESPONSE && h == ID_RESPONSE {
        match parse_z64(s, p) {
            Some((i, p1)) => match parse_payload_tail(s, p1) {
                Some((w, b, q)) => Some(
                    (
                        NetworkBodyView::Response(ResponseView { rid: i, wire_expr: w, payload: b }),
                        q,
                    ),
                ),
                None => None,
            },
            None => None,
        }
    } else if id == ID_RESPONSE_FINAL && h == ID_RESPONSE_FINAL {
        match parse_z64(s, p) {
            Some((i, q)) => Some((NetworkBodyView::ResponseFinal(ResponseFinal { rid: i }), q)),
            None => None,
        }
    } else if id == ID_INTEREST && h & FLAG_Z == 0 {
        if h & 0x60 == 0 {
            match parse_z64(s, p) {
                Some((i, q)) => Some((NetworkBodyView::InterestFinal(InterestFinal { id: i }), q)),
                None => None,
            }
        } else {
            match parse_z64(s, p) {
                Some((i, p1)) => match parse_u8(s, p1) {
                    Some((o, q)) => Some(
                        (
                            NetworkBodyView::Interest(
                                Interest { id: i, mode: ((h >> 5u8) & 3u8) as u8, options: o },
                            ),
                            q,
                        ),
                    ),
                    None => None,
                },
                None => None,
            }
        }
    } else if id == ID_DECLARE && h == ID_DECLARE {
        match parse_z64(s, p) {
            Some((i, p1)) => match parse_wire_expr(s, p1) {
                Some((w, q)) => Some((NetworkBodyView::Declare(DeclareView { id: i, wire_expr: w }), q)),
                None => None,
            },
            None => None,
        }
    } else if id == ID_RAW && h == ID_RAW {
        match parse_bytes(s, p) {
            Some((b, q)) => Some((NetworkBodyView::RawBody(b), q)),
            None => None,
        }
    } else {
        None
    }
}

pub open spec fn parse_init_head(s: Seq<u8>, p: int) -> Option<(u8, Seq<u8>, u8, u16, int)> {
    match parse_u8(s, p) {
        None => None,
        Some((v, p1)) => match parse_zid(s, p1) {
            None => None,
            Some((z, p2)) => match parse_u8(s, p2) {
                None => None,
                Some((r, p3)) => match parse_u16(s, p3) {
                    None => None,
                    Some((bs, p4)) => Some((v, z, r, bs, p4)),
                },
            },
        },
    }
}

pub open spec fn parse_transport_body(s: Seq<u8>, p: int, h: u8) -> Option<(TransportMessageView, int)> {
    if h == ID_INIT {
        match parse_init_head(s, p) {
            Some((v, z, r, bs, q)) => Some(
                (
                    TransportMessageView::InitSyn(
                        InitSynView {
                            version: v,
                            zid: z,
                            resolution: Resolution { inner: r },
                            batch_size: bs,
                        },
                    ),
                    q,
                ),
            ),
            None => None,
        }
    } else if h == ID_INIT + FLAG_A {
        match parse_init_head(s, p) {
            Some((v, z, r, bs, q)) => match parse_bytes(s, q) {
                Some((c, q2)) => Some(
                    (
                        TransportMessageView::InitAck(
                            InitAckView {
                                version: v,
                                zid: z,
                                resolution: Resolution { inner: r },
                                batch_size: bs,
                                cookie: c,
                            },
                        ),
                        q2,
                    ),
                ),
                None => None,
            },
            None => None,
        }
    } else if h == ID_OPEN || h == ID_OPEN + FLAG_A {
        match parse_z64(s, p) {
            None => None,
            Some((lease, p1)) => match parse_z32(s, p1) {
                None => None,
                Some((sn, p2)) => if h == ID_OPEN {
                    match parse_bytes(s, p2) {
                        Some((c, q)) => Some(
                            (TransportMessageView::OpenSyn(OpenSynView { lease, sn, cookie: c }), q),
                        ),
                        None => None,
                    }
                } else {
                    Some((TransportMessageView::OpenAck(OpenAck { lease, sn }), p2))
                },
            },
        }
    } else if h == ID_CLOSE {
        match parse_u8(s, p) {
            Some((r, q)) => Some((TransportMessageView::Close(Close { reason: r }), q)),
            None => None,
        }
    } else if h == ID_KEEP_ALIVE {
        Some((TransportMessageView::KeepAlive(KeepAlive {  }), p))
    } else {
        None
    }
}

pub open spec fn is_transport_id(id: u8) -> bool {
    id == ID_INIT || id == ID_OPEN || id == ID_CLOSE || id == ID_KEEP_ALIVE
}

/// The item found at `p`, if its header is known and its body well formed.
pub open spec fn parse_item(s: Seq<u8>, p: int) -> Option<(Item, int)> {
    if p < 0 || p >= s.len() {
        None
    } else {
        let h = s[p];
        let id = h & 0x1f;
        if id == ID_FRAME {
            match parse_frame_body(s, p + 1, h) {
                Some((f, q)) => Some((Item::Frame(f), q)),
                None => None,
            }
        } else if is_transport_id(id) {
            match parse_transport_body(s, p + 1, h) {
                Some((t, q)) => Some((Item::Transport(t), q)),
                None => None,
            }
        } else {
            match parse_network_body(s, p + 1, h) {
                Some((b, q)) => Some((Item::Network(b), q)),
                None => None,
            }
        }
    }
}

// ---------------------------------------------------------------- header bits

/// What the reader sees in each header byte that the writer emits.
pub proof fn lemma_header_bits()
    ensures
        ID_PUSH & 0x1f == ID_PUSH,
        ID_REQUEST & 0x1f == ID_REQUEST,
        ID_RESPONSE & 0x1f == ID_RESPONSE,
        ID_RESPONSE_FINAL & 0x1f == ID_RESPONSE_FINAL,
        ID_DECLARE & 0x1f == ID_DECLARE,
        ID_RAW & 0x1f == ID_RAW,
        ID_INTEREST & 0x1f == ID_INTEREST,
        ID_INTEREST & 0x60 == 0,
        ID_INTEREST & FLAG_Z == 0,
        forall|m: u8|
            1 <= m <= 3 ==> #[trigger] ((ID_INTEREST + 32 * m) as u8) & 0x1f == ID_INTEREST && ((
            ID_INTEREST + 32 * m) as u8) & 0x60 != 0 && ((ID_INTEREST + 32 * m) as u8) & FLAG_Z
                == 0 && ((((ID_INTEREST + 32 * m) as u8) >> 5u8) & 3u8) == m,
        ID_INIT & 0x1f == ID_INIT,
        ((ID_INIT + FLAG_A) as u8) & 0x1f == ID_INIT,
        ID_OPEN & 0x1f == ID_OPEN,
        ((ID_OPEN + FLAG_A) as u8) & 0x1f == ID_OPEN,
        ID_CLOSE & 0x1f == ID_CLOSE,
        ID_KEEP_ALIVE & 0x1f == ID_KEEP_ALIVE,
        0x05u8 & 0x1f == ID_FRAME && 0x05u8 & 0x40 == 0 && 0x05u8 & FLAG_A == 0 && 0x05u8
            & FLAG_Z == 0,
        0x25u8 & 0x1f == ID_FRAME && 0x25u8 & 0x40 == 0 && 0x25u8 & FLAG_A != 0 && 0x25u8
            & FLAG_Z == 0,
        0x85u8 & 0x1f == ID_FRAME && 0x85u8 & 0x40 == 0 && 0x85u8 & FLAG_A == 0 && 0x85u8
            & FLAG_Z != 0,
        0xa5u8 & 0x1f == ID_FRAME && 0xa5u8 & 0x40 == 0 && 0xa5u8 & FLAG_A != 0 && 0xa5u8
            & FLAG_Z != 0,
{
    assert(forall|m: u8|
        1 <= m <= 3 ==> #[trigger] ((0x19u8 + 32 * m) as u8) & 0x1f == 0x19u8 && ((0x19u8 + 32
            * m) as u8) & 0x60 != 0 && ((0x19u8 + 32 * m) as u8) & 0x80 == 0 && ((((0x19u8 + 32
            * m) as u8) >> 5u8) & 3u8) == m) by (bit_vector);
    assert(0x1du8 & 0x1f == 0x1du8 && 0x1cu8 & 0x1f == 0x1cu8 && 0x1bu8 & 0x1f == 0x1bu8 && 0x1au8
        & 0x1f == 0x1au8 && 0x1eu8 & 0x1f == 0x1eu8 && 0x1fu8 & 0x1f == 0x1fu8 && 0x19u8 & 0x1f
        == 0x19u8 && 0x19u8 & 0x60 == 0 && 0x19u8 & 0x80 == 0 && 0x01u8 & 0x1f == 0x01u8 && 0x21u8
        & 0x1f == 0x01u8 && 0x02u8 & 0x1f == 0x02u8 && 0x22u8 & 0x1f == 0x02u8 && 0x03u8 & 0x1f
        == 0x03u8 && 0x04u8 & 0x1f == 0x04u8) by (bit_vector);
    assert(0x05u8 & 0x1f == 0x05u8 && 0x05u8 & 0x40 == 0 && 0x05u8 & 0x20 == 0 && 0x05u8 & 0x80
        == 0 && 0x25u8 & 0x1f == 0x05u8 && 0x25u8 & 0x40 == 0 && 0x25u8 & 0x20 != 0 && 0x25u8
        & 0x80 == 0 && 0x85u8 & 0x1f == 0x05u8 && 0x85u8 & 0x40 == 0 && 0x85u8 & 0x20 == 0
        && 0x85u8 & 0x80 != 0 && 0xa5u8 & 0x1f == 0x05u8 && 0xa5u8 & 0x40 == 0 && 0xa5u8 & 0x20
        != 0 && 0xa5u8 & 0x80 != 0) by (bit_vector);
}

// ---------------------------------------------------------------- writers

fn write_network_header(out: &mut Vec<u8>, b: &NetworkBody)
    requires
        network_wf(b@),
    ensures
        final(out)@ == old(out)@.push(network_header(b@)),
{
    let h: u8 = match b {
        NetworkBody::Push(_) => ID_PUSH,
        NetworkBody::Request(_) => ID_REQUEST,
        NetworkBody::Response(_) => ID_RESPONSE,
        NetworkBody::ResponseFinal(_) => ID_RESPONSE_FINAL,
        NetworkBody::Interest(m) => ID_INTEREST + 32 * m.mode,
        NetworkBody::InterestFinal(_) => ID_INTEREST,
        NetworkBody::Declare(_) => ID_DECLARE,
        NetworkBody::RawBody(_) => ID_RAW,
    };
    out.push(h);
}

/// Appends a network message body with its header.
pub fn write_network(out: &mut Vec<u8>, b: &NetworkBody)
    requires
        network_wf(b@),
    ensures
        final(out)@ == old(out)@ + ser_network(b@),
{
    write_network_header(out, b);
    match b {
        NetworkBody::Push(m) => {
            write_wire_expr(out, &m.wire_expr);
            write_bytes(out, m.payload.as_slice());
        },
        NetworkBody::Request(m) => {
            write_zint(out, m.id);
            write_wire_expr(out, &m.wire_expr);
            write_bytes(out, m.payload.as_slice());
        },
        NetworkBody::Response(m) => {
            write_zint(out, m.rid);
            write_wire_expr(out, &m.wire_expr);
            write_bytes(out, m.payload.as_slice());
        },
        NetworkBody::ResponseFinal(m) => {
            write_zint(out, m.rid);
        },
        NetworkBody::Interest(m) => {
            write_zint(out, m.id);
            write_u8(out, m.options);
        },
        NetworkBody::InterestFinal(m) => {
            write_zint(out, m.id);
        },
        NetworkBody::Declare(m) => {
            write_zint(out, m.id);
            write_wire_expr(out, &m.wire_expr);
        },
        NetworkBody::RawBody(m) => {
            write_bytes(out, m.buff.as_slice());
        },
    }
    proof {
        assert(final(out)@ =~= old(out)@ + ser_network(b@));
    }
}

/// Appends a transport message with its header.
pub fn write_transport(out: &mut Vec<u8>, t: &TransportMessage)
    ensures
        final(out)@ == old(out)@ + ser_transport(t@),
{
    match t {
        TransportMessage::Close(m) => {
            out.push(ID_CLOSE);
            write_u8(out, m.reason);
        },
        TransportMessage::InitSyn(m) => {
            out.push(ID_INIT);
            write_u8(out, m.version);
            write_bytes(out, m.zid.bytes.as_slice());
            write_u8(out, m.resolution.inner);
            write_u16(out, m.batch_size);
        },
        TransportMessage::InitAck(m) => {
            out.push(ID_INIT + FLAG_A);
            write_u8(out, m.version);
            write_bytes(out, m.zid.bytes.as_slice());
            write_u8(out, m.resolution.inner);
            write_u16(out, m.batch_size);
            write_bytes(out, m.cookie.as_slice());
        },
        TransportMessage::KeepAlive(_) => {
            out.push(ID_KEEP_ALIVE);
        },
        TransportMessage::OpenSyn(m) => {
            out.push(ID_OPEN);
            write_zint(out, m.lease);
            write_zint(out, m.sn as u64);
            write_bytes(out, m.cookie.as_slice());
        },
        TransportMessage::OpenAck(m) => {
            out.push(ID_OPEN + FLAG_A);
            write_zint(out, m.lease);
            write_zint(out, m.sn as u64);
        },
    }
    proof {
        assert(final(out)@ =~= old(out)@ + ser_transport(t@));
    }
}

/// Appends a frame header.
pub fn write_frame(out: &mut Vec<u8>, f: &FrameHeader)
    ensures
        final(out)@ == old(out)@ + ser_frame(*f),
{
    let r: u8 = match f.reliability {
        Reliability::Reliable => FLAG_A,
        Reliability::BestEffort => 0,
    };
    let z: u8 = if f.qos.inner != QOS_DEFAULT {
        FLAG_Z
    } else {
        0
    };
    out.push(ID_FRAME + r + z);
    write_zint(out, f.sn as u64);
    if f.qos.inner != QOS_DEFAULT {
        out.push(EXT_QOS);
        write_zint(out, f.qos.inner as u64);
    }
    proof {
        assert(final(out)@ =~= old(out)@ + ser_frame(*f));
    }
}

// ---------------------------------------------------------------- readers

fn read_payload_tail(buf: &[u8], pos: usize) -> (r: Option<(WireExpr, Vec<u8>, usize)>)
    ensures
        match parse_payload_tail(buf@, pos as int) {
            Some((w, b, q)) => r matches Some((x, y, e)) && x@ == w && y@ == b && e == q,
            None => r is None,
        },
{
    let (w, p1) = match read_wire_expr(buf, pos) {
        Some(x) => x,
        None => return None,
    };
    let (b, p2) = match read_bytes(buf, p1) {
        Some(x) => x,
        None => return None,
    };
    Some((w, b, p2))
}

fn read_network_body(buf: &[u8], pos: usize, h: u8) -> (r: Option<(NetworkBody, usize)>)
    ensures
        match parse_network_body(buf@, pos as int, h) {
            Some((v, q)) => r matches Some((w, e)) && w@ == v && e == q,
            None => r is None,
        },
{
    let id = h & 0x1f;
    if id == ID_PUSH && h == ID_PUSH {
        let (wire_expr, payload, q) = match read_payload_tail(buf, pos) {
            Some(x) => x,
            None => return None,
        };
        Some((NetworkBody::Push(Push { wire_expr, payload }), q))
    } else if id == ID_REQUEST && h == ID_REQUEST {
        let (i, p1) = match read_z64(buf, pos) {
            Some(x) => x,
            None => return None,
        };
        let (wire_expr, payload, q) = match read_payload_tail(buf, p1) {
            Some(x) => x,
            None => return None,
        };
        Some((NetworkBody::Request(Request { id: i, wire_expr, payload }), q))
    } else if id == ID_RESPONSE && h == ID_RESPONSE {
        let (i, p1) = match read_z64(buf, pos) {
            Some(x) => x,
            None => return None,
        };
        let (wire_expr, payload, q) = match read_payload_tail(buf, p1) {
            Some(x) => x,
            None => return None,
        };
        Some((NetworkBody::Response(Response { rid: i, wire_expr, payload }), q))
    } else if id == ID_RESPONSE_FINAL && h == ID_RESPONSE_FINAL {
        let (i, q) = match read_z64(buf, pos) {
            Some(x) => x,
            None => return None,
        };
        Some((NetworkBody::ResponseFinal(ResponseFinal { rid: i }), q))
    } else if id == ID_INTEREST && h & FLAG_Z == 0 {
        if h & 0x60 == 0 {
            let (i, q) = match read_z64(buf, pos) {
                Some(x) => x,
                None => return None,
            };
            Some((NetworkBody::InterestFinal(InterestFinal { id: i }), q))
        } else {
            let (i, p1) = match read_z64(buf, pos) {
                Some(x) => x,
                None => return None,
            };
            let (o, q) = match read_u8(buf, p1) {
                Some(x) => x,
                None => return None,
            };
            Some((NetworkBody::Interest(Interest { id: i, mode: (h >> 5) & 3, options: o }), q))
        }
    } else if id == ID_DECLARE && h == ID_DECLARE {
        let (i, p1) = match read_z64(buf, pos) {
            Some(x) => x,
            None => return None,
        };
        let (wire_expr, q) = match read_wire_expr(buf, p1) {
            Some(x) => x,
            None => return None,
        };
        Some((NetworkBody::Declare(Declare { id: i, wire_expr }), q))
    } else if id == ID_RAW && h == ID_RAW {
        let (b, q) = match read_bytes(buf, pos) {
            Some(x) => x,
            None => return None,
        };
        Some((NetworkBody::RawBody(RawBody { buff: b }), q))
    } else {
        None
    }
}

fn read_init_head(buf: &[u8], pos: usize) -> (r: Option<(u8, ZenohId, u8, u16, usize)>)
    ensures
        match parse_init_head(buf@, pos as int) {
            Some((v, z, x, bs, q)) => r matches Some((v2, z2, x2, bs2, e)) && v2 == v && z2@ == z
                && x2 == x && bs2 == bs && e == q,
            None => r is None,
        },
{
    let (v, p1) = match read_u8(buf, pos) {
        Some(x) => x,
        None => return None,
    };
    let (z, p2) = match read_zid(buf, p1) {
        Some(x) => x,
        None => return None,
    };
    let (x, p3) = match read_u8(buf, p2) {
        Some(x) => x,
        None => return None,
    };
    let (bs, p4) = match read_u16(buf, p3) {
        Some(x) => x,
        None => return None,
    };
    Some((v, z, x, bs, p4))
}

fn read_transport_body(buf: &[u8], pos: usize, h: u8) -> (r: Option<(TransportMessage, usize)>)
    ensures
        match parse_transport_body(buf@, pos as int, h) {
            Some((v, q)) => r matches Some((w, e)) && w@ == v && e == q,
            None => r is None,
        },
{
    if h == ID_INIT {
        let (version, zid, res, batch_size, q) = match read_init_head(buf, pos) {
            Some(x) => x,
            None => return None,
        };
        Some(
            (
                TransportMessage::InitSyn(
                    InitSyn { version, zid, resolution: Resolution { inner: res }, batch_size },
                ),
                q,
            ),
        )
    } else if h == ID_INIT + FLAG_A {
        let (version, zid, res, batch_size, p1) = match read_init_head(buf, pos) {
            Some(x) => x,
            None => return None,
        };
        let (cookie, q) = match read_bytes(buf, p1) {
            Some(x) => x,
            None => return None,
        };
        Some(
            (
                TransportMessage::InitAck(
                    InitAck {
                        version,
                        zid,
                        resolution: Resolution { inner: res },
                        batch_size,
                        cookie,
                    },
                ),
                q,
            ),
        )
    } else if h == ID_OPEN || h == ID_OPEN + FLAG_A {
        let (lease, p1) = match read_z64(buf, pos) {
            Some(x) => x,
            None => return None,
        };
        let (sn, p2) = match read_z32(buf, p1) {
            Some(x) => x,
            None => return None,
        };
        if h == ID_OPEN {
            let (cookie, q) = match read_bytes(buf, p2) {
                Some(x) => x,
                None => return None,
            };
            Some((TransportMessage::OpenSyn(OpenSyn { lease, sn, cookie }), q))
        } else {
            Some((TransportMessage::OpenAck(OpenAck { lease, sn }), p2))
        }
    } else if h == ID_CLOSE {
        let (reason, q) = match read_u8(buf, pos) {
            Some(x) => x,
            None => return None,
        };
        Some((TransportMessage::Close(Close { reason }), q))
    } else if h == ID_KEEP_ALIVE {
        Some((TransportMessage::KeepAlive(KeepAlive {  }), pos))
    } else {
        None
    }
}

fn read_exts(buf: &[u8], pos: usize, qos: u8) -> (r: Option<(u8, usize)>)
    ensures
        match parse_exts(buf@, pos as int, qos) {
            Some((v, q)) => r matches Some((w, e)) && w == v && e == q,
            None => r is None,
        },
    decreases buf@.len() - pos,
{
    if pos >= buf.len() {
        return None;
    }
    let e = buf[pos];
    let id = e & 0x0f;
    let enc = (e >> 5) & 3;
    let mandatory = e & 0x10 != 0;
    let more = e & 0x80 != 0;
    let (q2, p2): (u8, usize) = if enc == 0 {
        if id == 1 || mandatory {
            return None;
        }
        (qos, pos + 1)
    } else if enc == 1 {
        let (v, q) = match read_z64(buf, pos + 1) {
            Some(x) => x,
            None => return None,
        };
        if id == 1 {
            if v > 255 {
                return None;
            }
            (v as u8, q)
        } else if mandatory {
            return None;
        } else {
            (qos, q)
        }
    } else if enc == 2 {
        if id == 1 || mandatory {
            return None;
        }
        match read_bytes(buf, pos + 1) {
            Some((_, q)) => (qos, q),
            None => return None,
        }
    } else {
        return None;
    };
    if !more {
        Some((q2, p2))
    } else if p2 <= pos || p2 > buf.len() {
        None
    } else {
        read_exts(buf, p2, q2)
    }
}

fn read_frame_body(buf: &[u8], pos: usize, h: u8) -> (r: Option<(FrameHeader, usize)>)
    ensures
        match parse_frame_body(buf@, pos as int, h) {
            Some((v, q)) => r matches Some((w, e)) && w == v && e == q,
            None => r is None,
        },
{
    let reliability = if h & FLAG_A != 0 {
        Reliability::Reliable
    } else {
        Reliability::BestEffort
    };
    if h & 0x40 != 0 {
        return None;
    }
    let (sn, p1) = match read_z32(buf, pos) {
        Some(x) => x,
        None => return None,
    };
    if h & FLAG_Z == 0 {
        return Some((FrameHeader { reliability, sn, qos: QoS { inner: QOS_DEFAULT } }, p1));
    }
    match read_exts(buf, p1, QOS_DEFAULT) {
        Some((q, p2)) => Some((FrameHeader { reliability, sn, qos: QoS { inner: q } }, p2)),
        None => None,
    }
}

pub proof fn lemma_parse_exts_bounds(s: Seq<u8>, p: int, qos: u8)
    ensures
        parse_exts(s, p, qos) matches Some((v, q)) ==> p < q <= s.len(),
    decreases s.len() - p,
{
    lemma_parse_zint_bounds_all(s);
    if 0 <= p < s.len() {
        let e = s[p];
        let body: Option<(u8, int)> = if ext_enc(e) == 0 {
            if ext_id(e) == 1 || ext_mandatory(e) {
                None
            } else {
                Some((qos, p + 1))
            }
        } else if ext_enc(e) == 1 {
            match parse_z64(s, p + 1) {
                None => None,
                Some((v, q)) => if ext_id(e) == 1 {
                    if v <= 255 {
                        Some((v as u8, q))
                    } else {
                        None
                    }
                } else if ext_mandatory(e) {
                    None
                } else {
                    Some((qos, q))
                },
            }
        } else if ext_enc(e) == 2 {
            if ext_id(e) == 1 || ext_mandatory(e) {
                None
            } else {
                match parse_bytes(s, p + 1) {
                    None => None,
                    Some((_, q)) => Some((qos, q)),
                }
            }
        } else {
            None
        };
        match body {
            Some((q2, p2)) => if ext_more(e) && p < p2 <= s.len() {
                lemma_parse_exts_bounds(s, p2, q2);
            },
            None => {},
        }
    }
}

pub proof fn lemma_parse_item_bounds(s: Seq<u8>, p: int)
    ensures
        parse_item(s, p) matches Some((v, q)) ==> p < q <= s.len(),
{
    lemma_parse_zint_bounds_all(s);
    if 0 <= p < s.len() && s[p] & 0x1f == ID_FRAME {
        match parse_z32(s, p + 1) {
            Some((sn, p1)) => {
                lemma_parse_exts_bounds(s, p1, QOS_DEFAULT);
            },
            None => {},
        }
    }
}

/// Reads the item found at `pos`.
pub fn read_item(buf: &[u8], pos: usize) -> (r: Option<(Decoded, usize)>)
    ensures
        match parse_item(buf@, pos as int) {
            Some((v, q)) => r matches Some((w, e)) && w@ == v && e == q,
            None => r is None,
        },
        r matches Some((w, e)) ==> pos < e <= buf@.len(),
{
    proof {
        lemma_parse_item_bounds(buf@, pos as int);
    }
    if pos >= buf.len() {
        return None;
    }
    let h = buf[pos];
    let id = h & 0x1f;
    if id == ID_FRAME {
        match read_frame_body(buf, pos + 1, h) {
            Some((f, q)) => Some((Decoded::Frame(f), q)),
            None => None,
        }
    } else if id == ID_INIT || id == ID_OPEN || id == ID_CLOSE || id == ID_KEEP_ALIVE {
        match read_transport_body(buf, pos + 1, h) {
            Some((t, q)) => Some((Decoded::Transport(t), q)),
            None => None,
        }
    } else {
        match read_network_body(buf, pos + 1, h) {
            Some((b, q)) => Some((Decoded::Network(b), q)),
            None => None,
        }
    }
}

// ---------------------------------------------------------------- round trips

pub proof fn lemma_network_round_trip(b: NetworkBodyView, s: Seq<u8>, p: int)
    requires
        network_wf(b),
        holds_at(s, p, ser_network(b)),
    ensures
        parse_item(s, p) == Some((Item::Network(b), p + ser_network(b).len())),
{
    let h = network_header(b);
    let q = p + 1;
    lemma_holds_at_split(s, p, seq![h], ser_network_body(b));
    assert(s[p] == s.subrange(p, p + 1)[0]);
    lemma_header_bits();
    match b {
        NetworkBodyView::Push(m) => {
            let a = ser_wire_expr(m.wire_expr);
            lemma_holds_at_split(s, q, a, ser_bytes(m.payload));
            lemma_wire_expr_round_trip(m.wire_expr, s, q);
            lemma_bytes_round_trip(m.payload, s, q + a.len());
        },
        NetworkBodyView::Request(m) => {
            let a = ser_z64(m.id);
            let w = ser_wire_expr(m.wire_expr);
            lemma_holds_at_split3(s, q, a, w, ser_bytes(m.payload));
            lemma_z64_round_trip(m.id, s, q);
            lemma_wire_expr_round_trip(m.wire_expr, s, q + a.len());
            lemma_bytes_round_trip(m.payload, s, q + a.len() + w.len());
        },
        NetworkBodyView::Response(m) => {
            let a = ser_z64(m.rid);
            let w = ser_wire_expr(m.wire_expr);
            lemma_holds_at_split3(s, q, a, w, ser_bytes(m.payload));
            lemma_z64_round_trip(m.rid, s, q);
            lemma_wire_expr_round_trip(m.wire_expr, s, q + a.len());
            lemma_bytes_round_trip(m.payload, s, q + a.len() + w.len());
        },
        NetworkBodyView::ResponseFinal(m) => {
            lemma_z64_round_trip(m.rid, s, q);
        },
        NetworkBodyView::Interest(m) => {
            let a = ser_z64(m.id);
            lemma_holds_at_split(s, q, a, ser_u8(m.options));
            lemma_z64_round_trip(m.id, s, q);
            lemma_u8_round_trip(m.options, s, q + a.len());
            assert(h == ((ID_INTEREST + 32 * m.mode) as u8));
        },
        NetworkBodyView::InterestFinal(m) => {
            lemma_z64_round_trip(m.id, s, q);
        },
        NetworkBodyView::Declare(m) => {
            let a = ser_z64(m.id);
            lemma_holds_at_split(s, q, a, ser_wire_expr(m.wire_expr));
            lemma_z64_round_trip(m.id, s, q);
            lemma_wire_expr_round_trip(m.wire_expr, s, q + a.len());
        },
        NetworkBodyView::RawBody(r) => {
            lemma_bytes_round_trip(r, s, q);
        },
    }
}

pub proof fn lemma_transport_round_trip(t: TransportMessageView, s: Seq<u8>, p: int)
    requires
        transport_wf(t),
        holds_at(s, p, ser_transport(t)),
    ensures
        parse_item(s, p) == Some((Item::Transport(t), p + ser_transport(t).len())),
{
    let h = transport_header(t);
    let q = p + 1;
    lemma_holds_at_split(s, p, seq![h], ser_transport_body(t));
    assert(s[p] == s.subrange(p, p + 1)[0]);
    lemma_header_bits();
    match t {
        TransportMessageView::Close(m) => {
            lemma_u8_round_trip(m.reason, s, q);
        },
        TransportMessageView::InitSyn(m) => {
            let a = ser_u8(m.version);
            let z = ser_bytes(m.zid);
            let r = ser_u8(m.resolution.inner);
            lemma_holds_at_split4(s, q, a, z, r, ser_u16(m.batch_size));
            lemma_u8_round_trip(m.version, s, q);
            lemma_bytes_round_trip(m.zid, s, q + 1);
            lemma_u8_round_trip(m.resolution.inner, s, q + 1 + z.len());
            lemma_u16_round_trip(m.batch_size, s, q + 2 + z.len());
            assert(Resolution { inner: m.resolution.inner } == m.resolution);
        },
        TransportMessageView::InitAck(m) => {
            let a = ser_u8(m.version);
            let z = ser_bytes(m.zid);
            let r = ser_u8(m.resolution.inner);
            let u = ser_u16(m.batch_size);
            lemma_holds_at_split(s, q, a + z + r + u, ser_bytes(m.cookie));
            lemma_holds_at_split4(s, q, a, z, r, u);
            lemma_u8_round_trip(m.version, s, q);
            lemma_bytes_round_trip(m.zid, s, q + 1);
            lemma_u8_round_trip(m.resolution.inner, s, q + 1 + z.len());
            lemma_u16_round_trip(m.batch_size, s, q + 2 + z.len());
            lemma_bytes_round_trip(m.cookie, s, q + 4 + z.len());
            assert(Resolution { inner: m.resolution.inner } == m.resolution);
        },
        TransportMessageView::KeepAlive(m) => {
            assert(m == KeepAlive {  });
        },
        TransportMessageView::OpenSyn(m) => {
            let a = ser_z64(m.lease);
            let b = ser_z64(m.sn as u64);
            lemma_holds_at_split3(s, q, a, b, ser_bytes(m.cookie));
            lemma_z64_round_trip(m.lease, s, q);
            lemma_z32_round_trip(m.sn, s, q + a.len());
            lemma_bytes_round_trip(m.cookie, s, q + a.len() + b.len());
        },
        TransportMessageView::OpenAck(m) => {
            let a = ser_z64(m.lease);
            lemma_holds_at_split(s, q, a, ser_z64(m.sn as u64));
            lemma_z64_round_trip(m.lease, s, q);
            lemma_z32_round_trip(m.sn, s, q + a.len());
        },
    }
}

pub proof fn lemma_frame_round_trip(f: FrameHeader, s: Seq<u8>, p: int)
    requires
        holds_at(s, p, ser_frame(f)),
    ensures
        parse_item(s, p) == Some((Item::Frame(f), p + ser_frame(f).len())),
{
    let h = frame_header_byte(f);
    let a = ser_z64(f.sn as u64);
    let e = if f.qos.inner != QOS_DEFAULT {
        seq![EXT_QOS] + ser_z64(f.qos.inner as u64)
    } else {
        Seq::empty()
    };
    lemma_holds_at_split3(s, p, seq![h], a, e);
    assert(s[p] == s.subrange(p, p + 1)[0]);
    lemma_header_bits();
    lemma_z32_round_trip(f.sn, s, p + 1);
    if f.qos.inner != QOS_DEFAULT {
        lemma_holds_at_split(s, p + 1 + a.len(), seq![EXT_QOS], ser_z64(f.qos.inner as u64));
        lemma_u8_round_trip(EXT_QOS, s, p + 1 + a.len());
        lemma_z64_round_trip(f.qos.inner as u64, s, p + 2 + a.len());
        assert(s[p + 1 + a.len()] == EXT_QOS);
        assert(ext_id(EXT_QOS) == 1 && ext_enc(EXT_QOS) == 1 && !ext_more(EXT_QOS)) by {
            assert(0x21u8 & 0x0f == 1 && (0x21u8 >> 5u8) & 3u8 == 1 && 0x21u8 & 0x80 == 0)
                by (bit_vector);
        }
    }
    assert(f.qos == QoS { inner: f.qos.inner });
}

// ---------------------------------------------------------------- lengths

fn bytes_len(b: &[u8]) -> (r: usize)
    requires
        ser_bytes(b@).len() <= usize::MAX,
    ensures
        r == ser_bytes(b@).len(),
{
    zint_len(b.len() as u64) + b.len()
}

fn wire_expr_len(w: &WireExpr) -> (r: usize)
    requires
        ser_wire_expr(w@).len() <= usize::MAX,
    ensures
        r == ser_wire_expr(w@).len(),
{
    zint_len(w.scope) + bytes_len(w.suffix.as_slice())
}

/// The number of bytes `write_network` appends for `b`.
pub fn network_len(b: &NetworkBody) -> (r: usize)
    requires
        ser_network(b@).len() <= usize::MAX,
    ensures
        r == ser_network(b@).len(),
{
    let body = match b {
        NetworkBody::Push(m) => wire_expr_len(&m.wire_expr) + bytes_len(m.payload.as_slice()),
        NetworkBody::Request(m) => zint_len(m.id) + wire_expr_len(&m.wire_expr) + bytes_len(
            m.payload.as_slice(),
        ),
        NetworkBody::Response(m) => zint_len(m.rid) + wire_expr_len(&m.wire_expr) + bytes_len(
            m.payload.as_slice(),
        ),
        NetworkBody::ResponseFinal(m) => zint_len(m.rid),
        NetworkBody::Interest(m) => zint_len(m.id) + 1,
        NetworkBody::InterestFinal(m) => zint_len(m.id),
        NetworkBody::Declare(m) => zint_len(m.id) + wire_expr_len(&m.wire_expr),
        NetworkBody::RawBody(m) => bytes_len(m.buff.as_slice()),
    };
    1 + body
}

/// The number of bytes `write_transport` appends for `t`.
pub fn transport_len(t: &TransportMessage) -> (r: usize)
    requires
        ser_transport(t@).len() <= usize::MAX,
    ensures
        r == ser_transport(t@).len(),
{
    let body = match t {
        TransportMessage::Close(_) => 1,
        TransportMessage::InitSyn(m) => 1 + bytes_len(m.zid.bytes.as_slice()) + 1 + 2,
        TransportMessage::InitAck(m) => 1 + bytes_len(m.zid.bytes.as_slice()) + 1 + 2 + bytes_len(
            m.cookie.as_slice(),
        ),
        TransportMessage::KeepAlive(_) => 0,
        TransportMessage::OpenSyn(m) => zint_len(m.lease) + zint_len(m.sn as u64) + bytes_len(
            m.cookie.as_slice(),
        ),
        TransportMessage::OpenAck(m) => zint_len(m.lease) + zint_len(m.sn as u64),
    };
    1 + body
}

/// The number of bytes `write_frame` appends for `f`.
pub fn frame_len(f: &FrameHeader) -> (r: usize)
    ensures
        r == ser_frame(*f).len(),
{
    if f.qos.inner != QOS_DEFAULT {
        1 + zint_len(f.sn as u64) + 1 + zint_len(f.qos.inner as u64)
    } else {
        1 + zint_len(f.sn as u64)
    }
}

// ---------------------------------------------------------------- laws

/// Every well-formed network message reads back, as itself, from its bytes.
pub proof fn law_network_round_trip(b: NetworkBodyView)
    requires
        network_wf(b),
    ensures
        parse_item(ser_network(b), 0) == Some((Item::Network(b), ser_network(b).len() as int)),
{
    let s = ser_network(b);
    assert(s.subrange(0, s.len() as int) =~= s);
    lemma_network_round_trip(b, s, 0);
}

/// Every well-formed transport message reads back, as itself, from its bytes.
pub proof fn law_transport_round_trip(t: TransportMessageView)
    requires
        transport_wf(t),
    ensures
        parse_item(ser_transport(t), 0) == Some((Item::Transport(t), ser_transport(t).len() as int)),
{
    let s = ser_transport(t);
    assert(s.subrange(0, s.len() as int) =~= s);
    lemma_transport_round_trip(t, s, 0);
}

/// Every frame header reads back, as itself, from its bytes.
pub proof fn law_frame_round_trip(f: FrameHeader)
    ensures
        parse_item(ser_frame(f), 0) == Some((Item::Frame(f), ser_frame(f).len() as int)),
{
    let s = ser_frame(f);
    assert(s.subrange(0, s.len() as int) =~= s);
    lemma_frame_round_trip(f, s, 0);
}

} // verus!
