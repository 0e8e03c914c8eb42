//! Session establishment: a four-state machine that exchanges InitSyn,
//! InitAck, OpenSyn and OpenAck and ends in an opened session with
//! negotiated parameters.
use vstd::prelude::*;
use crate::batch::{parse_batch, BatchReader};
use crate::codec::{ser_transport, write_transport};
use crate::msgs::{
    Bits, Field, InitAck, InitSyn, InitSynView, Message, MessageView, OpenAck, OpenSyn, Resolution,
    TransportMessage, TransportMessageView, ZenohId, InitAckView, OpenSynView, VERSION,
    bits_of, code_of,
};

verus! {

// ---------------------------------------------------------------- SHAKE128

/// The first four bytes, read as a little-endian `u32`, of the SHAKE128
/// output for `input`.
pub uninterp spec fn shake128_u32(input: Seq<u8>) -> u32;

/// Relies on sha3's `Shake128`: absorbing `a` then `b` equals absorbing
/// their concatenation; the first four output bytes are read little-endian.
#[verifier::external_body]
fn shake128_of(a: &[u8], b: &[u8]) -> (r: u32)
    ensures
        r == shake128_u32(a@ + b@),
{
    let mut hasher = sha3::Shake128::default();
    sha3::digest::Update::update(&mut hasher, a);
    sha3::digest::Update::update(&mut hasher, b);
    let mut out = [0u8; 4];
    sha3::digest::ExtendableOutput::finalize_xof_into(hasher, &mut out);
    u32::from_le_bytes(out)
}

// ---------------------------------------------------------------- negotiation

/// The initial sequence number taken from a hash output: the hash modulo
/// 2^width, width being that of the frame sequence numbers (a `u32` hash is
/// left whole by 32 and 64 bits).
pub open spec fn derived_sn(hash: u32, b: Bits) -> u32 {
    match b {
        Bits::U8 => (hash % 0x100) as u32,
        Bits::U16 => (hash % 0x1_0000) as u32,
        Bits::U32 => hash,
        Bits::U64 => hash,
    }
}

pub fn derive_sn(hash: u32, b: Bits) -> (r: u32)
    ensures
        r == derived_sn(hash, b),
{
    match b {
        Bits::U8 => hash % 0x100,
        Bits::U16 => hash % 0x1_0000,
        Bits::U32 => hash,
        Bits::U64 => hash,
    }
}

/// The initial sequence number of the session between `mine` and `other`:
/// SHAKE128 of both identifiers, mine first, modulo 2^width of the frame
/// sequence numbers of `resolution`.
pub fn negotiate_sn(mine: &ZenohId, other: &ZenohId, resolution: Resolution) -> (r: u32)
    ensures
        r == derived_sn(shake128_u32(mine@ + other@), resolution.spec_get(Field::FrameSN)),
{
    let hash = shake128_of(mine.bytes.as_slice(), other.bytes.as_slice());
    derive_sn(hash, resolution.get(Field::FrameSN))
}

pub open spec fn field_code(r: Resolution, f: Field) -> u8 {
    code_of(r.spec_get(f))
}

/// The resolution both sides agree on: the other side's width per field,
/// refused where it is wider than mine.
pub open spec fn negotiated_resolution(mine: Resolution, other: Resolution) -> Option<Resolution> {
    if field_code(other, Field::FrameSN) > field_code(mine, Field::FrameSN) || field_code(
        other,
        Field::RequestID,
    ) > field_code(mine, Field::RequestID) {
        None
    } else {
        Some(
            Resolution {
                inner: (field_code(other, Field::FrameSN) + 4 * field_code(
                    other,
                    Field::RequestID,
                )) as u8,
            },
        )
    }
}

fn code(b: Bits) -> (r: u8)
    ensures
        r == code_of(b),
        r <= 3,
{
    match b {
        Bits::U8 => 0,
        Bits::U16 => 1,
        Bits::U32 => 2,
        Bits::U64 => 3,
    }
}

pub fn negotiate_resolution(mine: &Resolution, other: &Resolution) -> (r: Option<Resolution>)
    ensures
        r == negotiated_resolution(*mine, *other),
{
    let of = code(other.get(Field::FrameSN));
    let mf = code(mine.get(Field::FrameSN));
    let orid = code(other.get(Field::RequestID));
    let mrid = code(mine.get(Field::RequestID));
    if of > mf || orid > mrid {
        None
    } else {
        Some(Resolution { inner: of + 4 * orid })
    }
}

/// The negotiated resolution selects the other side's width for each field.
pub proof fn lemma_negotiated_resolution_fields(mine: Resolution, other: Resolution)
    requires
        negotiated_resolution(mine, other) is Some,
    ensures
        negotiated_resolution(mine, other).unwrap().spec_get(Field::FrameSN) == other.spec_get(
            Field::FrameSN,
        ),
        negotiated_resolution(mine, other).unwrap().spec_get(Field::RequestID) == other.spec_get(
            Field::RequestID,
        ),
{
    let f = field_code(other, Field::FrameSN);
    let q = field_code(other, Field::RequestID);
    let x = (f + 4 * q) as u8;
    assert(f <= 3 && q <= 3);
    assert(((x >> 0u8) & 3u8) == f && ((x >> 2u8) & 3u8) == q) by (bit_vector)
        requires
            x == (f + 4 * q) as u8,
            f <= 3,
            q <= 3,
    ;
    assert(bits_of(code_of(other.spec_get(Field::FrameSN))) == other.spec_get(Field::FrameSN));
    assert(bits_of(code_of(other.spec_get(Field::RequestID))) == other.spec_get(
        Field::RequestID,
    ));
}

pub open spec fn min_u16(a: u16, b: u16) -> u16 {
    if a < b {
        a
    } else {
        b
    }
}

pub fn negotiate_batch_size(mine: u16, other: u16) -> (r: u16)
    ensures
        r == min_u16(mine, other),
{
    if mine < other {
        mine
    } else {
        other
    }
}

// ---------------------------------------------------------------- states

/// Everything that describes an opened session between two peers. Leases
/// are in milliseconds.
#[derive(Debug, Clone, PartialEq, Eq)]
pub struct Description {
    pub mine_zid: ZenohId,
    pub batch_size: u16,
    pub resolution: Resolution,
    pub mine_lease: u64,
    pub other_lease: u64,
    pub sn: u32,
    pub other_sn: u32,
    pub other_zid: ZenohId,
}

pub struct DescriptionView {
    pub mine_zid: Seq<u8>,
    pub batch_size: u16,
    pub resolution: Resolution,
    pub mine_lease: u64,
    pub other_lease: u64,
    pub sn: u32,
    pub other_sn: u32,
    pub other_zid: Seq<u8>,
}

impl View for Description {
    type V = DescriptionView;

    open spec fn view(&self) -> DescriptionView {
        DescriptionView {
            mine_zid: self.mine_zid@,
            batch_size: self.batch_size,
            resolution: self.resolution,
            mine_lease: self.mine_lease,
            other_lease: self.other_lease,
            sn: self.sn,
            other_sn: self.other_sn,
            other_zid: self.other_zid@,
        }
    }
}

/// The listener starts in `WaitingInitSyn`, the connector in
/// `WaitingInitAck` once it has sent its InitSyn.
#[derive(Debug, Clone, PartialEq, Eq)]
pub enum State {
    WaitingInitSyn {
        mine_zid: ZenohId,
        mine_batch_size: u16,
        mine_resolution: Resolution,
        mine_lease: u64,
    },
    WaitingOpenSyn {
        mine_zid: ZenohId,
        mine_batch_size: u16,
        mine_resolution: Resolution,
        mine_lease: u64,
    },
    WaitingInitAck {
        mine_zid: ZenohId,
        mine_batch_size: u16,
        mine_resolution: Resolution,
        mine_lease: u64,
    },
    WaitingOpenAck {
        mine_zid: ZenohId,
        batch_size: u16,
        resolution: Resolution,
        sn: u32,
        mine_lease: u64,
        other_zid: ZenohId,
    },
    Opened(Description),
}

pub enum StateView {
    WaitingInitSyn { mine_zid: Seq<u8>, mine_batch_size: u16, mine_resolution: Resolution, mine_lease: u64 },
    WaitingOpenSyn { mine_zid: Seq<u8>, mine_batch_size: u16, mine_resolution: Resolution, mine_lease: u64 },
    WaitingInitAck { mine_zid: Seq<u8>, mine_batch_size: u16, mine_resolution: Resolution, mine_lease: u64 },
    WaitingOpenAck {
        mine_zid: Seq<u8>,
        batch_size: u16,
        resolution: Resolution,
        sn: u32,
        mine_lease: u64,
        other_zid: Seq<u8>,
    },
    Opened(DescriptionView),
}

impl View for State {
    type V = StateView;

    open spec fn view(&self) -> StateView {
        match self {
            State::WaitingInitSyn { mine_zid, mine_batch_size, mine_resolution, mine_lease } =>
                StateView::WaitingInitSyn {
                mine_zid: mine_zid@,
                mine_batch_size: *mine_batch_size,
                mine_resolution: *mine_resolution,
                mine_lease: *mine_lease,
            },
            State::WaitingOpenSyn { mine_zid, mine_batch_size, mine_resolution, mine_lease } =>
                StateView::WaitingOpenSyn {
                mine_zid: mine_zid@,
                mine_batch_size: *mine_batch_size,
                mine_resolution: *mine_resolution,
                mine_lease: *mine_lease,
            },
            State::WaitingInitAck { mine_zid, mine_batch_size, mine_resolution, mine_lease } =>
                StateView::WaitingInitAck {
                mine_zid: mine_zid@,
                mine_batch_size: *mine_batch_size,
                mine_resolution: *mine_resolution,
                mine_lease: *mine_lease,
            },
            State::WaitingOpenAck { mine_zid, batch_size, resolution, sn, mine_lease, other_zid } =>
                StateView::WaitingOpenAck {
                mine_zid: mine_zid@,
                batch_size: *batch_size,
                resolution: *resolution,
                sn: *sn,
                mine_lease: *mine_lease,
                other_zid: other_zid@,
            },
            State::Opened(d) => StateView::Opened(d@),
        }
    }
}

// ---------------------------------------------------------------- transitions

/// The first InitSyn among the messages `ms`.
pub open spec fn first_init_syn(ms: Seq<MessageView>) -> Option<InitSynView>
    decreases ms.len(),
{
    if ms.len() == 0 {
        None
    } else {
        match ms[0] {
            MessageView::Transport(TransportMessageView::InitSyn(s)) => Some(s),
            _ => first_init_syn(ms.drop_first()),
        }
    }
}

/// The InitSyn a cookie carries.
pub open spec fn cookie_syn(cookie: Seq<u8>) -> Option<InitSynView> {
    first_init_syn(parse_batch(cookie, 0, None, 0))
}

/// What a state does with one transport message: its next state and its
/// response, or `None` where it refuses the message, which ends the batch.
pub open spec fn step(s: StateView, t: TransportMessageView) -> Option<(StateView, Option<TransportMessageView>)> {
    match t {
        TransportMessageView::InitSyn(syn) => match s {
            StateView::WaitingInitSyn { mine_zid, mine_batch_size, mine_resolution, mine_lease } =>
                Some(
                (
                    StateView::WaitingOpenSyn {
                        mine_zid,
                        mine_batch_size,
                        mine_resolution,
                        mine_lease,
                    },
                    Some(
                        TransportMessageView::InitAck(
                            InitAckView {
                                version: VERSION,
                                zid: mine_zid,
                                resolution: mine_resolution,
                                batch_size: mine_batch_size,
                                cookie: ser_transport(TransportMessageView::InitSyn(syn)),
                            },
                        ),
                    ),
                ),
            ),
            _ => None,
        },
        TransportMessageView::InitAck(ack) => match s {
            StateView::WaitingInitAck { mine_zid, mine_batch_size, mine_resolution, mine_lease } =>
                if ack.batch_size == 0 {
                None
            } else {
                match negotiated_resolution(mine_resolution, ack.resolution) {
                    None => None,
                    Some(resolution) => {
                        let sn = derived_sn(
                            shake128_u32(mine_zid + ack.zid),
                            resolution.spec_get(Field::FrameSN),
                        );
                        Some(
                            (
                                StateView::WaitingOpenAck {
                                    mine_zid,
                                    batch_size: min_u16(mine_batch_size, ack.batch_size),
                                    resolution,
                                    sn,
                                    mine_lease,
                                    other_zid: ack.zid,
                                },
                                Some(
                                    TransportMessageView::OpenSyn(
                                        OpenSynView { lease: mine_lease, sn, cookie: ack.cookie },
                                    ),
                                ),
                            ),
                        )
                    },
                }
            },
            _ => None,
        },
        TransportMessageView::OpenSyn(open) => match s {
            StateView::WaitingOpenSyn { mine_zid, mine_batch_size, mine_resolution, mine_lease } =>
                match cookie_syn(open.cookie) {
                None => None,
                Some(syn) => if syn.batch_size == 0 {
                    None
                } else {
                    match negotiated_resolution(mine_resolution, syn.resolution) {
                        None => None,
                        Some(resolution) => {
                            let sn = derived_sn(
                                shake128_u32(mine_zid + syn.zid),
                                resolution.spec_get(Field::FrameSN),
                            );
                            Some(
                                (
                                    StateView::Opened(
                                        DescriptionView {
                                            mine_zid,
                                            batch_size: min_u16(mine_batch_size, syn.batch_size),
                                            resolution,
                                            mine_lease,
                                            other_lease: open.lease,
                                            sn,
                                            other_sn: open.sn,
                                            other_zid: syn.zid,
                                        },
                                    ),
                                    Some(
                                        TransportMessageView::OpenAck(
                                            OpenAck { lease: mine_lease, sn },
                                        ),
                                    ),
                                ),
                            )
                        },
                    }
                },
            },
            _ => None,
        },
        TransportMessageView::OpenAck(ack) => match s {
            StateView::WaitingOpenAck { mine_zid, batch_size, resolution, sn, mine_lease, other_zid } =>
                Some(
                (
                    StateView::Opened(
                        DescriptionView {
                            mine_zid,
                            batch_size,
                            resolution,
                            mine_lease,
                            other_lease: ack.lease,
                            sn,
                            other_sn: ack.sn,
                            other_zid,
                        },
                    ),
                    None,
                ),
            ),
            _ => None,
        },
        _ => Some((s, None)),
    }
}

pub open spec fn ser_response(r: Option<TransportMessageView>) -> Seq<u8> {
    match r {
        Some(t) => ser_transport(t),
        None => Seq::empty(),
    }
}

/// The state after the messages `ms` and the bytes of the responses.
/// Network messages are passed over; a refused message ends the batch.
pub open spec fn run(s: StateView, ms: Seq<MessageView>) -> (StateView, Seq<u8>)
    decreases ms.len(),
{
    if ms.len() == 0 {
        (s, Seq::empty())
    } else {
        match ms[0] {
            MessageView::Network(_) => run(s, ms.drop_first()),
            MessageView::Transport(t) => match step(s, t) {
                None => (s, Seq::empty()),
                Some((s2, resp)) => {
                    let (s3, out) = run(s2, ms.drop_first());
                    (s3, ser_response(resp) + out)
                },
            },
        }
    }
}

pub open spec fn opt_view(o: Option<TransportMessage>) -> Option<TransportMessageView> {
    match o {
        Some(t) => Some(t@),
        None => None,
    }
}

fn cookie_init_syn(cookie: &[u8]) -> (r: Option<InitSyn>)
    ensures
        match cookie_syn(cookie@) {
            Some(s) => r matches Some(x) && x@ == s,
            None => r is None,
        },
{
    let ghost ms = parse_batch(cookie@, 0, None, 0);
    let mut reader = BatchReader::new(cookie);
    let ghost seen: Seq<MessageView> = Seq::empty();
    loop
        invariant
            reader.bytes() == cookie@,
            ms == parse_batch(cookie@, 0, None, 0),
            ms == seen + reader.rest(),
            first_init_syn(seen) is None,
            cookie_syn(cookie@) == first_init_syn(reader.rest()),
        decreases reader.rest().len(),
    {
        let ghost before = reader.rest();
        match reader.next() {
            None => {
                return None;
            },
            Some(m) => {
                proof {
                    assert(before[0] == m@);
                    assert(before.drop_first() =~= reader.rest());
                }
                match m {
                    Message::Transport(TransportMessage::InitSyn(s)) => {
                        return Some(s);
                    },
                    _ => {
                        proof {
                            lemma_first_init_syn_push(seen, m@);
                            assert(seen + before =~= seen.push(m@) + reader.rest());
                            seen = seen.push(m@);
                        }
                    },
                }
            },
        }
    }
}

proof fn lemma_first_init_syn_push(ms: Seq<MessageView>, m: MessageView)
    requires
        first_init_syn(ms) is None,
        !(m matches MessageView::Transport(TransportMessageView::InitSyn(_))),
    ensures
        first_init_syn(ms.push(m)) is None,
    decreases ms.len(),
{
    if ms.len() == 0 {
        assert(ms.push(m).drop_first() =~= Seq::<MessageView>::empty());
        assert(ms.push(m)[0] == m);
        assert(first_init_syn(Seq::<MessageView>::empty()) is None);
        assert(first_init_syn(ms.push(m)) == first_init_syn(ms.push(m).drop_first()));
    } else {
        assert(ms.push(m).drop_first() =~= ms.drop_first().push(m));
        assert(ms.push(m)[0] == ms[0]);
        assert(first_init_syn(ms) == first_init_syn(ms.drop_first()));
        lemma_first_init_syn_push(ms.drop_first(), m);
        assert(first_init_syn(ms.push(m)) == first_init_syn(ms.push(m).drop_first()));
    }
}

impl State {
    pub open spec fn is_opened(&self) -> bool {
        self is Opened
    }

    pub fn opened(&self) -> (r: bool)
        ensures
            r == self.is_opened(),
    {
        match self {
            State::Opened(_) => true,
            _ => false,
        }
    }

    /// Applies one transport message; `None` where this state refuses it,
    /// and then nothing changes.
    fn handle(&mut self, t: TransportMessage) -> (r: Option<Option<TransportMessage>>)
        ensures
            match step(old(self)@, t@) {
                None => r is None && final(self)@ == old(self)@,
                Some((s2, resp)) => r matches Some(x) && opt_view(x) == resp && final(self)@ == s2,
            },
    {
        match t {
            TransportMessage::InitSyn(syn) => {
                let (z, bs, res, lease) = match &*self {
                    State::WaitingInitSyn {
                        mine_zid,
                        mine_batch_size,
                        mine_resolution,
                        mine_lease,
                    } => (mine_zid.duplicate(), *mine_batch_size, *mine_resolution, *mine_lease),
                    _ => return None,
                };
                let zid = z.duplicate();
                let mut cookie: Vec<u8> = Vec::new();
                let syn_msg = TransportMessage::InitSyn(syn);
                write_transport(&mut cookie, &syn_msg);
                proof {
                    assert(cookie@ =~= ser_transport(syn_msg@));
                }
                *self = State::WaitingOpenSyn {
                    mine_zid: z,
                    mine_batch_size: bs,
                    mine_resolution: res,
                    mine_lease: lease,
                };
                Some(
                    Some(
                        TransportMessage::InitAck(
                            InitAck { version: VERSION, zid, resolution: res, batch_size: bs, cookie },
                        ),
                    ),
                )
            },
            TransportMessage::InitAck(ack) => {
                let (z, bs, res, lease) = match &*self {
                    State::WaitingInitAck {
                        mine_zid,
                        mine_batch_size,
                        mine_resolution,
                        mine_lease,
                    } => (mine_zid.duplicate(), *mine_batch_size, *mine_resolution, *mine_lease),
                    _ => return None,
                };
                if ack.batch_size == 0 {
                    return None;
                }
                let resolution = match negotiate_resolution(&res, &ack.resolution) {
                    Some(r) => r,
                    None => return None,
                };
                let sn = negotiate_sn(&z, &ack.zid, resolution);
                let batch_size = negotiate_batch_size(bs, ack.batch_size);
                *self = State::WaitingOpenAck {
                    mine_zid: z,
                    batch_size,
                    resolution,
                    sn,
                    mine_lease: lease,
                    other_zid: ack.zid,
                };
                Some(Some(TransportMessage::OpenSyn(OpenSyn { lease, sn, cookie: ack.cookie })))
            },
            TransportMessage::OpenSyn(open) => {
                let (z, bs, res, lease) = match &*self {
                    State::WaitingOpenSyn {
                        mine_zid,
                        mine_batch_size,
                        mine_resolution,
                        mine_lease,
                    } => (mine_zid.duplicate(), *mine_batch_size, *mine_resolution, *mine_lease),
                    _ => return None,
                };
                let syn = match cookie_init_syn(open.cookie.as_slice()) {
                    Some(s) => s,
                    None => return None,
                };
                if syn.batch_size == 0 {
                    return None;
                }
                let resolution = match negotiate_resolution(&res, &syn.resolution) {
                    Some(r) => r,
                    None => return None,
                };
                let sn = negotiate_sn(&z, &syn.zid, resolution);
                let batch_size = negotiate_batch_size(bs, syn.batch_size);
                *self = State::Opened(
                    Description {
                        mine_zid: z,
                        batch_size,
                        resolution,
                        mine_lease: lease,
                        other_lease: open.lease,
                        sn,
                        other_sn: open.sn,
                        other_zid: syn.zid,
                    },
                );
                Some(Some(TransportMessage::OpenAck(OpenAck { lease, sn })))
            },
            TransportMessage::OpenAck(ack) => {
                let (z, bs, res, sn, lease, oz) = match &*self {
                    State::WaitingOpenAck {
                        mine_zid,
                        batch_size,
                        resolution,
                        sn,
                        mine_lease,
                        other_zid,
                    } => (
                        mine_zid.duplicate(),
                        *batch_size,
                        *resolution,
                        *sn,
                        *mine_lease,
                        other_zid.duplicate(),
                    ),
                    _ => return None,
                };
                *self = State::Opened(
                    Description {
                        mine_zid: z,
                        batch_size: bs,
                        resolution: res,
                        mine_lease: lease,
                        other_lease: ack.lease,
                        sn,
                        other_sn: ack.sn,
                        other_zid: oz,
                    },
                );
                Some(None)
            },
            _ => Some(None),
        }
    }

    /// The description of an opened session.
    pub fn description(&self) -> (r: Option<Description>)
        ensures
            match self@ {
                StateView::Opened(d) => r matches Some(x) && x@ == d,
                _ => r is None,
            },
    {
        match self {
            State::Opened(d) => Some(
                Description {
                    mine_zid: d.mine_zid.duplicate(),
                    batch_size: d.batch_size,
                    resolution: d.resolution,
                    mine_lease: d.mine_lease,
                    other_lease: d.other_lease,
                    sn: d.sn,
                    other_sn: d.other_sn,
                    other_zid: d.other_zid.duplicate(),
                },
            ),
            _ => None,
        }
    }

    /// Drives the handshake with the batch `read`: each transport message is
    /// applied in turn and the responses are appended to `write`. Returns the
    /// description once the session is opened.
    pub fn poll(&mut self, read: &[u8], write: &mut Vec<u8>) -> (r: Option<Description>)
        ensures
            ({
                let (s, out) = run(old(self)@, parse_batch(read@, 0, None, 0));
                if old(self).is_opened() {
                    final(self)@ == old(self)@ && final(write)@ == old(write)@
                } else {
                    final(self)@ == s && final(write)@ == old(write)@ + out
                }
            }),
            match final(self)@ {
                StateView::Opened(d) => r matches Some(x) && x@ == d,
                _ => r is None,
            },
    {
        if self.opened() {
            return self.description();
        }
        let ghost ms = parse_batch(read@, 0, None, 0);
        let ghost start = old(self)@;
        let mut reader = BatchReader::new(read);
        loop
            invariant_except_break
                run(start, ms).0 == run(self@, reader.rest()).0,
                run(start, ms).1 == write@.subrange(old(write)@.len() as int, write@.len() as int)
                    + run(self@, reader.rest()).1,
            invariant
                reader.bytes() == read@,
                ms == parse_batch(read@, 0, None, 0),
                start == old(self)@,
                old(write)@.len() <= write@.len(),
                write@.subrange(0, old(write)@.len() as int) == old(write)@,
            ensures
                run(start, ms).0 == self@,
                run(start, ms).1 == write@.subrange(old(write)@.len() as int, write@.len() as int),
                old(write)@.len() <= write@.len(),
                write@.subrange(0, old(write)@.len() as int) == old(write)@,
            decreases reader.rest().len(),
        {
            let ghost before = reader.rest();
            let ghost w0 = write@;
            match reader.next() {
                None => {
                    proof {
                        assert(write@.subrange(old(write)@.len() as int, write@.len() as int)
                            + Seq::<u8>::empty() =~= write@.subrange(
                            old(write)@.len() as int,
                            write@.len() as int,
                        ));
                    }
                    break;
                },
                Some(m) => {
                    proof {
                        assert(before[0] == m@);
                        assert(before.drop_first() =~= reader.rest());
                    }
                    match m {
                        Message::Network(_) => {},
                        Message::Transport(t) => {
                            match self.handle(t) {
                                None => {
                                    proof {
                                        assert(write@.subrange(
                                            old(write)@.len() as int,
                                            write@.len() as int,
                                        ) + Seq::<u8>::empty() =~= write@.subrange(
                                            old(write)@.len() as int,
                                            write@.len() as int,
                                        ));
                                    }
                                    break;
                                },
                                Some(resp) => {
                                    match resp {
                                        Some(x) => {
                                            write_transport(write, &x);
                                        },
                                        None => {},
                                    }
                                    proof {
                                        let prev = w0.subrange(
                                            old(write)@.len() as int,
                                            w0.len() as int,
                                        );
                                        let added = ser_response(opt_view(resp));
                                        assert(write@ =~= w0 + added);
                                        assert(write@.subrange(
                                            old(write)@.len() as int,
                                            write@.len() as int,
                                        ) =~= prev + added);
                                        assert(write@.subrange(0, old(write)@.len() as int)
                                            =~= w0.subrange(0, old(write)@.len() as int));
                                        assert(prev + (added + run(self@, reader.rest()).1)
                                            =~= (prev + added) + run(self@, reader.rest()).1);
                                    }
                                },
                            }
                        },
                    }
                },
            }
        }
        proof {
            assert(write@ =~= old(write)@ + write@.subrange(
                old(write)@.len() as int,
                write@.len() as int,
            ));
        }
        self.description()
    }
}

} // verus!
