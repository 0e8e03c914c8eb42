//! Session glue: one-message envelopes, the codec-only session, and the
//! sender that cuts a stream of messages into batches.
use vstd::prelude::*;
use vstd::slice::slice_subrange;
use crate::batch::{parse_batch, BatchReader};
use crate::codec::{network_wf, ser_transport, write_transport};
use crate::error::TransportError;
use crate::msgs::{
    Message, MessageView, NetworkMessage, NetworkMessageView, Resolution, TransportMessage,
    TransportMessageView,
};
use crate::batch::{framed_bytes, lemma_run_push, run_bytes, run_end};
use crate::tx::{byte_views, envelope, views_of, TransportTx};
use crate::wire::{parse_u16, read_u16, ser_u16, write_at, write_u16};

verus! {

/// Writes `msg` at the start of `buff`, in its envelope, and returns the
/// bytes written.
pub fn write_streamed<'a>(buff: &'a mut Vec<u8>, msg: &TransportMessage, streamed: bool) -> (r:
    Result<&'a [u8], TransportError>)
    ensures
        final(buff)@.len() == old(buff)@.len(),
        ({
            let bytes = envelope(streamed, ser_transport(msg@));
            match r {
                Ok(out) => bytes.len() <= old(buff)@.len() && (streamed ==> ser_transport(msg@).len()
                    <= u16::MAX) && out@ == bytes && final(buff)@.subrange(
                    0,
                    bytes.len() as int,
                ) == bytes,
                Err(e) => final(buff)@ == old(buff)@ && if streamed && old(buff)@.len() < 2 {
                    e == TransportError::TransportTooSmall
                } else {
                    e == TransportError::MessageTooLargeForBatch && (bytes.len() > old(buff)@.len()
                        || (streamed && ser_transport(msg@).len() > u16::MAX))
                },
            }
        }),
{
    if streamed && buff.len() < 2 {
        return Err(TransportError::TransportTooSmall);
    }
    let mut bytes: Vec<u8> = Vec::new();
    let mut body: Vec<u8> = Vec::new();
    write_transport(&mut body, msg);
    if streamed {
        if body.len() > buff.len() - 2 || body.len() > u16::MAX as usize {
            return Err(TransportError::MessageTooLargeForBatch);
        }
        write_u16(&mut bytes, body.len() as u16);
    } else if body.len() > buff.len() {
        return Err(TransportError::MessageTooLargeForBatch);
    }
    let mut i: usize = 0;
    let ghost head = bytes@;
    while i < body.len()
        invariant
            i <= body@.len(),
            bytes@ == head + body@.subrange(0, i as int),
        decreases body@.len() - i,
    {
        bytes.push(body[i]);
        proof {
            assert(body@.subrange(0, i + 1) =~= body@.subrange(0, i as int).push(body@[i as int]));
        }
        i = i + 1;
    }
    proof {
        assert(body@.subrange(0, body@.len() as int) =~= body@);
        assert(bytes@ =~= envelope(streamed, ser_transport(msg@)));
    }
    let n = bytes.len();
    write_at(buff, 0, &bytes);
    proof {
        assert(buff@.subrange(0, n as int) =~= bytes@);
    }
    Ok(slice_subrange(buff.as_slice(), 0, n))
}

/// Takes one batch out of `input`, the bytes that came off the wire, into
/// `buff` and returns it. In streamed mode `input` starts with the batch's
/// length as a little-endian `u16`. Nothing read yields an empty batch.
pub fn read_streamed<'a>(buff: &'a mut Vec<u8>, input: &[u8], streamed: bool) -> (r: Result<
    &'a [u8],
    TransportError,
>)
    ensures
        final(buff)@.len() == old(buff)@.len(),
        if streamed && old(buff)@.len() < 2 {
            r == Err::<&[u8], TransportError>(TransportError::TransportTooSmall)
        } else if input@.len() == 0 {
            r matches Ok(out) && out@.len() == 0
        } else if streamed {
            if input@.len() < 2 {
                r == Err::<&[u8], TransportError>(TransportError::InvalidAttribute)
            } else {
                let len = parse_u16(input@, 0).unwrap().0;
                if len > old(buff)@.len() || len > input@.len() - 2 {
                    r == Err::<&[u8], TransportError>(TransportError::InvalidAttribute)
                } else {
                    r matches Ok(out) && out@ == input@.subrange(2, 2 + len)
                }
            }
        } else if input@.len() > old(buff)@.len() {
            r == Err::<&[u8], TransportError>(TransportError::InvalidAttribute)
        } else {
            r matches Ok(out) && out@ == input@
        },
{
    if streamed && buff.len() < 2 {
        return Err(TransportError::TransportTooSmall);
    }
    if input.len() == 0 {
        return Ok(slice_subrange(buff.as_slice(), 0, 0));
    }
    let (from, len): (usize, usize) = if streamed {
        let len = match read_u16(input, 0) {
            Some((l, _)) => l as usize,
            None => return Err(TransportError::InvalidAttribute),
        };
        if len > buff.len() || len > input.len() - 2 {
            return Err(TransportError::InvalidAttribute);
        }
        (2, len)
    } else {
        if input.len() > buff.len() {
            return Err(TransportError::InvalidAttribute);
        }
        (0, input.len())
    };
    let chunk = crate::wire::copy_range(input, from, from + len);
    write_at(buff, 0, &chunk);
    proof {
        assert(buff@.subrange(0, len as int) =~= chunk@);
        if !streamed {
            assert(input@.subrange(0, input@.len() as int) =~= input@);
        }
    }
    Ok(slice_subrange(buff.as_slice(), 0, len))
}

/// What a session does with transport messages: in `EncodeDecode` it hands
/// them to the caller; the other states keep them to themselves.
#[derive(Debug, Clone, Copy, PartialEq, Eq, Structural)]
pub enum TransportState {
    EncodeDecode,
    Uninitialized,
    Initialized,
    Opened,
}

impl Default for TransportState {
    fn default() -> (r: TransportState)
        ensures
            r == TransportState::EncodeDecode,
    {
        TransportState::EncodeDecode
    }
}

impl TransportState {
    pub fn handle_msg(&self, msg: TransportMessage) -> (r: Option<TransportMessage>)
        ensures
            match self {
                TransportState::EncodeDecode => r == Some(msg),
                _ => r is None,
            },
    {
        match self {
            TransportState::EncodeDecode => Some(msg),
            _ => None,
        }
    }
}

/// A run of messages of one family, as a receiver hands it out.
#[derive(Debug, PartialEq, Eq)]
pub enum MessageIter {
    Transport(Vec<TransportMessage>),
    Network(Vec<NetworkMessage>),
}

impl View for MessageIter {
    type V = Seq<MessageView>;

    open spec fn view(&self) -> Seq<MessageView> {
        match self {
            MessageIter::Transport(v) => v@.map_values(
                |t: TransportMessage| MessageView::Transport(t@),
            ),
            MessageIter::Network(v) => v@.map_values(|n: NetworkMessage| MessageView::Network(n@)),
        }
    }
}

/// The run of messages of the family `net` at the head of `ms`, and what is
/// left after it. A message of the other family ends the run and stays; a
/// transport message the session keeps to itself (`pass` false) ends the
/// run and is consumed.
pub open spec fn take_run(ms: Seq<MessageView>, net: bool, pass: bool) -> (Seq<MessageView>, Seq<MessageView>)
    decreases ms.len(),
{
    if ms.len() == 0 {
        (Seq::empty(), Seq::empty())
    } else if ms[0] is Transport && !pass {
        (Seq::empty(), ms.drop_first())
    } else if (ms[0] is Network) != net {
        (Seq::empty(), ms)
    } else {
        let (r, rest) = take_run(ms.drop_first(), net, pass);
        (seq![ms[0]] + r, rest)
    }
}

/// The run a receiver hands out next, and what is left after it.
pub open spec fn next_run(ms: Seq<MessageView>, pass: bool) -> (Seq<MessageView>, Seq<MessageView>) {
    if ms.len() == 0 {
        (Seq::empty(), Seq::empty())
    } else {
        take_run(ms, ms[0] is Network, pass)
    }
}

/// Reads the messages of one received batch.
pub struct TransportReceiver<'a> {
    state: TransportState,
    reader: BatchReader<'a>,
}

impl<'a> TransportReceiver<'a> {
    pub closed spec fn rest(&self) -> Seq<MessageView> {
        self.reader.rest()
    }

    pub closed spec fn session_state(&self) -> TransportState {
        self.state
    }

    pub fn new(state: TransportState, reader: &'a [u8]) -> (r: TransportReceiver<'a>)
        ensures
            r.rest() == parse_batch(reader@, 0, None, 0),
            r.session_state() == state,
    {
        TransportReceiver { state, reader: BatchReader::new(reader) }
    }

    /// The next message of the batch, or `None` at its end; a transport
    /// message the session keeps to itself is consumed and yields `None`.
    fn decode(&mut self) -> (r: Option<Message>)
        ensures
            final(self).session_state() == old(self).session_state(),
            old(self).rest().len() == 0 ==> r is None && final(self).rest().len() == 0,
            old(self).rest().len() > 0 ==> final(self).rest() == old(self).rest().drop_first() && (
            if old(self).rest()[0] is Transport && old(self).session_state()
                != TransportState::EncodeDecode {
                r is None
            } else {
                r matches Some(m) && m@ == old(self).rest()[0]
            }),
    {
        match self.reader.next() {
            None => None,
            Some(Message::Network(n)) => {
                proof {
                    assert(old(self).rest().drop_first() =~= self.rest());
                }
                Some(Message::Network(n))
            },
            Some(Message::Transport(t)) => {
                proof {
                    assert(old(self).rest().drop_first() =~= self.rest());
                }
                match self.state.handle_msg(t) {
                    Some(t) => Some(Message::Transport(t)),
                    None => None,
                }
            },
        }
    }

    /// The next run of messages of one family: as many network messages, or
    /// as many transport messages handed to the caller, as follow one
    /// another. `None` at the end of the batch, or where the first message
    /// is a transport message the session keeps to itself.
    pub fn next(&mut self) -> (r: Option<MessageIter>)
        ensures
            final(self).session_state() == old(self).session_state(),
            ({
                let (run, rest) = next_run(
                    old(self).rest(),
                    old(self).session_state() == TransportState::EncodeDecode,
                );
                &&& final(self).rest() == rest
                &&& run.len() == 0 ==> r is None
                &&& run.len() > 0 ==> (r matches Some(it) && it@ == run)
            }),
    {
        let ghost pass = self.state == TransportState::EncodeDecode;
        let ghost start = self.rest();
        let first = match self.decode() {
            Some(m) => m,
            None => {
                return None;
            },
        };
        match first {
            Message::Network(n) => {
                let mut v: Vec<NetworkMessage> = Vec::new();
                v.push(n);
                let ghost mut taken: Seq<MessageView> = seq![start[0]];
                proof {
                    assert(v@.map_values(|n: NetworkMessage| MessageView::Network(n@)) =~= taken);
                    assert(start.drop_first() =~= start.subrange(1, start.len() as int));
                }
                loop
                    invariant_except_break
                        ({
                            let (r, rest) = take_run(self.rest(), true, pass);
                            take_run(start, true, pass) == (taken + r, rest)
                        }),
                    invariant
                        self.state == old(self).state,
                        pass == (self.state == TransportState::EncodeDecode),
                        start == old(self).rest(),
                        start.len() > 0 && start[0] is Network,
                        v@.map_values(|n: NetworkMessage| MessageView::Network(n@)) == taken,
                    ensures
                        take_run(start, true, pass) == (taken, self.rest()),
                        v@.map_values(|n: NetworkMessage| MessageView::Network(n@)) == taken,
                        self.state == old(self).state,
                    decreases self.rest().len(),
                {
                    let mark = self.reader.mark();
                    let ghost here = self.rest();
                    match self.decode() {
                        None => {
                            proof {
                                if here.len() > 0 {
                                    assert(here[0] is Transport && !pass);
                                }
                                assert(taken + Seq::<MessageView>::empty() =~= taken);
                            }
                            break;
                        },
                        Some(Message::Network(n)) => {
                            let ghost nv = n@;
                            v.push(n);
                            proof {
                                let (r, rest) = take_run(here.drop_first(), true, pass);
                                assert(seq![here[0]] + r =~= seq![MessageView::Network(nv)] + r);
                                assert(taken + (seq![MessageView::Network(nv)] + r) =~= taken.push(
                                    MessageView::Network(nv),
                                ) + r);
                                taken = taken.push(MessageView::Network(nv));
                                assert(v@.map_values(|n: NetworkMessage| MessageView::Network(n@))
                                    =~= taken);
                            }
                        },
                        Some(Message::Transport(_)) => {
                            self.reader = mark;
                            proof {
                                assert(self.rest() == here);
                                assert(taken + Seq::<MessageView>::empty() =~= taken);
                            }
                            break;
                        },
                    }
                }
                Some(MessageIter::Network(v))
            },
            Message::Transport(t) => {
                let mut v: Vec<TransportMessage> = Vec::new();
                v.push(t);
                let ghost mut taken: Seq<MessageView> = seq![start[0]];
                proof {
                    assert(v@.map_values(|t: TransportMessage| MessageView::Transport(t@)) =~= taken);
                }
                loop
                    invariant_except_break
                        ({
                            let (r, rest) = take_run(self.rest(), false, pass);
                            take_run(start, false, pass) == (taken + r, rest)
                        }),
                    invariant
                        self.state == old(self).state,
                        pass == (self.state == TransportState::EncodeDecode),
                        pass,
                        start == old(self).rest(),
                        start.len() > 0 && start[0] is Transport,
                        v@.map_values(|t: TransportMessage| MessageView::Transport(t@)) == taken,
                    ensures
                        take_run(start, false, pass) == (taken, self.rest()),
                        v@.map_values(|t: TransportMessage| MessageView::Transport(t@)) == taken,
                        self.state == old(self).state,
                    decreases self.rest().len(),
                {
                    let mark = self.reader.mark();
                    let ghost here = self.rest();
                    match self.decode() {
                        None => {
                            proof {
                                assert(taken + Seq::<MessageView>::empty() =~= taken);
                            }
                            break;
                        },
                        Some(Message::Transport(t)) => {
                            let ghost tv = t@;
                            v.push(t);
                            proof {
                                let (r, rest) = take_run(here.drop_first(), false, pass);
                                assert(taken + (seq![MessageView::Transport(tv)] + r) =~= taken.push(
                                    MessageView::Transport(tv),
                                ) + r);
                                taken = taken.push(MessageView::Transport(tv));
                                assert(v@.map_values(|t: TransportMessage| MessageView::Transport(t@))
                                    =~= taken);
                            }
                        },
                        Some(Message::Network(_)) => {
                            self.reader = mark;
                            proof {
                                assert(self.rest() == here);
                                assert(taken + Seq::<MessageView>::empty() =~= taken);
                            }
                            break;
                        },
                    }
                }
                Some(MessageIter::Transport(v))
            },
        }
    }
}

/// The transport messages `ts` written one after the other.
pub open spec fn transports_bytes(ts: Seq<TransportMessageView>) -> Seq<u8>
    decreases ts.len(),
{
    if ts.len() == 0 {
        Seq::empty()
    } else {
        transports_bytes(ts.drop_last()) + ser_transport(ts.last())
    }
}

pub open spec fn transport_views(ts: Seq<TransportMessage>) -> Seq<TransportMessageView> {
    ts.map_values(|t: TransportMessage| t@)
}

/// The bytes of batch `k` besides its envelope.
pub open spec fn send_payload(
    tv: Seq<TransportMessageView>,
    nv: Seq<NetworkMessageView>,
    tcuts: Seq<int>,
    ncuts: Seq<int>,
    sns: Seq<u32>,
    mask: u32,
    k: int,
) -> Seq<u8> {
    transports_bytes(tv.subrange(tcuts[k], tcuts[k + 1])) + run_bytes(
        nv.subrange(ncuts[k], ncuts[k + 1]),
        None,
        sns[k],
        mask,
    )
}

/// Batch `k` holds the transport messages `tv[tcuts[k]..tcuts[k + 1]]`
/// followed by the network messages `nv[ncuts[k]..ncuts[k + 1]]`, these only
/// once every transport message is written; its frames are numbered on from
/// the batch before it. It fits in `room` bytes besides its envelope and in
/// `cap` bytes in all, and was closed only because the next message did not
/// fit.
pub open spec fn send_ok(
    batches: Seq<Seq<u8>>,
    tv: Seq<TransportMessageView>,
    nv: Seq<NetworkMessageView>,
    tcuts: Seq<int>,
    ncuts: Seq<int>,
    sns: Seq<u32>,
    streamed: bool,
    mask: u32,
    sn0: u32,
    room: nat,
    cap: nat,
    k: int,
) -> bool {
    let payload = send_payload(tv, nv, tcuts, ncuts, sns, mask, k);
    let end = run_end(nv.subrange(ncuts[k], ncuts[k + 1]), None, sns[k], mask);
    &&& tcuts[k] <= tcuts[k + 1]
    &&& ncuts[k] <= ncuts[k + 1]
    &&& tcuts[k] < tcuts[k + 1] || ncuts[k] < ncuts[k + 1]
    &&& ncuts[k] < ncuts[k + 1] ==> tcuts[k + 1] == tv.len()
    &&& payload.len() <= room
    &&& batches[k].len() <= cap
    &&& batches[k] == envelope(streamed, payload)
    &&& sns[k] == if k == 0 {
        sn0
    } else {
        run_end(nv.subrange(ncuts[k - 1], ncuts[k]), None, sns[k - 1], mask).1
    }
    &&& tcuts[k + 1] < tv.len() ==> payload.len() + ser_transport(tv[tcuts[k + 1]]).len() > room
    &&& tcuts[k + 1] == tv.len() && ncuts[k + 1] < nv.len() ==> payload.len() + framed_bytes(
        end.0,
        end.1,
        nv[ncuts[k + 1]],
    ).len() > room
}

/// `batches` are the batches that writing `tv` then `nv` produced, cut at
/// `tcuts` and `ncuts`; frame numbering runs from `sn0` to `sn_end`.
pub open spec fn sends_of(
    batches: Seq<Seq<u8>>,
    tv: Seq<TransportMessageView>,
    nv: Seq<NetworkMessageView>,
    tcuts: Seq<int>,
    ncuts: Seq<int>,
    sns: Seq<u32>,
    streamed: bool,
    mask: u32,
    sn0: u32,
    sn_end: u32,
    room: nat,
    cap: nat,
) -> bool {
    &&& tcuts.len() == batches.len() + 1
    &&& ncuts.len() == batches.len() + 1
    &&& sns.len() == batches.len()
    &&& tcuts[0] == 0
    &&& ncuts[0] == 0
    &&& tcuts.last() <= tv.len()
    &&& ncuts.last() <= nv.len()
    &&& ncuts.last() > 0 ==> tcuts.last() == tv.len()
    &&& sn_end == if batches.len() == 0 {
        sn0
    } else {
        run_end(nv.subrange(ncuts[batches.len() - 1], ncuts.last()), None, sns.last(), mask).1
    }
    &&& forall|k: int|
        0 <= k < batches.len() ==> #[trigger] send_ok(
            batches,
            tv,
            nv,
            tcuts,
            ncuts,
            sns,
            streamed,
            mask,
            sn0,
            room,
            cap,
            k,
        )
}

/// Every message was written, or the first one left does not fit in an
/// empty batch.
pub open spec fn sends_done(
    tv: Seq<TransportMessageView>,
    nv: Seq<NetworkMessageView>,
    tcuts: Seq<int>,
    ncuts: Seq<int>,
    sn_end: u32,
    room: nat,
) -> bool {
    ||| tcuts.last() == tv.len() && ncuts.last() == nv.len()
    ||| tcuts.last() < tv.len() && ser_transport(tv[tcuts.last()]).len() > room
    ||| tcuts.last() == tv.len() && ncuts.last() < nv.len() && framed_bytes(
        None,
        sn_end,
        nv[ncuts.last()],
    ).len() > room
}

proof fn lemma_sends_push(
    batches: Seq<Seq<u8>>,
    b: Seq<u8>,
    tv: Seq<TransportMessageView>,
    nv: Seq<NetworkMessageView>,
    tcuts: Seq<int>,
    ncuts: Seq<int>,
    sns: Seq<u32>,
    streamed: bool,
    mask: u32,
    sn0: u32,
    bsn: u32,
    i: int,
    j: int,
    sn_new: u32,
    room: nat,
    cap: nat,
)
    requires
        sends_of(batches, tv, nv, tcuts, ncuts, sns, streamed, mask, sn0, bsn, room, cap),
        tcuts.last() <= i <= tv.len(),
        ncuts.last() <= j <= nv.len(),
        tcuts.last() < i || ncuts.last() < j,
        ncuts.last() < j ==> i == tv.len(),
        ({
            let payload = transports_bytes(tv.subrange(tcuts.last(), i)) + run_bytes(
                nv.subrange(ncuts.last(), j),
                None,
                bsn,
                mask,
            );
            let end = run_end(nv.subrange(ncuts.last(), j), None, bsn, mask);
            &&& b == envelope(streamed, payload)
            &&& payload.len() <= room
            &&& b.len() <= cap
            &&& i < tv.len() ==> payload.len() + ser_transport(tv[i]).len() > room
            &&& i == tv.len() && j < nv.len() ==> payload.len() + framed_bytes(end.0, end.1, nv[j]).len()
                > room
        }),
        sn_new == run_end(nv.subrange(ncuts.last(), j), None, bsn, mask).1,
    ensures
        sends_of(
            batches.push(b),
            tv,
            nv,
            tcuts.push(i),
            ncuts.push(j),
            sns.push(bsn),
            streamed,
            mask,
            sn0,
            sn_new,
            room,
            cap,
        ),
{
    let n = batches.len() as int;
    let t2 = tcuts.push(i);
    let n2 = ncuts.push(j);
    let s2 = sns.push(bsn);
    let b2 = batches.push(b);
    assert forall|k: int| 0 <= k < b2.len() implies #[trigger] send_ok(
        b2,
        tv,
        nv,
        t2,
        n2,
        s2,
        streamed,
        mask,
        sn0,
        room,
        cap,
        k,
    ) by {
        if k < n {
            assert(send_ok(batches, tv, nv, tcuts, ncuts, sns, streamed, mask, sn0, room, cap, k));
            assert(b2[k] == batches[k]);
            assert(t2[k] == tcuts[k] && t2[k + 1] == tcuts[k + 1]);
            assert(n2[k] == ncuts[k] && n2[k + 1] == ncuts[k + 1] && s2[k] == sns[k]);
            if k > 0 {
                assert(n2[k - 1] == ncuts[k - 1] && s2[k - 1] == sns[k - 1]);
            }
        } else {
            assert(k == n);
            assert(t2[k] == tcuts.last() && t2[k + 1] == i);
            assert(n2[k] == ncuts.last() && n2[k + 1] == j);
            assert(s2[k] == bsn);
            assert(b2[k] == b);
            if k > 0 {
                assert(n2[k - 1] == ncuts[n - 1] && s2[k - 1] == sns.last());
            }
        }
    }
    assert(t2.last() == i && n2.last() == j && s2.last() == bsn);
    assert(t2[0] == 0 && n2[0] == 0);
    assert(n2[n] == ncuts.last());
}

/// Cuts a stream of messages into batches.
pub struct TransportSender {
    tx: TransportTx,
}

impl TransportSender {
    pub closed spec fn wf(&self) -> bool {
        self.tx.wf() && self.tx.payload().len() == 0 && self.tx.frame_state() is None
    }

    pub closed spec fn is_streamed(&self) -> bool {
        self.tx.is_streamed()
    }

    /// The buffer cannot even hold the length envelope.
    pub closed spec fn is_too_small(&self) -> bool {
        self.tx.is_too_small()
    }

    /// The most bytes a batch holds, envelope included: `min(batch_size,
    /// buffer length)`.
    pub closed spec fn capacity(&self) -> nat {
        self.tx.capacity()
    }

    /// The most bytes a batch holds besides its envelope.
    pub closed spec fn room(&self) -> nat {
        self.tx.room()
    }

    pub closed spec fn sn_mask(&self) -> u32 {
        self.tx.sn_mask()
    }

    pub closed spec fn next_sn(&self) -> u32 {
        self.tx.next_sn()
    }

    /// Fills batches: first the transport messages while they fit, then the
    /// network messages while they fit; a batch is handed out when the next
    /// message does not fit, and the next one started. Stops at a message
    /// that does not fit in an empty batch.
    pub fn send(&mut self, transport: &Vec<TransportMessage>, network: &Vec<NetworkMessage>) -> (r:
        Vec<Vec<u8>>)
        requires
            old(self).wf(),
            forall|i: int| 0 <= i < network@.len() ==> network_wf(#[trigger] network@[i].body@),
        ensures
            final(self).wf(),
            final(self).is_streamed() == old(self).is_streamed(),
            final(self).is_too_small() == old(self).is_too_small(),
            final(self).capacity() == old(self).capacity(),
            final(self).room() == old(self).room(),
            final(self).sn_mask() == old(self).sn_mask(),
            old(self).is_too_small() ==> r@.len() == 0 && final(self).next_sn() == old(self).next_sn(),
            exists|tcuts: Seq<int>, ncuts: Seq<int>, sns: Seq<u32>|
                #[trigger] sends_of(
                    byte_views(r@),
                    transport_views(transport@),
                    views_of(network@),
                    tcuts,
                    ncuts,
                    sns,
                    old(self).is_streamed(),
                    old(self).sn_mask(),
                    old(self).next_sn(),
                    final(self).next_sn(),
                    old(self).room(),
                    old(self).capacity(),
                ) && sends_done(
                    transport_views(transport@),
                    views_of(network@),
                    tcuts,
                    ncuts,
                    final(self).next_sn(),
                    old(self).room(),
                ),
    {
        let ghost tv = transport_views(transport@);
        let ghost nv = views_of(network@);
        let ghost mask = self.tx.sn_mask();
        let ghost streamed = self.tx.is_streamed();
        let ghost sn0 = self.tx.next_sn();
        let ghost room = self.tx.room();
        let ghost cap = self.tx.capacity();
        let ghost mut tcuts: Seq<int> = seq![0];
        let ghost mut ncuts: Seq<int> = seq![0];
        let ghost mut sns: Seq<u32> = Seq::empty();
        let mut out: Vec<Vec<u8>> = Vec::new();
        let mut i: usize = 0;
        let mut j: usize = 0;
        proof {
            assert(sends_of(byte_views(out@), tv, nv, tcuts, ncuts, sns, streamed, mask, sn0, sn0, room, cap));
        }
        loop
            invariant
                self.tx.wf(),
                self.tx.payload().len() == 0,
                self.tx.frame_state() is None,
                self.tx.is_streamed() == streamed,
                self.tx.is_too_small() == old(self).is_too_small(),
                self.tx.capacity() == cap,
                self.tx.room() == room,
                self.tx.sn_mask() == mask,
                streamed == old(self).is_streamed(),
                mask == old(self).sn_mask(),
                sn0 == old(self).next_sn(),
                room == old(self).room(),
                cap == old(self).capacity(),
                tv == transport_views(transport@),
                nv == views_of(network@),
                i <= transport@.len(),
                j <= network@.len(),
                tcuts.len() > 0 && tcuts.last() == i,
                ncuts.len() > 0 && ncuts.last() == j,
                old(self).is_too_small() ==> out@.len() == 0 && self.tx.next_sn() == sn0,
                forall|x: int| 0 <= x < network@.len() ==> network_wf(#[trigger] network@[x].body@),
                sends_of(byte_views(out@), tv, nv, tcuts, ncuts, sns, streamed, mask, sn0, self.tx.next_sn(), room, cap),
            decreases transport@.len() + network@.len() - i - j,
        {
            let i0 = i;
            let j0 = j;
            let ghost bsn = self.tx.next_sn();
            proof {
                assert(tv.subrange(i0 as int, i0 as int) =~= Seq::<TransportMessageView>::empty());
                assert(nv.subrange(j0 as int, j0 as int) =~= Seq::<NetworkMessageView>::empty());
                assert(transports_bytes(Seq::<TransportMessageView>::empty()) == Seq::<u8>::empty());
            }
            let mut full_t = false;
            while i < transport.len() && !full_t
                invariant
                    self.tx.wf(),
                    self.tx.is_streamed() == streamed,
                    self.tx.is_too_small() == old(self).is_too_small(),
                    self.tx.capacity() == cap,
                    self.tx.room() == room,
                    self.tx.sn_mask() == mask,
                    self.tx.frame_state() is None,
                    self.tx.next_sn() == bsn,
                    tv == transport_views(transport@),
                    i0 <= i <= transport@.len(),
                    j == j0,
                    i == i0 ==> self.tx.payload().len() == 0,
                    i > i0 ==> self.tx.payload().len() > 0,
                    self.tx.payload() == transports_bytes(tv.subrange(i0 as int, i as int)),
                    full_t ==> i < transport@.len() && ser_transport(tv[i as int]).len() > self.tx.remaining(),
                decreases transport@.len() - i, if full_t { 0int } else { 1int },
            {
                let ghost before = tv.subrange(i0 as int, i as int);
                proof {
                    assert(tv[i as int] == transport@[i as int]@);
                }
                proof {
                    self.tx.lemma_room();
                    assert(ser_transport(tv[i as int]).len() > 0);
                }
                match self.tx.push_transport(&transport[i]) {
                    Err(_) => {
                        full_t = true;
                    },
                    Ok(()) => {
                        proof {
                            let after = tv.subrange(i0 as int, i + 1);
                            assert(after.drop_last() =~= before);
                            assert(after.last() == transport@[i as int]@);
                        }
                        i = i + 1;
                    },
                }
            }
            let ghost tpart = transports_bytes(tv.subrange(i0 as int, i as int));
            proof {
                assert(run_bytes(nv.subrange(j0 as int, j0 as int), None, bsn, mask) == Seq::<u8>::empty());
                assert(run_end(nv.subrange(j0 as int, j0 as int), None, bsn, mask) == (None::<crate::msgs::FrameHeader>, bsn));
                assert(self.tx.payload() =~= tpart + run_bytes(nv.subrange(j0 as int, j0 as int), None, bsn, mask));
            }
            let mut full_n = false;
            if !full_t {
                while j < network.len() && !full_n
                    invariant
                        self.tx.wf(),
                        self.tx.is_streamed() == streamed,
                        self.tx.is_too_small() == old(self).is_too_small(),
                        self.tx.capacity() == cap,
                        self.tx.room() == room,
                        self.tx.sn_mask() == mask,
                        nv == views_of(network@),
                        j0 <= j <= network@.len(),
                        i0 <= i,
                        (i == i0 && j == j0) ==> self.tx.payload().len() == 0,
                        (i > i0 || j > j0) ==> self.tx.payload().len() > 0,
                        self.tx.payload() == tpart + run_bytes(nv.subrange(j0 as int, j as int), None, bsn, mask),
                        (self.tx.frame_state(), self.tx.next_sn()) == run_end(nv.subrange(j0 as int, j as int), None, bsn, mask),
                        full_n ==> j < network@.len() && framed_bytes(self.tx.frame_state(), self.tx.next_sn(), nv[j as int]).len() > self.tx.remaining(),
                        forall|x: int|
                            0 <= x < network@.len() ==> network_wf(#[trigger] network@[x].body@),
                    decreases network@.len() - j, if full_n { 0int } else { 1int },
                {
                    let ghost before = nv.subrange(j0 as int, j as int);
                    proof {
                        assert(nv[j as int] == network@[j as int]@);
                    }
                    proof {
                        self.tx.lemma_room();
                        assert(crate::codec::ser_network(nv[j as int].body).len() > 0);
                    }
                    match self.tx.push(&network[j]) {
                        Err(_) => {
                            full_n = true;
                        },
                        Ok(()) => {
                            proof {
                                lemma_run_push(before, nv[j as int], None, bsn, mask);
                                assert(nv.subrange(j0 as int, j + 1) =~= before.push(nv[j as int]));
                                let (f, sn) = run_end(before, None, bsn, mask);
                                assert(tpart + run_bytes(before, None, bsn, mask) + framed_bytes(f, sn, nv[j as int])
                                    =~= tpart + (run_bytes(before, None, bsn, mask) + framed_bytes(f, sn, nv[j as int])));
                            }
                            j = j + 1;
                        },
                    }
                }
            }
            proof {
                self.tx.lemma_room();
            }
            let ghost rem = self.tx.remaining();
            let ghost pay = self.tx.payload();
            match self.tx.flush() {
                None => {
                    proof {
                        assert(j == j0 && i == i0);
                        assert(sends_done(tv, nv, tcuts, ncuts, self.tx.next_sn(), room));
                        assert(sends_of(byte_views(out@), transport_views(transport@), views_of(network@), tcuts, ncuts, sns, streamed, mask, sn0, self.next_sn(), room, cap) && sends_done(transport_views(transport@), views_of(network@), tcuts, ncuts, self.next_sn(), room));
                    }
                    return out;
                },
                Some(b) => {
                    proof {
                        assert(!old(self).is_too_small());
                        assert(b@.len() == (if streamed { 2int } else { 0int }) + pay.len());
                        lemma_sends_push(
                            byte_views(out@),
                            b@,
                            tv,
                            nv,
                            tcuts,
                            ncuts,
                            sns,
                            streamed,
                            mask,
                            sn0,
                            bsn,
                            i as int,
                            j as int,
                            self.tx.next_sn(),
                            room,
                            cap,
                        );
                        tcuts = tcuts.push(i as int);
                        ncuts = ncuts.push(j as int);
                        sns = sns.push(bsn);
                    }
                    let ghost old_out = byte_views(out@);
                    let ghost bv = b@;
                    out.push(b);
                    proof {
                        assert(byte_views(out@) =~= old_out.push(bv));
                    }
                },
            }
            if i == transport.len() && j == network.len() {
                proof {
                    assert(sends_of(byte_views(out@), transport_views(transport@), views_of(network@), tcuts, ncuts, sns, streamed, mask, sn0, self.next_sn(), room, cap) && sends_done(transport_views(transport@), views_of(network@), tcuts, ncuts, self.next_sn(), room));
                }
                return out;
            }
        }
    }
}

/// A session used for encoding and decoding only: no handshake.
pub struct Transport {
    state: TransportState,
    streamed: bool,
    rx: Vec<u8>,
    sender: TransportSender,
}

impl Transport {
    pub closed spec fn wf(&self) -> bool {
        self.sender.wf() && self.sender.is_streamed() == self.streamed && self.state
            == TransportState::EncodeDecode
    }

    pub closed spec fn is_streamed(&self) -> bool {
        self.streamed
    }

    pub closed spec fn rx_len(&self) -> nat {
        self.rx@.len()
    }

    pub fn new(streamed: bool, tx: Vec<u8>, rx: Vec<u8>, batch_size: u16, sn: u32) -> (r: Transport)
        ensures
            r.wf(),
            r.is_streamed() == streamed,
            r.rx_len() == rx@.len(),
    {
        let sender = TransportSender {
            tx: TransportTx::new(tx, streamed, batch_size, sn, Resolution { inner: 0x0a }, 10_000),
        };
        Transport { state: TransportState::EncodeDecode, streamed, rx, sender }
    }

    /// Takes in one batch as it came off the wire (with its length first in
    /// streamed mode) and returns a reader over its messages. A batch that
    /// does not fit or is cut short is read as empty.
    #[verifier::rlimit(30)]
    pub fn update(&mut self, data: &[u8]) -> (r: TransportReceiver<'_>)
        requires
            old(self).wf(),
        ensures
            final(self).wf(),
            final(self).is_streamed() == old(self).is_streamed(),
            r.session_state() == TransportState::EncodeDecode,
            ({
                let payload = if old(self).is_streamed() {
                    if data@.len() < 2 || old(self).rx_len() < 2 {
                        None
                    } else {
                        let len = parse_u16(data@, 0).unwrap().0;
                        if len > old(self).rx_len() || len > data@.len() - 2 {
                            None
                        } else {
                            Some(data@.subrange(2, 2 + len))
                        }
                    }
                } else if data@.len() > old(self).rx_len() {
                    None
                } else {
                    Some(data@)
                };
                match payload {
                    Some(p) => r.rest() == parse_batch(p, 0, None, 0),
                    None => r.rest() == Seq::<MessageView>::empty(),
                }
            }),
    {
        let streamed = self.streamed;
        let state = self.state;
        if data.len() == 0 {
            proof {
                assert(parse_batch(data@, 0, None, 0) =~= Seq::<MessageView>::empty());
            }
        }
        match read_streamed(&mut self.rx, data, streamed) {
            Ok(bytes) => TransportReceiver::new(state, bytes),
            Err(_) => {
                let empty: &[u8] = &[];
                proof {
                    assert(empty@.len() == 0);
                }
                TransportReceiver::new(state, empty)
            },
        }
    }

    pub fn tx(&mut self) -> (r: &mut TransportSender)
        requires
            old(self).wf(),
        ensures
            r.wf(),
            r.is_streamed() == old(self).is_streamed(),
    {
        &mut self.sender
    }
}

} // verus!
