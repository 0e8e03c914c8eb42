//! The receiving endpoint of a session: it gathers batches in its buffer,
//! hands out the network messages they hold and tracks the peer's liveness.
use vstd::prelude::*;
use crate::batch::{parse_batch, BatchReader};
use crate::error::TransportError;
use crate::msgs::{
    Message, MessageView, NetworkMessage, NetworkMessageView, Resolution, TransportMessage,
    TransportMessageView,
};
use crate::wire::{parse_u16, read_u16, write_at};

verus! {

/// Liveness of the peer. Times are in milliseconds.
#[derive(Debug, Clone, Copy, PartialEq, Eq, Structural)]
pub enum Liveness {
    Opened,
    Used,
    Synchronized { last_received: u64 },
    Closed,
}

/// The network messages of `ms`, in order.
pub open spec fn network_only(ms: Seq<MessageView>) -> Seq<NetworkMessageView>
    decreases ms.len(),
{
    if ms.len() == 0 {
        Seq::empty()
    } else {
        (match ms[0] {
            MessageView::Network(n) => seq![n],
            MessageView::Transport(_) => Seq::empty(),
        }) + network_only(ms.drop_first())
    }
}

/// `ms` holds a Close.
pub open spec fn has_close(ms: Seq<MessageView>) -> bool {
    exists|i: int|
        0 <= i < ms.len() && (#[trigger] ms[i] matches MessageView::Transport(
            TransportMessageView::Close(_),
        ))
}

/// The deadline of a synchronized peer: four keep-alive periods of a
/// quarter lease after the last reception.
pub open spec fn deadline(last: u64, lease: u64) -> int {
    last + 4 * (lease / 4)
}

pub struct TransportRx {
    buff: Vec<u8>,
    cursor: usize,
    batch_size: usize,
    streamed: bool,
    sn: u32,
    resolution: Resolution,
    lease: u64,
    state: Liveness,
}

impl TransportRx {
    pub closed spec fn wf(&self) -> bool {
        self.cursor <= self.full_size()
    }

    /// Room for batches: `min(buffer length, batch size)`.
    pub closed spec fn full_size(&self) -> nat {
        if self.buff@.len() < self.batch_size {
            self.buff@.len()
        } else {
            self.batch_size as nat
        }
    }

    /// The bytes gathered and not yet flushed.
    pub closed spec fn pending(&self) -> Seq<u8> {
        self.buff@.subrange(0, self.cursor as int)
    }

    pub closed spec fn is_streamed(&self) -> bool {
        self.streamed
    }

    pub closed spec fn liveness(&self) -> Liveness {
        self.state
    }

    pub closed spec fn last_sn(&self) -> u32 {
        self.sn
    }

    pub closed spec fn lease_ms(&self) -> u64 {
        self.lease
    }

    pub fn new(
        buff: Vec<u8>,
        streamed: bool,
        batch_size: usize,
        sn: u32,
        resolution: Resolution,
        lease: u64,
    ) -> (r: TransportRx)
        ensures
            r.wf(),
            r.pending() == Seq::<u8>::empty(),
            r.is_streamed() == streamed,
            r.liveness() == Liveness::Opened,
            r.last_sn() == sn,
            r.lease_ms() == lease,
            r.full_size() == if buff@.len() < batch_size {
                buff@.len()
            } else {
                batch_size as nat
            },
    {
        TransportRx {
            buff,
            cursor: 0,
            batch_size,
            streamed,
            sn,
            resolution,
            lease,
            state: Liveness::Opened,
        }
    }

    pub fn set_streamed(&mut self)
        requires
            old(self).wf(),
        ensures
            final(self).wf(),
            final(self).is_streamed(),
            final(self).pending() == old(self).pending(),
            final(self).liveness() == old(self).liveness(),
    {
        self.streamed = true;
    }

    pub fn streamed(&self) -> (r: bool)
        ensures
            r == self.is_streamed(),
    {
        self.streamed
    }

    /// How many more bytes the buffer takes before a flush.
    pub fn room(&self) -> (r: usize)
        requires
            self.wf(),
        ensures
            r == self.full_size() - self.pending().len(),
    {
        let full_size = if self.buff.len() < self.batch_size {
            self.buff.len()
        } else {
            self.batch_size
        };
        full_size - self.cursor
    }

    /// The peer has not closed the session.
    pub fn opened(&self) -> (r: bool)
        ensures
            r == (self.liveness() != Liveness::Closed),
    {
        match self.state {
            Liveness::Closed => false,
            _ => true,
        }
    }

    fn append(&mut self, read: &[u8], from: usize, len: usize)
        requires
            old(self).wf(),
            from + len <= read@.len(),
            old(self).cursor + len <= old(self).full_size(),
        ensures
            final(self).wf(),
            final(self).pending() == old(self).pending() + read@.subrange(
                from as int,
                from + len,
            ),
            final(self).full_size() == old(self).full_size(),
            final(self).is_streamed() == old(self).is_streamed(),
            final(self).last_sn() == old(self).last_sn(),
            final(self).lease_ms() == old(self).lease_ms(),
            final(self).liveness() == old(self).liveness(),
    {
        let rl = read.len();
        assert(from + len <= rl);
        let mut chunk: Vec<u8> = Vec::new();
        let mut i: usize = from;
        let end = from + len;
        while i < end
            invariant
                end == from + len,
                from <= i <= from + len <= read@.len(),
                chunk@ == read@.subrange(from as int, i as int),
            decreases from + len - i,
        {
            chunk.push(read[i]);
            proof {
                assert(read@.subrange(from as int, i + 1) =~= read@.subrange(
                    from as int,
                    i as int,
                ).push(read@[i as int]));
            }
            i = i + 1;
        }
        let ghost pre = self.buff@;
        write_at(&mut self.buff, self.cursor, &chunk);
        proof {
            assert(self.buff@.subrange(0, self.cursor + len) =~= pre.subrange(0, self.cursor as int)
                + chunk@);
        }
        self.cursor = self.cursor + len;
    }

    /// Takes in one batch as it came off the wire: in streamed mode `read`
    /// starts with the 2-byte length of the batch. Nothing is taken once the
    /// peer has closed, nor from an empty `read`.
    pub fn decode(&mut self, read: &[u8]) -> (r: Result<(), TransportError>)
        requires
            old(self).wf(),
        ensures
            final(self).wf(),
            final(self).full_size() == old(self).full_size(),
            final(self).is_streamed() == old(self).is_streamed(),
            final(self).last_sn() == old(self).last_sn(),
            final(self).lease_ms() == old(self).lease_ms(),
            ({
                let left = old(self).full_size() - old(self).pending().len();
                if read@.len() == 0 || old(self).liveness() == Liveness::Closed {
                    r == Ok::<(), TransportError>(()) && final(self).pending() == old(self).pending()
                        && final(self).liveness() == old(self).liveness()
                } else if old(self).is_streamed() {
                    if left < 2 {
                        r == Err::<(), TransportError>(TransportError::TransportTooSmall) && final(self).pending() == old(self).pending() && final(self).liveness() == old(self).liveness()
                    } else if read@.len() < 2 {
                        r == Err::<(), TransportError>(TransportError::InvalidAttribute) && final(self).pending() == old(self).pending() && final(self).liveness() == old(self).liveness()
                    } else {
                        let len = parse_u16(read@, 0).unwrap().0;
                        if len > left {
                            r == Err::<(), TransportError>(TransportError::TransportIsFull) && final(self).pending() == old(self).pending() && final(self).liveness() == old(self).liveness()
                        } else if len > read@.len() - 2 {
                            r == Err::<(), TransportError>(TransportError::InvalidAttribute)
                                && final(self).pending() == old(self).pending() && final(self).liveness() == old(self).liveness()
                        } else {
                            r == Ok::<(), TransportError>(()) && final(self).pending() == old(self).pending() + read@.subrange(2, 2 + len) && final(self).liveness() == (
                            if len != 0 {
                                Liveness::Used
                            } else {
                                old(self).liveness()
                            })
                        }
                    }
                } else if read@.len() > left {
                    r == Err::<(), TransportError>(TransportError::TransportIsFull) && final(self).pending() == old(self).pending() && final(self).liveness() == old(self).liveness()
                } else {
                    r == Ok::<(), TransportError>(()) && final(self).pending() == old(self).pending()
                        + read@ && final(self).liveness() == Liveness::Used
                }
            }),
    {
        let closed = match self.state {
            Liveness::Closed => true,
            _ => false,
        };
        if read.len() == 0 || closed {
            return Ok(());
        }
        let full_size = if self.buff.len() < self.batch_size {
            self.buff.len()
        } else {
            self.batch_size
        };
        let left = full_size - self.cursor;
        let len: usize = if self.streamed {
            if left < 2 {
                return Err(TransportError::TransportTooSmall);
            }
            let len = match read_u16(read, 0) {
                Some((l, _)) => l as usize,
                None => return Err(TransportError::InvalidAttribute),
            };
            if len > left {
                return Err(TransportError::TransportIsFull);
            }
            if len > read.len() - 2 {
                return Err(TransportError::InvalidAttribute);
            }
            self.append(read, 2, len);
            len
        } else {
            let len = read.len();
            if len > left {
                return Err(TransportError::TransportIsFull);
            }
            self.append(read, 0, len);
            proof {
                assert(read@.subrange(0, len as int) =~= read@);
            }
            len
        };
        if len != 0 {
            self.state = Liveness::Used;
        }
        Ok(())
    }

    /// Hands out the network messages of what was gathered and empties the
    /// buffer. A Close among the messages closes the session.
    pub fn flush(&mut self) -> (r: Vec<NetworkMessage>)
        requires
            old(self).wf(),
        ensures
            final(self).wf(),
            final(self).pending() == Seq::<u8>::empty(),
            final(self).full_size() == old(self).full_size(),
            final(self).is_streamed() == old(self).is_streamed(),
            final(self).lease_ms() == old(self).lease_ms(),
            ({
                let ms = parse_batch(old(self).pending(), 0, None, old(self).last_sn());
                &&& r@.map_values(|m: NetworkMessage| m@) == network_only(ms)
                &&& final(self).liveness() == if has_close(ms) {
                    Liveness::Closed
                } else {
                    old(self).liveness()
                }
            }),
    {
        let size = self.cursor;
        let bytes = crate::wire::copy_range(self.buff.as_slice(), 0, size);
        let ghost ms = parse_batch(bytes@, 0, None, self.sn);
        let mut reader = BatchReader::resume(bytes.as_slice(), None, self.sn);
        let mut out: Vec<NetworkMessage> = Vec::new();
        let mut closed = false;
        let ghost seen: Seq<MessageView> = Seq::empty();
        proof {
            assert(bytes@ == old(self).pending());
            assert(seen + reader.rest() =~= ms);
        }
        loop
            invariant
                ms == parse_batch(old(self).pending(), 0, None, old(self).last_sn()),
                reader.bytes() == bytes@,
                ms == seen + reader.rest(),
                out@.map_values(|m: NetworkMessage| m@) == network_only(seen),
                closed == has_close(seen),
            ensures
                ms == seen,
                out@.map_values(|m: NetworkMessage| m@) == network_only(seen),
                closed == has_close(seen),
            decreases reader.rest().len(),
        {
            let ghost before = reader.rest();
            match reader.next() {
                None => {
                    proof {
                        assert(seen + reader.rest() =~= seen);
                    }
                    break;
                },
                Some(m) => {
                    proof {
                        lemma_network_only_push(seen, m@);
                        lemma_has_close_push(seen, m@);
                        assert(ms == seen.push(m@) + reader.rest()) by {
                            assert(seen + (seq![m@] + reader.rest()) =~= seen.push(m@)
                                + reader.rest());
                        }
                        seen = seen.push(m@);
                    }
                    match m {
                        Message::Network(n) => {
                            out.push(n);
                            proof {
                                assert(out@.map_values(|m: NetworkMessage| m@) =~= network_only(
                                    seen,
                                ));
                            }
                        },
                        Message::Transport(t) => {
                            match t {
                                TransportMessage::Close(_) => {
                                    closed = true;
                                },
                                _ => {},
                            }
                            proof {
                                assert(out@.map_values(|m: NetworkMessage| m@) =~= network_only(
                                    seen,
                                ));
                            }
                        },
                    }
                },
            }
        }
        self.sn = reader.last_sn_exec();
        self.cursor = 0;
        if closed {
            self.state = Liveness::Closed;
        }
        out
    }

    /// Moves the liveness state along at time `now`: a peer heard from is
    /// synchronized; a synchronized peer silent past the deadline is closed.
    pub fn sync(&mut self, now: u64)
        requires
            old(self).wf(),
        ensures
            final(self).wf(),
            final(self).pending() == old(self).pending(),
            final(self).is_streamed() == old(self).is_streamed(),
            final(self).lease_ms() == old(self).lease_ms(),
            final(self).liveness() == match old(self).liveness() {
                Liveness::Used => Liveness::Synchronized { last_received: now },
                Liveness::Synchronized { last_received } => if now > deadline(
                    last_received,
                    old(self).lease_ms(),
                ) {
                    Liveness::Closed
                } else {
                    old(self).liveness()
                },
                other => other,
            },
    {
        match self.state {
            Liveness::Synchronized { last_received } => {
                let quarter = self.lease / 4;
                if last_received as u128 + 4 * (quarter as u128) < now as u128 {
                    self.state = Liveness::Closed;
                }
            },
            Liveness::Used => {
                self.state = Liveness::Synchronized { last_received: now };
            },
            _ => {},
        }
    }

    /// When the next keep-alive is due: a quarter lease after the last
    /// reception once synchronized, 0 otherwise.
    pub fn next_timeout(&self) -> (r: u64)
        ensures
            r == match self.liveness() {
                Liveness::Synchronized { last_received } => if last_received + self.lease_ms() / 4
                    > u64::MAX {
                    u64::MAX as int
                } else {
                    last_received + self.lease_ms() / 4
                },
                _ => 0,
            },
    {
        match self.state {
            Liveness::Synchronized { last_received } => {
                let quarter = self.lease / 4;
                if last_received > u64::MAX - quarter {
                    u64::MAX
                } else {
                    last_received + quarter
                }
            },
            _ => 0,
        }
    }
}

proof fn lemma_network_only_push(ms: Seq<MessageView>, m: MessageView)
    ensures
        network_only(ms.push(m)) == network_only(ms) + (match m {
            MessageView::Network(n) => seq![n],
            MessageView::Transport(_) => Seq::<NetworkMessageView>::empty(),
        }),
    decreases ms.len(),
{
    let tail = match m {
        MessageView::Network(n) => seq![n],
        MessageView::Transport(_) => Seq::<NetworkMessageView>::empty(),
    };
    if ms.len() == 0 {
        assert(ms.push(m).drop_first() =~= Seq::<MessageView>::empty());
        assert(ms.push(m)[0] == m);
        assert(network_only(Seq::<MessageView>::empty()) == Seq::<NetworkMessageView>::empty());
        assert(network_only(ms.push(m)) =~= network_only(ms) + tail);
    } else {
        assert(ms.push(m).drop_first() =~= ms.drop_first().push(m));
        assert(ms.push(m)[0] == ms[0]);
        lemma_network_only_push(ms.drop_first(), m);
        let head = match ms[0] {
            MessageView::Network(n) => seq![n],
            MessageView::Transport(_) => Seq::<NetworkMessageView>::empty(),
        };
        assert(network_only(ms.push(m)) == head + network_only(ms.drop_first().push(m)));
        assert(network_only(ms) == head + network_only(ms.drop_first()));
        assert(network_only(ms.push(m)) =~= network_only(ms) + tail);
    }
}

proof fn lemma_has_close_push(ms: Seq<MessageView>, m: MessageView)
    ensures
        has_close(ms.push(m)) == (has_close(ms) || m matches MessageView::Transport(
            TransportMessageView::Close(_),
        )),
{
    if has_close(ms) {
        let i = choose|i: int|
            0 <= i < ms.len() && (#[trigger] ms[i] matches MessageView::Transport(
                TransportMessageView::Close(_),
            ));
        assert(ms.push(m)[i] == ms[i]);
    }
    if m matches MessageView::Transport(TransportMessageView::Close(_)) {
        assert(ms.push(m)[ms.len() as int] == m);
    }
    if has_close(ms.push(m)) {
        let i = choose|i: int|
            0 <= i < ms.push(m).len() && (#[trigger] ms.push(m)[i] matches MessageView::Transport(
                TransportMessageView::Close(_),
            ));
        if i < ms.len() {
            assert(ms[i] == ms.push(m)[i]);
        }
    }
}

} // verus!
