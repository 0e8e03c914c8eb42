//! Batches: a writer that groups network messages under frame headers and
//! a reader that hands each network message the reliability and QoS of the
//! frame it sits in.
use vstd::prelude::*;
use crate::codec::{
    lemma_frame_round_trip, lemma_network_round_trip, lemma_parse_item_bounds, parse_item, read_item, ser_frame, ser_network, ser_transport,
    write_frame, write_network, write_transport, Decoded, Item, network_wf,
};
use crate::error::CodecError;
use crate::msgs::{
    FrameHeader, Message, MessageView, NetworkBody, NetworkBodyView, NetworkMessage,
    NetworkMessageView, QoS,
    Reliability, TransportMessage, TransportMessageView,
};
use crate::wire::{copy_range, holds_at, lemma_holds_at_split, lemma_holds_at_split3, write_at};

verus! {

/// A frame header held by value or borrowed.
#[derive(Debug, PartialEq)]
pub enum Header<'a> {
    Owned(FrameHeader),
    Borrowed(&'a FrameHeader),
}

// ---------------------------------------------------------------- writer spec

/// A network message of class `(r, q)` opens a new frame unless the current
/// frame has that class.
pub open spec fn needs_frame(last: Option<FrameHeader>, r: Reliability, q: QoS) -> bool {
    match last {
        None => true,
        Some(f) => f.reliability != r || f.qos != q,
    }
}

/// The sequence number after `sn`, wrapping to 0 past `mask`.
pub open spec fn sn_next(sn: u32, mask: u32) -> u32 {
    if sn >= mask {
        0
    } else {
        (sn + 1) as u32
    }
}

/// The bytes that writing `m` appends, given the current frame and the
/// next sequence number.
pub open spec fn framed_bytes(last: Option<FrameHeader>, sn: u32, m: NetworkMessageView) -> Seq<
    u8,
> {
    if needs_frame(last, m.reliability, m.qos) {
        ser_frame(FrameHeader { reliability: m.reliability, sn, qos: m.qos }) + ser_network(m.body)
    } else {
        ser_network(m.body)
    }
}

/// The current frame once `m` is written.
pub open spec fn frame_after(last: Option<FrameHeader>, sn: u32, m: NetworkMessageView) -> Option<
    FrameHeader,
> {
    if needs_frame(last, m.reliability, m.qos) {
        Some(FrameHeader { reliability: m.reliability, sn, qos: m.qos })
    } else {
        last
    }
}

/// The next sequence number once `m` is written.
pub open spec fn sn_after(last: Option<FrameHeader>, sn: u32, mask: u32, m: NetworkMessageView) -> u32 {
    if needs_frame(last, m.reliability, m.qos) {
        sn_next(sn, mask)
    } else {
        sn
    }
}

// ---------------------------------------------------------------- writer

/// Writes messages into a fixed buffer, opening a frame whenever the class
/// of a network message differs from the current frame's.
pub struct BatchWriter {
    buf: Vec<u8>,
    init: usize,
    cursor: usize,
    end: usize,
    frame: Option<FrameHeader>,
    sn: u32,
    mask: u32,
}

impl BatchWriter {
    pub closed spec fn wf(&self) -> bool {
        self.init <= self.cursor <= self.end <= self.buf@.len() && self.sn <= self.mask
    }

    /// The bytes written so far.
    pub closed spec fn written(&self) -> Seq<u8> {
        self.buf@.subrange(self.init as int, self.cursor as int)
    }

    /// How many more bytes fit.
    pub closed spec fn remaining(&self) -> nat {
        (self.end - self.cursor) as nat
    }

    pub closed spec fn frame_state(&self) -> Option<FrameHeader> {
        self.frame
    }

    pub closed spec fn next_sn(&self) -> u32 {
        self.sn
    }

    pub closed spec fn sn_mask(&self) -> u32 {
        self.mask
    }

    /// A writer over all of `writer`, with sequence numbers that wrap past
    /// `u32::MAX`.
    pub fn new(writer: Vec<u8>, sn: u32) -> (r: BatchWriter)
        ensures
            r.wf(),
            r.written() == Seq::<u8>::empty(),
            r.remaining() == writer@.len(),
            r.frame_state() is None,
            r.next_sn() == sn,
            r.sn_mask() == u32::MAX,
    {
        let end = writer.len();
        BatchWriter { buf: writer, init: 0, cursor: 0, end, frame: None, sn, mask: u32::MAX }
    }

    /// A writer over `writer[init..end]` whose sequence numbers wrap past
    /// `mask`.
    pub fn with_limits(writer: Vec<u8>, init: usize, end: usize, sn: u32, mask: u32) -> (r:
        BatchWriter)
        requires
            init <= end <= writer@.len(),
            sn <= mask,
        ensures
            r.wf(),
            r.written() == Seq::<u8>::empty(),
            r.remaining() == end - init,
            r.frame_state() is None,
            r.next_sn() == sn,
            r.sn_mask() == mask,
    {
        BatchWriter { buf: writer, init, cursor: init, end, frame: None, sn, mask }
    }

    pub fn has_written(&self) -> (r: bool)
        requires
            self.wf(),
        ensures
            r == (self.written().len() != 0),
    {
        self.init != self.cursor
    }

    /// The next sequence number and the bytes written.
    pub fn finalize(self) -> (r: (u32, Vec<u8>))
        requires
            self.wf(),
        ensures
            r.0 == self.next_sn(),
            r.1@ == self.written(),
    {
        let bytes = copy_range(self.buf.as_slice(), self.init, self.cursor);
        (self.sn, bytes)
    }

    /// Copies `bytes` after what is written, if they fit.
    fn put(&mut self, bytes: &Vec<u8>) -> (r: bool)
        requires
            old(self).wf(),
        ensures
            final(self).wf(),
            r == (bytes@.len() <= old(self).remaining()),
            r ==> final(self).written() == old(self).written() + bytes@,
            !r ==> final(self).written() == old(self).written(),
            final(self).remaining() == if r {
                old(self).remaining() - bytes@.len()
            } else {
                old(self).remaining() as int
            },
            final(self).frame_state() == old(self).frame_state(),
            final(self).next_sn() == old(self).next_sn(),
            final(self).sn_mask() == old(self).sn_mask(),
    {
        if bytes.len() > self.end - self.cursor {
            return false;
        }
        let ghost pre = self.buf@;
        write_at(&mut self.buf, self.cursor, bytes);
        proof {
            assert(self.buf@.subrange(self.init as int, self.cursor + bytes@.len()) =~= pre.subrange(
                self.init as int,
                self.cursor as int,
            ) + bytes@);
        }
        self.cursor = self.cursor + bytes.len();
        true
    }

    /// Writes a transport message; it closes the current frame.
    pub fn unframed(&mut self, x: &TransportMessage) -> (r: Result<(), CodecError>)
        requires
            old(self).wf(),
        ensures
            final(self).wf(),
            final(self).sn_mask() == old(self).sn_mask(),
            final(self).next_sn() == old(self).next_sn(),
            match r {
                Ok(()) => ser_transport(x@).len() <= old(self).remaining() && final(self).written()
                    == old(self).written() + ser_transport(x@) && final(self).remaining() == old(self).remaining() - ser_transport(x@).len() && final(self).frame_state() is None,
                Err(e) => e == CodecError::BufferTooSmall && ser_transport(x@).len() > old(self).remaining() && final(self).written() == old(self).written() && final(self).remaining() == old(self).remaining() && final(self).frame_state() == old(self).frame_state(),
            },
    {
        let mut scratch: Vec<u8> = Vec::new();
        write_transport(&mut scratch, x);
        proof {
            assert(scratch@ =~= ser_transport(x@));
        }
        if self.put(&scratch) {
            self.frame = None;
            Ok(())
        } else {
            Err(CodecError::BufferTooSmall)
        }
    }

    /// Writes a network message of class `(r, qos)`, opening a frame first
    /// if the class differs from the current frame's. On failure nothing is
    /// written and the frame state is unchanged.
    pub fn framed(&mut self, x: &NetworkBody, r: Reliability, qos: QoS) -> (res: Result<
        (),
        CodecError,
    >)
        requires
            old(self).wf(),
            network_wf(x@),
        ensures
            final(self).wf(),
            final(self).sn_mask() == old(self).sn_mask(),
            ({
                let m = NetworkMessageView { reliability: r, qos, body: x@ };
                let bytes = framed_bytes(old(self).frame_state(), old(self).next_sn(), m);
                match res {
                    Ok(()) => bytes.len() <= old(self).remaining() && final(self).written() == old(self).written() + bytes && final(self).remaining() == old(self).remaining() - bytes.len() && final(self).frame_state() == frame_after(
                        old(self).frame_state(),
                        old(self).next_sn(),
                        m,
                    ) && final(self).next_sn() == sn_after(
                        old(self).frame_state(),
                        old(self).next_sn(),
                        old(self).sn_mask(),
                        m,
                    ),
                    Err(e) => e == CodecError::BufferTooSmall && bytes.len() > old(self).remaining()
                        && final(self).written() == old(self).written() && final(self).remaining()
                        == old(self).remaining() && final(self).frame_state() == old(self).frame_state() && final(self).next_sn() == old(self).next_sn(),
                }
            }),
    {
        let need = match &self.frame {
            None => true,
            Some(f) => f.reliability != r || f.qos.inner != qos.inner,
        };
        let header = FrameHeader { reliability: r, sn: self.sn, qos };
        let mut scratch: Vec<u8> = Vec::new();
        if need {
            write_frame(&mut scratch, &header);
        }
        write_network(&mut scratch, x);
        proof {
            let m = NetworkMessageView { reliability: r, qos, body: x@ };
            assert(need == needs_frame(self.frame, r, qos));
            assert(scratch@ =~= framed_bytes(self.frame, self.sn, m));
        }
        if self.put(&scratch) {
            if need {
                self.frame = Some(header);
                self.sn = if self.sn >= self.mask {
                    0
                } else {
                    self.sn + 1
                };
            }
            Ok(())
        } else {
            Err(CodecError::BufferTooSmall)
        }
    }

    /// Hands out what is written and starts over on an empty batch; the
    /// next network message opens a new frame.
    pub(crate) fn take(&mut self) -> (r: Vec<u8>)
        requires
            old(self).wf(),
        ensures
            final(self).wf(),
            r@ == old(self).written(),
            final(self).written() == Seq::<u8>::empty(),
            final(self).remaining() == old(self).remaining() + old(self).written().len(),
            final(self).frame_state() is None,
            final(self).next_sn() == old(self).next_sn(),
            final(self).sn_mask() == old(self).sn_mask(),
    {
        let bytes = copy_range(self.buf.as_slice(), self.init, self.cursor);
        self.cursor = self.init;
        self.frame = None;
        bytes
    }

    /// Forgets the current frame: the next network message opens a new one.
    pub(crate) fn reset_frame(&mut self)
        requires
            old(self).wf(),
        ensures
            final(self).wf(),
            final(self).written() == old(self).written(),
            final(self).remaining() == old(self).remaining(),
            final(self).frame_state() is None,
            final(self).next_sn() == old(self).next_sn(),
            final(self).sn_mask() == old(self).sn_mask(),
    {
        self.frame = None;
    }
}

/// A writer for exactly one message.
pub struct OneShotWriter(BatchWriter);

impl OneShotWriter {
    pub closed spec fn capacity(&self) -> nat {
        self.0.remaining()
    }

    pub closed spec fn wf(&self) -> bool {
        self.0.wf() && self.0.written().len() == 0 && self.0.frame_state() is None
            && self.0.sn_mask() == u32::MAX && self.0.next_sn() == 0
    }

    pub fn new(writer: Vec<u8>) -> (r: OneShotWriter)
        ensures
            r.wf(),
            r.capacity() == writer@.len(),
    {
        OneShotWriter(BatchWriter::new(writer, 0))
    }

    /// Writes `x` alone; returns the next sequence number (0) and its bytes.
    pub fn unframed(self, x: &TransportMessage) -> (r: Result<(u32, Vec<u8>), CodecError>)
        requires
            self.wf(),
        ensures
            match r {
                Ok((sn, bytes)) => ser_transport(x@).len() <= self.capacity() && bytes@
                    == ser_transport(x@) && sn == 0,
                Err(e) => e == CodecError::BufferTooSmall && ser_transport(x@).len()
                    > self.capacity(),
            },
    {
        let mut w = self.0;
        match w.unframed(x) {
            Ok(()) => {
                proof {
                    assert(w.written() =~= ser_transport(x@));
                }
                Ok(w.finalize())
            },
            Err(e) => Err(e),
        }
    }

    /// Writes `x` in a frame of class `(r, qos)` numbered `sn`; returns the
    /// sequence number after it and the bytes.
    pub fn framed(self, x: &NetworkBody, r: Reliability, qos: QoS, sn: u32) -> (res: Result<
        (u32, Vec<u8>),
        CodecError,
    >)
        requires
            self.wf(),
            network_wf(x@),
        ensures
            ({
                let bytes = ser_frame(FrameHeader { reliability: r, sn, qos }) + ser_network(x@);
                match res {
                    Ok((next, out)) => bytes.len() <= self.capacity() && out@ == bytes && next
                        == sn_next(sn, u32::MAX),
                    Err(e) => e == CodecError::BufferTooSmall && bytes.len() > self.capacity(),
                }
            }),
    {
        let mut w = self.0;
        w.sn = sn;
        match w.framed(x, r, qos) {
            Ok(()) => {
                proof {
                    let bytes = ser_frame(FrameHeader { reliability: r, sn, qos }) + ser_network(
                        x@,
                    );
                    assert(w.written() =~= bytes);
                }
                Ok(w.finalize())
            },
            Err(e) => Err(e),
        }
    }
}

/// Writes one message after the other into a buffer and hands out the bytes
/// of each.
pub struct AdvancingWriter {
    buffer: Vec<u8>,
    cursor: usize,
}

impl AdvancingWriter {
    pub closed spec fn wf(&self) -> bool {
        self.cursor <= self.buffer@.len()
    }

    pub closed spec fn written(&self) -> Seq<u8> {
        self.buffer@.subrange(0, self.cursor as int)
    }

    pub closed spec fn remaining(&self) -> nat {
        (self.buffer@.len() - self.cursor) as nat
    }

    pub fn new(buffer: Vec<u8>) -> (r: AdvancingWriter)
        ensures
            r.wf(),
            r.written() == Seq::<u8>::empty(),
            r.remaining() == buffer@.len(),
    {
        AdvancingWriter { buffer, cursor: 0 }
    }

    fn advance(&mut self, bytes: Vec<u8>) -> (r: Result<Vec<u8>, CodecError>)
        requires
            old(self).wf(),
        ensures
            final(self).wf(),
            match r {
                Ok(out) => bytes@.len() <= old(self).remaining() && out@ == bytes@ && final(self).written() == old(self).written() + bytes@ && final(self).remaining()
                    == old(self).remaining() - bytes@.len(),
                Err(e) => e == CodecError::BufferTooSmall && bytes@.len() > old(self).remaining()
                    && final(self).written() == old(self).written() && final(self).remaining()
                    == old(self).remaining(),
            },
    {
        if bytes.len() > self.buffer.len() - self.cursor {
            return Err(CodecError::BufferTooSmall);
        }
        let ghost pre = self.buffer@;
        write_at(&mut self.buffer, self.cursor, &bytes);
        proof {
            assert(self.buffer@.subrange(0, self.cursor + bytes@.len()) =~= pre.subrange(
                0,
                self.cursor as int,
            ) + bytes@);
        }
        self.cursor = self.cursor + bytes.len();
        Ok(bytes)
    }

    /// Writes `x` after the previous messages and returns its bytes.
    pub fn unframed(&mut self, x: &TransportMessage) -> (r: Result<Vec<u8>, CodecError>)
        requires
            old(self).wf(),
        ensures
            final(self).wf(),
            match r {
                Ok(out) => out@ == ser_transport(x@) && final(self).written() == old(self).written()
                    + ser_transport(x@),
                Err(e) => e == CodecError::BufferTooSmall && ser_transport(x@).len() > old(self).remaining() && final(self).written() == old(self).written(),
            },
    {
        let mut scratch: Vec<u8> = Vec::new();
        write_transport(&mut scratch, x);
        proof {
            assert(scratch@ =~= ser_transport(x@));
        }
        self.advance(scratch)
    }

    /// Writes `x` in a frame of class `(r, qos)` numbered `sn` after the
    /// previous messages and returns the bytes of both.
    pub fn framed(&mut self, x: &NetworkBody, r: Reliability, qos: QoS, sn: u32) -> (res: Result<
        Vec<u8>,
        CodecError,
    >)
        requires
            old(self).wf(),
            network_wf(x@),
        ensures
            final(self).wf(),
            ({
                let bytes = ser_frame(FrameHeader { reliability: r, sn, qos }) + ser_network(x@);
                match res {
                    Ok(out) => out@ == bytes && final(self).written() == old(self).written()
                        + bytes,
                    Err(e) => e == CodecError::BufferTooSmall && bytes.len() > old(self).remaining()
                        && final(self).written() == old(self).written(),
                }
            }),
    {
        let mut scratch: Vec<u8> = Vec::new();
        write_frame(&mut scratch, &FrameHeader { reliability: r, sn, qos });
        write_network(&mut scratch, x);
        proof {
            assert(scratch@ =~= ser_frame(FrameHeader { reliability: r, sn, qos }) + ser_network(
                x@,
            ));
        }
        self.advance(scratch)
    }
}

// ---------------------------------------------------------------- reader spec

/// A frame numbered below the last one seen is refused; a last number of 0
/// accepts any.
pub open spec fn sn_accepted(last_sn: u32, sn: u32) -> bool {
    last_sn == 0 || sn >= last_sn
}

/// The messages of the batch `s` from position `p` on, in the frame
/// `frame`. Frame headers set the frame; a network message outside any
/// frame, a frame numbered below the previous one, or anything unreadable
/// ends the batch.
pub open spec fn parse_batch(s: Seq<u8>, p: int, frame: Option<FrameHeader>, last_sn: u32) -> Seq<
    MessageView,
>
    decreases s.len() - p,
{
    if p < 0 || p >= s.len() {
        Seq::empty()
    } else {
        match parse_item(s, p) {
            None => Seq::empty(),
            Some((it, q)) => if q <= p || q > s.len() {
                Seq::empty()
            } else {
                match it {
                    Item::Frame(f) => if sn_accepted(last_sn, f.sn) {
                        parse_batch(s, q, Some(f), f.sn)
                    } else {
                        Seq::empty()
                    },
                    Item::Transport(t) => seq![MessageView::Transport(t)] + parse_batch(
                        s,
                        q,
                        frame,
                        last_sn,
                    ),
                    Item::Network(b) => match frame {
                        None => Seq::empty(),
                        Some(f) => seq![
                            MessageView::Network(
                                NetworkMessageView { reliability: f.reliability, qos: f.qos, body: b },
                            ),
                        ] + parse_batch(s, q, frame, last_sn),
                    },
                }
            },
        }
    }
}

// ---------------------------------------------------------------- reader

/// Reads the messages of one batch in order.
pub struct BatchReader<'a> {
    reader: &'a [u8],
    pos: usize,
    frame: Option<FrameHeader>,
    last_sn: u32,
}

impl<'a> BatchReader<'a> {
    pub closed spec fn bytes(&self) -> Seq<u8> {
        self.reader@
    }

    /// The messages still to come.
    pub closed spec fn rest(&self) -> Seq<MessageView> {
        parse_batch(self.reader@, self.pos as int, self.frame, self.last_sn)
    }

    pub closed spec fn done(&self) -> bool {
        self.pos >= self.reader@.len()
    }

    pub fn new(reader: &'a [u8]) -> (r: BatchReader<'a>)
        ensures
            r.bytes() == reader@,
            r.rest() == parse_batch(reader@, 0, None, 0),
    {
        BatchReader { reader, pos: 0, frame: None, last_sn: 0 }
    }

    /// A reader that starts inside `frame`, after a frame numbered `last_sn`.
    pub(crate) fn resume(reader: &'a [u8], frame: Option<FrameHeader>, last_sn: u32) -> (r:
        BatchReader<'a>)
        ensures
            r.bytes() == reader@,
            r.rest() == parse_batch(reader@, 0, frame, last_sn),
    {
        BatchReader { reader, pos: 0, frame, last_sn }
    }

    pub closed spec fn last_sn(&self) -> u32 {
        self.last_sn
    }

    /// A copy of where the reader stands, to come back to.
    pub fn mark(&self) -> (r: BatchReader<'a>)
        ensures
            r == *self,
    {
        BatchReader { reader: self.reader, pos: self.pos, frame: self.frame, last_sn: self.last_sn }
    }

    /// The number of the last frame read, or the one the reader started
    /// after.
    pub fn last_sn_exec(&self) -> (r: u32)
        ensures
            r == self.last_sn(),
    {
        self.last_sn
    }

    /// The next message of the batch; `None` once the batch is over or
    /// broken, and from then on.
    pub fn next(&mut self) -> (r: Option<Message>)
        ensures
            final(self).bytes() == old(self).bytes(),
            r is None ==> old(self).rest() == Seq::<MessageView>::empty(),
            r is None ==> final(self).done(),
            r is None ==> final(self).rest() == Seq::<MessageView>::empty(),
            r matches Some(m) ==> old(self).rest() == seq![m@] + final(self).rest(),
            old(self).last_sn() != final(self).last_sn() ==> sn_accepted(
                old(self).last_sn(),
                final(self).last_sn(),
            ),
    {
        let ghost start = self.rest();
        let ghost start_sn = self.last_sn;
        loop
            invariant
                self.reader@ == old(self).reader@,
                self.rest() == start,
                start == old(self).rest(),
                start_sn == old(self).last_sn,
                start_sn != self.last_sn ==> sn_accepted(start_sn, self.last_sn),
            decreases self.reader@.len() - self.pos,
        {
            proof {
                lemma_parse_item_bounds(self.reader@, self.pos as int);
            }
            let len = self.reader.len();
            if self.pos >= len {
                return None;
            }
            match read_item(self.reader, self.pos) {
                None => {
                    self.pos = len;
                    return None;
                },
                Some((Decoded::Frame(f), q)) => {
                    if self.last_sn != 0 && f.sn < self.last_sn {
                        self.pos = len;
                        return None;
                    }
                    self.frame = Some(f);
                    self.last_sn = f.sn;
                    self.pos = q;
                },
                Some((Decoded::Transport(t), q)) => {
                    self.pos = q;
                    return Some(Message::Transport(t));
                },
                Some((Decoded::Network(b), q)) => {
                    match self.frame {
                        None => {
                            self.pos = len;
                            return None;
                        },
                        Some(f) => {
                            self.pos = q;
                            return Some(
                                Message::Network(
                                    NetworkMessage { reliability: f.reliability, qos: f.qos, body: b },
                                ),
                            );
                        },
                    }
                },
            }
        }
    }
}

// ---------------------------------------------------------------- runs

/// The bytes that writing the network messages `ms` one after the other
/// appends, starting in frame `last` with next sequence number `sn`.
pub open spec fn run_bytes(ms: Seq<NetworkMessageView>, last: Option<FrameHeader>, sn: u32, mask: u32) -> Seq<u8>
    decreases ms.len(),
{
    if ms.len() == 0 {
        Seq::empty()
    } else {
        framed_bytes(last, sn, ms[0]) + run_bytes(
            ms.drop_first(),
            frame_after(last, sn, ms[0]),
            sn_after(last, sn, mask, ms[0]),
            mask,
        )
    }
}

/// The frame headers that writing `ms` emits, in order.
pub open spec fn run_frames(ms: Seq<NetworkMessageView>, last: Option<FrameHeader>, sn: u32, mask: u32) -> Seq<FrameHeader>
    decreases ms.len(),
{
    if ms.len() == 0 {
        Seq::empty()
    } else {
        (if needs_frame(last, ms[0].reliability, ms[0].qos) {
            seq![FrameHeader { reliability: ms[0].reliability, sn, qos: ms[0].qos }]
        } else {
            Seq::empty()
        }) + run_frames(
            ms.drop_first(),
            frame_after(last, sn, ms[0]),
            sn_after(last, sn, mask, ms[0]),
            mask,
        )
    }
}

/// The current frame and next sequence number once `ms` are written.
pub open spec fn run_end(ms: Seq<NetworkMessageView>, last: Option<FrameHeader>, sn: u32, mask: u32) -> (Option<FrameHeader>, u32)
    decreases ms.len(),
{
    if ms.len() == 0 {
        (last, sn)
    } else {
        run_end(
            ms.drop_first(),
            frame_after(last, sn, ms[0]),
            sn_after(last, sn, mask, ms[0]),
            mask,
        )
    }
}

/// Writing one more message extends the run by its framed bytes.
pub proof fn lemma_run_push(
    ms: Seq<NetworkMessageView>,
    m: NetworkMessageView,
    last: Option<FrameHeader>,
    sn: u32,
    mask: u32,
)
    ensures
        ({
            let (f, n) = run_end(ms, last, sn, mask);
            &&& run_bytes(ms.push(m), last, sn, mask) == run_bytes(ms, last, sn, mask)
                + framed_bytes(f, n, m)
            &&& run_end(ms.push(m), last, sn, mask) == (frame_after(f, n, m), sn_after(f, n, mask, m))
        }),
    decreases ms.len(),
{
    if ms.len() == 0 {
        let e = Seq::<NetworkMessageView>::empty();
        assert(ms.push(m).drop_first() =~= e);
        assert(ms.push(m)[0] == m);
        assert(ms =~= e);
        let l2 = frame_after(last, sn, m);
        let s2 = sn_after(last, sn, mask, m);
        assert(run_bytes(e, l2, s2, mask) == Seq::<u8>::empty());
        assert(run_end(e, l2, s2, mask) == (l2, s2));
        assert(run_end(e, last, sn, mask) == (last, sn));
        assert(run_bytes(e, last, sn, mask) == Seq::<u8>::empty());
        assert(run_bytes(ms.push(m), last, sn, mask) =~= run_bytes(ms, last, sn, mask) + framed_bytes(last, sn, m));
    } else {
        assert(ms.push(m).drop_first() =~= ms.drop_first().push(m));
        assert(ms.push(m)[0] == ms[0]);
        let l2 = frame_after(last, sn, ms[0]);
        let s2 = sn_after(last, sn, mask, ms[0]);
        lemma_run_push(ms.drop_first(), m, l2, s2, mask);
        let (f, n) = run_end(ms, last, sn, mask);
        assert(run_bytes(ms.push(m), last, sn, mask) =~= run_bytes(ms, last, sn, mask)
            + framed_bytes(f, n, m));
    }
}

/// How many messages of `ms` have a class other than the message before
/// them (`prev` for the first one).
pub open spec fn class_changes(ms: Seq<NetworkMessageView>, prev: Option<(Reliability, QoS)>) -> nat
    decreases ms.len(),
{
    if ms.len() == 0 {
        0
    } else {
        (if prev != Some((ms[0].reliability, ms[0].qos)) {
            1nat
        } else {
            0nat
        }) + class_changes(ms.drop_first(), Some((ms[0].reliability, ms[0].qos)))
    }
}

pub open spec fn class_of(last: Option<FrameHeader>) -> Option<(Reliability, QoS)> {
    match last {
        None => None,
        Some(f) => Some((f.reliability, f.qos)),
    }
}

pub open spec fn all_network_wf(ms: Seq<NetworkMessageView>) -> bool {
    forall|i: int| 0 <= i < ms.len() ==> network_wf(#[trigger] ms[i].body)
}

pub open spec fn as_messages(ms: Seq<NetworkMessageView>) -> Seq<MessageView> {
    ms.map_values(|m: NetworkMessageView| MessageView::Network(m))
}

proof fn lemma_frames_count(ms: Seq<NetworkMessageView>, last: Option<FrameHeader>, sn: u32, mask: u32)
    ensures
        run_frames(ms, last, sn, mask).len() == class_changes(ms, class_of(last)),
    decreases ms.len(),
{
    if ms.len() > 0 {
        lemma_frames_count(
            ms.drop_first(),
            frame_after(last, sn, ms[0]),
            sn_after(last, sn, mask, ms[0]),
            mask,
        );
        assert(class_of(frame_after(last, sn, ms[0])) == Some((ms[0].reliability, ms[0].qos)));
    }
}

/// The writer emits one frame header for each message whose reliability or
/// QoS differs from the message before it, the first message always
/// counting.
pub proof fn law_frame_grouping(ms: Seq<NetworkMessageView>, sn: u32, mask: u32)
    ensures
        run_frames(ms, None, sn, mask).len() == class_changes(ms, None),
{
    lemma_frames_count(ms, None, sn, mask);
}

proof fn lemma_frames_sn(ms: Seq<NetworkMessageView>, last: Option<FrameHeader>, sn: u32, mask: u32)
    ensures
        run_frames(ms, last, sn, mask).len() > 0 ==> run_frames(ms, last, sn, mask)[0].sn == sn,
        forall|k: int|
            0 <= k < run_frames(ms, last, sn, mask).len() - 1 ==> #[trigger] run_frames(
                ms,
                last,
                sn,
                mask,
            )[k + 1].sn == sn_next(run_frames(ms, last, sn, mask)[k].sn, mask),
    decreases ms.len(),
{
    if ms.len() > 0 {
        let last2 = frame_after(last, sn, ms[0]);
        let sn2 = sn_after(last, sn, mask, ms[0]);
        lemma_frames_sn(ms.drop_first(), last2, sn2, mask);
        let rest = run_frames(ms.drop_first(), last2, sn2, mask);
        let all = run_frames(ms, last, sn, mask);
        if needs_frame(last, ms[0].reliability, ms[0].qos) {
            assert forall|k: int| 0 <= k < all.len() - 1 implies #[trigger] all[k + 1].sn == sn_next(
                all[k].sn,
                mask,
            ) by {
                if k > 0 {
                    assert(all[k + 1] == rest[k]);
                    assert(all[k] == rest[k - 1]);
                    assert(rest[(k - 1) + 1].sn == sn_next(rest[k - 1].sn, mask));
                }
            }
        } else {
            assert(all =~= rest);
        }
    }
}

/// Within one run of writes the frame headers are numbered from the
/// starting sequence number, each one step after the one before, wrapping
/// past `mask`.
pub proof fn law_sn_monotonic(ms: Seq<NetworkMessageView>, sn: u32, mask: u32)
    ensures
        run_frames(ms, None, sn, mask).len() > 0 ==> run_frames(ms, None, sn, mask)[0].sn == sn,
        forall|k: int|
            0 <= k < run_frames(ms, None, sn, mask).len() - 1 ==> #[trigger] run_frames(
                ms,
                None,
                sn,
                mask,
            )[k + 1].sn == sn_next(run_frames(ms, None, sn, mask)[k].sn, mask),
{
    lemma_frames_sn(ms, None, sn, mask);
}

proof fn lemma_step_framed(
    s: Seq<u8>,
    p: int,
    last: Option<FrameHeader>,
    last_sn: u32,
    f: FrameHeader,
    b: NetworkBodyView,
)
    requires
        network_wf(b),
        holds_at(s, p, ser_frame(f) + ser_network(b)),
        sn_accepted(last_sn, f.sn),
    ensures
        parse_batch(s, p, last, last_sn) == seq![
            MessageView::Network(NetworkMessageView { reliability: f.reliability, qos: f.qos, body: b }),
        ] + parse_batch(s, p + ser_frame(f).len() + ser_network(b).len(), Some(f), f.sn),
{
    let fb = ser_frame(f);
    lemma_holds_at_split(s, p, fb, ser_network(b));
    lemma_frame_round_trip(f, s, p);
    lemma_network_round_trip(b, s, p + fb.len());
    assert(parse_batch(s, p, last, last_sn) == parse_batch(s, p + fb.len(), Some(f), f.sn));
}

proof fn lemma_step_in_frame(s: Seq<u8>, p: int, f: FrameHeader, last_sn: u32, b: NetworkBodyView)
    requires
        network_wf(b),
        holds_at(s, p, ser_network(b)),
    ensures
        parse_batch(s, p, Some(f), last_sn) == seq![
            MessageView::Network(NetworkMessageView { reliability: f.reliability, qos: f.qos, body: b }),
        ] + parse_batch(s, p + ser_network(b).len(), Some(f), last_sn),
{
    lemma_network_round_trip(b, s, p);
}

proof fn lemma_all_wf_tail(ms: Seq<NetworkMessageView>)
    requires
        ms.len() > 0,
        all_network_wf(ms),
    ensures
        all_network_wf(ms.drop_first()),
        network_wf(ms[0].body),
{
    assert forall|i: int| 0 <= i < ms.drop_first().len() implies network_wf(
        #[trigger] ms.drop_first()[i].body,
    ) by {
        assert(ms.drop_first()[i] == ms[i + 1]);
    }
}

proof fn lemma_as_messages_head(ms: Seq<NetworkMessageView>)
    requires
        ms.len() > 0,
    ensures
        as_messages(ms) == seq![MessageView::Network(ms[0])] + as_messages(ms.drop_first()),
{
    assert(as_messages(ms) =~= seq![MessageView::Network(ms[0])] + as_messages(ms.drop_first()));
}

#[verifier::rlimit(40)]
proof fn lemma_run_round_trip(
    ms: Seq<NetworkMessageView>,
    last: Option<FrameHeader>,
    last_sn: u32,
    sn: u32,
    mask: u32,
    s: Seq<u8>,
    p: int,
)
    requires
        all_network_wf(ms),
        holds_at(s, p, run_bytes(ms, last, sn, mask)),
        p + run_bytes(ms, last, sn, mask).len() == s.len() || parse_item(
            s,
            p + run_bytes(ms, last, sn, mask).len(),
        ) is None,
        sn <= mask,
        sn + class_changes(ms, class_of(last)) <= mask,
        last_sn <= sn,
        last matches Some(f) ==> f.sn == last_sn,
    ensures
        parse_batch(s, p, last, last_sn) == as_messages(ms),
    decreases ms.len(),
{
    if ms.len() == 0 {
        assert(as_messages(ms) =~= Seq::<MessageView>::empty());
        assert(run_bytes(ms, last, sn, mask).len() == 0);
    } else {
        let m = ms[0];
        let last2 = frame_after(last, sn, m);
        let sn2 = sn_after(last, sn, mask, m);
        let rest = run_bytes(ms.drop_first(), last2, sn2, mask);
        let body = ser_network(m.body);
        lemma_all_wf_tail(ms);
        lemma_as_messages_head(ms);
        assert(class_of(last2) == Some((m.reliability, m.qos)));
        if needs_frame(last, m.reliability, m.qos) {
            let f = FrameHeader { reliability: m.reliability, sn, qos: m.qos };
            let fb = ser_frame(f);
            assert(run_bytes(ms, last, sn, mask) == (fb + body) + rest);
            lemma_holds_at_split(s, p, fb + body, rest);
            lemma_step_framed(s, p, last, last_sn, f, m.body);
            lemma_run_round_trip(ms.drop_first(), last2, sn, sn2, mask, s, p + fb.len() + body.len());
            assert(NetworkMessageView { reliability: f.reliability, qos: f.qos, body: m.body } == m);
        } else {
            let f = last.unwrap();
            assert(run_bytes(ms, last, sn, mask) == body + rest);
            lemma_holds_at_split(s, p, body, rest);
            lemma_step_in_frame(s, p, f, last_sn, m.body);
            lemma_run_round_trip(ms.drop_first(), last2, last_sn, sn2, mask, s, p + body.len());
            assert(NetworkMessageView { reliability: f.reliability, qos: f.qos, body: m.body } == m);
        }
    }
}

/// A batch written from a run of well-formed network messages reads back as
/// those messages, in order, each with its reliability and QoS, provided the
/// sequence numbers do not wrap within the batch.
pub proof fn law_batch_round_trip(ms: Seq<NetworkMessageView>, sn: u32, mask: u32)
    requires
        all_network_wf(ms),
        sn + class_changes(ms, None) <= mask,
    ensures
        parse_batch(run_bytes(ms, None, sn, mask), 0, None, 0) == as_messages(ms),
{
    let s = run_bytes(ms, None, sn, mask);
    assert(s.subrange(0, s.len() as int) =~= s);
    lemma_run_round_trip(ms, None, 0, sn, mask, s, 0);
}

/// A batch that ends in a message that cannot be read yields the messages
/// before it and nothing more.
pub proof fn law_batch_isolation(ms: Seq<NetworkMessageView>, sn: u32, mask: u32, tail: Seq<u8>)
    requires
        all_network_wf(ms),
        sn + class_changes(ms, None) <= mask,
        parse_item(run_bytes(ms, None, sn, mask) + tail, run_bytes(ms, None, sn, mask).len() as int)
            is None,
    ensures
        parse_batch(run_bytes(ms, None, sn, mask) + tail, 0, None, 0) == as_messages(ms),
{
    let r = run_bytes(ms, None, sn, mask);
    let s = r + tail;
    assert(s.subrange(0, r.len() as int) =~= r);
    lemma_run_round_trip(ms, None, 0, sn, mask, s, 0);
}

} // verus!
