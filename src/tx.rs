//! The sending endpoint of a session: it fills one batch at a time in its
//! buffer and hands it out, with the 2-byte length envelope in streamed mode.
use vstd::prelude::*;
use crate::batch::{
    all_network_wf, as_messages, class_changes, framed_bytes, frame_after, law_batch_round_trip,
    lemma_run_push, parse_batch, run_bytes, run_end, sn_after, BatchWriter,
};
use crate::codec::{network_wf, ser_transport};
use crate::error::TransportError;
use crate::msgs::{
    Bits, Field, FrameHeader, NetworkMessage, NetworkMessageView, Resolution, TransportMessage,
};
use crate::wire::{ser_u16, write_u16};

verus! {

/// The largest sequence number of a field of width `b`: numbers wrap past it.
pub open spec fn sn_mask_of(b: Bits) -> u32 {
    match b {
        Bits::U8 => 0xff,
        Bits::U16 => 0xffff,
        Bits::U32 => 0xffff_ffff,
        Bits::U64 => 0xffff_ffff,
    }
}

pub fn sn_mask(b: Bits) -> (r: u32)
    ensures
        r == sn_mask_of(b),
{
    match b {
        Bits::U8 => 0xff,
        Bits::U16 => 0xffff,
        Bits::U32 => 0xffff_ffff,
        Bits::U64 => 0xffff_ffff,
    }
}

/// A batch as it goes on the wire: in streamed mode its length as a
/// little-endian `u16` comes first.
pub open spec fn envelope(streamed: bool, payload: Seq<u8>) -> Seq<u8> {
    if streamed {
        ser_u16(payload.len() as u16) + payload
    } else {
        payload
    }
}

pub open spec fn byte_views(bs: Seq<Vec<u8>>) -> Seq<Seq<u8>> {
    bs.map_values(|b: Vec<u8>| b@)
}

pub open spec fn views_of(msgs: Seq<NetworkMessage>) -> Seq<NetworkMessageView> {
    msgs.map_values(|m: NetworkMessage| m@)
}

/// `batches` are the batches of `views[..cuts.last()]`: batch `k` holds
/// `views[cuts[k]..cuts[k + 1]]`, written from an empty frame with its first
/// frame numbered `sns[k]`, in its envelope; numbering carries on from one
/// batch to the next, from `sn0` to `sn_end`. Each batch holds at most `room`
/// bytes besides its envelope and `cap` bytes in all.
pub open spec fn batches_of(
    batches: Seq<Seq<u8>>,
    views: Seq<NetworkMessageView>,
    cuts: Seq<int>,
    sns: Seq<u32>,
    streamed: bool,
    mask: u32,
    sn0: u32,
    sn_end: u32,
    room: nat,
    cap: nat,
) -> bool {
    &&& cuts.len() == batches.len() + 1
    &&& sns.len() == batches.len()
    &&& cuts[0] == 0
    &&& cuts.last() <= views.len()
    &&& sn_end == if batches.len() == 0 {
        sn0
    } else {
        run_end(
            views.subrange(cuts[batches.len() - 1], cuts.last()),
            None,
            sns.last(),
            mask,
        ).1
    }
    &&& forall|k: int|
        0 <= k < batches.len() ==> #[trigger] batch_ok(
            batches,
            views,
            cuts,
            sns,
            streamed,
            mask,
            sn0,
            room,
            cap,
            k,
        )
}

/// Batch `k` holds `views[cuts[k]..cuts[k + 1]]`, numbered on from the
/// batch before it; it fits, and was closed only because the message after
/// it did not.
pub open spec fn batch_ok(
    batches: Seq<Seq<u8>>,
    views: Seq<NetworkMessageView>,
    cuts: Seq<int>,
    sns: Seq<u32>,
    streamed: bool,
    mask: u32,
    sn0: u32,
    room: nat,
    cap: nat,
    k: int,
) -> bool {
    let slice = views.subrange(cuts[k], cuts[k + 1]);
    let run = run_bytes(slice, None, sns[k], mask);
    let end = run_end(slice, None, sns[k], mask);
    &&& cuts[k] < cuts[k + 1]
    &&& run.len() <= room
    &&& batches[k].len() <= cap
    &&& batches[k] == envelope(streamed, run)
    &&& sns[k] == if k == 0 {
        sn0
    } else {
        run_end(views.subrange(cuts[k - 1], cuts[k]), None, sns[k - 1], mask).1
    }
    &&& cuts[k + 1] < views.len() ==> run.len() + framed_bytes(end.0, end.1, views[cuts[k + 1]]).len()
        > room
}

/// Every message was written, or the first one left does not fit in an
/// empty batch.
pub open spec fn batches_done(views: Seq<NetworkMessageView>, cuts: Seq<int>, sn_end: u32, room: nat) -> bool {
    cuts.last() == views.len() || framed_bytes(None, sn_end, views[cuts.last()]).len() > room
}

proof fn lemma_batches_push(
    batches: Seq<Seq<u8>>,
    b: Seq<u8>,
    views: Seq<NetworkMessageView>,
    cuts: Seq<int>,
    sns: Seq<u32>,
    streamed: bool,
    mask: u32,
    sn0: u32,
    bsn: u32,
    j: int,
    sn_new: u32,
    room: nat,
    cap: nat,
)
    requires
        batches_of(batches, views, cuts, sns, streamed, mask, sn0, bsn, room, cap),
        cuts.last() < j <= views.len(),
        b == envelope(streamed, run_bytes(views.subrange(cuts.last(), j), None, bsn, mask)),
        run_bytes(views.subrange(cuts.last(), j), None, bsn, mask).len() <= room,
        b.len() <= cap,
        j < views.len() ==> ({
            let end = run_end(views.subrange(cuts.last(), j), None, bsn, mask);
            run_bytes(views.subrange(cuts.last(), j), None, bsn, mask).len() + framed_bytes(
                end.0,
                end.1,
                views[j],
            ).len() > room
        }),
        sn_new == run_end(views.subrange(cuts.last(), j), None, bsn, mask).1,
    ensures
        batches_of(batches.push(b), views, cuts.push(j), sns.push(bsn), streamed, mask, sn0, sn_new, room, cap),
{
    let n = batches.len() as int;
    let c2 = cuts.push(j);
    let s2 = sns.push(bsn);
    let b2 = batches.push(b);
    assert forall|k: int| 0 <= k < b2.len() implies #[trigger] batch_ok(
        b2,
        views,
        c2,
        s2,
        streamed,
        mask,
        sn0,
        room,
        cap,
        k,
    ) by {
        if k < n {
            assert(batch_ok(batches, views, cuts, sns, streamed, mask, sn0, room, cap, k));
            assert(b2[k] == batches[k]);
            assert(c2[k] == cuts[k] && c2[k + 1] == cuts[k + 1] && s2[k] == sns[k]);
            if k > 0 {
                assert(c2[k - 1] == cuts[k - 1] && s2[k - 1] == sns[k - 1]);
            }
        } else {
            assert(k == n);
            assert(c2[k] == cuts.last());
            assert(c2[k + 1] == j);
            assert(s2[k] == bsn);
            assert(b2[k] == b);
            if k > 0 {
                assert(c2[k - 1] == cuts[n - 1] && s2[k - 1] == sns.last());
            }
        }
    }
    assert(c2.last() == j);
    assert(s2.last() == bsn);
    assert(c2[n] == cuts.last());
}

/// The batch itself, without its envelope.
pub open spec fn payload_of(streamed: bool, batch: Seq<u8>) -> Seq<u8> {
    if streamed {
        batch.subrange(2, batch.len() as int)
    } else {
        batch
    }
}

/// Each batch that `batch` hands out reads back as its slice of the
/// messages, in order and with their classes, provided its frame numbers do
/// not wrap.
pub proof fn law_batches_read_back(
    batches: Seq<Seq<u8>>,
    views: Seq<NetworkMessageView>,
    cuts: Seq<int>,
    sns: Seq<u32>,
    streamed: bool,
    mask: u32,
    sn0: u32,
    sn_end: u32,
    room: nat,
    cap: nat,
    k: int,
)
    requires
        batches_of(batches, views, cuts, sns, streamed, mask, sn0, sn_end, room, cap),
        0 <= k < batches.len(),
        all_network_wf(views),
        sns[k] + class_changes(views.subrange(cuts[k], cuts[k + 1]), None) <= mask,
    ensures
        parse_batch(payload_of(streamed, batches[k]), 0, None, 0) == as_messages(
            views.subrange(cuts[k], cuts[k + 1]),
        ),
{
    assert(batch_ok(batches, views, cuts, sns, streamed, mask, sn0, room, cap, k));
    let slice = views.subrange(cuts[k], cuts[k + 1]);
    lemma_cuts_nonnegative(batches, views, cuts, sns, streamed, mask, sn0, sn_end, room, cap, k);
    lemma_cuts_bounded(batches, views, cuts, sns, streamed, mask, sn0, sn_end, room, cap, k + 1);
    assert(0 <= cuts[k] < cuts[k + 1] <= views.len());
    assert(all_network_wf(slice)) by {
        assert forall|i: int| 0 <= i < slice.len() implies network_wf(#[trigger] slice[i].body) by {
            assert(slice[i] == views[cuts[k] + i]);
        }
    }
    let run = run_bytes(slice, None, sns[k], mask);
    if streamed {
        assert(payload_of(streamed, batches[k]) =~= run);
    }
    law_batch_round_trip(slice, sns[k], mask);
}

proof fn lemma_cuts_nonnegative(
    batches: Seq<Seq<u8>>,
    views: Seq<NetworkMessageView>,
    cuts: Seq<int>,
    sns: Seq<u32>,
    streamed: bool,
    mask: u32,
    sn0: u32,
    sn_end: u32,
    room: nat,
    cap: nat,
    k: int,
)
    requires
        batches_of(batches, views, cuts, sns, streamed, mask, sn0, sn_end, room, cap),
        0 <= k <= batches.len(),
    ensures
        0 <= cuts[k] <= cuts.last(),
    decreases k,
{
    if k > 0 {
        assert(batch_ok(batches, views, cuts, sns, streamed, mask, sn0, room, cap, k - 1));
        lemma_cuts_nonnegative(batches, views, cuts, sns, streamed, mask, sn0, sn_end, room, cap, k - 1);
        lemma_cuts_bounded(batches, views, cuts, sns, streamed, mask, sn0, sn_end, room, cap, k);
    } else {
        lemma_cuts_bounded(batches, views, cuts, sns, streamed, mask, sn0, sn_end, room, cap, 0);
    }
}

proof fn lemma_cuts_bounded(
    batches: Seq<Seq<u8>>,
    views: Seq<NetworkMessageView>,
    cuts: Seq<int>,
    sns: Seq<u32>,
    streamed: bool,
    mask: u32,
    sn0: u32,
    sn_end: u32,
    room: nat,
    cap: nat,
    k: int,
)
    requires
        batches_of(batches, views, cuts, sns, streamed, mask, sn0, sn_end, room, cap),
        0 <= k <= batches.len(),
    ensures
        cuts[k] <= cuts.last(),
    decreases batches.len() - k,
{
    if k < batches.len() {
        assert(batch_ok(batches, views, cuts, sns, streamed, mask, sn0, room, cap, k));
        lemma_cuts_bounded(batches, views, cuts, sns, streamed, mask, sn0, sn_end, room, cap, k + 1);
    }
}

pub struct TransportTx {
    streamed: bool,
    too_small: bool,
    cap: usize,
    writer: BatchWriter,
    batch_size: u16,
    resolution: Resolution,
    lease: u64,
}

impl TransportTx {
    pub closed spec fn wf(&self) -> bool {
        &&& self.writer.wf()
        &&& self.cap <= u16::MAX
        &&& self.too_small == (self.streamed && self.cap < 2)
        &&& self.writer.written().len() + self.writer.remaining() == self.room()
        &&& self.writer.written().len() == 0 ==> self.writer.frame_state() is None
    }

    /// The most bytes a batch holds, envelope included: `min(batch_size,
    /// buffer length)`.
    pub closed spec fn capacity(&self) -> nat {
        self.cap as nat
    }

    /// How the payload, the room left and the capacity relate.
    pub proof fn lemma_room(&self)
        requires
            self.wf(),
        ensures
            self.payload().len() + self.remaining() == self.room(),
            self.is_too_small() ==> self.room() == 0,
            !self.is_too_small() ==> self.room() + (if self.is_streamed() {
                2int
            } else {
                0int
            }) == self.capacity(),
            self.capacity() <= u16::MAX,
    {
    }

    /// 1 if a batch is in progress, else 0.
    pub open spec fn pending_count(&self) -> int {
        if self.payload().len() > 0 {
            1
        } else {
            0
        }
    }

    /// The most bytes a batch holds besides its envelope.
    pub closed spec fn room(&self) -> nat {
        if self.too_small {
            0
        } else if self.streamed {
            (self.cap - 2) as nat
        } else {
            self.cap as nat
        }
    }

    pub closed spec fn is_streamed(&self) -> bool {
        self.streamed
    }

    /// The buffer cannot even hold the length envelope.
    pub closed spec fn is_too_small(&self) -> bool {
        self.too_small
    }

    /// The batch written so far, without its envelope.
    pub closed spec fn payload(&self) -> Seq<u8> {
        self.writer.written()
    }

    pub closed spec fn remaining(&self) -> nat {
        self.writer.remaining()
    }

    pub closed spec fn frame_state(&self) -> Option<FrameHeader> {
        self.writer.frame_state()
    }

    pub closed spec fn next_sn(&self) -> u32 {
        self.writer.next_sn()
    }

    pub closed spec fn sn_mask(&self) -> u32 {
        self.writer.sn_mask()
    }

    /// A sender over `tx` whose batches hold at most `min(batch_size,
    /// tx.len())` bytes, envelope included; the first frame is numbered
    /// `sn` within the width of the frame sequence numbers of `resolution`.
    pub fn new(
        tx: Vec<u8>,
        streamed: bool,
        batch_size: u16,
        sn: u32,
        resolution: Resolution,
        lease: u64,
    ) -> (r: TransportTx)
        ensures
            r.wf(),
            r.is_streamed() == streamed,
            r.payload() == Seq::<u8>::empty(),
            r.frame_state() is None,
            r.sn_mask() == sn_mask_of(resolution.spec_get(Field::FrameSN)),
            r.lease_ms() == lease,
            r.next_sn() == (sn & r.sn_mask()),
            r.capacity() == if (batch_size as int) < tx@.len() {
                batch_size as int
            } else {
                tx@.len() as int
            },
            r.is_too_small() == (streamed && r.capacity() < 2),
            r.remaining() == r.room(),
    {
        let mask = sn_mask(resolution.get(Field::FrameSN));
        let first = sn & mask;
        assert(first <= mask) by (bit_vector)
            requires
                first == sn & mask,
        ;
        let cap: usize = if (batch_size as usize) < tx.len() {
            batch_size as usize
        } else {
            tx.len()
        };
        let too_small = streamed && cap < 2;
        let writer = if too_small {
            BatchWriter::with_limits(tx, 0, 0, first, mask)
        } else if streamed {
            BatchWriter::with_limits(tx, 2, cap, first, mask)
        } else {
            BatchWriter::with_limits(tx, 0, cap, first, mask)
        };
        TransportTx { streamed, too_small, cap, writer, batch_size, resolution, lease }
    }

    /// Adds `msg` to the current batch, opening a frame first if its class
    /// differs from the current frame's. On failure nothing changes.
    pub fn push(&mut self, msg: &NetworkMessage) -> (r: Result<(), TransportError>)
        requires
            old(self).wf(),
            network_wf(msg.body@),
        ensures
            final(self).wf(),
            final(self).is_streamed() == old(self).is_streamed(),
            final(self).is_too_small() == old(self).is_too_small(),
            final(self).capacity() == old(self).capacity(),
            final(self).room() == old(self).room(),
            final(self).sn_mask() == old(self).sn_mask(),
            ({
                let bytes = framed_bytes(old(self).frame_state(), old(self).next_sn(), msg@);
                match r {
                    Ok(()) => !old(self).is_too_small() && bytes.len() <= old(self).remaining()
                        && final(self).payload() == old(self).payload() + bytes && final(self).remaining() == old(self).remaining() - bytes.len() && final(self).frame_state()
                        == frame_after(old(self).frame_state(), old(self).next_sn(), msg@) && final(self).next_sn() == sn_after(
                        old(self).frame_state(),
                        old(self).next_sn(),
                        old(self).sn_mask(),
                        msg@,
                    ),
                    Err(e) => (if old(self).is_too_small() {
                        e == TransportError::TransportIsFull
                    } else {
                        e == TransportError::MessageTooLargeForBatch && bytes.len() > old(self).remaining()
                    }) && final(self).payload() == old(self).payload() && final(self).remaining()
                        == old(self).remaining() && final(self).frame_state() == old(self).frame_state() && final(self).next_sn() == old(self).next_sn(),
                }
            }),
    {
        if self.too_small {
            return Err(TransportError::TransportIsFull);
        }
        match self.writer.framed(&msg.body, msg.reliability, msg.qos) {
            Ok(()) => Ok(()),
            Err(_) => Err(TransportError::MessageTooLargeForBatch),
        }
    }

    /// Hands out the current batch, in its envelope, and starts a new one;
    /// `None` when nothing was written since the last flush.
    pub fn flush(&mut self) -> (r: Option<Vec<u8>>)
        requires
            old(self).wf(),
        ensures
            final(self).wf(),
            final(self).is_streamed() == old(self).is_streamed(),
            final(self).is_too_small() == old(self).is_too_small(),
            final(self).capacity() == old(self).capacity(),
            final(self).room() == old(self).room(),
            final(self).sn_mask() == old(self).sn_mask(),
            final(self).next_sn() == old(self).next_sn(),
            match r {
                None => old(self).payload().len() == 0 && final(self).payload() == old(self).payload() && final(self).remaining() == old(self).remaining() && final(self).frame_state() == old(self).frame_state(),
                Some(out) => old(self).payload().len() > 0 && out@ == envelope(
                    old(self).is_streamed(),
                    old(self).payload(),
                ) && final(self).payload() == Seq::<u8>::empty() && final(self).remaining()
                    == old(self).remaining() + old(self).payload().len() && final(self).frame_state() is None,
            },
            r matches Some(out) ==> (old(self).is_streamed() ==> out@.len() >= 2 && out@.subrange(
                0,
                2,
            ) == ser_u16((out@.len() - 2) as u16)),
    {
        if !self.writer.has_written() {
            return None;
        }
        let payload = self.writer.take();
        if self.streamed {
            let mut out: Vec<u8> = Vec::new();
            write_u16(&mut out, payload.len() as u16);
            let mut i: usize = 0;
            while i < payload.len()
                invariant
                    i <= payload@.len(),
                    out@ == ser_u16(payload@.len() as u16) + payload@.subrange(0, i as int),
                decreases payload@.len() - i,
            {
                out.push(payload[i]);
                proof {
                    assert(payload@.subrange(0, i + 1) =~= payload@.subrange(0, i as int).push(
                        payload@[i as int],
                    ));
                }
                i = i + 1;
            }
            proof {
                assert(payload@.subrange(0, payload@.len() as int) =~= payload@);
                assert(out@.subrange(0, 2) =~= ser_u16(payload@.len() as u16));
            }
            Some(out)
        } else {
            Some(payload)
        }
    }

    /// Adds the transport message `msg` to the current batch; it closes the
    /// current frame. On failure nothing changes.
    pub fn push_transport(&mut self, msg: &TransportMessage) -> (r: Result<(), TransportError>)
        requires
            old(self).wf(),
        ensures
            final(self).wf(),
            final(self).is_streamed() == old(self).is_streamed(),
            final(self).is_too_small() == old(self).is_too_small(),
            final(self).capacity() == old(self).capacity(),
            final(self).room() == old(self).room(),
            final(self).sn_mask() == old(self).sn_mask(),
            final(self).next_sn() == old(self).next_sn(),
            match r {
                Ok(()) => !old(self).is_too_small() && ser_transport(msg@).len() <= old(self).remaining()
                    && final(self).payload() == old(self).payload() + ser_transport(msg@) && final(self).remaining()
                    == old(self).remaining() - ser_transport(msg@).len() && final(self).frame_state() is None,
                Err(e) => (if old(self).is_too_small() {
                    e == TransportError::TransportIsFull
                } else {
                    e == TransportError::MessageTooLargeForBatch && ser_transport(msg@).len() > old(self).remaining()
                }) && final(self).payload() == old(self).payload() && final(self).remaining()
                    == old(self).remaining() && final(self).frame_state() == old(self).frame_state(),
            },
    {
        if self.too_small {
            return Err(TransportError::TransportIsFull);
        }
        match self.writer.unframed(msg) {
            Ok(()) => Ok(()),
            Err(_) => Err(TransportError::MessageTooLargeForBatch),
        }
    }

    /// Hands out the batch in progress, if any, then writes `msgs` in as
    /// many batches as they need, each filled until the next message does
    /// not fit, and hands the batches out in order. Writing stops at a
    /// message that does not fit in an empty batch.
    pub fn batch(&mut self, msgs: &Vec<NetworkMessage>) -> (r: Vec<Vec<u8>>)
        requires
            old(self).wf(),
            forall|i: int| 0 <= i < msgs@.len() ==> network_wf(#[trigger] msgs@[i].body@),
        ensures
            final(self).wf(),
            final(self).payload().len() == 0,
            final(self).frame_state() is None,
            final(self).is_streamed() == old(self).is_streamed(),
            final(self).is_too_small() == old(self).is_too_small(),
            final(self).capacity() == old(self).capacity(),
            final(self).room() == old(self).room(),
            final(self).sn_mask() == old(self).sn_mask(),
            old(self).is_too_small() ==> r@.len() == 0,
            r@.len() >= old(self).pending_count(),
            old(self).pending_count() == 1 ==> r@[0]@ == envelope(
                old(self).is_streamed(),
                old(self).payload(),
            ),
            exists|cuts: Seq<int>, sns: Seq<u32>|
                #[trigger] batches_of(
                    byte_views(r@).subrange(old(self).pending_count(), r@.len() as int),
                    views_of(msgs@),
                    cuts,
                    sns,
                    old(self).is_streamed(),
                    old(self).sn_mask(),
                    old(self).next_sn(),
                    final(self).next_sn(),
                    old(self).room(),
                    old(self).capacity(),
                ) && batches_done(views_of(msgs@), cuts, final(self).next_sn(), old(self).room()),
    {
        let ghost views = views_of(msgs@);
        let ghost mask = self.sn_mask();
        let ghost streamed = self.is_streamed();
        let ghost sn0 = self.next_sn();
        let ghost room = self.room();
        let ghost cap = self.capacity();
        let ghost mut cuts: Seq<int> = seq![0];
        let ghost mut sns: Seq<u32> = Seq::empty();
        let mut out: Vec<Vec<u8>> = Vec::new();
        match self.flush() {
            Some(b) => {
                out.push(b);
            },
            None => {},
        }
        let ghost pre = out@.len() as int;
        let mut j: usize = 0;
        proof {
            assert(byte_views(out@).subrange(pre, out@.len() as int) =~= Seq::<Seq<u8>>::empty());
            assert(batches_of(Seq::<Seq<u8>>::empty(), views, cuts, sns, streamed, mask, sn0, self.next_sn(), room, cap));
        }
        loop
            invariant
                self.wf(),
                self.payload().len() == 0,
                self.frame_state() is None,
                self.is_streamed() == streamed,
                self.is_too_small() == old(self).is_too_small(),
                self.capacity() == cap,
                self.room() == room,
                self.sn_mask() == mask,
                streamed == old(self).is_streamed(),
                mask == old(self).sn_mask(),
                sn0 == old(self).next_sn(),
                room == old(self).room(),
                cap == old(self).capacity(),
                views == views_of(msgs@),
                pre == old(self).pending_count(),
                out@.len() >= pre,
                pre == 1 ==> out@[0]@ == envelope(old(self).is_streamed(), old(self).payload()),
                old(self).is_too_small() ==> out@.len() == 0,
                j <= msgs@.len(),
                cuts.len() > 0 && cuts.last() == j,
                forall|i: int| 0 <= i < msgs@.len() ==> network_wf(#[trigger] msgs@[i].body@),
                batches_of(byte_views(out@).subrange(pre, out@.len() as int), views, cuts, sns, streamed, mask, sn0, self.next_sn(), room, cap),
            decreases msgs@.len() - j,
        {
            let j0 = j;
            let ghost bsn = self.next_sn();
            proof {
                assert(views.subrange(j0 as int, j0 as int) =~= Seq::<NetworkMessageView>::empty());
            }
            let mut full = false;
            while j < msgs.len() && !full
                invariant
                    self.wf(),
                    self.is_streamed() == streamed,
                    self.is_too_small() == old(self).is_too_small(),
                    self.capacity() == cap,
                    self.room() == room,
                    self.sn_mask() == mask,
                    views == views_of(msgs@),
                    j0 <= j <= msgs@.len(),
                    j == j0 ==> self.payload().len() == 0,
                    j > j0 ==> self.payload().len() > 0,
                    self.payload() == run_bytes(views.subrange(j0 as int, j as int), None, bsn, mask),
                    (self.frame_state(), self.next_sn()) == run_end(views.subrange(j0 as int, j as int), None, bsn, mask),
                    full ==> j < msgs@.len() && framed_bytes(self.frame_state(), self.next_sn(), views[j as int]).len() > self.remaining(),
                    forall|i: int| 0 <= i < msgs@.len() ==> network_wf(#[trigger] msgs@[i].body@),
                decreases msgs@.len() - j, if full { 0int } else { 1int },
            {
                let ghost before = views.subrange(j0 as int, j as int);
                proof {
                    assert(views[j as int] == msgs@[j as int]@);
                }
                match self.push(&msgs[j]) {
                    Err(_) => {
                        full = true;
                    },
                    Ok(()) => {
                        proof {
                            lemma_run_push(before, views[j as int], None, bsn, mask);
                            assert(views.subrange(j0 as int, j + 1) =~= before.push(views[j as int]));
                        }
                        j = j + 1;
                    },
                }
            }
            let ghost run = self.payload();
            let ghost rem = self.remaining();
            match self.flush() {
                None => {
                    proof {
                        assert(j == j0);
                        assert(batches_done(views, cuts, self.next_sn(), room));
                        assert(batches_of(byte_views(out@).subrange(pre, out@.len() as int), views_of(msgs@), cuts, sns, streamed, mask, sn0, self.next_sn(), room, cap) && batches_done(views_of(msgs@), cuts, self.next_sn(), room));
                    assert(out@.len() >= pre);
                    assert(pre == 1 ==> out@[0]@ == envelope(old(self).is_streamed(), old(self).payload()));
                        assert(out@.len() >= pre);
                        assert(pre == 1 ==> out@[0]@ == envelope(old(self).is_streamed(), old(self).payload()));
                    }
                    return out;
                },
                Some(b) => {
                    proof {
                        assert(!old(self).is_too_small());
                        assert(b@.len() == (if streamed { 2int } else { 0int }) + run.len());
                        lemma_batches_push(
                            byte_views(out@).subrange(pre, out@.len() as int),
                            b@,
                            views,
                            cuts,
                            sns,
                            streamed,
                            mask,
                            sn0,
                            bsn,
                            j as int,
                            self.next_sn(),
                            room,
                            cap,
                        );
                        cuts = cuts.push(j as int);
                        sns = sns.push(bsn);
                    }
                    let ghost old_out = byte_views(out@);
                    let ghost bv = b@;
                    out.push(b);
                    proof {
                        assert(byte_views(out@).subrange(pre, out@.len() as int) =~= old_out.subrange(pre, old_out.len() as int).push(bv));
                    }
                },
            }
            if j == msgs.len() {
                proof {
                    assert(batches_done(views, cuts, self.next_sn(), room));
                    assert(batches_of(byte_views(out@).subrange(pre, out@.len() as int), views_of(msgs@), cuts, sns, streamed, mask, sn0, self.next_sn(), room, cap) && batches_done(views_of(msgs@), cuts, self.next_sn(), room));
                    assert(out@.len() >= pre);
                    assert(pre == 1 ==> out@[0]@ == envelope(old(self).is_streamed(), old(self).payload()));
                }
                return out;
            }
        }
    }

    pub fn streamed(&self) -> (r: bool)
        ensures
            r == self.is_streamed(),
    {
        self.streamed
    }

    pub closed spec fn lease_ms(&self) -> u64 {
        self.lease
    }

    /// The lease of the session, in milliseconds.
    pub fn lease(&self) -> (r: u64)
        ensures
            r == self.lease_ms(),
    {
        self.lease
    }
}

} // verus!
