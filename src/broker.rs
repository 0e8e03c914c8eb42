//! A broker's side of its links: it opens the link to the peer upstream
//! (north) by answering its InitAck with an OpenSyn and taking its OpenAck,
//! and keeps the state of every link in a fixed-capacity map.
use vstd::prelude::*;
use crate::batch::{parse_batch, BatchReader};
use crate::codec::{ser_transport, write_transport};
use crate::error::{CodecError, CollectionError, TransportError};
use crate::establishment::{
    derived_sn, min_u16, negotiate_batch_size, negotiate_resolution, negotiate_sn,
    negotiated_resolution, shake128_u32,
};
use crate::msgs::{
    Field, InitAckView, InitSyn, Message, MessageView, OpenAck, OpenSyn, OpenSynView, Resolution,
    TransportMessage, TransportMessageView, ZenohId, RESOLUTION_DEFAULT, VERSION,
};
use crate::packet::Id;

verus! {

/// The state of one link.
#[derive(Debug)]
pub enum LinkState {
    NotInitialized,
    Initialized { zid: ZenohId, batch_size: u16, resolution: Resolution, sn: u32 },
    Opened { zid: ZenohId, batch_size: u16, resolution: Resolution, sn: u32, lease: u64 },
}

pub enum LinkStateView {
    NotInitialized,
    Initialized { zid: Seq<u8>, batch_size: u16, resolution: Resolution, sn: u32 },
    Opened { zid: Seq<u8>, batch_size: u16, resolution: Resolution, sn: u32, lease: u64 },
}

impl View for LinkState {
    type V = LinkStateView;

    open spec fn view(&self) -> LinkStateView {
        match self {
            LinkState::NotInitialized => LinkStateView::NotInitialized,
            LinkState::Initialized { zid, batch_size, resolution, sn } =>
                LinkStateView::Initialized {
                zid: zid@,
                batch_size: *batch_size,
                resolution: *resolution,
                sn: *sn,
            },
            LinkState::Opened { zid, batch_size, resolution, sn, lease } => LinkStateView::Opened {
                zid: zid@,
                batch_size: *batch_size,
                resolution: *resolution,
                sn: *sn,
                lease: *lease,
            },
        }
    }
}

impl LinkState {
    pub fn duplicate(&self) -> (r: LinkState)
        ensures
            r@ == self@,
    {
        match self {
            LinkState::NotInitialized => LinkState::NotInitialized,
            LinkState::Initialized { zid, batch_size, resolution, sn } => LinkState::Initialized {
                zid: zid.duplicate(),
                batch_size: *batch_size,
                resolution: *resolution,
                sn: *sn,
            },
            LinkState::Opened { zid, batch_size, resolution, sn, lease } => LinkState::Opened {
                zid: zid.duplicate(),
                batch_size: *batch_size,
                resolution: *resolution,
                sn: *sn,
                lease: *lease,
            },
        }
    }
}

/// The integer a link is filed under.
pub open spec fn key_of(id: Id) -> u64 {
    match id {
        Id::North => 0,
        Id::South(n) => (n + 1) as u64,
    }
}

pub fn key(id: Id) -> (r: u64)
    ensures
        r == key_of(id),
{
    match id {
        Id::North => 0,
        Id::South(n) => n as u64 + 1,
    }
}

// ---------------------------------------------------------------- link map

/// The links of a broker, at most 16.
#[verifier::external_body]
pub struct Links {
    map: heapless::FnvIndexMap<u64, LinkState, 16>,
}

/// The state of each link, by key.
pub uninterp spec fn links_of(l: Links) -> Map<u64, LinkStateView>;

/// Relies on heapless's `IndexMap::new`: a new map is empty.
#[verifier::external_body]
fn links_new() -> (r: Links)
    ensures
        links_of(r).dom() == Set::<u64>::empty(),
{
    Links { map: heapless::FnvIndexMap::new() }
}

/// Relies on heapless's `IndexMap::get`: the value filed under `k`, if any.
#[verifier::external_body]
fn links_get(l: &Links, k: u64) -> (r: Option<&LinkState>)
    ensures
        match r {
            Some(v) => links_of(*l).contains_key(k) && v@ == links_of(*l)[k],
            None => !links_of(*l).contains_key(k),
        },
{
    l.map.get(&k)
}

/// Relies on heapless's `IndexMap::insert`: a key already present has its
/// value replaced; a new key is added unless the map holds 16 entries
/// already, and then nothing changes.
#[verifier::external_body]
fn links_insert(l: &mut Links, k: u64, v: LinkState) -> (r: bool)
    ensures
        links_of(*old(l)).dom().finite() ==> r == (links_of(*old(l)).contains_key(k) || links_of(
            *old(l),
        ).dom().len() < 16),
        r ==> links_of(*final(l)) == links_of(*old(l)).insert(k, v@),
        !r ==> links_of(*final(l)) == links_of(*old(l)),
{
    l.map.insert(k, v).is_ok()
}

// ---------------------------------------------------------------- packets

/// Packets to send, each with its destination: at most 16.
#[verifier::external_body]
pub struct Packets {
    v: heapless::Vec<(Id, Vec<u8>), 16>,
}

/// The packets, in order.
pub uninterp spec fn packets_of(p: Packets) -> Seq<(Id, Seq<u8>)>;

/// Relies on heapless's `Vec::new`: a new vector is empty.
#[verifier::external_body]
fn packets_new() -> (r: Packets)
    ensures
        packets_of(r).len() == 0,
{
    Packets { v: heapless::Vec::new() }
}

/// Relies on heapless's `Vec::push`: the item goes last unless 16 are held
/// already, and then nothing changes.
#[verifier::external_body]
fn packets_push(p: &mut Packets, id: Id, bytes: Vec<u8>) -> (r: bool)
    ensures
        r == (packets_of(*old(p)).len() < 16),
        r ==> packets_of(*final(p)) == packets_of(*old(p)).push((id, bytes@)),
        !r ==> packets_of(*final(p)) == packets_of(*old(p)),
{
    p.v.push((id, bytes)).is_ok()
}

/// Relies on heapless's `Vec` dereferencing to a slice: its length.
#[verifier::external_body]
fn packets_len(p: &Packets) -> (r: usize)
    ensures
        r == packets_of(*p).len(),
{
    p.v.len()
}

/// Relies on heapless's `Vec` dereferencing to a slice: item `i`, with its
/// bytes copied by `Vec::clone`.
#[verifier::external_body]
fn packets_get(p: &Packets, i: usize) -> (r: (Id, Vec<u8>))
    requires
        i < packets_of(*p).len(),
    ensures
        r.0 == packets_of(*p)[i as int].0,
        r.1@ == packets_of(*p)[i as int].1,
{
    (p.v[i].0, p.v[i].1.clone())
}

impl Packets {
    pub closed spec fn items(&self) -> Seq<(Id, Seq<u8>)> {
        packets_of(*self)
    }

    pub fn len(&self) -> (r: usize)
        ensures
            r == self.items().len(),
    {
        packets_len(self)
    }

    /// Packet `i`: its destination and its bytes.
    pub fn get(&self, i: usize) -> (r: (Id, Vec<u8>))
        requires
            i < self.items().len(),
        ensures
            r.0 == self.items()[i as int].0,
            r.1@ == self.items()[i as int].1,
    {
        packets_get(self, i)
    }
}

// ---------------------------------------------------------------- decisions

/// What can stop a broker from handling a batch.
#[derive(Debug, Clone, Copy, PartialEq, Eq, Structural)]
pub enum BrokerError {
    Collection(CollectionError),
    Transport(TransportError),
    Codec(CodecError),
}

/// What an InitAck from link `id` does to its state, with the OpenSyn it
/// calls for. Only the north link, when not yet initialized, takes it; a
/// resolution wider than the default is refused; the OpenSyn must fit in a
/// batch of `capacity` bytes.
pub open spec fn init_ack_step(
    mine_zid: Seq<u8>,
    capacity: u16,
    lease: u64,
    link: LinkStateView,
    ack: InitAckView,
    id: Id,
) -> Result<(LinkStateView, Option<OpenSynView>), BrokerError> {
    if id != Id::North || !(link is NotInitialized) {
        Ok((link, None))
    } else {
        match negotiated_resolution(Resolution { inner: RESOLUTION_DEFAULT }, ack.resolution) {
            None => Err(BrokerError::Transport(TransportError::InvalidAttribute)),
            Some(resolution) => {
                let sn = derived_sn(
                    shake128_u32(mine_zid + ack.zid),
                    resolution.spec_get(Field::FrameSN),
                );
                let open = OpenSynView { lease, sn, cookie: ack.cookie };
                if ser_transport(TransportMessageView::OpenSyn(open)).len() > capacity {
                    Err(BrokerError::Codec(CodecError::BufferTooSmall))
                } else {
                    Ok(
                        (
                            LinkStateView::Initialized {
                                zid: ack.zid,
                                batch_size: min_u16(capacity, ack.batch_size),
                                resolution,
                                sn,
                            },
                            Some(open),
                        ),
                    )
                }
            },
        }
    }
}

/// What an OpenAck from link `id` does to its state: the north link, once
/// initialized, is opened with the peer's lease.
pub open spec fn open_ack_step(link: LinkStateView, ack: OpenAck, id: Id) -> LinkStateView {
    if id != Id::North {
        link
    } else {
        match link {
            LinkStateView::Initialized { zid, batch_size, resolution, sn } => LinkStateView::Opened {
                zid,
                batch_size,
                resolution,
                sn,
                lease: ack.lease,
            },
            other => other,
        }
    }
}

/// The state of link `id` after the messages `ms` and the packets sent, or
/// the error that stopped it with the state reached.
pub open spec fn link_run(
    mine_zid: Seq<u8>,
    capacity: u16,
    lease: u64,
    link: LinkStateView,
    ms: Seq<MessageView>,
    id: Id,
) -> (LinkStateView, Result<Seq<Seq<u8>>, BrokerError>)
    decreases ms.len(),
{
    if ms.len() == 0 {
        (link, Ok(Seq::empty()))
    } else {
        match ms[0] {
            MessageView::Transport(TransportMessageView::InitAck(ack)) => match init_ack_step(
                mine_zid,
                capacity,
                lease,
                link,
                ack,
                id,
            ) {
                Err(e) => (link, Err(e)),
                Ok((l2, open)) => {
                    let (l3, rest) = link_run(mine_zid, capacity, lease, l2, ms.drop_first(), id);
                    (
                        l3,
                        match rest {
                            Err(e) => Err(e),
                            Ok(out) => Ok(
                                match open {
                                    Some(o) => seq![ser_transport(TransportMessageView::OpenSyn(o))]
                                        + out,
                                    None => out,
                                },
                            ),
                        },
                    )
                },
            },
            MessageView::Transport(TransportMessageView::OpenAck(ack)) => link_run(
                mine_zid,
                capacity,
                lease,
                open_ack_step(link, ack, id),
                ms.drop_first(),
                id,
            ),
            _ => link_run(mine_zid, capacity, lease, link, ms.drop_first(), id),
        }
    }
}

/// `x` with the packets `done` sent before it.
pub open spec fn with_prefix(
    done: Seq<Seq<u8>>,
    x: (LinkStateView, Result<Seq<Seq<u8>>, BrokerError>),
) -> (LinkStateView, Result<Seq<Seq<u8>>, BrokerError>) {
    (
        x.0,
        match x.1 {
            Ok(o) => Ok(done + o),
            Err(e) => Err(e),
        },
    )
}

// ---------------------------------------------------------------- broker

pub struct Broker {
    capacity: u16,
    zid: ZenohId,
    lease: u64,
    conn: Links,
}

impl Broker {
    pub closed spec fn links(&self) -> Map<u64, LinkStateView> {
        links_of(self.conn)
    }

    pub closed spec fn wf(&self) -> bool {
        self.links().dom().finite()
    }

    pub closed spec fn zid_view(&self) -> Seq<u8> {
        self.zid@
    }

    pub closed spec fn capacity_spec(&self) -> u16 {
        self.capacity
    }

    pub closed spec fn lease_spec(&self) -> u64 {
        self.lease
    }

    /// A broker whose batches hold `capacity` bytes, with a lease of 10 s and
    /// its north link not yet initialized.
    pub fn new(zid: ZenohId, capacity: u16) -> (r: Broker)
        ensures
            r.wf(),
            r.links() == map![0u64 => LinkStateView::NotInitialized],
            r.zid_view() == zid@,
            r.capacity_spec() == capacity,
            r.lease_spec() == 10_000,
    {
        let mut conn = links_new();
        let ghost empty = links_of(conn);
        let inserted = links_insert(&mut conn, 0, LinkState::NotInitialized);
        proof {
            assert(empty.dom().finite() && empty.dom().len() == 0);
            assert(inserted);
            assert(links_of(conn) =~= map![0u64 => LinkStateView::NotInitialized]);
        }
        Broker { capacity, zid, lease: 10_000, conn }
    }

    /// The InitSyn that opens the link to the north.
    pub fn init(&self) -> (r: Result<Vec<u8>, CodecError>)
        ensures
            ({
                let syn = ser_transport(
                    TransportMessageView::InitSyn(
                        crate::msgs::InitSynView {
                            version: VERSION,
                            zid: self.zid_view(),
                            resolution: Resolution { inner: RESOLUTION_DEFAULT },
                            batch_size: self.capacity_spec(),
                        },
                    ),
                );
                match r {
                    Ok(bytes) => bytes@ == syn && syn.len() <= self.capacity_spec(),
                    Err(e) => e == CodecError::BufferTooSmall && syn.len() > self.capacity_spec(),
                }
            }),
    {
        let msg = TransportMessage::InitSyn(
            InitSyn {
                version: VERSION,
                zid: self.zid.duplicate(),
                resolution: Resolution::default(),
                batch_size: self.capacity,
            },
        );
        let mut bytes: Vec<u8> = Vec::new();
        write_transport(&mut bytes, &msg);
        if bytes.len() > self.capacity as usize {
            Err(CodecError::BufferTooSmall)
        } else {
            Ok(bytes)
        }
    }

    /// The link `id` is opened.
    pub fn opened(&self, id: Id) -> (r: bool)
        ensures
            r == (self.links().contains_key(key_of(id)) && self.links()[key_of(
                id,
            )] is Opened),
    {
        match links_get(&self.conn, key(id)) {
            Some(LinkState::Opened { .. }) => true,
            _ => false,
        }
    }

    /// The period at which keep-alives are due: a third of the lease.
    pub fn lease(&self) -> (r: u64)
        ensures
            r == self.lease_spec() / 3,
    {
        self.lease / 3
    }

    fn on_init_ack(&self, link: &LinkState, ack: crate::msgs::InitAck, id: Id) -> (r: Result<
        (LinkState, Option<Vec<u8>>),
        BrokerError,
    >)
        ensures
            match init_ack_step(self.zid_view(), self.capacity_spec(), self.lease_spec(), link@, ack@, id) {
                Err(e) => r == Err::<(LinkState, Option<Vec<u8>>), BrokerError>(e),
                Ok((l2, open)) => r matches Ok((l, out)) && l@ == l2 && match open {
                    Some(o) => out matches Some(b) && b@ == ser_transport(
                        TransportMessageView::OpenSyn(o),
                    ),
                    None => out is None,
                },
            },
    {
        let waiting = match link {
            LinkState::NotInitialized => true,
            _ => false,
        };
        if id != Id::North || !waiting {
            return Ok((link.duplicate(), None));
        }
        let resolution = match negotiate_resolution(&Resolution::default(), &ack.resolution) {
            Some(r) => r,
            None => return Err(BrokerError::Transport(TransportError::InvalidAttribute)),
        };
        let sn = negotiate_sn(&self.zid, &ack.zid, resolution);
        let batch_size = negotiate_batch_size(self.capacity, ack.batch_size);
        let open = TransportMessage::OpenSyn(OpenSyn { lease: self.lease, sn, cookie: ack.cookie });
        let mut bytes: Vec<u8> = Vec::new();
        write_transport(&mut bytes, &open);
        proof {
            assert(bytes@ =~= ser_transport(open@));
        }
        if bytes.len() > self.capacity as usize {
            return Err(BrokerError::Codec(CodecError::BufferTooSmall));
        }
        Ok((LinkState::Initialized { zid: ack.zid, batch_size, resolution, sn }, Some(bytes)))
    }

    fn on_open_ack(link: LinkState, ack: OpenAck, id: Id) -> (r: LinkState)
        ensures
            r@ == open_ack_step(link@, ack, id),
    {
        if id != Id::North {
            return link;
        }
        match link {
            LinkState::Initialized { zid, batch_size, resolution, sn } => LinkState::Opened {
                zid,
                batch_size,
                resolution,
                sn,
                lease: ack.lease,
            },
            other => other,
        }
    }

    /// Handles the batch `data` received on link `id` and returns the packets
    /// to send, each with its destination. A new link is filed as not
    /// initialized, unless the map is full.
    pub fn recv(&mut self, data: &[u8], id: Id) -> (r: Result<Packets, BrokerError>)
        requires
            old(self).wf(),
        ensures
            final(self).wf(),
            final(self).zid_view() == old(self).zid_view(),
            final(self).capacity_spec() == old(self).capacity_spec(),
            final(self).lease_spec() == old(self).lease_spec(),
            ({
                let k = key_of(id);
                let known = old(self).links().contains_key(k);
                let link = if known {
                    old(self).links()[k]
                } else {
                    LinkStateView::NotInitialized
                };
                let (l, out) = link_run(
                    old(self).zid_view(),
                    old(self).capacity_spec(),
                    old(self).lease_spec(),
                    link,
                    parse_batch(data@, 0, None, 0),
                    id,
                );
                if !known && old(self).links().dom().len() >= 16 {
                    r == Err::<Packets, BrokerError>(
                        BrokerError::Collection(CollectionError::CollectionIsFull),
                    ) && final(self).links() == old(self).links()
                } else {
                    final(self).links() == old(self).links().insert(k, l) && match out {
                        Err(e) => r == Err::<Packets, BrokerError>(e),
                        Ok(packets) => r matches Ok(v) && v.items().len() == packets.len() && forall|
                            i: int,
                        |
                            0 <= i < packets.len() ==> (#[trigger] v.items()[i]).0 == Id::North
                                && v.items()[i].1 == packets[i],
                    }
                }
            }),
    {
        let k = key(id);
        let mut link = match links_get(&self.conn, k) {
            Some(l) => l.duplicate(),
            None => {
                proof {
                    assert(links_of(self.conn).dom().finite());
                }
                if !links_insert(&mut self.conn, k, LinkState::NotInitialized) {
                    return Err(BrokerError::Collection(CollectionError::CollectionIsFull));
                }
                LinkState::NotInitialized
            },
        };
        let ghost start = link@;
        let ghost ms = parse_batch(data@, 0, None, 0);
        let ghost links0 = links_of(self.conn);
        let ghost run = link_run(self.zid@, self.capacity, self.lease, start, ms, id);
        let mut packets = packets_new();
        let mut reader = BatchReader::new(data);
        let mut failure: Option<BrokerError> = None;
        let ghost mut done: Seq<Seq<u8>> = Seq::empty();
        proof {
            assert(with_prefix(done, run) == run) by {
                match run.1 {
                    Ok(o) => {
                        assert(done + o =~= o);
                    },
                    Err(_) => {},
                }
            }
        }
        loop
            invariant_except_break
                run == with_prefix(
                    done,
                    link_run(self.zid@, self.capacity, self.lease, link@, reader.rest(), id),
                ),
                failure is None,
            invariant
                reader.bytes() == data@,
                ms == parse_batch(data@, 0, None, 0),
                run == link_run(self.zid@, self.capacity, self.lease, start, ms, id),
                links_of(self.conn) == links0,
                packets_of(packets).len() == done.len(),
                done.len() <= 1,
                done.len() == 1 ==> !(link@ is NotInitialized),
                forall|i: int|
                    0 <= i < done.len() ==> (#[trigger] packets_of(packets)[i]).0 == Id::North
                        && packets_of(packets)[i].1 == done[i],
            ensures
                run == (
                    link@,
                    match failure {
                        Some(e) => Err::<Seq<Seq<u8>>, BrokerError>(e),
                        None => Ok::<Seq<Seq<u8>>, BrokerError>(done),
                    },
                ),
            decreases reader.rest().len(),
        {
            let ghost before = reader.rest();
            match reader.next() {
                None => {
                    proof {
                        assert(done + Seq::<Seq<u8>>::empty() =~= done);
                    }
                    break;
                },
                Some(m) => {
                    proof {
                        assert(before[0] == m@);
                        assert(before.drop_first() =~= reader.rest());
                    }
                    match m {
                        Message::Transport(TransportMessage::InitAck(ack)) => {
                            match self.on_init_ack(&link, ack, id) {
                                Err(e) => {
                                    failure = Some(e);
                                    break;
                                },
                                Ok((l2, out)) => {
                                    let ghost prev = done;
                                    link = l2;
                                    match out {
                                        Some(b) => {
                                            let ghost pushed = b@;
                                            let ghost before_push = packets_of(packets);
                                            let ok = packets_push(&mut packets, Id::North, b);
                                            proof {
                                                assert(ok);
                                                done = done.push(pushed);
                                                assert(packets_of(packets) == before_push.push((Id::North, pushed)));
                                            }
                                        },
                                        None => {},
                                    }
                                    proof {
                                        let tail = link_run(
                                            self.zid@,
                                            self.capacity,
                                            self.lease,
                                            link@,
                                            reader.rest(),
                                            id,
                                        );
                                        match tail.1 {
                                            Ok(o) => {
                                                if done.len() > prev.len() {
                                                    assert(prev + (seq![done.last()] + o) =~= done
                                                        + o);
                                                }
                                            },
                                            Err(_) => {},
                                        }
                                    }
                                },
                            }
                        },
                        Message::Transport(TransportMessage::OpenAck(ack)) => {
                            link = Self::on_open_ack(link, ack, id);
                        },
                        _ => {},
                    }
                },
            }
        }
        let stored = links_insert(&mut self.conn, k, link);
        proof {
            assert(links0.dom().finite());
            assert(links0.contains_key(k));
            assert(stored);
            assert(links_of(self.conn) =~= old(self).links().insert(k, run.0));
        }
        match failure {
            Some(e) => Err(e),
            None => Ok(packets),
        }
    }
}

} // verus!
