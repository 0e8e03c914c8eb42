//! Bytes bound for a peer.
use vstd::prelude::*;

verus! {

/// A peer of a broker: the one upstream, or one of those downstream.
#[derive(Debug, PartialEq, Clone, Copy, Hash, Eq, Structural)]
pub enum Id {
    North,
    South(u32),
}

#[derive(Debug, PartialEq, Eq)]
pub struct Packet<'a>(&'a [u8]);

impl<'a> Packet<'a> {
    pub closed spec fn bytes(&self) -> Seq<u8> {
        self.0@
    }

    pub fn new(data: &'a [u8]) -> (r: Packet<'a>)
        ensures
            r.bytes() == data@,
    {
        Packet(data)
    }

    pub fn as_ref(&self) -> (r: &[u8])
        ensures
            r@ == self.bytes(),
    {
        self.0
    }
}

#[derive(Debug, PartialEq, Eq)]
pub struct PacketWithDst<'a>(Id, Packet<'a>);

impl<'a> PacketWithDst<'a> {
    pub closed spec fn destination(&self) -> Id {
        self.0
    }

    pub closed spec fn bytes(&self) -> Seq<u8> {
        self.1.bytes()
    }

    pub fn new(dst: Id, data: &'a [u8]) -> (r: PacketWithDst<'a>)
        ensures
            r.destination() == dst,
            r.bytes() == data@,
    {
        PacketWithDst(dst, Packet::new(data))
    }

    pub fn dst(&self) -> (r: Id)
        ensures
            r == self.destination(),
    {
        self.0
    }

    pub fn as_ref(&self) -> (r: &[u8])
        ensures
            r@ == self.bytes(),
    {
        self.1.as_ref()
    }
}

} // verus!
