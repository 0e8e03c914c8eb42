//! The error taxonomy of the codec and the transport.
use vstd::prelude::*;

verus! {

#[derive(Debug, Clone, Copy, PartialEq, Eq, Structural)]
pub enum CodecError {
    ShortInput,
    BufferTooSmall,
    InvalidDiscriminant,
    UnknownMandatoryExtension,
    NonMinimalEncoding,
}

#[derive(Debug, Clone, Copy, PartialEq, Eq, Structural)]
pub enum TransportError {
    TransportTooSmall,
    TransportIsFull,
    MessageTooLargeForBatch,
    InvalidAttribute,
    StateCantHandle,
    CouldNotRead,
    CouldNotWrite,
}

#[derive(Debug, Clone, Copy, PartialEq, Eq, Structural)]
pub enum CollectionError {
    CollectionIsFull,
}

} // verus!
