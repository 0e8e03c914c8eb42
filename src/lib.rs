//! A sans-I/O codec and session layer for a pub/sub wire protocol: message
//! encoding, batch framing, the session establishment handshake and the
//! streamed / datagram batch envelope.
pub mod batch;
pub mod broker;
pub mod codec;
pub mod error;
pub mod establishment;
pub mod msgs;
pub mod packet;
pub mod rx;
pub mod transport;
pub mod tx;
pub mod wire;

pub use broker::{Broker, BrokerError, LinkState, Packets};
pub use batch::{AdvancingWriter, BatchReader, BatchWriter, Header, OneShotWriter};
pub use codec::{
    frame_len, network_len, read_item, transport_len, write_frame, write_network, write_transport,
    Decoded,
};
pub use error::{CodecError, CollectionError, TransportError};
pub use establishment::{
    derive_sn, negotiate_batch_size, negotiate_resolution, negotiate_sn, Description, State,
};
pub use msgs::{
    Bits, Close, Declare, Field, FrameHeader, InitAck, InitSyn, Interest, InterestFinal, KeepAlive,
    Message, MessageRef, NetworkBody, NetworkMessage, OpenAck, OpenSyn, Push, QoS, RawBody,
    Reliability, Request, Resolution, Response, ResponseFinal, TransportMessage, WireExpr, ZenohId,
    VERSION,
};
pub use packet::{Id, Packet, PacketWithDst};
pub use rx::{Liveness, TransportRx};
pub use transport::{
    read_streamed, write_streamed, MessageIter, Transport, TransportReceiver, TransportSender,
    TransportState,
};
pub use tx::TransportTx;
