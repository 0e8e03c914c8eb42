//! The message family: transport messages, network messages and the fields
//! they carry. Each type that owns bytes has a view with `Seq<u8>` in place
//! of `Vec<u8>`; contracts speak of views.
use vstd::prelude::*;
use crate::wire::copy_range;

verus! {

/// Protocol version carried by Init messages.
pub const VERSION: u8 = 9;

/// Message identifiers: the low five bits of a header byte.
pub const ID_INIT: u8 = 0x01;

pub const ID_OPEN: u8 = 0x02;

pub const ID_CLOSE: u8 = 0x03;

pub const ID_KEEP_ALIVE: u8 = 0x04;

pub const ID_FRAME: u8 = 0x05;

pub const ID_INTEREST: u8 = 0x19;

pub const ID_RESPONSE_FINAL: u8 = 0x1a;

pub const ID_RESPONSE: u8 = 0x1b;

pub const ID_REQUEST: u8 = 0x1c;

pub const ID_PUSH: u8 = 0x1d;

pub const ID_DECLARE: u8 = 0x1e;

pub const ID_RAW: u8 = 0x1f;

/// Header bit 5: the ack flag of Init and Open, the reliable flag of a frame.
pub const FLAG_A: u8 = 0x20;

/// Header bit 7: an extension follows the header.
pub const FLAG_Z: u8 = 0x80;

/// Extension header of the QoS extension of a frame: id 1, zint encoding.
pub const EXT_QOS: u8 = 0x21;

#[derive(Debug, Clone, Copy, PartialEq, Eq, Structural)]
pub enum Reliability {
    Reliable,
    BestEffort,
}

/// Priority (bits 0-2), congestion control (bit 3) and express (bit 4)
/// packed in one byte.
#[derive(Debug, Clone, Copy, PartialEq, Eq, Structural)]
pub struct QoS {
    pub inner: u8,
}

pub const QOS_DEFAULT: u8 = 0x05;

pub const QOS_DECLARE: u8 = 0x09;

impl QoS {
    pub fn declare() -> (r: QoS)
        ensures
            r.inner == QOS_DECLARE,
    {
        QoS { inner: QOS_DECLARE }
    }
}

impl Default for QoS {
    fn default() -> (r: QoS)
        ensures
            r.inner == QOS_DEFAULT,
    {
        QoS { inner: QOS_DEFAULT }
    }
}

/// Width of a numeric field.
#[derive(Debug, Clone, Copy, PartialEq, Eq, Structural)]
pub enum Bits {
    U8,
    U16,
    U32,
    U64,
}

/// The fields whose width a [`Resolution`] selects.
#[derive(Debug, Clone, Copy, PartialEq, Eq, Structural)]
pub enum Field {
    FrameSN,
    RequestID,
}

/// Two bits per field: the frame sequence number in bits 0-1, the request
/// id in bits 2-3.
#[derive(Debug, Clone, Copy, PartialEq, Eq, Structural)]
pub struct Resolution {
    pub inner: u8,
}

/// Both fields at `U32`.
pub const RESOLUTION_DEFAULT: u8 = 0x0a;

pub open spec fn bits_of(code: u8) -> Bits {
    if code == 0 {
        Bits::U8
    } else if code == 1 {
        Bits::U16
    } else if code == 2 {
        Bits::U32
    } else {
        Bits::U64
    }
}

pub open spec fn code_of(b: Bits) -> u8 {
    match b {
        Bits::U8 => 0,
        Bits::U16 => 1,
        Bits::U32 => 2,
        Bits::U64 => 3,
    }
}

pub open spec fn shift_of(f: Field) -> u8 {
    match f {
        Field::FrameSN => 0,
        Field::RequestID => 2,
    }
}

impl Resolution {
    pub open spec fn spec_get(self, f: Field) -> Bits {
        bits_of(((self.inner >> shift_of(f)) & 3u8) as u8)
    }

    pub fn get(&self, f: Field) -> (r: Bits)
        ensures
            r == self.spec_get(f),
    {
        let shift: u8 = match f {
            Field::FrameSN => 0,
            Field::RequestID => 2,
        };
        let code = (self.inner >> shift) & 3;
        if code == 0 {
            Bits::U8
        } else if code == 1 {
            Bits::U16
        } else if code == 2 {
            Bits::U32
        } else {
            Bits::U64
        }
    }

    pub fn set(&mut self, f: Field, b: Bits)
        ensures
            final(self).spec_get(f) == b,
            forall|g: Field| g != f ==> final(self).spec_get(g) == old(self).spec_get(g),
    {
        let shift: u8 = match f {
            Field::FrameSN => 0,
            Field::RequestID => 2,
        };
        let code: u8 = match b {
            Bits::U8 => 0,
            Bits::U16 => 1,
            Bits::U32 => 2,
            Bits::U64 => 3,
        };
        let old_inner = self.inner;
        let new_inner = (old_inner & !(3u8 << shift)) | (code << shift);
        self.inner = new_inner;
        proof {
            assert(((new_inner >> shift) & 3u8) == code) by (bit_vector)
                requires
                    new_inner == (old_inner & !(3u8 << shift)) | (code << shift),
                    code <= 3,
                    shift == 0 || shift == 2,
            ;
            assert(forall|sh: u8|
                (sh == 0 || sh == 2) && sh != shift ==> ((new_inner >> sh) & 3u8) == ((old_inner
                    >> sh) & 3u8)) by (bit_vector)
                requires
                    new_inner == (old_inner & !(3u8 << shift)) | (code << shift),
                    code <= 3,
                    shift == 0 || shift == 2,
            ;
        }
    }
}

impl Default for Resolution {
    fn default() -> (r: Resolution)
        ensures
            r.inner == RESOLUTION_DEFAULT,
    {
        Resolution { inner: RESOLUTION_DEFAULT }
    }
}

/// A peer identifier: 1 to 16 bytes, little-endian.
#[derive(Debug, Clone, PartialEq, Eq)]
pub struct ZenohId {
    pub bytes: Vec<u8>,
}

impl View for ZenohId {
    type V = Seq<u8>;

    open spec fn view(&self) -> Seq<u8> {
        self.bytes@
    }
}

pub open spec fn zid_wf(z: Seq<u8>) -> bool {
    1 <= z.len() <= 16
}

impl ZenohId {
    pub fn size(&self) -> (r: usize)
        ensures
            r == self@.len(),
    {
        self.bytes.len()
    }

    /// A copy of this identifier.
    pub fn duplicate(&self) -> (r: ZenohId)
        ensures
            r@ == self@,
    {
        ZenohId { bytes: copy_range(self.bytes.as_slice(), 0, self.bytes.len()) }
    }
}

/// A key expression: a numeric scope and a textual suffix.
#[derive(Debug, Clone, PartialEq, Eq)]
pub struct WireExpr {
    pub scope: u64,
    pub suffix: Vec<u8>,
}

pub struct WireExprView {
    pub scope: u64,
    pub suffix: Seq<u8>,
}

impl View for WireExpr {
    type V = WireExprView;

    open spec fn view(&self) -> WireExprView {
        WireExprView { scope: self.scope, suffix: self.suffix@ }
    }
}

#[derive(Debug, Clone, PartialEq, Eq)]
pub struct Push {
    pub wire_expr: WireExpr,
    pub payload: Vec<u8>,
}

pub struct PushView {
    pub wire_expr: WireExprView,
    pub payload: Seq<u8>,
}

impl View for Push {
    type V = PushView;

    open spec fn view(&self) -> PushView {
        PushView { wire_expr: self.wire_expr@, payload: self.payload@ }
    }
}

#[derive(Debug, Clone, PartialEq, Eq)]
pub struct Request {
    pub id: u64,
    pub wire_expr: WireExpr,
    pub payload: Vec<u8>,
}

pub struct RequestView {
    pub id: u64,
    pub wire_expr: WireExprView,
    pub payload: Seq<u8>,
}

impl View for Request {
    type V = RequestView;

    open spec fn view(&self) -> RequestView {
        RequestView { id: self.id, wire_expr: self.wire_expr@, payload: self.payload@ }
    }
}

#[derive(Debug, Clone, PartialEq, Eq)]
pub struct Response {
    pub rid: u64,
    pub wire_expr: WireExpr,
    pub payload: Vec<u8>,
}

pub struct ResponseView {
    pub rid: u64,
    pub wire_expr: WireExprView,
    pub payload: Seq<u8>,
}

impl View for Response {
    type V = ResponseView;

    open spec fn view(&self) -> ResponseView {
        ResponseView { rid: self.rid, wire_expr: self.wire_expr@, payload: self.payload@ }
    }
}

#[derive(Debug, Clone, Copy, PartialEq, Eq, Structural)]
pub struct ResponseFinal {
    pub rid: u64,
}

/// An interest; its mode (1: current, 2: future, 3: both) sits in header
/// bits 5-6, where 0 marks an [`InterestFinal`].
#[derive(Debug, Clone, Copy, PartialEq, Eq, Structural)]
pub struct Interest {
    pub id: u64,
    pub mode: u8,
    pub options: u8,
}

#[derive(Debug, Clone, Copy, PartialEq, Eq, Structural)]
pub struct InterestFinal {
    pub id: u64,
}

/// A declaration of a subscriber on a key expression.
#[derive(Debug, Clone, PartialEq, Eq)]
pub struct Declare {
    pub id: u64,
    pub wire_expr: WireExpr,
}

pub struct DeclareView {
    pub id: u64,
    pub wire_expr: WireExprView,
}

impl View for Declare {
    type V = DeclareView;

    open spec fn view(&self) -> DeclareView {
        DeclareView { id: self.id, wire_expr: self.wire_expr@ }
    }
}

/// Opaque bytes under the last network identifier.
#[derive(Debug, Clone, PartialEq, Eq)]
pub struct RawBody {
    pub buff: Vec<u8>,
}

impl View for RawBody {
    type V = Seq<u8>;

    open spec fn view(&self) -> Seq<u8> {
        self.buff@
    }
}

#[derive(Debug, Clone, PartialEq, Eq)]
pub enum NetworkBody {
    Push(Push),
    Request(Request),
    Response(Response),
    ResponseFinal(ResponseFinal),
    Interest(Interest),
    InterestFinal(InterestFinal),
    Declare(Declare),
    RawBody(RawBody),
}

pub enum NetworkBodyView {
    Push(PushView),
    Request(RequestView),
    Response(ResponseView),
    ResponseFinal(ResponseFinal),
    Interest(Interest),
    InterestFinal(InterestFinal),
    Declare(DeclareView),
    RawBody(Seq<u8>),
}

impl View for NetworkBody {
    type V = NetworkBodyView;

    open spec fn view(&self) -> NetworkBodyView {
        match self {
            NetworkBody::Push(m) => NetworkBodyView::Push(m@),
            NetworkBody::Request(m) => NetworkBodyView::Request(m@),
            NetworkBody::Response(m) => NetworkBodyView::Response(m@),
            NetworkBody::ResponseFinal(m) => NetworkBodyView::ResponseFinal(*m),
            NetworkBody::Interest(m) => NetworkBodyView::Interest(*m),
            NetworkBody::InterestFinal(m) => NetworkBodyView::InterestFinal(*m),
            NetworkBody::Declare(m) => NetworkBodyView::Declare(m@),
            NetworkBody::RawBody(m) => NetworkBodyView::RawBody(m@),
        }
    }
}

#[derive(Debug, Clone, PartialEq, Eq)]
pub struct NetworkMessage {
    pub reliability: Reliability,
    pub qos: QoS,
    pub body: NetworkBody,
}

pub struct NetworkMessageView {
    pub reliability: Reliability,
    pub qos: QoS,
    pub body: NetworkBodyView,
}

impl View for NetworkMessage {
    type V = NetworkMessageView;

    open spec fn view(&self) -> NetworkMessageView {
        NetworkMessageView { reliability: self.reliability, qos: self.qos, body: self.body@ }
    }
}

/// Opens a run of network messages: they all take its reliability and QoS.
#[derive(Debug, Clone, Copy, PartialEq, Eq, Structural)]
pub struct FrameHeader {
    pub reliability: Reliability,
    pub sn: u32,
    pub qos: QoS,
}

#[derive(Debug, Clone, PartialEq, Eq)]
pub struct InitSyn {
    pub version: u8,
    pub zid: ZenohId,
    pub resolution: Resolution,
    pub batch_size: u16,
}

pub struct InitSynView {
    pub version: u8,
    pub zid: Seq<u8>,
    pub resolution: Resolution,
    pub batch_size: u16,
}

impl View for InitSyn {
    type V = InitSynView;

    open spec fn view(&self) -> InitSynView {
        InitSynView {
            version: self.version,
            zid: self.zid@,
            resolution: self.resolution,
            batch_size: self.batch_size,
        }
    }
}

#[derive(Debug, Clone, PartialEq, Eq)]
pub struct InitAck {
    pub version: u8,
    pub zid: ZenohId,
    pub resolution: Resolution,
    pub batch_size: u16,
    pub cookie: Vec<u8>,
}

pub struct InitAckView {
    pub version: u8,
    pub zid: Seq<u8>,
    pub resolution: Resolution,
    pub batch_size: u16,
    pub cookie: Seq<u8>,
}

impl View for InitAck {
    type V = InitAckView;

    open spec fn view(&self) -> InitAckView {
        InitAckView {
            version: self.version,
            zid: self.zid@,
            resolution: self.resolution,
            batch_size: self.batch_size,
            cookie: self.cookie@,
        }
    }
}

/// `lease` is in milliseconds.
#[derive(Debug, Clone, PartialEq, Eq)]
pub struct OpenSyn {
    pub lease: u64,
    pub sn: u32,
    pub cookie: Vec<u8>,
}

pub struct OpenSynView {
    pub lease: u64,
    pub sn: u32,
    pub cookie: Seq<u8>,
}

impl View for OpenSyn {
    type V = OpenSynView;

    open spec fn view(&self) -> OpenSynView {
        OpenSynView { lease: self.lease, sn: self.sn, cookie: self.cookie@ }
    }
}

/// `lease` is in milliseconds.
#[derive(Debug, Clone, Copy, PartialEq, Eq, Structural)]
pub struct OpenAck {
    pub lease: u64,
    pub sn: u32,
}

#[derive(Debug, Clone, Copy, PartialEq, Eq, Structural)]
pub struct Close {
    pub reason: u8,
}

#[derive(Debug, Clone, Copy, PartialEq, Eq, Structural)]
pub struct KeepAlive {}

#[derive(Debug, Clone, PartialEq, Eq)]
pub enum TransportMessage {
    Close(Close),
    InitSyn(InitSyn),
    InitAck(InitAck),
    KeepAlive(KeepAlive),
    OpenSyn(OpenSyn),
    OpenAck(OpenAck),
}

pub enum TransportMessageView {
    Close(Close),
    InitSyn(InitSynView),
    InitAck(InitAckView),
    KeepAlive(KeepAlive),
    OpenSyn(OpenSynView),
    OpenAck(OpenAck),
}

impl View for TransportMessage {
    type V = TransportMessageView;

    open spec fn view(&self) -> TransportMessageView {
        match self {
            TransportMessage::Close(m) => TransportMessageView::Close(*m),
            TransportMessage::InitSyn(m) => TransportMessageView::InitSyn(m@),
            TransportMessage::InitAck(m) => TransportMessageView::InitAck(m@),
            TransportMessage::KeepAlive(m) => TransportMessageView::KeepAlive(*m),
            TransportMessage::OpenSyn(m) => TransportMessageView::OpenSyn(m@),
            TransportMessage::OpenAck(m) => TransportMessageView::OpenAck(*m),
        }
    }
}

#[derive(Debug, Clone, PartialEq, Eq)]
pub enum Message {
    Network(NetworkMessage),
    Transport(TransportMessage),
}

pub enum MessageView {
    Network(NetworkMessageView),
    Transport(TransportMessageView),
}

impl View for Message {
    type V = MessageView;

    open spec fn view(&self) -> MessageView {
        match self {
            Message::Network(m) => MessageView::Network(m@),
            Message::Transport(m) => MessageView::Transport(m@),
        }
    }
}

/// A borrowed message.
#[derive(Debug, PartialEq, Eq)]
pub enum MessageRef<'a> {
    Network(&'a NetworkMessage),
    Transport(&'a TransportMessage),
}

impl Message {
    pub fn as_ref(&self) -> (r: MessageRef<'_>)
        ensures
            match self {
                Message::Network(m) => r == MessageRef::Network(m),
                Message::Transport(m) => r == MessageRef::Transport(m),
            },
    {
        match self {
            Message::Transport(msg) => MessageRef::Transport(msg),
            Message::Network(msg) => MessageRef::Network(msg),
        }
    }
}

} // verus!
