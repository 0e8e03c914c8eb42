use zenoh_proto::{
    write_transport, Declare, Interest, InterestFinal, InitSyn, NetworkBody, NetworkMessage,
    OpenSyn, Push, QoS, RawBody, Reliability, Request, Resolution, Response, ResponseFinal, State,
    Transport, TransportMessage, TransportRx, TransportTx, WireExpr, ZenohId, VERSION,
};

const NUM_ITER: usize = 100;
const MAX_PAYLOAD_SIZE: usize = 512;

fn zid(b: u8) -> ZenohId {
    ZenohId { bytes: vec![b] }
}

fn encode(msg: TransportMessage) -> Vec<u8> {
    let mut out = Vec::new();
    write_transport(&mut out, &msg);
    out
}

fn handshake_regular() {
    let mut a = State::WaitingInitSyn {
        mine_zid: zid(1),
        mine_batch_size: 512,
        mine_resolution: Resolution::default(),
        mine_lease: 30_000,
    };

    let b_zid = zid(1);
    let mut b = State::WaitingInitAck {
        mine_zid: b_zid.clone(),
        mine_batch_size: 1025,
        mine_resolution: Resolution::default(),
        mine_lease: 37_000,
    };

    // Simulate 'b' sending InitSyn
    let buff1 = encode(TransportMessage::InitSyn(InitSyn {
        version: VERSION,
        zid: b_zid,
        resolution: Resolution::default(),
        batch_size: 1025,
    }));

    // a receives InitSyn and goes to WaitingOpenSyn state and writes an InitAck
    let mut buff2 = Vec::new();
    a.poll(&buff1, &mut buff2);
    // b receives an InitAck and goes to WaitingOpenAck and writes an OpenSyn
    let mut buff1 = Vec::new();
    b.poll(&buff2, &mut buff1);
    // a receives an OpenSyn and goes to Opened and writes an OpenAck
    let mut buff2 = Vec::new();
    a.poll(&buff1, &mut buff2);
    // b receives an OpenAck and goes to Opened
    let mut buff1 = Vec::new();
    b.poll(&buff2, &mut buff1);

    assert!(a.opened() && b.opened());
}

#[test]
fn transport_transport_state_handshake_regular() {
    handshake_regular();
}

#[test]
fn establishment_transport_state_handshake_regular() {
    handshake_regular();
}

fn init_syn_default() -> InitSyn {
    InitSyn { version: VERSION, zid: zid(1), resolution: Resolution::default(), batch_size: u16::MAX }
}

fn handshake_0rtt() {
    let mut a = State::WaitingInitSyn {
        mine_zid: zid(1),
        mine_batch_size: 512,
        mine_resolution: Resolution::default(),
        mine_lease: 30_000,
    };

    let cookie = encode(TransportMessage::InitSyn(init_syn_default()));
    let mut socket = cookie.clone();
    socket.extend_from_slice(&encode(TransportMessage::OpenSyn(OpenSyn {
        lease: 10_000,
        sn: 0,
        cookie,
    })));

    let mut out = Vec::new();
    a.poll(&socket, &mut out);
    assert!(a.opened())
}

#[test]
fn transport_state_handshake_0rtt() {
    handshake_0rtt();
}

#[test]
fn transport_state_handshake_skip() {
    handshake_0rtt();
}

#[test]
fn transport_non_streamed() {
    let mut tx = TransportTx::new(vec![0u8; 512], false, 512, 0, Resolution::default(), 10_000);
    let mut rx = TransportRx::new(vec![0u8; 512], false, 512, 0, Resolution::default(), 10_000);

    let msg = NetworkMessage {
        reliability: Reliability::Reliable,
        qos: QoS::default(),
        body: NetworkBody::RawBody(RawBody { buff: vec![1, 2, 9, 8, 7] }),
    };

    tx.push(&msg).unwrap();

    let bytes = tx.flush().unwrap_or_default();
    rx.decode(&bytes).unwrap();

    let flush = rx.flush();
    let mut it = flush.into_iter();
    let m = it.next().unwrap();
    assert_eq!(it.count(), 0);

    assert_eq!(m, msg);
}

#[test]
fn transport_streamed_decode() {
    let mut tx = TransportTx::new(vec![0u8; 512], true, 512, 0, Resolution::default(), 10_000);
    let mut rx = TransportRx::new(vec![0u8; 512], true, 512, 0, Resolution::default(), 10_000);

    let msg = NetworkMessage {
        reliability: Reliability::Reliable,
        qos: QoS::declare(),
        body: NetworkBody::RawBody(RawBody { buff: vec![1, 2, 9, 8, 7] }),
    };

    tx.push(&msg).unwrap();
    rx.decode(&tx.flush().unwrap()).unwrap();

    let flush = rx.flush();
    let mut it = flush.into_iter();
    let m = it.next().unwrap();
    assert_eq!(it.count(), 0);

    assert_eq!(m, msg);
}

#[test]
fn transport_streamed_decode_with() {
    let mut tx = TransportTx::new(vec![0u8; 512], true, 512, 0, Resolution::default(), 10_000);
    let mut rx = TransportRx::new(vec![0u8; 512], true, 512, 0, Resolution::default(), 10_000);

    let msg = NetworkMessage {
        reliability: Reliability::Reliable,
        qos: QoS::declare(),
        body: NetworkBody::RawBody(RawBody { buff: vec![1, 2, 9, 8, 7] }),
    };

    tx.push(&msg).unwrap();

    let bytes = tx.flush().unwrap();
    // In streamed mode the reading happens twice: the length, then the batch.
    let mut rest: &[u8] = &bytes;
    let mut read = |into: &mut [u8]| -> usize {
        let (ret, remain) = rest.split_at(into.len());
        into.copy_from_slice(ret);
        rest = remain;
        ret.len()
    };
    let mut len = [0u8; 2];
    assert_eq!(read(&mut len), 2);
    let mut batch = vec![0u8; u16::from_le_bytes(len) as usize];
    assert_eq!(read(&mut batch), batch.len());
    let mut framed = len.to_vec();
    framed.extend_from_slice(&batch);
    rx.decode(&framed).unwrap();

    let flush = rx.flush();
    let mut it = flush.into_iter();
    let m = it.next().unwrap();
    assert_eq!(it.count(), 0);

    assert_eq!(m, msg);
}

/// A small deterministic generator standing in for a random one.
struct Rng(u64);

impl Rng {
    fn next(&mut self) -> u64 {
        self.0 = self.0.wrapping_mul(6364136223846793005).wrapping_add(1442695040888963407);
        self.0 >> 33
    }

    fn range(&mut self, lo: u64, hi: u64) -> u64 {
        lo + self.next() % (hi - lo)
    }

    fn bytes(&mut self) -> Vec<u8> {
        let n = self.range(0, 24) as usize;
        (0..n).map(|_| self.next() as u8).collect()
    }

    fn wire_expr(&mut self) -> WireExpr {
        WireExpr { scope: self.next() % 1000, suffix: self.bytes() }
    }
}

fn net_rand(rng: &mut Rng) -> NetworkMessage {
    let body = match rng.range(0, 6) {
        0 => NetworkBody::Push(Push { wire_expr: rng.wire_expr(), payload: rng.bytes() }),
        1 => NetworkBody::Request(Request {
            id: rng.next(),
            wire_expr: rng.wire_expr(),
            payload: rng.bytes(),
        }),
        2 => NetworkBody::Response(Response {
            rid: rng.next(),
            wire_expr: rng.wire_expr(),
            payload: rng.bytes(),
        }),
        3 => NetworkBody::ResponseFinal(ResponseFinal { rid: rng.next() }),
        4 => {
            if rng.range(0, 2) == 0 {
                NetworkBody::Interest(Interest {
                    id: rng.next(),
                    mode: rng.range(1, 4) as u8,
                    options: rng.next() as u8,
                })
            } else {
                NetworkBody::InterestFinal(InterestFinal { id: rng.next() })
            }
        }
        _ => NetworkBody::Declare(Declare { id: rng.next(), wire_expr: rng.wire_expr() }),
    };

    NetworkMessage {
        reliability: if rng.range(0, 2) == 0 {
            Reliability::Reliable
        } else {
            Reliability::BestEffort
        },
        qos: QoS { inner: rng.next() as u8 },
        body,
    }
}

fn codec_round_trip(streamed: bool, seed: u64) {
    let mut rng = Rng(seed);
    let n = rng.range(1, 16) as usize;
    let messages: Vec<NetworkMessage> = (0..n).map(|_| net_rand(&mut rng)).collect();

    let size = MAX_PAYLOAD_SIZE * NUM_ITER;
    let mut tx = TransportTx::new(vec![0u8; size], streamed, u16::MAX, 0, Resolution::default(), 10_000);
    let mut rx = TransportRx::new(vec![0u8; size], streamed, size, 0, Resolution::default(), 10_000);

    for m in &messages {
        tx.push(m).unwrap();
    }
    rx.decode(&tx.flush().unwrap()).unwrap();

    let decoded = rx.flush();
    assert_eq!(decoded, messages);
}

#[test]
fn transport_codec_non_streamed() {
    for seed in 0..NUM_ITER as u64 {
        codec_round_trip(false, seed);
    }
}

#[test]
fn transport_codec_streamed() {
    for seed in 0..NUM_ITER as u64 {
        codec_round_trip(true, seed + 1000);
    }
}

#[test]
fn transport_codec() {
    let mut rng = Rng(7);
    let n = rng.range(1, 16) as usize;
    let messages: Vec<NetworkMessage> = (0..n).map(|_| net_rand(&mut rng)).collect();

    let size = MAX_PAYLOAD_SIZE * NUM_ITER;
    let mut transport = Transport::new(false, vec![0u8; size], vec![0u8; size], u16::MAX, 0);
    let batches = transport.tx().send(&Vec::new(), &messages);

    let mut decoded = Vec::new();
    for batch in &batches {
        let mut receiver = transport.update(batch);
        while let Some(run) = receiver.next() {
            match run {
                zenoh_proto::MessageIter::Network(n) => decoded.extend(n),
                zenoh_proto::MessageIter::Transport(_) => {}
            }
        }
    }

    assert_eq!(decoded, messages);
}
