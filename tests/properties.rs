use sha3::digest::{ExtendableOutput, Update};
use zenoh_proto::{
    derive_sn, network_len, negotiate_batch_size, negotiate_resolution, negotiate_sn, read_item,
    read_streamed, transport_len, write_network, write_streamed, write_transport, Bits,
    BatchReader, BatchWriter, Close, CodecError, Decoded, Field, InitAck, InitSyn, KeepAlive,
    Liveness, Message, NetworkBody, NetworkMessage, OneShotWriter, AdvancingWriter, OpenAck,
    OpenSyn, Push, QoS, RawBody, Reliability, Resolution, State, TransportError, TransportMessage,
    TransportRx, TransportTx, WireExpr, ZenohId, VERSION,
};
use zenoh_proto::wire::{read_z64, write_zint, zint_len};
use zenoh_proto::{Broker, BrokerError, CollectionError, Id, MessageIter, Transport};

fn push(key: &str, payload: &[u8]) -> NetworkBody {
    NetworkBody::Push(Push {
        wire_expr: WireExpr { scope: 0, suffix: key.as_bytes().to_vec() },
        payload: payload.to_vec(),
    })
}

fn shake_sn(a: &[u8], b: &[u8], mask: u32) -> u32 {
    let mut hasher = sha3::Shake128::default();
    hasher.update(a);
    hasher.update(b);
    let mut out = [0u8; 4];
    hasher.finalize_xof_into(&mut out);
    u32::from_le_bytes(out) & mask
}

fn encode(msg: &TransportMessage) -> Vec<u8> {
    let mut out = Vec::new();
    write_transport(&mut out, msg);
    out
}

#[test]
fn zint_exact_bytes() {
    let mut out = Vec::new();
    write_zint(&mut out, 300);
    assert_eq!(out, vec![0xac, 0x02]);
    assert_eq!(zint_len(300), 2);
    assert_eq!(read_z64(&out, 0), Some((300, 2)));

    let mut big = Vec::new();
    write_zint(&mut big, u64::MAX);
    assert_eq!(big.len(), 10);
    assert_eq!(read_z64(&big, 0), Some((u64::MAX, 10)));
}

#[test]
fn zint_non_minimal_rejected() {
    assert_eq!(read_z64(&[0x80, 0x00], 0), None);
    assert_eq!(read_z64(&[0x81], 0), None);
    assert_eq!(read_z64(&[0x05], 0), Some((5, 1)));
}

#[test]
fn length_prediction_matches_bytes_written() {
    let bodies = vec![
        push("ab/cdef", &[1, 2, 3]),
        NetworkBody::RawBody(RawBody { buff: vec![7; 300] }),
    ];
    for b in &bodies {
        let mut out = Vec::new();
        write_network(&mut out, b);
        assert_eq!(network_len(b), out.len());
    }
    let t = TransportMessage::InitAck(InitAck {
        version: VERSION,
        zid: ZenohId { bytes: vec![1, 2, 3] },
        resolution: Resolution::default(),
        batch_size: 512,
        cookie: vec![9; 200],
    });
    assert_eq!(transport_len(&t), encode(&t).len());
}

#[test]
fn single_message_round_trip() {
    let m = NetworkMessage {
        reliability: Reliability::Reliable,
        qos: QoS::default(),
        body: push("ab/cdef", &[]),
    };
    let mut tx = TransportTx::new(vec![0u8; 512], false, 512, 0, Resolution::default(), 10_000);
    let mut rx = TransportRx::new(vec![0u8; 512], false, 512, 0, Resolution::default(), 10_000);
    tx.push(&m).unwrap();
    let bytes = tx.flush().unwrap();
    rx.decode(&bytes).unwrap();
    assert_eq!(rx.flush(), vec![m]);
}

fn frames_of(bytes: &[u8]) -> Vec<u32> {
    let mut sns = Vec::new();
    let mut pos = 0;
    while let Some((item, next)) = read_item(bytes, pos) {
        if let Decoded::Frame(f) = item {
            sns.push(f.sn);
        }
        pos = next;
    }
    sns
}

#[test]
fn mixed_classes_open_three_frames() {
    let q1 = QoS { inner: 0x03 };
    let classes = [
        Reliability::Reliable,
        Reliability::Reliable,
        Reliability::BestEffort,
        Reliability::Reliable,
    ];
    let mut tx = TransportTx::new(vec![0u8; 512], false, 512, 0, Resolution::default(), 10_000);
    for (i, r) in classes.iter().enumerate() {
        let m = NetworkMessage { reliability: *r, qos: q1, body: push("k", &[i as u8]) };
        tx.push(&m).unwrap();
    }
    let bytes = tx.flush().unwrap();
    assert_eq!(frames_of(&bytes), vec![0, 1, 2]);
}

#[test]
fn frame_sn_wraps_with_resolution() {
    let mut res = Resolution::default();
    res.set(Field::FrameSN, Bits::U8);
    let mut tx = TransportTx::new(vec![0u8; 512], false, 512, 0xfe, res, 10_000);
    for i in 0..3u8 {
        let r = if i % 2 == 0 { Reliability::Reliable } else { Reliability::BestEffort };
        let m = NetworkMessage { reliability: r, qos: QoS::default(), body: push("k", &[i]) };
        tx.push(&m).unwrap();
    }
    let bytes = tx.flush().unwrap();
    assert_eq!(frames_of(&bytes), vec![0xfe, 0xff, 0]);
}

#[test]
fn streamed_envelope_is_payload_length() {
    let mut tx = TransportTx::new(vec![0u8; 512], true, 512, 0, Resolution::default(), 10_000);
    let m = NetworkMessage {
        reliability: Reliability::BestEffort,
        qos: QoS::declare(),
        body: push("a/b", &[1, 2, 3, 4]),
    };
    tx.push(&m).unwrap();
    tx.push(&m).unwrap();
    let b = tx.flush().unwrap();
    assert_eq!(&b[..2], &((b.len() - 2) as u16).to_le_bytes());
    assert_eq!(tx.flush(), None);
}

#[test]
fn streamed_buffer_below_two_bytes() {
    let mut tx = TransportTx::new(vec![0u8; 1], true, 512, 0, Resolution::default(), 10_000);
    assert_eq!(tx.flush(), None);
    let m = NetworkMessage {
        reliability: Reliability::Reliable,
        qos: QoS::default(),
        body: push("k", &[]),
    };
    assert_eq!(tx.push(&m), Err(TransportError::TransportIsFull));
    assert!(tx.batch(&vec![m]).is_empty());
}

#[test]
fn message_too_large_for_batch() {
    let mut tx = TransportTx::new(vec![0u8; 16], false, 16, 0, Resolution::default(), 10_000);
    let m = NetworkMessage {
        reliability: Reliability::Reliable,
        qos: QoS::default(),
        body: push("k", &[0u8; 32]),
    };
    assert_eq!(tx.push(&m), Err(TransportError::MessageTooLargeForBatch));
    assert_eq!(tx.flush(), None);
}

#[test]
fn batches_split_when_full() {
    let mut tx = TransportTx::new(vec![0u8; 64], true, 64, 0, Resolution::default(), 10_000);
    let msgs: Vec<NetworkMessage> = (0..6u8)
        .map(|i| NetworkMessage {
            reliability: Reliability::Reliable,
            qos: QoS::default(),
            body: push("key", &[i; 10]),
        })
        .collect();
    let batches = tx.batch(&msgs);
    assert!(batches.len() > 1);
    let mut rx = TransportRx::new(vec![0u8; 64], true, 64, 0, Resolution::default(), 10_000);
    let mut got = Vec::new();
    for b in &batches {
        assert_eq!(&b[..2], &((b.len() - 2) as u16).to_le_bytes());
        rx.decode(b).unwrap();
        got.extend(rx.flush());
    }
    assert_eq!(got, msgs);
}

#[test]
fn network_message_without_frame_ends_batch() {
    let mut bytes = Vec::new();
    write_network(&mut bytes, &push("k", &[1]));
    let mut reader = BatchReader::new(&bytes);
    assert_eq!(reader.next(), None);
}

#[test]
fn corrupted_trailing_message_is_isolated() {
    let m = NetworkMessage {
        reliability: Reliability::Reliable,
        qos: QoS::default(),
        body: push("a", &[1, 2]),
    };
    let mut w = BatchWriter::new(vec![0u8; 128], 0);
    w.framed(&m.body, m.reliability, m.qos).unwrap();
    w.framed(&m.body, m.reliability, m.qos).unwrap();
    let (_, mut bytes) = w.finalize();
    // A Push whose payload length runs past the end of the batch.
    bytes.extend_from_slice(&[0x1d, 0x00, 0x01, b'a', 0x7f]);
    let mut reader = BatchReader::new(&bytes);
    assert_eq!(reader.next(), Some(Message::Network(m.clone())));
    assert_eq!(reader.next(), Some(Message::Network(m)));
    assert_eq!(reader.next(), None);
    assert_eq!(reader.next(), None);
}

#[test]
fn unknown_header_ends_batch() {
    let mut bytes = encode(&TransportMessage::KeepAlive(KeepAlive {}));
    bytes.push(0x0e);
    bytes.extend(encode(&TransportMessage::KeepAlive(KeepAlive {})));
    let mut reader = BatchReader::new(&bytes);
    assert_eq!(reader.next(), Some(Message::Transport(TransportMessage::KeepAlive(KeepAlive {}))));
    assert_eq!(reader.next(), None);
}

#[test]
fn lower_frame_sn_ends_batch() {
    let m = NetworkMessage {
        reliability: Reliability::Reliable,
        qos: QoS::default(),
        body: push("a", &[]),
    };
    let (_, mut bytes) = OneShotWriter::new(vec![0u8; 64])
        .framed(&m.body, Reliability::Reliable, QoS::default(), 5)
        .unwrap();
    let (_, second) = OneShotWriter::new(vec![0u8; 64])
        .framed(&m.body, Reliability::BestEffort, QoS::default(), 3)
        .unwrap();
    bytes.extend(second);
    let mut reader = BatchReader::new(&bytes);
    assert_eq!(reader.next(), Some(Message::Network(m)));
    assert_eq!(reader.next(), None);
}

#[test]
fn transport_round_trip_each_kind() {
    let msgs = vec![
        TransportMessage::Close(Close { reason: 3 }),
        TransportMessage::KeepAlive(KeepAlive {}),
        TransportMessage::InitSyn(InitSyn {
            version: VERSION,
            zid: ZenohId { bytes: vec![1, 2, 3, 4] },
            resolution: Resolution::default(),
            batch_size: 2048,
        }),
        TransportMessage::InitAck(InitAck {
            version: VERSION,
            zid: ZenohId { bytes: vec![9; 16] },
            resolution: Resolution { inner: 0x05 },
            batch_size: 1,
            cookie: vec![1, 2, 3],
        }),
        TransportMessage::OpenSyn(OpenSyn { lease: 10_000, sn: 77, cookie: vec![4, 5] }),
        TransportMessage::OpenAck(OpenAck { lease: 37_000, sn: u32::MAX }),
    ];
    let mut w = AdvancingWriter::new(vec![0u8; 512]);
    let mut all = Vec::new();
    for m in &msgs {
        let bytes = w.unframed(m).unwrap();
        assert_eq!(bytes, encode(m));
        all.extend(bytes);
    }
    let mut reader = BatchReader::new(&all);
    for m in &msgs {
        assert_eq!(reader.next(), Some(Message::Transport(m.clone())));
    }
    assert_eq!(reader.next(), None);
}

#[test]
fn one_shot_too_small() {
    let r = OneShotWriter::new(vec![0u8; 2]).unframed(&TransportMessage::OpenAck(OpenAck {
        lease: 10_000,
        sn: 1,
    }));
    assert_eq!(r, Err(CodecError::BufferTooSmall));
}

#[test]
fn negotiation_helpers() {
    assert_eq!(negotiate_batch_size(512, 1025), 512);
    let mut narrow = Resolution::default();
    narrow.set(Field::FrameSN, Bits::U8);
    let r = negotiate_resolution(&Resolution::default(), &narrow).unwrap();
    assert_eq!(r.get(Field::FrameSN), Bits::U8);
    assert_eq!(r.get(Field::RequestID), Bits::U32);
    assert_eq!(negotiate_resolution(&narrow, &Resolution::default()), None);
    assert_eq!(derive_sn(0x1234_5678, Bits::U8), 0x78);
    assert_eq!(derive_sn(0x1234_5678, Bits::U16), 0x5678);
    assert_eq!(derive_sn(0x1234_5678, Bits::U32), 0x1234_5678);
    assert_eq!(derive_sn(0x1234_5678, Bits::U64), 0x1234_5678);
}

#[test]
fn negotiate_sn_is_shake128_of_both_ids() {
    let a = ZenohId { bytes: vec![0xa1, 0xa2] };
    let b = ZenohId { bytes: vec![0xb1] };
    let sn = negotiate_sn(&a, &b, Resolution::default());
    assert_eq!(sn, shake_sn(&[0xa1, 0xa2], &[0xb1], 0xffff_ffff));
    assert_ne!(sn, negotiate_sn(&b, &a, Resolution::default()));
}

#[test]
fn handshake_regular_negotiates() {
    let za = ZenohId { bytes: vec![0xaa, 0x01] };
    let zb = ZenohId { bytes: vec![0xbb, 0x02, 0x03] };
    let mut a = State::WaitingInitSyn {
        mine_zid: za.clone(),
        mine_batch_size: 512,
        mine_resolution: Resolution::default(),
        mine_lease: 30_000,
    };
    let mut b = State::WaitingInitAck {
        mine_zid: zb.clone(),
        mine_batch_size: 1025,
        mine_resolution: Resolution::default(),
        mine_lease: 37_000,
    };
    let syn = encode(&TransportMessage::InitSyn(InitSyn {
        version: VERSION,
        zid: zb.clone(),
        resolution: Resolution::default(),
        batch_size: 1025,
    }));
    let mut ack = Vec::new();
    assert_eq!(a.poll(&syn, &mut ack), None);
    let mut open = Vec::new();
    assert_eq!(b.poll(&ack, &mut open), None);
    let mut open_ack = Vec::new();
    let da = a.poll(&open, &mut open_ack).unwrap();
    let mut nothing = Vec::new();
    let db = b.poll(&open_ack, &mut nothing).unwrap();
    assert!(nothing.is_empty());
    assert!(a.opened() && b.opened());
    assert_eq!(da.batch_size, 512);
    assert_eq!(db.batch_size, 512);
    assert_eq!(da.other_lease, 37_000);
    assert_eq!(db.other_lease, 30_000);
    assert_eq!(da.sn, shake_sn(&za.bytes, &zb.bytes, 0xffff_ffff));
    assert_eq!(db.sn, shake_sn(&zb.bytes, &za.bytes, 0xffff_ffff));
    assert_eq!(da.other_sn, db.sn);
    assert_eq!(db.other_sn, da.sn);
    assert_eq!(da.other_zid, zb);
    assert_eq!(db.other_zid, za);
}

#[test]
fn handshake_zero_rtt_single_poll() {
    let mut a = State::WaitingInitSyn {
        mine_zid: ZenohId { bytes: vec![1] },
        mine_batch_size: 512,
        mine_resolution: Resolution::default(),
        mine_lease: 30_000,
    };
    let cookie = encode(&TransportMessage::InitSyn(InitSyn {
        version: VERSION,
        zid: ZenohId { bytes: vec![2] },
        resolution: Resolution::default(),
        batch_size: 700,
    }));
    let mut buffer = cookie.clone();
    buffer.extend(encode(&TransportMessage::OpenSyn(OpenSyn { lease: 5_000, sn: 9, cookie })));
    let mut out = Vec::new();
    let d = a.poll(&buffer, &mut out).unwrap();
    assert!(a.opened());
    assert_eq!(d.batch_size, 512);
    assert_eq!(d.other_sn, 9);
    assert_eq!(d.other_lease, 5_000);
    let mut reader = BatchReader::new(&out);
    assert!(matches!(reader.next(), Some(Message::Transport(TransportMessage::InitAck(_)))));
    assert!(matches!(reader.next(), Some(Message::Transport(TransportMessage::OpenAck(_)))));
    assert_eq!(reader.next(), None);
}

#[test]
fn init_ack_without_ack_context_is_ignored() {
    let mut a = State::WaitingInitSyn {
        mine_zid: ZenohId { bytes: vec![1] },
        mine_batch_size: 512,
        mine_resolution: Resolution::default(),
        mine_lease: 30_000,
    };
    let before = a.clone();
    let ack = encode(&TransportMessage::InitAck(InitAck {
        version: VERSION,
        zid: ZenohId { bytes: vec![2] },
        resolution: Resolution::default(),
        batch_size: 512,
        cookie: vec![],
    }));
    let mut out = Vec::new();
    assert_eq!(a.poll(&ack, &mut out), None);
    assert!(out.is_empty());
    assert_eq!(a, before);
}

#[test]
fn handshake_rejects_wider_resolution_and_zero_batch() {
    let mut narrow = Resolution::default();
    narrow.set(Field::FrameSN, Bits::U16);
    let mut b = State::WaitingInitAck {
        mine_zid: ZenohId { bytes: vec![2] },
        mine_batch_size: 512,
        mine_resolution: narrow,
        mine_lease: 30_000,
    };
    let before = b.clone();
    let wide = encode(&TransportMessage::InitAck(InitAck {
        version: VERSION,
        zid: ZenohId { bytes: vec![1] },
        resolution: Resolution::default(),
        batch_size: 512,
        cookie: vec![],
    }));
    let mut out = Vec::new();
    assert_eq!(b.poll(&wide, &mut out), None);
    assert_eq!(b, before);
    let zero = encode(&TransportMessage::InitAck(InitAck {
        version: VERSION,
        zid: ZenohId { bytes: vec![1] },
        resolution: narrow,
        batch_size: 0,
        cookie: vec![],
    }));
    assert_eq!(b.poll(&zero, &mut out), None);
    assert!(out.is_empty());
    assert_eq!(b, before);
}

#[test]
fn close_propagation() {
    let mut rx = TransportRx::new(vec![0u8; 512], false, 512, 0, Resolution::default(), 10_000);
    rx.decode(&encode(&TransportMessage::Close(Close { reason: 0 }))).unwrap();
    assert!(rx.flush().is_empty());
    assert!(!rx.opened());
    assert_eq!(rx.decode(&[1, 2, 3]), Ok(()));
    assert!(rx.flush().is_empty());
}

#[test]
fn rx_decode_errors() {
    let mut rx = TransportRx::new(vec![0u8; 4], true, 4, 0, Resolution::default(), 10_000);
    assert_eq!(rx.decode(&[9]), Err(TransportError::InvalidAttribute));
    assert_eq!(rx.decode(&[5, 0, 1, 2, 3, 4, 5]), Err(TransportError::TransportIsFull));
    assert_eq!(rx.decode(&[3, 0, 1]), Err(TransportError::InvalidAttribute));
    assert_eq!(rx.decode(&[2, 0, 1, 2]), Ok(()));
    assert_eq!(rx.decode(&[1, 0, 7]), Ok(()));
    assert_eq!(rx.decode(&[1, 0, 1]), Err(TransportError::TransportTooSmall));
    let mut small = TransportRx::new(vec![0u8; 4], false, 4, 0, Resolution::default(), 10_000);
    assert_eq!(small.decode(&[1, 2, 3, 4, 5]), Err(TransportError::TransportIsFull));
}

#[test]
fn rx_liveness() {
    let mut rx = TransportRx::new(vec![0u8; 64], false, 64, 0, Resolution::default(), 1_000);
    rx.sync(5);
    assert_eq!(rx.next_timeout(), 0);
    rx.decode(&encode(&TransportMessage::KeepAlive(KeepAlive {}))).unwrap();
    rx.sync(100);
    assert_eq!(rx.next_timeout(), 350);
    rx.sync(1_100);
    assert!(rx.opened());
    rx.sync(1_101);
    assert!(!rx.opened());
    let _ = Liveness::Closed;
}

#[test]
fn envelope_helpers() {
    let msg = TransportMessage::KeepAlive(KeepAlive {});
    let mut buff = vec![0u8; 8];
    let out = write_streamed(&mut buff, &msg, true).unwrap().to_vec();
    assert_eq!(out, vec![1, 0, 0x04]);
    let mut tiny = vec![0u8; 1];
    assert_eq!(write_streamed(&mut tiny, &msg, true), Err(TransportError::TransportTooSmall));
    let mut rbuf = vec![0u8; 8];
    assert_eq!(read_streamed(&mut rbuf, &out, true).unwrap(), &[0x04]);
    assert_eq!(read_streamed(&mut rbuf, &[9, 0, 1], true), Err(TransportError::InvalidAttribute));
    assert_eq!(read_streamed(&mut rbuf, &[], true).unwrap().len(), 0);
    assert_eq!(read_streamed(&mut rbuf, &[4, 5], false).unwrap(), &[4, 5]);
}

#[test]
fn broker_opens_north_link() {
    let mut broker = Broker::new(ZenohId { bytes: vec![0x42] }, 512);
    let syn = broker.init().unwrap();
    let mut reader = BatchReader::new(&syn);
    match reader.next() {
        Some(Message::Transport(TransportMessage::InitSyn(s))) => {
            assert_eq!(s.batch_size, 512);
            assert_eq!(s.zid, ZenohId { bytes: vec![0x42] });
        }
        other => panic!("unexpected {:?}", other),
    }

    let ack = encode(&TransportMessage::InitAck(InitAck {
        version: VERSION,
        zid: ZenohId { bytes: vec![7, 7] },
        resolution: Resolution::default(),
        batch_size: 300,
        cookie: vec![1, 2, 3],
    }));
    // From a south link the InitAck is ignored.
    assert_eq!(broker.recv(&ack, Id::South(3)).unwrap().len(), 0);
    let packets = broker.recv(&ack, Id::North).unwrap();
    assert_eq!(packets.len(), 1);
    let (dst, bytes) = packets.get(0);
    assert_eq!(dst, Id::North);
    let sn = shake_sn(&[0x42], &[7, 7], 0xffff_ffff);
    assert_eq!(
        bytes,
        encode(&TransportMessage::OpenSyn(OpenSyn { lease: 10_000, sn, cookie: vec![1, 2, 3] }))
    );
    assert!(!broker.opened(Id::North));
    let open_ack = encode(&TransportMessage::OpenAck(OpenAck { lease: 20_000, sn: 5 }));
    assert_eq!(broker.recv(&open_ack, Id::North).unwrap().len(), 0);
    assert!(broker.opened(Id::North));
    assert_eq!(broker.lease(), 3_333);

    let mut wide = Resolution::default();
    wide.set(Field::FrameSN, Bits::U64);
    let mut other = Broker::new(ZenohId { bytes: vec![1] }, 512);
    let bad = encode(&TransportMessage::InitAck(InitAck {
        version: VERSION,
        zid: ZenohId { bytes: vec![2] },
        resolution: wide,
        batch_size: 300,
        cookie: vec![],
    }));
    assert!(matches!(
        other.recv(&bad, Id::North),
        Err(BrokerError::Transport(TransportError::InvalidAttribute))
    ));
}

#[test]
fn broker_link_map_is_bounded() {
    let mut broker = Broker::new(ZenohId { bytes: vec![1] }, 512);
    for i in 0..15u32 {
        assert!(broker.recv(&[], Id::South(i)).is_ok());
    }
    assert!(matches!(
        broker.recv(&[], Id::South(99)),
        Err(BrokerError::Collection(CollectionError::CollectionIsFull))
    ));
    assert!(broker.recv(&[], Id::South(3)).is_ok());
}

#[test]
fn unknown_extensions_skipped_or_refused() {
    let mut body = Vec::new();
    write_network(&mut body, &push("k", &[5]));

    // A unit extension (id 2) and a byte extension (id 3) are skipped; the
    // QoS extension that follows sets the QoS.
    let mut skipped = vec![0x85, 0x03, 0x82, 0xc3, 0x02, 0xaa, 0xbb, 0x21, 0x09];
    skipped.extend_from_slice(&body);
    let mut reader = BatchReader::new(&skipped);
    assert_eq!(
        reader.next(),
        Some(Message::Network(NetworkMessage {
            reliability: Reliability::BestEffort,
            qos: QoS { inner: 0x09 },
            body: push("k", &[5]),
        }))
    );

    // An unknown mandatory extension fails the frame and ends the batch.
    let mut refused = vec![0x85, 0x03, 0x12];
    refused.extend_from_slice(&body);
    let mut reader = BatchReader::new(&refused);
    assert_eq!(reader.next(), None);
}

#[test]
fn handshake_equal_ids_share_sn() {
    let z = ZenohId { bytes: vec![0x11, 0x22] };
    let mut a = State::WaitingInitSyn {
        mine_zid: z.clone(),
        mine_batch_size: 512,
        mine_resolution: Resolution::default(),
        mine_lease: 30_000,
    };
    let mut b = State::WaitingInitAck {
        mine_zid: z.clone(),
        mine_batch_size: 1025,
        mine_resolution: Resolution::default(),
        mine_lease: 37_000,
    };
    let syn = encode(&TransportMessage::InitSyn(InitSyn {
        version: VERSION,
        zid: z.clone(),
        resolution: Resolution::default(),
        batch_size: 1025,
    }));
    let (mut w1, mut w2, mut w3, mut w4) = (Vec::new(), Vec::new(), Vec::new(), Vec::new());
    a.poll(&syn, &mut w1);
    b.poll(&w1, &mut w2);
    let da = a.poll(&w2, &mut w3).unwrap();
    let db = b.poll(&w3, &mut w4).unwrap();
    assert_eq!(da.sn, db.sn);
    assert_eq!(da.sn, shake_sn(&z.bytes, &z.bytes, 0xffff_ffff));
}

#[test]
fn handshake_sn_follows_negotiated_width() {
    let za = ZenohId { bytes: vec![0x0a] };
    let zb = ZenohId { bytes: vec![0x0b] };
    let mut narrow = Resolution::default();
    narrow.set(Field::FrameSN, Bits::U8);
    let mut a = State::WaitingInitSyn {
        mine_zid: za.clone(),
        mine_batch_size: 512,
        mine_resolution: Resolution::default(),
        mine_lease: 30_000,
    };
    let mut b = State::WaitingInitAck {
        mine_zid: zb.clone(),
        mine_batch_size: 512,
        mine_resolution: narrow,
        mine_lease: 30_000,
    };
    let syn = encode(&TransportMessage::InitSyn(InitSyn {
        version: VERSION,
        zid: zb.clone(),
        resolution: narrow,
        batch_size: 512,
    }));
    let (mut w1, mut w2, mut w3, mut w4) = (Vec::new(), Vec::new(), Vec::new(), Vec::new());
    a.poll(&syn, &mut w1);
    // The InitAck carries a's U32, wider than b's U8: b refuses it.
    assert_eq!(b.poll(&w1, &mut w2), None);
    assert!(w2.is_empty());
    // A connector at U32 takes it; a then reads b's U8 InitSyn from the
    // cookie and negotiates U8.
    let mut b = State::WaitingInitAck {
        mine_zid: zb.clone(),
        mine_batch_size: 512,
        mine_resolution: Resolution::default(),
        mine_lease: 30_000,
    };
    b.poll(&w1, &mut w2);
    let da = a.poll(&w2, &mut w3).unwrap();
    let db = b.poll(&w3, &mut w4).unwrap();
    // a negotiated b's U8 from the InitSyn in the cookie; b took a's U32.
    assert_eq!(da.resolution.get(Field::FrameSN), Bits::U8);
    assert_eq!(da.sn, shake_sn(&[0x0a], &[0x0b], 0xff));
    assert_eq!(db.sn, shake_sn(&[0x0b], &[0x0a], 0xffff_ffff));
}

#[test]
fn read_streamed_small_buffer_checked_first() {
    let mut tiny = vec![0u8; 1];
    assert_eq!(read_streamed(&mut tiny, &[], true), Err(TransportError::TransportTooSmall));
    assert_eq!(read_streamed(&mut tiny, &[], false).unwrap().len(), 0);
}

#[test]
fn write_streamed_refuses_oversized_envelope() {
    let msg = TransportMessage::OpenSyn(OpenSyn { lease: 1, sn: 1, cookie: vec![0u8; 70_000] });
    let mut buff = vec![0u8; 80_000];
    assert_eq!(write_streamed(&mut buff, &msg, true), Err(TransportError::MessageTooLargeForBatch));
    assert_eq!(write_streamed(&mut buff, &msg, false).unwrap().len(), encode(&msg).len());
}

#[test]
fn batch_hands_out_pending_batch_first() {
    let mut tx = TransportTx::new(vec![0u8; 64], true, 64, 0, Resolution::default(), 10_000);
    let m = NetworkMessage {
        reliability: Reliability::Reliable,
        qos: QoS::default(),
        body: push("key", &[1; 10]),
    };
    tx.push(&m).unwrap();
    let batches = tx.batch(&vec![m.clone(), m.clone()]);
    assert_eq!(batches.len(), 2);
    let mut rx = TransportRx::new(vec![0u8; 64], true, 64, 0, Resolution::default(), 10_000);
    rx.decode(&batches[0]).unwrap();
    assert_eq!(rx.flush(), vec![m.clone()]);
    rx.decode(&batches[1]).unwrap();
    assert_eq!(rx.flush(), vec![m.clone(), m]);
}

#[test]
fn batch_stops_at_message_that_never_fits() {
    let mut tx = TransportTx::new(vec![0u8; 32], false, 32, 0, Resolution::default(), 10_000);
    let small = NetworkMessage {
        reliability: Reliability::Reliable,
        qos: QoS::default(),
        body: push("k", &[1]),
    };
    let big = NetworkMessage {
        reliability: Reliability::Reliable,
        qos: QoS::default(),
        body: push("k", &[0u8; 40]),
    };
    let batches = tx.batch(&vec![small.clone(), big, small]);
    assert_eq!(batches.len(), 1);
    for b in &batches {
        assert!(b.len() <= 32);
    }
}

#[test]
fn sender_sends_everything_in_full_batches() {
    let mut transport = Transport::new(true, vec![0u8; 48], vec![0u8; 48], 48, 0);
    let transports = vec![
        TransportMessage::KeepAlive(KeepAlive {}),
        TransportMessage::Close(Close { reason: 1 }),
    ];
    let network: Vec<NetworkMessage> = (0..5u8)
        .map(|i| NetworkMessage {
            reliability: Reliability::Reliable,
            qos: QoS::default(),
            body: push("key", &[i; 8]),
        })
        .collect();
    let batches = transport.tx().send(&transports, &network);
    assert!(batches.len() > 1);
    let mut got_t = Vec::new();
    let mut got_n = Vec::new();
    for b in &batches {
        assert!(b.len() <= 48);
        assert_eq!(&b[..2], &((b.len() - 2) as u16).to_le_bytes());
        let mut receiver = transport.update(b);
        while let Some(run) = receiver.next() {
            match run {
                MessageIter::Network(n) => got_n.extend(n),
                MessageIter::Transport(t) => got_t.extend(t),
            }
        }
    }
    assert_eq!(got_t, transports);
    assert_eq!(got_n, network);
}

#[test]
fn sender_too_small_sends_nothing() {
    let mut transport = Transport::new(true, vec![0u8; 1], vec![0u8; 64], 64, 0);
    let batches = transport.tx().send(
        &vec![TransportMessage::KeepAlive(KeepAlive {})],
        &vec![],
    );
    assert!(batches.is_empty());
}

#[test]
fn receiver_hands_out_runs_of_one_family() {
    let mut transport = Transport::new(false, vec![0u8; 256], vec![0u8; 256], 256, 0);
    let ka = TransportMessage::KeepAlive(KeepAlive {});
    let net = |i: u8| NetworkMessage {
        reliability: Reliability::Reliable,
        qos: QoS::default(),
        body: push("k", &[i]),
    };
    let mut w = BatchWriter::new(vec![0u8; 256], 0);
    w.unframed(&ka).unwrap();
    w.unframed(&ka).unwrap();
    w.framed(&net(1).body, Reliability::Reliable, QoS::default()).unwrap();
    w.framed(&net(2).body, Reliability::Reliable, QoS::default()).unwrap();
    w.unframed(&ka).unwrap();
    let (_, bytes) = w.finalize();
    let mut receiver = transport.update(&bytes);
    assert_eq!(receiver.next(), Some(MessageIter::Transport(vec![ka.clone(), ka.clone()])));
    assert_eq!(receiver.next(), Some(MessageIter::Network(vec![net(1), net(2)])));
    assert_eq!(receiver.next(), Some(MessageIter::Transport(vec![ka])));
    assert_eq!(receiver.next(), None);
}
