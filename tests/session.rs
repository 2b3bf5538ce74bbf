use internet2::session::{
    Handshake, RecvHalf, SendHalf, Session, ftcp_frame, ftcp_unframe, session_step, Accept, Connect, LocalNode, LocalSocketAddr,
    NodeAddr, RemoteNodeAddr, RemoteSocketAddr, Security, SessionError, SessionEvent,
    SessionPlan, SessionState, TransportKind,
};
use internet2::transcoder::{NoiseDecryptor, NoiseEncryptor, PlainTranscoder, TranscoderError};

fn ftcp_peer() -> NodeAddr {
    remote(RemoteSocketAddr::Ftcp("127.0.0.1:9735".to_string()))
}

/// Runs every handshake act of a framed-TCP session to completion.
fn established(addr: &NodeAddr, initiator: bool) -> Handshake {
    let node = LocalNode { private_key: vec![1; 32] };
    let mut h = if initiator { addr.connect(&node) } else { addr.accept(&node) }.unwrap();
    for _ in 0..3 {
        assert_eq!(h.event(SessionEvent::ActDone), None);
    }
    assert_eq!(h.get_state(), SessionState::Established);
    h
}

fn remote(addr: RemoteSocketAddr) -> NodeAddr {
    NodeAddr::Remote(RemoteNodeAddr { node_id: vec![2; 33], remote_addr: addr })
}

#[test]
fn connect_and_accept_plans() {
    let node = LocalNode { private_key: vec![1; 32] };
    let ftcp = remote(RemoteSocketAddr::Ftcp("127.0.0.1:9735".to_string()));
    let h = ftcp.connect(&node).unwrap();
    assert_eq!(
        h.get_plan(),
        SessionPlan { transport: TransportKind::Ftcp, security: Security::NoiseInitiator }
    );
    assert_eq!(h.get_state(), SessionState::Handshaking(0));
    assert_eq!(h.get_local_key(), &[1; 32][..]);
    assert_eq!(h.get_remote_id(), &[2; 33][..]);
    let h = ftcp.accept(&node).unwrap();
    assert_eq!(
        h.get_plan(),
        SessionPlan { transport: TransportKind::Ftcp, security: Security::NoiseResponder }
    );
    assert!(h.get_remote_id().is_empty());
    let zmq = NodeAddr::Local(LocalSocketAddr::Zmq("ipc:///tmp/x".to_string()));
    let h = zmq.connect(&node).unwrap();
    assert_eq!(h.get_plan(), SessionPlan { transport: TransportKind::Zmq, security: Security::Plain });
    assert_eq!(h.get_state(), SessionState::Established);
    let http = remote(RemoteSocketAddr::Http("127.0.0.1:80".to_string()));
    assert_eq!(
        http.connect(&node).unwrap_err(),
        SessionError::UnsupportedTransport(TransportKind::Http)
    );
    let posix = NodeAddr::Local(LocalSocketAddr::Posix("/tmp/s".to_string()));
    assert_eq!(
        posix.accept(&node).unwrap_err(),
        SessionError::UnsupportedTransport(TransportKind::Posix)
    );
}

#[test]
fn handshake_life_cycle() {
    let mut s = SessionState::Idle;
    for e in [SessionEvent::Begin, SessionEvent::ActDone, SessionEvent::ActDone] {
        let (next, err) = session_step(s, e);
        assert_eq!(err, None);
        assert!(next != SessionState::Established);
        s = next;
    }
    let (s, err) = session_step(s, SessionEvent::ActDone);
    assert_eq!((s, err), (SessionState::Established, None));
    assert_eq!(
        session_step(s, SessionEvent::Timeout),
        (SessionState::Closed, Some(SessionError::TransportTimeout))
    );
    assert_eq!(
        session_step(SessionState::Handshaking(1), SessionEvent::ActFailed),
        (SessionState::Closed, Some(SessionError::HandshakeFailed))
    );
    assert_eq!(
        session_step(SessionState::Closed, SessionEvent::Begin),
        (SessionState::Closed, Some(SessionError::ConnectionClosed))
    );
}

#[test]
fn ftcp_framing() {
    let framed = ftcp_frame(&[0xAA, 0xBB, 0xCC]).unwrap();
    assert_eq!(framed, vec![0x03, 0x00, 0xAA, 0xBB, 0xCC]);
    let mut buf = framed.clone();
    buf.push(0x01);
    assert_eq!(ftcp_unframe(&buf), Some((vec![0xAA, 0xBB, 0xCC], 5)));
    assert_eq!(ftcp_unframe(&framed[..4]), None);
    assert_eq!(ftcp_frame(&vec![0; 65536]), Err(SessionError::FrameTooLarge));
}

#[test]
fn plain_transcoder_is_identity() {
    assert_eq!(PlainTranscoder.encrypt(&[1, 2, 3]), vec![1, 2, 3]);
    assert_eq!(PlainTranscoder.decrypt(&[4, 5]), vec![4, 5]);
}

#[test]
fn noise_seal_and_open() {
    let key = vec![7u8; 32];
    let mut enc = NoiseEncryptor::new(key.clone()).unwrap();
    let mut dec = NoiseDecryptor::new(key).unwrap();
    let c0 = enc.encrypt(b"hello").unwrap();
    assert_eq!(c0.len(), 5 + 16);
    assert_ne!(&c0[..5], b"hello");
    let c1 = enc.encrypt(b"hello").unwrap();
    assert_ne!(c0, c1);
    assert_eq!(enc.next_nonce(), 2);
    assert_eq!(dec.decrypt(&c0).unwrap(), b"hello".to_vec());
    assert_eq!(dec.decrypt(&c1).unwrap(), b"hello".to_vec());
    assert_eq!(dec.next_nonce(), 2);
}

#[test]
fn noise_tampered_frame_closes_direction() {
    let key = vec![9u8; 32];
    let mut enc = NoiseEncryptor::new(key.clone()).unwrap();
    let mut dec = NoiseDecryptor::new(key).unwrap();
    let mut c = enc.encrypt(b"data").unwrap();
    c[0] ^= 1;
    assert_eq!(dec.decrypt(&c), Err(TranscoderError::AuthenticationFailed));
    assert!(dec.is_closed());
    c[0] ^= 1;
    assert_eq!(dec.decrypt(&c), Err(TranscoderError::ConnectionClosed));
    assert_eq!(dec.next_nonce(), 0);
}

#[test]
fn noise_refuses_oversized_frames_and_bad_keys() {
    let mut enc = NoiseEncryptor::new(vec![1u8; 32]).unwrap();
    assert_eq!(enc.encrypt(&vec![0; 65535 - 15]), Err(TranscoderError::FrameTooLarge));
    assert_eq!(enc.next_nonce(), 0);
    assert!(enc.encrypt(&vec![0; 65535 - 16]).is_ok());
    assert!(NoiseEncryptor::new(vec![1u8; 31]).is_none());
    assert!(NoiseDecryptor::new(vec![1u8; 33]).is_none());
}

#[test]
fn remote_and_local_addresses_plan_directly() {
    let node = LocalNode { private_key: vec![1; 32] };
    let addr = RemoteNodeAddr {
        node_id: vec![3; 33],
        remote_addr: RemoteSocketAddr::Smtp("mail".to_string()),
    };
    assert_eq!(
        addr.accept(&node).unwrap_err(),
        SessionError::UnsupportedTransport(TransportKind::Smtp)
    );
    let zmq = RemoteNodeAddr {
        node_id: vec![3; 33],
        remote_addr: RemoteSocketAddr::Zmq("127.0.0.1:1".to_string()),
    };
    assert_eq!(
        zmq.connect(&node).unwrap().get_plan(),
        SessionPlan { transport: TransportKind::Zmq, security: Security::Plain }
    );
    let local = LocalSocketAddr::Zmq("inproc://a".to_string());
    let s = local.accept(&node).unwrap().into_plain_session().unwrap();
    assert!(!s.is_closed());
}

#[test]
fn session_send_recv_and_split() {
    let key_ab = vec![5u8; 32];
    let key_ba = vec![6u8; 32];
    let mut a = established(&ftcp_peer(), true)
        .into_noise_session(
            NoiseEncryptor::new(key_ab.clone()).unwrap(),
            NoiseDecryptor::new(key_ba.clone()).unwrap(),
        )
        .unwrap();
    let mut b = established(&ftcp_peer(), false)
        .into_noise_session(NoiseEncryptor::new(key_ba).unwrap(), NoiseDecryptor::new(key_ab).unwrap())
        .unwrap();
    let frame = a.send(b"ping").unwrap();
    assert_eq!(b.recv(&frame).unwrap(), b"ping".to_vec());
    let reply = b.send(b"pong").unwrap();
    assert_eq!(a.recv(&reply).unwrap(), b"pong".to_vec());

    // A replayed frame no longer matches the receiver's nonce.
    assert_eq!(b.recv(&frame), Err(SessionError::AuthenticationFailed));
    assert!(b.is_closed());
    assert_eq!(b.send(b"x"), Err(SessionError::ConnectionClosed));

    assert_eq!(a.send(&vec![0; 65535]), Err(SessionError::FrameTooLarge));
    assert!(!a.is_closed());
    match a.split() {
        (SendHalf::Noise(e), RecvHalf::Noise(d)) => {
            assert_eq!(e.next_nonce(), 1);
            assert_eq!(d.next_nonce(), 1);
        }
        _ => panic!("noise session split into plain halves"),
    }
}

#[test]
fn plain_session_and_close() {
    let mut s = Session::plain();
    assert_eq!(s.send(&[1, 2]).unwrap(), vec![1, 2]);
    assert_eq!(s.recv(&[3]).unwrap(), vec![3]);
    assert_eq!(s.send(&vec![0; 65536]), Err(SessionError::FrameTooLarge));
    s.close();
    assert_eq!(s.recv(&[3]), Err(SessionError::ConnectionClosed));
}

#[test]
fn no_session_before_handshake_completes() {
    let key = vec![5u8; 32];
    let node = LocalNode { private_key: vec![1; 32] };
    let mut h = ftcp_peer().connect(&node).unwrap();
    assert_eq!(h.event(SessionEvent::ActDone), None);
    let early = h.into_noise_session(
        NoiseEncryptor::new(key.clone()).unwrap(),
        NoiseDecryptor::new(key.clone()).unwrap(),
    );
    assert_eq!(early.unwrap_err(), SessionError::HandshakeFailed);

    let mut h = ftcp_peer().connect(&node).unwrap();
    assert_eq!(h.event(SessionEvent::ActFailed), Some(SessionError::HandshakeFailed));
    assert_eq!(h.get_state(), SessionState::Closed);
    let failed = h.into_noise_session(
        NoiseEncryptor::new(key.clone()).unwrap(),
        NoiseDecryptor::new(key.clone()).unwrap(),
    );
    assert_eq!(failed.unwrap_err(), SessionError::HandshakeFailed);

    let mut h = ftcp_peer().accept(&node).unwrap();
    assert_eq!(h.event(SessionEvent::Timeout), Some(SessionError::TransportTimeout));
    assert_eq!(h.event(SessionEvent::ActDone), Some(SessionError::ConnectionClosed));
    let timed_out = h.into_noise_session(
        NoiseEncryptor::new(key.clone()).unwrap(),
        NoiseDecryptor::new(key).unwrap(),
    );
    assert_eq!(timed_out.unwrap_err(), SessionError::TransportTimeout);
}

#[test]
fn session_timeout_closes() {
    let key = vec![4u8; 32];
    let mut s = established(&ftcp_peer(), true)
        .into_noise_session(NoiseEncryptor::new(key.clone()).unwrap(), NoiseDecryptor::new(key).unwrap())
        .unwrap();
    assert_eq!(s.timeout(), SessionError::TransportTimeout);
    assert!(s.is_closed());
    assert_eq!(s.recv(&[0; 20]), Err(SessionError::ConnectionClosed));
    assert_eq!(s.timeout(), SessionError::ConnectionClosed);
}
