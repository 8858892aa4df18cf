use tunnel_gateway::relay::{pump, relay_complete, DirectionState, RelayAction, RelayDirection, RelayEvent};

#[test]
fn relay_is_byte_exact_over_chunks() {
    let chunks: Vec<Vec<u8>> = vec![
        b"hello ".to_vec(),
        Vec::new(), // a zero-length write must not disturb the stream
        b"tunnel".to_vec(),
        vec![0, 255, 1, 254],
    ];
    let mut expected: Vec<u8> = Vec::new();
    for c in &chunks {
        expected.extend_from_slice(c);
    }
    assert_eq!(pump(chunks), expected);
}

#[test]
fn relay_is_byte_exact_for_megabytes() {
    // a few megabytes in uneven chunks, echoed back unmodified and in order
    let mut chunks: Vec<Vec<u8>> = Vec::new();
    let mut expected: Vec<u8> = Vec::new();
    let mut size: usize = 1;
    let mut total: usize = 0;
    let mut x: u8 = 17;
    while total < 3 * 1024 * 1024 {
        let mut c = Vec::with_capacity(size);
        for _ in 0..size {
            x = x.wrapping_mul(31).wrapping_add(7);
            c.push(x);
        }
        total += size;
        size = size * 2 + 1;
        if size > 1 << 20 {
            size = 3;
        }
        expected.extend_from_slice(&c);
        chunks.push(c);
    }
    assert_eq!(pump(chunks), expected);
}

#[test]
fn relay_of_empty_stream_is_empty() {
    assert!(pump(Vec::new()).is_empty());
    assert_eq!(pump(vec![Vec::new(), Vec::new()]), Vec::<u8>::new());
}

#[test]
fn chunks_are_forwarded_verbatim() {
    let mut d = RelayDirection::new();
    match d.on_event(RelayEvent::Data(b"abc".to_vec())) {
        RelayAction::Forward(b) => assert_eq!(b, b"abc".to_vec()),
        _ => panic!("a data chunk must be forwarded"),
    }
    assert!(matches!(d.state, DirectionState::Streaming));
}

#[test]
fn eof_half_closes_the_peer_only() {
    let mut public_to_local = RelayDirection::new();
    let mut local_to_public = RelayDirection::new();
    match public_to_local.on_event(RelayEvent::SourceEof) {
        RelayAction::HalfClosePeer => {}
        _ => panic!("end-of-stream must half-close the peer"),
    }
    assert!(matches!(
        public_to_local.state,
        DirectionState::SourceDone
    ));
    // the opposite direction still streams: the relay is not complete yet
    assert!(!relay_complete(&public_to_local, &local_to_public));
    match local_to_public.on_event(RelayEvent::SourceEof) {
        RelayAction::HalfClosePeer => {}
        _ => panic!("end-of-stream must half-close the peer"),
    }
    assert!(relay_complete(&public_to_local, &local_to_public));
}

#[test]
fn a_transfer_error_aborts_the_connection() {
    let mut d = RelayDirection::new();
    match d.on_event(RelayEvent::TransferError) {
        RelayAction::AbortConnection => {}
        _ => panic!("an error must abort the connection"),
    }
    assert!(matches!(d.state, DirectionState::Failed));
    let other = RelayDirection::new();
    assert!(!relay_complete(&d, &other));
}
