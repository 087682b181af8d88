use dsv::client::{GdbClient, OpOutcome};
use dsv::client::{decode_u16_le, decode_u32_le, gamecode_command, monitor_reply_text};
use dsv::error::GdbError;
use dsv::hex::hex_encode;
use dsv::packet::encode_frame;
use dsv::stream::Step;

/// Connects a client to an imaginary healthy peer: the handshake
/// acknowledgments are exchanged and the outbox is drained.
fn connected_client(packet_size: Option<u32>) -> GdbClient {
    let mut c = GdbClient::new();
    c.connect();
    let out = c.take_outbox();
    assert_eq!(out, b"+".to_vec());
    c.feed(b"+");
    match c.receive_handshake_ack() {
        Ok(Step::Ready(())) => {}
        _ => panic!("handshake failed"),
    }
    c.set_packet_size(packet_size);
    c
}

/// Drives the operation in flight against a scripted peer: whenever the
/// engine emits a request frame, the next scripted reply is fed back,
/// preceded by the peer's acknowledgment. Returns the operation outcome
/// and the request payloads the peer saw.
fn run_op(c: &mut GdbClient, replies: &[&[u8]]) -> (Result<OpOutcome, GdbError>, Vec<Vec<u8>>) {
    let mut requests: Vec<Vec<u8>> = Vec::new();
    let mut next_reply = 0usize;
    for _round in 0..1000 {
        let out = c.take_outbox();
        let mut rest = &out[..];
        while !rest.is_empty() {
            if rest[0] == b'+' {
                rest = &rest[1..];
                continue;
            }
            assert_eq!(rest[0], b'$', "unexpected outbox byte");
            let hash = rest.iter().position(|&b| b == b'#').expect("unterminated frame");
            requests.push(rest[1..hash].to_vec());
            rest = &rest[hash + 3..];
            // The peer acknowledges the request, and answers it if the
            // command expects a reply.
            c.feed(b"+");
            if next_reply < replies.len() {
                let frame = encode_frame(replies[next_reply]);
                next_reply += 1;
                c.feed(&frame);
            }
        }
        match c.advance() {
            Ok(Step::Pending) => continue,
            Ok(Step::Ready(outcome)) => return (Ok(outcome), requests),
            Err(e) => return (Err(e), requests),
        }
    }
    panic!("operation did not settle");
}

#[test]
fn chunked_read_three_exchanges() {
    // With a negotiated maximum usable payload of 4 bytes per exchange
    // (packet size 12, minus framing, halved for hex), reading 10 bytes
    // from 0x2000 issues exactly three exchanges of lengths 4, 4, 2 at
    // addresses 0x2000, 0x2004, 0x2008.
    let mut c = connected_client(Some(12));
    c.start_read(0x2000, 10).unwrap();
    let r1 = hex_encode(&[1, 2, 3, 4]);
    let r2 = hex_encode(&[5, 6, 7, 8]);
    let r3 = hex_encode(&[9, 10]);
    let (outcome, requests) = run_op(&mut c, &[&r1, &r2, &r3]);
    assert_eq!(
        requests,
        vec![b"m 2000,4".to_vec(), b"m 2004,4".to_vec(), b"m 2008,2".to_vec()]
    );
    match outcome.unwrap() {
        OpOutcome::Bytes(b) => assert_eq!(b, vec![1, 2, 3, 4, 5, 6, 7, 8, 9, 10]),
        _ => panic!("expected bytes"),
    }
}

#[test]
fn unbounded_read_single_exchange() {
    // When no maximum has been negotiated, chunking is unbounded.
    let mut c = connected_client(None);
    c.start_read(0x1000, 6).unwrap();
    let r = hex_encode(&[9, 8, 7, 6, 5, 4]);
    let (outcome, requests) = run_op(&mut c, &[&r]);
    assert_eq!(requests, vec![b"m 1000,6".to_vec()]);
    match outcome.unwrap() {
        OpOutcome::Bytes(b) => assert_eq!(b, vec![9, 8, 7, 6, 5, 4]),
        _ => panic!("expected bytes"),
    }
}

#[test]
fn zero_length_read_issues_no_exchange() {
    // A transfer of zero bytes issues zero exchanges.
    let mut c = connected_client(Some(12));
    c.start_read(0x2000, 0).unwrap();
    let (outcome, requests) = run_op(&mut c, &[]);
    assert_eq!(requests, Vec::<Vec<u8>>::new());
    match outcome.unwrap() {
        OpOutcome::Bytes(b) => assert_eq!(b, Vec::<u8>::new()),
        _ => panic!("expected empty bytes"),
    }
}

#[test]
fn write_then_read_returns_server_bytes() {
    // Scenario: a stub replies "OK" to any write and returns eight
    // literal bytes for a read of address 0x1000 length 8. Writing 4
    // bytes then reading 8 returns exactly the stub's bytes.
    let literal: [u8; 8] = [0x11, 0x22, 0x33, 0x44, 0x55, 0x66, 0x77, 0x88];
    let mut c = connected_client(None);

    c.start_write(0x1000, &[0xde, 0xad, 0xbe, 0xef]).unwrap();
    let (outcome, requests) = run_op(&mut c, &[b"OK"]);
    assert!(matches!(outcome.unwrap(), OpOutcome::Done));
    assert_eq!(requests, vec![b"M 1000,4:deadbeef".to_vec()]);

    let reply = hex_encode(&literal);
    c.start_read(0x1000, 8).unwrap();
    let (outcome, requests) = run_op(&mut c, &[&reply]);
    assert_eq!(requests, vec![b"m 1000,8".to_vec()]);
    match outcome.unwrap() {
        OpOutcome::Bytes(b) => assert_eq!(b, literal.to_vec()),
        _ => panic!("expected bytes"),
    }
}

#[test]
fn chunked_write_applies_read_bound() {
    // The per-exchange bound applies to writes as it does to reads.
    let mut c = connected_client(Some(12));
    c.start_write(0x3000, &[1, 2, 3, 4, 5, 6]).unwrap();
    let (outcome, requests) = run_op(&mut c, &[b"OK", b"OK"]);
    assert!(matches!(outcome.unwrap(), OpOutcome::Done));
    assert_eq!(
        requests,
        vec![b"M 3000,4:01020304".to_vec(), b"M 3004,2:0506".to_vec()]
    );
}

#[test]
fn continue_has_no_reply() {
    let mut c = connected_client(None);
    c.start_continue().unwrap();
    let (outcome, requests) = run_op(&mut c, &[]);
    assert!(matches!(outcome.unwrap(), OpOutcome::Done));
    assert_eq!(requests, vec![b"c".to_vec()]);
}

#[test]
fn stop_awaits_reply() {
    let mut c = connected_client(None);
    c.start_stop().unwrap();
    let (outcome, requests) = run_op(&mut c, &[b"S05"]);
    assert!(matches!(outcome.unwrap(), OpOutcome::Done));
    assert_eq!(requests, vec![b"s".to_vec()]);
}

#[test]
fn monitor_command_round_trip() {
    let mut c = connected_client(None);
    let cmd = gamecode_command();
    assert_eq!(cmd, b"gamecode".to_vec());
    c.start_monitor(&cmd).unwrap();
    let reply = hex_encode(b"AZEE");
    let (outcome, requests) = run_op(&mut c, &[&reply]);
    assert_eq!(requests, vec![b"qRcmd,67616d65636f6465".to_vec()]);
    match outcome.unwrap() {
        OpOutcome::Bytes(b) => {
            let text = monitor_reply_text(b).unwrap();
            assert_eq!(text, "AZEE");
        }
        _ => panic!("expected bytes"),
    }
}

#[test]
fn monitor_reply_invalid_text_fails() {
    let e = monitor_reply_text(vec![0xff, 0xfe]).unwrap_err();
    assert!(matches!(e, GdbError::TextDecodeError));
}

#[test]
fn error_reply_aborts_operation() {
    // A reply beginning with the error marker aborts the whole operation
    // and surfaces the raw payload.
    let mut c = connected_client(None);
    c.start_read(0x1000, 4).unwrap();
    let (outcome, _requests) = run_op(&mut c, &[b"E03"]);
    match outcome.unwrap_err() {
        GdbError::ServerError(p) => assert_eq!(p, b"E03".to_vec()),
        _ => panic!("expected a server error"),
    }
    // The connection survives a server error; only the operation dies.
    assert!(c.is_connected());
}

#[test]
fn short_reply_is_length_mismatch() {
    let mut c = connected_client(None);
    c.start_read(0x1000, 4).unwrap();
    let reply = hex_encode(&[1, 2]);
    let (outcome, _requests) = run_op(&mut c, &[&reply]);
    assert!(matches!(outcome.unwrap_err(), GdbError::LengthMismatch));
}

#[test]
fn read_on_disconnected_client_fails() {
    let mut c = GdbClient::new();
    assert!(matches!(c.start_read(0, 4), Err(GdbError::NotConnected)));
}

#[test]
fn request_addresses_format_as_lowercase_hex() {
    let mut c = connected_client(None);
    c.start_read(0xdead, 0xab).unwrap();
    let reply = hex_encode(&vec![0x5a; 0xab]);
    let (outcome, requests) = run_op(&mut c, &[&reply]);
    assert_eq!(requests, vec![b"m dead,ab".to_vec()]);
    match outcome.unwrap() {
        OpOutcome::Bytes(b) => assert_eq!(b, vec![0x5a; 0xab]),
        _ => panic!("expected bytes"),
    }
}

#[test]
fn little_endian_decoding() {
    assert_eq!(decode_u16_le(&[0x34, 0x12]).unwrap(), 0x1234);
    assert_eq!(decode_u32_le(&[0x78, 0x56, 0x34, 0x12]).unwrap(), 0x12345678);
    assert!(matches!(decode_u16_le(&[1]), Err(GdbError::LengthMismatch)));
    assert!(matches!(decode_u32_le(&[1, 2, 3]), Err(GdbError::LengthMismatch)));
}
