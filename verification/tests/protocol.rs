use dsv::error::GdbError;
use dsv::hex::{hex_decode, hex_decode_even, hex_encode};
use dsv::packet::encode_frame;
use dsv::stream::{GdbStream, Step};

fn connected_stream() -> GdbStream {
    let mut s = GdbStream::new();
    s.connect();
    // Discard the initial acknowledgment and answer it.
    let out = s.take_outbox();
    assert_eq!(out, b"+".to_vec());
    s.feed(b"+");
    match s.receive_ack() {
        Ok(Step::Ready(())) => {}
        _ => panic!("handshake failed"),
    }
    s
}

#[test]
fn frame_encoding_shape() {
    let frame = encode_frame(b"m 1000,8");
    assert_eq!(frame[0], b'$');
    assert_eq!(frame[frame.len() - 3], b'#');
    // checksum of "m 1000,8" = sum of bytes mod 256
    let sum: u8 = b"m 1000,8".iter().fold(0u8, |a, &b| a.wrapping_add(b));
    let digits = format!("{:02x}", sum).into_bytes();
    assert_eq!(&frame[frame.len() - 2..], &digits[..]);
    assert_eq!(&frame[1..frame.len() - 3], b"m 1000,8");
}

#[test]
fn checksum_round_trip() {
    // Decoding an encoded packet of any payload returns that payload.
    for payload in [&b""[..], &b"OK"[..], &b"deadbeef"[..], &b"E01"[..], &[0u8, 1, 2, 255][..]] {
        let mut s = connected_stream();
        let frame = encode_frame(payload);
        s.feed(&frame);
        match s.receive_packet() {
            Ok(Step::Ready(p)) => assert_eq!(p, payload.to_vec()),
            _ => panic!("expected a complete packet"),
        }
        assert!(s.is_connected());
    }
}

#[test]
fn corrupt_checksum_digit_fails() {
    // Corrupting either checksum digit forces a checksum mismatch and
    // tears the connection down.
    for digit in [1usize, 2] {
        let mut s = connected_stream();
        let mut frame = encode_frame(b"hello");
        let j = frame.len() - digit;
        frame[j] = if frame[j] == b'0' { b'1' } else { b'0' };
        s.feed(&frame);
        match s.receive_packet() {
            Err(GdbError::ChecksumMismatch) => {}
            _ => panic!("expected a checksum mismatch"),
        }
        assert!(!s.is_connected());
    }
}

#[test]
fn partial_frame_is_pending() {
    let mut s = connected_stream();
    let frame = encode_frame(b"abc");
    s.feed(&frame[..3]);
    match s.receive_packet() {
        Ok(Step::Pending) => {}
        _ => panic!("expected pending on a partial frame"),
    }
    s.feed(&frame[3..]);
    match s.receive_packet() {
        Ok(Step::Ready(p)) => assert_eq!(p, b"abc".to_vec()),
        _ => panic!("expected the completed frame"),
    }
}

#[test]
fn bad_start_marker_disconnects_and_reconnect_succeeds() {
    // A reply not beginning with the start marker forces disconnection.
    let mut s = connected_stream();
    s.feed(b"xyz");
    match s.receive_packet() {
        Err(GdbError::ProtocolViolation) => {}
        _ => panic!("expected a protocol violation"),
    }
    assert!(!s.is_connected());
    // A subsequent reconnect against a healthy peer succeeds.
    s.connect();
    let out = s.take_outbox();
    assert_eq!(out, b"+".to_vec());
    s.feed(b"+");
    match s.receive_ack() {
        Ok(Step::Ready(())) => {}
        _ => panic!("reconnect handshake failed"),
    }
    assert!(s.is_connected());
    let frame = encode_frame(b"OK");
    s.feed(&frame);
    match s.receive_packet() {
        Ok(Step::Ready(p)) => assert_eq!(p, b"OK".to_vec()),
        _ => panic!("expected a packet after reconnect"),
    }
}

#[test]
fn bad_ack_byte_disconnects() {
    let mut s = connected_stream();
    s.feed(b"-");
    match s.receive_ack() {
        Err(GdbError::ProtocolViolation) => {}
        _ => panic!("expected a protocol violation on a negative ack"),
    }
    assert!(!s.is_connected());
}

#[test]
fn not_connected_errors() {
    let mut s = GdbStream::new();
    assert!(matches!(s.send_packet(b"c"), Err(GdbError::NotConnected)));
    assert!(matches!(s.send_ack(), Err(GdbError::NotConnected)));
    assert!(matches!(s.receive_ack(), Err(GdbError::NotConnected)));
    assert!(matches!(s.receive_packet(), Err(GdbError::NotConnected)));
}

#[test]
fn peer_close_is_fatal() {
    let mut s = connected_stream();
    let e = s.peer_closed();
    assert!(matches!(e, GdbError::IoFailure));
    assert!(!s.is_connected());
}

#[test]
fn receive_ok_accepts_only_ok() {
    let mut s = connected_stream();
    s.feed(&encode_frame(b"OK"));
    assert!(matches!(s.receive_ok(), Ok(Step::Ready(()))));
    assert!(s.is_connected());

    let mut s2 = connected_stream();
    s2.feed(&encode_frame(b"NO"));
    assert!(matches!(s2.receive_ok(), Err(GdbError::ProtocolViolation)));
    assert!(!s2.is_connected());
}

#[test]
fn hex_codec_round_trip() {
    // Decoding the encoding of any byte string returns that byte string.
    for bytes in [&[][..], &[0u8][..], &[0xde, 0xad, 0xbe, 0xef][..], &[0, 127, 128, 255][..]] {
        let encoded = hex_encode(bytes);
        let decoded = hex_decode(&encoded, bytes.len()).unwrap();
        assert_eq!(decoded, bytes.to_vec());
    }
    assert_eq!(hex_encode(&[0xde, 0xad]), b"dead".to_vec());
}

#[test]
fn hex_decode_wrong_length_fails() {
    // Decoding fails with a length error when the input length is not
    // exactly twice the expected byte count.
    assert!(matches!(hex_decode(b"abc", 2), Err(GdbError::LengthMismatch)));
    assert!(matches!(hex_decode(b"abcd", 3), Err(GdbError::LengthMismatch)));
    assert!(matches!(hex_decode(b"", 1), Err(GdbError::LengthMismatch)));
    assert!(matches!(hex_decode_even(b"abc"), Err(GdbError::LengthMismatch)));
    assert_eq!(hex_decode_even(b"0a0b").unwrap(), vec![0x0a, 0x0b]);
}

#[test]
fn hex_decode_uppercase_digits() {
    assert_eq!(hex_decode(b"DEAD", 2).unwrap(), vec![0xde, 0xad]);
}
