use pipechan::codec::{
    decode_u32, decode_u64, encode_u32, encode_u64, recv_bytes, recv_i32, recv_span, send_bytes,
    send_i32, send_span, TimeSpan,
};
use pipechan::PipeError;

#[test]
fn send_recv() {
    let (mut read, mut write) = pipechan::pipe().unwrap();
    for n in 0..100 {
        let span = TimeSpan::from_secs(n);
        send_span(&mut write, &span).unwrap();
        assert_eq!(recv_span(&mut read).unwrap(), span);
    }
}

#[test]
fn little_endian_layout() {
    assert_eq!(encode_u32(1), vec![1, 0, 0, 0]);
    assert_eq!(encode_u32(0x0a0b0c0d), vec![0x0d, 0x0c, 0x0b, 0x0a]);
    assert_eq!(
        encode_u64(0x0102030405060708),
        vec![8, 7, 6, 5, 4, 3, 2, 1]
    );
    assert_eq!(encode_u64(0), vec![0; 8]);
}

#[test]
fn number_round_trip() {
    for v in [0u32, 1, 0xff, 0x1234_5678, u32::MAX] {
        assert_eq!(decode_u32(&encode_u32(v)), v);
    }
    for v in [0u64, 1, 0xff00ff00ff00ff, u64::MAX] {
        assert_eq!(decode_u64(&encode_u64(v)), v);
    }
}

#[test]
fn round_trip_in_order() {
    let (mut read, mut write) = pipechan::pipe().unwrap();

    let messages: Vec<Vec<u8>> = vec![
        b"first".to_vec(),
        Vec::new(),
        b"third message, a bit longer".to_vec(),
        vec![0, 255, 128],
    ];
    for m in &messages {
        send_bytes(&mut write, m).unwrap();
    }
    for m in &messages {
        assert_eq!(recv_bytes(&mut read).unwrap(), *m);
    }

    for n in [-3i32, -1, 0, 1, 65535, i32::MAX, i32::MIN] {
        send_i32(&mut write, n).unwrap();
    }
    for n in [-3i32, -1, 0, 1, 65535, i32::MAX, i32::MIN] {
        assert_eq!(recv_i32(&mut read).unwrap(), n);
    }
}

#[test]
fn wire_format_matches_canonical_binary_encoding() {
    let (mut read, mut write) = pipechan::pipe().unwrap();

    // A framed byte message is laid out exactly as the canonical
    // self-describing encoding of a byte container.
    let payload = vec![1u8, 2, 3];
    send_bytes(&mut write, &payload).unwrap();
    let on_wire = read.read_exact(8 + 3).unwrap();
    assert_eq!(on_wire, bincode::serialize(&payload).unwrap());

    // A signed number is its four little-endian bytes.
    send_i32(&mut write, -2).unwrap();
    let on_wire = read.read_exact(4).unwrap();
    assert_eq!(on_wire, bincode::serialize(&-2i32).unwrap());

    // A time span is seconds then leftover nanoseconds.
    let span = TimeSpan { secs: 7, nanos: 125 };
    send_span(&mut write, &span).unwrap();
    let on_wire = read.read_exact(12).unwrap();
    assert_eq!(
        on_wire,
        bincode::serialize(&std::time::Duration::new(7, 125)).unwrap()
    );
}

#[test]
fn incomplete_message_is_an_error() {
    let (mut read, mut write) = pipechan::pipe().unwrap();

    // Only part of a frame header arrives before the stream ends.
    write.write_all(&vec![5, 0]).unwrap();
    drop(write);

    assert_eq!(recv_bytes(&mut read), Err(PipeError::Incomplete));
}

#[test]
fn truncated_payload_is_an_error() {
    let (mut read, mut write) = pipechan::pipe().unwrap();

    // A full header promising five bytes, but only two arrive.
    write.write_all(&vec![5, 0, 0, 0, 0, 0, 0, 0, 104, 105]).unwrap();
    drop(write);

    assert_eq!(recv_bytes(&mut read), Err(PipeError::Incomplete));
}

#[test]
fn malformed_span_is_an_error() {
    let (mut read, mut write) = pipechan::pipe().unwrap();

    let mut bytes = encode_u64(3);
    bytes.extend_from_slice(&encode_u32(2_000_000_000));
    write.write_all(&bytes).unwrap();

    assert_eq!(recv_span(&mut read), Err(PipeError::Malformed));
}

#[test]
fn span_of_whole_seconds() {
    let span = TimeSpan::from_secs(42);
    assert_eq!(span.secs, 42);
    assert_eq!(span.nanos, 0);
}
