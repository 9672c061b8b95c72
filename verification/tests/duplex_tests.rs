use pipechan::{pipe_duplex, PipeSendRecv};

#[test]
fn duplex() {
    let (mut left, mut right) = pipe_duplex().unwrap();

    for n in 0..100 {
        left.send_num(n).unwrap();
        assert_eq!(right.recv_num().unwrap(), n);

        right.send_num(n).unwrap();
        assert_eq!(left.recv_num().unwrap(), n);
    }
}

#[test]
fn duplex_framed_messages() {
    let (mut left, mut right) = pipe_duplex().unwrap();

    left.send(&b"ping".to_vec()).unwrap();
    assert_eq!(right.recv().unwrap(), b"ping".to_vec());

    right.send(&b"pong".to_vec()).unwrap();
    assert_eq!(left.recv().unwrap(), b"pong".to_vec());
}

#[test]
fn duplex_directions_are_independent() {
    let (mut left, mut right) = pipe_duplex().unwrap();

    // Fill only the left-to-right direction.
    left.send_num(17).unwrap();
    left.send_num(23).unwrap();

    // The right-to-left direction carries none of it: reading it would block,
    // so a nonblocking probe reports would-block rather than data.
    left.rx.set_nonblocking().unwrap();
    let mut buf = vec![0u8; 8];
    assert!(left.rx.read(&mut buf).is_err());

    // The left-to-right direction holds exactly what was sent, in order.
    assert_eq!(right.recv_num().unwrap(), 17);
    assert_eq!(right.recv_num().unwrap(), 23);

    // And the other way round: the reply arrives only on the left side.
    right.send_num(99).unwrap();
    right.rx.set_nonblocking().unwrap();
    assert!(right.rx.read(&mut buf).is_err());
    assert_eq!(pipechan::codec::recv_i32(&mut left.rx).unwrap(), 99);
}
