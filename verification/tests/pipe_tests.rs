use pipechan::PipeError;

#[test]
fn smoke() {
    let (mut read, mut write) = pipechan::pipe().unwrap();

    write.write(&b"Hello".to_vec()).unwrap();

    let buf = read.read_exact(5).unwrap();

    assert_eq!(buf, b"Hello".to_vec());
}

#[test]
fn close() {
    let (mut read, mut write) = pipechan::pipe().unwrap();

    write.write(&b"Hello".to_vec()).unwrap();
    drop(write);

    let mut collected: Vec<u8> = Vec::new();
    loop {
        let mut buf = vec![0u8; 16];
        let n = read.read(&mut buf).unwrap();
        if n == 0 {
            break;
        }
        collected.extend_from_slice(&buf[..n]);
    }

    assert_eq!(String::from_utf8(collected).unwrap(), "Hello");
}

#[test]
#[should_panic]
fn drop_writer() {
    let (mut read, write) = pipechan::pipe().unwrap();
    drop(write);
    pipechan::codec::recv_i32(&mut read).expect("Failed to receive");
}

#[test]
#[should_panic]
fn drop_reader() {
    let (read, mut write) = pipechan::pipe().unwrap();
    drop(read);
    pipechan::codec::send_i32(&mut write, 0).expect("Failed to receive");
}

#[test]
fn end_of_stream_is_zero_not_error() {
    let (mut read, mut write) = pipechan::pipe().unwrap();

    write.write_all(&b"Hello".to_vec()).unwrap();
    drop(write);

    let first = read.read_exact(5).unwrap();
    assert_eq!(first, b"Hello".to_vec());

    let mut buf = vec![0u8; 8];
    assert_eq!(read.read(&mut buf).unwrap(), 0);
    assert_eq!(read.read(&mut buf).unwrap(), 0);
}

#[test]
fn broken_channel_write_fails() {
    let (read, mut write) = pipechan::pipe().unwrap();
    drop(read);

    let r = write.write(&b"orphan".to_vec());
    assert!(matches!(r, Err(PipeError::Os(_))));
}

#[test]
fn nonblocking_read_reports_would_block() {
    let (mut read, write) = pipechan::pipe().unwrap();
    read.set_nonblocking().unwrap();

    let mut buf = vec![0u8; 4];
    let r = read.read(&mut buf);
    assert!(matches!(r, Err(PipeError::Os(_))));

    drop(write);
}

#[test]
fn write_all_then_exact_read() {
    let (mut read, mut write) = pipechan::pipe().unwrap();

    let payload: Vec<u8> = (0u8..=99).collect();
    write.write_all(&payload).unwrap();
    write.flush().ok();

    let got = read.read_exact(100).unwrap();
    assert_eq!(got, payload);
}

#[test]
fn ordered_byte_sequence_reproduced_exactly() {
    let (mut read, mut write) = pipechan::pipe().unwrap();

    // Big-endian encodings of a counting sequence, written batch by batch
    // (each batch fits the kernel buffer) and read back with exact-size
    // reads: no gaps, no duplicates, no reordering.
    for batch in 0..64u32 {
        for n in batch * 1024..(batch + 1) * 1024 {
            write.write_all(&n.to_be_bytes().to_vec()).unwrap();
        }
        for n in batch * 1024..(batch + 1) * 1024 {
            let got = read.read_exact(4).unwrap();
            assert_eq!(got, n.to_be_bytes().to_vec());
        }
    }
}

#[test]
fn raw_descriptor_escape_keeps_channel_open() {
    let (mut read, write) = pipechan::pipe().unwrap();

    let wfd = write.as_raw_fd();
    let raw = write.into_raw_fd();
    assert_eq!(raw, wfd);

    // The write end escaped without being closed, so the read end must not
    // see end-of-stream: a nonblocking read reports would-block instead.
    read.set_nonblocking().unwrap();
    let mut buf = vec![0u8; 1];
    assert!(matches!(read.read(&mut buf), Err(PipeError::Os(_))));

    // Close the escaped descriptor so the channel does not leak.
    let _ = nix::unistd::close(raw);
}
