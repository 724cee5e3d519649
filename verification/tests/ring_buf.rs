use nanolog::ring_buf::{Panic, RingBuf, Spin};

#[test]
fn test_basic_write_read() {
    let mut r = RingBuf::new(16);
    let a = [1, 2, 3];
    r.write::<Panic>(&a);
    r.commit_write();
    let mut v = vec![0; 16];
    let n = r.read_all(&mut v);
    assert_eq!(n, a.len());
    assert_eq!(&v[..n], &a);

    let a = [1; 16];
    r.write::<Panic>(&a);
    r.commit_write();
    let mut v = vec![0; 16];
    let n = r.read_all(&mut v);
    assert_eq!(n, a.len());
    assert_eq!(&v[..n], &a);
}

#[test]
fn test_empty_buffer() {
    let mut r = RingBuf::new(16);
    let mut v = vec![0; 16];
    let n = r.read_all(&mut v);
    assert_eq!(n, 0);
}

#[test]
fn test_multiple_writes_single_read() {
    let mut r = RingBuf::new(16);
    r.write::<Panic>(&[1, 2, 3]);
    r.write::<Panic>(&[4, 5]);
    r.write::<Panic>(&[6, 7, 8, 9]);
    r.commit_write();

    let mut v = vec![0; 16];
    let n = r.read_all(&mut v);
    assert_eq!(n, 9);
    assert_eq!(&v[..n], &[1, 2, 3, 4, 5, 6, 7, 8, 9]);
}

#[test]
fn test_write_read_cycles() {
    let mut r = RingBuf::new(16);

    // Write some data
    r.write::<Panic>(&[1, 2, 3]);
    r.commit_write();

    // Read it out
    let mut v = vec![0; 3];
    let n = r.read_all(&mut v);
    assert_eq!(n, 3);
    assert_eq!(&v[..n], &[1, 2, 3]);

    // Write more data
    r.write::<Panic>(&[4, 5, 6, 7]);
    r.commit_write();

    // Read it out
    let mut v = vec![0; 4];
    let n = r.read_all(&mut v);
    assert_eq!(n, 4);
    assert_eq!(&v[..n], &[4, 5, 6, 7]);

    // Verify buffer is empty
    let mut v = vec![0; 1];
    let n = r.read_all(&mut v);
    assert_eq!(n, 0);
}

#[test]
fn test_wrap_around_write() {
    let mut r = RingBuf::new(8);

    // Fill most of the buffer
    r.write::<Panic>(&[1, 2, 3, 4, 5]);
    r.commit_write();

    // Read it out
    let mut v = vec![0; 5];
    let n = r.read_all(&mut v);
    assert_eq!(n, 5);

    // Now write data that will wrap around
    r.write::<Panic>(&[10, 11, 12, 13, 14, 15]);
    r.commit_write();

    // Read it out
    let mut v = vec![0; 6];
    let n = r.read_all(&mut v);
    assert_eq!(n, 6);
    assert_eq!(&v[..n], &[10, 11, 12, 13, 14, 15]);
}

#[test]
fn test_full_buffer() {
    let mut r = RingBuf::new(4);

    // Fill the buffer completely
    r.write::<Panic>(&[1, 2, 3, 4]);
    r.commit_write();

    // Try to read it all
    let mut v = vec![0; 4];
    let n = r.read_all(&mut v);
    assert_eq!(n, 4);
    assert_eq!(&v[..n], &[1, 2, 3, 4]);

    // Fill it again
    r.write::<Panic>(&[5, 6, 7, 8]);
    r.commit_write();

    // Read it all again
    let mut v = vec![0; 4];
    let n = r.read_all(&mut v);
    assert_eq!(n, 4);
    assert_eq!(&v[..n], &[5, 6, 7, 8]);
}

#[test]
fn test_different_buffer_sizes() {
    // Test with a larger buffer size
    let mut r = RingBuf::new(32);
    let data = [0, 1, 2, 3, 4, 5, 6, 7, 8, 9];
    r.write::<Panic>(&data);
    r.commit_write();

    let mut v = vec![0; 10];
    let n = r.read_all(&mut v);
    assert_eq!(n, 10);
    assert_eq!(&v[..n], &data[..]);

    // Test with a smaller buffer size
    let mut r = RingBuf::new(4);
    let data = [0, 1, 2, 3];
    r.write::<Panic>(&data);
    r.commit_write();

    let mut v = vec![0; 4];
    let n = r.read_all(&mut v);
    assert_eq!(n, 4);
    assert_eq!(&v[..n], &data[..]);
}

#[test]
fn test_power_of_2_sizes() {
    // These should all work
    let _r1 = RingBuf::new(1);
    let _r2 = RingBuf::new(2);
    let _r4 = RingBuf::new(4);
    let _r8 = RingBuf::new(8);
    let _r16 = RingBuf::new(16);
    let _r32 = RingBuf::new(32);
    let _r64 = RingBuf::new(64);
    let _r128 = RingBuf::new(128);
    let _r256 = RingBuf::new(256);
    let _r512 = RingBuf::new(512);
    let _r1024 = RingBuf::new(1024);
}

// An empty write stages nothing and a later commit publishes nothing.
#[test]
fn empty_write_stages_nothing() {
    let mut r = RingBuf::new(8);
    r.write::<Panic>(&[]);
    r.commit_write();
    let mut v = vec![0; 8];
    assert_eq!(r.read_all(&mut v), 0);
}

// The smallest ring still transports bytes, one at a time.
#[test]
fn one_byte_ring() {
    let mut r = RingBuf::new(1);
    let mut v = vec![0; 1];
    for b in 0..5u8 {
        r.write::<Panic>(&[b]);
        r.commit_write();
        assert_eq!(r.read_all(&mut v), 1);
        assert_eq!(v[0], b);
    }
}

// A fresh ring drains to nothing and both shared counters still stand at 0.
#[test]
fn empty_drain_leaves_counters_at_zero() {
    let mut r = RingBuf::new(16);
    let mut v = vec![0; 16];
    let n = r.read_all(&mut v);
    assert_eq!(n, 0);
    assert_eq!(r.head, 0);
    assert_eq!(r.tail, 0);
}

// A record that straddles the end of the array is read back as one
// contiguous slice: after 12 consumed bytes, an 8-byte record lands as 4
// bytes at the end and 4 at the start.
#[test]
fn wrap_around_record_reassembles() {
    let mut r = RingBuf::new(16);
    r.write::<Panic>(&[9; 12]);
    r.commit_write();
    let mut v = vec![0; 16];
    assert_eq!(r.read_all(&mut v), 12);

    let record = [1, 2, 3, 4, 5, 6, 7, 8];
    r.write::<Panic>(&record);
    r.commit_write();
    let mut v = vec![0; 16];
    let n = r.read_all(&mut v);
    assert_eq!(n, 8);
    assert_eq!(&v[..n], &record);
}

// The Spin policy refreshes the producer's stale cached head: after the
// consumer drains a full ring, a further write goes through even though the
// cached head still says the ring is full.
#[test]
fn spin_refreshes_stale_writer_head() {
    let mut r = RingBuf::new(16);
    r.write::<Spin>(&[7; 16]);
    r.commit_write();
    let mut v = vec![0; 16];
    assert_eq!(r.read_all(&mut v), 16);

    // The cached writer head still points at offset 0 here; Spin re-reads
    // the shared head and finds the 4 bytes of room.
    r.write::<Spin>(&[1, 2, 3, 4]);
    r.commit_write();
    let mut v = vec![0; 16];
    let n = r.read_all(&mut v);
    assert_eq!(n, 4);
    assert_eq!(&v[..n], &[1, 2, 3, 4]);
}

// The overflow diagnostic names the producer's tail, the consumer's head
// and the attempted length; the ring is left untouched.
#[test]
fn overflow_diagnostic_names_counters() {
    let mut r = RingBuf::new(4);
    r.write::<Panic>(&[1, 2, 3]);
    match r.try_write(&[4, 5]) {
        Ok(()) => panic!("a 2-byte write into 1 free byte must be refused"),
        Err(diag) => {
            assert_eq!(diag.writer_tail, 3);
            assert_eq!(diag.head, 0);
            assert_eq!(diag.attempted, 2);
        }
    }
    // The fitting write still goes through afterwards.
    assert!(r.try_write(&[4]).is_ok());
    r.commit_write();
    let mut v = vec![0; 4];
    let n = r.read_all(&mut v);
    assert_eq!(&v[..n], &[1, 2, 3, 4]);
}
