//! The capped byte buffer.

use ws::CappedBuffer;

#[test]
fn shift() {
    let mut buffer = CappedBuffer::new(10, 20);

    buffer.write_all(b"Hello World").unwrap();
    buffer.shift(6);

    assert_eq!(buffer.as_vec().as_slice(), b"World");
    assert_eq!(buffer.remaining(), 15);
}

#[test]
fn shift_zero() {
    let mut buffer = CappedBuffer::new(10, 20);

    buffer.write_all(b"Hello World").unwrap();
    buffer.shift(0);

    assert_eq!(buffer.as_vec().as_slice(), b"Hello World");
    assert_eq!(buffer.remaining(), 9);
}

#[test]
fn shift_all() {
    let mut buffer = CappedBuffer::new(10, 20);

    buffer.write_all(b"Hello World").unwrap();
    buffer.shift(11);

    assert_eq!(buffer.as_vec().as_slice(), b"");
    assert_eq!(buffer.remaining(), 20);
}

#[test]
fn shift_capacity() {
    let mut buffer = CappedBuffer::new(10, 20);

    buffer.write_all(b"Hello World").unwrap();
    buffer.shift(20);

    assert_eq!(buffer.as_vec().as_slice(), b"");
    assert_eq!(buffer.remaining(), 20);
}

#[test]
fn shift_over_capacity() {
    let mut buffer = CappedBuffer::new(10, 20);

    buffer.write_all(b"Hello World").unwrap();
    buffer.shift(50);

    assert_eq!(buffer.as_vec().as_slice(), b"");
    assert_eq!(buffer.remaining(), 20);
}

#[test]
fn write_partial_at_cap() {
    let mut buffer = CappedBuffer::new(4, 8);
    let n = buffer.write(b"0123456789");
    assert_eq!(n, 8);
    assert_eq!(buffer.as_vec().as_slice(), b"01234567");
    assert_eq!(buffer.remaining(), 0);
    assert!(buffer.write_all(b"x").is_err());
    assert_eq!(buffer.as_vec().as_slice(), b"01234567");
}
