use digger::{DiggerError, Reader, Writer};

#[test]
fn writer_is_big_endian() {
    let mut w = Writer::new(7);
    w.write_u8(0xAB).unwrap();
    w.write_u16(0x1234).unwrap();
    w.write_u32(0xDEADBEEF).unwrap();
    assert_eq!(w.into_bytes(), vec![0xAB, 0x12, 0x34, 0xDE, 0xAD, 0xBE, 0xEF]);
}

#[test]
fn writer_overflow_leaves_bytes() {
    let mut w = Writer::new(3);
    w.write_u16(1).unwrap();
    assert_eq!(w.write_u16(2), Err(DiggerError::BufferOverflow));
    assert_eq!(w.write_u32(2), Err(DiggerError::BufferOverflow));
    assert_eq!(w.write_bytes(&[1, 2]), Err(DiggerError::BufferOverflow));
    assert_eq!(w.len(), 2);
    w.write_u8(9).unwrap();
    assert_eq!(w.write_u8(9), Err(DiggerError::BufferOverflow));
    assert_eq!(w.into_bytes(), vec![0, 1, 9]);
}

#[test]
fn reader_is_big_endian() {
    let buf = [0xAB, 0x12, 0x34, 0xDE, 0xAD, 0xBE, 0xEF, 0x01, 0x02];
    let mut rd = Reader::at(&buf, 0);
    assert_eq!(rd.read_u8(), Ok(0xAB));
    assert_eq!(rd.read_u16(), Ok(0x1234));
    assert_eq!(rd.read_u32(), Ok(0xDEADBEEF));
    assert_eq!(rd.peek_at(1), Ok(0x12));
    assert_eq!(rd.position(), 7);
    assert_eq!(rd.read_bytes(2), Ok(vec![0x01, 0x02]));
    assert_eq!(rd.remaining(), 0);
}

#[test]
fn reader_truncation_does_not_move() {
    let buf = [0x01, 0x02, 0x03];
    let mut rd = Reader::at(&buf, 1);
    assert_eq!(rd.read_u32(), Err(DiggerError::TruncatedMessage));
    assert_eq!(rd.read_bytes(3), Err(DiggerError::TruncatedMessage));
    assert_eq!(rd.position(), 1);
    assert_eq!(rd.read_u16(), Ok(0x0203));
    assert_eq!(rd.read_u8(), Err(DiggerError::TruncatedMessage));
    assert_eq!(rd.peek_at(3), Err(DiggerError::TruncatedMessage));
}
