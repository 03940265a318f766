use bytebuf::bytes::composite::{read_be, read_u24, write_be, write_u24};
use bytebuf::bytes::Bytes;
use bytebuf::{Buffered, Error};

fn seeded(len: usize) -> Buffered<Bytes> {
    Buffered::using(Bytes::new(vec![0u8; len]))
}

#[test]
fn u32_round_trip_and_layout() {
    let mut cursor: Buffered<Bytes> = Buffered::new();
    cursor.put_u32(0x01020304);
    assert_eq!(cursor.pos(), 4);
    assert_eq!(&cursor.bytes()[0..4], &[0x01, 0x02, 0x03, 0x04]);
    cursor.set_position(0);
    assert_eq!(cursor.get_u32(), Ok(0x01020304));
    assert_eq!(cursor.pos(), 4);
}

#[test]
fn u24_layout_and_truncation() {
    let mut cursor = seeded(8);
    cursor.put_u24(0xAABBCC);
    assert_eq!(&cursor.bytes()[0..3], &[0xAA, 0xBB, 0xCC]);
    assert_eq!(cursor.pos(), 3);
    cursor.set_position(0);
    assert_eq!(cursor.get_u24(), Ok(0xAABBCC));
    assert_eq!(cursor.pos(), 3);

    let mut cursor = seeded(8);
    cursor.put_u24(0xFFAABBCC);
    assert_eq!(&cursor.bytes()[0..3], &[0xAA, 0xBB, 0xCC]);
    cursor.set_position(0);
    assert_eq!(cursor.get_u24(), Ok(0xAABBCC));
}

#[test]
fn i8_then_eof() {
    let mut cursor = Buffered::using(Bytes::new(vec![0x0A]));
    assert_eq!(cursor.get_i8(), Ok(10));
    assert_eq!(cursor.remaining(), 0);
    assert_eq!(cursor.get_u8(), Err(Error::UnexpectedEof));
    assert_eq!(cursor.pos(), 1);
    assert_eq!(cursor.len(), 1);
}

#[test]
fn i16_extremes() {
    let mut cursor = Buffered::using(Bytes::new(vec![0x7F, 0xFF]));
    assert_eq!(cursor.get_i16(), Ok(32767));
    let mut cursor = Buffered::using(Bytes::new(vec![0x80, 0x00]));
    assert_eq!(cursor.get_i16(), Ok(-32768));
    let mut cursor = Buffered::using(Bytes::new(vec![0xFF, 0xFF]));
    assert_eq!(cursor.get_i16(), Ok(-1));
}

#[test]
fn reads_are_big_endian() {
    let data = vec![0x01, 0x02, 0x03, 0x04, 0x05, 0x06, 0x07, 0x08];
    let mut cursor = Buffered::using(Bytes::new(data.clone()));
    assert_eq!(cursor.get_u8(), Ok(0x01));
    assert_eq!(cursor.get_u16(), Ok(0x0203));
    assert_eq!(cursor.get_u24(), Ok(0x040506));
    assert_eq!(cursor.pos(), 6);
    cursor.set_position(0);
    assert_eq!(cursor.get_u32(), Ok(0x01020304));
    cursor.set_position(0);
    assert_eq!(cursor.get_u64(), Ok(0x0102030405060708));
    assert_eq!(cursor.pos(), 8);
    cursor.set_position(0);
    assert_eq!(cursor.get_i32(), Ok(0x01020304));
    cursor.set_position(0);
    assert_eq!(cursor.get_i64(), Ok(0x0102030405060708));
}

#[test]
fn signed_reads_are_twos_complement() {
    let mut cursor = Buffered::using(Bytes::new(vec![0xFF; 8]));
    assert_eq!(cursor.get_i8(), Ok(-1));
    cursor.set_position(0);
    assert_eq!(cursor.get_i32(), Ok(-1));
    cursor.set_position(0);
    assert_eq!(cursor.get_i64(), Ok(-1));
    let mut cursor = Buffered::using(Bytes::new(vec![0x80, 0, 0, 0, 0, 0, 0, 0]));
    assert_eq!(cursor.get_i8(), Ok(i8::MIN));
    cursor.set_position(0);
    assert_eq!(cursor.get_i32(), Ok(i32::MIN));
    cursor.set_position(0);
    assert_eq!(cursor.get_i64(), Ok(i64::MIN));
    let mut cursor = Buffered::using(Bytes::new(vec![0x7F, 0xFF, 0xFF, 0xFF, 0xFF, 0xFF, 0xFF, 0xFF]));
    assert_eq!(cursor.get_i8(), Ok(i8::MAX));
    cursor.set_position(0);
    assert_eq!(cursor.get_i32(), Ok(i32::MAX));
    cursor.set_position(0);
    assert_eq!(cursor.get_i64(), Ok(i64::MAX));
}

#[test]
fn writes_are_big_endian() {
    let mut cursor = seeded(32);
    cursor.put_u8(0xAB);
    cursor.put_i8(-2);
    cursor.put_u16(0x1234);
    cursor.put_i16(-2);
    cursor.put_u24(0x010203);
    cursor.put_u32(0xDEADBEEF);
    cursor.put_i32(-2);
    cursor.put_u64(0x0102030405060708);
    assert_eq!(cursor.pos(), 25);
    assert_eq!(
        &cursor.bytes()[..25],
        &[
            0xAB, 0xFE, 0x12, 0x34, 0xFF, 0xFE, 0x01, 0x02, 0x03, 0xDE, 0xAD, 0xBE, 0xEF, 0xFF,
            0xFF, 0xFF, 0xFE, 0x01, 0x02, 0x03, 0x04, 0x05, 0x06, 0x07, 0x08
        ]
    );
    assert_eq!(cursor.len(), 32);
}

#[test]
fn every_width_reads_back_what_was_written() {
    for start in [0usize, 1, 5] {
        let mut cursor = seeded(64);
        cursor.set_position(start);
        for v in [0u8, 1, 0x7F, 0x80, 0xFF] {
            let p = cursor.pos();
            cursor.put_u8(v);
            assert_eq!(cursor.pos(), p + 1);
            cursor.set_position(p);
            assert_eq!(cursor.get_u8(), Ok(v));
        }
        for v in [0i8, 1, -1, i8::MIN, i8::MAX] {
            let p = cursor.pos();
            cursor.put_i8(v);
            cursor.set_position(p);
            assert_eq!(cursor.get_i8(), Ok(v));
        }
    }
    for v in [0u16, 1, 0x00FF, 0x0100, 0x7FFF, 0x8000, u16::MAX] {
        let mut cursor = seeded(8);
        cursor.set_position(3);
        cursor.put_u16(v);
        assert_eq!(cursor.pos(), 5);
        cursor.set_position(3);
        assert_eq!(cursor.get_u16(), Ok(v));
        assert_eq!(cursor.pos(), 5);
    }
    for v in [0i16, 1, -1, 255, -256, i16::MIN, i16::MAX] {
        let mut cursor = seeded(8);
        cursor.put_i16(v);
        cursor.set_position(0);
        assert_eq!(cursor.get_i16(), Ok(v));
    }
    for v in [0u32, 1, 0xFFFF, 0x10000, 0xFFFFFF, 0x1000000, 0xFFAABBCC, u32::MAX] {
        let mut cursor = seeded(8);
        cursor.put_u24(v);
        assert_eq!(cursor.pos(), 3);
        cursor.set_position(0);
        assert_eq!(cursor.get_u24(), Ok((v & 0xFFFFFF) as usize));
        let mut cursor = seeded(8);
        cursor.put_u32(v);
        cursor.set_position(0);
        assert_eq!(cursor.get_u32(), Ok(v));
    }
    for v in [0i32, 1, -1, 65536, -65537, i32::MIN, i32::MAX] {
        let mut cursor = seeded(8);
        cursor.put_i32(v);
        assert_eq!(cursor.pos(), 4);
        cursor.set_position(0);
        assert_eq!(cursor.get_i32(), Ok(v));
    }
    for v in [0u64, 1, 0xFFFF_FFFF, 0x1_0000_0000, 0x8000_0000_0000_0000, u64::MAX] {
        let mut cursor = seeded(16);
        cursor.put_u64(v);
        assert_eq!(cursor.pos(), 8);
        cursor.set_position(0);
        assert_eq!(cursor.get_u64(), Ok(v));
        cursor.set_position(0);
        assert_eq!(cursor.get_i64(), Ok(v as i64));
    }
}

#[test]
fn short_buffers_fail_and_stay_as_they_are() {
    let mut cursor = Buffered::using(Bytes::new(vec![1, 2, 3, 4, 5, 6, 7]));
    assert_eq!(cursor.get_u64(), Err(Error::UnexpectedEof));
    assert_eq!(cursor.get_i64(), Err(Error::UnexpectedEof));
    assert_eq!((cursor.pos(), cursor.len()), (0, 7));
    cursor.set_position(4);
    assert_eq!(cursor.get_u32(), Err(Error::UnexpectedEof));
    assert_eq!(cursor.get_i32(), Err(Error::UnexpectedEof));
    assert_eq!((cursor.pos(), cursor.len()), (4, 7));
    cursor.set_position(5);
    assert_eq!(cursor.get_u24(), Err(Error::UnexpectedEof));
    assert_eq!((cursor.pos(), cursor.len()), (5, 7));
    cursor.set_position(6);
    assert_eq!(cursor.get_u16(), Err(Error::UnexpectedEof));
    assert_eq!(cursor.get_i16(), Err(Error::UnexpectedEof));
    assert_eq!((cursor.pos(), cursor.len()), (6, 7));
    cursor.set_position(7);
    assert_eq!(cursor.get_u8(), Err(Error::UnexpectedEof));
    assert_eq!(cursor.get_i8(), Err(Error::UnexpectedEof));
    assert_eq!((cursor.pos(), cursor.len()), (7, 7));
    assert_eq!(cursor.bytes(), &[1, 2, 3, 4, 5, 6, 7]);
    cursor.set_position(6);
    assert_eq!(cursor.get_u8(), Ok(7));
}

#[test]
fn a_write_that_reaches_the_end_doubles_the_buffer() {
    let mut cursor = seeded(8);
    cursor.put_u32(1);
    assert_eq!(cursor.len(), 8);
    cursor.put_u16(2);
    assert_eq!(cursor.len(), 8);
    cursor.put_u16(3);
    assert_eq!(cursor.len(), 16);
    assert_eq!(cursor.pos(), 8);
    assert_eq!(cursor.bytes(), &[0, 0, 0, 1, 0, 2, 0, 3, 0, 0, 0, 0, 0, 0, 0, 0]);
}

#[test]
fn a_write_past_the_doubled_length_grows_to_fit() {
    let mut cursor = seeded(2);
    cursor.put_u64(0x1122334455667788);
    assert_eq!(cursor.len(), 8);
    assert_eq!(cursor.pos(), 8);
    assert_eq!(cursor.bytes(), &[0x11, 0x22, 0x33, 0x44, 0x55, 0x66, 0x77, 0x88]);

    let mut cursor: Buffered<Bytes> = Buffered::new();
    cursor.put_u8(7);
    assert_eq!(cursor.bytes(), &[7]);
    cursor.put_u8(8);
    assert_eq!(cursor.bytes(), &[7, 8]);
    cursor.put_u8(9);
    assert_eq!(cursor.bytes(), &[7, 8, 9, 0]);

    let mut cursor = Buffered::using(Bytes::new(vec![1, 2]));
    cursor.set_position(5);
    cursor.put_u16(0xABCD);
    assert_eq!(cursor.bytes(), &[1, 2, 0, 0, 0, 0xAB, 0xCD]);
    assert_eq!(cursor.pos(), 7);
}

#[test]
fn a_write_overwrites_in_place() {
    let mut cursor = Buffered::using(Bytes::new(vec![9; 6]));
    cursor.set_position(1);
    cursor.put_u16(0x0102);
    assert_eq!(cursor.bytes(), &[9, 1, 2, 9, 9, 9]);
    assert_eq!(cursor.pos(), 3);
}

#[test]
fn raw_access_bypasses_the_cursor() {
    let mut cursor = seeded(4);
    cursor.put_u16(0x0102);
    cursor.bytes_mut()[3] = 0xEE;
    cursor.bytes_mut()[0] = 0xAA;
    assert_eq!(cursor.pos(), 2);
    assert_eq!(cursor.bytes(), &[0xAA, 0x02, 0x00, 0xEE]);
    cursor.set_position(0);
    assert_eq!(cursor.get_u32(), Ok(0xAA0200EE));
}

#[test]
fn u24_helpers() {
    assert_eq!(read_u24(&[0xAA, 0xBB, 0xCC]), 0xAABBCC);
    assert_eq!(read_u24(&[0, 0, 1]), 1);
    assert_eq!(read_u24(&[1, 0, 0]), 0x10000);
    assert_eq!(read_u24(&[0xFF, 0xFF, 0xFF, 0x12]), 0xFFFFFF);
    assert_eq!(write_u24(0xAABBCC), [0xAA, 0xBB, 0xCC]);
    assert_eq!(write_u24(0xFFAABBCC), [0xAA, 0xBB, 0xCC]);
    assert_eq!(write_u24(0), [0, 0, 0]);
    assert_eq!(write_u24(1), [0, 0, 1]);
    for v in [0u32, 1, 255, 256, 0xFFFFFF, 0x1000000, 0x12345678, u32::MAX] {
        assert_eq!(read_u24(&write_u24(v)), (v & 0xFFFFFF) as usize);
    }
}

#[test]
fn big_endian_helpers() {
    assert_eq!(read_be(&[]), 0);
    assert_eq!(read_be(&[0x12]), 0x12);
    assert_eq!(read_be(&[0x12, 0x34, 0x56]), 0x123456);
    assert_eq!(read_be(&[0xFF; 8]), u64::MAX);
    assert_eq!(write_be(0x123456, 0), Vec::<u8>::new());
    assert_eq!(write_be(0x123456, 1), vec![0x56]);
    assert_eq!(write_be(0x123456, 2), vec![0x34, 0x56]);
    assert_eq!(write_be(0x123456, 4), vec![0x00, 0x12, 0x34, 0x56]);
    assert_eq!(write_be(u64::MAX, 8), vec![0xFF; 8]);
    assert_eq!(write_be(1, 10), vec![0, 0, 0, 0, 0, 0, 0, 0, 0, 1]);
}
