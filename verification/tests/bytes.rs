use draw::byte_reader::WireReader;
use draw::byte_writer::WireWriter;
use draw::error::DecodeError;
use draw::file_reader::{self, CanvasReader};
use draw::float_bits::{f32_eq, f64_eq};

#[test]
fn reader_reads_big_endian() {
    let mut r = WireReader::new(vec![0x12, 0x34, 0x56, 0x78, 0x9a, 0xbc, 0xde, 0xf0, 1, 2, 3, 4, 5, 6, 7, 8, 9]);
    assert_eq!(r.read_u16(), Ok(0x1234));
    assert_eq!(r.read_u16(), Ok(0x5678));
    assert_eq!(r.read_u32(), Ok(0x9abc_def0));
    assert_eq!(r.read_u64(), Ok(0x0102_0304_0506_0708));
    assert_eq!(r.read_u8(), Ok(9));
    assert_eq!(r.remaining(), 0);
}

#[test]
fn reader_short_read_consumes_nothing() {
    let mut r = WireReader::new(vec![1, 2, 3]);
    assert_eq!(r.read_u32(), Err(DecodeError::UnexpectedEof));
    assert_eq!(r.remaining(), 3);
    assert_eq!(r.read_u64(), Err(DecodeError::UnexpectedEof));
    assert_eq!(r.read_u16(), Ok(0x0102));
    assert_eq!(r.read(2), Err(DecodeError::UnexpectedEof));
    assert_eq!(r.remaining(), 1);
    assert_eq!(r.read(1), Ok(vec![3]));
    assert_eq!(r.read_u8(), Err(DecodeError::UnexpectedEof));
}

#[test]
fn reader_bool_is_nonzero_byte() {
    let mut r = WireReader::new(vec![0, 1, 7]);
    assert_eq!(r.read_bool(), Ok(false));
    assert_eq!(r.read_bool(), Ok(true));
    assert_eq!(r.read_bool(), Ok(true));
    assert_eq!(r.read_bool(), Err(DecodeError::UnexpectedEof));
}

#[test]
fn writer_writes_big_endian_and_reads_back() {
    let mut w = WireWriter::new();
    w.write_u8(0xab);
    w.write_u16(0x0102);
    w.write_u32(0x0304_0506);
    w.write_u64(0x0708_090a_0b0c_0d0e);
    w.write_f32_bits(1.5f32.to_bits());
    w.write_f64_bits((-2.25f64).to_bits());
    w.write(&[9, 9]);
    assert_eq!(w.len(), 1 + 2 + 4 + 8 + 4 + 8 + 2);
    let bytes = w.into_bytes();
    assert_eq!(&bytes[0..15], &[0xab, 1, 2, 3, 4, 5, 6, 7, 8, 9, 10, 11, 12, 13, 14]);
    let mut r = WireReader::new(bytes);
    assert_eq!(r.read_u8(), Ok(0xab));
    assert_eq!(r.read_u16(), Ok(0x0102));
    assert_eq!(r.read_u32(), Ok(0x0304_0506));
    assert_eq!(r.read_u64(), Ok(0x0708_090a_0b0c_0d0e));
    assert_eq!(r.read_f32_bits().map(f32::from_bits), Ok(1.5));
    assert_eq!(r.read_f64_bits().map(f64::from_bits), Ok(-2.25));
    assert_eq!(r.read(2), Ok(vec![9, 9]));
}

#[test]
fn file_reader_reads_little_endian() {
    let mut f = CanvasReader::new(vec![0x34, 0x12, 0x78, 0x56, 0x34, 0x12, 8, 7, 6, 5, 4, 3, 2, 1, 0xff]);
    assert_eq!(file_reader::read_u16(&mut f), Ok(0x1234));
    assert_eq!(file_reader::read_u32(&mut f), Ok(0x1234_5678));
    assert_eq!(file_reader::read_u64(&mut f), Ok(0x0102_0304_0506_0708));
    assert_eq!(file_reader::read_u8(&mut f), Ok(0xff));
}

#[test]
fn file_reader_floats_little_endian() {
    let mut bytes = 0.25f32.to_le_bytes().to_vec();
    bytes.extend_from_slice(&1234.5f64.to_le_bytes());
    let mut f = CanvasReader::new(bytes);
    assert_eq!(file_reader::read_f32_bits(&mut f).map(f32::from_bits), Ok(0.25));
    assert_eq!(file_reader::read_f64_bits(&mut f).map(f64::from_bits), Ok(1234.5));
}

#[test]
fn file_reader_short_read_fails() {
    let mut f = CanvasReader::new(vec![1, 2, 3]);
    assert_eq!(file_reader::read_u32(&mut f), Err(DecodeError::UnexpectedEof));
    let mut g = CanvasReader::new(vec![1, 2, 3]);
    assert_eq!(file_reader::read_u16(&mut g), Ok(0x0201));
    assert_eq!(g.remaining(), 1);
}

#[test]
fn file_reader_string_skips_header_and_stops_at_nul() {
    let mut f = CanvasReader::new(vec![42, b'h', b'i', 0, b'x']);
    assert_eq!(file_reader::read_string(&mut f), Ok(String::from("hi")));
    assert_eq!(f.remaining(), 1);
    let mut g = CanvasReader::new(vec![1, 0xff, b'a', 0]);
    assert_eq!(file_reader::read_string(&mut g), Ok(String::from("\u{fffd}a")));
    let mut h = CanvasReader::new(vec![1, 0xc3, 0xa9, 0]);
    assert_eq!(file_reader::read_string(&mut h), Ok(String::from("\u{e9}")));
}

#[test]
fn file_reader_string_without_nul_fails() {
    let mut f = CanvasReader::new(vec![0, b'a', b'b']);
    assert_eq!(file_reader::read_string(&mut f), Err(DecodeError::UnexpectedEof));
    let mut empty = CanvasReader::new(vec![]);
    assert_eq!(file_reader::read_string(&mut empty), Err(DecodeError::UnexpectedEof));
}

#[test]
fn float_equality_by_bits() {
    assert!(f64_eq(1.0f64.to_bits(), 1.0f64.to_bits()));
    assert!(!f64_eq(1.0f64.to_bits(), 2.0f64.to_bits()));
    assert!(f64_eq(0.0f64.to_bits(), (-0.0f64).to_bits()));
    assert!(!f64_eq(f64::NAN.to_bits(), f64::NAN.to_bits()));
    assert!(f32_eq(0.0f32.to_bits(), (-0.0f32).to_bits()));
    assert!(!f32_eq(f32::NAN.to_bits(), f32::NAN.to_bits()));
    assert!(f32_eq(3.5f32.to_bits(), 3.5f32.to_bits()));
    assert!(!f32_eq(3.5f32.to_bits(), (-3.5f32).to_bits()));
}
