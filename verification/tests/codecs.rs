use pigeon::codecs::var_int_size;

#[test]
fn size_examples() {
    assert_eq!(var_int_size(0), 1);
    assert_eq!(var_int_size(1), 1);
    assert_eq!(var_int_size(127), 1);
    assert_eq!(var_int_size(128), 2);
    assert_eq!(var_int_size(-1), 5);
}

use pigeon::buffer::{ByteReader, ByteWriter};
use pigeon::codecs::{read_var_int, read_var_long, write_var_int, write_var_long, var_long_size, VarIntReadError};

fn var_int_bytes(v: i32) -> Vec<u8> {
    let mut buf = ByteWriter::new();
    write_var_int(v, &mut buf).unwrap();
    buf.into_vec()
}

fn var_long_bytes(v: i64) -> Vec<u8> {
    let mut buf = ByteWriter::new();
    write_var_long(v, &mut buf).unwrap();
    buf.into_vec()
}

#[test]
fn round_trip_zero() {
    let buf = var_int_bytes(0);
    assert_eq!(buf, &[0]);
    assert_eq!(read_var_int(&mut ByteReader::new(buf)).unwrap(), 0);
}

#[test]
fn round_trip_one() {
    let buf = var_int_bytes(1);
    assert_eq!(buf, &[1]);
    assert_eq!(read_var_int(&mut ByteReader::new(buf)).unwrap(), 1);
}

#[test]
fn round_trip_127() {
    let buf = var_int_bytes(127);
    assert_eq!(buf, &[127]);
    assert_eq!(read_var_int(&mut ByteReader::new(buf)).unwrap(), 127);
}

#[test]
fn round_trip_128() {
    let buf = var_int_bytes(128);
    assert_eq!(buf, &[128, 1]);
    assert_eq!(read_var_int(&mut ByteReader::new(buf)).unwrap(), 128);
}

#[test]
fn round_trip_minus_one() {
    let buf = var_int_bytes(-1);
    assert_eq!(buf, &[255, 255, 255, 255, 15]);
    assert_eq!(read_var_int(&mut ByteReader::new(buf)).unwrap(), -1);
}

#[test]
fn round_trip_simple() {
    let buf = var_long_bytes(0);
    assert_eq!(&buf[..], &[0][..]);
    assert_eq!(read_var_long(&mut ByteReader::new(buf)).unwrap(), 0);
}

#[test]
fn round_trip_large() {
    let buf = var_long_bytes(9223372036854775807);
    assert_eq!(read_var_long(&mut ByteReader::new(buf)).unwrap(), 9223372036854775807);
}

#[test]
fn round_trip_negative() {
    let buf = var_long_bytes(-1);
    assert_eq!(read_var_long(&mut ByteReader::new(buf)).unwrap(), -1);
}

#[test]
fn var_int_read_reports_underflow_and_too_large() {
    assert_eq!(read_var_int(&mut ByteReader::new(vec![0x80])), Err(VarIntReadError::Underflow));
    assert_eq!(
        read_var_int(&mut ByteReader::new(vec![0x80, 0x80, 0x80, 0x80, 0x80, 0x01])),
        Err(VarIntReadError::TooLarge)
    );
}

#[test]
fn var_int_write_stops_when_full() {
    let mut buf = ByteWriter::with_limit(1);
    assert!(write_var_int(300, &mut buf).is_err());
    assert_eq!(buf.as_slice(), &[0xAC]);
}

#[test]
fn var_long_sizes() {
    assert_eq!(var_long_size(0), 1);
    assert_eq!(var_long_size(128), 2);
    assert_eq!(var_long_size(-1), 10);
}

#[test]
fn var_long_size_follows_seven_bit_groups() {
    for n in 1u32..10 {
        let bound: u64 = 1 << (7 * n);
        assert_eq!(var_long_size((bound - 1) as i64), n as usize);
        assert_eq!(var_long_size(bound as i64), n as usize + 1);
    }
    assert_eq!(var_long_size(i64::MAX), 9);
    assert_eq!(var_long_size(i64::MIN), 10);
}
