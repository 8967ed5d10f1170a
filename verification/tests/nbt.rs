use pigeon::buffer::{ByteReader, ByteWriter};
use pigeon::nbt::decode::{NbtDecodeError, NbtReader};
use pigeon::nbt::encode::NbtWriter;
use pigeon::nbt::{Nbt, NbtCompound, NbtList, NbtTag, NbtValue};

fn sample() -> Nbt {
    let mut inner = NbtCompound::new();
    inner.insert("x".to_string(), NbtValue::Int(-7));
    let mut list = NbtList::new(NbtTag::Short);
    list.push(NbtValue::Short(3));
    list.push(NbtValue::Short(-4));
    let mut root = NbtCompound::new();
    root.insert("byte".to_string(), NbtValue::Byte(-1));
    root.insert("long".to_string(), NbtValue::Long(1 << 40));
    root.insert("name".to_string(), NbtValue::String("p\u{0}g\u{1F426}".to_string()));
    root.insert("bytes".to_string(), NbtValue::ByteArray(vec![1, -2, 3]));
    root.insert("ints".to_string(), NbtValue::IntArray(vec![i32::MIN, 0, i32::MAX]));
    root.insert("longs".to_string(), NbtValue::LongArray(vec![-1, 2]));
    root.insert("list".to_string(), NbtValue::List(list));
    root.insert("inner".to_string(), NbtValue::Compound(inner));
    root.insert("float".to_string(), NbtValue::Float(1.5f32.to_bits()));
    Nbt::new("level".to_string(), root)
}

#[test]
fn plain_root_name_is_written_as_its_utf8_bytes() {
    let nbt = Nbt::new("héllo".to_string(), NbtCompound::new());
    let mut buf = ByteWriter::new();
    NbtWriter::new().write_root(&mut buf, &nbt).unwrap();
    let mut expected = vec![10u8, 0, 6];
    expected.extend_from_slice("héllo".as_bytes());
    expected.push(0);
    assert_eq!(buf.into_vec(), expected);
}

#[test]
fn nbt_root_round_trips() {
    let nbt = sample();
    let mut buf = ByteWriter::new();
    NbtWriter::new().write_root(&mut buf, &nbt).unwrap();
    let bytes = buf.into_vec();
    let mut reader = ByteReader::new(bytes.clone());
    let back = NbtReader::new().read_root(&mut reader).unwrap();
    assert!(!reader.has_remaining());
    assert_eq!(back.name, "level");
    let mut again = ByteWriter::new();
    NbtWriter::new().write_root(&mut again, &back).unwrap();
    assert_eq!(again.into_vec(), bytes);
}

#[test]
fn nbt_insert_replaces_in_place() {
    let mut c = NbtCompound::new();
    c.insert("a".to_string(), NbtValue::Byte(1));
    c.insert("b".to_string(), NbtValue::Byte(2));
    c.insert("a".to_string(), NbtValue::Byte(3));
    assert_eq!(c.len(), 2);
    assert_eq!(c.keys(), vec!["a".to_string(), "b".to_string()]);
    assert!(matches!(c.get("a"), Some(NbtValue::Byte(3))));
}

#[test]
fn nbt_root_layout() {
    let mut buf = ByteWriter::new();
    NbtWriter::new().write_named_root(&mut buf, "", &NbtCompound::new()).unwrap();
    assert_eq!(buf.as_slice(), &[10, 0, 0, 0]);
}

#[test]
fn nbt_decode_errors() {
    assert_eq!(NbtReader::new().read_root(&mut ByteReader::new(vec![])).unwrap_err(), NbtDecodeError::Eof);
    assert_eq!(
        NbtReader::new().read_root(&mut ByteReader::new(vec![0])).unwrap_err(),
        NbtDecodeError::InvalidTagId(0)
    );
    assert_eq!(
        NbtReader::new().read_root(&mut ByteReader::new(vec![99])).unwrap_err(),
        NbtDecodeError::InvalidTagId(99)
    );
    assert_eq!(
        NbtReader::new().read_root(&mut ByteReader::new(vec![1, 0, 0, 5])).unwrap_err(),
        NbtDecodeError::InvalidTagId(1)
    );
    assert_eq!(
        NbtReader::new().read_root(&mut ByteReader::new(vec![10, 0, 1, 0xFF, 0])).unwrap_err(),
        NbtDecodeError::InvalidUtf8
    );
    assert_eq!(
        NbtReader::new().read_root(&mut ByteReader::new(vec![10, 0, 0, 9, 0, 0, 77, 0, 0, 0, 0, 0])).unwrap_err(),
        NbtDecodeError::InvalidListType(77)
    );
}

#[test]
fn nbt_depth_is_limited() {
    let mut bytes = vec![10, 0, 0];
    for _ in 0..600 {
        bytes.extend_from_slice(&[10, 0, 0]);
    }
    assert_eq!(
        NbtReader::new().read_root(&mut ByteReader::new(bytes)).unwrap_err(),
        NbtDecodeError::DepthExceeded
    );
}

#[test]
fn nbt_write_overflows() {
    let mut buf = ByteWriter::with_limit(3);
    assert!(NbtWriter::new().write_root(&mut buf, &sample()).is_err());
}

#[test]
fn modified_utf8_round_trips() {
    let text = "a\u{0}\u{1F426}";
    let mut w = ByteWriter::new();
    NbtWriter::new().write_payload(&mut w, &NbtValue::String(text.to_string())).unwrap();
    let bytes = w.into_vec();
    // Two length bytes, then `a`, NUL as C0 80, and the bird as a
    // six-byte surrogate pair.
    assert_eq!(bytes.len(), 2 + 1 + 2 + 6);
    assert_eq!(&bytes[..5], &[0, 9, b'a', 0xC0, 0x80]);
    let mut r = ByteReader::from_slice(&bytes);
    match NbtReader::new().read_payload(&mut r, NbtTag::String) {
        Ok(NbtValue::String(s)) => assert_eq!(s, text),
        other => panic!("unexpected {:?}", other),
    }
    let mut w = ByteWriter::new();
    NbtWriter::new().write_payload(&mut w, &NbtValue::String("plain".to_string())).unwrap();
    assert_eq!(w.into_vec(), b"\x00\x05plain".to_vec());
    let bad = [0u8, 1, 0xFF];
    let mut r = ByteReader::from_slice(&bad);
    assert!(NbtReader::new().read_payload(&mut r, NbtTag::String).is_err());
}

#[test]
fn nbt_remove_keeps_other_names() {
    let mut c = NbtCompound::new();
    c.insert("a".to_string(), NbtValue::Int(1));
    c.insert("b".to_string(), NbtValue::Int(2));
    c.insert("c".to_string(), NbtValue::Int(3));
    assert!(matches!(c.remove("b"), Some(NbtValue::Int(2))));
    assert!(c.get("b").is_none());
    assert!(c.remove("b").is_none());
    assert!(matches!(c.get("a"), Some(NbtValue::Int(1))));
    assert!(matches!(c.get("c"), Some(NbtValue::Int(3))));
    assert_eq!(c.keys(), vec!["a".to_string(), "c".to_string()]);
}

#[test]
fn nbt_compound_from_entries_keeps_first_place_last_value() {
    let c = NbtCompound::from_entries(vec![
        ("x".to_string(), NbtValue::Int(1)),
        ("y".to_string(), NbtValue::Int(2)),
        ("x".to_string(), NbtValue::Int(3)),
    ]);
    assert_eq!(c.keys(), vec!["x".to_string(), "y".to_string()]);
    assert!(matches!(c.get("x"), Some(NbtValue::Int(3))));
    assert!(NbtCompound::from_entries(Vec::new()).is_empty());
}

#[test]
fn nbt_get_mut_changes_in_place() {
    let mut c = NbtCompound::new();
    c.insert("a".to_string(), NbtValue::Int(1));
    c.insert("b".to_string(), NbtValue::Int(2));
    if let Some(v) = c.get_mut("a") {
        *v = NbtValue::Long(9);
    }
    assert!(matches!(c.get("a"), Some(NbtValue::Long(9))));
    assert_eq!(c.keys(), vec!["a".to_string(), "b".to_string()]);
    assert!(c.get_mut("z").is_none());
}

#[test]
fn nbt_end_typed_list_with_elements_is_an_error() {
    // A compound holding a list of two `End` elements.
    let bytes = [10u8, 0, 0, 9, 0, 1, b'l', 0, 0, 0, 0, 2, 0];
    let mut r = ByteReader::from_slice(&bytes);
    assert!(matches!(NbtReader::new().read_root(&mut r), Err(NbtDecodeError::InvalidTagId(0))));
    let mut r = ByteReader::from_slice(&[]);
    assert!(matches!(NbtReader::new().read_payload(&mut r, NbtTag::End), Err(NbtDecodeError::InvalidTagId(0))));
}
