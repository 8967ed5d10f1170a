use pigeon::data::registries::{protocol_id, resource_location};
use pigeon::data::registries::RegistryReport;
use pigeon::registry::vanilla::VanillaRegistries;
use pigeon::buffer::{ByteReader, ByteWriter};
use pigeon::identifier::Identifier;
use pigeon::nbt::{NbtCompound, NbtValue};
use pigeon::protocol::configuration::RegistryData;
use pigeon::registry::codec::{RegistryCodec, RegistryCodecError};
use pigeon::registry::Registry;

fn make_sample_codec() -> RegistryCodec {
    let mut root = NbtCompound::new();
    root.insert("asset_id".to_string(), NbtValue::String("minecraft:tabby".into()));
    let entry_id = Identifier::minecraft("tabby").unwrap();
    let registry_id = Identifier::minecraft("cat_variant").unwrap();
    let mut codec = RegistryCodec::new(registry_id);
    codec.push(entry_id, root);
    codec
}

#[test]
fn round_trip_minimal_registry() {
    let original = make_sample_codec();
    let mut buf = ByteWriter::new();
    original.encode(&mut buf).expect("encode must succeed");
    let mut reader = ByteReader::new(buf.into_vec());
    let decoded = RegistryCodec::decode(&mut reader).expect("decode must succeed");
    assert!(!reader.has_remaining(), "no trailing bytes after decode");
    assert_eq!(decoded.registry_id, original.registry_id);
    assert_eq!(decoded.entries.len(), 1);
    assert_eq!(decoded.entries[0].0, original.entries[0].0);
}

#[test]
fn round_trip_empty_registry() {
    let registry_id = Identifier::minecraft("dimension_type").unwrap();
    let codec = RegistryCodec::new(registry_id.clone());
    let mut buf = ByteWriter::new();
    codec.encode(&mut buf).expect("encode must succeed");
    let decoded = RegistryCodec::decode(&mut ByteReader::new(buf.into_vec())).expect("decode must succeed");
    assert_eq!(decoded.registry_id, registry_id);
    assert!(decoded.entries.is_empty());
}

#[test]
fn round_trip_multiple_entries_preserve_order() {
    let registry_id = Identifier::minecraft("cat_variant").unwrap();
    let mut codec = RegistryCodec::new(registry_id);
    let names = vec!["all_black", "british_shorthair", "calico", "jellie", "persian", "ragdoll", "tabby"];
    for n in &names {
        let mut c = NbtCompound::new();
        c.insert("asset_id".to_string(), NbtValue::String(format!("minecraft:{n}")));
        codec.push(Identifier::minecraft(n).unwrap(), c);
    }
    let mut buf = ByteWriter::new();
    codec.encode(&mut buf).expect("encode must succeed");
    let decoded = RegistryCodec::decode(&mut ByteReader::new(buf.into_vec())).expect("decode must succeed");
    let got: Vec<String> = decoded.entries.iter().map(|(id, _)| id.path().to_string()).collect();
    assert_eq!(got, names);
}

#[test]
fn registry_codec_wire_layout() {
    let codec = RegistryCodec::new(Identifier::minecraft("menu").unwrap());
    let mut buf = ByteWriter::new();
    codec.encode(&mut buf).unwrap();
    let mut expected = vec![14u8];
    expected.extend_from_slice(b"minecraft:menu");
    expected.push(0);
    assert_eq!(buf.as_slice(), &expected[..]);
}

#[test]
fn registry_codec_rejects_negative_count() {
    let mut bytes = vec![14u8];
    bytes.extend_from_slice(b"minecraft:menu");
    bytes.extend_from_slice(&[0xFF, 0xFF, 0xFF, 0xFF, 0x0F]);
    let err = RegistryCodec::decode(&mut ByteReader::new(bytes)).unwrap_err();
    assert!(matches!(err, RegistryCodecError::InvalidEntryCount(-1)), "got {err:?}");
}

#[test]
fn registry_codec_rejects_named_root() {
    let mut bytes = vec![14u8];
    bytes.extend_from_slice(b"minecraft:menu");
    bytes.push(1);
    bytes.push(1);
    bytes.push(b'a');
    bytes.extend_from_slice(&[10, 0, 1, b'x', 0]);
    let err = RegistryCodec::decode(&mut ByteReader::new(bytes)).unwrap_err();
    match err {
        RegistryCodecError::UnexpectedRootName { entry, name } => {
            assert_eq!(entry, "minecraft:a");
            assert_eq!(name, "x");
        }
        other => panic!("got {other:?}"),
    }
}

#[test]
fn registry_codec_rejects_short_string_and_bad_identifier() {
    let err = RegistryCodec::decode(&mut ByteReader::new(vec![5, b'a'])).unwrap_err();
    assert!(matches!(err, RegistryCodecError::Underflow), "got {err:?}");
    let err = RegistryCodec::decode(&mut ByteReader::new(vec![1, b'A', 0])).unwrap_err();
    assert!(matches!(err, RegistryCodecError::Identifier(_)), "got {err:?}");
    let err = RegistryCodec::decode(&mut ByteReader::new(vec![])).unwrap_err();
    assert!(matches!(err, RegistryCodecError::VarInt(_)), "got {err:?}");
}

#[test]
fn registry_codec_encode_overflows() {
    let codec = make_sample_codec();
    let mut buf = ByteWriter::with_limit(10);
    let err = codec.encode(&mut buf).unwrap_err();
    assert!(matches!(err, RegistryCodecError::Overflow), "got {err:?}");
}

#[test]
fn registry_data_from_codec_carries_encoded_body() {
    let codec = make_sample_codec();
    let mut buf = ByteWriter::new();
    codec.encode(&mut buf).unwrap();
    let pkt = RegistryData::from_codec(&codec).unwrap();
    assert_eq!(pkt.body, buf.into_vec());
}

#[test]
fn round_trip_protocol_id_lookup() {
    let report = RegistryReport {
        registries: vec![(
            "minecraft:block".to_string(),
            report_registry(&[("minecraft:air", 0), ("minecraft:stone", 1), ("minecraft:granite", 2)]),
        )],
    };
    let v = VanillaRegistries::from_report(&report);
    let blocks = v
        .get(&Identifier::minecraft("block").unwrap())
        .expect("minecraft:block registry must exist");
    let stone = Identifier::minecraft("stone").unwrap();
    let idx = blocks.index_of(&stone).expect("minecraft:stone must be in the registry");
    assert_eq!(blocks.get_by_index(idx).unwrap().0, &stone);
}

#[test]
fn registry_push_assigns_wire_indexes_in_order() {
    let mut r: Registry<&str> = Registry::default();
    assert!(r.is_empty());
    assert_eq!(r.push(Identifier::minecraft("a").unwrap(), "first"), 0);
    assert_eq!(r.push(Identifier::minecraft("b").unwrap(), "second"), 1);
    assert_eq!(r.len(), 2);
    assert_eq!(r.get(&Identifier::minecraft("b").unwrap()), Some(&"second"));
    assert_eq!(r.get(&Identifier::minecraft("c").unwrap()), None);
    assert!(r.get_by_index(2).is_none());
    let all: Vec<&str> = r.iter().into_iter().map(|(_, v)| *v).collect();
    assert_eq!(all, vec!["first", "second"]);
}

#[test]
fn registry_push_of_same_id_points_to_latest() {
    let mut r: Registry<u8> = Registry::new();
    let a = Identifier::minecraft("a").unwrap();
    r.push(a.clone(), 1);
    r.push(a.clone(), 2);
    assert_eq!(r.index_of(&a), Some(1));
    assert_eq!(r.get(&a), Some(&2));
}

fn report_registry(entries: &[(&str, i32)]) -> pigeon::data::registries::Registry {
    pigeon::data::registries::Registry {
        default: None,
        entries: entries
            .iter()
            .map(|(n, id)| (n.to_string(), pigeon::data::registries::RegistryEntry { protocol_id: *id }))
            .collect(),
        protocol_id: None,
    }
}

#[test]
fn vanilla_registries_keep_wired_registries_only() {
    let report = RegistryReport {
        registries: vec![
            ("minecraft:block".to_string(), report_registry(&[("minecraft:air", 0), ("minecraft:stone", 1), ("Bad Name", 2)])),
            ("minecraft:worldgen/noise".to_string(), report_registry(&[])),
            ("Not An Id".to_string(), report_registry(&[("minecraft:x", 0)])),
            ("minecraft:fluid".to_string(), report_registry(&[("minecraft:empty", 0)])),
        ],
    };
    let v = VanillaRegistries::from_report(&report);
    assert_eq!(v.len(), 2);
    assert!(!v.is_empty());
    let blocks = v.get(&Identifier::minecraft("block").unwrap()).expect("block registry");
    assert_eq!(blocks.len(), 2);
    let stone = Identifier::minecraft("stone").unwrap();
    let idx = blocks.index_of(&stone).expect("stone");
    assert_eq!(blocks.get_by_index(idx).unwrap().0, &stone);
    assert_eq!(blocks.get(&stone), Some(&1));
    assert!(v.get(&Identifier::minecraft("worldgen/noise").unwrap()).is_none());
    assert_eq!(v.iter().len(), 2);
}

#[test]
fn vanilla_registries_later_name_for_same_identifier_wins() {
    let report = RegistryReport {
        registries: vec![
            ("item".to_string(), report_registry(&[("minecraft:a", 5)])),
            ("minecraft:item".to_string(), report_registry(&[("minecraft:b", 6), ("minecraft:c", 7)])),
        ],
    };
    let v = VanillaRegistries::from_report(&report);
    assert_eq!(v.len(), 1);
    let items = v.get(&Identifier::minecraft("item").unwrap()).unwrap();
    assert_eq!(items.len(), 2);
    assert_eq!(items.get(&Identifier::minecraft("a").unwrap()), None);
}

#[test]
fn resource_location_picks_the_first_name_in_key_order() {
    let report = RegistryReport {
        registries: vec![(
            "minecraft:entity_type".to_string(),
            report_registry(&[("minecraft:zombie", 7), ("minecraft:cow", 3), ("minecraft:allay", 7)]),
        )],
    };
    assert_eq!(resource_location(&report, "minecraft:entity_type", 7), Some("minecraft:allay"));
    assert_eq!(resource_location(&report, "minecraft:entity_type", 3), Some("minecraft:cow"));
    assert_eq!(resource_location(&report, "minecraft:entity_type", 9), None);
    assert_eq!(resource_location(&report, "minecraft:block", 3), None);
    assert_eq!(pigeon::data::entities::resource_location(&report, 7), Some("minecraft:allay"));
}

#[test]
fn resource_location_names_map_back_to_their_id() {
    let report = RegistryReport {
        registries: vec![(
            "minecraft:entity_type".to_string(),
            report_registry(&[("minecraft:allay", 7), ("minecraft:cow", 3), ("minecraft:zombie", 7)]),
        )],
    };
    for id in [3, 7] {
        let name = resource_location(&report, "minecraft:entity_type", id).unwrap();
        assert_eq!(protocol_id(&report, "minecraft:entity_type", name), Some(id));
    }
}
