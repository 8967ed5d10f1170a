//! The configuration phase, between login and play. From the server side:
//!
//! ```text
//! S → C : SelectKnownPacks        (the server's packs)
//! C → S : SelectKnownPacksAck     (the subset the client has)
//! S → C : RegistryData *          (one per wire registry)
//! S → C : UpdateEnabledFeatures
//! S → C : UpdateTags              (empty)
//! S → C : CustomPayload           "minecraft:brand"
//! S → C : FinishConfiguration
//! C → S : FinishConfigurationAck
//! ```
//!
//! The registries are sent with no entries.
use vstd::prelude::*;
use crate::data::MINECRAFT_VERSION;
use crate::identifier::{
    Identifier, first_colon, first_invalid, identifier_text, parse_check, split_identifier,
};
use vstd::utf8::encode_utf8;
use crate::protocol::codec::framed::{DecodedPacket, EncodedPacket};
use crate::protocol::configuration::{
    CustomPayload, FinishConfiguration, KnownPack, RegistryData, SelectKnownPacks,
    UpdateEnabledFeatures, UpdateTags,
};
use crate::protocol::ser::PacketEncode;
use crate::registry::codec::{RegistryCodec, registry_wire};
use super::connection::{ConnectionError, encode_body};

verus! {

/// The wire registries the server sends, in order.
pub open spec fn wire_registry_names() -> Seq<Seq<char>> {
    seq![
        "minecraft:cat_variant"@,
        "minecraft:chicken_variant"@,
        "minecraft:cow_variant"@,
        "minecraft:pig_variant"@,
        "minecraft:wolf_variant"@,
        "minecraft:fox_variant"@,
        "minecraft:frog_variant"@,
        "minecraft:salmon_variant"@,
        "minecraft:painting_variant"@,
        "minecraft:villager_type"@,
        "minecraft:villager_profession"@,
        "minecraft:point_of_interest_type"@,
        "minecraft:dimension_type"@,
        "minecraft:worldgen/biome"@,
        "minecraft:chat_type"@,
        "minecraft:trim_pattern"@,
        "minecraft:trim_material"@,
        "minecraft:banner_pattern"@,
        "minecraft:instrument"@,
        "minecraft:menu"@,
        "minecraft:recipe_book_category"@,
        "minecraft:attribute"@,
        "minecraft:enchantment"@,
        "minecraft:block"@,
        "minecraft:item"@,
        "minecraft:entity_type"@,
        "minecraft:fluid"@,
        "minecraft:game_event"@,
        "minecraft:particle_type"@,
        "minecraft:position_source_type"@,
        "minecraft:screen"@,
        "minecraft:slot"@,
        "minecraft:sound_event"@,
    ]
}

/// The `minecraft:*` registries vanilla sends with `RegistryData` during
/// configuration.
pub fn vanilla_wire_registries() -> (r: Vec<&'static str>)
    ensures
        r@.len() == wire_registry_names().len(),
        forall|i: int| 0 <= i < r@.len() ==> (#[trigger] r@[i])@ == wire_registry_names()[i],
{
    let r = vec![
        "minecraft:cat_variant",
        "minecraft:chicken_variant",
        "minecraft:cow_variant",
        "minecraft:pig_variant",
        "minecraft:wolf_variant",
        "minecraft:fox_variant",
        "minecraft:frog_variant",
        "minecraft:salmon_variant",
        "minecraft:painting_variant",
        "minecraft:villager_type",
        "minecraft:villager_profession",
        "minecraft:point_of_interest_type",
        "minecraft:dimension_type",
        "minecraft:worldgen/biome",
        "minecraft:chat_type",
        "minecraft:trim_pattern",
        "minecraft:trim_material",
        "minecraft:banner_pattern",
        "minecraft:instrument",
        "minecraft:menu",
        "minecraft:recipe_book_category",
        "minecraft:attribute",
        "minecraft:enchantment",
        "minecraft:block",
        "minecraft:item",
        "minecraft:entity_type",
        "minecraft:fluid",
        "minecraft:game_event",
        "minecraft:particle_type",
        "minecraft:position_source_type",
        "minecraft:screen",
        "minecraft:slot",
        "minecraft:sound_event",
    ];
    assert(r@.map_values(|s: &'static str| s@) =~= wire_registry_names());
    r
}

/// The server's known packs: only `minecraft:core` of this game version.
pub fn select_known_packs() -> (p: SelectKnownPacks)
    ensures
        p.packs@.len() == 1,
        p.packs@[0].namespace@ == "minecraft"@,
        p.packs@[0].id@ == "core"@,
        p.packs@[0].version@ == MINECRAFT_VERSION@,
{
    let pack = KnownPack {
        namespace: String::from_str("minecraft"),
        id: String::from_str("core"),
        version: String::from_str(MINECRAFT_VERSION),
    };
    SelectKnownPacks { packs: vec![pack] }
}

/// Whether `packet` is the client's `SelectKnownPacksAck` (0x07). Any
/// answer lets the configuration go on; this only tells which it was.
pub fn is_select_known_packs_ack(packet: &DecodedPacket) -> (b: bool)
    ensures
        b <==> packet.id == 7,
{
    packet.id == 7
}

/// Whether `packet` is the client's `FinishConfigurationAck` (0x03),
/// which ends the configuration phase; anything else is ignored while
/// waiting for it.
pub fn is_finish_configuration_ack(packet: &DecodedPacket) -> (b: bool)
    ensures
        b <==> packet.id == 3,
{
    packet.id == 3
}

/// The body of a `RegistryData` for the registry named by `text`, with no
/// entries.
pub open spec fn empty_registry_wire(text: Seq<char>) -> Seq<u8> {
    registry_wire((split_identifier(text), Seq::empty()))
}

/// A `RegistryData` packet for the registry `registry_id` with no entries.
pub fn registry_data_empty(registry_id: &str) -> (r: Result<RegistryData, ConnectionError>)
    ensures
        parse_check(registry_id@) matches Err(e) ==> r == Err::<RegistryData, ConnectionError>(
            ConnectionError::InvalidIdentifier(e),
        ),
        parse_check(registry_id@) is Ok ==> (r is Ok <==> empty_registry_wire(registry_id@).len()
            <= usize::MAX),
        r matches Ok(p) ==> p.body@ == empty_registry_wire(registry_id@),
        r matches Err(e) ==> e is InvalidIdentifier || e is Encode,
{
    let identifier = match Identifier::from_str(registry_id) {
        Ok(id) => id,
        Err(e) => return Err(ConnectionError::InvalidIdentifier(e)),
    };
    let codec = RegistryCodec::new(identifier);
    proof {
        assert(codec@.1 =~= Seq::empty());
    }
    match RegistryData::from_codec(&codec) {
        Ok(p) => Ok(p),
        Err(e) => Err(ConnectionError::Encode(e)),
    }
}

/// The feature flags the server has on: `minecraft:vanilla`.
pub fn enabled_features() -> (p: UpdateEnabledFeatures)
    ensures
        p.features@.len() == 1,
        p.features@[0]@ == "minecraft:vanilla"@,
{
    UpdateEnabledFeatures { features: vec![String::from_str("minecraft:vanilla")] }
}

/// The server's brand on the `minecraft:brand` channel.
pub fn brand() -> (p: CustomPayload)
    ensures
        p.channel@ == "minecraft:brand"@,
        p.data@ == seq![80u8, 105, 103, 101, 111, 110, 77, 67, 0],
{
    // "PigeonMC" and a NUL.
    CustomPayload {
        channel: String::from_str("minecraft:brand"),
        data: vec![80u8, 105, 103, 101, 111, 110, 77, 67, 0],
    }
}

/// Whether the registry named by `text` can be sent with no entries: its
/// name is an identifier and its body fits in memory.
pub open spec fn registry_name_ok(text: Seq<char>) -> bool {
    parse_check(text) is Ok && empty_registry_wire(text).len() <= usize::MAX
}

/// Whether every configuration packet can be built: each wire registry
/// name is an identifier, and every body fits in memory. The first part
/// always holds (`lemma_wire_registry_names_ok`).
pub open spec fn configuration_ok() -> bool {
    &&& forall|i: int|
        0 <= i < wire_registry_names().len() ==> #[trigger] registry_name_ok(wire_registry_names()[i])
    &&& enabled_features_wire().len() <= usize::MAX
    &&& brand_wire().len() <= usize::MAX
}

/// What the server sends once the client has answered `SelectKnownPacks`,
/// in order: a `RegistryData` (0x07) with no entries for each wire
/// registry, `UpdateEnabledFeatures` (0x0C), an empty `UpdateTags`
/// (0x0D), the brand `CustomPayload` (0x01) and `FinishConfiguration`
/// (0x03).
pub fn configuration_packets() -> (r: Result<Vec<EncodedPacket>, ConnectionError>)
    ensures
        r is Ok <==> configuration_ok(),
        r is Ok <==> enabled_features_wire().len() <= usize::MAX && brand_wire().len() <= usize::MAX,
        r matches Ok(v) ==> {
            let n = wire_registry_names().len() as int;
            &&& v@.len() == n + 4
            &&& forall|i: int|
                0 <= i < n ==> (#[trigger] v@[i]).id == 7 && v@[i].payload@ == empty_registry_wire(
                    wire_registry_names()[i],
                )
            &&& v@[n].id == 0x0C && v@[n].payload@ == enabled_features_wire()
            &&& v@[n + 1].id == 0x0D && v@[n + 1].payload@ == seq![0u8]
            &&& v@[n + 2].id == 0x01 && v@[n + 2].payload@ == brand_wire()
            &&& v@[n + 3].id == 0x03 && v@[n + 3].payload@ == Seq::<u8>::empty()
        },
        r matches Err(e) ==> e is InvalidIdentifier || e is Encode,
{
    proof {
        lemma_wire_registry_names_ok();
    }
    let names = vanilla_wire_registries();
    let mut out: Vec<EncodedPacket> = Vec::new();
    let mut i: usize = 0;
    while i < names.len()
        invariant
            i <= names@.len(),
            names@.len() == wire_registry_names().len(),
            forall|j: int| 0 <= j < names@.len() ==> (#[trigger] names@[j])@ == wire_registry_names()[j],
            out@.len() == i,
            forall|j: int|
                0 <= j < i ==> (#[trigger] out@[j]).id == 7 && out@[j].payload@ == empty_registry_wire(
                    wire_registry_names()[j],
                ),
            forall|j: int|
                0 <= j < wire_registry_names().len() ==> #[trigger] registry_name_ok(
                    wire_registry_names()[j],
                ),
        decreases names@.len() - i,
    {
        let ghost text = wire_registry_names()[i as int];
        assert(names@[i as int]@ == text);
        let data = match registry_data_empty(names[i]) {
            Ok(d) => d,
            Err(e) => {
                assert(!registry_name_ok(text));
                return Err(e);
            },
        };
        let body = match encode_body(&data) {
            Ok(b) => b,
            Err(e) => {
                assert(!registry_name_ok(text));
                return Err(e);
            },
        };
        assert(registry_name_ok(text));
        out.push(EncodedPacket::new(7, body));
        i = i + 1;
    }
    let features = enabled_features();
    proof {
        let f = crate::protocol::configuration::string_item_fn();
        let fs = features.features@;
        assert(fs.drop_last() =~= Seq::<String>::empty());
        assert(crate::protocol::ser::concat_wire(fs.drop_last(), f) =~= Seq::<u8>::empty());
        assert(crate::protocol::ser::concat_wire(fs, f) =~= crate::protocol::ser::string_wire(
            "minecraft:vanilla"@,
        ));
        assert(features.wire() =~= enabled_features_wire());
    }
    let body = encode_body(&features)?;
    out.push(EncodedPacket::new(0x0C, body));
    let tags = UpdateTags { registries: Vec::new() };
    proof {
        assert(tags.registries@ =~= Seq::empty());
        assert(tags.wire() =~= seq![0u8]) by {
            let z: u32 = 0;
            assert(((z >> 0u32) & 0x7F) as u8 == 0u8) by (bit_vector)
                requires
                    z == 0,
            ;
            assert(crate::codecs::var_int_bytes(0) =~= seq![0u8]);
            assert(crate::protocol::ser::concat_wire(
                tags.registries@,
                crate::protocol::configuration::tag_registry_item_fn(),
            ) =~= Seq::<u8>::empty());
        }
    }
    let body = encode_body(&tags)?;
    out.push(EncodedPacket::new(0x0D, body));
    let b = brand();
    proof {
        assert(b.wire() =~= brand_wire());
    }
    let body = encode_body(&b)?;
    out.push(EncodedPacket::new(0x01, body));
    let body = encode_body(&FinishConfiguration)?;
    out.push(EncodedPacket::new(0x03, body));
    Ok(out)
}

/// The body of `enabled_features()`.
pub open spec fn enabled_features_wire() -> Seq<u8> {
    crate::protocol::ser::var_int_wire(1) + crate::protocol::ser::string_wire("minecraft:vanilla"@)
}

/// The body of `brand()`.
pub open spec fn brand_wire() -> Seq<u8> {
    crate::protocol::ser::string_wire("minecraft:brand"@) + seq![80u8, 105, 103, 101, 111, 110, 77, 67, 0]
}

proof fn lemma_first_colon_in_range(s: Seq<char>)
    ensures
        first_colon(s) matches Some(i) ==> i < s.len(),
    decreases s.len(),
{
    if s.len() > 0 && s[0] != ':' {
        lemma_first_colon_in_range(s.drop_first());
    }
}

proof fn lemma_encode_utf8_len(s: Seq<char>)
    ensures
        encode_utf8(s).len() <= 4 * s.len(),
    decreases s.len(),
{
    if s.len() > 0 {
        lemma_encode_utf8_len(s.drop_first());
    }
}

/// A name that parses, and is short, can be sent with no entries.
proof fn lemma_registry_name_ok(text: Seq<char>)
    requires
        parse_check(text) is Ok,
        text.len() <= 64,
    ensures
        registry_name_ok(text),
{
    lemma_first_colon_in_range(text);
    let (ns, path) = split_identifier(text);
    let t = identifier_text(ns, path);
    assert(t.len() <= text.len() + 10);
    lemma_encode_utf8_len(t);
    assert(empty_registry_wire(text).len() <= 5 + 4 * (text.len() + 10) + 5);
}

proof fn lemma_cat_variant_name_ok()
    ensures
        registry_name_ok("minecraft:cat_variant"@),
{
    reveal_strlit("minecraft:cat_variant");
    reveal_with_fuel(first_invalid, 40);
    reveal_with_fuel(first_colon, 11);
    lemma_registry_name_ok("minecraft:cat_variant"@);
}

proof fn lemma_chicken_variant_name_ok()
    ensures
        registry_name_ok("minecraft:chicken_variant"@),
{
    reveal_strlit("minecraft:chicken_variant");
    reveal_with_fuel(first_invalid, 40);
    reveal_with_fuel(first_colon, 11);
    lemma_registry_name_ok("minecraft:chicken_variant"@);
}

proof fn lemma_cow_variant_name_ok()
    ensures
        registry_name_ok("minecraft:cow_variant"@),
{
    reveal_strlit("minecraft:cow_variant");
    reveal_with_fuel(first_invalid, 40);
    reveal_with_fuel(first_colon, 11);
    lemma_registry_name_ok("minecraft:cow_variant"@);
}

proof fn lemma_pig_variant_name_ok()
    ensures
        registry_name_ok("minecraft:pig_variant"@),
{
    reveal_strlit("minecraft:pig_variant");
    reveal_with_fuel(first_invalid, 40);
    reveal_with_fuel(first_colon, 11);
    lemma_registry_name_ok("minecraft:pig_variant"@);
}

proof fn lemma_wolf_variant_name_ok()
    ensures
        registry_name_ok("minecraft:wolf_variant"@),
{
    reveal_strlit("minecraft:wolf_variant");
    reveal_with_fuel(first_invalid, 40);
    reveal_with_fuel(first_colon, 11);
    lemma_registry_name_ok("minecraft:wolf_variant"@);
}

proof fn lemma_fox_variant_name_ok()
    ensures
        registry_name_ok("minecraft:fox_variant"@),
{
    reveal_strlit("minecraft:fox_variant");
    reveal_with_fuel(first_invalid, 40);
    reveal_with_fuel(first_colon, 11);
    lemma_registry_name_ok("minecraft:fox_variant"@);
}

proof fn lemma_frog_variant_name_ok()
    ensures
        registry_name_ok("minecraft:frog_variant"@),
{
    reveal_strlit("minecraft:frog_variant");
    reveal_with_fuel(first_invalid, 40);
    reveal_with_fuel(first_colon, 11);
    lemma_registry_name_ok("minecraft:frog_variant"@);
}

proof fn lemma_salmon_variant_name_ok()
    ensures
        registry_name_ok("minecraft:salmon_variant"@),
{
    reveal_strlit("minecraft:salmon_variant");
    reveal_with_fuel(first_invalid, 40);
    reveal_with_fuel(first_colon, 11);
    lemma_registry_name_ok("minecraft:salmon_variant"@);
}

proof fn lemma_painting_variant_name_ok()
    ensures
        registry_name_ok("minecraft:painting_variant"@),
{
    reveal_strlit("minecraft:painting_variant");
    reveal_with_fuel(first_invalid, 40);
    reveal_with_fuel(first_colon, 11);
    lemma_registry_name_ok("minecraft:painting_variant"@);
}

proof fn lemma_villager_type_name_ok()
    ensures
        registry_name_ok("minecraft:villager_type"@),
{
    reveal_strlit("minecraft:villager_type");
    reveal_with_fuel(first_invalid, 40);
    reveal_with_fuel(first_colon, 11);
    lemma_registry_name_ok("minecraft:villager_type"@);
}

proof fn lemma_villager_profession_name_ok()
    ensures
        registry_name_ok("minecraft:villager_profession"@),
{
    reveal_strlit("minecraft:villager_profession");
    reveal_with_fuel(first_invalid, 40);
    reveal_with_fuel(first_colon, 11);
    lemma_registry_name_ok("minecraft:villager_profession"@);
}

proof fn lemma_point_of_interest_type_name_ok()
    ensures
        registry_name_ok("minecraft:point_of_interest_type"@),
{
    reveal_strlit("minecraft:point_of_interest_type");
    reveal_with_fuel(first_invalid, 40);
    reveal_with_fuel(first_colon, 11);
    lemma_registry_name_ok("minecraft:point_of_interest_type"@);
}

proof fn lemma_dimension_type_name_ok()
    ensures
        registry_name_ok("minecraft:dimension_type"@),
{
    reveal_strlit("minecraft:dimension_type");
    reveal_with_fuel(first_invalid, 40);
    reveal_with_fuel(first_colon, 11);
    lemma_registry_name_ok("minecraft:dimension_type"@);
}

proof fn lemma_worldgen_biome_name_ok()
    ensures
        registry_name_ok("minecraft:worldgen/biome"@),
{
    reveal_strlit("minecraft:worldgen/biome");
    reveal_with_fuel(first_invalid, 40);
    reveal_with_fuel(first_colon, 11);
    lemma_registry_name_ok("minecraft:worldgen/biome"@);
}

proof fn lemma_chat_type_name_ok()
    ensures
        registry_name_ok("minecraft:chat_type"@),
{
    reveal_strlit("minecraft:chat_type");
    reveal_with_fuel(first_invalid, 40);
    reveal_with_fuel(first_colon, 11);
    lemma_registry_name_ok("minecraft:chat_type"@);
}

proof fn lemma_trim_pattern_name_ok()
    ensures
        registry_name_ok("minecraft:trim_pattern"@),
{
    reveal_strlit("minecraft:trim_pattern");
    reveal_with_fuel(first_invalid, 40);
    reveal_with_fuel(first_colon, 11);
    lemma_registry_name_ok("minecraft:trim_pattern"@);
}

proof fn lemma_trim_material_name_ok()
    ensures
        registry_name_ok("minecraft:trim_material"@),
{
    reveal_strlit("minecraft:trim_material");
    reveal_with_fuel(first_invalid, 40);
    reveal_with_fuel(first_colon, 11);
    lemma_registry_name_ok("minecraft:trim_material"@);
}

proof fn lemma_banner_pattern_name_ok()
    ensures
        registry_name_ok("minecraft:banner_pattern"@),
{
    reveal_strlit("minecraft:banner_pattern");
    reveal_with_fuel(first_invalid, 40);
    reveal_with_fuel(first_colon, 11);
    lemma_registry_name_ok("minecraft:banner_pattern"@);
}

proof fn lemma_instrument_name_ok()
    ensures
        registry_name_ok("minecraft:instrument"@),
{
    reveal_strlit("minecraft:instrument");
    reveal_with_fuel(first_invalid, 40);
    reveal_with_fuel(first_colon, 11);
    lemma_registry_name_ok("minecraft:instrument"@);
}

proof fn lemma_menu_name_ok()
    ensures
        registry_name_ok("minecraft:menu"@),
{
    reveal_strlit("minecraft:menu");
    reveal_with_fuel(first_invalid, 40);
    reveal_with_fuel(first_colon, 11);
    lemma_registry_name_ok("minecraft:menu"@);
}

proof fn lemma_recipe_book_category_name_ok()
    ensures
        registry_name_ok("minecraft:recipe_book_category"@),
{
    reveal_strlit("minecraft:recipe_book_category");
    reveal_with_fuel(first_invalid, 40);
    reveal_with_fuel(first_colon, 11);
    lemma_registry_name_ok("minecraft:recipe_book_category"@);
}

proof fn lemma_attribute_name_ok()
    ensures
        registry_name_ok("minecraft:attribute"@),
{
    reveal_strlit("minecraft:attribute");
    reveal_with_fuel(first_invalid, 40);
    reveal_with_fuel(first_colon, 11);
    lemma_registry_name_ok("minecraft:attribute"@);
}

proof fn lemma_enchantment_name_ok()
    ensures
        registry_name_ok("minecraft:enchantment"@),
{
    reveal_strlit("minecraft:enchantment");
    reveal_with_fuel(first_invalid, 40);
    reveal_with_fuel(first_colon, 11);
    lemma_registry_name_ok("minecraft:enchantment"@);
}

proof fn lemma_block_name_ok()
    ensures
        registry_name_ok("minecraft:block"@),
{
    reveal_strlit("minecraft:block");
    reveal_with_fuel(first_invalid, 40);
    reveal_with_fuel(first_colon, 11);
    lemma_registry_name_ok("minecraft:block"@);
}

proof fn lemma_item_name_ok()
    ensures
        registry_name_ok("minecraft:item"@),
{
    reveal_strlit("minecraft:item");
    reveal_with_fuel(first_invalid, 40);
    reveal_with_fuel(first_colon, 11);
    lemma_registry_name_ok("minecraft:item"@);
}

proof fn lemma_entity_type_name_ok()
    ensures
        registry_name_ok("minecraft:entity_type"@),
{
    reveal_strlit("minecraft:entity_type");
    reveal_with_fuel(first_invalid, 40);
    reveal_with_fuel(first_colon, 11);
    lemma_registry_name_ok("minecraft:entity_type"@);
}

proof fn lemma_fluid_name_ok()
    ensures
        registry_name_ok("minecraft:fluid"@),
{
    reveal_strlit("minecraft:fluid");
    reveal_with_fuel(first_invalid, 40);
    reveal_with_fuel(first_colon, 11);
    lemma_registry_name_ok("minecraft:fluid"@);
}

proof fn lemma_game_event_name_ok()
    ensures
        registry_name_ok("minecraft:game_event"@),
{
    reveal_strlit("minecraft:game_event");
    reveal_with_fuel(first_invalid, 40);
    reveal_with_fuel(first_colon, 11);
    lemma_registry_name_ok("minecraft:game_event"@);
}

proof fn lemma_particle_type_name_ok()
    ensures
        registry_name_ok("minecraft:particle_type"@),
{
    reveal_strlit("minecraft:particle_type");
    reveal_with_fuel(first_invalid, 40);
    reveal_with_fuel(first_colon, 11);
    lemma_registry_name_ok("minecraft:particle_type"@);
}

proof fn lemma_position_source_type_name_ok()
    ensures
        registry_name_ok("minecraft:position_source_type"@),
{
    reveal_strlit("minecraft:position_source_type");
    reveal_with_fuel(first_invalid, 40);
    reveal_with_fuel(first_colon, 11);
    lemma_registry_name_ok("minecraft:position_source_type"@);
}

proof fn lemma_screen_name_ok()
    ensures
        registry_name_ok("minecraft:screen"@),
{
    reveal_strlit("minecraft:screen");
    reveal_with_fuel(first_invalid, 40);
    reveal_with_fuel(first_colon, 11);
    lemma_registry_name_ok("minecraft:screen"@);
}

proof fn lemma_slot_name_ok()
    ensures
        registry_name_ok("minecraft:slot"@),
{
    reveal_strlit("minecraft:slot");
    reveal_with_fuel(first_invalid, 40);
    reveal_with_fuel(first_colon, 11);
    lemma_registry_name_ok("minecraft:slot"@);
}

proof fn lemma_sound_event_name_ok()
    ensures
        registry_name_ok("minecraft:sound_event"@),
{
    reveal_strlit("minecraft:sound_event");
    reveal_with_fuel(first_invalid, 40);
    reveal_with_fuel(first_colon, 11);
    lemma_registry_name_ok("minecraft:sound_event"@);
}

/// Every wire registry name is an identifier whose empty `RegistryData`
/// fits in memory.
pub proof fn lemma_wire_registry_names_ok()
    ensures
        forall|i: int|
            0 <= i < wire_registry_names().len() ==> #[trigger] registry_name_ok(wire_registry_names()[i]),
{
    lemma_cat_variant_name_ok();
    lemma_chicken_variant_name_ok();
    lemma_cow_variant_name_ok();
    lemma_pig_variant_name_ok();
    lemma_wolf_variant_name_ok();
    lemma_fox_variant_name_ok();
    lemma_frog_variant_name_ok();
    lemma_salmon_variant_name_ok();
    lemma_painting_variant_name_ok();
    lemma_villager_type_name_ok();
    lemma_villager_profession_name_ok();
    lemma_point_of_interest_type_name_ok();
    lemma_dimension_type_name_ok();
    lemma_worldgen_biome_name_ok();
    lemma_chat_type_name_ok();
    lemma_trim_pattern_name_ok();
    lemma_trim_material_name_ok();
    lemma_banner_pattern_name_ok();
    lemma_instrument_name_ok();
    lemma_menu_name_ok();
    lemma_recipe_book_category_name_ok();
    lemma_attribute_name_ok();
    lemma_enchantment_name_ok();
    lemma_block_name_ok();
    lemma_item_name_ok();
    lemma_entity_type_name_ok();
    lemma_fluid_name_ok();
    lemma_game_event_name_ok();
    lemma_particle_type_name_ok();
    lemma_position_source_type_name_ok();
    lemma_screen_name_ok();
    lemma_slot_name_ok();
    lemma_sound_event_name_ok();
    let names = wire_registry_names();
    assert forall|i: int| 0 <= i < names.len() implies #[trigger] registry_name_ok(names[i]) by {
        if i == 0 {
            assert(names[i] == "minecraft:cat_variant"@);
        } else if i == 1 {
            assert(names[i] == "minecraft:chicken_variant"@);
        } else if i == 2 {
            assert(names[i] == "minecraft:cow_variant"@);
        } else if i == 3 {
            assert(names[i] == "minecraft:pig_variant"@);
        } else if i == 4 {
            assert(names[i] == "minecraft:wolf_variant"@);
        } else if i == 5 {
            assert(names[i] == "minecraft:fox_variant"@);
        } else if i == 6 {
            assert(names[i] == "minecraft:frog_variant"@);
        } else if i == 7 {
            assert(names[i] == "minecraft:salmon_variant"@);
        } else if i == 8 {
            assert(names[i] == "minecraft:painting_variant"@);
        } else if i == 9 {
            assert(names[i] == "minecraft:villager_type"@);
        } else if i == 10 {
            assert(names[i] == "minecraft:villager_profession"@);
        } else if i == 11 {
            assert(names[i] == "minecraft:point_of_interest_type"@);
        } else if i == 12 {
            assert(names[i] == "minecraft:dimension_type"@);
        } else if i == 13 {
            assert(names[i] == "minecraft:worldgen/biome"@);
        } else if i == 14 {
            assert(names[i] == "minecraft:chat_type"@);
        } else if i == 15 {
            assert(names[i] == "minecraft:trim_pattern"@);
        } else if i == 16 {
            assert(names[i] == "minecraft:trim_material"@);
        } else if i == 17 {
            assert(names[i] == "minecraft:banner_pattern"@);
        } else if i == 18 {
            assert(names[i] == "minecraft:instrument"@);
        } else if i == 19 {
            assert(names[i] == "minecraft:menu"@);
        } else if i == 20 {
            assert(names[i] == "minecraft:recipe_book_category"@);
        } else if i == 21 {
            assert(names[i] == "minecraft:attribute"@);
        } else if i == 22 {
            assert(names[i] == "minecraft:enchantment"@);
        } else if i == 23 {
            assert(names[i] == "minecraft:block"@);
        } else if i == 24 {
            assert(names[i] == "minecraft:item"@);
        } else if i == 25 {
            assert(names[i] == "minecraft:entity_type"@);
        } else if i == 26 {
            assert(names[i] == "minecraft:fluid"@);
        } else if i == 27 {
            assert(names[i] == "minecraft:game_event"@);
        } else if i == 28 {
            assert(names[i] == "minecraft:particle_type"@);
        } else if i == 29 {
            assert(names[i] == "minecraft:position_source_type"@);
        } else if i == 30 {
            assert(names[i] == "minecraft:screen"@);
        } else if i == 31 {
            assert(names[i] == "minecraft:slot"@);
        } else {
            assert(names[i] == "minecraft:sound_event"@);
        }
    }
}


proof fn scratch_distinct()
    ensures
        forall|i: int, j: int| 0 <= i < j < 33 ==> #[trigger] scratch_t()[i] != #[trigger] scratch_t()[j],
{
}

spec fn scratch_t() -> Seq<int> {
    seq![26066266816628int, 31031249010793int, 26066266816631int, 26066281300071int, 27307534647404int, 26066270158968int, 27307515707503int, 29790021288044int, 32272509042793int, 28548779081836int, 35996252373100int, 39719982334057int, 29790004576365int, 29790025744498int, 23583775719521int, 27307531305065int, 28548776853609int, 29790002348142int, 24825027952755int, 17377559117934int, 37237493465187int, 23583773491316int, 26066269044835int, 18618792411247int, 17377554661477int, 26066269044852int, 18618796867701int, 24825025724525int, 28548772397170int, 37237491236979int, 19860056899698int, 17377565802607int, 26066284642421int]
}

/// A short fingerprint of a registry name: its length and two of its
/// characters.
spec fn name_fingerprint(s: Seq<char>) -> int {
    s.len() * 0x110000 * 0x110000 + (s[10] as u32) * 0x110000 + (s[12] as u32)
}

/// The fingerprints of the wire registry names, in order.
spec fn wire_registry_fingerprints() -> Seq<int> {
    seq![
        26066266816628int,
        31031249010793int,
        26066266816631int,
        26066281300071int,
        27307534647404int,
        26066270158968int,
        27307515707503int,
        29790021288044int,
        32272509042793int,
        28548779081836int,
        35996252373100int,
        39719982334057int,
        29790004576365int,
        29790025744498int,
        23583775719521int,
        27307531305065int,
        28548776853609int,
        29790002348142int,
        24825027952755int,
        17377559117934int,
        37237493465187int,
        23583773491316int,
        26066269044835int,
        18618792411247int,
        17377554661477int,
        26066269044852int,
        18618796867701int,
        24825025724525int,
        28548772397170int,
        37237491236979int,
        19860056899698int,
        17377565802607int,
        26066284642421int,
    ]
}

proof fn lemma_wire_registry_fingerprints()
    ensures
        wire_registry_names().map_values(|s: Seq<char>| name_fingerprint(s)) == wire_registry_fingerprints(),
{
    reveal_strlit("minecraft:cat_variant");
    reveal_strlit("minecraft:chicken_variant");
    reveal_strlit("minecraft:cow_variant");
    reveal_strlit("minecraft:pig_variant");
    reveal_strlit("minecraft:wolf_variant");
    reveal_strlit("minecraft:fox_variant");
    reveal_strlit("minecraft:frog_variant");
    reveal_strlit("minecraft:salmon_variant");
    reveal_strlit("minecraft:painting_variant");
    reveal_strlit("minecraft:villager_type");
    reveal_strlit("minecraft:villager_profession");
    reveal_strlit("minecraft:point_of_interest_type");
    reveal_strlit("minecraft:dimension_type");
    reveal_strlit("minecraft:worldgen/biome");
    reveal_strlit("minecraft:chat_type");
    reveal_strlit("minecraft:trim_pattern");
    reveal_strlit("minecraft:trim_material");
    reveal_strlit("minecraft:banner_pattern");
    reveal_strlit("minecraft:instrument");
    reveal_strlit("minecraft:menu");
    reveal_strlit("minecraft:recipe_book_category");
    reveal_strlit("minecraft:attribute");
    reveal_strlit("minecraft:enchantment");
    reveal_strlit("minecraft:block");
    reveal_strlit("minecraft:item");
    reveal_strlit("minecraft:entity_type");
    reveal_strlit("minecraft:fluid");
    reveal_strlit("minecraft:game_event");
    reveal_strlit("minecraft:particle_type");
    reveal_strlit("minecraft:position_source_type");
    reveal_strlit("minecraft:screen");
    reveal_strlit("minecraft:slot");
    reveal_strlit("minecraft:sound_event");
    assert(wire_registry_names().map_values(|s: Seq<char>| name_fingerprint(s)) =~= wire_registry_fingerprints());
}

/// Each wire registry is sent once: no name occurs twice in the list, and
/// the list has the dimension types and biomes that the play login's
/// dimension refers to.
pub proof fn lemma_wire_registry_names_distinct()
    ensures
        forall|i: int, j: int|
            0 <= i < j < wire_registry_names().len() ==> #[trigger] wire_registry_names()[i]
                != #[trigger] wire_registry_names()[j],
        wire_registry_names().contains("minecraft:dimension_type"@),
        wire_registry_names().contains("minecraft:worldgen/biome"@),
{
    let names = wire_registry_names();
    let f = wire_registry_fingerprints();
    lemma_wire_registry_fingerprints();
    assert(forall|i: int, j: int| 0 <= i < j < 33 ==> #[trigger] f[i] != #[trigger] f[j]);
    assert forall|i: int, j: int| 0 <= i < j < names.len() implies #[trigger] names[i] != #[trigger] names[j] by {
        assert(name_fingerprint(names[i]) == f[i]);
        assert(name_fingerprint(names[j]) == f[j]);
    }
    assert(names[12] == "minecraft:dimension_type"@);
    assert(names[13] == "minecraft:worldgen/biome"@);
}

} // verus!
