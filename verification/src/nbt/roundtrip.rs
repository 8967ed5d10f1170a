//! What the reader gives back of what the writer wrote.
use vstd::prelude::*;
use crate::buffer::{
    be_u16, be_u32, be_u64, lemma_be_u16_roundtrip, lemma_be_u32_roundtrip, lemma_be_u64_roundtrip,
    u16_be, u32_be, u64_be,
};
use super::{
    MAX_DEPTH, NbtData, NbtTag, compound_insert, data_tag, distinct_names, entry_index,
    lemma_entry_index_facts, lemma_tag_id_roundtrip, tag_id, tag_of,
};
use super::cesu::java_cesu8_encode;
use super::decode::{
    NbtDecodeError, NbtParse, after, drop, entries_parse, list_parse, payload_parse, root_parse,
    string_parse,
};
use super::encode::{
    array_bytes, entries_bytes, entry_bytes, ints_bytes, items_bytes, lemma_entries_step,
    lemma_items_step, longs_bytes, payload_bytes, root_bytes, str_bytes, str_ok,
};

verus! {

/// A value the reader gives back exactly as the writer wrote it, when read
/// at nesting depth `depth`: its strings can be written, its arrays and
/// lists have lengths that fit an `i32`, a list's elements carry its element
/// type (which is not `End` when there are any), a compound's names are
/// distinct, and lists and compounds nest no deeper than `MAX_DEPTH`.
pub open spec fn readable(d: NbtData, depth: nat) -> bool
    decreases d,
{
    match d {
        NbtData::String(s) => str_ok(s),
        NbtData::ByteArray(a) => a.len() <= i32::MAX,
        NbtData::IntArray(a) => a.len() <= i32::MAX,
        NbtData::LongArray(a) => a.len() <= i32::MAX,
        NbtData::List(t, items) => depth < MAX_DEPTH && items.len() <= i32::MAX && (items.len() > 0
            ==> t != NbtTag::End) && items_readable(t, items, depth + 1),
        NbtData::Compound(entries) => depth < MAX_DEPTH && distinct_names(entries)
            && entries_readable(entries, depth + 1),
        _ => true,
    }
}

/// Every item carries tag `t` and is `readable` at `depth`.
pub open spec fn items_readable(t: NbtTag, items: Seq<NbtData>, depth: nat) -> bool
    decreases items,
{
    if items.len() == 0 {
        true
    } else {
        items_readable(t, items.drop_last(), depth) && data_tag(items.last()) == t && readable(
            items.last(),
            depth,
        )
    }
}

/// Every entry's name can be written and its value is `readable` at `depth`.
pub open spec fn entries_readable(entries: Seq<(Seq<char>, NbtData)>, depth: nat) -> bool
    decreases entries,
{
    if entries.len() == 0 {
        true
    } else {
        entries_readable(entries.drop_last(), depth) && str_ok(entries.last().0) && readable(
            entries.last().1,
            depth,
        )
    }
}

proof fn lemma_items_readable_at(t: NbtTag, items: Seq<NbtData>, depth: nat, i: int)
    requires
        items_readable(t, items, depth),
        0 <= i < items.len(),
    ensures
        data_tag(items[i]) == t,
        readable(items[i], depth),
    decreases items.len(),
{
    if i < items.len() - 1 {
        lemma_items_readable_at(t, items.drop_last(), depth, i);
    }
}

proof fn lemma_entries_readable_at(entries: Seq<(Seq<char>, NbtData)>, depth: nat, i: int)
    requires
        entries_readable(entries, depth),
        0 <= i < entries.len(),
    ensures
        str_ok(entries[i].0),
        readable(entries[i].1, depth),
    decreases entries.len(),
{
    if i < entries.len() - 1 {
        lemma_entries_readable_at(entries.drop_last(), depth, i);
    }
}

proof fn lemma_casts(a: i8, b: i16, c: i32, d: i64)
    by (bit_vector)
    ensures
        (a as u8) as i8 == a,
        (b as u16) as i16 == b,
        (c as u32) as i32 == c,
        (d as u64) as i64 == d,
{
}

proof fn lemma_be16_prefix(x: u16, rest: Seq<u8>)
    ensures
        be_u16(u16_be(x) + rest) == x,
{
    lemma_be_u16_roundtrip(x);
    let s = u16_be(x) + rest;
    assert(s[0] == u16_be(x)[0] && s[1] == u16_be(x)[1]);
}

/// The four bytes at `off` are those of `x`.
proof fn lemma_be32_at(s: Seq<u8>, off: int, x: u32)
    requires
        0 <= off,
        off + 4 <= s.len(),
        s[off] == u32_be(x)[0],
        s[off + 1] == u32_be(x)[1],
        s[off + 2] == u32_be(x)[2],
        s[off + 3] == u32_be(x)[3],
    ensures
        be_u32(s.subrange(off, s.len() as int)) == x,
        be_u32(s.subrange(off, off + 4)) == x,
{
    lemma_be_u32_roundtrip(x);
}

/// The eight bytes at `off` are those of `x`.
proof fn lemma_be64_at(s: Seq<u8>, off: int, x: u64)
    requires
        0 <= off,
        off + 8 <= s.len(),
        forall|j: int| 0 <= j < 8 ==> s[off + j] == #[trigger] u64_be(x)[j],
    ensures
        be_u64(s.subrange(off, s.len() as int)) == x,
{
    lemma_be_u64_roundtrip(x);
    assert(s[off] == u64_be(x)[0]);
    assert(s[off + 1] == u64_be(x)[1]);
    assert(s[off + 2] == u64_be(x)[2]);
    assert(s[off + 3] == u64_be(x)[3]);
    assert(s[off + 4] == u64_be(x)[4]);
    assert(s[off + 5] == u64_be(x)[5]);
    assert(s[off + 6] == u64_be(x)[6]);
    assert(s[off + 7] == u64_be(x)[7]);
}

/// A string written as NBT reads back as itself.
pub proof fn lemma_string_roundtrip(s: Seq<char>, rest: Seq<u8>)
    requires
        str_ok(s),
    ensures
        string_parse(str_bytes(s) + rest) == (Ok::<Seq<char>, NbtDecodeError>(s), str_bytes(s).len()),
{
    let enc = java_cesu8_encode(s);
    let b = str_bytes(s) + rest;
    assert(b =~= u16_be(enc.len() as u16) + (enc + rest));
    lemma_be16_prefix(enc.len() as u16, enc + rest);
    assert(b.subrange(2, 2 + enc.len() as int) =~= enc);
}

proof fn lemma_tag_not_end(d: NbtData)
    ensures
        data_tag(d) != NbtTag::End,
        tag_id(data_tag(d)) != 0,
        tag_of(tag_id(data_tag(d))) == Some(data_tag(d)),
{
    lemma_tag_id_roundtrip(data_tag(d));
}

/// A value written as an NBT payload reads back as itself, taking exactly
/// the bytes written.
#[verifier::rlimit(40)]
pub proof fn lemma_payload_roundtrip(d: NbtData, depth: nat, rest: Seq<u8>)
    requires
        readable(d, depth),
    ensures
        payload_parse(data_tag(d), payload_bytes(d) + rest, depth) == NbtParse::Done(
            d,
            payload_bytes(d).len(),
        ),
    decreases d, 0nat,
{
    let s = payload_bytes(d) + rest;
    match d {
        NbtData::Byte(v) => {
            lemma_casts(v, 0, 0, 0);
        },
        NbtData::Short(v) => {
            lemma_be16_prefix(v as u16, rest);
            lemma_casts(0, v, 0, 0);
        },
        NbtData::Int(v) => {
            let x = v as u32;
            lemma_be32_at(s, 0, x);
            assert(s.subrange(0, s.len() as int) =~= s);
            lemma_casts(0, 0, v, 0);
        },
        NbtData::Long(v) => {
            let x = v as u64;
            lemma_be64_at(s, 0, x);
            assert(s.subrange(0, s.len() as int) =~= s);
            lemma_casts(0, 0, 0, v);
        },
        NbtData::Float(b) => {
            lemma_be32_at(s, 0, b);
            assert(s.subrange(0, s.len() as int) =~= s);
        },
        NbtData::Double(b) => {
            lemma_be64_at(s, 0, b);
            assert(s.subrange(0, s.len() as int) =~= s);
        },
        NbtData::ByteArray(a) => {
            let n = a.len() as i32 as u32;
            lemma_be32_at(s, 0, n);
            assert(s.subrange(0, s.len() as int) =~= s);
            assert(n as i32 == a.len());
            let got = Seq::new(a.len(), |i: int| s[4 + i] as i8);
            assert forall|i: int| 0 <= i < a.len() implies got[i] == a[i] by {
                assert(s[4 + i] == array_bytes(a)[i]);
                let x = a[i];
                lemma_casts(x, 0, 0, 0);
            }
            assert(got =~= a);
        },
        NbtData::String(t) => {
            lemma_string_roundtrip(t, rest);
        },
        NbtData::List(t, items) => {
            lemma_tag_id_roundtrip(t);
            let n = items.len() as i32 as u32;
            assert(s =~= seq![tag_id(t)] + (u32_be(n) + (items_bytes(items) + rest)));
            lemma_be32_at(s, 1, n);
            assert(n as i32 == items.len());
            assert(drop(s, 5) =~= items_bytes(items) + rest);
            assert(items.skip(0) =~= items);
            assert(items.take(0) =~= Seq::<NbtData>::empty());
            lemma_list_roundtrip(t, items, 0, depth + 1, rest);
        },
        NbtData::Compound(entries) => {
            assert(s =~= entries_bytes(entries) + (seq![0u8] + rest));
            assert(entries.skip(0) =~= entries);
            assert(entries.take(0) =~= Seq::<(Seq<char>, NbtData)>::empty());
            lemma_entries_roundtrip(entries, 0, depth + 1, rest);
        },
        NbtData::IntArray(a) => {
            let n = a.len() as i32 as u32;
            lemma_be32_at(s, 0, n);
            assert(s.subrange(0, s.len() as int) =~= s);
            assert(n as i32 == a.len());
            assert(s.len() == 4 + 4 * a.len() + rest.len());
            assert((s.len() - 4) / 4 >= a.len() as int);
            let got = Seq::new(
                a.len(),
                |i: int| be_u32(s.subrange(4 + 4 * i, s.len() as int)) as i32,
            );
            assert forall|i: int| 0 <= i < a.len() implies got[i] == a[i] by {
                let x = a[i] as u32;
                assert forall|j: int| 0 <= j < 4 implies s[4 + 4 * i + j] == #[trigger] u32_be(x)[j] by {
                    assert((4 * i + j) / 4 == i);
                    assert((4 * i + j) % 4 == j);
                    assert(s[4 + 4 * i + j] == ints_bytes(a)[4 * i + j]);
                }
                assert(s[4 + 4 * i + 0] == u32_be(x)[0]);
                assert(s[4 + 4 * i + 1] == u32_be(x)[1]);
                assert(s[4 + 4 * i + 2] == u32_be(x)[2]);
                assert(s[4 + 4 * i + 3] == u32_be(x)[3]);
                lemma_be32_at(s, 4 + 4 * i, x);
                let v = a[i];
                lemma_casts(0, 0, v, 0);
            }
            assert(got =~= a);
        },
        NbtData::LongArray(a) => {
            let n = a.len() as i32 as u32;
            lemma_be32_at(s, 0, n);
            assert(s.subrange(0, s.len() as int) =~= s);
            assert(n as i32 == a.len());
            assert(s.len() == 4 + 8 * a.len() + rest.len());
            assert((s.len() - 4) / 8 >= a.len() as int);
            let got = Seq::new(
                a.len(),
                |i: int| be_u64(s.subrange(4 + 8 * i, s.len() as int)) as i64,
            );
            assert forall|i: int| 0 <= i < a.len() implies got[i] == a[i] by {
                let x = a[i] as u64;
                assert forall|j: int| 0 <= j < 8 implies s[4 + 8 * i + j] == #[trigger] u64_be(x)[j] by {
                    assert((8 * i + j) / 8 == i);
                    assert((8 * i + j) % 8 == j);
                    assert(s[4 + 8 * i + j] == longs_bytes(a)[8 * i + j]);
                }
                lemma_be64_at(s, 4 + 8 * i, x);
                let v = a[i];
                lemma_casts(0, 0, 0, v);
            }
            assert(got =~= a);
        },
    }
}

/// The elements of a list from position `i` on read back as written, after
/// the ones before them.
pub proof fn lemma_list_roundtrip(t: NbtTag, items: Seq<NbtData>, i: nat, depth: nat, rest: Seq<u8>)
    requires
        items_readable(t, items, depth),
        i <= items.len(),
    ensures
        list_parse(
            t,
            items_bytes(items.skip(i as int)) + rest,
            depth,
            (items.len() - i) as nat,
            items.take(i as int),
        ) == NbtParse::Done(NbtData::List(t, items), items_bytes(items.skip(i as int)).len()),
    decreases items, items.len() - i,
{
    if i == items.len() {
        assert(items.skip(i as int) =~= Seq::<NbtData>::empty());
        assert(items_bytes(items.skip(i as int)) + rest =~= rest);
        assert(items.take(i as int) =~= items);
    } else {
        let tail = items.skip(i as int);
        let x = items[i as int];
        lemma_items_readable_at(t, items, depth, i as int);
        lemma_items_step(tail, 0);
        assert(tail.take(0) =~= Seq::<NbtData>::empty());
        assert(tail.take(1).drop_last() =~= Seq::<NbtData>::empty());
        assert(tail.skip(1) =~= items.skip((i + 1) as int));
        assert(tail[0] == x);
        let rest2 = items_bytes(items.skip((i + 1) as int)) + rest;
        let s = items_bytes(tail) + rest;
        assert(s =~= payload_bytes(x) + rest2);
        assert(decreases_to!(items => x));
        lemma_payload_roundtrip(x, depth, rest2);
        let k = payload_bytes(x).len();
        assert(drop(s, k) =~= rest2);
        assert(items.take(i as int).push(x) =~= items.take((i + 1) as int));
        lemma_list_roundtrip(t, items, i + 1, depth, rest);
    }
}

/// The entries of a compound from position `i` on, then its `End` tag, read
/// back as written, after the ones before them.
#[verifier::rlimit(40)]
pub proof fn lemma_entries_roundtrip(
    entries: Seq<(Seq<char>, NbtData)>,
    i: nat,
    depth: nat,
    rest: Seq<u8>,
)
    requires
        entries_readable(entries, depth),
        distinct_names(entries),
        i <= entries.len(),
    ensures
        entries_parse(entries_bytes(entries.skip(i as int)) + (seq![0u8] + rest), depth, entries.take(i as int))
            == NbtParse::Done(NbtData::Compound(entries), entries_bytes(entries.skip(i as int)).len() + 1),
    decreases entries, entries.len() - i,
{
    if i == entries.len() {
        assert(entries.skip(i as int) =~= Seq::<(Seq<char>, NbtData)>::empty());
        assert(entries_bytes(entries.skip(i as int)) + (seq![0u8] + rest) =~= seq![0u8] + rest);
        assert(entries.take(i as int) =~= entries);
    } else {
        let tail = entries.skip(i as int);
        let name = entries[i as int].0;
        let v = entries[i as int].1;
        lemma_entries_readable_at(entries, depth, i as int);
        lemma_entries_step(tail, 0);
        assert(tail.take(0) =~= Seq::<(Seq<char>, NbtData)>::empty());
        assert(tail.skip(1) =~= entries.skip((i + 1) as int));
        assert(tail[0] == entries[i as int]);
        let rest3 = entries_bytes(entries.skip((i + 1) as int)) + (seq![0u8] + rest);
        let s = entries_bytes(tail) + (seq![0u8] + rest);
        assert(entries_bytes(tail.take(1)) =~= entry_bytes(name, v));
        assert(s =~= seq![tag_id(data_tag(v))] + (str_bytes(name) + (payload_bytes(v) + rest3)));
        lemma_tag_not_end(v);
        assert(drop(s, 1) =~= str_bytes(name) + (payload_bytes(v) + rest3));
        lemma_string_roundtrip(name, payload_bytes(v) + rest3);
        let n = str_bytes(name).len();
        assert(drop(s, 1 + n) =~= payload_bytes(v) + rest3);
        assert(decreases_to!(entries => entries[i as int]));
        lemma_payload_roundtrip(v, depth, rest3);
        let k = payload_bytes(v).len();
        assert(drop(s, 1 + n + k) =~= rest3);
        let acc = entries.take(i as int);
        lemma_entry_index_facts(acc, name);
        if entry_index(acc, name) is Some {
            let j = entry_index(acc, name)->0;
            assert(acc[j] == entries[j]);
            assert(false);
        }
        assert(compound_insert(acc, name, v) =~= entries.take((i + 1) as int));
        lemma_entries_roundtrip(entries, i + 1, depth, rest);
    }
}

/// A root written by the NBT writer reads back as the same name and
/// compound, taking exactly the bytes written.
#[verifier::rlimit(40)]
pub proof fn lemma_root_roundtrip(
    name: Seq<char>,
    entries: Seq<(Seq<char>, NbtData)>,
    depth: nat,
    rest: Seq<u8>,
)
    requires
        str_ok(name),
        readable(NbtData::Compound(entries), depth),
    ensures
        root_parse(root_bytes(name, entries) + rest, depth) == Some(
            Ok::<_, (NbtDecodeError, nat, nat)>(((name, entries), root_bytes(name, entries).len())),
        ),
{
    let d = NbtData::Compound(entries);
    let s = root_bytes(name, entries) + rest;
    assert(s =~= seq![10u8] + (str_bytes(name) + (payload_bytes(d) + rest)));
    assert(drop(s, 1) =~= str_bytes(name) + (payload_bytes(d) + rest));
    lemma_string_roundtrip(name, payload_bytes(d) + rest);
    let n = str_bytes(name).len();
    assert(drop(s, 1 + n) =~= payload_bytes(d) + rest);
    lemma_payload_roundtrip(d, depth, rest);
    let k = payload_bytes(d).len();
    assert(data_tag(d) == NbtTag::Compound);
    assert(payload_parse(NbtTag::Compound, drop(s, 1 + n), depth) == NbtParse::Done(d, k));
    assert(s[0] == 10u8);
    assert(tag_of(s[0]) == Some(NbtTag::Compound));
    assert(string_parse(drop(s, 1)) == (Ok::<Seq<char>, NbtDecodeError>(name), n));
    assert(root_bytes(name, entries).len() == 1 + n + k);
}

} // verus!
