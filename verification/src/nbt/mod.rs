//! Named Binary Tag values, their binary form, and a reader and a writer.
//!
//! Floating-point payloads are held as their IEEE-754 bit patterns: the
//! binary form carries exactly those bits, big-endian.
use vstd::prelude::*;
use crate::strings::str_eq;

pub mod cesu;
pub mod decode;
pub mod encode;
pub mod roundtrip;

pub use decode::{NbtDecodeError, NbtReader};
pub use encode::{NbtEncodeError, NbtWriter};

verus! {

/// Deepest nesting of lists and compounds the reader accepts.
pub const MAX_DEPTH: usize = 512;

/// NBT tag ids per the NBT specification.
#[derive(Debug, Clone, Copy, PartialEq, Eq, Hash, Structural)]
pub enum NbtTag {
    End,
    Byte,
    Short,
    Int,
    Long,
    Float,
    Double,
    ByteArray,
    String,
    List,
    Compound,
    IntArray,
    LongArray,
}

/// The wire id of a tag.
pub open spec fn tag_id(t: NbtTag) -> u8 {
    match t {
        NbtTag::End => 0,
        NbtTag::Byte => 1,
        NbtTag::Short => 2,
        NbtTag::Int => 3,
        NbtTag::Long => 4,
        NbtTag::Float => 5,
        NbtTag::Double => 6,
        NbtTag::ByteArray => 7,
        NbtTag::String => 8,
        NbtTag::List => 9,
        NbtTag::Compound => 10,
        NbtTag::IntArray => 11,
        NbtTag::LongArray => 12,
    }
}

/// The tag with wire id `b`, if any.
pub open spec fn tag_of(b: u8) -> Option<NbtTag> {
    if b == 0 {
        Some(NbtTag::End)
    } else if b == 1 {
        Some(NbtTag::Byte)
    } else if b == 2 {
        Some(NbtTag::Short)
    } else if b == 3 {
        Some(NbtTag::Int)
    } else if b == 4 {
        Some(NbtTag::Long)
    } else if b == 5 {
        Some(NbtTag::Float)
    } else if b == 6 {
        Some(NbtTag::Double)
    } else if b == 7 {
        Some(NbtTag::ByteArray)
    } else if b == 8 {
        Some(NbtTag::String)
    } else if b == 9 {
        Some(NbtTag::List)
    } else if b == 10 {
        Some(NbtTag::Compound)
    } else if b == 11 {
        Some(NbtTag::IntArray)
    } else if b == 12 {
        Some(NbtTag::LongArray)
    } else {
        None
    }
}

/// A tag's id names that tag again.
pub proof fn lemma_tag_id_roundtrip(t: NbtTag)
    ensures
        tag_of(tag_id(t)) == Some(t),
{
}

impl NbtTag {
    /// The tag with wire id `byte`, if any.
    pub fn from_u8(byte: u8) -> (t: Option<Self>)
        ensures
            t == tag_of(byte),
    {
        match byte {
            0 => Some(Self::End),
            1 => Some(Self::Byte),
            2 => Some(Self::Short),
            3 => Some(Self::Int),
            4 => Some(Self::Long),
            5 => Some(Self::Float),
            6 => Some(Self::Double),
            7 => Some(Self::ByteArray),
            8 => Some(Self::String),
            9 => Some(Self::List),
            10 => Some(Self::Compound),
            11 => Some(Self::IntArray),
            12 => Some(Self::LongArray),
            _ => None,
        }
    }

    /// The wire id of this tag.
    pub fn id(self) -> (b: u8)
        ensures
            b == tag_id(self),
    {
        match self {
            NbtTag::End => 0,
            NbtTag::Byte => 1,
            NbtTag::Short => 2,
            NbtTag::Int => 3,
            NbtTag::Long => 4,
            NbtTag::Float => 5,
            NbtTag::Double => 6,
            NbtTag::ByteArray => 7,
            NbtTag::String => 8,
            NbtTag::List => 9,
            NbtTag::Compound => 10,
            NbtTag::IntArray => 11,
            NbtTag::LongArray => 12,
        }
    }
}

/// The mathematical content of an NBT value.
pub ghost enum NbtData {
    Byte(i8),
    Short(i16),
    Int(i32),
    Long(i64),
    Float(u32),
    Double(u64),
    ByteArray(Seq<i8>),
    String(Seq<char>),
    List(NbtTag, Seq<NbtData>),
    Compound(Seq<(Seq<char>, NbtData)>),
    IntArray(Seq<i32>),
    LongArray(Seq<i64>),
}

/// The tag of a value's content.
pub open spec fn data_tag(d: NbtData) -> NbtTag {
    match d {
        NbtData::Byte(_) => NbtTag::Byte,
        NbtData::Short(_) => NbtTag::Short,
        NbtData::Int(_) => NbtTag::Int,
        NbtData::Long(_) => NbtTag::Long,
        NbtData::Float(_) => NbtTag::Float,
        NbtData::Double(_) => NbtTag::Double,
        NbtData::ByteArray(_) => NbtTag::ByteArray,
        NbtData::String(_) => NbtTag::String,
        NbtData::List(_, _) => NbtTag::List,
        NbtData::Compound(_) => NbtTag::Compound,
        NbtData::IntArray(_) => NbtTag::IntArray,
        NbtData::LongArray(_) => NbtTag::LongArray,
    }
}

/// Position of `key` among the names of `entries`, if present.
pub open spec fn entry_index(entries: Seq<(Seq<char>, NbtData)>, key: Seq<char>) -> Option<int>
    decreases entries.len(),
{
    if entries.len() == 0 {
        None
    } else if entries.last().0 == key {
        Some(entries.len() - 1)
    } else {
        entry_index(entries.drop_last(), key)
    }
}

/// Inserting into a compound: an existing name keeps its place and takes
/// the new value; a new name goes last.
pub open spec fn compound_insert(
    entries: Seq<(Seq<char>, NbtData)>,
    key: Seq<char>,
    value: NbtData,
) -> Seq<(Seq<char>, NbtData)> {
    match entry_index(entries, key) {
        Some(i) => entries.update(i, (key, value)),
        None => entries.push((key, value)),
    }
}

/// No name occurs twice.
pub open spec fn distinct_names(entries: Seq<(Seq<char>, NbtData)>) -> bool {
    forall|i: int, j: int|
        0 <= i < entries.len() && 0 <= j < entries.len() && i != j ==> #[trigger] entries[i].0
            != #[trigger] entries[j].0
}

/// A single NBT value carrying its tag type.
#[derive(Debug)]
pub enum NbtValue {
    Byte(i8),
    Short(i16),
    Int(i32),
    Long(i64),
    /// The IEEE-754 bits of an `f32`.
    Float(u32),
    /// The IEEE-754 bits of an `f64`.
    Double(u64),
    ByteArray(Vec<i8>),
    String(String),
    List(NbtList),
    Compound(NbtCompound),
    IntArray(Vec<i32>),
    LongArray(Vec<i64>),
}

/// A list of NBT values that all carry `element_type`.
#[derive(Debug)]
pub struct NbtList {
    pub element_type: NbtTag,
    pub elements: Vec<NbtValue>,
}

/// A compound tag preserving insertion order.
#[derive(Debug)]
pub struct NbtCompound {
    pub entries: Vec<(String, NbtValue)>,
}

/// Top-level NBT root, always a single named compound.
#[derive(Debug)]
pub struct Nbt {
    pub name: String,
    pub root: NbtCompound,
}

/// Contents of a sequence of values.
pub open spec fn values_data(s: Seq<NbtValue>) -> Seq<NbtData>
    decreases s,
{
    if s.len() == 0 {
        Seq::empty()
    } else {
        seq![value_data(s[0])] + values_data(s.drop_first())
    }
}

/// Contents of a sequence of named values.
pub open spec fn entries_data(s: Seq<(String, NbtValue)>) -> Seq<(Seq<char>, NbtData)>
    decreases s,
{
    if s.len() == 0 {
        Seq::empty()
    } else {
        seq![(s[0].0@, value_data(s[0].1))] + entries_data(s.drop_first())
    }
}

/// The content of a value.
pub open spec fn value_data(v: NbtValue) -> NbtData
    decreases v,
{
    match v {
        NbtValue::Byte(b) => NbtData::Byte(b),
        NbtValue::Short(x) => NbtData::Short(x),
        NbtValue::Int(x) => NbtData::Int(x),
        NbtValue::Long(x) => NbtData::Long(x),
        NbtValue::Float(x) => NbtData::Float(x),
        NbtValue::Double(x) => NbtData::Double(x),
        NbtValue::ByteArray(a) => NbtData::ByteArray(a@),
        NbtValue::String(s) => NbtData::String(s@),
        NbtValue::List(l) => NbtData::List(l.element_type, values_data(l.elements@)),
        NbtValue::Compound(c) => NbtData::Compound(entries_data(c.entries@)),
        NbtValue::IntArray(a) => NbtData::IntArray(a@),
        NbtValue::LongArray(a) => NbtData::LongArray(a@),
    }
}

pub proof fn lemma_values_data_len(s: Seq<NbtValue>)
    ensures
        values_data(s).len() == s.len(),
        forall|i: int|
            #![trigger values_data(s)[i]]
            #![trigger s[i]]
            0 <= i < s.len() ==> values_data(s)[i] == value_data(s[i]),
    decreases s.len(),
{
    if s.len() > 0 {
        lemma_values_data_len(s.drop_first());
        assert forall|i: int| 0 <= i < s.len() implies values_data(s)[i] == value_data(
            #[trigger] s[i],
        ) by {
            if i > 0 {
                assert(s.drop_first()[i - 1] == s[i]);
            }
        }
    }
}

pub proof fn lemma_entries_data_len(s: Seq<(String, NbtValue)>)
    ensures
        entries_data(s).len() == s.len(),
        forall|i: int|
            #![trigger entries_data(s)[i]]
            #![trigger s[i]]
            0 <= i < s.len() ==> entries_data(s)[i] == (s[i].0@, value_data(s[i].1)),
    decreases s.len(),
{
    if s.len() > 0 {
        lemma_entries_data_len(s.drop_first());
        assert forall|i: int| 0 <= i < s.len() implies entries_data(s)[i] == (
        #[trigger] s[i].0@,
        value_data(s[i].1),
        ) by {
            if i > 0 {
                assert(s.drop_first()[i - 1] == s[i]);
            }
        }
    }
}

/// Contents of a sequence of values are those of each value, in order.
pub proof fn lemma_values_data_push(s: Seq<NbtValue>, v: NbtValue)
    ensures
        values_data(s.push(v)) == values_data(s).push(value_data(v)),
{
    lemma_values_data_len(s);
    lemma_values_data_len(s.push(v));
    assert forall|i: int| 0 <= i < s.len() implies #[trigger] s.push(v)[i] == s[i] by {}
    assert(values_data(s.push(v)) =~= values_data(s).push(value_data(v)));
}

impl View for NbtValue {
    type V = NbtData;

    open spec fn view(&self) -> NbtData {
        value_data(*self)
    }
}

impl View for NbtList {
    type V = (NbtTag, Seq<NbtData>);

    open spec fn view(&self) -> (NbtTag, Seq<NbtData>) {
        (self.element_type, values_data(self.elements@))
    }
}

impl View for NbtCompound {
    type V = Seq<(Seq<char>, NbtData)>;

    open spec fn view(&self) -> Seq<(Seq<char>, NbtData)> {
        entries_data(self.entries@)
    }
}

impl NbtValue {
    /// The tag of this value.
    pub fn tag(&self) -> (t: NbtTag)
        ensures
            t == data_tag(self@),
    {
        match self {
            Self::Byte(_) => NbtTag::Byte,
            Self::Short(_) => NbtTag::Short,
            Self::Int(_) => NbtTag::Int,
            Self::Long(_) => NbtTag::Long,
            Self::Float(_) => NbtTag::Float,
            Self::Double(_) => NbtTag::Double,
            Self::ByteArray(_) => NbtTag::ByteArray,
            Self::String(_) => NbtTag::String,
            Self::List(_) => NbtTag::List,
            Self::Compound(_) => NbtTag::Compound,
            Self::IntArray(_) => NbtTag::IntArray,
            Self::LongArray(_) => NbtTag::LongArray,
        }
    }
}

impl NbtList {
    /// An empty list of the given element type.
    pub fn new(element_type: NbtTag) -> (l: Self)
        ensures
            l@ == (element_type, Seq::<NbtData>::empty()),
    {
        let l = NbtList { element_type, elements: Vec::new() };
        assert(values_data(l.elements@) =~= Seq::<NbtData>::empty());
        l
    }

    /// Whether the list holds no element.
    pub fn is_empty(&self) -> (b: bool)
        ensures
            b == (self@.1.len() == 0),
    {
        proof {
            lemma_values_data_len(self.elements@);
        }
        self.elements.len() == 0
    }

    /// Appends an element.
    pub fn push(&mut self, value: NbtValue)
        ensures
            final(self)@ == (old(self)@.0, old(self)@.1.push(value@)),
    {
        proof {
            lemma_values_data_push(self.elements@, value);
        }
        self.elements.push(value);
    }
}

impl NbtCompound {
    /// An empty compound.
    pub fn new() -> (c: Self)
        ensures
            c@ == Seq::<(Seq<char>, NbtData)>::empty(),
    {
        let c = NbtCompound { entries: Vec::new() };
        assert(entries_data(c.entries@) =~= Seq::<(Seq<char>, NbtData)>::empty());
        c
    }

    /// Index of the entry named `name`, if present.
    fn find(&self, name: &str) -> (r: Option<usize>)
        ensures
            r matches Some(i) ==> entry_index(self@, name@) == Some(i as int) && i < self@.len(),
            r is None ==> entry_index(self@, name@) is None,
    {
        proof {
            lemma_entries_data_len(self.entries@);
        }
        let mut i = self.entries.len();
        assert(self@.take(i as int) =~= self@);
        while i > 0
            invariant
                i <= self.entries@.len(),
                entries_data(self.entries@).len() == self.entries@.len(),
                forall|j: int|
                    0 <= j < self.entries@.len() ==> entries_data(self.entries@)[j] == (
                    #[trigger] self.entries@[j].0@,
                    value_data(self.entries@[j].1),
                    ),
                entry_index(self@, name@) == entry_index(self@.take(i as int), name@),
            decreases i,
        {
            let key: &str = self.entries[i - 1].0.as_str();
            let ghost prefix = self@.take(i as int);
            assert(prefix.last().0 == self.entries@[i - 1].0@);
            assert(prefix.drop_last() =~= self@.take(i - 1));
            if str_eq(key, name) {
                return Some(i - 1);
            }
            i = i - 1;
        }
        None
    }

    /// Inserts `value` under `name`; an existing entry keeps its place.
    pub fn insert(&mut self, name: String, value: NbtValue)
        ensures
            final(self)@ == compound_insert(old(self)@, name@, value@),
            distinct_names(old(self)@) ==> distinct_names(final(self)@),
    {
        proof {
            lemma_entries_data_len(self.entries@);
        }
        let found = self.find(name.as_str());
        let mut entries: Vec<(String, NbtValue)> = Vec::new();
        std::mem::swap(&mut entries, &mut self.entries);
        let ghost before = entries@;
        match found {
            Some(i) => {
                entries.set(i, (name, value));
                proof {
                    lemma_entries_data_len(entries@);
                    assert(entries_data(entries@) =~= entries_data(before).update(
                        i as int,
                        (name@, value@),
                    ));
                }
            },
            None => {
                entries.push((name, value));
                proof {
                    lemma_entries_data_len(entries@);
                    assert(entries_data(entries@) =~= entries_data(before).push((name@, value@)));
                }
            },
        }
        proof {
            if distinct_names(entries_data(before)) {
                lemma_insert_distinct(entries_data(before), name@, value@);
            }
        }
        self.entries = entries;
    }

    /// A compound of `pairs` inserted in order: a name given again takes
    /// the later value at the place of its first appearance.
    pub fn from_entries(pairs: Vec<(String, NbtValue)>) -> (c: Self)
        ensures
            c@ == inserted_all(Seq::empty(), entries_data(pairs@)),
            distinct_names(c@),
    {
        let mut c = NbtCompound::new();
        let mut pairs = pairs;
        let ghost all = entries_data(pairs@);
        let ghost n = pairs@.len();
        proof {
            lemma_entries_data_len(pairs@);
            assert(all.skip(0) =~= all);
            assert(c@ =~= inserted_all(Seq::empty(), all.take(0)));
        }
        while pairs.len() > 0
            invariant
                n == all.len(),
                pairs@.len() <= n,
                entries_data(pairs@) == all.skip(n - pairs@.len()),
                c@ == inserted_all(Seq::empty(), all.take(n - pairs@.len())),
                distinct_names(c@),
            decreases pairs@.len(),
        {
            let ghost before = pairs@;
            let ghost i = n - before.len();
            let p = pairs.remove(0);
            proof {
                assert(pairs@ =~= before.drop_first());
                assert(entries_data(before)[0] == (p.0@, value_data(p.1)));
                assert(all.skip(i)[0] == all[i]);
                assert(all.skip(i + 1) =~= all.skip(i).drop_first());
                assert(all.take(i + 1).drop_last() =~= all.take(i));
                assert(all.take(i + 1).last() == all[i]);
            }
            c.insert(p.0, p.1);
        }
        assert(all.take(n as int) =~= all);
        c
    }

    /// The value stored under `name`.
    pub fn get(&self, name: &str) -> (r: Option<&NbtValue>)
        ensures
            r matches Some(v) ==> entry_index(self@, name@) matches Some(i) && self@[i].1 == v@,
            r is None ==> entry_index(self@, name@) is None,
    {
        proof {
            lemma_entries_data_len(self.entries@);
        }
        match self.find(name) {
            Some(i) => Some(&self.entries[i].1),
            None => None,
        }
    }

    /// The value stored under `name`, to change in place.
    pub fn get_mut(&mut self, name: &str) -> (r: Option<&mut NbtValue>)
        ensures
            r is None <==> entry_index(old(self)@, name@) is None,
            r is None ==> final(self)@ == old(self)@,
            r matches Some(v) ==> entry_index(old(self)@, name@) matches Some(i) && (*v)@ == old(self)@[i].1
                && final(self)@ == old(self)@.update(i, (name@, (*final(v))@)),
    {
        proof {
            lemma_entries_data_len(self.entries@);
            lemma_entries_data_update();
            lemma_entry_index_facts(self@, name@);
        }
        match self.find(name) {
            Some(i) => Some(&mut self.entries[i].1),
            None => None,
        }
    }

    /// Removes the entry named `name`, keeping the order of the others.
    pub fn remove(&mut self, name: &str) -> (r: Option<NbtValue>)
        ensures
            r matches Some(v) ==> entry_index(old(self)@, name@) matches Some(i) && old(self)@[i].1
                == v@ && final(self)@ == old(self)@.remove(i),
            r is None ==> entry_index(old(self)@, name@) is None && final(self)@ == old(self)@,
            distinct_names(old(self)@) ==> distinct_names(final(self)@),
    {
        proof {
            lemma_entries_data_len(self.entries@);
        }
        match self.find(name) {
            Some(i) => {
                let mut entries: Vec<(String, NbtValue)> = Vec::new();
                std::mem::swap(&mut entries, &mut self.entries);
                let ghost before = entries@;
                let (_, v) = entries.remove(i);
                proof {
                    lemma_entries_data_len(entries@);
                    assert(entries_data(entries@) =~= entries_data(before).remove(i as int));
                    if distinct_names(entries_data(before)) {
                        lemma_remove_distinct(entries_data(before), i as int);
                    }
                }
                self.entries = entries;
                Some(v)
            },
            None => None,
        }
    }

    /// Number of entries.
    pub fn len(&self) -> (n: usize)
        ensures
            n == self@.len(),
    {
        proof {
            lemma_entries_data_len(self.entries@);
        }
        self.entries.len()
    }

    /// Whether the compound has no entry.
    pub fn is_empty(&self) -> (b: bool)
        ensures
            b == (self@.len() == 0),
    {
        proof {
            lemma_entries_data_len(self.entries@);
        }
        self.entries.len() == 0
    }

    /// The entries in insertion order.
    pub fn entries(&self) -> (e: &Vec<(String, NbtValue)>)
        ensures
            entries_data(e@) == self@,
    {
        &self.entries
    }

    /// The names in insertion order.
    pub fn keys(&self) -> (k: Vec<String>)
        ensures
            k@.len() == self@.len(),
            forall|i: int| 0 <= i < k@.len() ==> #[trigger] k@[i]@ == self@[i].0,
    {
        proof {
            lemma_entries_data_len(self.entries@);
        }
        let mut out: Vec<String> = Vec::new();
        let mut i: usize = 0;
        while i < self.entries.len()
            invariant
                i <= self.entries@.len(),
                out@.len() == i,
                entries_data(self.entries@).len() == self.entries@.len(),
                forall|j: int|
                    0 <= j < self.entries@.len() ==> entries_data(self.entries@)[j] == (
                    #[trigger] self.entries@[j].0@,
                    value_data(self.entries@[j].1),
                    ),
                forall|j: int| 0 <= j < i ==> #[trigger] out@[j]@ == self@[j].0,
            decreases self.entries@.len() - i,
        {
            out.push(self.entries[i].0.clone());
            i = i + 1;
        }
        out
    }
}

impl Default for NbtCompound {
    fn default() -> (c: Self)
        ensures
            c@ == Seq::<(Seq<char>, NbtData)>::empty(),
    {
        NbtCompound::new()
    }
}

/// Replacing one named value replaces its content.
proof fn lemma_entries_data_update()
    ensures
        forall|s: Seq<(String, NbtValue)>, i: int, e: (String, NbtValue)|
            0 <= i < s.len() ==> #[trigger] entries_data(s.update(i, e)) == entries_data(s).update(
                i,
                (e.0@, value_data(e.1)),
            ),
{
    assert forall|s: Seq<(String, NbtValue)>, i: int, e: (String, NbtValue)|
        0 <= i < s.len() implies #[trigger] entries_data(s.update(i, e)) == entries_data(s).update(
            i,
            (e.0@, value_data(e.1)),
        ) by {
        lemma_entries_data_len(s);
        lemma_entries_data_len(s.update(i, e));
        assert(entries_data(s.update(i, e)) =~= entries_data(s).update(i, (e.0@, value_data(e.1))));
    }
}

pub(crate) proof fn lemma_entry_index_facts(entries: Seq<(Seq<char>, NbtData)>, key: Seq<char>)
    ensures
        entry_index(entries, key) matches Some(i) ==> 0 <= i < entries.len() && entries[i].0
            == key,
        entry_index(entries, key) is None ==> forall|j: int|
            0 <= j < entries.len() ==> #[trigger] entries[j].0 != key,
    decreases entries.len(),
{
    if entries.len() > 0 {
        lemma_entry_index_facts(entries.drop_last(), key);
        if entry_index(entries, key) is None {
            assert forall|j: int| 0 <= j < entries.len() implies #[trigger] entries[j].0 != key by {
                if j < entries.len() - 1 {
                    assert(entries.drop_last()[j] == entries[j]);
                }
            }
        } else if entries.last().0 != key {
            let i = entry_index(entries, key)->0;
            assert(entries.drop_last()[i] == entries[i]);
        }
    }
}

proof fn lemma_insert_distinct(entries: Seq<(Seq<char>, NbtData)>, key: Seq<char>, value: NbtData)
    requires
        distinct_names(entries),
    ensures
        distinct_names(compound_insert(entries, key, value)),
{
    lemma_entry_index_facts(entries, key);
    let r = compound_insert(entries, key, value);
    assert forall|i: int, j: int|
        0 <= i < r.len() && 0 <= j < r.len() && i != j implies #[trigger] r[i].0 != #[trigger] r[j].0 by {
        if entry_index(entries, key) is None {
            if i < entries.len() && j < entries.len() {
                assert(r[i] == entries[i] && r[j] == entries[j]);
            }
        } else {
            let k = entry_index(entries, key)->0;
            assert(entries[k].0 == key);
            if i != k && j != k {
                assert(r[i] == entries[i] && r[j] == entries[j]);
            } else if i == k {
                assert(r[j] == entries[j]);
                assert(entries[j].0 != entries[k].0);
            } else {
                assert(r[i] == entries[i]);
                assert(entries[i].0 != entries[k].0);
            }
        }
    }
}

proof fn lemma_remove_distinct(entries: Seq<(Seq<char>, NbtData)>, k: int)
    requires
        distinct_names(entries),
        0 <= k < entries.len(),
    ensures
        distinct_names(entries.remove(k)),
{
    let r = entries.remove(k);
    assert forall|i: int, j: int|
        0 <= i < r.len() && 0 <= j < r.len() && i != j implies #[trigger] r[i].0 != #[trigger] r[j].0 by {
        let ii = if i < k {
            i
        } else {
            i + 1
        };
        let jj = if j < k {
            j
        } else {
            j + 1
        };
        assert(r[i] == entries[ii]);
        assert(r[j] == entries[jj]);
    }
}

/// The compound made by inserting each of `pairs`, in order, into `acc`.
pub open spec fn inserted_all(acc: Seq<(Seq<char>, NbtData)>, pairs: Seq<(Seq<char>, NbtData)>) -> Seq<
    (Seq<char>, NbtData),
>
    decreases pairs.len(),
{
    if pairs.len() == 0 {
        acc
    } else {
        let p = pairs.last();
        compound_insert(inserted_all(acc, pairs.drop_last()), p.0, p.1)
    }
}

/// The value a compound holds under `key`, if any.
pub open spec fn compound_get(entries: Seq<(Seq<char>, NbtData)>, key: Seq<char>) -> Option<NbtData> {
    match entry_index(entries, key) {
        Some(i) => Some(entries[i].1),
        None => None,
    }
}

/// With distinct names, `key` is found exactly where it stands.
proof fn lemma_entry_index_unique(entries: Seq<(Seq<char>, NbtData)>, key: Seq<char>, i: int)
    requires
        distinct_names(entries),
        0 <= i < entries.len(),
        entries[i].0 == key,
    ensures
        entry_index(entries, key) == Some(i),
{
    lemma_entry_index_facts(entries, key);
    if entry_index(entries, key) is None {
        assert(entries[i].0 != key);
    }
}

/// In a compound whose names are distinct, the value inserted under a name
/// is the one read back under it, every other name reads as before, and
/// the names stay distinct.
pub proof fn lemma_insert_then_get(
    entries: Seq<(Seq<char>, NbtData)>,
    key: Seq<char>,
    value: NbtData,
    other: Seq<char>,
)
    requires
        distinct_names(entries),
    ensures
        distinct_names(compound_insert(entries, key, value)),
        compound_get(compound_insert(entries, key, value), key) == Some(value),
        other != key ==> compound_get(compound_insert(entries, key, value), other) == compound_get(
            entries,
            other,
        ),
{
    lemma_insert_distinct(entries, key, value);
    lemma_entry_index_facts(entries, key);
    lemma_entry_index_facts(entries, other);
    let r = compound_insert(entries, key, value);
    match entry_index(entries, key) {
        Some(k) => {
            lemma_entry_index_unique(r, key, k);
            if other != key {
                match entry_index(entries, other) {
                    Some(j) => {
                        assert(r[j] == entries[j]);
                        lemma_entry_index_unique(r, other, j);
                    },
                    None => {
                        lemma_entry_index_facts(r, other);
                        if entry_index(r, other) is Some {
                            let j = entry_index(r, other)->0;
                            if j != k {
                                assert(r[j] == entries[j]);
                            }
                        }
                    },
                }
            }
        },
        None => {
            assert(r.drop_last() =~= entries);
        },
    }
}

/// In a compound whose names are distinct, a removed name reads as absent
/// and every other name reads as before.
pub proof fn lemma_remove_then_get(entries: Seq<(Seq<char>, NbtData)>, k: int, other: Seq<char>)
    requires
        distinct_names(entries),
        0 <= k < entries.len(),
    ensures
        distinct_names(entries.remove(k)),
        compound_get(entries.remove(k), entries[k].0) is None,
        other != entries[k].0 ==> compound_get(entries.remove(k), other) == compound_get(entries, other),
{
    lemma_remove_distinct(entries, k);
    let r = entries.remove(k);
    let key = entries[k].0;
    lemma_entry_index_facts(r, key);
    if entry_index(r, key) is Some {
        let j = entry_index(r, key)->0;
        let jj = if j < k { j } else { j + 1 };
        assert(r[j] == entries[jj]);
    }
    if other != key {
        lemma_entry_index_facts(entries, other);
        lemma_entry_index_facts(r, other);
        match entry_index(entries, other) {
            Some(j) => {
                assert(j != k);
                let jr = if j < k { j } else { j - 1 };
                assert(r[jr] == entries[j]);
                lemma_entry_index_unique(r, other, jr);
            },
            None => {
                if entry_index(r, other) is Some {
                    let j = entry_index(r, other)->0;
                    let jj = if j < k { j } else { j + 1 };
                    assert(r[j] == entries[jj]);
                }
            },
        }
    }
}

impl Nbt {
    /// A root named `name`.
    pub fn new(name: String, root: NbtCompound) -> (n: Self)
        ensures
            n.name@ == name@,
            n.root@ == root@,
    {
        Nbt { name, root }
    }

    /// A root with an empty name.
    pub fn unnamed(root: NbtCompound) -> (n: Self)
        ensures
            n.name@ == Seq::<char>::empty(),
            n.root@ == root@,
    {
        Nbt { name: String::new(), root }
    }
}

} // verus!
