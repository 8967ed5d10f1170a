//! Resource locations (`namespace:path`), e.g. `minecraft:stone`.
//!
//! - `namespace`: non-empty, characters from `[a-z0-9_.-]`, defaults to `minecraft`
//! - `path`: non-empty, characters from `[a-z0-9_./-]`
use vstd::prelude::*;
use vstd::std_specs::cmp::PartialEqSpecImpl;
use vstd::string::*;

verus! {

/// A Minecraft resource location, e.g. `minecraft:stone`.
#[derive(Debug, Hash)]
pub struct Identifier {
    namespace: String,
    path: String,
}

#[derive(Debug, Clone, Copy, PartialEq, Eq, Structural)]
pub enum IdentifierParseError {
    /// The namespace or the path is empty.
    Empty,
    /// This character may not stand in a namespace.
    InvalidNamespaceChar(char),
    /// This character may not stand in a path.
    InvalidPathChar(char),
}

/// Characters allowed in a namespace.
pub open spec fn is_namespace_char(c: char) -> bool {
    ('a' <= c && c <= 'z') || ('0' <= c && c <= '9') || c == '_' || c == '-' || c == '.'
}

/// Characters allowed in a path.
pub open spec fn is_path_char(c: char) -> bool {
    is_namespace_char(c) || c == '/'
}

/// The first character of `s` that is not allowed (a path when `path`,
/// a namespace otherwise), if any.
pub open spec fn first_invalid(s: Seq<char>, path: bool) -> Option<char>
    decreases s.len(),
{
    if s.len() == 0 {
        None
    } else if !(if path {
        is_path_char(s[0])
    } else {
        is_namespace_char(s[0])
    }) {
        Some(s[0])
    } else {
        first_invalid(s.drop_first(), path)
    }
}

/// Outcome of checking a namespace.
pub open spec fn namespace_check(s: Seq<char>) -> Result<(), IdentifierParseError> {
    if s.len() == 0 {
        Err(IdentifierParseError::Empty)
    } else {
        match first_invalid(s, false) {
            Some(c) => Err(IdentifierParseError::InvalidNamespaceChar(c)),
            None => Ok(()),
        }
    }
}

/// Outcome of checking a path.
pub open spec fn path_check(s: Seq<char>) -> Result<(), IdentifierParseError> {
    if s.len() == 0 {
        Err(IdentifierParseError::Empty)
    } else {
        match first_invalid(s, true) {
            Some(c) => Err(IdentifierParseError::InvalidPathChar(c)),
            None => Ok(()),
        }
    }
}

/// Outcome of building an identifier from its two parts: the namespace is
/// checked first.
pub open spec fn identifier_check(ns: Seq<char>, path: Seq<char>) -> Result<(), IdentifierParseError> {
    match namespace_check(ns) {
        Err(e) => Err(e),
        Ok(()) => path_check(path),
    }
}

/// A well-formed identifier: both parts non-empty and made of allowed characters.
pub open spec fn valid_identifier(ns: Seq<char>, path: Seq<char>) -> bool {
    identifier_check(ns, path) is Ok
}

/// The namespace assumed when a text has no `:`.
pub open spec fn default_namespace() -> Seq<char> {
    seq!['m', 'i', 'n', 'e', 'c', 'r', 'a', 'f', 't']
}

/// Index of the first `:` in `s`, if any.
pub open spec fn first_colon(s: Seq<char>) -> Option<nat>
    decreases s.len(),
{
    if s.len() == 0 {
        None
    } else if s[0] == ':' {
        Some(0)
    } else {
        match first_colon(s.drop_first()) {
            Some(i) => Some(i + 1),
            None => None,
        }
    }
}

/// The (namespace, path) a text stands for: split at the first `:`,
/// or the default namespace when there is none.
pub open spec fn split_identifier(s: Seq<char>) -> (Seq<char>, Seq<char>) {
    match first_colon(s) {
        Some(i) => (s.take(i as int), s.skip((i + 1) as int)),
        None => (default_namespace(), s),
    }
}

/// Outcome of parsing `namespace:path` text.
pub open spec fn parse_check(s: Seq<char>) -> Result<(), IdentifierParseError> {
    if s.len() == 0 {
        Err(IdentifierParseError::Empty)
    } else {
        identifier_check(split_identifier(s).0, split_identifier(s).1)
    }
}

/// The text form `namespace:path`.
pub open spec fn identifier_text(ns: Seq<char>, path: Seq<char>) -> Seq<char> {
    ns + seq![':'] + path
}

proof fn lemma_first_invalid_skip(s: Seq<char>, k: int, path: bool)
    requires
        0 <= k < s.len(),
    ensures
        first_invalid(s.skip(k), path) == (if !(if path {
            is_path_char(s[k])
        } else {
            is_namespace_char(s[k])
        }) {
            Some(s[k])
        } else {
            first_invalid(s.skip(k + 1), path)
        }),
{
    assert(s.skip(k).drop_first() =~= s.skip(k + 1));
    assert(s.skip(k)[0] == s[k]);
}

proof fn lemma_first_invalid_allowed(s: Seq<char>, path: bool)
    requires
        first_invalid(s, path) is None,
    ensures
        forall|i: int|
            0 <= i < s.len() ==> (if path {
                is_path_char(#[trigger] s[i])
            } else {
                is_namespace_char(s[i])
            }),
    decreases s.len(),
{
    if s.len() > 0 {
        lemma_first_invalid_allowed(s.drop_first(), path);
        assert forall|i: int| 0 < i < s.len() implies (if path {
            is_path_char(#[trigger] s[i])
        } else {
            is_namespace_char(s[i])
        }) by {
            assert(s[i] == s.drop_first()[i - 1]);
        }
    }
}

proof fn lemma_no_colon(s: Seq<char>)
    requires
        forall|i: int| 0 <= i < s.len() ==> #[trigger] s[i] != ':',
    ensures
        first_colon(s) is None,
    decreases s.len(),
{
    if s.len() > 0 {
        assert forall|i: int| 0 <= i < s.drop_first().len() implies #[trigger] s.drop_first()[i]
            != ':' by {
            assert(s.drop_first()[i] == s[i + 1]);
        }
        lemma_no_colon(s.drop_first());
    }
}

proof fn lemma_first_colon_concat(a: Seq<char>, b: Seq<char>)
    requires
        first_colon(a) is None,
    ensures
        first_colon(a + seq![':'] + b) == Some(a.len()),
    decreases a.len(),
{
    if a.len() > 0 {
        assert((a + seq![':'] + b).drop_first() =~= a.drop_first() + seq![':'] + b);
        lemma_first_colon_concat(a.drop_first(), b);
    } else {
        assert((a + seq![':'] + b)[0] == ':');
    }
}

/// The text form of a well-formed identifier parses back to the same
/// namespace and path.
pub proof fn lemma_identifier_text_roundtrip(ns: Seq<char>, path: Seq<char>)
    requires
        valid_identifier(ns, path),
    ensures
        parse_check(identifier_text(ns, path)) is Ok,
        split_identifier(identifier_text(ns, path)) == (ns, path),
{
    lemma_first_invalid_allowed(ns, false);
    lemma_no_colon(ns);
    lemma_first_colon_concat(ns, path);
    let t = identifier_text(ns, path);
    assert(t.take(ns.len() as int) =~= ns);
    assert(t.skip((ns.len() + 1) as int) =~= path);
}

proof fn lemma_first_invalid_none(s: Seq<char>, path: bool)
    requires
        forall|i: int|
            0 <= i < s.len() ==> (if path {
                is_path_char(#[trigger] s[i])
            } else {
                is_namespace_char(s[i])
            }),
    ensures
        first_invalid(s, path) is None,
    decreases s.len(),
{
    if s.len() > 0 {
        assert forall|i: int| 0 <= i < s.drop_first().len() implies (if path {
            is_path_char(#[trigger] s.drop_first()[i])
        } else {
            is_namespace_char(s.drop_first()[i])
        }) by {
            assert(s.drop_first()[i] == s[i + 1]);
        }
        lemma_first_invalid_none(s.drop_first(), path);
    }
}

/// An identifier's namespace may hold lowercase ASCII letters, digits,
/// `_`, `-` and `.`, and its path those and `/`: two non-empty parts make
/// an identifier exactly when every character is in its part's alphabet,
/// and then its `namespace:path` text parses back to them.
pub proof fn lemma_identifier_alphabet(ns: Seq<char>, path: Seq<char>)
    requires
        ns.len() > 0,
        path.len() > 0,
    ensures
        valid_identifier(ns, path) <==> (forall|i: int|
            0 <= i < ns.len() ==> {
                let c = #[trigger] ns[i];
                ('a' <= c && c <= 'z') || ('0' <= c && c <= '9') || c == '_' || c == '-' || c == '.'
            }) && (forall|i: int|
            0 <= i < path.len() ==> {
                let c = #[trigger] path[i];
                ('a' <= c && c <= 'z') || ('0' <= c && c <= '9') || c == '_' || c == '-' || c == '.'
                    || c == '/'
            }),
        valid_identifier(ns, path) ==> parse_check(identifier_text(ns, path)) is Ok && split_identifier(
            identifier_text(ns, path),
        ) == (ns, path),
{
    if valid_identifier(ns, path) {
        lemma_first_invalid_allowed(ns, false);
        lemma_first_invalid_allowed(path, true);
        lemma_identifier_text_roundtrip(ns, path);
    }
    if (forall|i: int|
        0 <= i < ns.len() ==> {
            let c = #[trigger] ns[i];
            ('a' <= c && c <= 'z') || ('0' <= c && c <= '9') || c == '_' || c == '-' || c == '.'
        }) && (forall|i: int|
        0 <= i < path.len() ==> {
            let c = #[trigger] path[i];
            ('a' <= c && c <= 'z') || ('0' <= c && c <= '9') || c == '_' || c == '-' || c == '.' || c
                == '/'
        }) {
        assert forall|i: int| 0 <= i < ns.len() implies is_namespace_char(#[trigger] ns[i]) by {}
        assert forall|i: int| 0 <= i < path.len() implies is_path_char(#[trigger] path[i]) by {}
        lemma_first_invalid_none(ns, false);
        lemma_first_invalid_none(path, true);
    }
}

/// Checks every character of `s` in order against the namespace or path alphabet.
fn find_invalid(s: &str, path: bool) -> (res: Option<char>)
    ensures
        res == first_invalid(s@, path),
{
    let n = s.unicode_len();
    let mut i: usize = 0;
    assert(s@.skip(0) =~= s@);
    while i < n
        invariant
            n == s@.len(),
            i <= n,
            first_invalid(s@.skip(i as int), path) == first_invalid(s@, path),
        decreases n - i,
    {
        let c = s.get_char(i);
        proof {
            lemma_first_invalid_skip(s@, i as int, path);
        }
        let ok = if path {
            is_valid_path_char(c)
        } else {
            is_valid_namespace_char(c)
        };
        if !ok {
            return Some(c);
        }
        i = i + 1;
    }
    assert(s@.skip(n as int).len() == 0);
    None
}

/// Whether `c` may stand in a namespace.
pub fn is_valid_namespace_char(c: char) -> (b: bool)
    ensures
        b == is_namespace_char(c),
{
    ('a' <= c && c <= 'z') || ('0' <= c && c <= '9') || c == '_' || c == '-' || c == '.'
}

/// Whether `c` may stand in a path.
pub fn is_valid_path_char(c: char) -> (b: bool)
    ensures
        b == is_path_char(c),
{
    is_valid_namespace_char(c) || c == '/'
}

/// Checks a namespace: non-empty, then every character allowed.
pub fn validate_namespace(s: &str) -> (res: Result<(), IdentifierParseError>)
    ensures
        res == namespace_check(s@),
{
    if s.is_empty() {
        return Err(IdentifierParseError::Empty);
    }
    match find_invalid(s, false) {
        Some(c) => Err(IdentifierParseError::InvalidNamespaceChar(c)),
        None => Ok(()),
    }
}

/// Checks a path: non-empty, then every character allowed.
pub fn validate_path(s: &str) -> (res: Result<(), IdentifierParseError>)
    ensures
        res == path_check(s@),
{
    if s.is_empty() {
        return Err(IdentifierParseError::Empty);
    }
    match find_invalid(s, true) {
        Some(c) => Err(IdentifierParseError::InvalidPathChar(c)),
        None => Ok(()),
    }
}

impl View for Identifier {
    type V = (Seq<char>, Seq<char>);

    /// The namespace and the path.
    closed spec fn view(&self) -> (Seq<char>, Seq<char>) {
        (self.namespace@, self.path@)
    }
}

impl PartialEq for Identifier {
    fn eq(&self, other: &Self) -> (r: bool) {
        self.namespace == other.namespace && self.path == other.path
    }
}

impl Eq for Identifier {

}

impl Clone for Identifier {
    fn clone(&self) -> (r: Self)
        ensures
            r@ == self@,
    {
        Identifier { namespace: self.namespace.clone(), path: self.path.clone() }
    }
}

impl PartialEqSpecImpl for Identifier {
    open spec fn obeys_eq_spec() -> bool {
        true
    }

    open spec fn eq_spec(&self, other: &Self) -> bool {
        self@ == other@
    }
}

impl Identifier {
    /// Builds an identifier, checking the namespace and then the path.
    pub fn new(namespace: &str, path: &str) -> (res: Result<Self, IdentifierParseError>)
        ensures
            res is Ok <==> identifier_check(namespace@, path@) is Ok,
            res matches Err(e) ==> identifier_check(namespace@, path@) == Err::<(), _>(e),
            res matches Ok(id) ==> id@ == (namespace@, path@),
    {
        validate_namespace(namespace)?;
        validate_path(path)?;
        Ok(Identifier { namespace: namespace.to_owned(), path: path.to_owned() })
    }

    /// An identifier in the `minecraft` namespace.
    pub fn minecraft(path: &str) -> (res: Result<Self, IdentifierParseError>)
        ensures
            res is Ok <==> path_check(path@) is Ok,
            res matches Err(e) ==> path_check(path@) == Err::<(), _>(e),
            res matches Ok(id) ==> id@ == (default_namespace(), path@),
    {
        let ns = "minecraft";
        proof {
            reveal_strlit("minecraft");
            assert(ns@ =~= default_namespace());
            lemma_first_invalid_allowed_default();
        }
        Self::new(ns, path)
    }

    /// Builds an identifier without any check; only for input statically
    /// known to be valid.
    pub fn new_unchecked(namespace: &str, path: &str) -> (id: Self)
        ensures
            id@ == (namespace@, path@),
    {
        Identifier { namespace: namespace.to_owned(), path: path.to_owned() }
    }

    /// The namespace.
    pub fn namespace(&self) -> (s: &str)
        ensures
            s@ == self@.0,
    {
        self.namespace.as_str()
    }

    /// The path.
    pub fn path(&self) -> (s: &str)
        ensures
            s@ == self@.1,
    {
        self.path.as_str()
    }

    /// The namespace and the path, owned.
    pub fn into_parts(self) -> (parts: (String, String))
        ensures
            parts.0@ == self@.0,
            parts.1@ == self@.1,
    {
        (self.namespace, self.path)
    }

    /// The text form `namespace:path`.
    pub fn as_str(&self) -> (s: String)
        ensures
            s@ == identifier_text(self@.0, self@.1),
    {
        let mut s = self.namespace.clone();
        s.append(":");
        s.append(self.path.as_str());
        proof {
            reveal_strlit(":");
        }
        s
    }

    /// Parses `namespace:path`; a text without `:` is a path in the
    /// `minecraft` namespace.
    pub fn from_str(s: &str) -> (res: Result<Self, IdentifierParseError>)
        ensures
            res is Ok <==> parse_check(s@) is Ok,
            res matches Err(e) ==> parse_check(s@) == Err::<(), _>(e),
            res matches Ok(id) ==> id@ == split_identifier(s@),
    {
        if s.is_empty() {
            return Err(IdentifierParseError::Empty);
        }
        let n = s.unicode_len();
        let mut i: usize = 0;
        assert(s@.skip(0) =~= s@);
        while i < n
            invariant
                n == s@.len(),
                i <= n,
                forall|j: int| 0 <= j < i ==> #[trigger] s@[j] != ':',
            decreases n - i,
        {
            let c = s.get_char(i);
            if c == ':' {
                let ns = s.substring_char(0, i);
                let rest = s.substring_char(i + 1, n);
                proof {
                    lemma_no_colon(s@.take(i as int));
                    assert(s@ =~= s@.take(i as int) + seq![':'] + s@.skip(i + 1));
                    lemma_first_colon_concat(s@.take(i as int), s@.skip(i + 1));
                    assert(ns@ =~= s@.take(i as int));
                    assert(rest@ =~= s@.skip(i + 1));
                }
                return Self::new(ns, rest);
            }
            i = i + 1;
        }
        proof {
            lemma_no_colon(s@);
            lemma_first_invalid_allowed_default();
        }
        Self::minecraft(s)
    }
}

proof fn lemma_first_invalid_allowed_default()
    ensures
        namespace_check(default_namespace()) is Ok,
{
    reveal_with_fuel(first_invalid, 10);
}

impl std::str::FromStr for Identifier {
    type Err = IdentifierParseError;

    /// Parses `s` as [`Identifier::from_str`] does.
    fn from_str(s: &str) -> (res: Result<Self, Self::Err>)
        ensures
            res is Ok <==> parse_check(s@) is Ok,
            res matches Err(e) ==> parse_check(s@) == Err::<(), _>(e),
            res matches Ok(id) ==> id@ == split_identifier(s@),
    {
        Identifier::from_str(s)
    }
}

} // verus!
