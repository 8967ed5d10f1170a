//! Small facts about text the other modules share.
use vstd::prelude::*;

verus! {

/// Whether two strings hold the same characters.
pub fn str_eq(a: &str, b: &str) -> (r: bool)
    ensures
        r == (a@ == b@),
{
    let n = a.unicode_len();
    let m = b.unicode_len();
    if n != m {
        return false;
    }
    let mut i: usize = 0;
    while i < n
        invariant
            n == a@.len(),
            m == b@.len(),
            n == m,
            i <= n,
            forall|j: int| 0 <= j < i ==> a@[j] == b@[j],
        decreases n - i,
    {
        if a.get_char(i) != b.get_char(i) {
            return false;
        }
        i = i + 1;
    }
    assert(a@ =~= b@);
    true
}

/// Whether `a` and `b` agree on their first `k` characters.
pub open spec fn same_prefix(a: Seq<char>, b: Seq<char>, k: int) -> bool {
    &&& 0 <= k <= a.len()
    &&& k <= b.len()
    &&& forall|j: int| 0 <= j < k ==> #[trigger] a[j] == b[j]
}

/// Whether `a` comes before `b` in the order of `String`: lexicographic
/// by character (the order of their UTF-8 bytes).
pub open spec fn text_lt(a: Seq<char>, b: Seq<char>) -> bool {
    exists|k: int|
        #![trigger same_prefix(a, b, k)]
        same_prefix(a, b, k) && (k == a.len() && k < b.len() || k < a.len() && k < b.len() && (
        a[k] as u32) < (b[k] as u32))
}

/// The order of texts is transitive.
pub proof fn lemma_text_lt_trans(a: Seq<char>, b: Seq<char>, c: Seq<char>)
    requires
        text_lt(a, b),
        text_lt(b, c),
    ensures
        text_lt(a, c),
{
    let k1 = choose|k: int|
        #![trigger same_prefix(a, b, k)]
        same_prefix(a, b, k) && (k == a.len() && k < b.len() || k < a.len() && k < b.len() && (
        a[k] as u32) < (b[k] as u32));
    let k2 = choose|k: int|
        #![trigger same_prefix(b, c, k)]
        same_prefix(b, c, k) && (k == b.len() && k < c.len() || k < b.len() && k < c.len() && (
        b[k] as u32) < (c[k] as u32));
    let k = if k1 < k2 { k1 } else { k2 };
    assert(same_prefix(a, c, k));
}

/// No text comes before itself.
pub proof fn lemma_text_lt_irreflexive(a: Seq<char>)
    ensures
        !text_lt(a, a),
{
}

/// Whether `a` comes before `b` in the order of `String`.
pub fn str_lt(a: &str, b: &str) -> (r: bool)
    ensures
        r == text_lt(a@, b@),
{
    let n = a.unicode_len();
    let m = b.unicode_len();
    let mut i: usize = 0;
    while i < n && i < m
        invariant
            n == a@.len(),
            m == b@.len(),
            i <= n,
            i <= m,
            forall|j: int| 0 <= j < i ==> a@[j] == b@[j],
        decreases n - i,
    {
        let x = a.get_char(i);
        let y = b.get_char(i);
        if x != y {
            let r = (x as u32) < (y as u32);
            proof {
                assert(same_prefix(a@, b@, i as int));
                if !r {
                    assert forall|k: int| #![trigger same_prefix(a@, b@, k)]
                        same_prefix(a@, b@, k) implies !(k == a@.len() && k < b@.len() || k < a@.len() && k
                        < b@.len() && (a@[k] as u32) < (b@[k] as u32)) by {
                        if k > i {
                            assert(a@[i as int] == b@[i as int]);
                        }
                    }
                }
            }
            return r;
        }
        i = i + 1;
    }
    let r = i == n && i < m;
    proof {
        assert(same_prefix(a@, b@, i as int));
        if !r {
            assert forall|k: int| #![trigger same_prefix(a@, b@, k)]
                same_prefix(a@, b@, k) implies !(k == a@.len() && k < b@.len() || k < a@.len() && k
                < b@.len() && (a@[k] as u32) < (b@[k] as u32)) by {
                if k < i {
                    assert(a@[k] == b@[k]);
                }
            }
        }
    }
    r
}

} // verus!
