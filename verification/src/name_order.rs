//! The order in which declaration names are kept: the lexicographic order
//! of their characters, which is the order of `str`.

use std::str::Chars;
use vstd::prelude::*;
use vstd::std_specs::iter::IteratorSpec;

verus! {

/// `a` and `b` hold the same character at every position below `k`.
pub open spec fn agree_below(a: Seq<char>, b: Seq<char>, k: int) -> bool {
    &&& 0 <= k <= a.len()
    &&& k <= b.len()
    &&& forall|i: int| 0 <= i < k ==> a[i] == b[i]
}

/// `a` comes strictly before `b` in lexicographic order: at the first
/// position where they differ `a` holds the smaller character, or `a` ends
/// there and `b` goes on.
pub open spec fn name_lt(a: Seq<char>, b: Seq<char>) -> bool {
    exists|k: int| #[trigger] agree_below(a, b, k) && k < b.len() && (k == a.len() || a[k] < b[k])
}

/// How one name stands to another.
#[derive(Clone, Copy, Debug, PartialEq, Eq, Structural)]
pub enum NameOrder {
    Before,
    Same,
    After,
}

/// No name comes before itself.
pub proof fn lemma_name_lt_irreflexive(a: Seq<char>)
    ensures
        !name_lt(a, a),
{
}

/// What comes before a name comes before all that the name comes before.
pub proof fn lemma_name_lt_transitive(a: Seq<char>, b: Seq<char>, c: Seq<char>)
    requires
        name_lt(a, b),
        name_lt(b, c),
    ensures
        name_lt(a, c),
{
    let k1 = choose|k: int| #[trigger]
        agree_below(a, b, k) && k < b.len() && (k == a.len() || a[k] < b[k]);
    let k2 = choose|k: int| #[trigger]
        agree_below(b, c, k) && k < c.len() && (k == b.len() || b[k] < c[k]);
    let k = if k1 <= k2 { k1 } else { k2 };
    assert(agree_below(a, c, k));
}

/// Two different names that agree below `k` differ at some place from `k`
/// on, or one of them ends there.
proof fn lemma_first_difference(a: Seq<char>, b: Seq<char>, k: int)
    requires
        agree_below(a, b, k),
        a != b,
    ensures
        name_lt(a, b) || name_lt(b, a),
    decreases a.len() - k,
{
    if k == a.len() && k == b.len() {
        assert(a =~= b);
    } else if k < a.len() && k < b.len() && a[k] == b[k] {
        lemma_first_difference(a, b, k + 1);
    } else {
        assert(agree_below(b, a, k));
    }
}

/// Two names are equal, or one comes before the other, and only one of the
/// three holds.
pub proof fn lemma_name_lt_trichotomy(a: Seq<char>, b: Seq<char>)
    ensures
        name_lt(a, b) || a == b || name_lt(b, a),
        !(name_lt(a, b) && a == b),
        !(name_lt(b, a) && a == b),
        !(name_lt(a, b) && name_lt(b, a)),
{
    if a != b {
        lemma_first_difference(a, b, 0);
    }
    lemma_name_lt_irreflexive(a);
    if name_lt(a, b) && name_lt(b, a) {
        lemma_name_lt_transitive(a, b, a);
    }
}

/// Compares two names character by character, from the front.
pub fn name_order(a: &str, b: &str) -> (r: NameOrder)
    ensures
        r == NameOrder::Before <==> name_lt(a@, b@),
        r == NameOrder::Same <==> a@ == b@,
        r == NameOrder::After <==> name_lt(b@, a@),
{
    let mut xs: Chars = a.chars();
    let mut ys: Chars = b.chars();
    let ghost mut k: int = 0;
    proof {
        lemma_name_lt_trichotomy(a@, b@);
    }
    loop
        invariant
            agree_below(a@, b@, k),
            xs.remaining() == a@.skip(k),
            ys.remaining() == b@.skip(k),
            !(name_lt(a@, b@) && a@ == b@),
            !(name_lt(b@, a@) && a@ == b@),
            !(name_lt(a@, b@) && name_lt(b@, a@)),
        decreases a@.len() - k,
    {
        let x = xs.next();
        let y = ys.next();
        match (x, y) {
            (None, None) => {
                assert(a@ =~= b@);
                return NameOrder::Same;
            },
            (None, Some(_)) => {
                return NameOrder::Before;
            },
            (Some(_), None) => {
                assert(agree_below(b@, a@, k));
                return NameOrder::After;
            },
            (Some(c), Some(d)) => {
                if c < d {
                    return NameOrder::Before;
                } else if d < c {
                    assert(agree_below(b@, a@, k));
                    return NameOrder::After;
                }
                proof {
                    assert(a@.skip(k).drop_first() =~= a@.skip(k + 1));
                    assert(b@.skip(k).drop_first() =~= b@.skip(k + 1));
                    k = k + 1;
                }
            },
        }
    }
}

} // verus!
