//! Sequences of entries whose names ascend: the form in which a table
//! keeps its entries.

use crate::canon::canonical;
use crate::canon::distinct_names;
use crate::canon::lemma_canonical_distinct;
use crate::canon::named_at;
use crate::canon::names_of;
use crate::name_order::lemma_name_lt_irreflexive;
use crate::name_order::lemma_name_lt_trichotomy;
use crate::name_order::name_lt;
use vstd::prelude::*;

verus! {

/// Each name comes strictly before all that follow it.
pub open spec fn ascending(names: Seq<Seq<char>>) -> bool {
    forall|i: int, j: int| 0 <= i < j < names.len() ==> name_lt(names[i], names[j])
}

/// Ascending names are pairwise different.
pub proof fn lemma_ascending_distinct<P>(entries: Seq<(Seq<char>, P)>)
    requires
        ascending(names_of(entries)),
    ensures
        distinct_names(entries),
{
    assert forall|i: int, j: int| 0 <= i < j < entries.len() implies entries[i].0
        != entries[j].0 by {
        assert(name_lt(names_of(entries)[i], names_of(entries)[j]));
        lemma_name_lt_irreflexive(entries[i].0);
    }
}

/// In an ascending sequence of entries the canonical mapping holds exactly
/// the entries: each name maps to the payload beside it.
pub proof fn lemma_ascending_canonical<P>(entries: Seq<(Seq<char>, P)>)
    requires
        ascending(names_of(entries)),
    ensures
        forall|i: int|
            0 <= i < entries.len() ==> canonical(entries).contains_key(#[trigger] entries[i].0)
                && canonical(entries)[entries[i].0] == entries[i].1,
        forall|name: Seq<char>| #[trigger]
            canonical(entries).contains_key(name) ==> exists|i: int| named_at(entries, i, name),
{
    lemma_ascending_distinct(entries);
    assert forall|i: int| 0 <= i < entries.len() implies canonical(entries).contains_key(
        #[trigger] entries[i].0,
    ) && canonical(entries)[entries[i].0] == entries[i].1 by {
        lemma_canonical_distinct(entries, i);
    }
}

/// The canonical mapping of ascending entries has as many names as there
/// are entries.
pub proof fn lemma_ascending_len<P>(entries: Seq<(Seq<char>, P)>)
    requires
        ascending(names_of(entries)),
    ensures
        canonical(entries).dom().finite(),
        canonical(entries).len() == entries.len(),
{
    let names = names_of(entries);
    lemma_ascending_distinct(entries);
    assert forall|name: Seq<char>| #[trigger]
        canonical(entries).dom().contains(name) implies names.to_set().contains(name) by {
        let i = choose|i: int| named_at(entries, i, name);
        assert(names[i] == name);
    }
    assert forall|name: Seq<char>| #[trigger]
        names.to_set().contains(name) implies canonical(entries).dom().contains(name) by {
        let i = choose|i: int| 0 <= i < names.len() && names[i] == name;
        assert(named_at(entries, i, name));
    }
    assert(canonical(entries).dom() =~= names.to_set());
    vstd::seq_lib::seq_to_set_is_finite(names);
    names.unique_seq_to_set();
}

/// Two ascending sequences of entries that declare the same names hold the
/// same name at every place below `upto`.
proof fn lemma_same_names_below<P>(
    a: Seq<(Seq<char>, P)>,
    b: Seq<(Seq<char>, P)>,
    upto: int,
)
    requires
        ascending(names_of(a)),
        ascending(names_of(b)),
        canonical(a).dom() == canonical(b).dom(),
        0 <= upto <= a.len(),
        upto <= b.len(),
    ensures
        forall|k: int| 0 <= k < upto ==> a[k].0 == b[k].0,
    decreases upto,
{
    if upto > 0 {
        let k = upto - 1;
        lemma_same_names_below(a, b, k);
        lemma_ascending_canonical(a);
        lemma_ascending_canonical(b);
        assert(canonical(b).contains_key(a[k].0));
        assert(canonical(a).contains_key(b[k].0));
        let in_b = choose|j: int| named_at(b, j, a[k].0);
        let in_a = choose|j: int| named_at(a, j, b[k].0);
        if in_b < k {
            assert(name_lt(names_of(a)[in_b], names_of(a)[k]));
            lemma_name_lt_irreflexive(a[k].0);
        }
        if in_a < k {
            assert(name_lt(names_of(b)[in_a], names_of(b)[k]));
            lemma_name_lt_irreflexive(b[k].0);
        }
        if in_b > k && in_a > k {
            assert(name_lt(names_of(b)[k], names_of(b)[in_b]));
            assert(name_lt(names_of(a)[k], names_of(a)[in_a]));
            lemma_name_lt_trichotomy(a[k].0, b[k].0);
        }
    }
}

/// The order of a table is fixed by its names: two ascending sequences of
/// entries that declare the same names list them in the same order.
pub proof fn lemma_names_determined<P>(a: Seq<(Seq<char>, P)>, b: Seq<(Seq<char>, P)>)
    requires
        ascending(names_of(a)),
        ascending(names_of(b)),
        canonical(a).dom() == canonical(b).dom(),
    ensures
        names_of(a) == names_of(b),
{
    let n = if a.len() <= b.len() { a.len() as int } else { b.len() as int };
    lemma_same_names_below(a, b, n);
    lemma_ascending_canonical(a);
    lemma_ascending_canonical(b);
    if a.len() < b.len() {
        assert(canonical(a).contains_key(b[n].0));
        let j = choose|j: int| named_at(a, j, b[n].0);
        assert(name_lt(names_of(b)[j], names_of(b)[n]));
        lemma_name_lt_irreflexive(b[n].0);
    }
    if b.len() < a.len() {
        assert(canonical(b).contains_key(a[n].0));
        let j = choose|j: int| named_at(b, j, a[n].0);
        assert(name_lt(names_of(a)[j], names_of(a)[n]));
        lemma_name_lt_irreflexive(a[n].0);
    }
    assert(names_of(a) =~= names_of(b));
}

/// Two ascending sequences of entries with the same canonical mapping are
/// the same sequence: the same names, in the same order, with the same
/// payloads.
pub proof fn lemma_entries_determined<P>(a: Seq<(Seq<char>, P)>, b: Seq<(Seq<char>, P)>)
    requires
        ascending(names_of(a)),
        ascending(names_of(b)),
        canonical(a) == canonical(b),
    ensures
        a == b,
{
    lemma_names_determined(a, b);
    lemma_ascending_canonical(a);
    lemma_ascending_canonical(b);
    assert(a.len() == names_of(a).len() && b.len() == names_of(b).len());
    assert forall|i: int| 0 <= i < a.len() implies a[i] == b[i] by {
        assert(names_of(a)[i] == names_of(b)[i]);
        assert(canonical(a)[a[i].0] == a[i].1);
        assert(canonical(b)[b[i].0] == b[i].1);
    }
    assert(a =~= b);
}

/// Placing a new name where the order wants it keeps the entries ascending
/// and adds the name to the canonical mapping.
pub proof fn lemma_place_absent<P>(entries: Seq<(Seq<char>, P)>, at: int, name: Seq<char>, payload: P)
    requires
        ascending(names_of(entries)),
        0 <= at <= entries.len(),
        forall|i: int| 0 <= i < at ==> name_lt(#[trigger] entries[i].0, name),
        forall|i: int| at <= i < entries.len() ==> name_lt(name, #[trigger] entries[i].0),
    ensures
        ascending(names_of(entries.insert(at, (name, payload)))),
        canonical(entries.insert(at, (name, payload))) == canonical(entries).insert(name, payload),
{
    let placed = entries.insert(at, (name, payload));
    assert forall|i: int, j: int| 0 <= i < j < placed.len() implies name_lt(
        names_of(placed)[i],
        names_of(placed)[j],
    ) by {
        let oi = if i < at { i } else { i - 1 };
        let oj = if j < at { j } else { j - 1 };
        if i != at && j != at {
            assert(name_lt(names_of(entries)[oi], names_of(entries)[oj]));
        }
    }
    lemma_ascending_canonical(entries);
    lemma_ascending_canonical(placed);
    let want = canonical(entries).insert(name, payload);
    assert forall|other: Seq<char>| #[trigger]
        canonical(placed).contains_key(other) implies want.contains_key(other) by {
        let i = choose|i: int| named_at(placed, i, other);
        if i != at {
            let oi = if i < at { i } else { i - 1 };
            assert(entries[oi].0 == other);
        }
    }
    assert forall|other: Seq<char>| #[trigger] want.contains_key(other) implies canonical(
        placed,
    ).contains_key(other) && canonical(placed)[other] == want[other] by {
        if other == name {
            assert(placed[at].0 == name);
        } else {
            let oi = choose|i: int| named_at(entries, i, other);
            let i = if oi < at { oi } else { oi + 1 };
            assert(placed[i] == entries[oi]);
            assert(placed[i].0 == other);
        }
    }
    assert(canonical(placed) =~= want);
}

/// Giving a name that is present a new payload keeps the entries ascending
/// and replaces the payload in the canonical mapping.
pub proof fn lemma_place_present<P>(entries: Seq<(Seq<char>, P)>, at: int, name: Seq<char>, payload: P)
    requires
        ascending(names_of(entries)),
        0 <= at < entries.len(),
        entries[at].0 == name,
    ensures
        ascending(names_of(entries.update(at, (name, payload)))),
        canonical(entries.update(at, (name, payload))) == canonical(entries).insert(name, payload),
{
    let placed = entries.update(at, (name, payload));
    assert(names_of(placed) =~= names_of(entries));
    lemma_ascending_canonical(entries);
    lemma_ascending_canonical(placed);
    let want = canonical(entries).insert(name, payload);
    assert forall|other: Seq<char>| #[trigger]
        canonical(placed).contains_key(other) implies want.contains_key(other) by {
        let i = choose|i: int| named_at(placed, i, other);
        assert(entries[i].0 == other);
    }
    assert forall|other: Seq<char>| #[trigger] want.contains_key(other) implies canonical(
        placed,
    ).contains_key(other) && canonical(placed)[other] == want[other] by {
        if other == name {
            assert(placed[at].0 == name);
        } else {
            let i = choose|i: int| named_at(entries, i, other);
            assert(placed[i] == entries[i]);
            assert(placed[i].0 == other);
        }
    }
    assert(canonical(placed) =~= want);
}

} // verus!
