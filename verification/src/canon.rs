//! What a sequence of raw declarations declares: for each name that occurs
//! in it, the payload of the last entry of that name.

use vstd::prelude::*;

verus! {

/// The entries of a vector as specifications see them: each name by its
/// view, each payload as it is.
pub open spec fn entry_views<P>(entries: Seq<(String, P)>) -> Seq<(Seq<char>, P)> {
    entries.map_values(|e: (String, P)| (e.0@, e.1))
}

/// The names of a sequence of entries, in its order.
pub open spec fn names_of<P>(entries: Seq<(Seq<char>, P)>) -> Seq<Seq<char>> {
    entries.map_values(|e: (Seq<char>, P)| e.0)
}

/// The entry at `i` of `raw` exists and has the name `name`.
pub open spec fn named_at<P>(raw: Seq<(Seq<char>, P)>, i: int, name: Seq<char>) -> bool {
    0 <= i < raw.len() && raw[i].0 == name
}

/// Some entry of `raw` has the name `name`.
pub open spec fn declares<P>(raw: Seq<(Seq<char>, P)>, name: Seq<char>) -> bool {
    exists|i: int| named_at(raw, i, name)
}

/// The entry at `i` is the last one of `raw` with the name `name`.
pub open spec fn last_at<P>(raw: Seq<(Seq<char>, P)>, i: int, name: Seq<char>) -> bool {
    named_at(raw, i, name) && forall|j: int| i < j ==> !named_at(raw, j, name)
}

/// The place of the last entry named `name`, where `raw` declares it.
pub open spec fn last_index<P>(raw: Seq<(Seq<char>, P)>, name: Seq<char>) -> int {
    choose|i: int| last_at(raw, i, name)
}

/// The canonical mapping of `raw`: its domain is the set of declared names,
/// and a name with several entries keeps the payload of the last.
pub open spec fn canonical<P>(raw: Seq<(Seq<char>, P)>) -> Map<Seq<char>, P> {
    Map::new(
        |name: Seq<char>| declares(raw, name),
        |name: Seq<char>| raw[last_index(raw, name)].1,
    )
}

/// No two entries of `raw` share a name.
pub open spec fn distinct_names<P>(raw: Seq<(Seq<char>, P)>) -> bool {
    forall|i: int, j: int| 0 <= i < j < raw.len() ==> raw[i].0 != raw[j].0
}

/// A declared name with no entry from `k` on has a last entry below `k`.
proof fn lemma_last_below<P>(raw: Seq<(Seq<char>, P)>, name: Seq<char>, k: int)
    requires
        declares(raw, name),
        0 <= k <= raw.len(),
        forall|j: int| k <= j ==> !named_at(raw, j, name),
    ensures
        exists|i: int| last_at(raw, i, name),
    decreases k,
{
    if k == 0 {
        let i = choose|i: int| named_at(raw, i, name);
        assert(!named_at(raw, i, name));
    } else if named_at(raw, k - 1, name) {
        assert(last_at(raw, k - 1, name));
    } else {
        lemma_last_below(raw, name, k - 1);
    }
}

/// A declared name has a last entry, and `last_index` is its place.
pub proof fn lemma_last_index<P>(raw: Seq<(Seq<char>, P)>, name: Seq<char>)
    requires
        declares(raw, name),
    ensures
        last_at(raw, last_index(raw, name), name),
{
    lemma_last_below(raw, name, raw.len() as int);
}

/// The last entry wins: the canonical mapping holds every declared name, and
/// gives it the payload of its last entry, whatever payloads the entries
/// before it had.
pub proof fn lemma_last_entry_wins<P>(raw: Seq<(Seq<char>, P)>, i: int, name: Seq<char>)
    requires
        last_at(raw, i, name),
    ensures
        canonical(raw).contains_key(name),
        canonical(raw)[name] == raw[i].1,
{
    lemma_last_index(raw, name);
    let k = last_index(raw, name);
    if k < i {
        assert(!named_at(raw, i, name));
    } else if i < k {
        assert(!named_at(raw, k, name));
    }
}

/// Nothing scanned, nothing declared.
pub proof fn lemma_canonical_empty<P>()
    ensures
        canonical(Seq::<(Seq<char>, P)>::empty()) == Map::<Seq<char>, P>::empty(),
{
    let raw = Seq::<(Seq<char>, P)>::empty();
    assert forall|name: Seq<char>| !declares(raw, name) by {
        if declares(raw, name) {
            let i = choose|i: int| named_at(raw, i, name);
            assert(named_at(raw, i, name));
        }
    }
}

/// Appending one entry to `raw` inserts it into the canonical mapping, over
/// whatever the name had before.
pub proof fn lemma_canonical_push<P>(raw: Seq<(Seq<char>, P)>, name: Seq<char>, payload: P)
    ensures
        canonical(raw.push((name, payload))) == canonical(raw).insert(name, payload),
{
    let more = raw.push((name, payload));
    let n = raw.len() as int;
    lemma_last_entry_wins(more, n, name);
    assert forall|other: Seq<char>| other != name implies (declares(more, other) <==> declares(
        raw,
        other,
    )) && (declares(raw, other) ==> canonical(more)[other] == canonical(raw)[other]) by {
        if declares(more, other) {
            let i = choose|i: int| named_at(more, i, other);
            assert(named_at(raw, i, other));
        }
        if declares(raw, other) {
            lemma_last_index(raw, other);
            let i = last_index(raw, other);
            assert forall|j: int| i < j implies !named_at(more, j, other) by {
                if named_at(more, j, other) {
                    assert(named_at(raw, j, other));
                }
            }
            lemma_last_entry_wins(more, i, other);
        }
    }
}

/// Where no name occurs twice, every entry is the last of its name.
pub proof fn lemma_canonical_distinct<P>(raw: Seq<(Seq<char>, P)>, i: int)
    requires
        distinct_names(raw),
        0 <= i < raw.len(),
    ensures
        canonical(raw).contains_key(raw[i].0),
        canonical(raw)[raw[i].0] == raw[i].1,
{
    lemma_last_entry_wins(raw, i, raw[i].0);
}

} // verus!
