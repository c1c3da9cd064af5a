//! A table of the declarations of one kind: a mapping from names to
//! payloads whose entries are kept, and handed out, in the order of their
//! names.

use crate::ascending::ascending;
use crate::ascending::lemma_ascending_canonical;
use crate::ascending::lemma_ascending_distinct;
use crate::ascending::lemma_ascending_len;
use crate::ascending::lemma_entries_determined;
use crate::ascending::lemma_place_absent;
use crate::ascending::lemma_place_present;
use crate::canon::canonical;
use crate::canon::distinct_names;
use crate::canon::entry_views;
use crate::canon::lemma_canonical_empty;
use crate::canon::lemma_canonical_push;
use crate::canon::named_at;
use crate::canon::names_of;
use crate::name_order::lemma_name_lt_irreflexive;
use crate::name_order::lemma_name_lt_transitive;
use crate::name_order::name_lt;
use crate::name_order::name_order;
use crate::name_order::NameOrder;
use vstd::prelude::*;

verus! {

/// Where `name` stands among ascending entries: the place of its entry and
/// `true`, or the place where an entry for it belongs and `false`.
fn locate<P>(entries: &Vec<(String, P)>, name: &str) -> (r: (usize, bool))
    requires
        ascending(names_of(entry_views(entries@))),
    ensures
        r.0 <= entries.len(),
        forall|i: int| 0 <= i < r.0 ==> name_lt(#[trigger] entry_views(entries@)[i].0, name@),
        r.1 ==> r.0 < entries.len() && entry_views(entries@)[r.0 as int].0 == name@,
        !r.1 ==> forall|i: int|
            r.0 <= i < entries.len() ==> name_lt(name@, #[trigger] entry_views(entries@)[i].0),
{
    let ghost views = entry_views(entries@);
    let mut lo: usize = 0;
    let mut hi: usize = entries.len();
    while lo < hi
        invariant
            views == entry_views(entries@),
            ascending(names_of(views)),
            lo <= hi <= entries.len(),
            forall|i: int| 0 <= i < lo ==> name_lt(#[trigger] views[i].0, name@),
            forall|i: int| hi <= i < views.len() ==> name_lt(name@, #[trigger] views[i].0),
        decreases hi - lo,
    {
        let mid: usize = lo + (hi - lo) / 2;
        let here = name_order(entries[mid].0.as_str(), name);
        assert(views[mid as int].0 == entries[mid as int].0@);
        match here {
            NameOrder::Before => {
                assert forall|i: int| 0 <= i < mid + 1 implies name_lt(
                    #[trigger] views[i].0,
                    name@,
                ) by {
                    if i < mid {
                        assert(name_lt(names_of(views)[i], names_of(views)[mid as int]));
                        lemma_name_lt_transitive(views[i].0, views[mid as int].0, name@);
                    }
                }
                lo = mid + 1;
            },
            NameOrder::Same => {
                assert forall|i: int| 0 <= i < mid implies name_lt(#[trigger] views[i].0, name@) by {
                    assert(name_lt(names_of(views)[i], names_of(views)[mid as int]));
                }
                return (mid, true);
            },
            NameOrder::After => {
                assert forall|i: int| mid <= i < views.len() implies name_lt(
                    name@,
                    #[trigger] views[i].0,
                ) by {
                    if mid < i {
                        assert(name_lt(names_of(views)[mid as int], names_of(views)[i]));
                        lemma_name_lt_transitive(name@, views[mid as int].0, views[i].0);
                    }
                }
                hi = mid;
            },
        }
    }
    (lo, false)
}

/// The declarations of one kind, by name.
///
/// No name occurs twice, and the entries stand in the order of their names,
/// whatever the order in which they were inserted.
#[derive(Debug, PartialEq, Eq)]
pub struct DeclTable<P> {
    entries: Vec<(String, P)>,
}

impl<P> View for DeclTable<P> {
    type V = Map<Seq<char>, P>;

    /// The mapping from names to payloads.
    open spec fn view(&self) -> Map<Seq<char>, P> {
        canonical(self.entries())
    }
}

impl<P> DeclTable<P> {
    /// The entries in the order in which the table hands them out.
    pub closed spec fn entries(&self) -> Seq<(Seq<char>, P)> {
        entry_views(self.entries@)
    }

    /// The names in the order in which the table hands them out.
    pub open spec fn names(&self) -> Seq<Seq<char>> {
        names_of(self.entries())
    }

    /// The names ascend strictly: the order is fixed by the names alone, and
    /// none occurs twice.
    #[verifier::type_invariant]
    pub open spec fn wf(&self) -> bool {
        ascending(self.names())
    }

    /// No name has two entries.
    pub proof fn lemma_names_distinct(self)
        requires
            self.wf(),
        ensures
            distinct_names(self.entries()),
    {
        lemma_ascending_distinct(self.entries());
    }

    /// The mapping holds each entry, and nothing but the entries.
    pub proof fn lemma_entries_in_view(self)
        requires
            self.wf(),
        ensures
            forall|i: int|
                0 <= i < self.entries().len() ==> self@.contains_key(#[trigger] self.entries()[i].0)
                    && self@[self.entries()[i].0] == self.entries()[i].1,
            forall|name: Seq<char>| #[trigger]
                self@.contains_key(name) ==> exists|i: int| named_at(self.entries(), i, name),
    {
        lemma_ascending_canonical(self.entries());
    }

    /// Tables with the same mapping hand out the same entries in the same
    /// order, however each of them was filled.
    pub proof fn lemma_order_fixed(self, other: Self)
        requires
            self.wf(),
            other.wf(),
            self@ == other@,
        ensures
            self.entries() == other.entries(),
    {
        lemma_entries_determined(self.entries(), other.entries());
    }

    /// A table without entries.
    pub fn new() -> (table: Self)
        ensures
            table.wf(),
            table.entries() == Seq::<(Seq<char>, P)>::empty(),
            table@ == Map::<Seq<char>, P>::empty(),
    {
        let table = DeclTable { entries: Vec::new() };
        proof {
            assert(table.entries() =~= Seq::<(Seq<char>, P)>::empty());
            lemma_canonical_empty::<P>();
        }
        table
    }

    /// The number of entries, which is the number of names.
    pub fn len(&self) -> (n: usize)
        ensures
            n == self.entries().len(),
            n == self@.len(),
    {
        proof {
            use_type_invariant(self);
            lemma_ascending_len(self.entries());
        }
        self.entries.len()
    }

    /// Whether the table has no entry.
    pub fn is_empty(&self) -> (b: bool)
        ensures
            b <==> self.entries().len() == 0,
            b <==> self@ == Map::<Seq<char>, P>::empty(),
    {
        proof {
            use_type_invariant(self);
            lemma_ascending_canonical(self.entries());
            if self.entries().len() == 0 {
                assert(self.entries() =~= Seq::<(Seq<char>, P)>::empty());
                lemma_canonical_empty::<P>();
            } else {
                assert(self@.contains_key(self.entries()[0].0));
            }
        }
        self.entries.len() == 0
    }

    /// The payload declared under `name`, if there is one.
    pub fn get(&self, name: &str) -> (r: Option<&P>)
        ensures
            match r {
                Some(payload) => self@.contains_key(name@) && *payload == self@[name@],
                None => !self@.contains_key(name@),
            },
    {
        proof {
            use_type_invariant(self);
            lemma_ascending_canonical(self.entries());
        }
        let (at, found) = locate(&self.entries, name);
        if found {
            Some(&self.entries[at].1)
        } else {
            proof {
                if self@.contains_key(name@) {
                    let i = choose|i: int| named_at(self.entries(), i, name@);
                    lemma_name_lt_irreflexive(name@);
                    assert(self.entries()[i].0 == name@);
                }
            }
            None
        }
    }

    /// The entry at place `i` in the order of names, if the table has that
    /// many.
    pub fn entry_at(&self, i: usize) -> (r: Option<(&String, &P)>)
        ensures
            match r {
                Some((name, payload)) => i < self.entries().len() && (name@, *payload)
                    == self.entries()[i as int],
                None => i >= self.entries().len(),
            },
    {
        if i < self.entries.len() {
            let entry = &self.entries[i];
            Some((&entry.0, &entry.1))
        } else {
            None
        }
    }

    /// Gives up the table for its entries, in the order of their names.
    pub fn into_entries(self) -> (entries: Vec<(String, P)>)
        ensures
            entry_views(entries@) == self.entries(),
            ascending(names_of(entry_views(entries@))),
    {
        proof {
            use_type_invariant(&self);
        }
        self.entries
    }

    /// Declares `name` with `payload`, in place of whatever payload the name
    /// had.
    pub fn insert(&mut self, name: String, payload: P)
        ensures
            final(self).wf(),
            final(self)@ == old(self)@.insert(name@, payload),
    {
        proof {
            use_type_invariant(&*self);
        }
        let ghost before = self.entries();
        let mut entries: Vec<(String, P)> = Vec::new();
        std::mem::swap(&mut entries, &mut self.entries);
        let (at, found) = locate(&entries, name.as_str());
        let ghost name_view = name@;
        if found {
            entries[at] = (name, payload);
            proof {
                lemma_place_present(before, at as int, name_view, payload);
                assert(entry_views(entries@) =~= before.update(at as int, (name_view, payload)));
            }
        } else {
            entries.insert(at, (name, payload));
            proof {
                lemma_place_absent(before, at as int, name_view, payload);
                assert(entry_views(entries@) =~= before.insert(at as int, (name_view, payload)));
            }
        }
        self.entries = entries;
    }
}

/// Builds the table of a sequence of raw declarations: each entry is
/// inserted in the order given, so that of several entries with one name the
/// last is kept.
pub fn canonicalize<P>(raw: Vec<(String, P)>) -> (table: DeclTable<P>)
    ensures
        table.wf(),
        table@ == canonical(entry_views(raw@)),
{
    let ghost all = entry_views(raw@);
    let mut table: DeclTable<P> = DeclTable::new();
    for entry in it: raw.into_iter()
        invariant
            it.seq() == raw@,
            all == entry_views(raw@),
            table.wf(),
            table@ == canonical(all.take(it.index() as int)),
    {
        let (name, payload) = entry;
        proof {
            let done = all.take(it.index() as int);
            lemma_canonical_push(done, name@, payload);
            assert(done.push((name@, payload)) =~= all.take(it.index() + 1));
        }
        table.insert(name, payload);
    }
    proof {
        assert(all.take(raw@.len() as int) =~= all);
    }
    table
}

} // verus!
