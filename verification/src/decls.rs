//! The declarations of one file, kind by kind: as the scanner emits them and
//! as canonical tables.

use crate::ascending::lemma_entries_determined;
use crate::canon::canonical;
use crate::canon::declares;
use crate::canon::entry_views;
use crate::table::canonicalize;
use crate::table::DeclTable;
use vstd::prelude::*;

verus! {

/// What the scanner emits: for each kind of declaration the entries in the
/// order of the scan, where a name may occur more than once.
#[derive(Debug, PartialEq, Eq)]
pub struct RawDecls<C, F, T, K> {
    pub classes: Vec<(String, C)>,
    pub funs: Vec<(String, F)>,
    pub typedefs: Vec<(String, T)>,
    pub consts: Vec<(String, K)>,
}

impl<C, F, T, K> RawDecls<C, F, T, K> {
    /// Both hold the same entries in the same order, kind by kind.
    pub open spec fn same_entries(&self, other: RawDecls<C, F, T, K>) -> bool {
        &&& entry_views(self.classes@) == entry_views(other.classes@)
        &&& entry_views(self.funs@) == entry_views(other.funs@)
        &&& entry_views(self.typedefs@) == entry_views(other.typedefs@)
        &&& entry_views(self.consts@) == entry_views(other.consts@)
    }

    /// No declaration of any kind.
    pub open spec fn is_empty(&self) -> bool {
        &&& self.classes@.len() == 0
        &&& self.funs@.len() == 0
        &&& self.typedefs@.len() == 0
        &&& self.consts@.len() == 0
    }
}

/// The canonical tables of one file, one for each kind of declaration.
#[derive(Debug, PartialEq, Eq)]
pub struct Decls<C, F, T, K> {
    pub classes: DeclTable<C>,
    pub funs: DeclTable<F>,
    pub typedefs: DeclTable<T>,
    pub consts: DeclTable<K>,
}

impl<C, F, T, K> Decls<C, F, T, K> {
    /// Each of the four tables is in the order of its names.
    pub open spec fn wf(&self) -> bool {
        &&& self.classes.wf()
        &&& self.funs.wf()
        &&& self.typedefs.wf()
        &&& self.consts.wf()
    }

    /// Each table is the canonical mapping of the raw sequence of its own
    /// kind, and of no other.
    pub open spec fn canonical_of(&self, raw: RawDecls<C, F, T, K>) -> bool {
        &&& self.classes@ == canonical(entry_views(raw.classes@))
        &&& self.funs@ == canonical(entry_views(raw.funs@))
        &&& self.typedefs@ == canonical(entry_views(raw.typedefs@))
        &&& self.consts@ == canonical(entry_views(raw.consts@))
    }

    /// Both hand out the same entries in the same order, kind by kind.
    pub open spec fn same_entries(&self, other: Decls<C, F, T, K>) -> bool {
        &&& self.classes.entries() == other.classes.entries()
        &&& self.funs.entries() == other.funs.entries()
        &&& self.typedefs.entries() == other.typedefs.entries()
        &&& self.consts.entries() == other.consts.entries()
    }

    /// No entry in any of the four tables.
    pub open spec fn is_empty(&self) -> bool {
        &&& self.classes.entries().len() == 0
        &&& self.funs.entries().len() == 0
        &&& self.typedefs.entries().len() == 0
        &&& self.consts.entries().len() == 0
    }

    /// Canonicalizes the four raw sequences, each by itself.
    pub fn from_raw(raw: RawDecls<C, F, T, K>) -> (decls: Self)
        ensures
            decls.wf(),
            decls.canonical_of(raw),
    {
        Decls {
            classes: canonicalize(raw.classes),
            funs: canonicalize(raw.funs),
            typedefs: canonicalize(raw.typedefs),
            consts: canonicalize(raw.consts),
        }
    }
}

/// The tables are fixed by what was scanned: canonical tables of raw
/// sequences with the same entries hand out the same names, in the same
/// order, with the same payloads.
pub proof fn lemma_tables_determined<C, F, T, K>(
    raw1: RawDecls<C, F, T, K>,
    raw2: RawDecls<C, F, T, K>,
    decls1: Decls<C, F, T, K>,
    decls2: Decls<C, F, T, K>,
)
    requires
        raw1.same_entries(raw2),
        decls1.wf(),
        decls2.wf(),
        decls1.canonical_of(raw1),
        decls2.canonical_of(raw2),
    ensures
        decls1.same_entries(decls2),
{
    lemma_entries_determined(decls1.classes.entries(), decls2.classes.entries());
    lemma_entries_determined(decls1.funs.entries(), decls2.funs.entries());
    lemma_entries_determined(decls1.typedefs.entries(), decls2.typedefs.entries());
    lemma_entries_determined(decls1.consts.entries(), decls2.consts.entries());
}

/// The kinds do not meet. A table holds a name exactly if the raw sequence
/// of its own kind declares it, whatever the other kinds declare under that
/// name; and a table is fixed by the raw sequence of its own kind alone.
pub proof fn lemma_kinds_independent<C, F, T, K>(
    raw1: RawDecls<C, F, T, K>,
    raw2: RawDecls<C, F, T, K>,
    decls1: Decls<C, F, T, K>,
    decls2: Decls<C, F, T, K>,
)
    requires
        decls1.wf(),
        decls2.wf(),
        decls1.canonical_of(raw1),
        decls2.canonical_of(raw2),
    ensures
        forall|name: Seq<char>|
            decls1.classes@.contains_key(name) <==> declares(entry_views(raw1.classes@), name),
        forall|name: Seq<char>|
            decls1.funs@.contains_key(name) <==> declares(entry_views(raw1.funs@), name),
        forall|name: Seq<char>|
            decls1.typedefs@.contains_key(name) <==> declares(entry_views(raw1.typedefs@), name),
        forall|name: Seq<char>|
            decls1.consts@.contains_key(name) <==> declares(entry_views(raw1.consts@), name),
        entry_views(raw1.classes@) == entry_views(raw2.classes@) ==> decls1.classes.entries()
            == decls2.classes.entries(),
        entry_views(raw1.funs@) == entry_views(raw2.funs@) ==> decls1.funs.entries()
            == decls2.funs.entries(),
        entry_views(raw1.typedefs@) == entry_views(raw2.typedefs@) ==> decls1.typedefs.entries()
            == decls2.typedefs.entries(),
        entry_views(raw1.consts@) == entry_views(raw2.consts@) ==> decls1.consts.entries()
            == decls2.consts.entries(),
{
    if entry_views(raw1.classes@) == entry_views(raw2.classes@) {
        lemma_entries_determined(decls1.classes.entries(), decls2.classes.entries());
    }
    if entry_views(raw1.funs@) == entry_views(raw2.funs@) {
        lemma_entries_determined(decls1.funs.entries(), decls2.funs.entries());
    }
    if entry_views(raw1.typedefs@) == entry_views(raw2.typedefs@) {
        lemma_entries_determined(decls1.typedefs.entries(), decls2.typedefs.entries());
    }
    if entry_views(raw1.consts@) == entry_views(raw2.consts@) {
        lemma_entries_determined(decls1.consts.entries(), decls2.consts.entries());
    }
}

/// Where nothing was scanned the four tables are empty.
pub proof fn lemma_nothing_scanned<C, F, T, K>(raw: RawDecls<C, F, T, K>, decls: Decls<C, F, T, K>)
    requires
        raw.is_empty(),
        decls.wf(),
        decls.canonical_of(raw),
    ensures
        decls.is_empty(),
{
    decls.classes.lemma_entries_in_view();
    decls.funs.lemma_entries_in_view();
    decls.typedefs.lemma_entries_in_view();
    decls.consts.lemma_entries_in_view();
    lemma_none_declared(entry_views(raw.classes@));
    lemma_none_declared(entry_views(raw.funs@));
    lemma_none_declared(entry_views(raw.typedefs@));
    lemma_none_declared(entry_views(raw.consts@));
    if decls.classes.entries().len() > 0 {
        assert(decls.classes@.contains_key(decls.classes.entries()[0].0));
    }
    if decls.funs.entries().len() > 0 {
        assert(decls.funs@.contains_key(decls.funs.entries()[0].0));
    }
    if decls.typedefs.entries().len() > 0 {
        assert(decls.typedefs@.contains_key(decls.typedefs.entries()[0].0));
    }
    if decls.consts.entries().len() > 0 {
        assert(decls.consts@.contains_key(decls.consts.entries()[0].0));
    }
}

proof fn lemma_none_declared<P>(raw: Seq<(Seq<char>, P)>)
    requires
        raw.len() == 0,
    ensures
        canonical(raw) == Map::<Seq<char>, P>::empty(),
{
    assert(raw =~= Seq::<(Seq<char>, P)>::empty());
    crate::canon::lemma_canonical_empty::<P>();
}

} // verus!
