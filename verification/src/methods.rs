//! Method tables: the mapping a class or metaclass carries from selector
//! identifiers to implementations, and the decoded method lists handed in by
//! the method-list decoder.

use vstd::prelude::*;
use crate::kvlist::{kv_map, kv_unique, lemma_kv_map_props, lemma_kv_map_push, lemma_kv_map_update};
use crate::selectors::{has_sel, lemma_sel_index_extends, sel_index, seq_extends};

verus! {

/// A selector identifier assigned by the selector registry.
pub type Sel = usize;

/// An implementation bound to a selector: either a host-side implementation
/// (identified by a token the host chooses) or a guest function address.
#[derive(Clone, Copy, PartialEq, Eq, Structural, Debug)]
pub enum Imp {
    Host(u64),
    Guest(u32),
}

/// A method table: selector to implementation, keys unique, no ordering
/// guarantee.
pub struct MethodTable {
    entries: Vec<(Sel, Imp)>,
}

impl View for MethodTable {
    type V = Map<Sel, Imp>;

    closed spec fn view(&self) -> Map<Sel, Imp> {
        kv_map(self.entries@)
    }
}

impl MethodTable {
    pub closed spec fn wf(self) -> bool {
        kv_unique(self.entries@)
    }

    pub fn new() -> (t: MethodTable)
        ensures
            t.wf(),
            t@ == Map::<Sel, Imp>::empty(),
    {
        MethodTable { entries: Vec::new() }
    }

    /// Insert, overwriting any prior binding for the selector.
    pub fn insert(&mut self, sel: Sel, imp: Imp)
        requires
            old(self).wf(),
        ensures
            final(self).wf(),
            final(self)@ == old(self)@.insert(sel, imp),
    {
        let n = self.entries.len();
        let mut i: usize = 0;
        while i < n
            invariant
                0 <= i <= n,
                n == self.entries@.len(),
                *self == *old(self),
                old(self).wf(),
                forall|k: int| 0 <= k < i ==> (#[trigger] self.entries@[k]).0 != sel,
            decreases n - i,
        {
            if self.entries[i].0 == sel {
                proof {
                    lemma_kv_map_update(self.entries@, i as int, imp);
                }
                self.entries[i] = (sel, imp);
                return ;
            }
            i = i + 1;
        }
        proof {
            lemma_kv_map_push(self.entries@, sel, imp);
        }
        self.entries.push((sel, imp));
    }

    /// The implementation registered for a selector, if any.
    pub fn get(&self, sel: Sel) -> (r: Option<Imp>)
        requires
            self.wf(),
        ensures
            r == if self@.contains_key(sel) {
                Some(self@[sel])
            } else {
                None::<Imp>
            },
    {
        let n = self.entries.len();
        let mut i: usize = 0;
        while i < n
            invariant
                0 <= i <= n,
                n == self.entries@.len(),
                self.wf(),
                forall|k: int| 0 <= k < i ==> (#[trigger] self.entries@[k]).0 != sel,
            decreases n - i,
        {
            if self.entries[i].0 == sel {
                proof {
                    lemma_kv_map_props(self.entries@);
                }
                return Some(self.entries[i].1);
            }
            i = i + 1;
        }
        proof {
            lemma_kv_map_props(self.entries@);
        }
        None
    }

    /// Whether the table has an implementation for the selector.
    pub fn contains(&self, sel: Sel) -> (r: bool)
        requires
            self.wf(),
        ensures
            r == self@.contains_key(sel),
    {
        match self.get(sel) {
            Some(_) => true,
            None => false,
        }
    }
}

/// The names of a list of decoded (name, implementation) pairs.
pub open spec fn entry_names(es: Seq<(Seq<u8>, Imp)>) -> Seq<Seq<u8>> {
    es.map_values(|p: (Seq<u8>, Imp)| p.0)
}

/// Whether every name in the list is a registered selector in `sels`.
pub open spec fn resolvable(es: Seq<(Seq<u8>, Imp)>, sels: Seq<Seq<u8>>) -> bool {
    forall|i: int| 0 <= i < es.len() ==> has_sel(sels, (#[trigger] es[i]).0)
}

/// The method table obtained by resolving each name through `sels` and
/// inserting into `base`, first entry to last, a later entry overwriting an
/// earlier one (and `base`) at the same selector.
pub open spec fn resolved_into(
    base: Map<Sel, Imp>,
    es: Seq<(Seq<u8>, Imp)>,
    sels: Seq<Seq<u8>>,
) -> Map<Sel, Imp>
    decreases es.len(),
{
    if es.len() == 0 {
        base
    } else {
        resolved_into(base, es.drop_last(), sels).insert(
            sel_index(sels, es.last().0) as Sel,
            es.last().1,
        )
    }
}

/// Resolving into an empty table.
pub open spec fn resolved(es: Seq<(Seq<u8>, Imp)>, sels: Seq<Seq<u8>>) -> Map<Sel, Imp> {
    resolved_into(Map::empty(), es, sels)
}

/// Inserting already-resolved pairs, first to last.
pub open spec fn merged_pairs(base: Map<Sel, Imp>, ps: Seq<(Sel, Imp)>) -> Map<Sel, Imp>
    decreases ps.len(),
{
    if ps.len() == 0 {
        base
    } else {
        merged_pairs(base, ps.drop_last()).insert(ps.last().0, ps.last().1)
    }
}

/// Resolution is unaffected by growth of the selector registry, because
/// identifiers of registered names never move.
pub proof fn lemma_resolved_into_extends(
    base: Map<Sel, Imp>,
    es: Seq<(Seq<u8>, Imp)>,
    s1: Seq<Seq<u8>>,
    s2: Seq<Seq<u8>>,
)
    requires
        seq_extends(s1, s2),
        resolvable(es, s1),
    ensures
        resolvable(es, s2),
        resolved_into(base, es, s2) == resolved_into(base, es, s1),
    decreases es.len(),
{
    assert forall|i: int| 0 <= i < es.len() implies has_sel(s2, (#[trigger] es[i]).0) by {
        lemma_sel_index_extends(s1, s2, es[i].0);
    }
    if es.len() > 0 {
        assert forall|i: int| 0 <= i < es.drop_last().len() implies has_sel(
            s1,
            (#[trigger] es.drop_last()[i]).0,
        ) by {
            assert(es.drop_last()[i] == es[i]);
        }
        lemma_resolved_into_extends(base, es.drop_last(), s1, s2);
        lemma_sel_index_extends(s1, s2, es.last().0);
    }
}

/// If `ps` is `es` with each name replaced by its identifier in `sels`,
/// inserting the pairs gives the same table as resolving the entries.
pub proof fn lemma_merged_pairs_resolved(
    base: Map<Sel, Imp>,
    es: Seq<(Seq<u8>, Imp)>,
    ps: Seq<(Sel, Imp)>,
    sels: Seq<Seq<u8>>,
)
    requires
        ps.len() == es.len(),
        forall|i: int|
            0 <= i < es.len() ==> #[trigger] ps[i] == (
                sel_index(sels, es[i].0) as Sel,
                es[i].1,
            ),
    ensures
        merged_pairs(base, ps) == resolved_into(base, es, sels),
    decreases es.len(),
{
    if es.len() > 0 {
        assert forall|i: int| 0 <= i < es.drop_last().len() implies #[trigger] ps.drop_last()[i]
            == (sel_index(sels, es.drop_last()[i].0) as Sel, es.drop_last()[i].1) by {
            assert(ps.drop_last()[i] == ps[i]);
            assert(es.drop_last()[i] == es[i]);
        }
        lemma_merged_pairs_resolved(base, es.drop_last(), ps.drop_last(), sels);
        assert(ps[es.len() - 1] == (sel_index(sels, es.last().0) as Sel, es.last().1));
    }
}

/// Build a method table from resolved pairs, first to last.
pub fn table_from_pairs(ps: &Vec<(Sel, Imp)>) -> (t: MethodTable)
    ensures
        t.wf(),
        t@ == merged_pairs(Map::<Sel, Imp>::empty(), ps@),
{
    let mut t = MethodTable::new();
    let n = ps.len();
    let mut i: usize = 0;
    while i < n
        invariant
            0 <= i <= n,
            n == ps@.len(),
            t.wf(),
            t@ == merged_pairs(Map::<Sel, Imp>::empty(), ps@.subrange(0, i as int)),
        decreases n - i,
    {
        t.insert(ps[i].0, ps[i].1);
        proof {
            let pre = ps@.subrange(0, i as int);
            let post = ps@.subrange(0, i + 1 as int);
            assert(post.drop_last() =~= pre);
            assert(post.last() == ps@[i as int]);
        }
        i = i + 1;
    }
    proof {
        assert(ps@.subrange(0, n as int) =~= ps@);
    }
    t
}

/// One decoded method-list entry: a method name and its implementation.
pub struct MethodEntry {
    pub name: Vec<u8>,
    pub imp: Imp,
}

impl View for MethodEntry {
    type V = (Seq<u8>, Imp);

    open spec fn view(&self) -> (Seq<u8>, Imp) {
        (self.name@, self.imp)
    }
}

/// The view of a decoded method list.
pub open spec fn entries_view(v: Seq<MethodEntry>) -> Seq<(Seq<u8>, Imp)> {
    v.map_values(|e: MethodEntry| e@)
}

/// The method-list decoder's output: for each guest method-list pointer the
/// loader will encounter, the (name, implementation) pairs decoded from it.
pub struct MethodListTable {
    lists: Vec<(u32, Vec<MethodEntry>)>,
}

impl View for MethodListTable {
    type V = Map<u32, Seq<(Seq<u8>, Imp)>>;

    closed spec fn view(&self) -> Map<u32, Seq<(Seq<u8>, Imp)>> {
        kv_map(self.lists@.map_values(|p: (u32, Vec<MethodEntry>)| (p.0, entries_view(p.1@))))
    }
}

impl MethodListTable {
    pub closed spec fn wf(self) -> bool {
        kv_unique(self.lists@.map_values(|p: (u32, Vec<MethodEntry>)| (p.0, entries_view(p.1@))))
    }

    pub fn new() -> (t: MethodListTable)
        ensures
            t.wf(),
            t@ == Map::<u32, Seq<(Seq<u8>, Imp)>>::empty(),
    {
        MethodListTable { lists: Vec::new() }
    }

    /// Record the decoding of the method list at guest pointer `ptr`.
    pub fn add(&mut self, ptr: u32, entries: Vec<MethodEntry>)
        requires
            old(self).wf(),
            !old(self)@.contains_key(ptr),
        ensures
            final(self).wf(),
            final(self)@ == old(self)@.insert(ptr, entries_view(entries@)),
    {
        proof {
            let s = self.lists@.map_values(|p: (u32, Vec<MethodEntry>)| (p.0, entries_view(p.1@)));
            lemma_kv_map_props(s);
            lemma_kv_map_push(s, ptr, entries_view(entries@));
            assert(self.lists@.push((ptr, entries)).map_values(
                |p: (u32, Vec<MethodEntry>)| (p.0, entries_view(p.1@)),
            ) =~= s.push((ptr, entries_view(entries@))));
        }
        self.lists.push((ptr, entries));
    }

    /// The decoded list for a guest pointer, if one was supplied.
    pub fn get(&self, ptr: u32) -> (r: Option<&Vec<MethodEntry>>)
        requires
            self.wf(),
        ensures
            match r {
                Some(v) => self@.contains_key(ptr) && entries_view(v@) == self@[ptr],
                None => !self@.contains_key(ptr),
            },
    {
        let n = self.lists.len();
        let mut i: usize = 0;
        while i < n
            invariant
                0 <= i <= n,
                n == self.lists@.len(),
                self.wf(),
                forall|k: int| 0 <= k < i ==> (#[trigger] self.lists@[k]).0 != ptr,
            decreases n - i,
        {
            if self.lists[i].0 == ptr {
                proof {
                    let s = self.lists@.map_values(
                        |p: (u32, Vec<MethodEntry>)| (p.0, entries_view(p.1@)),
                    );
                    lemma_kv_map_props(s);
                    assert(s[i as int] == (self.lists@[i as int].0, entries_view(
                        self.lists@[i as int].1@,
                    )));
                }
                return Some(&self.lists[i].1);
            }
            i = i + 1;
        }
        proof {
            let s = self.lists@.map_values(|p: (u32, Vec<MethodEntry>)| (p.0, entries_view(p.1@)));
            lemma_kv_map_props(s);
            assert(forall|k: int| 0 <= k < s.len() ==> (#[trigger] s[k]).0 == self.lists@[k].0);
        }
        None
    }
}

} // verus!
