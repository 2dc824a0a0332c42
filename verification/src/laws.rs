//! The library's laws: consequences of the registry invariant and of the
//! linking and ingestion contracts, stated on their own so a reader can see
//! what the system guarantees without re-deriving it.

use vstd::prelude::*;
use crate::ingest::{ingest_cats, ingest_classes, SectionInfo};
use crate::linking::{link_fault, link_new_pair};
use crate::mem::{lemma_word_at_frame, word_at};
use crate::methods::{resolved_into, Imp, Sel};
use crate::objects::{hmeta, hname, hsuper};
use crate::registry::{ObjC, RegState};
use crate::selectors::sel_index;
use crate::templates::{has_tpl, tpl_of};
use crate::ObjCError;

verus! {

/// For every registered name, `link(n, false)` and `link(n, true)` are
/// mutually consistent: the class's isa is the metaclass, and both carry
/// the name, with the right metaclass flags.
pub proof fn lemma_linked_pair_consistent(o: ObjC, m: Seq<u8>, n: Seq<u8>)
    requires
        o.consistent(m),
        o.reg().contains_key(n),
    ensures
        ({
            let c = o.reg()[n];
            let mc = word_at(m, c as int);
            &&& o.linked_ref(m, n, false) == c
            &&& o.linked_ref(m, n, true) == mc
            &&& o.objs().contains_key(c)
            &&& hname(o.objs()[c]) == n
            &&& !hmeta(o.objs()[c])
            &&& o.objs().contains_key(mc)
            &&& hname(o.objs()[mc]) == n
            &&& hmeta(o.objs()[mc])
        }),
{
    assert(o.reg_entry_ok(m, n));
}

/// Once a name is registered, linking it cannot fault, whatever the fuel or
/// the flag; with the `link` contract, which leaves the state untouched and
/// returns `linked_ref` for a registered name, repeated calls return
/// identical references.
pub proof fn lemma_link_memoized(o: ObjC, name: Seq<u8>, allow_placeholder: bool, fuel: nat)
    requires
        o.reg().contains_key(name),
    ensures
        link_fault(o, name, allow_placeholder, fuel) is None,
{
}

/// A name with neither a registration nor a template links to a placeholder
/// pair, while `get_known_class` (which forbids placeholders) faults.
pub proof fn lemma_no_template_faults(o: ObjC, name: Seq<u8>, fuel: nat)
    requires
        !o.reg().contains_key(name),
        !has_tpl(o.tpls(), name),
    ensures
        link_fault(o, name, true, fuel) is None,
        link_fault(o, name, false, fuel) == Some(ObjCError::MissingTemplate),
{
}

/// A metaclass's isa, once `link` has returned, equals the metaclass
/// itself, and remains so under any growth of guest memory, because guest
/// memory is only ever appended to. The two-step bootstrap (allocate with a
/// nil isa, then patch) is confined to `link`'s body: no operation of the
/// registry exposes the intermediate state, so no caller observes an absent
/// isa.
pub proof fn lemma_metaclass_isa_self(
    o0: ObjC,
    o1: ObjC,
    m1: Seq<u8>,
    m2: Seq<u8>,
    name: Seq<u8>,
)
    requires
        !o0.reg().contains_key(name),
        link_new_pair(o0, o1, m1, name),
        o1.reg().contains_key(name),
        o1.consistent(m1),
        m1.len() <= m2.len(),
        m2.subrange(0, m1.len() as int) == m1,
    ensures
        ({
            let meta = word_at(m2, o1.reg()[name] as int);
            word_at(m2, meta as int) == meta
        }),
{
    let c = o1.reg()[name];
    let meta = word_at(m1, c as int);
    assert(o1.reg_entry_ok(m1, name));
    assert(c + 4 <= m1.len());
    lemma_word_at_frame(m1, m2, c as int);
    assert(meta + 4 <= m1.len());
    lemma_word_at_frame(m1, m2, meta as int);
}

/// For a template `Child` with superclass `Parent`: the superclass of
/// `link(Child, false)`, followed through its isa, is `link(Parent, true)`.
pub proof fn lemma_superclass_isa_is_parent_metaclass(
    o0: ObjC,
    o1: ObjC,
    m1: Seq<u8>,
    child: Seq<u8>,
    parent: Seq<u8>,
)
    requires
        !o0.reg().contains_key(child),
        has_tpl(o0.tpls(), child),
        tpl_of(o0.tpls(), child).super_v() == Some(parent),
        parent != child,
        link_new_pair(o0, o1, m1, child),
        o1.consistent(m1),
    ensures
        o1.reg().contains_key(parent),
        hsuper(o1.objs()[o1.reg()[child]]) == o1.reg()[parent],
        word_at(m1, hsuper(o1.objs()[o1.reg()[child]]) as int) == o1.linked_ref(m1, parent, true),
{
}

/// A class-list or category-list section whose byte size is not divisible
/// by 4 is rejected, with the registry untouched.
pub proof fn lemma_bad_section_size_rejected(
    m: Seq<u8>,
    lists: Map<u32, Seq<(Seq<u8>, Imp)>>,
    sec: SectionInfo,
    st: RegState,
)
    requires
        sec.size % 4 != 0,
    ensures
        ingest_classes(m, lists, Some(sec), st) == (st, Some(ObjCError::BadSectionSize)),
        ingest_cats(m, lists, Some(sec), st) == (st, Some(ObjCError::BadSectionSize)),
{
}

/// Category override semantics: if the last category entry resolving to a
/// selector is `es[j]`, then after the merge the selector is bound to
/// `es[j].1`, whatever the base table held for it.
pub proof fn lemma_category_overrides(
    base: Map<Sel, Imp>,
    es: Seq<(Seq<u8>, Imp)>,
    sels: Seq<Seq<u8>>,
    j: int,
)
    requires
        0 <= j < es.len(),
        forall|l: int|
            j < l < es.len() ==> (sel_index(sels, (#[trigger] es[l]).0) as Sel) != (sel_index(
                sels,
                es[j].0,
            ) as Sel),
    ensures
        resolved_into(base, es, sels).contains_key(sel_index(sels, es[j].0) as Sel),
        resolved_into(base, es, sels)[sel_index(sels, es[j].0) as Sel] == es[j].1,
    decreases es.len(),
{
    if j == es.len() - 1 {
    } else {
        let dl = es.drop_last();
        assert forall|l: int| j < l < dl.len() implies (sel_index(
            sels,
            (#[trigger] dl[l]).0,
        ) as Sel) != (sel_index(sels, dl[j].0) as Sel) by {
            assert(dl[l] == es[l] && dl[j] == es[j]);
        }
        lemma_category_overrides(base, dl, sels, j);
        assert(es[es.len() - 1] == es.last());
    }
}

/// Selectors that no category entry resolves to keep their base binding.
pub proof fn lemma_category_preserves_others(
    base: Map<Sel, Imp>,
    es: Seq<(Seq<u8>, Imp)>,
    sels: Seq<Seq<u8>>,
    k: Sel,
)
    requires
        forall|l: int|
            0 <= l < es.len() ==> (sel_index(sels, (#[trigger] es[l]).0) as Sel) != k,
    ensures
        resolved_into(base, es, sels).contains_key(k) == base.contains_key(k),
        base.contains_key(k) ==> resolved_into(base, es, sels)[k] == base[k],
    decreases es.len(),
{
    if es.len() > 0 {
        let dl = es.drop_last();
        assert forall|l: int| 0 <= l < dl.len() implies (sel_index(
            sels,
            (#[trigger] dl[l]).0,
        ) as Sel) != k by {
            assert(dl[l] == es[l]);
        }
        lemma_category_preserves_others(base, dl, sels, k);
        assert(es[es.len() - 1] == es.last());
    }
}

} // verus!
