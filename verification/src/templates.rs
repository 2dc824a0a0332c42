//! Host-side class templates: statically supplied descriptors from which the
//! registry constructs a class/metaclass pair when the guest binary does not
//! define the class itself.

use vstd::prelude::*;
use crate::methods::{entries_view, Imp, MethodEntry};

verus! {

/// A template for a host-implemented class: its name, the name of its
/// superclass (absent for a hierarchy root), and its class-side and
/// instance-side method lists.
pub struct ClassTemplate {
    pub name: Vec<u8>,
    pub superclass: Option<Vec<u8>>,
    pub class_methods: Vec<MethodEntry>,
    pub instance_methods: Vec<MethodEntry>,
}

impl ClassTemplate {
    pub open spec fn name_v(self) -> Seq<u8> {
        self.name@
    }

    pub open spec fn super_v(self) -> Option<Seq<u8>> {
        match self.superclass {
            Some(s) => Some(s@),
            None => None,
        }
    }

    pub open spec fn cm_v(self) -> Seq<(Seq<u8>, Imp)> {
        entries_view(self.class_methods@)
    }

    pub open spec fn im_v(self) -> Seq<(Seq<u8>, Imp)> {
        entries_view(self.instance_methods@)
    }
}

/// The method list a template contributes to one side of the pair: class
/// methods for the metaclass, instance methods for the class.
pub open spec fn tpl_methods(t: ClassTemplate, is_metaclass: bool) -> Seq<(Seq<u8>, Imp)> {
    if is_metaclass {
        t.cm_v()
    } else {
        t.im_v()
    }
}

/// Index of the first template named `n` in the catalog, or -1.
pub open spec fn tpl_index(ts: Seq<ClassTemplate>, n: Seq<u8>) -> int
    decreases ts.len(),
{
    if ts.len() == 0 {
        -1
    } else if ts[0].name_v() == n {
        0
    } else {
        let r = tpl_index(ts.drop_first(), n);
        if r < 0 {
            -1
        } else {
            r + 1
        }
    }
}

/// Whether the catalog holds a template named `n`.
pub open spec fn has_tpl(ts: Seq<ClassTemplate>, n: Seq<u8>) -> bool {
    tpl_index(ts, n) >= 0
}

/// The first template named `n`.
pub open spec fn tpl_of(ts: Seq<ClassTemplate>, n: Seq<u8>) -> ClassTemplate {
    ts[tpl_index(ts, n)]
}

pub proof fn lemma_tpl_index_props(ts: Seq<ClassTemplate>, n: Seq<u8>)
    ensures
        has_tpl(ts, n) ==> 0 <= tpl_index(ts, n) < ts.len() && ts[tpl_index(ts, n)].name_v() == n,
        !has_tpl(ts, n) ==> forall|i: int| 0 <= i < ts.len() ==> (#[trigger] ts[i]).name_v() != n,
    decreases ts.len(),
{
    if ts.len() > 0 && ts[0].name_v() != n {
        lemma_tpl_index_props(ts.drop_first(), n);
        if !has_tpl(ts, n) {
            assert forall|i: int| 0 <= i < ts.len() implies (#[trigger] ts[i]).name_v() != n by {
                if i > 0 {
                    assert(ts.drop_first()[i - 1] == ts[i]);
                }
            }
        } else {
            assert(ts.drop_first()[tpl_index(ts.drop_first(), n)] == ts[tpl_index(ts, n)]);
        }
    }
}

/// If the first template named `n` is at `i`, `tpl_index` says so.
pub proof fn lemma_tpl_index_first(ts: Seq<ClassTemplate>, n: Seq<u8>, i: int)
    requires
        0 <= i < ts.len(),
        ts[i].name_v() == n,
        forall|k: int| 0 <= k < i ==> (#[trigger] ts[k]).name_v() != n,
    ensures
        tpl_index(ts, n) == i,
    decreases ts.len(),
{
    if i > 0 {
        assert(ts.drop_first()[i - 1] == ts[i]);
        assert forall|k: int| 0 <= k < i - 1 implies (#[trigger] ts.drop_first()[k]).name_v()
            != n by {
            assert(ts.drop_first()[k] == ts[k + 1]);
        }
        lemma_tpl_index_first(ts.drop_first(), n, i - 1);
    }
}

} // verus!
