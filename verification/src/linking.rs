//! Lookup and linking: resolving a class name to a class/metaclass pair,
//! built either from a host template or as placeholders, with the
//! self-referential metaclass bootstrap hidden behind the `link` contract.

use vstd::prelude::*;
use crate::mem::{copy_bytes, lemma_word_at_frame, word_at, Mem};
use crate::methods::{
    entries_view, lemma_merged_pairs_resolved, resolvable, resolved, table_from_pairs, Imp, Sel,
};
use crate::objects::{
    hmeta, hmethods, hname, hsuper, obj_wf, ClassHostObject, HostObj, HostObjV, UnimplementedClass,
};
use crate::registry::ObjC;
use crate::selectors::{lemma_seq_extends_refl, lemma_seq_extends_trans, seq_extends};
use crate::templates::{has_tpl, lemma_tpl_index_props, tpl_methods, tpl_of, ClassTemplate};
use crate::ObjCError;

verus! {

/// The fault `link` raises for a name, or `None` when linking succeeds.
///
/// This mirrors the linking algorithm: a registered name is returned as it
/// is; an unregistered name without a template becomes a placeholder pair
/// (or a fault, for `get_known_class`); a template's superclass chain is
/// walked first, and a template whose method names are not registered
/// selectors is a host configuration fault.
pub open spec fn link_fault(
    o: ObjC,
    name: Seq<u8>,
    allow_placeholder: bool,
    fuel: nat,
) -> Option<ObjCError>
    decreases fuel,
{
    if o.reg().contains_key(name) {
        None
    } else if !has_tpl(o.tpls(), name) {
        if allow_placeholder {
            None
        } else {
            Some(ObjCError::MissingTemplate)
        }
    } else {
        let t = tpl_of(o.tpls(), name);
        let sup_fault = match t.super_v() {
            Option::None => Option::<ObjCError>::None,
            Option::Some(s) => if !has_tpl(o.tpls(), s) {
                Some(ObjCError::MissingSuperclassTemplate)
            } else if fuel == 0 {
                Some(ObjCError::SuperclassCycle)
            } else {
                link_fault(o, s, true, (fuel - 1) as nat)
            },
        };
        if sup_fault is Some {
            sup_fault
        } else if !resolvable(t.im_v(), o.sels()) {
            Some(ObjCError::UnregisteredSelector)
        } else if !resolvable(t.cm_v(), o.sels()) {
            Some(ObjCError::UnregisteredSelector)
        } else {
            None
        }
    }
}

/// What holds of the pair constructed for a name that was not registered
/// before the call: the metaclass is its own class, and both sides carry the
/// name, the flags, the methods and the superclass references the source
/// (template or absence of one) dictates.
///
/// The superclass facts are stated for a parent distinct from the name
/// itself: a template naming itself as its superclass can never link (the
/// walk exhausts its fuel and faults), so nothing is lost.
pub open spec fn link_new_pair(o0: ObjC, o1: ObjC, m1: Seq<u8>, name: Seq<u8>) -> bool {
    let cls = o1.reg()[name];
    let meta = word_at(m1, cls as int);
    &&& word_at(m1, meta as int) == meta
    &&& cls != meta
    &&& o1.objs().contains_key(cls)
    &&& o1.objs().contains_key(meta)
    &&& if has_tpl(o0.tpls(), name) {
        let t = tpl_of(o0.tpls(), name);
        &&& o1.objs()[cls] is RealClass
        &&& hname(o1.objs()[cls]) == name
        &&& !hmeta(o1.objs()[cls])
        &&& hmethods(o1.objs()[cls]) == resolved(t.im_v(), o0.sels())
        &&& o1.objs()[meta] is RealClass
        &&& hname(o1.objs()[meta]) == name
        &&& hmeta(o1.objs()[meta])
        &&& hmethods(o1.objs()[meta]) == resolved(t.cm_v(), o0.sels())
        &&& (t.super_v() is None ==> hsuper(o1.objs()[cls]) == 0 && hsuper(o1.objs()[meta]) == 0)
        &&& (t.super_v() matches Some(s) ==> (s != name ==> {
            &&& o1.reg().contains_key(s)
            &&& hsuper(o1.objs()[cls]) == o1.reg()[s]
            &&& hsuper(o1.objs()[meta]) == word_at(m1, o1.reg()[s] as int)
        }))
    } else {
        &&& o1.objs()[cls] == (HostObjV::Placeholder { name: name, is_metaclass: false })
        &&& o1.objs()[meta] == (HostObjV::Placeholder { name: name, is_metaclass: true })
    }
}

/// What a successful `link` call guarantees.
pub open spec fn link_ok(
    o0: ObjC,
    m0: Seq<u8>,
    o1: ObjC,
    m1: Seq<u8>,
    name: Seq<u8>,
    is_metaclass: bool,
    c: u32,
) -> bool {
    &&& o1.reg().contains_key(name)
    &&& c == o1.linked_ref(m1, name, is_metaclass)
    &&& (o0.reg().contains_key(name) ==> o1 == o0 && m1 == m0)
    &&& (!o0.reg().contains_key(name) ==> link_new_pair(o0, o1, m1, name))
}

impl ClassHostObject {
    /// Build one side of the pair from a template: the metaclass side takes
    /// the class methods, the class side the instance methods, each name
    /// resolved through the selector registry. An unregistered name is a
    /// host configuration fault.
    pub fn from_template(
        template: &ClassTemplate,
        is_metaclass: bool,
        superclass: u32,
        objc: &ObjC,
    ) -> (r: Result<ClassHostObject, ObjCError>)
        ensures
            match r {
                Ok(c) => {
                    &&& resolvable(tpl_methods(*template, is_metaclass), objc.sels())
                    &&& c.name@ == template.name_v()
                    &&& c.is_metaclass == is_metaclass
                    &&& c.superclass == superclass
                    &&& c.methods.wf()
                    &&& c.methods@ == resolved(tpl_methods(*template, is_metaclass), objc.sels())
                },
                Err(e) => e == ObjCError::UnregisteredSelector && !resolvable(
                    tpl_methods(*template, is_metaclass),
                    objc.sels(),
                ),
            },
    {
        let list = if is_metaclass {
            &template.class_methods
        } else {
            &template.instance_methods
        };
        let ps = match objc.resolve_entries_strict(list) {
            Ok(ps) => ps,
            Err(e) => {
                return Err(e);
            },
        };
        let methods = table_from_pairs(&ps);
        proof {
            lemma_merged_pairs_resolved(
                Map::<Sel, Imp>::empty(),
                entries_view(list@),
                ps@,
                objc.sels(),
            );
        }
        Ok(
            ClassHostObject {
                name: copy_bytes(template.name.as_slice()),
                is_metaclass,
                superclass,
                methods,
            },
        )
    }
}

impl ObjC {
    /// Allocate and register a freshly built class/metaclass pair: the
    /// metaclass first with a nil isa, patched at once to point to itself,
    /// then the class with the metaclass as its isa; finally record
    /// `name -> class`. Returns (class, metaclass).
    fn install_pair(&mut self, name: &[u8], cls_obj: HostObj, meta_obj: HostObj, mem: &mut Mem) -> (pair: (
        u32,
        u32,
    ))
        requires
            old(self).wf(),
            old(self).consistent(old(mem)@),
            old(mem)@.len() + 8 <= 0x1_0000_0000,
            obj_wf(cls_obj),
            obj_wf(meta_obj),
            hname(cls_obj@) == name@,
            !hmeta(cls_obj@),
            hname(meta_obj@) == name@,
            hmeta(meta_obj@),
        ensures
            final(self).wf(),
            final(self).consistent(final(mem)@),
            final(self).templates == old(self).templates,
            final(self).sels() == old(self).sels(),
            final(mem)@.len() == old(mem)@.len() + 8,
            final(mem)@.subrange(0, old(mem)@.len() as int) == old(mem)@,
            pair.1 == old(mem)@.len(),
            pair.0 == old(mem)@.len() + 4,
            final(self).reg() == old(self).reg().insert(name@, pair.0),
            final(self).objs() == old(self).objs().insert(pair.1, meta_obj@).insert(
                pair.0,
                cls_obj@,
            ),
            word_at(final(mem)@, pair.0 as int) == pair.1,
            word_at(final(mem)@, pair.1 as int) == pair.1,
    {
        let ghost m0 = mem@;
        let meta = self.alloc_static_object(0, meta_obj, mem);
        mem.write_u32(meta, meta);
        proof {
            assert(mem@.subrange(0, m0.len() as int) =~= m0);
        }
        let ghost m2 = mem@;
        let cls = self.alloc_static_object(meta, cls_obj, mem);
        proof {
            assert(mem@.subrange(0, m0.len() as int) =~= m0);
            lemma_word_at_frame(m2, mem@, meta as int);
        }
        self.insert_class(name, cls);
        proof {
            let o0 = *old(self);
            let mf = mem@;
            assert forall|a: u32| #[trigger] self.objs().contains_key(a) implies a + 4
                <= mf.len() by {
                if a != cls && a != meta {
                    assert(o0.objs().contains_key(a));
                }
            }
            assert forall|n2: Seq<u8>| #[trigger] self.reg().contains_key(n2) implies
                self.reg_entry_ok(mf, n2) by {
                if n2 == name@ {
                    assert(self.reg()[n2] == cls);
                    assert(self.objs()[cls] == cls_obj@);
                    assert(word_at(mf, cls as int) == meta);
                    assert(self.objs()[meta] == meta_obj@);
                } else {
                    assert(o0.reg().contains_key(n2));
                    assert(o0.reg_entry_ok(m0, n2));
                    let c0 = o0.reg()[n2];
                    let mc0 = word_at(m0, c0 as int);
                    assert(o0.objs().contains_key(c0));
                    assert(o0.objs().contains_key(mc0));
                    assert(c0 + 4 <= m0.len() && mc0 + 4 <= m0.len());
                    lemma_word_at_frame(m0, mf, c0 as int);
                    lemma_word_at_frame(m0, mf, mc0 as int);
                    assert(self.objs()[c0] == o0.objs()[c0]);
                    assert(self.objs()[mc0] == o0.objs()[mc0]);
                    assert(self.reg()[n2] == c0);
                }
            }
        }
        (cls, meta)
    }

    /// Resolve a class or metaclass reference for an external relocation,
    /// constructing the pair on first demand; never fails for want of a
    /// template (a placeholder pair is substituted), but host configuration
    /// faults in the template catalog are reported.
    pub fn link_class(&mut self, name: &[u8], is_metaclass: bool, mem: &mut Mem) -> (r: Result<
        u32,
        ObjCError,
    >)
        requires
            old(self).wf(),
            old(self).consistent(old(mem)@),
            old(self).reg().contains_key(name@) || old(mem)@.len() + 8 * (old(self).tpls().len()
                + 1) <= 0x1_0000_0000,
        ensures
            final(self).wf(),
            final(self).consistent(final(mem)@),
            final(self).templates == old(self).templates,
            final(self).sels() == old(self).sels(),
            seq_extends(old(mem)@, final(mem)@),
            forall|k: Seq<u8>| #[trigger]
                old(self).reg().contains_key(k) ==> final(self).reg().contains_key(k)
                    && final(self).reg()[k] == old(self).reg()[k],
            forall|a: u32| #[trigger]
                old(self).objs().contains_key(a) ==> final(self).objs().contains_key(a)
                    && final(self).objs()[a] == old(self).objs()[a],
            match r {
                Ok(c) => link_fault(*old(self), name@, true, old(self).tpls().len() as nat)
                    is None && link_ok(
                    *old(self),
                    old(mem)@,
                    *final(self),
                    final(mem)@,
                    name@,
                    is_metaclass,
                    c,
                ),
                Err(e) => link_fault(*old(self), name@, true, old(self).tpls().len() as nat)
                    == Some(e),
            },
    {
        let fuel = self.templates.len();
        self.link_class_inner(name, is_metaclass, mem, true, fuel)
    }

    /// Resolve a class that host framework code requires to exist: absence
    /// of a template is a host configuration fault, never a placeholder.
    /// Always resolves the class side.
    pub fn get_known_class(&mut self, name: &[u8], mem: &mut Mem) -> (r: Result<u32, ObjCError>)
        requires
            old(self).wf(),
            old(self).consistent(old(mem)@),
            old(self).reg().contains_key(name@) || old(mem)@.len() + 8 * (old(self).tpls().len()
                + 1) <= 0x1_0000_0000,
        ensures
            final(self).wf(),
            final(self).consistent(final(mem)@),
            final(self).templates == old(self).templates,
            final(self).sels() == old(self).sels(),
            seq_extends(old(mem)@, final(mem)@),
            forall|k: Seq<u8>| #[trigger]
                old(self).reg().contains_key(k) ==> final(self).reg().contains_key(k)
                    && final(self).reg()[k] == old(self).reg()[k],
            forall|a: u32| #[trigger]
                old(self).objs().contains_key(a) ==> final(self).objs().contains_key(a)
                    && final(self).objs()[a] == old(self).objs()[a],
            match r {
                Ok(c) => link_fault(*old(self), name@, false, old(self).tpls().len() as nat)
                    is None && link_ok(
                    *old(self),
                    old(mem)@,
                    *final(self),
                    final(mem)@,
                    name@,
                    false,
                    c,
                ),
                Err(e) => link_fault(*old(self), name@, false, old(self).tpls().len() as nat)
                    == Some(e),
            },
    {
        let fuel = self.templates.len();
        self.link_class_inner(name, false, mem, false, fuel)
    }

    /// The linking algorithm. The class and metaclass are created and
    /// recorded together, whichever side was requested first; `fuel` bounds
    /// the superclass recursion and is exhausted only by a cyclic catalog.
    pub fn link_class_inner(
        &mut self,
        name: &[u8],
        is_metaclass: bool,
        mem: &mut Mem,
        use_placeholder: bool,
        fuel: usize,
    ) -> (r: Result<u32, ObjCError>)
        requires
            old(self).wf(),
            old(self).consistent(old(mem)@),
            old(self).reg().contains_key(name@) || old(mem)@.len() + 8 * (fuel + 1)
                <= 0x1_0000_0000,
        ensures
            final(self).wf(),
            final(self).consistent(final(mem)@),
            final(self).templates == old(self).templates,
            final(self).sels() == old(self).sels(),
            seq_extends(old(mem)@, final(mem)@),
            final(mem)@.len() <= old(mem)@.len() + 8 * (fuel + 1),
            forall|k: Seq<u8>| #[trigger]
                old(self).reg().contains_key(k) ==> final(self).reg().contains_key(k)
                    && final(self).reg()[k] == old(self).reg()[k],
            forall|a: u32| #[trigger]
                old(self).objs().contains_key(a) ==> final(self).objs().contains_key(a)
                    && final(self).objs()[a] == old(self).objs()[a],
            match r {
                Ok(c) => link_fault(*old(self), name@, use_placeholder, fuel as nat) is None
                    && link_ok(
                    *old(self),
                    old(mem)@,
                    *final(self),
                    final(mem)@,
                    name@,
                    is_metaclass,
                    c,
                ),
                Err(e) => link_fault(*old(self), name@, use_placeholder, fuel as nat) == Some(e),
            },
        decreases fuel,
    {
        proof {
            lemma_seq_extends_refl(mem@);
        }
        match self.get_class(name, is_metaclass, mem) {
            Some(c) => {
                return Ok(c);
            },
            None => {},
        }
        match self.find_template(name) {
            Some(ti) => {
                let ghost t = self.templates@[ti as int];
                proof {
                    lemma_tpl_index_props(self.tpls(), name@);
                    assert(t == tpl_of(self.tpls(), name@));
                    assert(t.name_v() == name@);
                }
                let sup_name: Option<Vec<u8>> = match &self.templates[ti].superclass {
                    Some(s) => Some(copy_bytes(s.as_slice())),
                    None => None,
                };
                let mut sup_cls: u32 = 0;
                let mut sup_meta: u32 = 0;
                match &sup_name {
                    Some(sn) => {
                        match self.find_template(sn.as_slice()) {
                            Some(_) => {},
                            None => {
                                return Err(ObjCError::MissingSuperclassTemplate);
                            },
                        }
                        if fuel == 0 {
                            return Err(ObjCError::SuperclassCycle);
                        }
                        sup_cls =
                        match self.link_class_inner(sn.as_slice(), false, mem, true, fuel - 1) {
                            Ok(c) => c,
                            Err(e) => {
                                return Err(e);
                            },
                        };
                        let ghost o1a = *self;
                        sup_meta =
                        match self.link_class_inner(sn.as_slice(), true, mem, true, fuel - 1) {
                            Ok(c) => c,
                            Err(e) => {
                                proof {
                                    assert(o1a.reg().contains_key(sn@));
                                    assert(link_fault(o1a, sn@, true, (fuel - 1) as nat)
                                        is None);
                                }
                                return Err(e);
                            },
                        };
                    },
                    None => {},
                }
                let ghost o1 = *self;
                let ghost m1 = mem@;
                let cls_host = match ClassHostObject::from_template(
                    &self.templates[ti],
                    false,
                    sup_cls,
                    self,
                ) {
                    Ok(c) => c,
                    Err(e) => {
                        return Err(e);
                    },
                };
                let meta_host = match ClassHostObject::from_template(
                    &self.templates[ti],
                    true,
                    sup_meta,
                    self,
                ) {
                    Ok(c) => c,
                    Err(e) => {
                        return Err(e);
                    },
                };
                let (cls, meta) = self.install_pair(
                    name,
                    HostObj::Class(cls_host),
                    HostObj::Class(meta_host),
                    mem,
                );
                proof {
                    lemma_seq_extends_trans(old(mem)@, m1, mem@);
                    match t.super_v() {
                        Option::Some(s) => {
                            if s != name@ {
                                assert(self.reg()[s] == o1.reg()[s]);
                                assert(o1.reg()[s] + 4 <= m1.len());
                                lemma_word_at_frame(m1, mem@, o1.reg()[s] as int);
                            }
                        },
                        Option::None => {},
                    }
                    assert forall|k: Seq<u8>| #[trigger]
                        old(self).reg().contains_key(k) implies self.reg().contains_key(k)
                        && self.reg()[k] == old(self).reg()[k] by {
                        assert(o1.reg().contains_key(k) && o1.reg()[k] == old(self).reg()[k]);
                    }
                    assert forall|a: u32| #[trigger]
                        old(self).objs().contains_key(a) implies self.objs().contains_key(a)
                        && self.objs()[a] == old(self).objs()[a] by {
                        assert(o1.objs().contains_key(a) && o1.objs()[a] == old(self).objs()[a]);
                        assert(a + 4 <= m1.len());
                    }
                }
                Ok(if is_metaclass {
                    meta
                } else {
                    cls
                })
            },
            None => {
                if !use_placeholder {
                    return Err(ObjCError::MissingTemplate);
                }
                let cls_obj = HostObj::Unimplemented(
                    UnimplementedClass { name: copy_bytes(name), is_metaclass: false },
                );
                let meta_obj = HostObj::Unimplemented(
                    UnimplementedClass { name: copy_bytes(name), is_metaclass: true },
                );
                let (cls, meta) = self.install_pair(name, cls_obj, meta_obj, mem);
                Ok(if is_metaclass {
                    meta
                } else {
                    cls
                })
            },
        }
    }
}

} // verus!
