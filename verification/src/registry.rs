//! The class registry: the process-wide, name-keyed mapping from class names
//! to guest class references, the store of host-side payloads for those
//! references, the selector registry and the template catalog.

use vstd::prelude::*;
use crate::kvlist::{kv_map, kv_unique, lemma_kv_map_props, lemma_kv_map_push, lemma_kv_map_update};
use crate::mem::{bytes_eq, copy_bytes, word_at, Mem};
use crate::methods::{
    entries_view, entry_names, merged_pairs, resolvable, Imp, MethodEntry, Sel,
};
use crate::objects::{hmeta, hmethods, hname, hsuper, obj_wf, HostObj, HostObjV};
use crate::selectors::{
    has_sel, lemma_reg_sel_extends, lemma_reg_sels_snoc, lemma_sel_index_extends,
    lemma_seq_extends_trans, reg_sel, reg_sels, sel_index, seq_extends, Selectors,
};
use crate::templates::{has_tpl, lemma_tpl_index_first, lemma_tpl_index_props, tpl_index, ClassTemplate};

verus! {

/// The registry's mathematical state: the selector registration order, the
/// name-to-class mapping, and the payload attached to each guest reference.
pub struct RegState {
    pub sels: Seq<Seq<u8>>,
    pub reg: Map<Seq<u8>, u32>,
    pub objs: Map<u32, HostObjV>,
}

/// The class registry. Every operation's contract speaks through the views
/// below and preserves `wf` (unique keys throughout) and, where guest
/// memory is involved, `consistent`.
pub struct ObjC {
    /// The static catalog of host-provided class templates.
    pub templates: Vec<ClassTemplate>,
    /// The selector registry.
    pub selectors: Selectors,
    /// `name -> class reference`, keys unique: the single source of truth
    /// for whether a class with a name exists.
    pub classes: Vec<(Vec<u8>, u32)>,
    /// `guest reference -> host payload`, keys unique.
    pub objects: Vec<(u32, HostObj)>,
}

impl ObjC {
    /// The template catalog.
    pub open spec fn tpls(self) -> Seq<ClassTemplate> {
        self.templates@
    }

    /// The selector registry, in registration order.
    pub open spec fn sels(self) -> Seq<Seq<u8>> {
        self.selectors@
    }

    pub open spec fn class_pairs(self) -> Seq<(Seq<u8>, u32)> {
        self.classes@.map_values(|p: (Vec<u8>, u32)| (p.0@, p.1))
    }

    /// The name-to-class-reference mapping.
    pub open spec fn reg(self) -> Map<Seq<u8>, u32> {
        kv_map(self.class_pairs())
    }

    pub open spec fn obj_pairs(self) -> Seq<(u32, HostObjV)> {
        self.objects@.map_values(|p: (u32, HostObj)| (p.0, p.1@))
    }

    /// The payload registered for each guest class reference.
    pub open spec fn objs(self) -> Map<u32, HostObjV> {
        kv_map(self.obj_pairs())
    }

    pub open spec fn state(self) -> RegState {
        RegState { sels: self.sels(), reg: self.reg(), objs: self.objs() }
    }

    /// Internal representation invariant: unique keys, well-formed tables.
    pub open spec fn wf(self) -> bool {
        &&& kv_unique(self.class_pairs())
        &&& kv_unique(self.obj_pairs())
        &&& forall|i: int| 0 <= i < self.objects@.len() ==> obj_wf((#[trigger] self.objects@[i]).1)
    }

    /// One registered name is backed by a consistent class/metaclass pair.
    pub open spec fn reg_entry_ok(self, m: Seq<u8>, n: Seq<u8>) -> bool {
        let c = self.reg()[n];
        &&& self.objs().contains_key(c)
        &&& hname(self.objs()[c]) == n
        &&& !hmeta(self.objs()[c])
        &&& self.objs().contains_key(word_at(m, c as int))
        &&& hname(self.objs()[word_at(m, c as int)]) == n
        &&& hmeta(self.objs()[word_at(m, c as int)])
    }

    /// The registry invariant against a guest memory: every registered object
    /// has a readable isa word, and every registered name resolves to a class
    /// whose isa is a metaclass of the same name.
    pub open spec fn consistent(self, m: Seq<u8>) -> bool {
        &&& forall|a: u32| #[trigger] self.objs().contains_key(a) ==> a + 4 <= m.len()
        &&& forall|n: Seq<u8>| #[trigger] self.reg().contains_key(n) ==> self.reg_entry_ok(m, n)
    }

    /// The reference `link` hands out for a registered name.
    pub open spec fn linked_ref(self, m: Seq<u8>, name: Seq<u8>, is_metaclass: bool) -> u32 {
        if is_metaclass {
            word_at(m, self.reg()[name] as int)
        } else {
            self.reg()[name]
        }
    }

    /// A fresh registry over a catalog of host-provided templates.
    pub fn new(templates: Vec<ClassTemplate>) -> (r: ObjC)
        ensures
            r.tpls() == templates@,
            r.sels() == Seq::<Seq<u8>>::empty(),
            r.reg() == Map::<Seq<u8>, u32>::empty(),
            r.objs() == Map::<u32, HostObjV>::empty(),
            r.wf(),
            forall|m: Seq<u8>| r.consistent(m),
    {
        let r = ObjC {
            templates,
            selectors: Selectors::new(),
            classes: Vec::new(),
            objects: Vec::new(),
        };
        proof {
            assert(r.class_pairs() =~= Seq::<(Seq<u8>, u32)>::empty());
            assert(r.obj_pairs() =~= Seq::<(u32, HostObjV)>::empty());
            assert(r.reg() =~= Map::<Seq<u8>, u32>::empty());
            assert(r.objs() =~= Map::<u32, HostObjV>::empty());
        }
        r
    }

    /// The identifier of an already-registered selector name.
    pub fn selector_for(&self, name: &[u8]) -> (r: Option<Sel>)
        ensures
            match r {
                Some(i) => has_sel(self.sels(), name@) && i == sel_index(self.sels(), name@),
                None => !has_sel(self.sels(), name@),
            },
    {
        self.selectors.lookup(name)
    }

    /// The identifier for a selector name, registering it on demand.
    pub fn register_selector(&mut self, name: &[u8]) -> (r: Sel)
        ensures
            final(self).sels() == reg_sel(old(self).sels(), name@),
            has_sel(final(self).sels(), name@),
            r == sel_index(final(self).sels(), name@),
            final(self).templates == old(self).templates,
            final(self).classes == old(self).classes,
            final(self).objects == old(self).objects,
    {
        self.selectors.register(name)
    }

    /// Search the template catalog for a class name.
    pub fn find_template(&self, name: &[u8]) -> (r: Option<usize>)
        ensures
            match r {
                Some(i) => has_tpl(self.tpls(), name@) && i == tpl_index(self.tpls(), name@),
                None => !has_tpl(self.tpls(), name@),
            },
    {
        let n = self.templates.len();
        let mut i: usize = 0;
        while i < n
            invariant
                0 <= i <= n,
                n == self.templates@.len(),
                forall|k: int| 0 <= k < i ==> (#[trigger] self.templates@[k]).name_v() != name@,
            decreases n - i,
        {
            if bytes_eq(self.templates[i].name.as_slice(), name) {
                proof {
                    lemma_tpl_index_first(self.tpls(), name@, i as int);
                }
                return Some(i);
            }
            i = i + 1;
        }
        proof {
            lemma_tpl_index_props(self.tpls(), name@);
        }
        None
    }

    /// The class reference registered under a name, if any.
    pub fn lookup_class(&self, name: &[u8]) -> (r: Option<u32>)
        requires
            self.wf(),
        ensures
            match r {
                Some(c) => self.reg().contains_key(name@) && c == self.reg()[name@],
                None => !self.reg().contains_key(name@),
            },
    {
        let n = self.classes.len();
        let mut i: usize = 0;
        while i < n
            invariant
                0 <= i <= n,
                n == self.classes@.len(),
                self.wf(),
                forall|k: int| 0 <= k < i ==> ((#[trigger] self.classes@[k]).0)@ != name@,
            decreases n - i,
        {
            if bytes_eq(self.classes[i].0.as_slice(), name) {
                proof {
                    lemma_kv_map_props(self.class_pairs());
                    assert(self.class_pairs()[i as int] == (self.classes@[i as int].0@,
                    self.classes@[i as int].1));
                }
                return Some(self.classes[i].1);
            }
            i = i + 1;
        }
        proof {
            lemma_kv_map_props(self.class_pairs());
            assert(forall|k: int|
                0 <= k < n ==> (#[trigger] self.class_pairs()[k]).0 == (self.classes@[k].0)@);
        }
        None
    }

    /// Read an object's isa word from guest memory.
    pub fn read_isa(class: u32, mem: &Mem) -> (r: u32)
        requires
            class + 4 <= mem@.len(),
        ensures
            r == word_at(mem@, class as int),
    {
        mem.read_u32(class)
    }

    /// Resolve a registered name to its class or metaclass reference.
    pub fn get_class(&self, name: &[u8], is_metaclass: bool, mem: &Mem) -> (r: Option<u32>)
        requires
            self.wf(),
            self.consistent(mem@),
        ensures
            match r {
                Some(c) => self.reg().contains_key(name@) && c == self.linked_ref(
                    mem@,
                    name@,
                    is_metaclass,
                ),
                None => !self.reg().contains_key(name@),
            },
    {
        match self.lookup_class(name) {
            Some(class) => {
                if is_metaclass {
                    Some(Self::read_isa(class, mem))
                } else {
                    Some(class)
                }
            },
            None => None,
        }
    }

    /// Record `name -> class`, overwriting any prior entry for that name.
    pub fn insert_class(&mut self, name: &[u8], cls: u32)
        requires
            old(self).wf(),
        ensures
            final(self).wf(),
            final(self).reg() == old(self).reg().insert(name@, cls),
            final(self).objects == old(self).objects,
            final(self).templates == old(self).templates,
            final(self).sels() == old(self).sels(),
    {
        let n = self.classes.len();
        let mut i: usize = 0;
        while i < n
            invariant
                0 <= i <= n,
                n == self.classes@.len(),
                *self == *old(self),
                old(self).wf(),
                forall|k: int| 0 <= k < i ==> ((#[trigger] self.classes@[k]).0)@ != name@,
            decreases n - i,
        {
            if bytes_eq(self.classes[i].0.as_slice(), name) {
                proof {
                    lemma_kv_map_update(self.class_pairs(), i as int, cls);
                }
                let owned = copy_bytes(name);
                self.classes[i] = (owned, cls);
                proof {
                    assert(self.class_pairs() =~= old(self).class_pairs().update(
                        i as int,
                        (old(self).class_pairs()[i as int].0, cls),
                    ));
                }
                return ;
            }
            i = i + 1;
        }
        proof {
            assert(forall|k: int|
                0 <= k < n ==> (#[trigger] self.class_pairs()[k]).0 == (self.classes@[k].0)@);
            lemma_kv_map_push(self.class_pairs(), name@, cls);
        }
        let owned = copy_bytes(name);
        self.classes.push((owned, cls));
        proof {
            assert(self.class_pairs() =~= old(self).class_pairs().push((name@, cls)));
        }
    }

    /// Attach a host payload to a guest reference not registered before.
    pub fn register_object(&mut self, addr: u32, obj: HostObj)
        requires
            old(self).wf(),
            obj_wf(obj),
            !old(self).objs().contains_key(addr),
        ensures
            final(self).wf(),
            final(self).objs() == old(self).objs().insert(addr, obj@),
            final(self).classes == old(self).classes,
            final(self).templates == old(self).templates,
            final(self).sels() == old(self).sels(),
    {
        proof {
            lemma_kv_map_props(self.obj_pairs());
            assert(forall|k: int|
                0 <= k < self.obj_pairs().len() ==> (#[trigger] self.obj_pairs()[k]).0
                    == self.objects@[k].0);
            lemma_kv_map_push(self.obj_pairs(), addr, obj@);
        }
        let ghost pre = self.obj_pairs();
        self.objects.push((addr, obj));
        proof {
            assert(self.obj_pairs() =~= pre.push((addr, obj@)));
        }
    }

    /// Allocate a fresh guest object with the given isa word and payload.
    pub fn alloc_static_object(&mut self, isa: u32, obj: HostObj, mem: &mut Mem) -> (addr: u32)
        requires
            old(self).wf(),
            obj_wf(obj),
            old(mem)@.len() + 4 <= 0x1_0000_0000,
            forall|a: u32| old(self).objs().contains_key(a) ==> a + 4 <= old(mem)@.len(),
        ensures
            final(self).wf(),
            addr == old(mem)@.len(),
            final(mem)@.len() == old(mem)@.len() + 4,
            final(mem)@.subrange(0, old(mem)@.len() as int) == old(mem)@,
            word_at(final(mem)@, addr as int) == isa,
            final(self).objs() == old(self).objs().insert(addr, obj@),
            final(self).classes == old(self).classes,
            final(self).templates == old(self).templates,
            final(self).sels() == old(self).sels(),
    {
        let addr = mem.alloc_u32(isa);
        proof {
            if self.objs().contains_key(addr) {
                assert(addr + 4 <= old(mem)@.len());
            }
        }
        self.register_object(addr, obj);
        addr
    }

    /// Resolve decoded (name, implementation) pairs to selector identifiers,
    /// failing on the first name that is not a registered selector. Used for
    /// template-sourced method lists, where an unregistered name is a host
    /// configuration fault.
    pub fn resolve_entries_strict(&self, entries: &Vec<MethodEntry>) -> (r: Result<
        Vec<(Sel, Imp)>,
        crate::ObjCError,
    >)
        ensures
            match r {
                Ok(ps) => {
                    &&& resolvable(entries_view(entries@), self.sels())
                    &&& ps@.len() == entries@.len()
                    &&& forall|i: int|
                        0 <= i < entries@.len() ==> #[trigger] ps@[i] == (
                            sel_index(self.sels(), entries@[i].name@) as Sel,
                            entries@[i].imp,
                        )
                },
                Err(e) => e == crate::ObjCError::UnregisteredSelector && !resolvable(
                    entries_view(entries@),
                    self.sels(),
                ),
            },
    {
        let mut ps: Vec<(Sel, Imp)> = Vec::new();
        let n = entries.len();
        let mut i: usize = 0;
        while i < n
            invariant
                0 <= i <= n,
                n == entries@.len(),
                ps@.len() == i,
                forall|k: int| 0 <= k < i ==> has_sel(self.sels(), (#[trigger] entries@[k]).name@),
                forall|k: int|
                    0 <= k < i ==> #[trigger] ps@[k] == (
                        sel_index(self.sels(), entries@[k].name@) as Sel,
                        entries@[k].imp,
                    ),
            decreases n - i,
        {
            match self.selector_for(entries[i].name.as_slice()) {
                Some(sel) => {
                    let ghost ps_pre = ps@;
                    ps.push((sel, entries[i].imp));
                    proof {
                        assert forall|k: int| 0 <= k < i + 1 implies #[trigger] ps@[k] == (
                            sel_index(self.sels(), entries@[k].name@) as Sel,
                            entries@[k].imp,
                        ) by {
                            if k < i {
                                assert(ps@[k] == ps_pre[k]);
                            }
                        }
                    }
                },
                None => {
                    proof {
                        assert(entries_view(entries@)[i as int] == entries@[i as int]@);
                    }
                    return Err(crate::ObjCError::UnregisteredSelector);
                },
            }
            i = i + 1;
        }
        proof {
            assert forall|k: int| 0 <= k < entries_view(entries@).len() implies has_sel(
                self.sels(),
                (#[trigger] entries_view(entries@)[k]).0,
            ) by {
                assert(entries_view(entries@)[k] == entries@[k]@);
            }
        }
        Ok(ps)
    }

    /// Resolve decoded (name, implementation) pairs to selector identifiers,
    /// registering previously-unseen names on demand. Used for binary-sourced
    /// method lists, where the guest may introduce new selectors.
    pub fn resolve_entries(&mut self, entries: &Vec<MethodEntry>) -> (ps: Vec<(Sel, Imp)>)
        ensures
            final(self).sels() == reg_sels(
                old(self).sels(),
                entry_names(entries_view(entries@)),
            ),
            seq_extends(old(self).sels(), final(self).sels()),
            resolvable(entries_view(entries@), final(self).sels()),
            ps@.len() == entries@.len(),
            forall|i: int|
                0 <= i < entries@.len() ==> #[trigger] ps@[i] == (
                    sel_index(final(self).sels(), entries@[i].name@) as Sel,
                    entries@[i].imp,
                ),
            final(self).classes == old(self).classes,
            final(self).objects == old(self).objects,
            final(self).templates == old(self).templates,
    {
        let ghost names = entry_names(entries_view(entries@));
        proof {
            assert forall|k: int| 0 <= k < entries@.len() implies #[trigger] names[k]
                == entries@[k].name@ by {
                assert(entries_view(entries@)[k] == entries@[k]@);
            }
        }
        let mut ps: Vec<(Sel, Imp)> = Vec::new();
        let n = entries.len();
        let mut i: usize = 0;
        proof {
            assert(old(self).sels().subrange(0, old(self).sels().len() as int) =~= old(
                self,
            ).sels());
            assert(names.subrange(0, 0) =~= Seq::<Seq<u8>>::empty());
        }
        while i < n
            invariant
                0 <= i <= n,
                n == entries@.len(),
                names == entry_names(entries_view(entries@)),
                names.len() == n,
                forall|k: int| 0 <= k < n ==> #[trigger] names[k] == entries@[k].name@,
                self.sels() == reg_sels(old(self).sels(), names.subrange(0, i as int)),
                seq_extends(old(self).sels(), self.sels()),
                ps@.len() == i,
                forall|k: int| 0 <= k < i ==> has_sel(self.sels(), (#[trigger] entries@[k]).name@),
                forall|k: int|
                    0 <= k < i ==> #[trigger] ps@[k] == (
                        sel_index(self.sels(), entries@[k].name@) as Sel,
                        entries@[k].imp,
                    ),
                self.classes == old(self).classes,
                self.objects == old(self).objects,
                self.templates == old(self).templates,
            decreases n - i,
        {
            let ghost pre = self.sels();
            let ghost ps_pre = ps@;
            let sel = self.register_selector(entries[i].name.as_slice());
            ps.push((sel, entries[i].imp));
            proof {
                lemma_reg_sel_extends(pre, entries@[i as int].name@);
                lemma_seq_extends_trans(old(self).sels(), pre, self.sels());
                assert(names.subrange(0, i + 1 as int) =~= names.subrange(0, i as int).push(
                    names[i as int],
                ));
                lemma_reg_sels_snoc(
                    old(self).sels(),
                    names.subrange(0, i as int),
                    names[i as int],
                );
                assert forall|k: int| 0 <= k < i + 1 implies has_sel(
                    self.sels(),
                    (#[trigger] entries@[k]).name@,
                ) by {
                    if k < i {
                        lemma_sel_index_extends(pre, self.sels(), entries@[k].name@);
                    }
                }
                assert forall|k: int| 0 <= k < i + 1 implies #[trigger] ps@[k] == (
                    sel_index(self.sels(), entries@[k].name@) as Sel,
                    entries@[k].imp,
                ) by {
                    if k < i {
                        assert(ps@[k] == ps_pre[k]);
                        lemma_sel_index_extends(pre, self.sels(), entries@[k].name@);
                    }
                }
            }
            i = i + 1;
        }
        proof {
            assert(names.subrange(0, n as int) =~= names);
            assert forall|k: int| 0 <= k < entries_view(entries@).len() implies has_sel(
                self.sels(),
                (#[trigger] entries_view(entries@)[k]).0,
            ) by {
                assert(entries_view(entries@)[k] == entries@[k]@);
            }
        }
        ps
    }

    /// Position of the registered object for a guest reference, if any.
    pub fn object_index(&self, addr: u32) -> (r: Option<usize>)
        requires
            self.wf(),
        ensures
            match r {
                Some(i) => i < self.objects@.len() && self.objects@[i as int].0 == addr
                    && self.objs().contains_key(addr) && self.objs()[addr] == self.objects@[
                    i as int
                ].1@,
                None => !self.objs().contains_key(addr),
            },
    {
        let n = self.objects.len();
        let mut i: usize = 0;
        while i < n
            invariant
                0 <= i <= n,
                n == self.objects@.len(),
                self.wf(),
                forall|k: int| 0 <= k < i ==> (#[trigger] self.objects@[k]).0 != addr,
            decreases n - i,
        {
            if self.objects[i].0 == addr {
                proof {
                    lemma_kv_map_props(self.obj_pairs());
                    assert(self.obj_pairs()[i as int] == (self.objects@[i as int].0,
                    self.objects@[i as int].1@));
                }
                return Some(i);
            }
            i = i + 1;
        }
        proof {
            lemma_kv_map_props(self.obj_pairs());
            assert(forall|k: int|
                0 <= k < n ==> (#[trigger] self.obj_pairs()[k]).0 == self.objects@[k].0);
        }
        None
    }

    /// Whether a guest reference is registered, and as what.
    pub fn host_object(&self, addr: u32) -> (r: Option<&HostObj>)
        requires
            self.wf(),
        ensures
            match r {
                Some(o) => self.objs().contains_key(addr) && o@ == self.objs()[addr] && obj_wf(
                    *o,
                ),
                None => !self.objs().contains_key(addr),
            },
    {
        match self.object_index(addr) {
            Some(i) => Some(&self.objects[i].1),
            None => None,
        }
    }

    /// Merge already-resolved (selector, implementation) pairs into the
    /// method table of the registered class at `addr`, first pair to last,
    /// a later pair overwriting an earlier binding for the same selector.
    pub fn merge_object_methods(&mut self, addr: u32, ps: &Vec<(Sel, Imp)>)
        requires
            old(self).wf(),
            old(self).objs().contains_key(addr),
            old(self).objs()[addr] is RealClass,
        ensures
            final(self).wf(),
            final(self).objs() == old(self).objs().insert(
                addr,
                (HostObjV::RealClass {
                    name: hname(old(self).objs()[addr]),
                    is_metaclass: hmeta(old(self).objs()[addr]),
                    superclass: hsuper(old(self).objs()[addr]),
                    methods: merged_pairs(hmethods(old(self).objs()[addr]), ps@),
                }),
            ),
            final(self).classes == old(self).classes,
            final(self).templates == old(self).templates,
            final(self).sels() == old(self).sels(),
    {
        let idx = match self.object_index(addr) {
            Some(i) => i,
            None => {
                // unreachable: the requires say the address is registered
                proof {
                    assert(false);
                }
                return ;
            },
        };
        let ghost m0 = hmethods(old(self).objs()[addr]);
        let np = ps.len();
        let mut j: usize = 0;
        while j < np
            invariant
                0 <= j <= np,
                np == ps@.len(),
                0 <= idx < self.objects@.len(),
                self.objects@.len() == old(self).objects@.len(),
                old(self).wf(),
                old(self).objs().contains_key(addr),
                old(self).objs()[addr] is RealClass,
                m0 == hmethods(old(self).objs()[addr]),
                forall|k: int|
                    0 <= k < self.objects@.len() && k != idx ==> self.objects@[k] == old(
                        self,
                    ).objects@[k],
                self.objects@[idx as int].0 == addr,
                old(self).objects@[idx as int].1@ == old(self).objs()[addr],
                self.objects@[idx as int].1 is Class,
                obj_wf(self.objects@[idx as int].1),
                self.objects@[idx as int].1@ == (HostObjV::RealClass {
                    name: hname(old(self).objs()[addr]),
                    is_metaclass: hmeta(old(self).objs()[addr]),
                    superclass: hsuper(old(self).objs()[addr]),
                    methods: merged_pairs(m0, ps@.subrange(0, j as int)),
                }),
                self.classes == old(self).classes,
                self.templates == old(self).templates,
                self.selectors == old(self).selectors,
            decreases np - j,
        {
            let pair = ps[j];
            let entry = &mut self.objects[idx];
            match &mut entry.1 {
                HostObj::Class(c) => {
                    c.methods.insert(pair.0, pair.1);
                },
                // the loop invariant rules this arm out: the object at `idx`
                // is a real class
                HostObj::Unimplemented(_) => {},
            }
            proof {
                let pre = ps@.subrange(0, j as int);
                let post = ps@.subrange(0, j + 1 as int);
                assert(post.drop_last() =~= pre);
                assert(post.last() == ps@[j as int]);
            }
            j = j + 1;
        }
        proof {
            assert(ps@.subrange(0, np as int) =~= ps@);
            assert(forall|k: int|
                0 <= k < old(self).obj_pairs().len() ==> (#[trigger] old(self).obj_pairs()[k]).0
                    == old(self).objects@[k].0 && old(self).obj_pairs()[k].1 == old(
                    self,
                ).objects@[k].1@);
            lemma_kv_map_update(
                old(self).obj_pairs(),
                idx as int,
                self.objects@[idx as int].1@,
            );
            assert(self.obj_pairs() =~= old(self).obj_pairs().update(
                idx as int,
                (addr, self.objects@[idx as int].1@),
            ));
        }
    }
}

} // verus!
