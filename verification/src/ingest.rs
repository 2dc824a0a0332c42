//! Binary ingestion: registering the classes and merging the categories that
//! a loaded guest binary defines, decoded field by field from the packed
//! class, class-data and category records in guest memory.

use vstd::prelude::*;
use crate::mem::{bytes_eq, copy_bytes, cstr_at, cstr_terminated, word_at, Mem};
use crate::methods::{
    entries_view, entry_names, lemma_merged_pairs_resolved, lemma_resolved_into_extends,
    resolvable, resolved, resolved_into, table_from_pairs, Imp, MethodListTable, Sel,
};
use crate::objects::{hmeta, hmethods, hname, hsuper, ClassHostObject, HostObj, HostObjV};
use crate::registry::{ObjC, RegState};
use crate::selectors::{
    lemma_seq_extends_refl, lemma_seq_extends_trans, reg_sels, seq_extends,
};
use crate::ObjCError;

verus! {

/// A section of the guest binary: start address and byte size.
#[derive(Clone, Copy)]
pub struct SectionInfo {
    pub addr: u32,
    pub size: u32,
}

/// What the registry consumes from a loaded guest binary: the class-list and
/// category-list sections, if the binary has them. Each section is an array
/// of 4-byte guest addresses.
pub struct MachO {
    pub class_list: Option<SectionInfo>,
    pub cat_list: Option<SectionInfo>,
}

// The binary class record: isa, superclass, cache (ignored), vtable
// (ignored), then a pointer to the class data record. The data record:
// flags, instance start, instance size, a reserved word (4 x u32), the name
// pointer at offset 16, the method-list pointer at offset 20, then base
// protocols, instance variables, a weak-ivar-layout word and base
// properties, all ignored; 40 bytes in all.

/// The isa field of the class record at `c`.
pub open spec fn bin_isa(m: Seq<u8>, c: u32) -> u32 {
    word_at(m, c as int)
}

/// The superclass field of the class record at `c`.
pub open spec fn bin_super(m: Seq<u8>, c: u32) -> u32 {
    word_at(m, c as int + 4)
}

/// The data-record pointer of the class record at `c`.
pub open spec fn bin_data(m: Seq<u8>, c: u32) -> u32 {
    word_at(m, c as int + 16)
}

/// The name pointer in the data record of the class at `c`.
pub open spec fn bin_name_ptr(m: Seq<u8>, c: u32) -> u32 {
    word_at(m, bin_data(m, c) as int + 16)
}

/// The name of the class at `c`.
pub open spec fn bin_name(m: Seq<u8>, c: u32) -> Seq<u8> {
    cstr_at(m, bin_name_ptr(m, c) as int)
}

/// The method-list pointer in the data record of the class at `c`.
pub open spec fn bin_methods_ptr(m: Seq<u8>, c: u32) -> u32 {
    word_at(m, bin_data(m, c) as int + 20)
}

/// Why the class record at `c` cannot be decoded, if it cannot.
pub open spec fn bin_record_fault(m: Seq<u8>, c: u32) -> Option<ObjCError> {
    if c as int + 20 > m.len() {
        Some(ObjCError::OutOfBoundsRead)
    } else if bin_data(m, c) as int + 40 > m.len() {
        Some(ObjCError::OutOfBoundsRead)
    } else if !cstr_terminated(m, bin_name_ptr(m, c) as int) {
        Some(ObjCError::UnterminatedName)
    } else {
        None
    }
}

/// Why a host object cannot be built from the class record at `c`: the
/// record must decode, and its method list (when non-null) must have been
/// decoded by the method-list decoder.
pub open spec fn bin_class_fault(
    m: Seq<u8>,
    lists: Map<u32, Seq<(Seq<u8>, Imp)>>,
    c: u32,
) -> Option<ObjCError> {
    if bin_record_fault(m, c) is Some {
        bin_record_fault(m, c)
    } else if bin_methods_ptr(m, c) != 0 && !lists.contains_key(bin_methods_ptr(m, c)) {
        Some(ObjCError::UnknownMethodList)
    } else {
        None
    }
}

/// The decoded method list behind a guest pointer: empty for a null pointer.
pub open spec fn list_entries(
    lists: Map<u32, Seq<(Seq<u8>, Imp)>>,
    ptr: u32,
) -> Seq<(Seq<u8>, Imp)> {
    if ptr == 0 || !lists.contains_key(ptr) {
        Seq::empty()
    } else {
        lists[ptr]
    }
}

/// A decoded binary class record: the fields the registry interprets.
pub struct BinClass {
    pub isa: u32,
    pub superclass: u32,
    pub name: Vec<u8>,
    pub base_methods: u32,
}

/// Decode the class record at `c` field by field.
pub fn read_bin_class(mem: &Mem, c: u32) -> (r: Result<BinClass, ObjCError>)
    requires
        mem@.len() <= 0x1_0000_0000,
    ensures
        match r {
            Ok(b) => {
                &&& bin_record_fault(mem@, c) is None
                &&& b.isa == bin_isa(mem@, c)
                &&& b.superclass == bin_super(mem@, c)
                &&& b.name@ == bin_name(mem@, c)
                &&& b.base_methods == bin_methods_ptr(mem@, c)
            },
            Err(e) => bin_record_fault(mem@, c) == Some(e),
        },
{
    let n = mem.len();
    if (c as u64) + 20 > (n as u64) {
        return Err(ObjCError::OutOfBoundsRead);
    }
    let isa = mem.read_u32(c);
    let superclass = mem.read_u32(c + 4);
    let data = mem.read_u32(c + 16);
    if (data as u64) + 40 > (n as u64) {
        return Err(ObjCError::OutOfBoundsRead);
    }
    let name_ptr = mem.read_u32(data + 16);
    let base_methods = mem.read_u32(data + 20);
    let name = match mem.read_cstr(name_ptr) {
        Some(v) => v,
        None => {
            return Err(ObjCError::UnterminatedName);
        },
    };
    Ok(BinClass { isa, superclass, name, base_methods })
}

impl ClassHostObject {
    /// Build a class or metaclass host object straight from the class record
    /// at `class` in guest memory: name and superclass come from the record,
    /// and the method table from the decoded method list behind the record's
    /// method-list pointer, its names registered as selectors on demand.
    pub fn from_bin(
        class: u32,
        is_metaclass: bool,
        mem: &Mem,
        objc: &mut ObjC,
        lists: &MethodListTable,
    ) -> (r: Result<ClassHostObject, ObjCError>)
        requires
            lists.wf(),
            mem@.len() <= 0x1_0000_0000,
        ensures
            final(objc).classes == old(objc).classes,
            final(objc).objects == old(objc).objects,
            final(objc).templates == old(objc).templates,
            seq_extends(old(objc).sels(), final(objc).sels()),
            match r {
                Ok(c) => {
                    &&& bin_class_fault(mem@, lists@, class) is None
                    &&& final(objc).sels() == reg_sels(
                        old(objc).sels(),
                        entry_names(list_entries(lists@, bin_methods_ptr(mem@, class))),
                    )
                    &&& c.name@ == bin_name(mem@, class)
                    &&& c.is_metaclass == is_metaclass
                    &&& c.superclass == bin_super(mem@, class)
                    &&& c.methods.wf()
                    &&& resolvable(
                        list_entries(lists@, bin_methods_ptr(mem@, class)),
                        final(objc).sels(),
                    )
                    &&& c.methods@ == resolved(
                        list_entries(lists@, bin_methods_ptr(mem@, class)),
                        final(objc).sels(),
                    )
                },
                Err(e) => bin_class_fault(mem@, lists@, class) == Some(e) && *final(objc) == *old(
                    objc,
                ),
            },
    {
        let b = match read_bin_class(mem, class) {
            Ok(b) => b,
            Err(e) => {
                proof {
                    lemma_seq_extends_refl(objc.sels());
                }
                return Err(e);
            },
        };
        let methods: crate::methods::MethodTable;
        if b.base_methods != 0 {
            let entries = match lists.get(b.base_methods) {
                Some(v) => v,
                None => {
                    proof {
                        lemma_seq_extends_refl(objc.sels());
                    }
                    return Err(ObjCError::UnknownMethodList);
                },
            };
            let ps = objc.resolve_entries(entries);
            methods = table_from_pairs(&ps);
            proof {
                lemma_merged_pairs_resolved(
                    Map::<Sel, Imp>::empty(),
                    entries_view(entries@),
                    ps@,
                    objc.sels(),
                );
            }
        } else {
            methods = crate::methods::MethodTable::new();
            proof {
                lemma_seq_extends_refl(objc.sels());
                assert(entry_names(list_entries(lists@, 0)) =~= Seq::<Seq<u8>>::empty());
                assert(reg_sels(objc.sels(), entry_names(list_entries(lists@, 0)))
                    == objc.sels());
            }
        }
        Ok(
            ClassHostObject {
                name: b.name,
                is_metaclass,
                superclass: b.superclass,
                methods,
            },
        )
    }
}

/// Why one class-list entry cannot be ingested against the objects
/// registered so far, if it cannot.
pub open spec fn class_entry_fault(
    m: Seq<u8>,
    lists: Map<u32, Seq<(Seq<u8>, Imp)>>,
    c: u32,
    objs: Map<u32, HostObjV>,
) -> Option<ObjCError> {
    let meta = bin_isa(m, c);
    if bin_class_fault(m, lists, c) is Some {
        bin_class_fault(m, lists, c)
    } else if bin_class_fault(m, lists, meta) is Some {
        bin_class_fault(m, lists, meta)
    } else if bin_name(m, c) != bin_name(m, meta) {
        Some(ObjCError::ClassNameMismatch)
    } else if objs.contains_key(c) || objs.contains_key(meta) || meta == c {
        Some(ObjCError::ObjectCollision)
    } else {
        None
    }
}

/// The registry state after ingesting the class at `c`: its selectors are
/// registered (instance-side names first), the class and metaclass objects
/// are registered at their existing guest addresses, and `name -> class` is
/// recorded, overwriting any prior entry for that name.
pub open spec fn ingest_class_step(
    m: Seq<u8>,
    lists: Map<u32, Seq<(Seq<u8>, Imp)>>,
    c: u32,
    st: RegState,
) -> RegState {
    let meta = bin_isa(m, c);
    let ie = list_entries(lists, bin_methods_ptr(m, c));
    let ce = list_entries(lists, bin_methods_ptr(m, meta));
    let sels1 = reg_sels(st.sels, entry_names(ie));
    let sels2 = reg_sels(sels1, entry_names(ce));
    RegState {
        sels: sels2,
        reg: st.reg.insert(bin_name(m, c), c),
        objs: st.objs.insert(
            c,
            HostObjV::RealClass {
                name: bin_name(m, c),
                is_metaclass: false,
                superclass: bin_super(m, c),
                methods: resolved(ie, sels2),
            },
        ).insert(
            meta,
            HostObjV::RealClass {
                name: bin_name(m, meta),
                is_metaclass: true,
                superclass: bin_super(m, meta),
                methods: resolved(ce, sels2),
            },
        ),
    }
}

/// Run class ingestion over entries `i..n` of the class-list section:
/// the final state, or the state so far and the first fault.
pub open spec fn ingest_classes_from(
    m: Seq<u8>,
    lists: Map<u32, Seq<(Seq<u8>, Imp)>>,
    base: int,
    i: int,
    n: int,
    st: RegState,
) -> (RegState, Option<ObjCError>)
    decreases n - i,
{
    if i >= n {
        (st, None::<ObjCError>)
    } else if base + 4 * i + 4 > m.len() {
        (st, Some(ObjCError::OutOfBoundsRead))
    } else {
        let c = word_at(m, base + 4 * i);
        match class_entry_fault(m, lists, c, st.objs) {
            Some(e) => (st, Some(e)),
            None => ingest_classes_from(m, lists, base, i + 1, n, ingest_class_step(m, lists, c, st)),
        }
    }
}

/// Class ingestion over the whole class-list section: a missing section is
/// a no-op, a byte size not divisible by 4 a corrupt-binary fault.
pub open spec fn ingest_classes(
    m: Seq<u8>,
    lists: Map<u32, Seq<(Seq<u8>, Imp)>>,
    sec: Option<SectionInfo>,
    st: RegState,
) -> (RegState, Option<ObjCError>) {
    match sec {
        Option::None => (st, None::<ObjCError>),
        Option::Some(s) => if s.size % 4 != 0 {
            (st, Some(ObjCError::BadSectionSize))
        } else {
            ingest_classes_from(m, lists, s.addr as int, 0, s.size as int / 4, st)
        },
    }
}

impl ObjC {
    /// Register all the classes the guest binary defines, decoding each from
    /// its class record; the registry does not allocate new guest storage
    /// for them. Faults abort the load with the first fault, leaving the
    /// name map and the object store exactly as far as the faulting entry.
    pub fn register_bin_classes(&mut self, bin: &MachO, mem: &Mem, lists: &MethodListTable) -> (r:
        Result<(), ObjCError>)
        requires
            old(self).wf(),
            old(self).consistent(mem@),
            lists.wf(),
            mem@.len() <= 0x1_0000_0000,
        ensures
            final(self).wf(),
            final(self).consistent(mem@),
            final(self).templates == old(self).templates,
            seq_extends(old(self).sels(), final(self).sels()),
            match r {
                Ok(()) => ingest_classes(mem@, lists@, bin.class_list, old(self).state()) == (
                    final(self).state(),
                    None::<ObjCError>,
                ),
                Err(e) => {
                    let run = ingest_classes(mem@, lists@, bin.class_list, old(self).state());
                    &&& run.1 == Some(e)
                    &&& final(self).reg() == run.0.reg
                    &&& final(self).objs() == run.0.objs
                    &&& seq_extends(run.0.sels, final(self).sels())
                },
            },
    {
        proof {
            lemma_seq_extends_refl(self.sels());
        }
        let sec = match &bin.class_list {
            Some(s) => *s,
            None => {
                return Ok(());
            },
        };
        if sec.size % 4 != 0 {
            return Err(ObjCError::BadSectionSize);
        }
        let n = sec.size / 4;
        let base = sec.addr;
        let ghost m = mem@;
        let ghost lv = lists@;
        let mut i: u32 = 0;
        while i < n
            invariant
                0 <= i <= n,
                self.wf(),
                self.consistent(m),
                lists.wf(),
                m == mem@,
                lv == lists@,
                m.len() <= 0x1_0000_0000,
                bin.class_list == Some(sec),
                sec.size % 4 == 0,
                base == sec.addr,
                n == sec.size / 4,
                self.templates == old(self).templates,
                seq_extends(old(self).sels(), self.sels()),
                ingest_classes_from(m, lv, base as int, 0, n as int, old(self).state())
                    == ingest_classes_from(m, lv, base as int, i as int, n as int, self.state()),
            decreases n - i,
        {
            let ghost st0 = self.state();
            proof {
                lemma_seq_extends_refl(self.sels());
            }
            if (base as u64) + 4 * (i as u64) + 4 > (mem.len() as u64) {
                return Err(ObjCError::OutOfBoundsRead);
            }
            let class = mem.read_u32(base + 4 * i);
            let cls_host = match ClassHostObject::from_bin(class, false, mem, self, lists) {
                Ok(h) => h,
                Err(e) => {
                    return Err(e);
                },
            };
            let ghost sels_b = self.sels();
            let meta = ObjC::read_isa(class, mem);
            let meta_host = match ClassHostObject::from_bin(meta, true, mem, self, lists) {
                Ok(h) => h,
                Err(e) => {
                    proof {
                        lemma_seq_extends_trans(st0.sels, sels_b, self.sels());
                        lemma_seq_extends_trans(old(self).sels(), st0.sels, self.sels());
                    }
                    return Err(e);
                },
            };
            proof {
                lemma_seq_extends_trans(st0.sels, sels_b, self.sels());
                lemma_seq_extends_trans(old(self).sels(), st0.sels, self.sels());
            }
            if !bytes_eq(cls_host.name.as_slice(), meta_host.name.as_slice()) {
                return Err(ObjCError::ClassNameMismatch);
            }
            let clash = match self.object_index(class) {
                Some(_) => true,
                None => match self.object_index(meta) {
                    Some(_) => true,
                    None => meta == class,
                },
            };
            if clash {
                return Err(ObjCError::ObjectCollision);
            }
            let name_copy = copy_bytes(cls_host.name.as_slice());
            proof {
                let ie = list_entries(lv, bin_methods_ptr(m, class));
                lemma_resolved_into_extends(Map::<Sel, Imp>::empty(), ie, sels_b, self.sels());
            }
            let ghost sels2 = self.sels();
            self.register_object(class, HostObj::Class(cls_host));
            self.register_object(meta, HostObj::Class(meta_host));
            self.insert_class(name_copy.as_slice(), class);
            proof {
                let stp = ingest_class_step(m, lv, class, st0);
                assert(self.sels() == stp.sels);
                assert(self.reg() == stp.reg);
                assert(self.objs() == stp.objs);
                assert(self.state() == stp);
                // consistency of the extended registry
                assert forall|a: u32| #[trigger] self.objs().contains_key(a) implies a + 4
                    <= m.len() by {
                    if a != class && a != meta {
                        assert(st0.objs.contains_key(a));
                    }
                }
                assert forall|n2: Seq<u8>| #[trigger] self.reg().contains_key(n2) implies
                    self.reg_entry_ok(m, n2) by {
                    if n2 != bin_name(m, class) {
                        assert(st0.reg.contains_key(n2));
                        assert(self.reg()[n2] == st0.reg[n2]);
                    }
                }
                lemma_seq_extends_trans(old(self).sels(), st0.sels, self.sels());
            }
            i = i + 1;
        }
        proof {
            assert(ingest_classes_from(m, lv, base as int, i as int, n as int, self.state())
                == (self.state(), None::<ObjCError>));
        }
        Ok(())
    }
}

/// Why one category-list entry cannot be merged against the objects
/// registered so far, if it cannot.
pub open spec fn cat_entry_fault(
    m: Seq<u8>,
    lists: Map<u32, Seq<(Seq<u8>, Imp)>>,
    p: u32,
    objs: Map<u32, HostObjV>,
) -> Option<ObjCError> {
    if p as int + 24 > m.len() {
        Some(ObjCError::OutOfBoundsRead)
    } else if !cstr_terminated(m, word_at(m, p as int) as int) {
        Some(ObjCError::UnterminatedName)
    } else {
        let target = word_at(m, p as int + 4);
        if !objs.contains_key(target) || !(objs[target] is RealClass) || hmeta(objs[target]) {
            Some(ObjCError::UnresolvedCategoryTarget)
        } else {
            let meta = word_at(m, target as int);
            if !objs.contains_key(meta) || !(objs[meta] is RealClass) {
                Some(ObjCError::UnresolvedCategoryTarget)
            } else if word_at(m, p as int + 8) != 0 && !lists.contains_key(
                word_at(m, p as int + 8),
            ) {
                Some(ObjCError::UnknownMethodList)
            } else if word_at(m, p as int + 12) != 0 && !lists.contains_key(
                word_at(m, p as int + 12),
            ) {
                Some(ObjCError::UnknownMethodList)
            } else {
                None
            }
        }
    }
}

/// The registry state after merging the category record at `p`: the
/// category's instance methods go into the target class's method table,
/// then its class methods into the target's metaclass's, an entry
/// overwriting any existing binding for the same selector. The name map
/// does not change.
pub open spec fn cat_step(
    m: Seq<u8>,
    lists: Map<u32, Seq<(Seq<u8>, Imp)>>,
    p: u32,
    st: RegState,
) -> RegState {
    let target = word_at(m, p as int + 4);
    let meta = word_at(m, target as int);
    let ie = list_entries(lists, word_at(m, p as int + 8));
    let ce = list_entries(lists, word_at(m, p as int + 12));
    let sels1 = reg_sels(st.sels, entry_names(ie));
    let sels2 = reg_sels(sels1, entry_names(ce));
    let o1 = st.objs.insert(
        target,
        HostObjV::RealClass {
            name: hname(st.objs[target]),
            is_metaclass: hmeta(st.objs[target]),
            superclass: hsuper(st.objs[target]),
            methods: resolved_into(hmethods(st.objs[target]), ie, sels2),
        },
    );
    let o2 = o1.insert(
        meta,
        HostObjV::RealClass {
            name: hname(o1[meta]),
            is_metaclass: hmeta(o1[meta]),
            superclass: hsuper(o1[meta]),
            methods: resolved_into(hmethods(o1[meta]), ce, sels2),
        },
    );
    RegState { sels: sels2, reg: st.reg, objs: o2 }
}

/// Run category ingestion over entries `i..n` of the category-list section.
pub open spec fn ingest_cats_from(
    m: Seq<u8>,
    lists: Map<u32, Seq<(Seq<u8>, Imp)>>,
    base: int,
    i: int,
    n: int,
    st: RegState,
) -> (RegState, Option<ObjCError>)
    decreases n - i,
{
    if i >= n {
        (st, None::<ObjCError>)
    } else if base + 4 * i + 4 > m.len() {
        (st, Some(ObjCError::OutOfBoundsRead))
    } else {
        let p = word_at(m, base + 4 * i);
        match cat_entry_fault(m, lists, p, st.objs) {
            Some(e) => (st, Some(e)),
            None => ingest_cats_from(m, lists, base, i + 1, n, cat_step(m, lists, p, st)),
        }
    }
}

/// Category ingestion over the whole category-list section.
pub open spec fn ingest_cats(
    m: Seq<u8>,
    lists: Map<u32, Seq<(Seq<u8>, Imp)>>,
    sec: Option<SectionInfo>,
    st: RegState,
) -> (RegState, Option<ObjCError>) {
    match sec {
        Option::None => (st, None::<ObjCError>),
        Option::Some(s) => if s.size % 4 != 0 {
            (st, Some(ObjCError::BadSectionSize))
        } else {
            ingest_cats_from(m, lists, s.addr as int, 0, s.size as int / 4, st)
        },
    }
}

impl ObjC {
    /// Merge all the categories the guest binary defines into their
    /// already-registered target classes and metaclasses. Faults abort the
    /// load with the first fault, leaving the object store exactly as far
    /// as the faulting entry; the name map never changes.
    pub fn register_bin_categories(&mut self, bin: &MachO, mem: &Mem, lists: &MethodListTable) -> (r:
        Result<(), ObjCError>)
        requires
            old(self).wf(),
            old(self).consistent(mem@),
            lists.wf(),
            mem@.len() <= 0x1_0000_0000,
        ensures
            final(self).wf(),
            final(self).consistent(mem@),
            final(self).templates == old(self).templates,
            seq_extends(old(self).sels(), final(self).sels()),
            match r {
                Ok(()) => ingest_cats(mem@, lists@, bin.cat_list, old(self).state()) == (
                    final(self).state(),
                    None::<ObjCError>,
                ),
                Err(e) => {
                    let run = ingest_cats(mem@, lists@, bin.cat_list, old(self).state());
                    &&& run.1 == Some(e)
                    &&& final(self).reg() == run.0.reg
                    &&& final(self).objs() == run.0.objs
                    &&& seq_extends(run.0.sels, final(self).sels())
                },
            },
    {
        proof {
            lemma_seq_extends_refl(self.sels());
        }
        let sec = match &bin.cat_list {
            Some(s) => *s,
            None => {
                return Ok(());
            },
        };
        if sec.size % 4 != 0 {
            return Err(ObjCError::BadSectionSize);
        }
        let n = sec.size / 4;
        let base = sec.addr;
        let ghost m = mem@;
        let ghost lv = lists@;
        let mut i: u32 = 0;
        while i < n
            invariant
                0 <= i <= n,
                self.wf(),
                self.consistent(m),
                lists.wf(),
                m == mem@,
                lv == lists@,
                m.len() <= 0x1_0000_0000,
                bin.cat_list == Some(sec),
                sec.size % 4 == 0,
                base == sec.addr,
                n == sec.size / 4,
                self.templates == old(self).templates,
                self.reg() == old(self).reg(),
                seq_extends(old(self).sels(), self.sels()),
                ingest_cats_from(m, lv, base as int, 0, n as int, old(self).state())
                    == ingest_cats_from(m, lv, base as int, i as int, n as int, self.state()),
            decreases n - i,
        {
            let ghost st0 = self.state();
            proof {
                lemma_seq_extends_refl(self.sels());
            }
            if (base as u64) + 4 * (i as u64) + 4 > (mem.len() as u64) {
                return Err(ObjCError::OutOfBoundsRead);
            }
            let p = mem.read_u32(base + 4 * i);
            if (p as u64) + 24 > (mem.len() as u64) {
                return Err(ObjCError::OutOfBoundsRead);
            }
            let name_ptr = mem.read_u32(p);
            match mem.read_cstr(name_ptr) {
                Some(_) => {},
                None => {
                    return Err(ObjCError::UnterminatedName);
                },
            }
            let target = mem.read_u32(p + 4);
            let target_ok = match self.host_object(target) {
                Some(o) => match o {
                    HostObj::Class(c) => !c.is_metaclass,
                    HostObj::Unimplemented(_) => false,
                },
                None => false,
            };
            if !target_ok {
                return Err(ObjCError::UnresolvedCategoryTarget);
            }
            let meta = mem.read_u32(target);
            let meta_ok = match self.host_object(meta) {
                Some(o) => match o {
                    HostObj::Class(_) => true,
                    HostObj::Unimplemented(_) => false,
                },
                None => false,
            };
            if !meta_ok {
                return Err(ObjCError::UnresolvedCategoryTarget);
            }
            let inst_ml = mem.read_u32(p + 8);
            let cls_ml = mem.read_u32(p + 12);
            let inst_entries = if inst_ml != 0 {
                lists.get(inst_ml)
            } else {
                None
            };
            if inst_ml != 0 && inst_entries.is_none() {
                return Err(ObjCError::UnknownMethodList);
            }
            let cls_entries = if cls_ml != 0 {
                lists.get(cls_ml)
            } else {
                None
            };
            if cls_ml != 0 && cls_entries.is_none() {
                return Err(ObjCError::UnknownMethodList);
            }
            let ghost ie = list_entries(lv, word_at(m, p as int + 8));
            let ghost ce = list_entries(lv, word_at(m, p as int + 12));
            let ghost m_t0 = hmethods(st0.objs[target]);
            let ps_i: Vec<(Sel, Imp)> = match inst_entries {
                Some(entries) => self.resolve_entries(entries),
                None => Vec::new(),
            };
            proof {
                if inst_ml == 0 {
                    assert(entry_names(ie) =~= Seq::<Seq<u8>>::empty());
                    assert(reg_sels(st0.sels, entry_names(ie)) == st0.sels);
                }
                assert(self.sels() == reg_sels(st0.sels, entry_names(ie)));
                assert forall|k: int| 0 <= k < ie.len() implies #[trigger] ps_i@[k] == (
                    crate::selectors::sel_index(self.sels(), ie[k].0) as Sel,
                    ie[k].1,
                ) by {
                    if inst_ml != 0 {
                        let entries = inst_entries.unwrap();
                        assert(entries_view(entries@)[k] == entries@[k]@);
                    }
                }
                lemma_merged_pairs_resolved(m_t0, ie, ps_i@, self.sels());
            }
            self.merge_object_methods(target, &ps_i);
            let ghost sels1g = self.sels();
            let ghost objs1 = self.objs();
            let ghost m_m0 = hmethods(objs1[meta]);
            let ps_c: Vec<(Sel, Imp)> = match cls_entries {
                Some(entries) => self.resolve_entries(entries),
                None => Vec::new(),
            };
            proof {
                if cls_ml == 0 {
                    assert(entry_names(ce) =~= Seq::<Seq<u8>>::empty());
                    assert(reg_sels(sels1g, entry_names(ce)) == sels1g);
                    lemma_seq_extends_refl(sels1g);
                }
                assert(self.sels() == reg_sels(sels1g, entry_names(ce)));
                assert forall|k: int| 0 <= k < ce.len() implies #[trigger] ps_c@[k] == (
                    crate::selectors::sel_index(self.sels(), ce[k].0) as Sel,
                    ce[k].1,
                ) by {
                    if cls_ml != 0 {
                        let entries = cls_entries.unwrap();
                        assert(entries_view(entries@)[k] == entries@[k]@);
                    }
                }
                lemma_merged_pairs_resolved(m_m0, ce, ps_c@, self.sels());
            }
            self.merge_object_methods(meta, &ps_c);
            proof {
                let stp = cat_step(m, lv, p, st0);
                lemma_resolved_into_extends(m_t0, ie, sels1g, self.sels());
                assert(self.sels() == stp.sels);
                assert(self.reg() == stp.reg);
                assert(self.objs() == stp.objs);
                assert(self.state() == stp);
                assert forall|a: u32| #[trigger] self.objs().contains_key(a) implies a + 4
                    <= m.len() by {
                    assert(st0.objs.contains_key(a));
                }
                assert forall|n2: Seq<u8>| #[trigger] self.reg().contains_key(n2) implies
                    self.reg_entry_ok(m, n2) by {
                    assert(st0.reg.contains_key(n2));
                    let c0 = st0.reg[n2];
                    let mc0 = word_at(m, c0 as int);
                    assert(st0.objs.contains_key(c0) && st0.objs.contains_key(mc0));
                    assert(hname(self.objs()[c0]) == hname(st0.objs[c0]));
                    assert(hmeta(self.objs()[c0]) == hmeta(st0.objs[c0]));
                    assert(hname(self.objs()[mc0]) == hname(st0.objs[mc0]));
                    assert(hmeta(self.objs()[mc0]) == hmeta(st0.objs[mc0]));
                }
                lemma_seq_extends_trans(st0.sels, sels1g, self.sels());
                lemma_seq_extends_trans(old(self).sels(), st0.sels, self.sels());
            }
            i = i + 1;
        }
        proof {
            assert(ingest_cats_from(m, lv, base as int, i as int, n as int, self.state()) == (
                self.state(),
                None::<ObjCError>,
            ));
        }
        Ok(())
    }
}

} // verus!
