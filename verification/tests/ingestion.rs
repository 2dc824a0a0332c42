use objc_core::ingest::{MachO, SectionInfo};
use objc_core::mem::Mem;
use objc_core::templates::ClassTemplate;
use objc_core::methods::{Imp, MethodEntry, MethodListTable};
use objc_core::objects::HostObj;
use objc_core::registry::ObjC;
use objc_core::ObjCError;

// Guest layout used by these tests: a class `Foo` at CLS whose metaclass is
// at META, with data records at DATA and MDATA, its name at NAME, the
// class-list section at CLASS_LIST, a category record at CAT with its name
// at CAT_NAME, and the category-list section at CAT_LIST. The method-list
// pointers BAR_ML and CAT_ML are opaque tokens resolved through the decoded
// method-list table, never read as memory.
const CLS: u32 = 0x10;
const META: u32 = 0x30;
const DATA: u32 = 0x50;
const MDATA: u32 = 0x80;
const NAME: u32 = 0xB0;
const CLASS_LIST: u32 = 0xC0;
const CAT: u32 = 0xD0;
const CAT_NAME: u32 = 0xF0;
const CAT_LIST: u32 = 0x100;
const BAR_ML: u32 = 0x1000;
const CAT_ML: u32 = 0x2000;

fn put_u32(img: &mut Vec<u8>, addr: u32, v: u32) {
    let a = addr as usize;
    if img.len() < a + 4 {
        img.resize(a + 4, 0);
    }
    let b = v.to_le_bytes();
    img[a] = b[0];
    img[a + 1] = b[1];
    img[a + 2] = b[2];
    img[a + 3] = b[3];
}

fn put_cstr(img: &mut Vec<u8>, addr: u32, s: &[u8]) {
    let a = addr as usize;
    if img.len() < a + s.len() + 1 {
        img.resize(a + s.len() + 1, 0);
    }
    for (i, &b) in s.iter().enumerate() {
        img[a + i] = b;
    }
    img[a + s.len()] = 0;
}

/// A guest image holding one class `Foo` (selector `bar` from BAR_ML) and
/// one category on it (method list CAT_ML).
fn foo_image() -> Vec<u8> {
    let mut img = Vec::new();
    // class record: isa, superclass, cache, vtable, data
    put_u32(&mut img, CLS, META);
    put_u32(&mut img, CLS + 4, 0);
    put_u32(&mut img, CLS + 16, DATA);
    // metaclass record
    put_u32(&mut img, META, 0);
    put_u32(&mut img, META + 4, 0);
    put_u32(&mut img, META + 16, MDATA);
    // class data record: name at +16, base methods at +20
    put_u32(&mut img, DATA + 16, NAME);
    put_u32(&mut img, DATA + 20, BAR_ML);
    put_u32(&mut img, DATA + 36, 0);
    // metaclass data record: same name, no methods
    put_u32(&mut img, MDATA + 16, NAME);
    put_u32(&mut img, MDATA + 20, 0);
    put_u32(&mut img, MDATA + 36, 0);
    put_cstr(&mut img, NAME, b"Foo");
    // class-list section: one entry
    put_u32(&mut img, CLASS_LIST, CLS);
    // category record: name, class, instance methods, class methods
    put_u32(&mut img, CAT, CAT_NAME);
    put_u32(&mut img, CAT + 4, CLS);
    put_u32(&mut img, CAT + 8, CAT_ML);
    put_u32(&mut img, CAT + 12, 0);
    put_u32(&mut img, CAT + 20, 0);
    put_cstr(&mut img, CAT_NAME, b"FooExtras");
    // category-list section: one entry
    put_u32(&mut img, CAT_LIST, CAT);
    img
}

fn foo_binary() -> MachO {
    MachO {
        class_list: Some(SectionInfo { addr: CLASS_LIST, size: 4 }),
        cat_list: Some(SectionInfo { addr: CAT_LIST, size: 4 }),
    }
}

fn decoded_lists(cat_entries: Vec<MethodEntry>) -> MethodListTable {
    let mut lists = MethodListTable::new();
    lists.add(
        BAR_ML,
        vec![MethodEntry { name: b"bar".to_vec(), imp: Imp::Guest(0x111) }],
    );
    lists.add(CAT_ML, cat_entries);
    lists
}

#[test]
fn end_to_end_class_then_category() {
    let img = foo_image();
    let mem = Mem::new(img);
    let mut objc = ObjC::new(Vec::new());
    let lists = decoded_lists(vec![MethodEntry {
        name: b"baz".to_vec(),
        imp: Imp::Guest(0x222),
    }]);
    let bin = foo_binary();
    objc.register_bin_classes(&bin, &mem, &lists).unwrap();
    objc.register_bin_categories(&bin, &mem, &lists).unwrap();
    let bar = objc.selector_for(b"bar").unwrap();
    let baz = objc.selector_for(b"baz").unwrap();
    match objc.host_object(CLS) {
        Some(HostObj::Class(c)) => {
            assert_eq!(c.name, b"Foo".to_vec());
            assert!(!c.is_metaclass);
            assert_eq!(c.methods.get(bar), Some(Imp::Guest(0x111)));
            assert_eq!(c.methods.get(baz), Some(Imp::Guest(0x222)));
        },
        _ => panic!("Foo must be registered as a real class"),
    }
    match objc.host_object(META) {
        Some(HostObj::Class(c)) => {
            assert_eq!(c.name, b"Foo".to_vec());
            assert!(c.is_metaclass);
        },
        _ => panic!("Foo's metaclass must be registered"),
    }
}

#[test]
fn ingested_class_is_found_by_link() {
    let mem = Mem::new(foo_image());
    let mut objc = ObjC::new(Vec::new());
    let lists = decoded_lists(Vec::new());
    objc.register_bin_classes(&foo_binary(), &mem, &lists).unwrap();
    let mut mem = mem;
    assert_eq!(objc.link_class(b"Foo", false, &mut mem), Ok(CLS));
    assert_eq!(objc.link_class(b"Foo", true, &mut mem), Ok(META));
}

#[test]
fn category_overrides_base_method() {
    let mem = Mem::new(foo_image());
    let mut objc = ObjC::new(Vec::new());
    // the category redefines `bar`, which the class already defines
    let lists = decoded_lists(vec![MethodEntry {
        name: b"bar".to_vec(),
        imp: Imp::Guest(0x999),
    }]);
    let bin = foo_binary();
    objc.register_bin_classes(&bin, &mem, &lists).unwrap();
    let bar = objc.selector_for(b"bar").unwrap();
    match objc.host_object(CLS) {
        Some(HostObj::Class(c)) => assert_eq!(c.methods.get(bar), Some(Imp::Guest(0x111))),
        _ => panic!("Foo must be registered"),
    }
    objc.register_bin_categories(&bin, &mem, &lists).unwrap();
    match objc.host_object(CLS) {
        Some(HostObj::Class(c)) => assert_eq!(c.methods.get(bar), Some(Imp::Guest(0x999))),
        _ => panic!("Foo must still be registered"),
    }
}

#[test]
fn class_list_size_not_multiple_of_four_is_rejected() {
    let mem = Mem::new(foo_image());
    let mut objc = ObjC::new(Vec::new());
    let lists = decoded_lists(Vec::new());
    let bin = MachO {
        class_list: Some(SectionInfo { addr: CLASS_LIST, size: 6 }),
        cat_list: None,
    };
    assert_eq!(
        objc.register_bin_classes(&bin, &mem, &lists),
        Err(ObjCError::BadSectionSize)
    );
}

#[test]
fn category_list_size_not_multiple_of_four_is_rejected() {
    let mem = Mem::new(foo_image());
    let mut objc = ObjC::new(Vec::new());
    let lists = decoded_lists(Vec::new());
    let bin = MachO {
        class_list: None,
        cat_list: Some(SectionInfo { addr: CAT_LIST, size: 7 }),
    };
    assert_eq!(
        objc.register_bin_categories(&bin, &mem, &lists),
        Err(ObjCError::BadSectionSize)
    );
}

#[test]
fn absent_sections_are_a_no_op() {
    let mem = Mem::new(foo_image());
    let mut objc = ObjC::new(Vec::new());
    let lists = decoded_lists(Vec::new());
    let bin = MachO { class_list: None, cat_list: None };
    objc.register_bin_classes(&bin, &mem, &lists).unwrap();
    objc.register_bin_categories(&bin, &mem, &lists).unwrap();
    assert!(objc.host_object(CLS).is_none());
}

#[test]
fn class_metaclass_name_mismatch_is_rejected() {
    let mut img = foo_image();
    // point the metaclass's data record at a different name
    put_cstr(&mut img, CAT_NAME, b"NotFoo");
    put_u32(&mut img, MDATA + 16, CAT_NAME);
    let mem = Mem::new(img);
    let mut objc = ObjC::new(Vec::new());
    let lists = decoded_lists(Vec::new());
    assert_eq!(
        objc.register_bin_classes(&foo_binary(), &mem, &lists),
        Err(ObjCError::ClassNameMismatch)
    );
}

#[test]
fn class_record_out_of_bounds_is_rejected() {
    let mut img = foo_image();
    // the single class-list entry points past the end of memory
    put_u32(&mut img, CLASS_LIST, 0xFFFF_0000);
    let mem = Mem::new(img);
    let mut objc = ObjC::new(Vec::new());
    let lists = decoded_lists(Vec::new());
    assert_eq!(
        objc.register_bin_classes(&foo_binary(), &mem, &lists),
        Err(ObjCError::OutOfBoundsRead)
    );
}

#[test]
fn unterminated_class_name_is_rejected() {
    let mut img = foo_image();
    let end = img.len() as u32;
    // name pointer to the last byte, which is not NUL
    put_u32(&mut img, DATA + 16, end + 3);
    img.resize(end as usize + 4, 0x41);
    let mem = Mem::new(img);
    let mut objc = ObjC::new(Vec::new());
    let lists = decoded_lists(Vec::new());
    assert_eq!(
        objc.register_bin_classes(&foo_binary(), &mem, &lists),
        Err(ObjCError::UnterminatedName)
    );
}

#[test]
fn unknown_method_list_is_rejected() {
    let mem = Mem::new(foo_image());
    let mut objc = ObjC::new(Vec::new());
    // a table that never saw BAR_ML
    let lists = MethodListTable::new();
    assert_eq!(
        objc.register_bin_classes(&foo_binary(), &mem, &lists),
        Err(ObjCError::UnknownMethodList)
    );
}

#[test]
fn duplicate_class_entry_is_rejected() {
    let mut img = foo_image();
    // a second entry for the same class record
    put_u32(&mut img, CLASS_LIST + 4, CLS);
    let mem = Mem::new(img);
    let mut objc = ObjC::new(Vec::new());
    let lists = decoded_lists(Vec::new());
    let bin = MachO {
        class_list: Some(SectionInfo { addr: CLASS_LIST, size: 8 }),
        cat_list: None,
    };
    assert_eq!(
        objc.register_bin_classes(&bin, &mem, &lists),
        Err(ObjCError::ObjectCollision)
    );
}

#[test]
fn category_with_unresolved_target_is_rejected() {
    let mem = Mem::new(foo_image());
    let mut objc = ObjC::new(Vec::new());
    let lists = decoded_lists(Vec::new());
    let bin = MachO {
        class_list: None,
        cat_list: foo_binary().cat_list,
    };
    // the classes were never ingested, so the target cannot be resolved
    assert_eq!(
        objc.register_bin_categories(&bin, &mem, &lists),
        Err(ObjCError::UnresolvedCategoryTarget)
    );
}

#[test]
fn binary_class_overwrites_template_entry() {
    let templates = vec![ClassTemplate {
        name: b"Foo".to_vec(),
        superclass: None,
        class_methods: Vec::new(),
        instance_methods: Vec::new(),
    }];
    let mut objc = ObjC::new(templates);
    let mut mem = Mem::new(foo_image());
    let template_class = objc.link_class(b"Foo", false, &mut mem).unwrap();
    let lists = decoded_lists(Vec::new());
    objc.register_bin_classes(&foo_binary(), &mem, &lists).unwrap();
    assert_ne!(template_class, CLS);
    assert_eq!(objc.link_class(b"Foo", false, &mut mem), Ok(CLS));
}

#[test]
fn mem_reads_little_endian_words() {
    let mem = Mem::new(vec![0x78, 0x56, 0x34, 0x12, 0xFF]);
    assert_eq!(mem.read_u32(0), 0x1234_5678);
    assert_eq!(mem.read_u32(1), 0xFF12_3456);
}

#[test]
fn mem_write_then_read_roundtrip() {
    let mut mem = Mem::new(vec![0; 8]);
    mem.write_u32(2, 0xDEAD_BEEF);
    assert_eq!(mem.read_u32(2), 0xDEAD_BEEF);
    assert_eq!(mem.read_u32(0) & 0xFFFF, 0);
}

#[test]
fn mem_reads_c_strings() {
    let mem = Mem::new(vec![b'h', b'i', 0, b'x']);
    assert_eq!(mem.read_cstr(0), Some(b"hi".to_vec()));
    assert_eq!(mem.read_cstr(2), Some(Vec::new()));
    assert_eq!(mem.read_cstr(3), None);
    assert_eq!(mem.read_cstr(100), None);
}

#[test]
fn method_table_insert_overwrites() {
    let mut t = objc_core::methods::MethodTable::new();
    t.insert(7, Imp::Host(1));
    assert_eq!(t.get(7), Some(Imp::Host(1)));
    t.insert(7, Imp::Guest(2));
    assert_eq!(t.get(7), Some(Imp::Guest(2)));
    assert_eq!(t.get(8), None);
    assert!(t.contains(7));
    assert!(!t.contains(8));
}
