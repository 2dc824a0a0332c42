use objc_core::mem::Mem;
use objc_core::methods::{Imp, MethodEntry};
use objc_core::objects::HostObj;
use objc_core::registry::ObjC;
use objc_core::templates::ClassTemplate;
use objc_core::ObjCError;

fn entry(name: &[u8], imp: Imp) -> MethodEntry {
    MethodEntry { name: name.to_vec(), imp }
}

fn template(
    name: &[u8],
    superclass: Option<&[u8]>,
    class_methods: Vec<MethodEntry>,
    instance_methods: Vec<MethodEntry>,
) -> ClassTemplate {
    ClassTemplate {
        name: name.to_vec(),
        superclass: superclass.map(|s| s.to_vec()),
        class_methods,
        instance_methods,
    }
}

fn foo_catalog() -> Vec<ClassTemplate> {
    vec![template(
        b"Foo",
        None,
        vec![entry(b"make", Imp::Host(10))],
        vec![entry(b"bar", Imp::Host(11))],
    )]
}

fn registry_with(templates: Vec<ClassTemplate>, selectors: &[&[u8]]) -> ObjC {
    let mut objc = ObjC::new(templates);
    for s in selectors {
        objc.register_selector(s);
    }
    objc
}

#[test]
fn linked_pair_is_mutually_consistent() {
    let mut objc = registry_with(foo_catalog(), &[b"make", b"bar"]);
    let mut mem = Mem::new(Vec::new());
    let class = objc.link_class(b"Foo", false, &mut mem).unwrap();
    let meta = objc.link_class(b"Foo", true, &mut mem).unwrap();
    assert_eq!(ObjC::read_isa(class, &mem), meta);
    match objc.host_object(class) {
        Some(HostObj::Class(c)) => {
            assert_eq!(c.name, b"Foo".to_vec());
            assert!(!c.is_metaclass);
        },
        _ => panic!("class side must be a real class"),
    }
    match objc.host_object(meta) {
        Some(HostObj::Class(c)) => {
            assert_eq!(c.name, b"Foo".to_vec());
            assert!(c.is_metaclass);
        },
        _ => panic!("metaclass side must be a real class"),
    }
}

#[test]
fn link_is_idempotent() {
    let mut objc = registry_with(foo_catalog(), &[b"make", b"bar"]);
    let mut mem = Mem::new(Vec::new());
    let class1 = objc.link_class(b"Foo", false, &mut mem).unwrap();
    let meta1 = objc.link_class(b"Foo", true, &mut mem).unwrap();
    let class2 = objc.link_class(b"Foo", false, &mut mem).unwrap();
    let meta2 = objc.link_class(b"Foo", true, &mut mem).unwrap();
    assert_eq!(class1, class2);
    assert_eq!(meta1, meta2);
}

#[test]
fn link_metaclass_first_gives_the_same_pair() {
    let mut objc = registry_with(foo_catalog(), &[b"make", b"bar"]);
    let mut mem = Mem::new(Vec::new());
    let meta = objc.link_class(b"Foo", true, &mut mem).unwrap();
    let class = objc.link_class(b"Foo", false, &mut mem).unwrap();
    assert_eq!(ObjC::read_isa(class, &mem), meta);
    assert_eq!(objc.link_class(b"Foo", true, &mut mem).unwrap(), meta);
}

#[test]
fn link_without_template_substitutes_placeholder() {
    let mut objc = registry_with(Vec::new(), &[]);
    let mut mem = Mem::new(Vec::new());
    let class = objc.link_class(b"Ghost", false, &mut mem).unwrap();
    match objc.host_object(class) {
        Some(HostObj::Unimplemented(u)) => {
            assert_eq!(u.name, b"Ghost".to_vec());
            assert!(!u.is_metaclass);
        },
        _ => panic!("expected a placeholder"),
    }
    let meta = objc.link_class(b"Ghost", true, &mut mem).unwrap();
    match objc.host_object(meta) {
        Some(HostObj::Unimplemented(u)) => {
            assert_eq!(u.name, b"Ghost".to_vec());
            assert!(u.is_metaclass);
        },
        _ => panic!("expected a placeholder metaclass"),
    }
}

#[test]
fn get_known_class_aborts_without_template() {
    let mut objc = registry_with(Vec::new(), &[]);
    let mut mem = Mem::new(Vec::new());
    assert_eq!(
        objc.get_known_class(b"Ghost", &mut mem),
        Err(ObjCError::MissingTemplate)
    );
}

#[test]
fn get_known_class_resolves_class_side() {
    let mut objc = registry_with(foo_catalog(), &[b"make", b"bar"]);
    let mut mem = Mem::new(Vec::new());
    let class = objc.get_known_class(b"Foo", &mut mem).unwrap();
    assert_eq!(class, objc.link_class(b"Foo", false, &mut mem).unwrap());
}

#[test]
fn metaclass_isa_is_itself() {
    let mut objc = registry_with(foo_catalog(), &[b"make", b"bar"]);
    let mut mem = Mem::new(Vec::new());
    let meta = objc.link_class(b"Foo", true, &mut mem).unwrap();
    assert_eq!(ObjC::read_isa(meta, &mem), meta);
    // placeholders bootstrap their metaclass the same way
    let ghost_meta = objc.link_class(b"Ghost", true, &mut mem).unwrap();
    assert_eq!(ObjC::read_isa(ghost_meta, &mem), ghost_meta);
}

#[test]
fn child_superclass_isa_is_parent_metaclass() {
    let templates = vec![
        template(b"Parent", None, vec![], vec![entry(b"p", Imp::Host(1))]),
        template(
            b"Child",
            Some(b"Parent"),
            vec![],
            vec![entry(b"c", Imp::Host(2))],
        ),
    ];
    let mut objc = registry_with(templates, &[b"p", b"c"]);
    let mut mem = Mem::new(Vec::new());
    let child = objc.link_class(b"Child", false, &mut mem).unwrap();
    let superclass = match objc.host_object(child) {
        Some(HostObj::Class(c)) => c.superclass,
        _ => panic!("expected a real class"),
    };
    assert_eq!(superclass, objc.link_class(b"Parent", false, &mut mem).unwrap());
    let parent_meta = objc.link_class(b"Parent", true, &mut mem).unwrap();
    assert_eq!(ObjC::read_isa(superclass, &mem), parent_meta);
}

#[test]
fn root_class_has_nil_superclass() {
    let mut objc = registry_with(foo_catalog(), &[b"make", b"bar"]);
    let mut mem = Mem::new(Vec::new());
    let class = objc.link_class(b"Foo", false, &mut mem).unwrap();
    match objc.host_object(class) {
        Some(HostObj::Class(c)) => assert_eq!(c.superclass, 0),
        _ => panic!("expected a real class"),
    }
}

#[test]
fn template_methods_are_resolved_per_side() {
    let mut objc = registry_with(foo_catalog(), &[b"make", b"bar"]);
    let mut mem = Mem::new(Vec::new());
    let class = objc.link_class(b"Foo", false, &mut mem).unwrap();
    let meta = objc.link_class(b"Foo", true, &mut mem).unwrap();
    let bar = objc.selector_for(b"bar").unwrap();
    let make = objc.selector_for(b"make").unwrap();
    match objc.host_object(class) {
        Some(HostObj::Class(c)) => {
            assert_eq!(c.methods.get(bar), Some(Imp::Host(11)));
            assert_eq!(c.methods.get(make), None);
        },
        _ => panic!("expected a real class"),
    }
    match objc.host_object(meta) {
        Some(HostObj::Class(c)) => {
            assert_eq!(c.methods.get(make), Some(Imp::Host(10)));
            assert_eq!(c.methods.get(bar), None);
        },
        _ => panic!("expected a real metaclass"),
    }
}

#[test]
fn missing_superclass_template_is_fatal() {
    let templates = vec![template(
        b"Child",
        Some(b"Nowhere"),
        vec![],
        vec![],
    )];
    let mut objc = registry_with(templates, &[]);
    let mut mem = Mem::new(Vec::new());
    assert_eq!(
        objc.link_class(b"Child", false, &mut mem),
        Err(ObjCError::MissingSuperclassTemplate)
    );
}

#[test]
fn superclass_cycle_is_fatal() {
    let templates = vec![
        template(b"A", Some(b"B"), vec![], vec![]),
        template(b"B", Some(b"A"), vec![], vec![]),
    ];
    let mut objc = registry_with(templates, &[]);
    let mut mem = Mem::new(Vec::new());
    assert_eq!(
        objc.link_class(b"A", false, &mut mem),
        Err(ObjCError::SuperclassCycle)
    );
}

#[test]
fn unregistered_template_selector_is_fatal() {
    // the selector registry never saw "bar"
    let mut objc = registry_with(foo_catalog(), &[b"make"]);
    let mut mem = Mem::new(Vec::new());
    assert_eq!(
        objc.link_class(b"Foo", false, &mut mem),
        Err(ObjCError::UnregisteredSelector)
    );
}

#[test]
fn selector_registry_assigns_stable_identifiers() {
    let mut objc = registry_with(Vec::new(), &[]);
    let a = objc.register_selector(b"alpha");
    let b = objc.register_selector(b"beta");
    assert_ne!(a, b);
    assert_eq!(objc.register_selector(b"alpha"), a);
    assert_eq!(objc.selector_for(b"beta"), Some(b));
    assert_eq!(objc.selector_for(b"gamma"), None);
}
