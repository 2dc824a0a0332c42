//! The runtime's private representations of resolved classes, metaclasses and
//! placeholders, together with their mathematical views.

use vstd::prelude::*;
use crate::methods::{Imp, MethodTable, Sel};

verus! {

/// A resolved class or metaclass: the place where message dispatch looks up
/// method implementations.
pub struct ClassHostObject {
    pub name: Vec<u8>,
    pub is_metaclass: bool,
    /// Class reference of the superclass; 0 (nil) for a hierarchy root.
    pub superclass: u32,
    pub methods: MethodTable,
}

/// Placeholder for a class or metaclass the host cannot construct. Failure is
/// deferred to the first dispatch attempt, outside this core.
pub struct UnimplementedClass {
    pub name: Vec<u8>,
    pub is_metaclass: bool,
}

/// The host-side payload registered for a guest class reference.
pub enum HostObj {
    Class(ClassHostObject),
    Unimplemented(UnimplementedClass),
}

/// The mathematical view of a host object.
pub enum HostObjV {
    RealClass { name: Seq<u8>, is_metaclass: bool, superclass: u32, methods: Map<Sel, Imp> },
    Placeholder { name: Seq<u8>, is_metaclass: bool },
}

impl View for HostObj {
    type V = HostObjV;

    open spec fn view(&self) -> HostObjV {
        match self {
            HostObj::Class(c) => HostObjV::RealClass {
                name: c.name@,
                is_metaclass: c.is_metaclass,
                superclass: c.superclass,
                methods: c.methods@,
            },
            HostObj::Unimplemented(u) => HostObjV::Placeholder {
                name: u.name@,
                is_metaclass: u.is_metaclass,
            },
        }
    }
}

/// The name carried by a host object (shared by a class and its metaclass).
pub open spec fn hname(o: HostObjV) -> Seq<u8> {
    match o {
        HostObjV::RealClass { name, .. } => name,
        HostObjV::Placeholder { name, .. } => name,
    }
}

/// Whether the host object stands for a metaclass.
pub open spec fn hmeta(o: HostObjV) -> bool {
    match o {
        HostObjV::RealClass { is_metaclass, .. } => is_metaclass,
        HostObjV::Placeholder { is_metaclass, .. } => is_metaclass,
    }
}

/// The superclass reference of a resolved class (0 for a root or placeholder).
pub open spec fn hsuper(o: HostObjV) -> u32 {
    match o {
        HostObjV::RealClass { superclass, .. } => superclass,
        HostObjV::Placeholder { .. } => 0,
    }
}

/// The method table of a resolved class (empty for a placeholder).
pub open spec fn hmethods(o: HostObjV) -> Map<Sel, Imp> {
    match o {
        HostObjV::RealClass { methods, .. } => methods,
        HostObjV::Placeholder { .. } => Map::empty(),
    }
}

/// Well-formedness of the executable representation.
pub open spec fn obj_wf(o: HostObj) -> bool {
    match o {
        HostObj::Class(c) => c.methods.wf(),
        HostObj::Unimplemented(_) => true,
    }
}

} // verus!
