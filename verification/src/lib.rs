//! Object-model core of a dynamic-object-oriented runtime emulator.
//!
//! The library reconstructs a class/metaclass graph from two sources under a
//! single name-keyed identity space: host-supplied class templates, and the
//! packed class and category records embedded in a loaded guest binary.
//!
//! The pieces: [`mem`] models the guest address space; [`selectors`] maps
//! method names to stable identifiers; [`methods`] holds the per-class
//! method tables and the decoded method lists; [`templates`] the host-side
//! class descriptors; [`objects`] the host payloads for resolved classes,
//! metaclasses and placeholders; [`registry`] the name-keyed registry
//! itself; [`linking`] the lookup-and-link algorithm with its
//! self-referential metaclass bootstrap; [`ingest`] the binary class and
//! category loaders; and [`laws`] the properties proved of all of it.

pub mod ingest;
pub mod kvlist;
pub mod laws;
pub mod linking;
pub mod mem;
pub mod methods;
pub mod objects;
pub mod registry;
pub mod selectors;
pub mod templates;

use vstd::prelude::*;

verus! {

/// Everything that can go wrong while linking or ingesting classes.
///
/// The first four variants are host configuration faults: they can never be
/// caused by guest input alone. The rest are corrupt-guest-binary faults.
#[derive(Clone, Copy, PartialEq, Eq, Structural, Debug)]
pub enum ObjCError {
    /// A class was demanded by name and no template exists for it.
    MissingTemplate,
    /// A template declares a superclass that has no template of its own.
    MissingSuperclassTemplate,
    /// The template superclass graph contains a cycle.
    SuperclassCycle,
    /// A template method name is not a registered selector.
    UnregisteredSelector,
    /// A class-list or category-list section size is not a multiple of 4.
    BadSectionSize,
    /// A guest record lies (partly) outside guest memory.
    OutOfBoundsRead,
    /// A guest name string runs past the end of guest memory.
    UnterminatedName,
    /// A method-list pointer has no decoded method list.
    UnknownMethodList,
    /// A binary class and its metaclass report different names.
    ClassNameMismatch,
    /// A binary class record re-uses the guest address of an object that is
    /// already registered (or is its own metaclass); registering it would
    /// leave the registry inconsistent.
    ObjectCollision,
    /// A category targets a class reference that is not a registered class.
    UnresolvedCategoryTarget,
}

} // verus!
