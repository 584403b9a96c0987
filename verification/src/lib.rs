//! Compile-time registry synthesis for a module's constant and static
//! declarations.
//!
//! Given the ordered list of a module's top-level items, the library derives a
//! short tag for each declaration's structural type, deduplicates the tags into
//! a variant set for a tagged-union type, partitions the declarations into
//! ordered association tables by mutability category, and renders the
//! synthesized declarations as Rust source text.  A host shim is expected to
//! parse the module, hand the declarations over as plain values, and splice the
//! rendered items back in.

pub mod emit;
pub mod lookup;
pub mod model;
pub mod registry;
pub mod tag;
