//! The data the generator works on: structural type descriptions, declarations
//! with their mutability category, and the module items they are drawn from,
//! together with the mathematical models the contracts speak of.

use vstd::prelude::*;

verus! {

/// Mutability category of a declaration.
///
/// `Value` bindings (`const`) are copied by value into the generated tables;
/// `Location` bindings (`static`) have a stable address and are referenced.
#[derive(Clone, Copy, PartialEq, Eq, Structural)]
pub enum Category {
    Value,
    Location,
}

/// A structural type description.
///
/// Only the forms the generator supports are modelled structurally; any other
/// form a host encounters is handed over as `Unsupported`, carrying its
/// textual rendering for the fatal error message.
pub enum TypeDesc {
    /// A path type, reduced to its terminal path segment.
    Named(String),
    /// An array: element type and the literal text of the length expression.
    Array(Box<TypeDesc>, String),
    /// A tuple, possibly empty.
    Tuple(Vec<TypeDesc>),
    /// A raw pointer: element type and whether the pointer is mutable.
    Ptr(Box<TypeDesc>, bool),
    /// A reference to the element type.
    Reference(Box<TypeDesc>),
    /// A slice of the element type.
    Slice(Box<TypeDesc>),
    /// The never type.
    Never,
    /// Any structural form outside the supported grammar, as rendered text.
    Unsupported(String),
}

/// Spec-level model of a `TypeDesc`: the same shape over `Seq<char>`.
pub enum TypeModel {
    Named(Seq<char>),
    Array(Box<TypeModel>, Seq<char>),
    Tuple(Seq<TypeModel>),
    Ptr(Box<TypeModel>, bool),
    Reference(Box<TypeModel>),
    Slice(Box<TypeModel>),
    Never,
    Unsupported(Seq<char>),
}

pub open spec fn type_desc_view(t: TypeDesc) -> TypeModel
    decreases t,
{
    match t {
        TypeDesc::Named(s) => TypeModel::Named(s@),
        TypeDesc::Array(e, n) => TypeModel::Array(Box::new(type_desc_view(*e)), n@),
        TypeDesc::Tuple(es) => TypeModel::Tuple(type_desc_seq_view(es@)),
        TypeDesc::Ptr(e, m) => TypeModel::Ptr(Box::new(type_desc_view(*e)), m),
        TypeDesc::Reference(e) => TypeModel::Reference(Box::new(type_desc_view(*e))),
        TypeDesc::Slice(e) => TypeModel::Slice(Box::new(type_desc_view(*e))),
        TypeDesc::Never => TypeModel::Never,
        TypeDesc::Unsupported(s) => TypeModel::Unsupported(s@),
    }
}

pub open spec fn type_desc_seq_view(s: Seq<TypeDesc>) -> Seq<TypeModel>
    decreases s,
{
    if s.len() == 0 {
        Seq::<TypeModel>::empty()
    } else {
        type_desc_seq_view(s.drop_last()).push(type_desc_view(s.last()))
    }
}

impl View for TypeDesc {
    type V = TypeModel;

    open spec fn view(&self) -> TypeModel {
        type_desc_view(*self)
    }
}

pub proof fn lemma_seq_view_len(s: Seq<TypeDesc>)
    ensures
        type_desc_seq_view(s).len() == s.len(),
    decreases s,
{
    if s.len() != 0 {
        lemma_seq_view_len(s.drop_last());
    }
}

pub proof fn lemma_seq_view_index(s: Seq<TypeDesc>, i: int)
    requires
        0 <= i < s.len(),
    ensures
        type_desc_seq_view(s).len() == s.len(),
        type_desc_seq_view(s)[i] == type_desc_view(s[i]),
    decreases s,
{
    lemma_seq_view_len(s);
    if i < s.len() - 1 {
        lemma_seq_view_index(s.drop_last(), i);
    }
}

/// One eligible top-level value-defining item of the host module.
pub struct Declaration {
    /// The declared identifier, unique within the module (the host language
    /// enforces this; it is not re-validated here).
    pub name: String,
    /// The declared type.
    pub ty: TypeDesc,
    /// Whether the item is a value binding or a location binding.
    pub category: Category,
}

/// Spec-level model of a `Declaration`.
pub struct DeclModel {
    pub name: Seq<char>,
    pub ty: TypeModel,
    pub category: Category,
}

impl View for Declaration {
    type V = DeclModel;

    open spec fn view(&self) -> DeclModel {
        DeclModel { name: self.name@, ty: self.ty@, category: self.category }
    }
}

/// A top-level item of the host module, as the classification pass sees it.
///
/// Items that are not value or location bindings (functions, type aliases,
/// nested items, ...) are handed over as `Other` and silently skipped.
pub enum ModuleItem {
    Value(String, TypeDesc),
    Location(String, TypeDesc),
    Other,
}

/// Spec-level model of a `ModuleItem`.
pub enum ItemModel {
    Value(Seq<char>, TypeModel),
    Location(Seq<char>, TypeModel),
    Other,
}

impl View for ModuleItem {
    type V = ItemModel;

    open spec fn view(&self) -> ItemModel {
        match *self {
            ModuleItem::Value(ref n, ref t) => ItemModel::Value(n@, t@),
            ModuleItem::Location(ref n, ref t) => ItemModel::Location(n@, t@),
            ModuleItem::Other => ItemModel::Other,
        }
    }
}

/// The one error the generator itself can raise: a declaration whose type
/// uses a form outside the supported grammar.  Generation for the whole
/// module fails with no output at all.
#[derive(Debug)]
pub enum BuildError {
    /// Carries the textual rendering of the first offending type form.
    UnsupportedType(String),
}

impl View for BuildError {
    type V = Seq<char>;

    open spec fn view(&self) -> Seq<char> {
        match *self {
            BuildError::UnsupportedType(ref s) => s@,
        }
    }
}

} // verus!
