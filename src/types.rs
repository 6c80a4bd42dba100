//! The shape of a type-checked file, for a checking pass that consumes the
//! parser's output. Bindings, literals and expressions keep their syntax-tree
//! form; declared types become `Type`s.
pub use crate::ast::{
    AnnotatedIdent, BinaryOperator, BindingLeftHand, ConstrainedType, Expr, Ident, Literal,
};
use std::collections::HashMap;
use vstd::prelude::*;

verus! {

/// A name that a generic parameter must satisfy.
pub type TypeConstraint = Ident;

#[derive(Debug, PartialEq)]
pub struct TypedFile {
    pub definitions: Vec<TypedTopLevelDefinition>,
}

#[derive(Debug, PartialEq)]
pub enum TypedTopLevelDefinition {
    Binding { lhs: BindingLeftHand, rhs: Literal },
    Extern { name: Ident, rhs: Type },
}

/// A resolved type. A struct maps each field name to the field's type.
#[derive(Debug, PartialEq)]
pub enum Type {
    Function { args: Vec<Type>, ret: Box<Type> },
    Struct { fields: HashMap<String, Type> },
    Slice(Box<Type>),
    Array { contained: Box<Type>, len: usize },
}

} // verus!
