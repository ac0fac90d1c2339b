use vstd::prelude::*;

verus! {

/// A location in program or data memory.
pub type Address = u64;

/// The types of the source language.
#[derive(PartialEq, Eq, Hash)]
pub enum Type {
    Void,
    Int,
    Bool,
    Char,
    Array(Box<Type>, u64),
    Class(String),
}

impl Clone for Type {
    fn clone(&self) -> (copy: Self)
        ensures
            crate::translator::expression::type_view(copy)
                == crate::translator::expression::type_view(*self),
        decreases self,
    {
        match self {
            Type::Void => Type::Void,
            Type::Int => Type::Int,
            Type::Bool => Type::Bool,
            Type::Char => Type::Char,
            Type::Array(element, size) => Type::Array(Box::new((**element).clone()), *size),
            Type::Class(name) => Type::Class(name.clone()),
        }
    }
}

/// A named, typed variable.
#[derive(Clone)]
pub struct Variable {
    pub name: String,
    pub typ: Type,
}

} // verus!
