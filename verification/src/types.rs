use vstd::prelude::*;

verus! {

/// Simple types of the language.
#[derive(Debug, PartialEq, Eq)]
pub enum Type {
    Bool,
    Nat,
    Func(Box<Type>, Box<Type>),
}

impl Clone for Type {
    fn clone(&self) -> (res: Self)
        ensures
            res == *self,
        decreases self,
    {
        match self {
            Type::Bool => Type::Bool,
            Type::Nat => Type::Nat,
            Type::Func(a, b) => Type::Func(Box::new((**a).clone()), Box::new((**b).clone())),
        }
    }
}

} // verus!
