use vstd::prelude::*;

verus! {

/// The closed set of value types of the source language.
#[derive(Debug, PartialEq, Eq)]
pub enum TypeVal {
    Unit,
    UInt64,
    StringSlice,
    FunctionPointer(Box<TypeVal>),
    /// A code pointer together with its receiver.
    MethodPointer,
}

impl TypeVal {
    /// Number of bytes a value of this type occupies on the stack or in the
    /// global segment.
    pub open spec fn spec_size_of(&self) -> usize {
        match self {
            TypeVal::Unit => 0,
            TypeVal::UInt64 => 8,
            TypeVal::StringSlice => 16,
            TypeVal::FunctionPointer(_) => 8,
            TypeVal::MethodPointer => 16,
        }
    }

    #[verifier::when_used_as_spec(spec_size_of)]
    pub fn size_of(&self) -> (n: usize)
        ensures
            n == self.spec_size_of(),
            n == 0 || n == 8 || n == 16,
    {
        match self {
            TypeVal::Unit => 0,
            TypeVal::UInt64 => 8,
            TypeVal::StringSlice => 16,
            TypeVal::FunctionPointer(..) => 8,
            TypeVal::MethodPointer => 16,
        }
    }
}

impl Clone for TypeVal {
    fn clone(&self) -> (r: Self)
        ensures
            r == *self,
        decreases self,
    {
        match self {
            TypeVal::Unit => TypeVal::Unit,
            TypeVal::UInt64 => TypeVal::UInt64,
            TypeVal::StringSlice => TypeVal::StringSlice,
            TypeVal::FunctionPointer(ret) => {
                let inner: TypeVal = (**ret).clone();
                TypeVal::FunctionPointer(Box::new(inner))
            },
            TypeVal::MethodPointer => TypeVal::MethodPointer,
        }
    }
}

} // verus!
