use vstd::prelude::*;
use crate::ir_gen::typeval::TypeVal;

verus! {

/// A value the generator knows in full without emitting code.
#[derive(Debug, PartialEq, Eq)]
pub enum CTimeVal {
    UInt(u64),
    Int(i128),
    /// Offset of an interned string in the static pool, and its length in bytes.
    StringSlice(usize, usize),
    /// Index of the function's first instruction, and the type it returns.
    Function { address: usize, return_type_val: TypeVal },
    Type(TypeVal),
}

impl Clone for CTimeVal {
    fn clone(&self) -> (r: Self)
        ensures
            r == *self,
    {
        match self {
            CTimeVal::UInt(v) => CTimeVal::UInt(*v),
            CTimeVal::Int(v) => CTimeVal::Int(*v),
            CTimeVal::StringSlice(pointer, len) => CTimeVal::StringSlice(*pointer, *len),
            CTimeVal::Function { address, return_type_val } => CTimeVal::Function {
                address: *address,
                return_type_val: return_type_val.clone(),
            },
            CTimeVal::Type(t) => CTimeVal::Type(t.clone()),
        }
    }
}

} // verus!
