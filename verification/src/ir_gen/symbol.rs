use vstd::prelude::*;
use crate::ir_gen::ctimeval::CTimeVal;
use crate::ir_gen::typeval::TypeVal;

verus! {

/// What is known of an expression before any code is emitted for it: its
/// type, and its value where that is a compile-time constant.
#[derive(Debug, PartialEq, Eq)]
pub struct CmplSymbol {
    pub const_val: Option<CTimeVal>,
    pub type_val: TypeVal,
}

} // verus!
