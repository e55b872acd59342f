use vstd::prelude::*;
use crate::ir_gen::ctimeval::CTimeVal;
use crate::ir_gen::external::ExternalInfo;
use crate::ir_gen::typeval::TypeVal;

verus! {

/// A named binding. At most one of `const_val`, `external`, `global_pos`
/// and `stack_loc` is consulted to materialize it, in that order.
#[derive(Debug, PartialEq, Eq)]
pub struct Variable<'a> {
    pub name: &'a str,
    pub type_val: TypeVal,
    pub global_pos: Option<usize>,
    /// The virtual stack size right after the variable was allocated.
    pub stack_loc: Option<usize>,
    pub const_val: Option<CTimeVal>,
    pub external: Option<ExternalInfo<'a>>,
}

impl<'a> Clone for Variable<'a> {
    fn clone(&self) -> (r: Self)
        ensures
            r == *self,
    {
        let const_val = match &self.const_val {
            Some(v) => Some(v.clone()),
            None => None,
        };
        Variable {
            name: self.name,
            type_val: self.type_val.clone(),
            global_pos: self.global_pos,
            stack_loc: self.stack_loc,
            const_val,
            external: self.external,
        }
    }
}

} // verus!
