use vstd::prelude::*;
use crate::ir_gen::ctimeval::CTimeVal;

verus! {

/// A variable of the global segment with its static initializer.
#[derive(Debug, PartialEq, Eq)]
pub struct GlobalInfo<'a> {
    /// Byte offset from the base of the global segment.
    pub pos: usize,
    pub name: &'a str,
    pub is_exported: bool,
    pub init: CTimeVal,
    pub is_const: bool,
}

impl<'a> GlobalInfo<'a> {
    pub fn new(pos: usize, name: &'a str, is_exported: bool, init: CTimeVal, is_const: bool) -> (r:
        Self)
        ensures
            r == (GlobalInfo { pos, name, is_exported, init, is_const }),
    {
        Self { pos, name, is_exported, init, is_const }
    }
}

impl<'a> Clone for GlobalInfo<'a> {
    fn clone(&self) -> (r: Self)
        ensures
            r == *self,
    {
        GlobalInfo {
            pos: self.pos,
            name: self.name,
            is_exported: self.is_exported,
            init: self.init.clone(),
            is_const: self.is_const,
        }
    }
}

} // verus!
