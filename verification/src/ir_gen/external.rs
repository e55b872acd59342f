use vstd::prelude::*;

verus! {

/// A symbol supplied by another package at link time.
#[derive(Debug, Clone, Copy, PartialEq, Eq)]
pub struct ExternalInfo<'a> {
    pub name: &'a str,
    pub package_name: &'a str,
    pub is_const: bool,
}

impl<'a> ExternalInfo<'a> {
    pub fn new(name: &'a str, package_name: &'a str, is_const: bool) -> (r: Self)
        ensures
            r == (ExternalInfo { name, package_name, is_const }),
    {
        Self { name, package_name, is_const }
    }
}

} // verus!
