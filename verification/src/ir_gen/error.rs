use vstd::prelude::*;

verus! {

/// Why the generator gave a program up. The first error ends the work.
#[derive(Debug, Clone, Copy, PartialEq, Eq, Structural)]
pub enum CompileError {
    /// `package` was declared more than once.
    DuplicatePackage,
    /// A global other than `main` is exported and no package was declared.
    ExportWithoutPackage,
    /// A declaration inside a block is marked as exported.
    ExportScope,
    /// The initializer of a global is no compile-time constant.
    GlobalNotConstant,
    /// An exported declaration has no initializer.
    ExportNotInitialized,
    /// A name is used that no scope declares.
    UnknownName,
    /// Something that is no function is called.
    NonCallable,
    /// A type stands where a value is needed.
    TypeAsValue,
    /// A function literal stands where it cannot be made a constant.
    FunctionNotInlined,
    /// A constant of a kind that no instruction can push.
    UnsupportedConstant,
    /// The virtual stack would shrink below what it holds.
    StackImbalance,
    /// A size, an offset or a distance does not fit the operand that must
    /// hold it.
    LimitExceeded,
}

} // verus!
