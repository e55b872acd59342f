use vstd::prelude::*;
use crate::ir_gen::external::ExternalInfo;

verus! {

/// One positional instruction. The three `..FromOffset` nodes refer to
/// another instruction by the signed distance from their own index.
#[derive(Debug, Clone, Copy, PartialEq, Eq)]
pub enum IRNode<'a> {
    Call,
    ExternalReadPush64(ExternalInfo<'a>),
    CallFromOffset(i16),
    Return { params_size: usize },
    Push64(u64),
    Pop64ToStack(usize),
    Load64ToStack(u64, usize),
    PushAddressFromOffset(i16),
    JumpFromOffset(i16),
    StackAlloc(usize),
    StackDealloc(usize),
    GlobalReadPush64(usize),
    GlobalReadLoad64ToStack(usize, usize),
    StackReadPush64(usize),
    StackReadLoad64ToStack(usize, usize),
    PushStaticStringPointer(usize),
}

impl<'a> IRNode<'a> {
    /// Whether the node holds a relative reference to another instruction.
    pub open spec fn is_reference(&self) -> bool {
        self is CallFromOffset || self is PushAddressFromOffset || self is JumpFromOffset
    }

    /// The relative reference the node holds; 0 for a node that holds none.
    pub open spec fn reference(&self) -> int {
        match self {
            IRNode::CallFromOffset(k) => *k as int,
            IRNode::PushAddressFromOffset(k) => *k as int,
            IRNode::JumpFromOffset(k) => *k as int,
            _ => 0,
        }
    }

    /// The same kind of node with its relative reference replaced; a node
    /// that holds none is returned as it is.
    pub open spec fn with_reference(&self, k: i16) -> IRNode<'a> {
        match self {
            IRNode::CallFromOffset(_) => IRNode::CallFromOffset(k),
            IRNode::PushAddressFromOffset(_) => IRNode::PushAddressFromOffset(k),
            IRNode::JumpFromOffset(_) => IRNode::JumpFromOffset(k),
            _ => *self,
        }
    }
}

} // verus!
