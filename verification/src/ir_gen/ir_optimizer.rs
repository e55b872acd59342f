use vstd::prelude::*;
use crate::ir_gen::ctimeval::CTimeVal;
use crate::ir_gen::equivalence::{
    follows, lemma_optimized_follows, lemma_optimized_moves_addresses,
};
use crate::ir_gen::global::GlobalInfo;
use crate::ir_gen::ir::IRNode;
use crate::ir_gen::program::{CompiledProgram, ProgramView};
use crate::ir_gen::realign::{
    lemma_rewrite_keeps_addresses, lemma_rewrite_keeps_references, lemma_rewrite_keeps_targets,
    rewritten_index,
};
use crate::ir_gen::settled::lemma_settled_optimizes_safely;

verus! {

/// What a peephole rule does to the instructions it matched: the first
/// `count` of them leave, and `replacement`, if there is one, takes their
/// place.
#[derive(Debug, Clone, Copy, PartialEq, Eq)]
pub struct Rewrite<'a> {
    pub count: usize,
    pub replacement: Option<IRNode<'a>>,
}

/// The peephole rule that matches two instructions in a row, if any does.
/// A rule whose result could not be held in an operand matches nothing.
/// The call that takes the place of a pushed address and its call is given
/// with one more than the address had, and comes to stand with the
/// reference that the address had when it is inserted (see
/// `IRNode::placed`).
pub open spec fn rewrite_for<'a>(first: IRNode<'a>, second: IRNode<'a>) -> Option<Rewrite<'a>> {
    match first {
        IRNode::StackAlloc(size) => if size == 0 {
            Some(Rewrite { count: 1, replacement: None })
        } else {
            match second {
                IRNode::StackAlloc(other) => if size + other <= usize::MAX {
                    Some(
                        Rewrite {
                            count: 2,
                            replacement: Some(IRNode::StackAlloc((size + other) as usize)),
                        },
                    )
                } else {
                    None
                },
                IRNode::StackDealloc(other) => if size > other {
                    Some(
                        Rewrite {
                            count: 2,
                            replacement: Some(IRNode::StackAlloc((size - other) as usize)),
                        },
                    )
                } else {
                    Some(
                        Rewrite {
                            count: 2,
                            replacement: Some(IRNode::StackDealloc((other - size) as usize)),
                        },
                    )
                },
                IRNode::Load64ToStack(value, offset) => if size == 8 && offset == 0 {
                    Some(Rewrite { count: 2, replacement: Some(IRNode::Push64(value)) })
                } else {
                    None
                },
                _ => None,
            }
        },
        IRNode::StackDealloc(size) => if size == 0 {
            Some(Rewrite { count: 1, replacement: None })
        } else {
            match second {
                IRNode::StackDealloc(other) => if size + other <= usize::MAX {
                    Some(
                        Rewrite {
                            count: 2,
                            replacement: Some(IRNode::StackDealloc((size + other) as usize)),
                        },
                    )
                } else {
                    None
                },
                IRNode::StackAlloc(other) => if size > other {
                    Some(
                        Rewrite {
                            count: 2,
                            replacement: Some(IRNode::StackDealloc((size - other) as usize)),
                        },
                    )
                } else {
                    Some(
                        Rewrite {
                            count: 2,
                            replacement: Some(IRNode::StackAlloc((other - size) as usize)),
                        },
                    )
                },
                _ => None,
            }
        },
        IRNode::Push64(value) => match second {
            IRNode::StackDealloc(size) => if size == 8 {
                Some(Rewrite { count: 2, replacement: None })
            } else {
                None
            },
            IRNode::Pop64ToStack(offset) => if offset >= 8 {
                Some(
                    Rewrite {
                        count: 2,
                        replacement: Some(IRNode::Load64ToStack(value, (offset - 8) as usize)),
                    },
                )
            } else {
                None
            },
            _ => None,
        },
        IRNode::GlobalReadPush64(global_pos) => match second {
            IRNode::StackDealloc(size) => if size == 8 {
                Some(Rewrite { count: 2, replacement: None })
            } else {
                None
            },
            IRNode::Pop64ToStack(offset) => if offset >= 8 {
                Some(
                    Rewrite {
                        count: 2,
                        replacement: Some(
                            IRNode::GlobalReadLoad64ToStack(global_pos, (offset - 8) as usize),
                        ),
                    },
                )
            } else {
                None
            },
            _ => None,
        },
        IRNode::StackReadPush64(src_offset) => match second {
            IRNode::StackDealloc(size) => if size == 8 {
                Some(Rewrite { count: 2, replacement: None })
            } else {
                None
            },
            IRNode::Pop64ToStack(dst_offset) => if dst_offset >= 8 {
                Some(
                    Rewrite {
                        count: 2,
                        replacement: Some(
                            IRNode::StackReadLoad64ToStack(
                                src_offset,
                                (dst_offset - 8) as usize,
                            ),
                        ),
                    },
                )
            } else {
                None
            },
            _ => None,
        },
        IRNode::PushAddressFromOffset(offset) => match second {
            IRNode::Call => if offset < i16::MAX {
                Some(
                    Rewrite {
                        count: 2,
                        replacement: Some(IRNode::CallFromOffset((offset + 1) as i16)),
                    },
                )
            } else {
                None
            },
            _ => None,
        },
        _ => None,
    }
}

/// Computes [`rewrite_for`].
pub fn find_rewrite<'a>(first: IRNode<'a>, second: IRNode<'a>) -> (r: Option<Rewrite<'a>>)
    ensures
        r == rewrite_for(first, second),
{
    match first {
        IRNode::StackAlloc(size) => {
            if size == 0 {
                Some(Rewrite { count: 1, replacement: None })
            } else {
                match second {
                    IRNode::StackAlloc(other) => {
                        if other <= usize::MAX - size {
                            Some(
                                Rewrite {
                                    count: 2,
                                    replacement: Some(IRNode::StackAlloc(size + other)),
                                },
                            )
                        } else {
                            None
                        }
                    },
                    IRNode::StackDealloc(other) => {
                        if size > other {
                            Some(
                                Rewrite {
                                    count: 2,
                                    replacement: Some(IRNode::StackAlloc(size - other)),
                                },
                            )
                        } else {
                            Some(
                                Rewrite {
                                    count: 2,
                                    replacement: Some(IRNode::StackDealloc(other - size)),
                                },
                            )
                        }
                    },
                    IRNode::Load64ToStack(value, offset) => {
                        if size == 8 && offset == 0 {
                            Some(Rewrite { count: 2, replacement: Some(IRNode::Push64(value)) })
                        } else {
                            None
                        }
                    },
                    _ => None,
                }
            }
        },
        IRNode::StackDealloc(size) => {
            if size == 0 {
                Some(Rewrite { count: 1, replacement: None })
            } else {
                match second {
                    IRNode::StackDealloc(other) => {
                        if other <= usize::MAX - size {
                            Some(
                                Rewrite {
                                    count: 2,
                                    replacement: Some(IRNode::StackDealloc(size + other)),
                                },
                            )
                        } else {
                            None
                        }
                    },
                    IRNode::StackAlloc(other) => {
                        if size > other {
                            Some(
                                Rewrite {
                                    count: 2,
                                    replacement: Some(IRNode::StackDealloc(size - other)),
                                },
                            )
                        } else {
                            Some(
                                Rewrite {
                                    count: 2,
                                    replacement: Some(IRNode::StackAlloc(other - size)),
                                },
                            )
                        }
                    },
                    _ => None,
                }
            }
        },
        IRNode::Push64(value) => match second {
            IRNode::StackDealloc(size) => {
                if size == 8 {
                    Some(Rewrite { count: 2, replacement: None })
                } else {
                    None
                }
            },
            IRNode::Pop64ToStack(offset) => {
                if offset >= 8 {
                    Some(
                        Rewrite {
                            count: 2,
                            replacement: Some(IRNode::Load64ToStack(value, offset - 8)),
                        },
                    )
                } else {
                    None
                }
            },
            _ => None,
        },
        IRNode::GlobalReadPush64(global_pos) => match second {
            IRNode::StackDealloc(size) => {
                if size == 8 {
                    Some(Rewrite { count: 2, replacement: None })
                } else {
                    None
                }
            },
            IRNode::Pop64ToStack(offset) => {
                if offset >= 8 {
                    Some(
                        Rewrite {
                            count: 2,
                            replacement: Some(
                                IRNode::GlobalReadLoad64ToStack(global_pos, offset - 8),
                            ),
                        },
                    )
                } else {
                    None
                }
            },
            _ => None,
        },
        IRNode::StackReadPush64(src_offset) => match second {
            IRNode::StackDealloc(size) => {
                if size == 8 {
                    Some(Rewrite { count: 2, replacement: None })
                } else {
                    None
                }
            },
            IRNode::Pop64ToStack(dst_offset) => {
                if dst_offset >= 8 {
                    Some(
                        Rewrite {
                            count: 2,
                            replacement: Some(
                                IRNode::StackReadLoad64ToStack(src_offset, dst_offset - 8),
                            ),
                        },
                    )
                } else {
                    None
                }
            },
            _ => None,
        },
        IRNode::PushAddressFromOffset(offset) => match second {
            IRNode::Call => {
                if offset < i16::MAX {
                    Some(Rewrite { count: 2, replacement: Some(IRNode::CallFromOffset(offset + 1)) })
                } else {
                    None
                }
            },
            _ => None,
        },
        _ => None,
    }
}

impl<'a> ProgramView<'a> {
    /// The rewrite that a pass applies at index `i`: that of the rule which
    /// matches the instruction at `i` and the one after it, provided the
    /// program allows the rewrite there (see `can_rewrite`). The last
    /// instruction of a program is never the start of a match.
    pub open spec fn rewrite_at(&self, i: int) -> Option<Rewrite<'a>> {
        if 0 <= i && i + 1 < self.ir.len() {
            match rewrite_for(self.ir[i], self.ir[i + 1]) {
                Some(rw) => if self.can_rewrite(i, rw.count as int, rw.replacement) {
                    Some(rw)
                } else {
                    None
                },
                None => None,
            }
        } else {
            None
        }
    }

    /// The rest of a pass that has come to index `i`: the program it leaves
    /// and the number of rewrites it makes. After a rewrite the scan goes on
    /// at the same index; where none applies it moves on by one.
    pub open spec fn pass_from(&self, i: int) -> (ProgramView<'a>, nat)
        decreases 2 * self.ir.len() - i,
    {
        if 0 <= i && i + 1 < self.ir.len() {
            match self.rewrite_at(i) {
                Some(rw) => {
                    let rest = self.rewritten(i, rw.count as int, rw.replacement).pass_from(i);
                    (rest.0, rest.1 + 1)
                },
                None => self.pass_from(i + 1),
            }
        } else {
            (*self, 0)
        }
    }

    /// One pass over the whole program.
    pub open spec fn pass(&self) -> (ProgramView<'a>, nat) {
        self.pass_from(0)
    }

    /// No rewrite applies anywhere in the program.
    pub open spec fn is_fixpoint(&self) -> bool {
        forall|i: int| (#[trigger] self.rewrite_at(i)) is None
    }

    /// The program after passes are made until one makes no rewrite.
    pub open spec fn optimized(&self) -> ProgramView<'a>
        decreases self.ir.len(),
    {
        let (next, count) = self.pass();
        if count == 0 {
            next
        } else {
            proof {
                lemma_pass_shrinks(*self, 0);
            }
            next.optimized()
        }
    }
}

/// Where the address of an earlier instruction, at least two back, is
/// pushed and called at once, the fused call names that same instruction:
/// it stands where the push stood and holds the reference that the push
/// held, and what it names has not moved.
pub proof fn lemma_fused_call_keeps_target<'a>(p: ProgramView<'a>, i: int, k: i16)
    requires
        0 <= i,
        i + 1 < p.ir.len(),
        p.ir[i] == IRNode::PushAddressFromOffset(k),
        p.ir[i + 1] == IRNode::Call,
        k < -1,
        p.rewrite_at(i) is Some,
    ensures
        p.rewrite_at(i) == Some(
            Rewrite { count: 2, replacement: Some(IRNode::CallFromOffset((k + 1) as i16)) },
        ),
        ({
            let q = p.rewritten(i, 2, Some(IRNode::CallFromOffset((k + 1) as i16)));
            &&& q.ir.len() == p.ir.len() - 1
            &&& q.ir[i] == IRNode::CallFromOffset(k)
            &&& 0 <= i + k && !p.ir[i + k].is_reference() ==> q.ir[i + k] == p.ir[i + k]
        }),
{
    let node = IRNode::CallFromOffset((k + 1) as i16);
    let s = p.shifted(i, 2);
    let q = s.inserted(i, node);
    assert(q == p.rewritten(i, 2, Some(node)));
    assert(node.placed(i) == IRNode::CallFromOffset(k));
    if 0 <= i + k && !p.ir[i + k].is_reference() {
        assert(s.ir[i + k] == p.ir[i + k].realigned(i + k, i, 2, false));
        assert(q.ir[i + k] == s.ir[i + k].realigned(i + k, i, 1, true));
    }
}

/// Every rewrite takes at least one instruction away, so a pass leaves a
/// program shorter by at least the number of its rewrites.
pub proof fn lemma_pass_shrinks<'a>(p: ProgramView<'a>, i: int)
    ensures
        p.pass_from(i).0.ir.len() + p.pass_from(i).1 <= p.ir.len(),
    decreases 2 * p.ir.len() - i,
{
    if 0 <= i && i + 1 < p.ir.len() {
        match p.rewrite_at(i) {
            Some(rw) => {
                lemma_pass_shrinks(p.rewritten(i, rw.count as int, rw.replacement), i);
            },
            None => {
                lemma_pass_shrinks(p, i + 1);
            },
        }
    }
}

/// A pass that makes no rewrite leaves the program as it is, and it makes
/// none exactly when no rewrite applies from index `i` on.
pub proof fn lemma_idle_pass<'a>(p: ProgramView<'a>, i: int)
    requires
        0 <= i,
    ensures
        p.pass_from(i).1 == 0 ==> p.pass_from(i).0 == p,
        p.pass_from(i).1 == 0 <==> forall|j: int| i <= j ==> (#[trigger] p.rewrite_at(j)) is None,
    decreases 2 * p.ir.len() - i,
{
    if i + 1 < p.ir.len() {
        match p.rewrite_at(i) {
            Some(rw) => {},
            None => {
                lemma_idle_pass(p, i + 1);
                if p.pass_from(i).1 == 0 {
                    assert forall|j: int| i <= j implies (#[trigger] p.rewrite_at(j)) is None by {
                        if j > i {
                            assert(p.rewrite_at(j) is None);
                        }
                    }
                }
            },
        }
    }
}

/// After optimization one more pass makes no rewrite: the optimized
/// program is a fixpoint of the pass.
pub proof fn lemma_optimized_is_fixpoint<'a>(p: ProgramView<'a>)
    ensures
        p.optimized().pass() == (p.optimized(), 0nat),
        p.optimized().is_fixpoint(),
    decreases p.ir.len(),
{
    let (next, count) = p.pass();
    if count == 0 {
        lemma_idle_pass(p, 0);
        assert forall|i: int| (#[trigger] p.rewrite_at(i)) is None by {
            if i >= 0 {
                assert(p.rewrite_at(i) is None);
            }
        }
    } else {
        lemma_pass_shrinks(p, 0);
        lemma_optimized_is_fixpoint(next);
    }
}

/// Optimizing an optimized program changes nothing.
pub proof fn lemma_optimize_idempotent<'a>(p: ProgramView<'a>)
    ensures
        p.optimized().optimized() == p.optimized(),
{
    lemma_optimized_is_fixpoint(p);
}

/// A pass keeps every relative reference on an instruction.
pub proof fn lemma_pass_keeps_references<'a>(p: ProgramView<'a>, i: int)
    requires
        p.references_valid(),
    ensures
        p.pass_from(i).0.references_valid(),
    decreases 2 * p.ir.len() - i,
{
    if 0 <= i && i + 1 < p.ir.len() {
        match p.rewrite_at(i) {
            Some(rw) => {
                lemma_rewrite_keeps_references(p, i, rw.count as int, rw.replacement);
                lemma_pass_keeps_references(p.rewritten(i, rw.count as int, rw.replacement), i);
            },
            None => {
                lemma_pass_keeps_references(p, i + 1);
            },
        }
    }
}

/// A pass keeps every function address of a global on an instruction.
pub proof fn lemma_pass_keeps_addresses<'a>(p: ProgramView<'a>, i: int)
    requires
        p.addresses_valid(),
    ensures
        p.pass_from(i).0.addresses_valid(),
    decreases 2 * p.ir.len() - i,
{
    if 0 <= i && i + 1 < p.ir.len() {
        match p.rewrite_at(i) {
            Some(rw) => {
                lemma_rewrite_keeps_addresses(p, i, rw.count as int, rw.replacement);
                lemma_pass_keeps_addresses(p.rewritten(i, rw.count as int, rw.replacement), i);
            },
            None => {
                lemma_pass_keeps_addresses(p, i + 1);
            },
        }
    }
}

/// Offset validity: every relative reference of the optimized program
/// names one of its instructions, if every one of the program did.
pub proof fn lemma_optimized_keeps_references<'a>(p: ProgramView<'a>)
    requires
        p.references_valid(),
    ensures
        p.optimized().references_valid(),
    decreases p.ir.len(),
{
    let (next, count) = p.pass();
    lemma_pass_keeps_references(p, 0);
    if count != 0 {
        lemma_pass_shrinks(p, 0);
        lemma_optimized_keeps_references(next);
    }
}

/// Every function address of a global of the optimized program names one
/// of its instructions, if every one of the program did.
pub proof fn lemma_optimized_keeps_addresses<'a>(p: ProgramView<'a>)
    requires
        p.addresses_valid(),
    ensures
        p.optimized().addresses_valid(),
    decreases p.ir.len(),
{
    let (next, count) = p.pass();
    lemma_pass_keeps_addresses(p, 0);
    if count != 0 {
        lemma_pass_shrinks(p, 0);
        lemma_optimized_keeps_addresses(next);
    }
}

/// A pass goes by the indices at which no rewrite applies.
pub proof fn lemma_pass_skips<'a>(p: ProgramView<'a>, from: int, to: int)
    requires
        0 <= from <= to,
        forall|j: int| from <= j < to ==> (#[trigger] p.rewrite_at(j)) is None,
    ensures
        p.pass_from(from) == p.pass_from(to),
    decreases to - from,
{
    if from < to {
        assert(p.rewrite_at(from) is None);
        lemma_pass_skips(p, from + 1, to);
        if !(from + 1 < p.ir.len()) {
            assert(p.pass_from(from + 1) == (p, 0nat));
            assert(p.pass_from(to) == (p, 0nat));
        }
    }
}

/// A pass over a program in which one rewrite applies, at index `i`, and
/// none once it is made, makes that rewrite and no other. Every reference
/// that is held outside the rewritten instructions then names the place
/// to which the instruction it named has moved: the same index if that
/// lies before `i`, and the index less what the rewrite took away if it
/// lies behind the rewritten instructions.
pub proof fn lemma_lone_rewrite_pass<'a>(p: ProgramView<'a>, i: int, h: int)
    requires
        0 <= i,
        p.rewrite_at(i) is Some,
        forall|j: int| 0 <= j < i ==> (#[trigger] p.rewrite_at(j)) is None,
        forall|j: int|
            i <= j ==> (#[trigger] p.rewritten(
                i,
                p.rewrite_at(i)->0.count as int,
                p.rewrite_at(i)->0.replacement,
            ).rewrite_at(j)) is None,
        0 <= h < p.ir.len(),
        !(i <= h < i + p.rewrite_at(i)->0.count),
        p.ir[h].is_reference(),
    ensures
        ({
            let rw = p.rewrite_at(i)->0;
            let q = p.rewritten(i, rw.count as int, rw.replacement);
            let host = rewritten_index(h, i, rw.count as int, rw.replacement is Some);
            let target = h + p.ir[h].reference();
            &&& p.pass() == (q, 1nat)
            &&& 0 <= host < q.ir.len()
            &&& q.ir[host] == p.ir[h].with_reference(q.ir[host].reference() as i16)
            &&& !(i <= target < i + rw.count)
            &&& host + q.ir[host].reference() == rewritten_index(
                target,
                i,
                rw.count as int,
                rw.replacement is Some,
            )
        }),
{
    let rw = p.rewrite_at(i)->0;
    let q = p.rewritten(i, rw.count as int, rw.replacement);
    lemma_pass_skips(p, 0, i);
    lemma_idle_pass(q, i);
    assert(q.pass_from(i) == (q, 0nat));
    lemma_rewrite_keeps_targets(p, i, rw.count as int, rw.replacement, h);
}

/// Whether the global `after` is the global `before` but for the address
/// of the function that it holds, if it holds one.
pub open spec fn same_global<'a>(before: GlobalInfo<'a>, after: GlobalInfo<'a>) -> bool {
    &&& after == (GlobalInfo { init: after.init, ..before })
    &&& match before.init {
        CTimeVal::Function { return_type_val, .. } => after.init matches CTimeVal::Function {
            return_type_val: kept,
            ..
        } && kept == return_type_val,
        other => after.init == other,
    }
}

/// Whether the program `q` holds what `p` holds apart from its
/// instructions: the same globals in the same order, each with its
/// position, name and flags and with its value, but for the address of a
/// function; the same external symbols, package and pool of strings.
pub open spec fn same_tables<'a>(p: ProgramView<'a>, q: ProgramView<'a>) -> bool {
    &&& q.globals.len() == p.globals.len()
    &&& forall|g: int| 0 <= g < p.globals.len() ==> same_global(#[trigger] p.globals[g], q.globals[g])
    &&& q.externals == p.externals
    &&& q.package_name == p.package_name
    &&& q.static_strings == p.static_strings
    &&& q.static_strings_len == p.static_strings_len
}

/// A rewrite changes nothing of the tables of a program but the addresses
/// of functions.
pub proof fn lemma_rewrite_keeps_tables<'a>(
    p: ProgramView<'a>,
    pos: int,
    count: int,
    replacement: Option<IRNode<'a>>,
)
    ensures
        same_tables(p, p.rewritten(pos, count, replacement)),
{
    let s = p.shifted(pos, count);
    let q = p.rewritten(pos, count, replacement);
    assert forall|g: int| 0 <= g < p.globals.len() implies same_global(
        #[trigger] p.globals[g],
        q.globals[g],
    ) by {
        assert(s.globals[g] == p.globals[g].realigned(pos, count, false));
        if let Some(node) = replacement {
            assert(q.globals[g] == s.globals[g].realigned(pos, 1, true));
        }
    }
}

/// A pass changes nothing of the tables of a program but the addresses of
/// functions.
pub proof fn lemma_pass_keeps_tables<'a>(p: ProgramView<'a>, i: int)
    ensures
        same_tables(p, p.pass_from(i).0),
    decreases 2 * p.ir.len() - i,
{
    if 0 <= i && i + 1 < p.ir.len() {
        match p.rewrite_at(i) {
            Some(rw) => {
                let q = p.rewritten(i, rw.count as int, rw.replacement);
                lemma_rewrite_keeps_tables(p, i, rw.count as int, rw.replacement);
                lemma_pass_keeps_tables(q, i);
                let r = q.pass_from(i).0;
                assert forall|g: int| 0 <= g < p.globals.len() implies same_global(
                    #[trigger] p.globals[g],
                    r.globals[g],
                ) by {
                    assert(same_global(p.globals[g], q.globals[g]));
                    assert(same_global(q.globals[g], r.globals[g]));
                }
            },
            None => {
                lemma_pass_keeps_tables(p, i + 1);
            },
        }
    }
}

/// Optimization changes nothing of the tables of a program but the
/// addresses of functions: number, order, position, name and flags of the
/// globals, the external symbols, the package and the pool of strings are
/// what they were.
pub proof fn lemma_optimized_keeps_tables<'a>(p: ProgramView<'a>)
    ensures
        same_tables(p, p.optimized()),
    decreases p.ir.len(),
{
    let (next, count) = p.pass();
    lemma_pass_keeps_tables(p, 0);
    if count != 0 {
        lemma_pass_shrinks(p, 0);
        lemma_optimized_keeps_tables(next);
        let r = next.optimized();
        assert forall|g: int| 0 <= g < p.globals.len() implies same_global(
            #[trigger] p.globals[g],
            r.globals[g],
        ) by {
            assert(same_global(p.globals[g], next.globals[g]));
            assert(same_global(next.globals[g], r.globals[g]));
        }
    }
}

/// The peephole optimizer of a program it holds for the time of its work.
pub struct IROptimizer<'a> {
    cprog: &'a mut CompiledProgram<'a>,
}

impl<'a> IROptimizer<'a> {
    /// The program as the optimizer holds it now.
    pub closed spec fn program(&self) -> ProgramView<'a> {
        (*self.cprog)@
    }

    pub fn new(cprog: &'a mut CompiledProgram<'a>) -> (r: Self)
        ensures
            r.program() == old(cprog)@,
    {
        Self { cprog }
    }

    /// Makes passes until one makes no rewrite, and hands out the program.
    /// The optimized program is a fixpoint of the pass; it keeps the
    /// tables of the program but for the addresses of functions, and the
    /// references and addresses on instructions; and where every rewrite
    /// on the way is safe, as it is in a settled program, every address
    /// moves with its function and the program does what it did.
    pub fn optimize(&mut self) -> (r: &CompiledProgram<'a>)
        ensures
            final(self).program() == old(self).program().optimized(),
            r@ == final(self).program(),
            final(self).program().is_fixpoint(),
            final(self).program().pass() == (final(self).program(), 0nat),
            same_tables(old(self).program(), final(self).program()),
            old(self).program().references_valid() ==> final(self).program().references_valid(),
            old(self).program().addresses_valid() ==> final(self).program().addresses_valid(),
            old(self).program().optimizes_safely() ==> follows(
                old(self).program(),
                final(self).program(),
            ),
            old(self).program().optimizes_safely() ==> forall|g: int|
                0 <= g < old(self).program().globals.len() ==> ((
                #[trigger] old(self).program().globals[g]).init matches CTimeVal::Function {
                    address,
                    ..
                } ==> (final(self).program().globals[g].init matches CTimeVal::Function {
                    address: moved,
                    ..
                } && moved == old(self).program().optimized_landing(address as int))),
            old(self).program().is_settled() ==> final(self).program().is_settled() && follows(
                old(self).program(),
                final(self).program(),
            ),
    {
        proof {
            lemma_optimized_keeps_tables(self.program());
            lemma_optimized_is_fixpoint(self.program());
            if self.program().references_valid() {
                lemma_optimized_keeps_references(self.program());
            }
            if self.program().addresses_valid() {
                lemma_optimized_keeps_addresses(self.program());
            }
            if self.program().is_settled() {
                lemma_settled_optimizes_safely(self.program());
            }
            if self.program().optimizes_safely() {
                lemma_optimized_follows(self.program());
                let p = self.program();
                assert forall|g: int| 0 <= g < p.globals.len() implies ((#[trigger] p.globals[g]).init matches CTimeVal::Function {
                    address,
                    ..
                } ==> (p.optimized().globals[g].init matches CTimeVal::Function {
                    address: moved,
                    ..
                } && moved == p.optimized_landing(address as int))) by {
                    lemma_optimized_moves_addresses(p, g);
                }
            }
        }
        loop
            invariant
                self.program().optimized() == old(self).program().optimized(),
            ensures
                self.program() == old(self).program().optimized(),
            decreases self.program().ir.len(),
        {
            let ghost before = self.program();
            let count = self.do_pass();
            if count == 0 {
                proof {
                    lemma_idle_pass(before, 0);
                }
                break ;
            }
        }
        self.cprog
    }

    /// Makes one pass over the program and returns the number of rewrites
    /// it made.
    pub fn do_pass(&mut self) -> (count: usize)
        ensures
            final(self).program() == old(self).program().pass().0,
            count == old(self).program().pass().1,
            final(self).program().ir.len() + count <= old(self).program().ir.len(),
    {
        let ghost start = self.program();
        let initial_len: usize = self.cprog.count_ir();
        let mut optimize_count: usize = 0;
        let mut i: usize = 0;
        while i < self.cprog.count_ir() && i + 1 < self.cprog.count_ir()
            invariant
                start.pass().0 == self.program().pass_from(i as int).0,
                start.pass().1 == self.program().pass_from(i as int).1 + optimize_count,
                self.program().ir.len() + optimize_count <= start.ir.len(),
                start.ir.len() == initial_len,
            decreases 2 * self.program().ir.len() - i,
        {
            let first = self.cprog.node_clone_at(i);
            let second = self.cprog.node_clone_at(i + 1);
            let mut applied = false;
            match find_rewrite(first, second) {
                Some(rw) => {
                    if self.cprog.can_rewrite(i, rw.count, rw.replacement) {
                        self.cprog.rewrite(i, rw.count, rw.replacement);
                        optimize_count += 1;
                        applied = true;
                    }
                },
                None => {},
            }
            if !applied {
                i += 1;
            }
        }
        optimize_count
    }
}

} // verus!
