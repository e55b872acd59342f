use vstd::prelude::*;
use crate::ir_gen::ctimeval::CTimeVal;
use crate::ir_gen::equivalence::{follows, lemma_optimized_follows};
use crate::ir_gen::ir::IRNode;
use crate::ir_gen::ir_optimizer::{lemma_pass_shrinks, rewrite_for};
use crate::ir_gen::program::{CompiledProgram, ProgramView};
use crate::ir_gen::simulation::{
    lemma_rewrite_global, lemma_rewrite_instruction, lemma_rule_shape, rewrite_is_safe, Site,
};

verus! {

/// Whether no rule matches the instruction, neither first nor second.
pub open spec fn is_never_matched(node: IRNode) -> bool {
    node is Return || node is JumpFromOffset || node is CallFromOffset
}

impl<'a> ProgramView<'a> {
    /// Whether a return stands between the indices `lo` and `hi`.
    pub open spec fn returns_between(&self, lo: int, hi: int) -> bool {
        exists|r: int| lo < r < hi && 0 <= r < self.ir.len() && (#[trigger] self.ir[r]) is Return
    }

    /// Whether every address that is pushed is one of an earlier
    /// instruction, with a return between that instruction and the push.
    pub open spec fn calls_reach_back(&self) -> bool {
        forall|h: int|
            0 <= h < self.ir.len() && (#[trigger] self.ir[h]) is PushAddressFromOffset
                ==> self.returns_between(h + self.ir[h].reference(), h)
    }

    /// Whether every function that a global holds starts at the top of the
    /// program or behind an instruction that no rule matches.
    pub open spec fn functions_stand_apart(&self) -> bool {
        forall|g: int|
            0 <= g < self.globals.len() ==> ((#[trigger] self.globals[g]).init matches CTimeVal::Function {
                address,
                ..
            } ==> address == 0 || (address <= self.ir.len() && is_never_matched(
                self.ir[address - 1],
            )))
    }

    /// Whether the program is laid out as functions are: each call through
    /// a pushed address is one of a function that ends before the call,
    /// and each function of a global starts where no rewrite can reach
    /// across.
    pub open spec fn is_settled(&self) -> bool {
        self.calls_reach_back() && self.functions_stand_apart()
    }
}

/// Every rewrite of a settled program is safe.
pub proof fn lemma_settled_rewrite_is_safe<'a>(p: ProgramView<'a>, pos: int)
    requires
        p.is_settled(),
    ensures
        rewrite_is_safe(p, pos),
{
    if let Some(rw) = p.rewrite_at(pos) {
        let first = p.ir[pos];
        let second = p.ir[pos + 1];
        assert(rewrite_for(first, second) == Some(rw));
        lemma_rule_shape(first, second);
        if first is PushAddressFromOffset {
            assert(p.returns_between(pos + first.reference(), pos));
        }
        if rw.replacement is Some {
            assert forall|g: int| 0 <= g < p.globals.len() implies ((#[trigger] p.globals[g]).init matches CTimeVal::Function {
                address,
                ..
            } ==> address != pos + rw.count) by {}
        }
    }
}

/// A rewrite leaves a settled program settled.
pub proof fn lemma_rewrite_keeps_settled<'a>(p: ProgramView<'a>, pos: int)
    requires
        p.is_settled(),
        p.rewrite_at(pos) is Some,
    ensures
        p.rewritten_at(pos).is_settled(),
{
    let rw = p.rewrite_at(pos)->0;
    let q = p.rewritten_at(pos);
    let site = p.site_at(pos);
    let first = p.ir[pos];
    let second = p.ir[pos + 1];
    assert(rewrite_for(first, second) == Some(rw));
    lemma_rule_shape(first, second);
    lemma_settled_rewrite_is_safe(p, pos);
    assert forall|h: int|
        0 <= h < q.ir.len() && (#[trigger] q.ir[h]) is PushAddressFromOffset implies q.returns_between(
        h + q.ir[h].reference(),
        h,
    ) by {
        let from = origin(site, h);
        if rw.replacement is Some && h == pos {
            assert(q.ir[pos] == rw.replacement->0.placed(pos));
        } else {
            lemma_rewrite_instruction(p, pos, rw.count as int, rw.replacement, from);
            assert(p.ir[from] is PushAddressFromOffset);
            assert(p.returns_between(from + p.ir[from].reference(), from));
            let r = choose|r: int|
                from + p.ir[from].reference() < r < from && 0 <= r < p.ir.len() && (
                #[trigger] p.ir[r]) is Return;
            lemma_rewrite_instruction(p, pos, rw.count as int, rw.replacement, r);
            assert(q.ir[site.landing(r)] is Return);
        }
    }
    assert forall|g: int| 0 <= g < q.globals.len() implies ((#[trigger] q.globals[g]).init matches CTimeVal::Function {
        address,
        ..
    } ==> address == 0 || (address <= q.ir.len() && is_never_matched(q.ir[address - 1]))) by {
        lemma_rewrite_global(p, pos, rw.count as int, rw.replacement, g, 0);
        if let CTimeVal::Function { address, .. } = p.globals[g].init {
            if address != 0 {
                lemma_rewrite_instruction(p, pos, rw.count as int, rw.replacement, address - 1);
            }
        } else {
            assert(!(q.globals[g].init is Function)) by {
                lemma_rewrite_keeps_kind(p, pos, g);
            }
        }
    }
}

/// Where an instruction that stands at index `h` after the rewrite stood
/// before it, if it is not the result of the rewrite.
pub open spec fn origin(site: Site, h: int) -> int {
    if h < site.pos {
        h
    } else if site.replaced {
        h + site.count - 1
    } else {
        h + site.count
    }
}

/// A rewrite makes no global a function that was none.
pub proof fn lemma_rewrite_keeps_kind<'a>(p: ProgramView<'a>, pos: int, g: int)
    requires
        p.rewrite_at(pos) is Some,
        0 <= g < p.globals.len(),
    ensures
        p.rewritten_at(pos).globals.len() == p.globals.len(),
        p.rewritten_at(pos).globals[g].init is Function == p.globals[g].init is Function,
{
    let rw = p.rewrite_at(pos)->0;
    let s = p.shifted(pos, rw.count as int);
    assert(s.globals[g] == p.globals[g].realigned(pos, rw.count as int, false));
    if let Some(node) = rw.replacement {
        let q = s.inserted(pos, node);
        assert(q.globals[g] == s.globals[g].realigned(pos, 1, true));
    }
}

/// Every rewrite that the rest of a pass makes on a settled program is
/// safe, and the pass leaves the program settled.
pub proof fn lemma_settled_pass<'a>(p: ProgramView<'a>, i: int)
    requires
        p.is_settled(),
    ensures
        p.pass_is_safe_from(i),
        p.pass_from(i).0.is_settled(),
    decreases 2 * p.ir.len() - i,
{
    if 0 <= i && i + 1 < p.ir.len() {
        match p.rewrite_at(i) {
            Some(rw) => {
                lemma_settled_rewrite_is_safe(p, i);
                lemma_rewrite_keeps_settled(p, i);
                lemma_settled_pass(p.rewritten(i, rw.count as int, rw.replacement), i);
            },
            None => {
                lemma_settled_pass(p, i + 1);
            },
        }
    }
}

/// Every rewrite that the optimization of a settled program makes is
/// safe, and the optimized program is settled.
pub proof fn lemma_settled_optimizes_safely<'a>(p: ProgramView<'a>)
    requires
        p.is_settled(),
    ensures
        p.optimizes_safely(),
        p.optimized().is_settled(),
    decreases p.ir.len(),
{
    let (next, count) = p.pass();
    lemma_settled_pass(p, 0);
    if count != 0 {
        lemma_pass_shrinks(p, 0);
        lemma_settled_optimizes_safely(next);
    }
}

/// Optimization keeps what a settled program does: the optimized program
/// calls the same external functions in the same order, on stacks that
/// can stand for those that the program hands them, and ends where the
/// program ends, from whichever function the run starts.
pub proof fn lemma_settled_optimized_follows<'a>(p: ProgramView<'a>)
    requires
        p.is_settled(),
    ensures
        follows(p, p.optimized()),
{
    lemma_settled_optimizes_safely(p);
    lemma_optimized_follows(p);
}

/// Computes [`ProgramView::returns_between`].
fn has_return_between<'a>(prog: &CompiledProgram<'a>, lo: i128, hi: usize) -> (b: bool)
    requires
        hi <= prog@.ir.len(),
    ensures
        b == prog@.returns_between(lo as int, hi as int),
{
    let mut r: usize = if lo < 0 {
        0
    } else if lo >= hi as i128 {
        hi
    } else {
        lo as usize + 1
    };
    while r < hi
        invariant
            r <= hi <= prog@.ir.len() || r == hi,
            lo < r || r == hi,
            forall|x: int| lo < x < r && 0 <= x < hi ==> !((#[trigger] prog@.ir[x]) is Return),
        decreases hi - r,
    {
        match prog.node_clone_at(r) {
            IRNode::Return { .. } => {
                return true;
            },
            _ => {},
        }
        r += 1;
    }
    false
}

/// Computes [`ProgramView::calls_reach_back`].
fn has_calls_reach_back<'a>(prog: &CompiledProgram<'a>) -> (b: bool)
    ensures
        b == prog@.calls_reach_back(),
{
    let len = prog.count_ir();
    let mut h: usize = 0;
    while h < len
        invariant
            h <= len,
            len == prog@.ir.len(),
            forall|x: int|
                0 <= x < h && (#[trigger] prog@.ir[x]) is PushAddressFromOffset
                    ==> prog@.returns_between(x + prog@.ir[x].reference(), x),
        decreases len - h,
    {
        match prog.node_clone_at(h) {
            IRNode::PushAddressFromOffset(k) => {
                if !has_return_between(prog, h as i128 + k as i128, h) {
                    return false;
                }
            },
            _ => {},
        }
        h += 1;
    }
    true
}

/// Computes [`ProgramView::functions_stand_apart`].
fn has_functions_stand_apart<'a>(prog: &CompiledProgram<'a>) -> (b: bool)
    ensures
        b == prog@.functions_stand_apart(),
{
    let len = prog.count_ir();
    let count = prog.global_count();
    let mut g: usize = 0;
    while g < count
        invariant
            g <= count,
            count == prog@.globals.len(),
            len == prog@.ir.len(),
            forall|x: int|
                0 <= x < g ==> ((#[trigger] prog@.globals[x]).init matches CTimeVal::Function {
                    address,
                    ..
                } ==> address == 0 || (address <= prog@.ir.len() && is_never_matched(
                    prog@.ir[address - 1],
                ))),
        decreases count - g,
    {
        match prog.global_at(g).init {
            CTimeVal::Function { address, .. } => {
                if address != 0 {
                    if address > len {
                        return false;
                    }
                    match prog.node_clone_at(address - 1) {
                        IRNode::Return { .. }
                        | IRNode::JumpFromOffset(_)
                        | IRNode::CallFromOffset(_) => {},
                        _ => {
                            return false;
                        },
                    }
                }
            },
            _ => {},
        }
        g += 1;
    }
    true
}

/// Whether the program is settled, so that optimization keeps what it
/// does.
pub fn is_settled<'a>(prog: &CompiledProgram<'a>) -> (b: bool)
    ensures
        b == prog@.is_settled(),
{
    has_calls_reach_back(prog) && has_functions_stand_apart(prog)
}

} // verus!
