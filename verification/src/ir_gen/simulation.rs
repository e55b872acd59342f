use vstd::prelude::*;
use crate::ir_gen::ctimeval::CTimeVal;
use crate::ir_gen::global::GlobalInfo;
use crate::ir_gen::ir::IRNode;
use crate::ir_gen::ir_optimizer::rewrite_for;
use crate::ir_gen::machine::{global_word_from, outward, word_in, Machine, Word};
use crate::ir_gen::program::ProgramView;
use crate::ir_gen::realign::{lemma_rewrite_keeps_targets, lemma_shift_then_insert_fits, moved_index};
use crate::ir_gen::rule_laws::{
    lemma_push_rule_is_local, lemma_resize_rule_is_local, output_shows, rule_is_local, stack_shows,
    word_shows,
};

verus! {

/// The place of a rewrite: the `count` instructions from `pos` on leave,
/// and one takes their place if `replaced` says so.
pub struct Site {
    pub pos: int,
    pub count: int,
    pub replaced: bool,
}

impl Site {
    /// Whether the site can be one of a rewrite.
    pub open spec fn wf(self) -> bool {
        0 <= self.pos && 1 <= self.count <= 2
    }

    /// Whether the index `t` is not that of a rewritten instruction other
    /// than the first.
    pub open spec fn clear(self, t: int) -> bool {
        !(self.pos < t < self.pos + self.count)
    }

    /// Whether the index `t` is that of no rewritten instruction.
    pub open spec fn outside(self, t: int) -> bool {
        !(self.pos <= t < self.pos + self.count)
    }

    /// Where a run that has come to the index `t` before the rewrite
    /// stands after it.
    pub open spec fn landing(self, t: int) -> int {
        if t <= self.pos {
            t
        } else if self.replaced {
            t - self.count + 1
        } else {
            t - self.count
        }
    }

    /// Whether the word `b` is, after the rewrite, what `a` was before it:
    /// the same word, but that the index of an instruction has moved with
    /// the instruction, and that anything can stand where nothing was
    /// written.
    pub open spec fn word_kept<'a>(self, a: Word<'a>, b: Word<'a>) -> bool {
        match a {
            Word::Junk => true,
            Word::Code(t) => self.clear(t as int) && b == Word::Code(self.landing(t as int) as usize),
            _ => b == a,
        }
    }

    /// Whether the stack `b` is, after the rewrite, what `a` was before.
    pub open spec fn stack_kept<'a>(self, a: Seq<Word<'a>>, b: Seq<Word<'a>>) -> bool {
        &&& a.len() == b.len()
        &&& forall|j: int| 0 <= j < a.len() ==> self.word_kept(#[trigger] a[j], b[j])
    }

    /// Whether the machine `b` is, on the rewritten program, where `a` is
    /// on the program before the rewrite, apart from where the two stand.
    pub open spec fn state_kept<'a>(self, a: Machine<'a>, b: Machine<'a>) -> bool {
        &&& self.stack_kept(a.stack, b.stack)
        &&& output_shows(a.output, b.output)
    }

    /// Whether the machine `b` is, on the rewritten program, where `a` is
    /// on the program before the rewrite.
    pub open spec fn kept<'a>(self, a: Machine<'a>, b: Machine<'a>) -> bool {
        &&& self.clear(a.pc)
        &&& b.pc == self.landing(a.pc)
        &&& self.state_kept(a, b)
    }

    /// Whether the global segment reads, after the rewrite, as it read
    /// before.
    pub open spec fn globals_kept<'a>(self, p: ProgramView<'a>, q: ProgramView<'a>) -> bool {
        forall|x: int|
            (#[trigger] p.global_word(x)) matches Some(w) ==> q.global_word(x) matches Some(v)
                && self.word_kept(w, v)
    }
}

/// Whether the instruction works on the stack alone and goes on to the
/// next.
pub open spec fn is_plain(node: IRNode) -> bool {
    match node {
        IRNode::Push64(_)
        | IRNode::PushStaticStringPointer(_)
        | IRNode::ExternalReadPush64(_)
        | IRNode::StackAlloc(_)
        | IRNode::StackDealloc(_)
        | IRNode::Load64ToStack(_, _)
        | IRNode::Pop64ToStack(_)
        | IRNode::StackReadPush64(_)
        | IRNode::StackReadLoad64ToStack(_, _)
        | IRNode::GlobalReadPush64(_)
        | IRNode::GlobalReadLoad64ToStack(_, _) => true,
        _ => false,
    }
}

/// A stack that can stand for one that was kept was kept itself.
pub proof fn lemma_shows_then_kept<'a>(
    site: Site,
    a: Seq<Word<'a>>,
    b: Seq<Word<'a>>,
    c: Seq<Word<'a>>,
)
    requires
        stack_shows(a, b),
        site.stack_kept(b, c),
    ensures
        site.stack_kept(a, c),
{
    assert forall|j: int| 0 <= j < a.len() implies site.word_kept(#[trigger] a[j], c[j]) by {
        assert(word_shows(a[j], b[j]));
        assert(site.word_kept(b[j], c[j]));
    }
}

/// An instruction that works on the stack alone does to a machine that
/// was kept what it does to the machine before the rewrite.
pub proof fn lemma_plain_effect_kept<'a>(
    site: Site,
    p: ProgramView<'a>,
    q: ProgramView<'a>,
    node: IRNode<'a>,
    a: Machine<'a>,
    b: Machine<'a>,
)
    requires
        site.wf(),
        is_plain(node),
        site.state_kept(a, b),
        site.globals_kept(p, q),
        p.effect(node, a) is Some,
    ensures
        q.effect(node, b) is Some,
        p.effect(node, a)->0.pc == a.pc + 1,
        q.effect(node, b)->0.pc == b.pc + 1,
        site.state_kept(p.effect(node, a)->0, q.effect(node, b)->0),
{
    let a2 = p.effect(node, a)->0;
    match node {
        IRNode::GlobalReadPush64(x) => {
            assert(p.global_word(x as int) is Some);
        },
        IRNode::GlobalReadLoad64ToStack(x, _) => {
            assert(p.global_word(x as int) is Some);
        },
        _ => {},
    }
    assert(q.effect(node, b) is Some);
    let b2 = q.effect(node, b)->0;
    assert(a2.stack.len() == b2.stack.len());
    assert forall|j: int| 0 <= j < a2.stack.len() implies site.word_kept(
        #[trigger] a2.stack[j],
        b2.stack[j],
    ) by {
        lemma_plain_slot_kept(site, p, q, node, a, b, j);
    }
}

/// One slot of what `lemma_plain_effect_kept` states.
proof fn lemma_plain_slot_kept<'a>(
    site: Site,
    p: ProgramView<'a>,
    q: ProgramView<'a>,
    node: IRNode<'a>,
    a: Machine<'a>,
    b: Machine<'a>,
    j: int,
)
    requires
        site.wf(),
        is_plain(node),
        site.state_kept(a, b),
        site.globals_kept(p, q),
        p.effect(node, a) is Some,
        q.effect(node, b) is Some,
        0 <= j < p.effect(node, a)->0.stack.len(),
        p.effect(node, a)->0.stack.len() == q.effect(node, b)->0.stack.len(),
    ensures
        site.word_kept(p.effect(node, a)->0.stack[j], q.effect(node, b)->0.stack[j]),
{
    let a2 = p.effect(node, a)->0;
    let b2 = q.effect(node, b)->0;
    match node {
        IRNode::Push64(_) | IRNode::PushStaticStringPointer(_) | IRNode::ExternalReadPush64(_) => {
            if j > 0 {
                assert(site.word_kept(a.stack[j - 1], b.stack[j - 1]));
            }
        },
        IRNode::StackAlloc(size) => {
            if j >= size as int / 8 {
                assert(site.word_kept(a.stack[j - size as int / 8], b.stack[j - size as int / 8]));
            }
        },
        IRNode::StackDealloc(size) => {
            assert(site.word_kept(a.stack[j + size as int / 8], b.stack[j + size as int / 8]));
        },
        IRNode::Load64ToStack(_, _) => {
            assert(site.word_kept(a.stack[j], b.stack[j]));
        },
        IRNode::Pop64ToStack(_) => {
            assert(site.word_kept(a.stack[j + 1], b.stack[j + 1]));
            assert(site.word_kept(a.stack[0], b.stack[0]));
        },
        IRNode::StackReadPush64(offset) => {
            assert(site.word_kept(a.stack[offset as int / 8], b.stack[offset as int / 8]));
            if j > 0 {
                assert(site.word_kept(a.stack[j - 1], b.stack[j - 1]));
            }
        },
        IRNode::StackReadLoad64ToStack(src, _) => {
            assert(site.word_kept(a.stack[src as int / 8], b.stack[src as int / 8]));
            assert(site.word_kept(a.stack[j], b.stack[j]));
        },
        IRNode::GlobalReadPush64(x) => {
            assert(p.global_word(x as int) is Some);
            if j > 0 {
                assert(site.word_kept(a.stack[j - 1], b.stack[j - 1]));
            }
        },
        IRNode::GlobalReadLoad64ToStack(x, _) => {
            assert(p.global_word(x as int) is Some);
            assert(site.word_kept(a.stack[j], b.stack[j]));
        },
        _ => {},
    }
}

/// What an external function finds on a stack that was kept can stand for
/// what it found before the rewrite.
pub proof fn lemma_kept_shows_outward<'a>(site: Site, a: Seq<Word<'a>>, b: Seq<Word<'a>>)
    requires
        site.stack_kept(a, b),
    ensures
        stack_shows(
            a.map_values(|w: Word<'a>| outward(w)),
            b.map_values(|w: Word<'a>| outward(w)),
        ),
{
    let x = a.map_values(|w: Word<'a>| outward(w));
    let y = b.map_values(|w: Word<'a>| outward(w));
    assert forall|j: int| 0 <= j < x.len() implies word_shows(#[trigger] x[j], y[j]) by {
        assert(site.word_kept(a[j], b[j]));
    }
}

/// The site of the rewrite of the `count` instructions from `pos` on into
/// `replacement`.
pub open spec fn site_of(pos: int, count: int, replacement: Option<IRNode>) -> Site {
    Site { pos, count, replaced: replacement is Some }
}

/// What a rewrite leaves of an instruction that it does not match: the
/// instruction stands at its landing, and is what it was, but that a
/// reference it holds is one to the landing of what it named.
pub proof fn lemma_rewrite_instruction<'a>(
    p: ProgramView<'a>,
    pos: int,
    count: int,
    replacement: Option<IRNode<'a>>,
    h: int,
)
    requires
        p.can_rewrite(pos, count, replacement),
        0 <= h < p.ir.len(),
        site_of(pos, count, replacement).outside(h),
    ensures
        ({
            let q = p.rewritten(pos, count, replacement);
            let site = site_of(pos, count, replacement);
            let g = site.landing(h);
            let target = h + p.ir[h].reference();
            &&& q.ir.len() == p.ir.len() - count + if replacement is Some {
                1int
            } else {
                0int
            }
            &&& 0 <= g < q.ir.len()
            &&& !p.ir[h].is_reference() ==> q.ir[g] == p.ir[h]
            &&& p.ir[h].is_reference() ==> {
                &&& q.ir[g] == p.ir[h].with_reference(q.ir[g].reference() as i16)
                &&& q.ir[g].is_reference()
                &&& site.outside(target)
                &&& g + q.ir[g].reference() == site.landing(target)
            }
        }),
{
    let s = p.shifted(pos, count);
    let h1 = moved_index(h, pos, count, false);
    assert(s.ir[h1] == p.ir[h].realigned(h, pos, count, false));
    if p.ir[h].is_reference() {
        lemma_rewrite_keeps_targets(p, pos, count, replacement, h);
    } else {
        match replacement {
            Some(node) => {
                lemma_shift_then_insert_fits(p, pos, count);
                let q = s.inserted(pos, node);
                let h2 = moved_index(h1, pos, 1, true);
                assert(q.ir[h2] == s.ir[h1].realigned(h1, pos, 1, true));
            },
            None => {},
        }
    }
}

/// A rewrite puts its result, as it is placed, where the first of the
/// instructions it matched stood.
pub proof fn lemma_rewrite_replacement<'a>(
    p: ProgramView<'a>,
    pos: int,
    count: int,
    node: IRNode<'a>,
)
    requires
        p.can_rewrite(pos, count, Some(node)),
    ensures
        p.rewritten(pos, count, Some(node)).ir.len() == p.ir.len() - count + 1,
        p.rewritten(pos, count, Some(node)).ir[pos] == node.placed(pos),
{
}

/// A push on stacks of which one was kept, of words of which one was
/// kept, gives stacks of which one was kept.
pub proof fn lemma_push_kept<'a>(
    site: Site,
    a: Seq<Word<'a>>,
    b: Seq<Word<'a>>,
    v: Word<'a>,
    w: Word<'a>,
)
    requires
        site.stack_kept(a, b),
        site.word_kept(v, w),
    ensures
        site.stack_kept(seq![v] + a, seq![w] + b),
{
    let x = seq![v] + a;
    let y = seq![w] + b;
    assert forall|j: int| 0 <= j < x.len() implies site.word_kept(#[trigger] x[j], y[j]) by {
        if j > 0 {
            assert(site.word_kept(a[j - 1], b[j - 1]));
        }
    }
}

/// What is left of stacks of which one was kept, when the same number of
/// slots is taken off both, is stacks of which one was kept.
pub proof fn lemma_skip_kept<'a>(site: Site, a: Seq<Word<'a>>, b: Seq<Word<'a>>, n: int)
    requires
        site.stack_kept(a, b),
        0 <= n <= a.len(),
    ensures
        site.stack_kept(a.skip(n), b.skip(n)),
{
    let x = a.skip(n);
    let y = b.skip(n);
    assert forall|j: int| 0 <= j < x.len() implies site.word_kept(#[trigger] x[j], y[j]) by {
        assert(site.word_kept(a[j + n], b[j + n]));
    }
}

/// A call or a return through the word on top does to a machine that was
/// kept what it does to the machine before the rewrite, if the call is
/// not one of the rewritten instructions.
pub proof fn lemma_indirect_effect_kept<'a>(
    site: Site,
    p: ProgramView<'a>,
    q: ProgramView<'a>,
    node: IRNode<'a>,
    a: Machine<'a>,
    b: Machine<'a>,
)
    requires
        site.wf(),
        node is Call || node is Return,
        site.kept(a, b),
        site.outside(a.pc),
        p.effect(node, a) is Some,
    ensures
        q.effect(node, b) is Some,
        site.kept(p.effect(node, a)->0, q.effect(node, b)->0),
{
    assert(site.word_kept(a.stack[0], b.stack[0]));
    lemma_skip_kept(site, a.stack, b.stack, 1);
    match node {
        IRNode::Call => {
            match a.stack[0] {
                Word::Code(t) => {
                    lemma_push_kept(
                        site,
                        a.stack.skip(1),
                        b.stack.skip(1),
                        Word::Code((a.pc + 1) as usize),
                        Word::Code((b.pc + 1) as usize),
                    );
                },
                _ => {
                    lemma_kept_shows_outward(site, a.stack.skip(1), b.stack.skip(1));
                },
            }
        },
        IRNode::Return { params_size } => {
            lemma_skip_kept(site, a.stack.skip(1), b.stack.skip(1), params_size as int / 8);
        },
        _ => {},
    }
}

/// An instruction that holds a reference does to a machine that was kept
/// what the instruction before the rewrite, which named what lands
/// where this one points, does to the machine before the rewrite.
pub proof fn lemma_reference_effect_kept<'a>(
    site: Site,
    p: ProgramView<'a>,
    q: ProgramView<'a>,
    node: IRNode<'a>,
    moved: IRNode<'a>,
    a: Machine<'a>,
    b: Machine<'a>,
)
    requires
        site.wf(),
        node.is_reference(),
        moved == node.with_reference(moved.reference() as i16),
        site.kept(a, b),
        site.outside(a.pc),
        site.clear(a.pc + node.reference()),
        b.pc + moved.reference() == site.landing(a.pc + node.reference()),
        p.effect(node, a) is Some,
    ensures
        q.effect(moved, b) is Some,
        site.kept(p.effect(node, a)->0, q.effect(moved, b)->0),
{
    match node {
        IRNode::CallFromOffset(_) => {
            lemma_push_kept(
                site,
                a.stack,
                b.stack,
                Word::Code((a.pc + 1) as usize),
                Word::Code((b.pc + 1) as usize),
            );
        },
        IRNode::PushAddressFromOffset(k) => {
            lemma_push_kept(
                site,
                a.stack,
                b.stack,
                Word::Code((a.pc + k) as usize),
                Word::Code(site.landing(a.pc + k) as usize),
            );
        },
        _ => {},
    }
}

/// One step from an instruction that the rewrite does not match: the
/// rewritten program makes the same step.
pub proof fn lemma_step_outside<'a>(
    p: ProgramView<'a>,
    pos: int,
    count: int,
    replacement: Option<IRNode<'a>>,
    a: Machine<'a>,
    b: Machine<'a>,
)
    requires
        p.can_rewrite(pos, count, replacement),
        count <= 2,
        site_of(pos, count, replacement).kept(a, b),
        site_of(pos, count, replacement).globals_kept(p, p.rewritten(pos, count, replacement)),
        site_of(pos, count, replacement).outside(a.pc),
        p.step(a) is Some,
    ensures
        p.rewritten(pos, count, replacement).step(b) is Some,
        site_of(pos, count, replacement).kept(
            p.step(a)->0,
            p.rewritten(pos, count, replacement).step(b)->0,
        ),
{
    let q = p.rewritten(pos, count, replacement);
    let site = site_of(pos, count, replacement);
    let node = p.ir[a.pc];
    lemma_rewrite_instruction(p, pos, count, replacement, a.pc);
    let moved = q.ir[b.pc];
    if is_plain(node) {
        lemma_plain_effect_kept(site, p, q, node, a, b);
    } else if node.is_reference() {
        lemma_reference_effect_kept(site, p, q, node, moved, a, b);
    } else {
        lemma_indirect_effect_kept(site, p, q, node, a, b);
    }
}

/// Whether the rewrite that a pass applies at index `pos` keeps what the
/// program does: a call that it fuses is one of an instruction at least
/// two back, and no function starts right behind instructions that it
/// replaces.
pub open spec fn rewrite_is_safe<'a>(p: ProgramView<'a>, pos: int) -> bool {
    match p.rewrite_at(pos) {
        Some(rw) => {
            &&& p.ir[pos] matches IRNode::PushAddressFromOffset(k) ==> k < -1
            &&& functions_stand_off(site_of(pos, rw.count as int, rw.replacement), p.globals)
        },
        None => true,
    }
}

/// The steps through the instructions that a rewrite matches: the
/// rewritten program makes one step through its result, or none where
/// there is no result, and comes to stand where the program before the
/// rewrite does.
pub proof fn lemma_step_through<'a>(p: ProgramView<'a>, pos: int, a: Machine<'a>, b: Machine<'a>)
    requires
        p.rewrite_at(pos) is Some,
        p.ir[pos] matches IRNode::PushAddressFromOffset(k) ==> k < -1,
        site_of(pos, p.rewrite_at(pos)->0.count as int, p.rewrite_at(pos)->0.replacement).kept(a, b),
        site_of(
            pos,
            p.rewrite_at(pos)->0.count as int,
            p.rewrite_at(pos)->0.replacement,
        ).globals_kept(
            p,
            p.rewritten(pos, p.rewrite_at(pos)->0.count as int, p.rewrite_at(pos)->0.replacement),
        ),
        a.pc == pos,
        p.effect_of(p.ir[pos], p.ir[pos + 1], p.rewrite_at(pos)->0.count as int, a) is Some,
    ensures
        ({
            let rw = p.rewrite_at(pos)->0;
            let q = p.rewritten(pos, rw.count as int, rw.replacement);
            let site = site_of(pos, rw.count as int, rw.replacement);
            let end = p.effect_of(p.ir[pos], p.ir[pos + 1], rw.count as int, a)->0;
            match rw.replacement {
                Some(_) => q.step(b) is Some && site.kept(end, q.step(b)->0),
                None => site.kept(end, b),
            }
        }),
{
    let rw = p.rewrite_at(pos)->0;
    let q = p.rewritten(pos, rw.count as int, rw.replacement);
    let site = site_of(pos, rw.count as int, rw.replacement);
    let first = p.ir[pos];
    let second = p.ir[pos + 1];
    let end = p.effect_of(first, second, rw.count as int, a)->0;
    assert(rewrite_for(first, second) == Some(rw));
    assert(1 <= rw.count <= 2) by {
        lemma_rule_shape(first, second);
    }
    match first {
        IRNode::PushAddressFromOffset(k) => {
            let node = IRNode::CallFromOffset((k + 1) as i16);
            lemma_rewrite_replacement(p, pos, 2, node);
            assert(node.placed(pos) == IRNode::CallFromOffset(k));
            lemma_push_kept(
                site,
                a.stack,
                b.stack,
                Word::Code((pos + 2) as usize),
                Word::Code((pos + 1) as usize),
            );
            assert(end.stack =~= seq![Word::Code((pos + 2) as usize)] + a.stack);
        },
        _ => {
            if first is StackAlloc || first is StackDealloc {
                lemma_resize_rule_is_local(p, first, second, a);
            } else {
                lemma_push_rule_is_local(p, first, second, a);
            }
            assert(rule_is_local(p, first, second, a));
            match rw.replacement {
                Some(node) => {
                    lemma_rule_shape(first, second);
                    lemma_rewrite_replacement(p, pos, rw.count as int, node);
                    let after = p.effect(node, a)->0;
                    lemma_plain_effect_kept(site, p, q, node, a, b);
                    let b2 = q.effect(node, b)->0;
                    lemma_shows_then_kept(site, end.stack, after.stack, b2.stack);
                },
                None => {},
            }
        },
    }
}

/// The shape of the rules: a rule matches one instruction or two, a call
/// or a return is matched only as the call behind a pushed address, and
/// but for the fused call a result works on the stack alone.
pub proof fn lemma_rule_shape<'a>(first: IRNode<'a>, second: IRNode<'a>)
    requires
        rewrite_for(first, second) is Some,
    ensures
        1 <= rewrite_for(first, second)->0.count <= 2,
        is_plain(first) || first is PushAddressFromOffset,
        rewrite_for(first, second)->0.count == 2 ==> is_plain(second) || (
        first is PushAddressFromOffset && second is Call),
        rewrite_for(first, second)->0.count == 1 ==> rewrite_for(first, second)->0.replacement is None,
        rewrite_for(first, second)->0.replacement matches Some(node) ==> (if first is PushAddressFromOffset {
            node is CallFromOffset
        } else {
            is_plain(node) && !node.is_reference()
        }),
{
}

/// Whether no function starts right behind the instructions of the site,
/// where one takes their place.
pub open spec fn functions_stand_off<'a>(site: Site, globals: Seq<GlobalInfo<'a>>) -> bool {
    site.replaced ==> forall|g: int|
        0 <= g < globals.len() ==> ((#[trigger] globals[g]).init matches CTimeVal::Function {
            address,
            ..
        } ==> address != site.pos + site.count)
}

/// After a rewrite behind whose instructions no function starts, every
/// global holds what it held, but that the address of a function has
/// moved with the function.
pub proof fn lemma_rewrite_global<'a>(
    p: ProgramView<'a>,
    pos: int,
    count: int,
    replacement: Option<IRNode<'a>>,
    g: int,
    x: int,
)
    requires
        p.can_rewrite(pos, count, replacement),
        count <= 2,
        functions_stand_off(site_of(pos, count, replacement), p.globals),
        0 <= g < p.globals.len(),
    ensures
        ({
            let q = p.rewritten(pos, count, replacement);
            let site = site_of(pos, count, replacement);
            &&& q.globals.len() == p.globals.len()
            &&& match word_in(p.globals[g], x) {
                Some(w) => word_in(q.globals[g], x) matches Some(v) && site.word_kept(w, v),
                None => word_in(q.globals[g], x) is None,
            }
            &&& p.globals[g].init matches CTimeVal::Function { address, .. } ==> {
                &&& site.clear(address as int)
                &&& q.globals[g].init matches CTimeVal::Function { address: moved, .. }
                &&& moved == site.landing(address as int)
            }
        }),
{
    let s = p.shifted(pos, count);
    assert(p.globals[g].realign_fits(pos, count, false));
    assert(s.globals[g] == p.globals[g].realigned(pos, count, false));
    match replacement {
        Some(node) => {
            lemma_shift_then_insert_fits(p, pos, count);
            let q = s.inserted(pos, node);
            assert(s.globals[g].realign_fits(pos, 1, true));
            assert(q.globals[g] == s.globals[g].realigned(pos, 1, true));
        },
        None => {},
    }
}

/// `lemma_rewrite_globals_kept` for the globals from index `from` on.
proof fn lemma_rewrite_globals_kept_from<'a>(
    p: ProgramView<'a>,
    pos: int,
    count: int,
    replacement: Option<IRNode<'a>>,
    x: int,
    from: int,
)
    requires
        p.can_rewrite(pos, count, replacement),
        count <= 2,
        functions_stand_off(site_of(pos, count, replacement), p.globals),
        0 <= from,
    ensures
        ({
            let q = p.rewritten(pos, count, replacement);
            let site = site_of(pos, count, replacement);
            match global_word_from(p.globals, x, from) {
                Some(w) => global_word_from(q.globals, x, from) matches Some(v) && site.word_kept(
                    w,
                    v,
                ),
                None => global_word_from(q.globals, x, from) is None,
            }
        }),
    decreases p.globals.len() - from,
{
    if from < p.globals.len() {
        lemma_rewrite_global(p, pos, count, replacement, from, x);
        lemma_rewrite_globals_kept_from(p, pos, count, replacement, x, from + 1);
    } else {
        lemma_rewrite_global_count(p, pos, count, replacement);
    }
}

/// A rewrite keeps the number of globals.
pub proof fn lemma_rewrite_global_count<'a>(
    p: ProgramView<'a>,
    pos: int,
    count: int,
    replacement: Option<IRNode<'a>>,
)
    ensures
        p.rewritten(pos, count, replacement).globals.len() == p.globals.len(),
{
}

/// After a rewrite behind whose instructions no function starts, the
/// global segment reads as it read before.
pub proof fn lemma_rewrite_globals_kept<'a>(
    p: ProgramView<'a>,
    pos: int,
    count: int,
    replacement: Option<IRNode<'a>>,
)
    requires
        p.can_rewrite(pos, count, replacement),
        count <= 2,
        functions_stand_off(site_of(pos, count, replacement), p.globals),
    ensures
        site_of(pos, count, replacement).globals_kept(p, p.rewritten(pos, count, replacement)),
{
    let q = p.rewritten(pos, count, replacement);
    let site = site_of(pos, count, replacement);
    assert forall|x: int| (#[trigger] p.global_word(x)) is Some implies q.global_word(
        x,
    ) matches Some(v) && site.word_kept(p.global_word(x)->0, v) by {
        lemma_rewrite_globals_kept_from(p, pos, count, replacement, x, 0);
    }
}

} // verus!
