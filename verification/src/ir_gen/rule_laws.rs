use vstd::prelude::*;
use crate::ir_gen::ir::IRNode;
use crate::ir_gen::ir_optimizer::rewrite_for;
use crate::ir_gen::machine::{Event, Machine, Word};
use crate::ir_gen::program::ProgramView;

verus! {

/// Whether the word `b` can stand for `a`: it is `a`, or `a` was never
/// written.
pub open spec fn word_shows<'a>(a: Word<'a>, b: Word<'a>) -> bool {
    a is Junk || a == b
}

/// Whether the stack `b` can stand for `a`, slot by slot.
pub open spec fn stack_shows<'a>(a: Seq<Word<'a>>, b: Seq<Word<'a>>) -> bool {
    &&& a.len() == b.len()
    &&& forall|j: int| 0 <= j < a.len() ==> word_shows(#[trigger] a[j], b[j])
}

/// Whether the output `b` can stand for `a`: the same external functions
/// are called in the same order, each on a stack that can stand for the
/// one in `a`.
pub open spec fn output_shows<'a>(a: Seq<Event<'a>>, b: Seq<Event<'a>>) -> bool {
    &&& a.len() == b.len()
    &&& forall|e: int|
        0 <= e < a.len() ==> (#[trigger] a[e]).callee == b[e].callee && stack_shows(
            a[e].stack,
            b[e].stack,
        )
}

impl<'a> ProgramView<'a> {
    /// What the instruction `first` does to the machine, and `second`
    /// after it if `count` is 2.
    pub open spec fn effect_of(
        &self,
        first: IRNode<'a>,
        second: IRNode<'a>,
        count: int,
        m: Machine<'a>,
    ) -> Option<Machine<'a>> {
        if count == 1 {
            self.effect(first, m)
        } else {
            match self.effect(first, m) {
                Some(between) => self.effect(second, between),
                None => None,
            }
        }
    }
}

/// Two allocations in a row are one of the sum.
proof fn lemma_grow_twice<'a>(m: Machine<'a>, a: int, b: int)
    requires
        0 <= a,
        0 <= b,
        m.grow(a) is Some,
        m.grow(a)->0.grow(b) is Some,
    ensures
        m.grow(a + b) is Some,
        m.grow(a + b)->0.stack == m.grow(a)->0.grow(b)->0.stack,
{
    assert(m.grow(a + b)->0.stack =~= m.grow(a)->0.grow(b)->0.stack);
}

/// Two releases in a row are one of the sum.
proof fn lemma_shrink_twice<'a>(m: Machine<'a>, a: int, b: int)
    requires
        0 <= a,
        0 <= b,
        m.shrink(a) is Some,
        m.shrink(a)->0.shrink(b) is Some,
    ensures
        m.shrink(a + b) is Some,
        m.shrink(a + b)->0.stack == m.shrink(a)->0.shrink(b)->0.stack,
{
    assert(m.shrink(a + b)->0.stack =~= m.shrink(a)->0.shrink(b)->0.stack);
}

/// An allocation and a release behind it are an allocation or a release
/// of the difference.
proof fn lemma_grow_shrink<'a>(m: Machine<'a>, a: int, b: int)
    requires
        0 <= a,
        0 <= b,
        m.grow(a) is Some,
        m.grow(a)->0.shrink(b) is Some,
    ensures
        a > b ==> m.grow(a - b) is Some && m.grow(a - b)->0.stack == m.grow(a)->0.shrink(b)->0.stack,
        a <= b ==> m.shrink(b - a) is Some && m.shrink(b - a)->0.stack == m.grow(a)->0.shrink(
            b,
        )->0.stack,
{
    lemma_grow_then_shrink(m.stack, a / 8, b / 8);
    if a > b {
        assert(m.grow(a - b)->0.stack =~= m.grow(a)->0.shrink(b)->0.stack);
    } else {
        assert(m.shrink(b - a)->0.stack =~= m.grow(a)->0.shrink(b)->0.stack);
    }
}

/// A release and an allocation behind it are a release or an allocation
/// of the difference, but that this leaves on the stack what the two
/// together replace by slots never written.
proof fn lemma_shrink_grow<'a>(m: Machine<'a>, a: int, b: int)
    requires
        0 <= a,
        0 <= b,
        m.shrink(a) is Some,
        m.shrink(a)->0.grow(b) is Some,
    ensures
        a > b ==> m.shrink(a - b) is Some && stack_shows(
            m.shrink(a)->0.grow(b)->0.stack,
            m.shrink(a - b)->0.stack,
        ),
        a <= b ==> m.grow(b - a) is Some && stack_shows(
            m.shrink(a)->0.grow(b)->0.stack,
            m.grow(b - a)->0.stack,
        ),
{
    lemma_shrink_then_grow(m.stack, a / 8, b / 8);
}

/// An allocation of one slot and a store of a number into it are a push
/// of the number.
proof fn lemma_grow_store<'a>(m: Machine<'a>, value: u64)
    requires
        m.grow(8) is Some,
    ensures
        m.grow(8)->0.store(0, Word::Num(value)) is Some,
        m.grow(8)->0.store(0, Word::Num(value))->0.stack == m.push(Word::Num(value)).stack,
{
    assert(m.grow(8)->0.store(0, Word::Num(value))->0.stack =~= m.push(Word::Num(value)).stack);
}

/// What is left when `drop` slots are taken off a stack on which `fresh`
/// slots were allocated.
proof fn lemma_grow_then_shrink<'a>(stack: Seq<Word<'a>>, fresh: int, drop: int)
    requires
        0 <= fresh,
        0 <= drop <= fresh + stack.len(),
    ensures
        drop <= fresh ==> (Seq::new(fresh as nat, |j: int| Word::Junk) + stack).skip(drop) == Seq::new(
            (fresh - drop) as nat,
            |j: int| Word::Junk,
        ) + stack,
        drop > fresh ==> (Seq::new(fresh as nat, |j: int| Word::Junk) + stack).skip(drop)
            == stack.skip(drop - fresh),
{
    let grown = Seq::new(fresh as nat, |j: int| Word::Junk) + stack;
    if drop <= fresh {
        assert(grown.skip(drop) =~= Seq::new((fresh - drop) as nat, |j: int| Word::Junk) + stack);
    } else {
        assert(grown.skip(drop) =~= stack.skip(drop - fresh));
    }
}

/// Slots that are allocated where `drop` slots were taken off can be
/// stood for by what was there.
proof fn lemma_shrink_then_grow<'a>(stack: Seq<Word<'a>>, drop: int, fresh: int)
    requires
        0 <= fresh,
        0 <= drop <= stack.len(),
    ensures
        drop >= fresh ==> stack_shows(
            Seq::new(fresh as nat, |j: int| Word::Junk) + stack.skip(drop),
            stack.skip(drop - fresh),
        ),
        drop < fresh ==> stack_shows(
            Seq::new(fresh as nat, |j: int| Word::Junk) + stack.skip(drop),
            Seq::new((fresh - drop) as nat, |j: int| Word::Junk) + stack,
        ),
{
    let a = Seq::new(fresh as nat, |j: int| Word::Junk) + stack.skip(drop);
    if drop >= fresh {
        let b = stack.skip(drop - fresh);
        assert forall|j: int| 0 <= j < a.len() implies word_shows(#[trigger] a[j], b[j]) by {}
    } else {
        let b = Seq::new((fresh - drop) as nat, |j: int| Word::Junk) + stack;
        assert forall|j: int| 0 <= j < a.len() implies word_shows(#[trigger] a[j], b[j]) by {}
    }
}

/// A stack can stand for itself.
proof fn lemma_stack_shows_itself<'a>(stack: Seq<Word<'a>>)
    ensures
        stack_shows(stack, stack),
{
}

/// A rule that combines two allocations, two releases, or one of each
/// changes nothing that a run can see: where the instructions it matches
/// have a meaning, its result has one, and leaves the machine in the same
/// place with a stack that can stand for theirs.
pub proof fn lemma_resize_rule_is_local<'a>(
    p: ProgramView<'a>,
    first: IRNode<'a>,
    second: IRNode<'a>,
    m: Machine<'a>,
)
    requires
        first is StackAlloc || first is StackDealloc,
        rewrite_for(first, second) is Some,
        p.effect_of(first, second, rewrite_for(first, second)->0.count as int, m) is Some,
    ensures
        rule_is_local(p, first, second, m),
{
    let rw = rewrite_for(first, second)->0;
    let end = p.effect_of(first, second, rw.count as int, m)->0;
    if rw.count == 1 {
        assert(end.stack =~= m.stack);
    } else {
        let node = rw.replacement->0;
        match (first, second) {
            (IRNode::StackAlloc(a), IRNode::StackAlloc(b)) => {
                lemma_grow_twice(m, a as int, b as int);
            },
            (IRNode::StackAlloc(a), IRNode::StackDealloc(b)) => {
                lemma_grow_shrink(m, a as int, b as int);
            },
            (IRNode::StackAlloc(a), IRNode::Load64ToStack(value, _)) => {
                lemma_grow_store(m, value);
            },
            (IRNode::StackDealloc(a), IRNode::StackDealloc(b)) => {
                lemma_shrink_twice(m, a as int, b as int);
            },
            (IRNode::StackDealloc(a), IRNode::StackAlloc(b)) => {
                lemma_shrink_grow(m, a as int, b as int);
            },
            _ => {},
        }
        assert(p.effect(node, m) is Some);
        lemma_stack_shows_itself(end.stack);
    }
}

/// A rule that starts at a push of a number, of a global or of a slot of
/// the stack changes nothing that a run can see.
pub proof fn lemma_push_rule_is_local<'a>(
    p: ProgramView<'a>,
    first: IRNode<'a>,
    second: IRNode<'a>,
    m: Machine<'a>,
)
    requires
        first is Push64 || first is GlobalReadPush64 || first is StackReadPush64,
        rewrite_for(first, second) is Some,
        p.effect_of(first, second, rewrite_for(first, second)->0.count as int, m) is Some,
    ensures
        rule_is_local(p, first, second, m),
{
    let rw = rewrite_for(first, second)->0;
    let end = p.effect_of(first, second, 2, m)->0;
    let between = p.effect(first, m)->0;
    assert(between.stack.skip(1) =~= m.stack);
    match rw.replacement {
        Some(node) => {
            let after = p.effect(node, m)->0;
            assert(p.effect(node, m) is Some);
            assert(end.stack =~= after.stack);
        },
        None => {
            assert(end.stack =~= m.stack);
        },
    }
}

/// What it means that the rule which matches `first` and `second` is a
/// local equivalence on the machine `m`: its result, if it has one, has a
/// meaning there and leaves the machine at the same instruction as the
/// matched ones do, with the same output and a stack that can stand for
/// theirs; and a rule without a result matches what leaves stack and
/// output as they were.
pub open spec fn rule_is_local<'a>(
    p: ProgramView<'a>,
    first: IRNode<'a>,
    second: IRNode<'a>,
    m: Machine<'a>,
) -> bool {
    let rw = rewrite_for(first, second)->0;
    let end = p.effect_of(first, second, rw.count as int, m)->0;
    &&& end.pc == m.pc + rw.count
    &&& match rw.replacement {
        Some(node) => {
            &&& p.effect(node, m) matches Some(after)
            &&& after.pc == m.pc + 1
            &&& after.output == end.output
            &&& stack_shows(end.stack, after.stack)
        },
        None => end.stack == m.stack && end.output == m.output,
    }
}

} // verus!
