use vstd::prelude::*;
use crate::ir_gen::ctimeval::CTimeVal;
use crate::ir_gen::ir_optimizer::{lemma_pass_shrinks, rewrite_for};
use crate::ir_gen::machine::{launch, Event, Machine, Word};
use crate::ir_gen::program::ProgramView;
use crate::ir_gen::rule_laws::{output_shows, stack_shows, word_shows};
use crate::ir_gen::simulation::{
    lemma_rewrite_global, lemma_rewrite_globals_kept, lemma_rewrite_instruction, lemma_rule_shape,
    lemma_step_outside, lemma_step_through, rewrite_is_safe, site_of, Site,
};

verus! {

impl<'a> ProgramView<'a> {
    /// The program after the rewrite that a pass applies at index `pos`.
    pub open spec fn rewritten_at(&self, pos: int) -> ProgramView<'a> {
        let rw = self.rewrite_at(pos)->0;
        self.rewritten(pos, rw.count as int, rw.replacement)
    }

    /// The site of the rewrite that a pass applies at index `pos`.
    pub open spec fn site_at(&self, pos: int) -> Site {
        let rw = self.rewrite_at(pos)->0;
        site_of(pos, rw.count as int, rw.replacement)
    }
}

/// Whether the machine `b`, on the program rewritten at `pos`, goes with
/// the machine `a` on the program `p`, which `before` led to in one step
/// if `a` stands between two instructions that the rewrite matches.
pub open spec fn goes_with<'a>(
    p: ProgramView<'a>,
    pos: int,
    before: Option<Machine<'a>>,
    a: Machine<'a>,
    b: Machine<'a>,
) -> bool {
    let site = p.site_at(pos);
    if site.clear(a.pc) {
        site.kept(a, b)
    } else {
        &&& before matches Some(prev)
        &&& prev.pc == pos
        &&& site.kept(prev, b)
        &&& p.step(prev) == Some(a)
        &&& a.output == prev.output
    }
}

/// A run on a program goes, step by step, with a run on the program after
/// one safe rewrite: to the machine after `n` steps there is a number of
/// steps after which the rewritten program has come as far.
pub proof fn lemma_run_kept<'a>(
    p: ProgramView<'a>,
    pos: int,
    a0: Machine<'a>,
    b0: Machine<'a>,
    n: nat,
) -> (m: nat)
    requires
        p.rewrite_at(pos) is Some,
        rewrite_is_safe(p, pos),
        p.site_at(pos).kept(a0, b0),
        p.run(a0, n) is Some,
    ensures
        p.rewritten_at(pos).run(b0, m) is Some,
        goes_with(
            p,
            pos,
            if n > 0 {
                p.run(a0, (n - 1) as nat)
            } else {
                None
            },
            p.run(a0, n)->0,
            p.rewritten_at(pos).run(b0, m)->0,
        ),
    decreases n,
{
    let rw = p.rewrite_at(pos)->0;
    let q = p.rewritten_at(pos);
    let site = p.site_at(pos);
    if n == 0 {
        0
    } else {
        let m1 = lemma_run_kept(p, pos, a0, b0, (n - 1) as nat);
        let prev = p.run(a0, (n - 1) as nat)->0;
        let b1 = q.run(b0, m1)->0;
        let a = p.run(a0, n)->0;
        assert(p.step(prev) == Some(a));
        let first = p.ir[pos];
        let second = p.ir[pos + 1];
        assert(rewrite_for(first, second) == Some(rw));
        lemma_rule_shape(first, second);
        lemma_rewrite_globals_kept(p, pos, rw.count as int, rw.replacement);
        if site.clear(prev.pc) {
            if prev.pc == pos {
                if rw.count == 1 {
                    lemma_step_through(p, pos, prev, b1);
                    m1
                } else {
                    m1
                }
            } else {
                lemma_step_outside(p, pos, rw.count as int, rw.replacement, prev, b1);
                assert(q.run(b0, m1 + 1) == q.step(b1));
                m1 + 1
            }
        } else {
            let start = p.run(a0, (n - 2) as nat)->0;
            assert(p.run(a0, (n - 1) as nat) == p.step(start));
            lemma_step_through(p, pos, start, b1);
            if rw.replacement is Some {
                assert(q.run(b0, m1 + 1) == q.step(b1));
                m1 + 1
            } else {
                m1
            }
        }
    }
}

/// What a run has put out, and whether it has come to its end, is the same
/// on a program and on the program after one safe rewrite, for machines
/// that go with each other.
pub proof fn lemma_goes_with_shows<'a>(
    p: ProgramView<'a>,
    pos: int,
    before: Option<Machine<'a>>,
    a: Machine<'a>,
    b: Machine<'a>,
)
    requires
        p.rewrite_at(pos) is Some,
        goes_with(p, pos, before, a, b),
    ensures
        output_shows(a.output, b.output),
        a.finished(p) ==> b.finished(p.rewritten_at(pos)),
{
    let rw = p.rewrite_at(pos)->0;
    let site = p.site_at(pos);
    let first = p.ir[pos];
    let second = p.ir[pos + 1];
    assert(rewrite_for(first, second) == Some(rw));
    lemma_rule_shape(first, second);
    if a.finished(p) {
        if a.pc == p.ir.len() {
            if rw.replacement is Some {
                lemma_rewrite_replacement_len(p, pos);
            }
        } else {
            lemma_rewrite_instruction(p, pos, rw.count as int, rw.replacement, a.pc);
            assert(site.word_kept(a.stack[0], b.stack[0]));
        }
    }
}

/// The length of a program after a rewrite.
pub proof fn lemma_rewrite_replacement_len<'a>(p: ProgramView<'a>, pos: int)
    requires
        p.rewrite_at(pos) is Some,
    ensures
        p.rewritten_at(pos).ir.len() == p.ir.len() - p.rewrite_at(pos)->0.count + if p.rewrite_at(
            pos,
        )->0.replacement is Some {
            1int
        } else {
            0int
        },
{
}

/// Whether no slot of the stack holds the index of an instruction.
pub open spec fn holds_no_code<'a>(stack: Seq<Word<'a>>) -> bool {
    forall|j: int| 0 <= j < stack.len() ==> !((#[trigger] stack[j]) is Code)
}

/// Whether the machine `b` on the program `q`, if the run got that far,
/// has put out what can stand for the output of `a` on `p`, and has come
/// to its end if `a` has.
pub open spec fn matched<'a>(
    p: ProgramView<'a>,
    q: ProgramView<'a>,
    a: Machine<'a>,
    b: Option<Machine<'a>>,
) -> bool {
    &&& b matches Some(on)
    &&& output_shows(a.output, on.output)
    &&& a.finished(p) ==> on.finished(q)
}

/// Whether the run of `q` from the instruction `to` on `stack` comes, after
/// some number of steps, to a machine that matches `a`.
pub open spec fn reached<'a>(
    p: ProgramView<'a>,
    q: ProgramView<'a>,
    a: Machine<'a>,
    to: int,
    stack: Seq<Word<'a>>,
) -> bool {
    exists|m: nat| matched(p, q, a, #[trigger] q.run(launch(to, stack), m))
}

/// Whether `q`, run from the instruction `to`, does what `p` does when
/// run from the instruction `from`: on every stack that holds no index of
/// an instruction, wherever the run of `p` gets, the run of `q` comes to a
/// machine that matches.
pub open spec fn runs_alike<'a>(p: ProgramView<'a>, q: ProgramView<'a>, from: int, to: int) -> bool {
    forall|stack: Seq<Word<'a>>, n: nat|
        holds_no_code(stack) && (#[trigger] p.run(launch(from, stack), n)) is Some ==> reached(
            p,
            q,
            p.run(launch(from, stack), n)->0,
            to,
            stack,
        )
}

/// Whether the program `q` does what `p` does: run from the top, and run
/// from the start of each function that a global holds, `q` calls the
/// same external functions in the same order as `p`, on stacks that can
/// stand for those of `p`, and ends where `p` ends.
pub open spec fn follows<'a>(p: ProgramView<'a>, q: ProgramView<'a>) -> bool {
    &&& q.globals.len() == p.globals.len()
    &&& runs_alike(p, q, 0, 0)
    &&& forall|g: int|
        0 <= g < p.globals.len() ==> ((#[trigger] p.globals[g]).init matches CTimeVal::Function {
            address,
            ..
        } ==> (q.globals[g].init matches CTimeVal::Function { address: moved, .. } && runs_alike(
            p,
            q,
            address as int,
            moved as int,
        )))
}

/// A stack can stand for itself, and to stand for another carries over.
pub proof fn lemma_output_shows_chain<'a>(a: Seq<Event<'a>>, b: Seq<Event<'a>>, c: Seq<Event<'a>>)
    requires
        output_shows(a, b),
        output_shows(b, c),
    ensures
        output_shows(a, c),
        output_shows(a, a),
{
    assert forall|e: int| 0 <= e < a.len() implies (#[trigger] a[e]).callee == c[e].callee
        && stack_shows(a[e].stack, c[e].stack) by {
        assert(b[e].callee == c[e].callee);
        assert forall|j: int| 0 <= j < a[e].stack.len() implies word_shows(
            #[trigger] a[e].stack[j],
            c[e].stack[j],
        ) by {
            assert(word_shows(b[e].stack[j], c[e].stack[j]));
        }
    }
}

/// Every program does what it does.
pub proof fn lemma_follows_itself<'a>(p: ProgramView<'a>)
    ensures
        follows(p, p),
{
    assert forall|from: int| runs_alike(p, p, from, from) by {
        assert forall|stack: Seq<Word<'a>>, n: nat|
            holds_no_code(stack) && (#[trigger] p.run(launch(from, stack), n)) is Some implies reached(
            p,
            p,
            p.run(launch(from, stack), n)->0,
            from,
            stack,
        ) by {
            let a = p.run(launch(from, stack), n)->0;
            assert(output_shows(a.output, a.output));
            assert(matched(p, p, a, p.run(launch(from, stack), n)));
        }
    }
}

/// If `q` runs as `p` does and `r` as `q` does, `r` runs as `p` does.
pub proof fn lemma_runs_alike_chain<'a>(
    p: ProgramView<'a>,
    q: ProgramView<'a>,
    r: ProgramView<'a>,
    x: int,
    y: int,
    z: int,
)
    requires
        runs_alike(p, q, x, y),
        runs_alike(q, r, y, z),
    ensures
        runs_alike(p, r, x, z),
{
    assert forall|stack: Seq<Word<'a>>, n: nat|
        holds_no_code(stack) && (#[trigger] p.run(launch(x, stack), n)) is Some implies reached(
        p,
        r,
        p.run(launch(x, stack), n)->0,
        z,
        stack,
    ) by {
        let a = p.run(launch(x, stack), n)->0;
        assert(reached(p, q, a, y, stack));
        let m = choose|m: nat| matched(p, q, a, #[trigger] q.run(launch(y, stack), m));
        let b = q.run(launch(y, stack), m)->0;
        assert(reached(q, r, b, z, stack));
        let l = choose|l: nat| matched(q, r, b, #[trigger] r.run(launch(z, stack), l));
        let c = r.run(launch(z, stack), l)->0;
        lemma_output_shows_chain(a.output, b.output, c.output);
        assert(matched(p, r, a, r.run(launch(z, stack), l)));
    }
}

/// If `q` does what `p` does and `r` what `q` does, `r` does what `p`
/// does.
pub proof fn lemma_follows_chain<'a>(p: ProgramView<'a>, q: ProgramView<'a>, r: ProgramView<'a>)
    requires
        follows(p, q),
        follows(q, r),
    ensures
        follows(p, r),
{
    lemma_runs_alike_chain(p, q, r, 0, 0, 0);
    assert forall|g: int| 0 <= g < p.globals.len() implies ((#[trigger] p.globals[g]).init matches CTimeVal::Function {
        address,
        ..
    } ==> (r.globals[g].init matches CTimeVal::Function { address: moved, .. } && runs_alike(
        p,
        r,
        address as int,
        moved as int,
    ))) by {
        if let CTimeVal::Function { address, .. } = p.globals[g].init {
            if let CTimeVal::Function { address: middle, .. } = q.globals[g].init {
                if let CTimeVal::Function { address: moved, .. } = r.globals[g].init {
                    lemma_runs_alike_chain(
                        p,
                        q,
                        r,
                        address as int,
                        middle as int,
                        moved as int,
                    );
                }
            }
        }
    }
}

/// The rewritten program runs, from the landing of an index that is not
/// between two rewritten instructions, as the program before a safe
/// rewrite runs from that index.
pub proof fn lemma_rewrite_runs_alike<'a>(p: ProgramView<'a>, pos: int, from: int)
    requires
        p.rewrite_at(pos) is Some,
        rewrite_is_safe(p, pos),
        p.site_at(pos).clear(from),
    ensures
        runs_alike(p, p.rewritten_at(pos), from, p.site_at(pos).landing(from)),
{
    let q = p.rewritten_at(pos);
    let site = p.site_at(pos);
    let to = site.landing(from);
    assert forall|stack: Seq<Word<'a>>, n: nat|
        holds_no_code(stack) && (#[trigger] p.run(launch(from, stack), n)) is Some implies reached(
        p,
        q,
        p.run(launch(from, stack), n)->0,
        to,
        stack,
    ) by {
        let a0 = launch(from, stack);
        let b0 = launch(to, stack);
        assert(site.stack_kept(stack, stack));
        let m = lemma_run_kept(p, pos, a0, b0, n);
        let a = p.run(a0, n)->0;
        let b = q.run(b0, m)->0;
        lemma_goes_with_shows(
            p,
            pos,
            if n > 0 {
                p.run(a0, (n - 1) as nat)
            } else {
                None
            },
            a,
            b,
        );
        assert(matched(p, q, a, q.run(launch(to, stack), m)));
    }
}

/// The program after one safe rewrite does what the program before it
/// does.
pub proof fn lemma_rewrite_follows<'a>(p: ProgramView<'a>, pos: int)
    requires
        p.rewrite_at(pos) is Some,
        rewrite_is_safe(p, pos),
    ensures
        follows(p, p.rewritten_at(pos)),
{
    let rw = p.rewrite_at(pos)->0;
    let q = p.rewritten_at(pos);
    let first = p.ir[pos];
    let second = p.ir[pos + 1];
    assert(rewrite_for(first, second) == Some(rw));
    lemma_rule_shape(first, second);
    lemma_rewrite_runs_alike(p, pos, 0);
    assert forall|g: int| 0 <= g < p.globals.len() implies ((#[trigger] p.globals[g]).init matches CTimeVal::Function {
        address,
        ..
    } ==> (q.globals[g].init matches CTimeVal::Function { address: moved, .. } && runs_alike(
        p,
        q,
        address as int,
        moved as int,
    ))) by {
        if let CTimeVal::Function { address, .. } = p.globals[g].init {
            lemma_rewrite_global(p, pos, rw.count as int, rw.replacement, g, 0);
            lemma_rewrite_runs_alike(p, pos, address as int);
        }
    }
}

impl<'a> ProgramView<'a> {
    /// Whether every rewrite that the rest of a pass makes, from index `i`
    /// on, is safe.
    pub open spec fn pass_is_safe_from(&self, i: int) -> bool
        decreases 2 * self.ir.len() - i,
    {
        if 0 <= i && i + 1 < self.ir.len() {
            match self.rewrite_at(i) {
                Some(rw) => rewrite_is_safe(*self, i) && self.rewritten(
                    i,
                    rw.count as int,
                    rw.replacement,
                ).pass_is_safe_from(i),
                None => self.pass_is_safe_from(i + 1),
            }
        } else {
            true
        }
    }

    /// Whether every rewrite that the optimization of the program makes is
    /// safe.
    pub open spec fn optimizes_safely(&self) -> bool
        decreases self.ir.len(),
    {
        let (next, count) = self.pass();
        &&& self.pass_is_safe_from(0)
        &&& if count == 0 {
            true
        } else {
            proof {
                lemma_pass_shrinks(*self, 0);
            }
            next.optimizes_safely()
        }
    }
}

/// What the rest of a pass leaves does what the program does, if the
/// rewrites are safe.
pub proof fn lemma_pass_follows<'a>(p: ProgramView<'a>, i: int)
    requires
        p.pass_is_safe_from(i),
    ensures
        follows(p, p.pass_from(i).0),
    decreases 2 * p.ir.len() - i,
{
    if 0 <= i && i + 1 < p.ir.len() {
        match p.rewrite_at(i) {
            Some(rw) => {
                let q = p.rewritten(i, rw.count as int, rw.replacement);
                lemma_rewrite_follows(p, i);
                lemma_pass_follows(q, i);
                lemma_follows_chain(p, q, q.pass_from(i).0);
            },
            None => {
                lemma_pass_follows(p, i + 1);
            },
        }
    } else {
        lemma_follows_itself(p);
    }
}

/// The optimized program does what the program does: run from the top or
/// from the start of any function that a global holds, on any stack that
/// holds no index of an instruction, it calls the same external functions
/// in the same order, on stacks that can stand for those that the program
/// hands them, and it ends where the program ends. This holds where every
/// rewrite on the way is safe.
pub proof fn lemma_optimized_follows<'a>(p: ProgramView<'a>)
    requires
        p.optimizes_safely(),
    ensures
        follows(p, p.optimized()),
    decreases p.ir.len(),
{
    let (next, count) = p.pass();
    lemma_pass_follows(p, 0);
    if count != 0 {
        lemma_pass_shrinks(p, 0);
        lemma_optimized_follows(next);
        lemma_follows_chain(p, next, next.optimized());
    }
}

impl<'a> ProgramView<'a> {
    /// Where a run that has come to the index `t` stands after the rest of
    /// a pass, from index `i` on: the index moves with each rewrite.
    pub open spec fn pass_landing(&self, i: int, t: int) -> int
        decreases 2 * self.ir.len() - i,
    {
        if 0 <= i && i + 1 < self.ir.len() {
            match self.rewrite_at(i) {
                Some(rw) => self.rewritten(i, rw.count as int, rw.replacement).pass_landing(
                    i,
                    self.site_at(i).landing(t),
                ),
                None => self.pass_landing(i + 1, t),
            }
        } else {
            t
        }
    }

    /// Where a run that has come to the index `t` stands after the
    /// program is optimized.
    pub open spec fn optimized_landing(&self, t: int) -> int
        decreases self.ir.len(),
    {
        let (next, count) = self.pass();
        if count == 0 {
            t
        } else {
            proof {
                lemma_pass_shrinks(*self, 0);
            }
            next.optimized_landing(self.pass_landing(0, t))
        }
    }
}

/// Through the rest of a pass whose rewrites are safe, the address of
/// every function that a global holds moves with the function: it names
/// the place to which the function's first instruction has moved, or the
/// instruction that took its place.
pub proof fn lemma_pass_moves_addresses<'a>(p: ProgramView<'a>, i: int, g: int)
    requires
        p.pass_is_safe_from(i),
        0 <= g < p.globals.len(),
    ensures
        p.pass_from(i).0.globals.len() == p.globals.len(),
        p.globals[g].init matches CTimeVal::Function { address, .. } ==> (p.pass_from(
            i,
        ).0.globals[g].init matches CTimeVal::Function { address: moved, .. } && moved
            == p.pass_landing(i, address as int)),
    decreases 2 * p.ir.len() - i,
{
    if 0 <= i && i + 1 < p.ir.len() {
        match p.rewrite_at(i) {
            Some(rw) => {
                let q = p.rewritten(i, rw.count as int, rw.replacement);
                let first = p.ir[i];
                let second = p.ir[i + 1];
                assert(rewrite_for(first, second) == Some(rw));
                lemma_rule_shape(first, second);
                lemma_rewrite_global(p, i, rw.count as int, rw.replacement, g, 0);
                lemma_pass_moves_addresses(q, i, g);
            },
            None => {
                lemma_pass_moves_addresses(p, i + 1, g);
            },
        }
    }
}

/// Address stability: through an optimization whose rewrites are safe,
/// the address of every function that a global holds moves with the
/// function.
pub proof fn lemma_optimized_moves_addresses<'a>(p: ProgramView<'a>, g: int)
    requires
        p.optimizes_safely(),
        0 <= g < p.globals.len(),
    ensures
        p.optimized().globals.len() == p.globals.len(),
        p.globals[g].init matches CTimeVal::Function { address, .. } ==> (
        p.optimized().globals[g].init matches CTimeVal::Function { address: moved, .. } && moved
            == p.optimized_landing(address as int)),
    decreases p.ir.len(),
{
    let (next, count) = p.pass();
    lemma_pass_moves_addresses(p, 0, g);
    if count != 0 {
        lemma_pass_shrinks(p, 0);
        lemma_optimized_moves_addresses(next, g);
    } else {
        crate::ir_gen::ir_optimizer::lemma_idle_pass(p, 0);
    }
}

} // verus!
