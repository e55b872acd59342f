use vstd::prelude::*;
use crate::ir_gen::ctimeval::CTimeVal;
use crate::ir_gen::external::ExternalInfo;
use crate::ir_gen::global::GlobalInfo;
use crate::ir_gen::ir::IRNode;
use crate::ir_gen::machine::{global_word_from, launch, outward, word_in, Event, Machine, Word};
use crate::ir_gen::program::CompiledProgram;

verus! {

/// One call of an external function that a run has made.
#[derive(Debug, PartialEq, Eq)]
pub struct CallRecord<'a> {
    pub callee: ExternalInfo<'a>,
    /// The stack as the callee found it, the nearest slot first.
    pub stack: Vec<Word<'a>>,
}

impl<'a> View for CallRecord<'a> {
    type V = Event<'a>;

    open spec fn view(&self) -> Event<'a> {
        Event { callee: self.callee, stack: self.stack@ }
    }
}

/// The machine that runs a program, step by step.
#[derive(Debug)]
pub struct Runner<'a> {
    /// The index of the next instruction.
    pub pc: usize,
    /// The stack in slots of eight bytes, the nearest first.
    pub stack: Vec<Word<'a>>,
    /// The calls of external functions made so far.
    pub output: Vec<CallRecord<'a>>,
}

impl<'a> View for Runner<'a> {
    type V = Machine<'a>;

    open spec fn view(&self) -> Machine<'a> {
        Machine {
            pc: self.pc as int,
            stack: self.stack@,
            output: self.output@.map_values(|r: CallRecord<'a>| r@),
        }
    }
}

/// Whether a step that the model gives as `to` was made: if there is one,
/// `ok` holds and the machine is `after`; if there is none, `ok` does not
/// hold and the machine is left as it was, `before`.
pub open spec fn stepped<'a>(
    to: Option<Machine<'a>>,
    ok: bool,
    before: Machine<'a>,
    after: Machine<'a>,
) -> bool {
    match to {
        Some(m) => ok && after == m,
        None => !ok && after == before,
    }
}

/// Computes [`word_in`].
pub fn word_of<'a>(global: &GlobalInfo<'a>, pos: usize) -> (r: Option<Word<'a>>)
    ensures
        r == word_in(*global, pos as int),
{
    match global.init {
        CTimeVal::UInt(value) => {
            if pos == global.pos {
                Some(Word::Num(value))
            } else {
                None
            }
        },
        CTimeVal::Function { address, .. } => {
            if pos == global.pos {
                Some(Word::Code(address))
            } else {
                None
            }
        },
        CTimeVal::StringSlice(pointer, len) => {
            if pos == global.pos {
                Some(Word::Text(pointer))
            } else if pos >= 8 && pos - 8 == global.pos {
                Some(Word::Num(len as u64))
            } else {
                None
            }
        },
        _ => None,
    }
}

/// The word at byte `pos` of the global segment of `prog`, if a global
/// holds one there.
pub fn global_word<'a>(prog: &CompiledProgram<'a>, pos: usize) -> (r: Option<Word<'a>>)
    ensures
        r == prog@.global_word(pos as int),
{
    let count = prog.global_count();
    let mut g: usize = 0;
    while g < count
        invariant
            g <= count,
            count == prog@.globals.len(),
            prog@.global_word(pos as int) == global_word_from(prog@.globals, pos as int, g as int),
        decreases count - g,
    {
        match word_of(prog.global_at(g), pos) {
            Some(w) => {
                return Some(w);
            },
            None => {},
        }
        g += 1;
    }
    None
}

impl<'a> Runner<'a> {
    /// The machine before the first step of a run that starts at the
    /// instruction `pc` on the stack `stack`.
    pub fn new(pc: usize, stack: Vec<Word<'a>>) -> (r: Self)
        ensures
            r@ == launch(pc as int, stack@),
    {
        let r = Runner { pc, stack, output: Vec::new() };
        assert(r@.output =~= Seq::empty());
        r
    }

    fn reaches(&self, offset: usize) -> (b: bool)
        ensures
            b == self@.reaches(offset as int),
    {
        offset % 8 == 0 && offset / 8 < self.stack.len()
    }

    fn push(&mut self, w: Word<'a>)
        requires
            old(self).pc < usize::MAX,
        ensures
            final(self)@ == old(self)@.push(w),
    {
        self.stack.insert(0, w);
        self.pc = self.pc + 1;
        assert(self@.stack =~= old(self)@.push(w).stack);
    }

    fn store(&mut self, offset: usize, w: Word<'a>) -> (ok: bool)
        requires
            old(self).pc < usize::MAX,
        ensures
            stepped(old(self)@.store(offset as int, w), ok, old(self)@, final(self)@),
    {
        if self.reaches(offset) {
            self.stack[offset / 8] = w;
            self.pc = self.pc + 1;
            true
        } else {
            false
        }
    }

    fn grow(&mut self, size: usize) -> (ok: bool)
        requires
            old(self).pc < usize::MAX,
        ensures
            stepped(old(self)@.grow(size as int), ok, old(self)@, final(self)@),
    {
        if size % 8 != 0 {
            return false;
        }
        let slots = size / 8;
        let mut j: usize = 0;
        while j < slots
            invariant
                j <= slots,
                self.pc == old(self).pc,
                self.output == old(self).output,
                self.stack@ == Seq::new(j as nat, |x: int| Word::Junk) + old(self).stack@,
            decreases slots - j,
        {
            self.stack.insert(0, Word::Junk);
            j += 1;
            assert(self.stack@ =~= Seq::new(j as nat, |x: int| Word::Junk) + old(self).stack@);
        }
        self.pc = self.pc + 1;
        true
    }

    fn shrink(&mut self, size: usize) -> (ok: bool)
        requires
            old(self).pc < usize::MAX,
        ensures
            stepped(old(self)@.shrink(size as int), ok, old(self)@, final(self)@),
    {
        if size % 8 != 0 || size / 8 > self.stack.len() {
            return false;
        }
        let slots = size / 8;
        let mut j: usize = 0;
        while j < slots
            invariant
                j <= slots <= old(self).stack@.len(),
                self.pc == old(self).pc,
                self.output == old(self).output,
                self.stack@ == old(self).stack@.skip(j as int),
            decreases slots - j,
        {
            self.stack.remove(0);
            j += 1;
            assert(self.stack@ =~= old(self).stack@.skip(j as int));
        }
        self.pc = self.pc + 1;
        true
    }

    fn read_push(&mut self, offset: usize) -> (ok: bool)
        requires
            old(self).pc < usize::MAX,
        ensures
            stepped(old(self)@.read_push(offset as int), ok, old(self)@, final(self)@),
    {
        if self.reaches(offset) {
            let w = self.stack[offset / 8];
            self.push(w);
            true
        } else {
            false
        }
    }

    fn pop_store(&mut self, offset: usize) -> (ok: bool)
        requires
            old(self).pc < usize::MAX,
        ensures
            stepped(old(self)@.pop_store(offset as int), ok, old(self)@, final(self)@),
    {
        if self.stack.len() == 0 {
            return false;
        }
        if offset == 0 {
            self.stack.remove(0);
            self.pc = self.pc + 1;
            assert(self@.stack =~= old(self)@.stack.skip(1));
            return true;
        }
        if offset < 8 || offset % 8 != 0 || (offset - 8) / 8 >= self.stack.len() - 1 {
            return false;
        }
        let w = self.stack.remove(0);
        assert(self.stack@ =~= old(self)@.stack.skip(1));
        self.stack[(offset - 8) / 8] = w;
        self.pc = self.pc + 1;
        true
    }

    fn jump(&mut self, target: i128) -> (ok: bool)
        ensures
            stepped(old(self)@.jump(target as int), ok, old(self)@, final(self)@),
    {
        if 0 <= target && target <= usize::MAX as i128 {
            self.pc = target as usize;
            true
        } else {
            false
        }
    }

    fn call(&mut self, target: i128) -> (ok: bool)
        ensures
            stepped(old(self)@.call(target as int), ok, old(self)@, final(self)@),
    {
        if self.pc < usize::MAX && 0 <= target && target <= usize::MAX as i128 {
            let back = self.pc + 1;
            self.push(Word::Code(back));
            self.pc = target as usize;
            true
        } else {
            false
        }
    }

    fn call_top(&mut self) -> (ok: bool)
        requires
            old(self).pc < usize::MAX,
        ensures
            stepped(old(self)@.call_top(), ok, old(self)@, final(self)@),
    {
        if self.stack.len() == 0 {
            return false;
        }
        match self.stack[0] {
            Word::Code(target) => {
                self.stack.remove(0);
                assert(self.stack@ =~= old(self)@.stack.skip(1));
                let back = self.pc + 1;
                self.push(Word::Code(back));
                self.pc = target;
                true
            },
            Word::Outside(callee) => {
                self.stack.remove(0);
                assert(self.stack@ =~= old(self)@.stack.skip(1));
                let seen = outward_of(&self.stack);
                self.output.push(CallRecord { callee, stack: seen });
                self.pc = self.pc + 1;
                assert(self@.output =~= old(self)@.call_top()->0.output);
                true
            },
            _ => false,
        }
    }

    fn ret(&mut self, params_size: usize) -> (ok: bool)
        requires
            old(self).pc < usize::MAX,
        ensures
            stepped(old(self)@.ret(params_size as int), ok, old(self)@, final(self)@),
    {
        if self.stack.len() == 0 {
            return false;
        }
        match self.stack[0] {
            Word::Code(target) => {
                if params_size % 8 != 0 || params_size / 8 > self.stack.len() - 1 {
                    return false;
                }
                self.stack.remove(0);
                assert(self.stack@ =~= old(self)@.stack.skip(1));
                self.shrink(params_size);
                self.pc = target;
                true
            },
            _ => false,
        }
    }

    /// Makes one step on the program `prog`, if the machine stands at an
    /// instruction that has a meaning there, and says whether it did.
    pub fn step(&mut self, prog: &CompiledProgram<'a>) -> (ok: bool)
        ensures
            stepped(prog@.step(old(self)@), ok, old(self)@, final(self)@),
    {
        if self.pc >= prog.count_ir() {
            return false;
        }
        let here = self.pc as i128;
        match prog.node_clone_at(self.pc) {
            IRNode::Push64(value) => {
                self.push(Word::Num(value));
                true
            },
            IRNode::PushStaticStringPointer(offset) => {
                self.push(Word::Text(offset));
                true
            },
            IRNode::ExternalReadPush64(external) => {
                self.push(Word::Outside(external));
                true
            },
            IRNode::PushAddressFromOffset(k) => {
                let target = here + k as i128;
                if 0 <= target && target <= usize::MAX as i128 {
                    self.push(Word::Code(target as usize));
                    true
                } else {
                    false
                }
            },
            IRNode::StackAlloc(size) => self.grow(size),
            IRNode::StackDealloc(size) => self.shrink(size),
            IRNode::Load64ToStack(value, offset) => self.store(offset, Word::Num(value)),
            IRNode::Pop64ToStack(offset) => self.pop_store(offset),
            IRNode::StackReadPush64(offset) => self.read_push(offset),
            IRNode::StackReadLoad64ToStack(src, dst) => {
                if self.reaches(src) {
                    let w = self.stack[src / 8];
                    self.store(dst, w)
                } else {
                    false
                }
            },
            IRNode::GlobalReadPush64(pos) => match global_word(prog, pos) {
                Some(w) => {
                    self.push(w);
                    true
                },
                None => false,
            },
            IRNode::GlobalReadLoad64ToStack(pos, offset) => match global_word(prog, pos) {
                Some(w) => self.store(offset, w),
                None => false,
            },
            IRNode::JumpFromOffset(k) => self.jump(here + k as i128),
            IRNode::CallFromOffset(k) => self.call(here + k as i128),
            IRNode::Call => self.call_top(),
            IRNode::Return { params_size } => self.ret(params_size),
        }
    }

    /// Makes steps on the program `prog` until the machine stands where no
    /// step can be made, but at most `limit` of them, and returns their
    /// number.
    pub fn run(&mut self, prog: &CompiledProgram<'a>, limit: usize) -> (steps: usize)
        ensures
            steps <= limit,
            prog@.run(old(self)@, steps as nat) == Some(final(self)@),
            steps < limit ==> prog@.step(final(self)@) is None,
    {
        let mut steps: usize = 0;
        while steps < limit
            invariant
                steps <= limit,
                prog@.run(old(self)@, steps as nat) == Some(self@),
            ensures
                steps <= limit,
                prog@.run(old(self)@, steps as nat) == Some(self@),
                steps < limit ==> prog@.step(self@) is None,
            decreases limit - steps,
        {
            if !self.step(prog) {
                break ;
            }
            steps += 1;
        }
        steps
    }

    /// Whether the run has come to its end on the program `prog`: behind
    /// the last instruction, or at a return to code outside the program.
    pub fn is_finished(&self, prog: &CompiledProgram<'a>) -> (b: bool)
        ensures
            b == self@.finished(prog@),
    {
        let len = prog.count_ir();
        if self.pc == len {
            true
        } else if self.pc < len {
            match prog.node_clone_at(self.pc) {
                IRNode::Return { .. } => self.stack.len() > 0 && match self.stack[0] {
                    Word::Outside(_) => true,
                    _ => false,
                },
                _ => false,
            }
        } else {
            false
        }
    }
}

/// The stack as code outside the program sees it.
fn outward_of<'a>(stack: &Vec<Word<'a>>) -> (seen: Vec<Word<'a>>)
    ensures
        seen@ == stack@.map_values(|w: Word<'a>| outward(w)),
{
    let mut seen: Vec<Word<'a>> = Vec::new();
    let mut j: usize = 0;
    while j < stack.len()
        invariant
            j <= stack.len(),
            seen@ == stack@.take(j as int).map_values(|w: Word<'a>| outward(w)),
        decreases stack.len() - j,
    {
        let w = match stack[j] {
            Word::Code(_) => Word::Junk,
            other => other,
        };
        seen.push(w);
        j += 1;
        assert(seen@ =~= stack@.take(j as int).map_values(|w: Word<'a>| outward(w)));
    }
    assert(stack@.take(stack.len() as int) =~= stack@);
    seen
}

} // verus!
