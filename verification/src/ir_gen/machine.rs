use vstd::prelude::*;
use crate::ir_gen::ctimeval::CTimeVal;
use crate::ir_gen::external::ExternalInfo;
use crate::ir_gen::global::GlobalInfo;
use crate::ir_gen::ir::IRNode;
use crate::ir_gen::program::ProgramView;

verus! {

/// What one slot of eight bytes holds while a program runs.
#[derive(Debug, Clone, Copy, PartialEq, Eq)]
pub enum Word<'a> {
    /// A number.
    Num(u64),
    /// The index of an instruction.
    Code(usize),
    /// The offset of a string in the static pool.
    Text(usize),
    /// What an external symbol stands for.
    Outside(ExternalInfo<'a>),
    /// Nothing that was ever written: a slot that was only allocated.
    Junk,
}

/// One call of an external function, with the stack as the callee finds
/// it, the nearest slot first. Indices of instructions are not shown.
pub struct Event<'a> {
    pub callee: ExternalInfo<'a>,
    pub stack: Seq<Word<'a>>,
}

/// The state of the machine that runs a program: the index of the next
/// instruction, the stack in slots of eight bytes, the nearest first, and
/// the calls of external functions made so far.
pub struct Machine<'a> {
    pub pc: int,
    pub stack: Seq<Word<'a>>,
    pub output: Seq<Event<'a>>,
}

/// The machine before the first step of a run that starts at the
/// instruction `pc` on the stack `stack`.
pub open spec fn launch<'a>(pc: int, stack: Seq<Word<'a>>) -> Machine<'a> {
    Machine { pc, stack, output: Seq::empty() }
}

/// A word as code outside the program sees it.
pub open spec fn outward<'a>(w: Word<'a>) -> Word<'a> {
    if w is Code {
        Word::Junk
    } else {
        w
    }
}

/// The word that the global `global` holds at byte `pos` of the global
/// segment, if it holds one there.
pub open spec fn word_in<'a>(global: GlobalInfo<'a>, pos: int) -> Option<Word<'a>> {
    match global.init {
        CTimeVal::UInt(value) => if pos == global.pos {
            Some(Word::Num(value))
        } else {
            None
        },
        CTimeVal::Function { address, .. } => if pos == global.pos {
            Some(Word::Code(address))
        } else {
            None
        },
        CTimeVal::StringSlice(pointer, len) => if pos == global.pos {
            Some(Word::Text(pointer))
        } else if pos == global.pos + 8 {
            Some(Word::Num(len as u64))
        } else {
            None
        },
        _ => None,
    }
}

/// The word at byte `pos` of the global segment: that of the first global
/// from index `from` on that holds one there.
pub open spec fn global_word_from<'a>(globals: Seq<GlobalInfo<'a>>, pos: int, from: int) -> Option<
    Word<'a>,
>
    decreases globals.len() - from,
{
    if from < 0 || from >= globals.len() {
        None
    } else {
        match word_in(globals[from], pos) {
            Some(w) => Some(w),
            None => global_word_from(globals, pos, from + 1),
        }
    }
}

impl<'a> Machine<'a> {
    /// Whether eight bytes can be read or written at `offset` bytes from
    /// the top of the stack.
    pub open spec fn reaches(self, offset: int) -> bool {
        0 <= offset && offset % 8 == 0 && offset / 8 < self.stack.len()
    }

    /// The machine at the next instruction, with `stack` for its stack.
    pub open spec fn next(self, stack: Seq<Word<'a>>) -> Machine<'a> {
        Machine { pc: self.pc + 1, stack, ..self }
    }

    /// After a push of `w`.
    pub open spec fn push(self, w: Word<'a>) -> Machine<'a> {
        self.next(seq![w] + self.stack)
    }

    /// After `w` is written at `offset` bytes from the top.
    pub open spec fn store(self, offset: int, w: Word<'a>) -> Option<Machine<'a>> {
        if self.reaches(offset) {
            Some(self.next(self.stack.update(offset / 8, w)))
        } else {
            None
        }
    }

    /// After `size` bytes are allocated on the stack.
    pub open spec fn grow(self, size: int) -> Option<Machine<'a>> {
        if size % 8 == 0 {
            Some(self.next(Seq::new((size / 8) as nat, |j: int| Word::Junk) + self.stack))
        } else {
            None
        }
    }

    /// After `size` bytes are given back.
    pub open spec fn shrink(self, size: int) -> Option<Machine<'a>> {
        if size % 8 == 0 && size / 8 <= self.stack.len() {
            Some(self.next(self.stack.skip(size / 8)))
        } else {
            None
        }
    }

    /// After the word at `offset` bytes from the top is pushed.
    pub open spec fn read_push(self, offset: int) -> Option<Machine<'a>> {
        if self.reaches(offset) {
            Some(self.push(self.stack[offset / 8]))
        } else {
            None
        }
    }

    /// After the word on top is taken off and written at `offset - 8` bytes
    /// from the new top. With an offset of 0 it is only taken off.
    pub open spec fn pop_store(self, offset: int) -> Option<Machine<'a>> {
        if self.stack.len() == 0 {
            None
        } else if offset == 0 {
            Some(self.next(self.stack.skip(1)))
        } else {
            self.next(self.stack.skip(1)).back().store(offset - 8, self.stack[0])
        }
    }

    /// The machine one instruction back, with the same stack.
    pub open spec fn back(self) -> Machine<'a> {
        Machine { pc: self.pc - 1, ..self }
    }

    /// After a jump to the instruction `target`.
    pub open spec fn jump(self, target: int) -> Option<Machine<'a>> {
        if 0 <= target <= usize::MAX {
            Some(Machine { pc: target, ..self })
        } else {
            None
        }
    }

    /// After a call of the instruction `target`: the index of the
    /// instruction behind the call is pushed for the way back.
    pub open spec fn call(self, target: int) -> Option<Machine<'a>> {
        if 0 <= self.pc < usize::MAX {
            self.push(Word::Code((self.pc + 1) as usize)).jump(target)
        } else {
            None
        }
    }

    /// After a call of what the word on top says: an instruction of the
    /// program, or an external function, of which the machine keeps only
    /// that it was called, and on what stack.
    pub open spec fn call_top(self) -> Option<Machine<'a>> {
        if self.stack.len() == 0 {
            None
        } else {
            let rest = self.next(self.stack.skip(1));
            match self.stack[0] {
                Word::Code(target) => rest.back().call(target as int),
                Word::Outside(callee) => Some(
                    Machine {
                        output: self.output.push(
                            Event { callee, stack: rest.stack.map_values(|w: Word<'a>| outward(w)) },
                        ),
                        ..rest
                    },
                ),
                _ => None,
            }
        }
    }

    /// After a return that gives back `params_size` bytes of arguments.
    pub open spec fn ret(self, params_size: int) -> Option<Machine<'a>> {
        if self.stack.len() == 0 {
            None
        } else {
            match self.stack[0] {
                Word::Code(target) => match self.next(self.stack.skip(1)).shrink(params_size) {
                    Some(m) => m.jump(target as int),
                    None => None,
                },
                _ => None,
            }
        }
    }

    /// After a push of the index `target`.
    pub open spec fn push_code(self, target: int) -> Option<Machine<'a>> {
        if 0 <= target <= usize::MAX {
            Some(self.push(Word::Code(target as usize)))
        } else {
            None
        }
    }

    /// Whether the run has come to its end: behind the last instruction,
    /// or at a return to code outside the program.
    pub open spec fn finished(self, p: ProgramView<'a>) -> bool {
        ||| self.pc == p.ir.len()
        ||| 0 <= self.pc < p.ir.len() && p.ir[self.pc] is Return && self.stack.len() > 0
            && self.stack[0] is Outside
    }
}

impl<'a> ProgramView<'a> {
    /// The word at byte `pos` of the global segment.
    pub open spec fn global_word(&self, pos: int) -> Option<Word<'a>> {
        global_word_from(self.globals, pos, 0)
    }

    /// What the instruction `node` does to the machine `m`; `None` where
    /// the instruction has no meaning there.
    pub open spec fn effect(&self, node: IRNode<'a>, m: Machine<'a>) -> Option<Machine<'a>> {
        match node {
            IRNode::Push64(value) => Some(m.push(Word::Num(value))),
            IRNode::PushStaticStringPointer(offset) => Some(m.push(Word::Text(offset))),
            IRNode::ExternalReadPush64(external) => Some(m.push(Word::Outside(external))),
            IRNode::PushAddressFromOffset(k) => m.push_code(m.pc + k),
            IRNode::StackAlloc(size) => m.grow(size as int),
            IRNode::StackDealloc(size) => m.shrink(size as int),
            IRNode::Load64ToStack(value, offset) => m.store(offset as int, Word::Num(value)),
            IRNode::Pop64ToStack(offset) => m.pop_store(offset as int),
            IRNode::StackReadPush64(offset) => m.read_push(offset as int),
            IRNode::StackReadLoad64ToStack(src, dst) => if m.reaches(src as int) {
                m.store(dst as int, m.stack[src as int / 8])
            } else {
                None
            },
            IRNode::GlobalReadPush64(pos) => match self.global_word(pos as int) {
                Some(w) => Some(m.push(w)),
                None => None,
            },
            IRNode::GlobalReadLoad64ToStack(pos, offset) => match self.global_word(pos as int) {
                Some(w) => m.store(offset as int, w),
                None => None,
            },
            IRNode::JumpFromOffset(k) => m.jump(m.pc + k),
            IRNode::CallFromOffset(k) => m.call(m.pc + k),
            IRNode::Call => m.call_top(),
            IRNode::Return { params_size } => m.ret(params_size as int),
        }
    }

    /// One step of the machine: the instruction at its index takes effect.
    /// `None` where there is no such instruction, or it has no meaning.
    pub open spec fn step(&self, m: Machine<'a>) -> Option<Machine<'a>> {
        if 0 <= m.pc < self.ir.len() {
            self.effect(self.ir[m.pc], m)
        } else {
            None
        }
    }

    /// The machine after `n` steps from `m`, if it gets that far.
    pub open spec fn run(&self, m: Machine<'a>, n: nat) -> Option<Machine<'a>>
        decreases n,
    {
        if n == 0 {
            Some(m)
        } else {
            match self.run(m, (n - 1) as nat) {
                Some(before) => self.step(before),
                None => None,
            }
        }
    }
}

} // verus!
