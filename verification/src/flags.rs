use vstd::prelude::*;
use std::collections::VecDeque;

verus! {

/// What the command line asks for.
pub struct Flags {
    args: VecDeque<String>,
    pub program_name: String,
    pub file_name: Option<String>,
}

impl Flags {
    /// The arguments that are not looked at yet.
    pub closed spec fn pending(&self) -> Seq<String> {
        self.args@
    }

    /// The name under which the program was called.
    pub closed spec fn program(&self) -> String {
        self.program_name
    }

    /// The source file that was named, if one was.
    pub closed spec fn file(&self) -> Option<String> {
        self.file_name
    }

    /// The flags of the program called `program_name` with the arguments
    /// `args`, of which none is looked at yet.
    pub fn new(program_name: String, args: VecDeque<String>) -> (r: Self)
        ensures
            r.pending() == args@,
            r.program() == program_name,
            r.file() is None,
    {
        Self { args, program_name, file_name: None }
    }

    /// Looks at all arguments: each names the source file, so the last one
    /// stays.
    pub fn parse(&mut self)
        ensures
            final(self).pending().len() == 0,
            final(self).program() == old(self).program(),
            final(self).file() == if old(self).pending().len() > 0 {
                Some(old(self).pending().last())
            } else {
                old(self).file()
            },
    {
        while self.args.len() > 0
            invariant
                self.program_name == old(self).program_name,
                self.args@.len() <= old(self).args@.len(),
                forall|i: int|
                    0 <= i < self.args@.len() ==> self.args@[i] == old(self).args@[i
                        + old(self).args@.len() - self.args@.len()],
                self.file_name == if self.args@.len() < old(self).args@.len() {
                    Some(old(self).args@[old(self).args@.len() - self.args@.len() - 1])
                } else {
                    old(self).file_name
                },
            decreases self.args@.len(),
        {
            self.file_name = self.args.pop_front();
        }
    }
}

} // verus!
