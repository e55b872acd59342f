use vstd::prelude::*;
use vstd::std_specs::iter::IteratorSpec;
use std::ops::RangeInclusive;
use vstd::string::StringSliceAdditionalSpecFns;
use crate::ir_gen::pool::{
    lemma_empty_pool_wf, lemma_intern_keeps_pool_wf, lemma_pool_find, pool_bytes, pool_find,
};
use crate::ir_gen::realign::{bump_offset, realign_address, realign_offset};
use crate::text::str_eq;
use crate::ir_gen::ctimeval::CTimeVal;
use crate::ir_gen::external::ExternalInfo;
use crate::ir_gen::global::GlobalInfo;
use crate::ir_gen::ir::IRNode;

verus! {

/// The instruction stream together with everything the back end needs
/// beside it: globals, external symbols, the pool of interned strings and
/// the package name.
pub struct CompiledProgram<'a> {
    ir: Vec<IRNode<'a>>,
    globals: Vec<GlobalInfo<'a>>,
    externals: Vec<ExternalInfo<'a>>,
    package_name: Option<&'a str>,
    static_strings: Vec<(&'a str, usize)>,
    static_strings_len: usize,
}

/// Mathematical model of a [`CompiledProgram`].
pub struct ProgramView<'a> {
    pub ir: Seq<IRNode<'a>>,
    pub globals: Seq<GlobalInfo<'a>>,
    pub externals: Seq<ExternalInfo<'a>>,
    pub package_name: Option<&'a str>,
    /// Each interned string with its offset in the pool.
    pub static_strings: Seq<(&'a str, usize)>,
    /// Total number of bytes interned so far.
    pub static_strings_len: usize,
}

/// `RangeInclusive::start` hands out the lower bound the range was made
/// with, as long as the range has not been iterated to its end.
pub assume_specification<Idx>[ RangeInclusive::<Idx>::start ](r: &RangeInclusive<Idx>) -> (ret:
    &Idx)
    ensures
        !r@.exhausted ==> *ret == r@.start,
;

/// `RangeInclusive::end` hands out the upper bound the range was made
/// with, as long as the range has not been iterated to its end.
pub assume_specification<Idx>[ RangeInclusive::<Idx>::end ](r: &RangeInclusive<Idx>) -> (ret: &Idx)
    ensures
        !r@.exhausted ==> *ret == r@.end,
;

/// `RangeInclusive::is_empty` on a range of indices: the range holds no
/// index when it was iterated to its end or its bounds are out of order.
#[verifier::external_body]
fn range_is_empty(r: &RangeInclusive<usize>) -> (b: bool)
    ensures
        b == (r@.exhausted || r@.start > r@.end),
{
    r.is_empty()
}

fn realign_offset_exec(host: usize, off: i16, pos: usize, count: usize, insert: bool) -> (r: i128)
    ensures
        r == realign_offset(host as int, off as int, pos as int, count as int, insert),
{
    let tgt: i128 = host as i128 + off as i128;
    let delta: i128 = if insert {
        count as i128
    } else {
        -(count as i128)
    };
    if host < pos && pos as i128 <= tgt {
        off as i128 + delta
    } else if tgt < pos as i128 && pos <= host {
        off as i128 - delta
    } else {
        off as i128
    }
}

fn realign_address_exec(address: usize, pos: usize, count: usize, insert: bool) -> (r: i128)
    ensures
        r == realign_address(address as int, pos as int, count as int, insert),
{
    if address > pos {
        if insert {
            address as i128 + count as i128
        } else {
            address as i128 - count as i128
        }
    } else {
        address as i128
    }
}

fn bump_fits(offset: usize, threshold: usize, delta: usize) -> (b: bool)
    ensures
        b == (bump_offset(offset, threshold, delta) <= usize::MAX),
{
    offset <= threshold || delta <= usize::MAX - offset
}

fn bump(offset: usize, threshold: usize, delta: usize) -> (r: usize)
    requires
        bump_offset(offset, threshold, delta) <= usize::MAX,
    ensures
        r == bump_offset(offset, threshold, delta),
{
    if offset > threshold {
        offset + delta
    } else {
        offset
    }
}

impl<'a> View for CompiledProgram<'a> {
    type V = ProgramView<'a>;

    closed spec fn view(&self) -> ProgramView<'a> {
        ProgramView {
            ir: self.ir@,
            globals: self.globals@,
            externals: self.externals@,
            package_name: self.package_name,
            static_strings: self.static_strings@,
            static_strings_len: self.static_strings_len,
        }
    }
}

impl<'a> ProgramView<'a> {
    /// The program that holds nothing.
    pub open spec fn empty() -> ProgramView<'a> {
        ProgramView {
            ir: Seq::empty(),
            globals: Seq::empty(),
            externals: Seq::empty(),
            package_name: None,
            static_strings: Seq::empty(),
            static_strings_len: 0,
        }
    }
}

impl<'a> CompiledProgram<'a> {
    pub fn new() -> (r: Self)
        ensures
            r@ == ProgramView::empty(),
            r@.pool_wf(),
    {
        proof {
            lemma_empty_pool_wf();
        }
        Self {
            ir: Vec::new(),
            globals: Vec::new(),
            externals: Vec::new(),
            package_name: None,
            static_strings: Vec::new(),
            static_strings_len: 0,
        }
    }

    pub fn get_package_name(&self) -> (r: Option<&'a str>)
        ensures
            r == self@.package_name,
    {
        self.package_name
    }

    pub fn set_package_name(&mut self, name: Option<&'a str>)
        ensures
            final(self)@ == (ProgramView { package_name: name, ..old(self)@ }),
    {
        self.package_name = name;
    }

    /// Appends an instruction at the end of the stream.
    pub fn app_node(&mut self, node: IRNode<'a>)
        ensures
            final(self)@ == (ProgramView { ir: old(self)@.ir.push(node), ..old(self)@ }),
    {
        self.ir.push(node);
    }

    /// Drops the instructions from index `len` on. Nothing is realigned:
    /// this takes back what was appended last. A reference that named the
    /// first instruction dropped names the end of the stream afterwards.
    pub fn truncate_nodes(&mut self, len: usize)
        requires
            len <= old(self)@.ir.len(),
        ensures
            final(self)@ == (ProgramView { ir: old(self)@.ir.take(len as int), ..old(self)@ }),
    {
        self.ir.truncate(len);
        assert(self.ir@ =~= old(self).ir@.take(len as int));
    }

    pub fn count_ir(&self) -> (n: usize)
        ensures
            n == self@.ir.len(),
    {
        self.ir.len()
    }

    /// Index of the last instruction, or 0 for an empty stream.
    pub fn ir_pos(&self) -> (n: usize)
        ensures
            n == if self@.ir.len() > 0 { self@.ir.len() - 1 } else { 0 },
    {
        if self.ir.len() > 0 {
            self.ir.len() - 1
        } else {
            0
        }
    }

    pub fn node_clone_at(&self, pos: usize) -> (r: IRNode<'a>)
        requires
            pos < self@.ir.len(),
        ensures
            r == self@.ir[pos as int],
    {
        self.ir[pos]
    }

    pub fn node_at(&self, pos: usize) -> (r: &IRNode<'a>)
        requires
            pos < self@.ir.len(),
        ensures
            *r == self@.ir[pos as int],
    {
        &self.ir[pos]
    }

    pub fn node_mut_at(&mut self, pos: usize) -> (r: &mut IRNode<'a>)
        requires
            pos < old(self)@.ir.len(),
        ensures
            *r == old(self)@.ir[pos as int],
            final(self)@ == (ProgramView {
                ir: old(self)@.ir.update(pos as int, *final(r)),
                ..old(self)@
            }),
    {
        &mut self.ir[pos]
    }

    /// An iterator over the instructions, first to last.
    pub fn ir_iter(&self) -> (it: std::slice::Iter<'_, IRNode<'a>>)
        ensures
            it.remaining() == self@.ir.as_ref(),
            it.decrease() is Some,
            it.initial_value_relation(&it),
    {
        broadcast use vstd::std_specs::slice::axiom_spec_slice_iter;

        self.ir.iter()
    }

    /// An iterator over the globals in the order they were added.
    pub fn globals_iter(&self) -> (it: std::slice::Iter<'_, GlobalInfo<'a>>)
        ensures
            it.remaining() == self@.globals.as_ref(),
            it.decrease() is Some,
            it.initial_value_relation(&it),
    {
        broadcast use vstd::std_specs::slice::axiom_spec_slice_iter;

        self.globals.iter()
    }

    /// An iterator over the external symbols in the order they were added.
    pub fn externals_iter(&self) -> (it: std::slice::Iter<'_, ExternalInfo<'a>>)
        ensures
            it.remaining() == self@.externals.as_ref(),
            it.decrease() is Some,
            it.initial_value_relation(&it),
    {
        broadcast use vstd::std_specs::slice::axiom_spec_slice_iter;

        self.externals.iter()
    }

    /// An iterator over the interned strings, each with its offset, in the
    /// order they were interned.
    pub fn static_strings_iter(&self) -> (it: std::slice::Iter<'_, (&'a str, usize)>)
        ensures
            it.remaining() == self@.static_strings.as_ref(),
            it.decrease() is Some,
            it.initial_value_relation(&it),
    {
        broadcast use vstd::std_specs::slice::axiom_spec_slice_iter;

        self.static_strings.iter()
    }

    pub fn any_global_exists(&self) -> (b: bool)
        ensures
            b == (self@.globals.len() > 0),
    {
        !self.globals.is_empty()
    }

    pub fn global_count(&self) -> (n: usize)
        ensures
            n == self@.globals.len(),
    {
        self.globals.len()
    }

    /// The global at index `index`, in the order they were added.
    pub fn global_at(&self, index: usize) -> (r: &GlobalInfo<'a>)
        requires
            index < self@.globals.len(),
        ensures
            *r == self@.globals[index as int],
    {
        &self.globals[index]
    }

    pub fn first_global(&self) -> (r: Option<&GlobalInfo<'a>>)
        ensures
            self@.globals.len() == 0 ==> r is None,
            self@.globals.len() > 0 ==> r == Some(&self@.globals[0]),
    {
        if self.globals.len() > 0 {
            Some(&self.globals[0])
        } else {
            None
        }
    }

    pub fn add_global(&mut self, global: GlobalInfo<'a>)
        ensures
            final(self)@ == (ProgramView {
                globals: old(self)@.globals.push(global),
                ..old(self)@
            }),
    {
        self.globals.push(global);
    }

    pub fn add_external(&mut self, external: ExternalInfo<'a>)
        ensures
            final(self)@ == (ProgramView {
                externals: old(self)@.externals.push(external),
                ..old(self)@
            }),
    {
        self.externals.push(external);
    }
}



impl<'a> CompiledProgram<'a> {
    /// Whether `count` instructions can be inserted at `pos` (`insert`) or
    /// removed from it without a reference or an address leaving the range
    /// of its operand.
    pub fn can_realign(&self, pos: usize, count: usize, insert: bool) -> (b: bool)
        ensures
            b == self@.realign_fits(pos as int, count as int, insert),
    {
        let mut g: usize = 0;
        while g < self.globals.len()
            invariant
                g <= self.globals.len(),
                forall|j: int|
                    0 <= j < g ==> (#[trigger] self.globals@[j]).realign_fits(
                        pos as int,
                        count as int,
                        insert,
                    ),
            decreases self.globals.len() - g,
        {
            match &self.globals[g].init {
                CTimeVal::Function { address, .. } => {
                    let moved = realign_address_exec(*address, pos, count, insert);
                    if moved < 0 || moved > usize::MAX as i128 {
                        assert(!self@.globals[g as int].realign_fits(
                            pos as int,
                            count as int,
                            insert,
                        ));
                        return false;
                    }
                },
                _ => {},
            }
            g += 1;
        }
        let mut i: usize = 0;
        while i < self.ir.len()
            invariant
                i <= self.ir.len(),
                forall|j: int|
                    0 <= j < self.globals.len() ==> (#[trigger] self.globals@[j]).realign_fits(
                        pos as int,
                        count as int,
                        insert,
                    ),
                forall|j: int|
                    0 <= j < i ==> (#[trigger] self.ir@[j]).realign_fits(
                        j,
                        pos as int,
                        count as int,
                        insert,
                    ),
            decreases self.ir.len() - i,
        {
            let fits = match self.ir[i] {
                IRNode::CallFromOffset(off) | IRNode::PushAddressFromOffset(off) | IRNode::JumpFromOffset(
                    off,
                ) => {
                    let moved = realign_offset_exec(i, off, pos, count, insert);
                    i16::MIN as i128 <= moved && moved <= i16::MAX as i128
                },
                _ => true,
            };
            if !fits {
                assert(!self@.ir[i as int].realign_fits(
                    i as int,
                    pos as int,
                    count as int,
                    insert,
                ));
                return false;
            }
            i += 1;
        }
        true
    }

    /// Realigns every relative reference and every function address for a
    /// change of `count` instructions at `pos` that is about to be made.
    fn realign_addresses(&mut self, pos: usize, count: usize, switch: bool)
        requires
            old(self)@.realign_fits(pos as int, count as int, switch),
        ensures
            final(self)@ == old(self)@.realigned(pos as int, count as int, switch),
    {
        let ghost before = self@;
        let mut g: usize = 0;
        while g < self.globals.len()
            invariant
                g <= self.globals.len(),
                self.globals@.len() == before.globals.len(),
                self@ == (ProgramView { globals: self.globals@, ..before }),
                before.realign_fits(pos as int, count as int, switch),
                forall|j: int|
                    0 <= j < g ==> #[trigger] self.globals@[j] == before.globals[j].realigned(
                        pos as int,
                        count as int,
                        switch,
                    ),
                forall|j: int|
                    g <= j < self.globals.len() ==> #[trigger] self.globals@[j]
                        == before.globals[j],
            decreases self.globals.len() - g,
        {
            assert(before.globals[g as int].realign_fits(pos as int, count as int, switch));
            let moved: Option<GlobalInfo<'a>> = match &self.globals[g].init {
                CTimeVal::Function { address, return_type_val } => {
                    let new_address = realign_address_exec(*address, pos, count, switch);
                    Some(
                        GlobalInfo {
                            pos: self.globals[g].pos,
                            name: self.globals[g].name,
                            is_exported: self.globals[g].is_exported,
                            init: CTimeVal::Function {
                                address: new_address as usize,
                                return_type_val: return_type_val.clone(),
                            },
                            is_const: self.globals[g].is_const,
                        },
                    )
                },
                _ => None,
            };
            match moved {
                Some(global) => {
                    self.globals[g] = global;
                },
                None => {},
            }
            g += 1;
        }
        let ghost middle = self@;
        let mut i: usize = 0;
        while i < self.ir.len()
            invariant
                i <= self.ir.len(),
                self.ir@.len() == before.ir.len(),
                self@ == (ProgramView { ir: self.ir@, ..middle }),
                middle.ir == before.ir,
                before.realign_fits(pos as int, count as int, switch),
                forall|j: int|
                    0 <= j < i ==> #[trigger] self.ir@[j] == before.ir[j].realigned(
                        j,
                        pos as int,
                        count as int,
                        switch,
                    ),
                forall|j: int| i <= j < self.ir.len() ==> #[trigger] self.ir@[j] == before.ir[j],
            decreases self.ir.len() - i,
        {
            assert(before.ir[i as int].realign_fits(i as int, pos as int, count as int, switch));
            match self.ir[i] {
                IRNode::CallFromOffset(off) => {
                    let moved = realign_offset_exec(i, off, pos, count, switch);
                    self.ir[i] = IRNode::CallFromOffset(moved as i16);
                },
                IRNode::PushAddressFromOffset(off) => {
                    let moved = realign_offset_exec(i, off, pos, count, switch);
                    self.ir[i] = IRNode::PushAddressFromOffset(moved as i16);
                },
                IRNode::JumpFromOffset(off) => {
                    let moved = realign_offset_exec(i, off, pos, count, switch);
                    self.ir[i] = IRNode::JumpFromOffset(moved as i16);
                },
                _ => {},
            }
            i += 1;
        }
        proof {
            let target = before.realigned(pos as int, count as int, switch);
            assert(self@.ir =~= target.ir);
            assert(self@.globals =~= target.globals);
        }
    }

    /// Inserts `node` at index `pos`. Every reference that reaches across
    /// `pos`, and every function address beyond it, is moved by one first,
    /// so that it names the same instruction afterwards. The reference of
    /// `node` itself is realigned as one held at `pos`: if it points
    /// backward it is moved by one, so it is given one short.
    pub fn insert_node(&mut self, pos: usize, node: IRNode<'a>)
        requires
            pos <= old(self)@.ir.len(),
            old(self)@.realign_fits(pos as int, 1, true),
            node.placing_fits(pos as int),
        ensures
            final(self)@ == old(self)@.inserted(pos as int, node),
    {
        self.realign_addresses(pos, 1, true);
        let stored = match node {
            IRNode::CallFromOffset(off) => IRNode::CallFromOffset(
                realign_offset_exec(pos, off, pos, 1, true) as i16,
            ),
            IRNode::PushAddressFromOffset(off) => IRNode::PushAddressFromOffset(
                realign_offset_exec(pos, off, pos, 1, true) as i16,
            ),
            IRNode::JumpFromOffset(off) => IRNode::JumpFromOffset(
                realign_offset_exec(pos, off, pos, 1, true) as i16,
            ),
            _ => node,
        };
        self.ir.insert(pos, stored);
    }

    /// Whether `node` can be inserted at index `pos`, as far as its own
    /// reference goes.
    pub fn can_place(pos: usize, node: IRNode<'a>) -> (b: bool)
        ensures
            b == node.placing_fits(pos as int),
    {
        match node {
            IRNode::CallFromOffset(off) | IRNode::PushAddressFromOffset(off) | IRNode::JumpFromOffset(
                off,
            ) => {
                let moved = realign_offset_exec(pos, off, pos, 1, true);
                i16::MIN as i128 <= moved && moved <= i16::MAX as i128
            },
            _ => true,
        }
    }

    /// Removes the instructions of the inclusive `range`. Every reference
    /// that reaches across the start of the range, and every function
    /// address beyond it, is moved back by the length of the range first.
    /// An empty range changes nothing. Only the references that stay have
    /// to fit their operands (see `can_shift`).
    pub fn shift_nodes(&mut self, range: RangeInclusive<usize>)
        requires
            !range@.exhausted && range@.start <= range@.end ==> {
                &&& range@.end < old(self)@.ir.len()
                &&& old(self)@.shift_fits(range@.start as int, range@.end - range@.start + 1)
            },
        ensures
            range@.exhausted || range@.start > range@.end ==> final(self)@ == old(self)@,
            !range@.exhausted && range@.start <= range@.end ==> final(self)@ == old(self)@.shifted(
                range@.start as int,
                range@.end - range@.start + 1,
            ),
    {
        if range_is_empty(&range) {
            return ;
        }
        let start: usize = *range.start();
        let end: usize = *range.end();
        let len: usize = self.ir.len();
        assert(end < len);
        let count: usize = end - start + 1;
        let ghost before = self@;
        let mut b: usize = start;
        while b <= end
            invariant
                start <= b <= end + 1,
                end < self.ir.len(),
                self.ir@.len() == before.ir.len(),
                self@ == (ProgramView { ir: self.ir@, ..before }),
                forall|j: int| start <= j < b ==> !(#[trigger] self.ir@[j]).is_reference(),
                forall|j: int|
                    0 <= j < self.ir@.len() && !(start <= j < b) ==> #[trigger] self.ir@[j]
                        == before.ir[j],
            decreases end + 1 - b,
        {
            self.ir[b] = IRNode::Call;
            b += 1;
        }
        assert(self@.realign_fits(start as int, count as int, false)) by {
            assert forall|i: int| 0 <= i < self@.ir.len() implies (#[trigger] self@.ir[i]).realign_fits(
                i,
                start as int,
                count as int,
                false,
            ) by {
                if !(start <= i <= end) {
                    assert(before.ir[i].realign_fits(i, start as int, count as int, false));
                }
            }
        }
        let ghost blank = self@;
        self.realign_addresses(start, count, false);
        let ghost realigned = self@;
        let mut k: usize = count;
        while k > 0
            invariant
                k <= count,
                start + count == end + 1,
                end < realigned.ir.len(),
                self@ == (ProgramView { ir: self.ir@, ..realigned }),
                self.ir@ == realigned.ir.subrange(0, start + k) + realigned.ir.subrange(
                    end + 1,
                    realigned.ir.len() as int,
                ),
            decreases k,
        {
            k -= 1;
            self.ir.remove(start + k);
        }
        proof {
            let target = before.shifted(start as int, count as int);
            assert(self@.ir =~= target.ir);
            assert(self@.globals =~= target.globals);
        }
    }

    /// Whether the `count` instructions from `pos` on can be removed
    /// without a reference that stays, or an address, leaving the range of
    /// its operand.
    pub fn can_shift(&self, pos: usize, count: usize) -> (b: bool)
        ensures
            b == self@.shift_fits(pos as int, count as int),
    {
        let mut g: usize = 0;
        while g < self.globals.len()
            invariant
                g <= self.globals.len(),
                forall|j: int|
                    0 <= j < g ==> (#[trigger] self.globals@[j]).realign_fits(
                        pos as int,
                        count as int,
                        false,
                    ),
            decreases self.globals.len() - g,
        {
            match &self.globals[g].init {
                CTimeVal::Function { address, .. } => {
                    let moved = realign_address_exec(*address, pos, count, false);
                    if moved < 0 || moved > usize::MAX as i128 {
                        assert(!self@.globals[g as int].realign_fits(
                            pos as int,
                            count as int,
                            false,
                        ));
                        return false;
                    }
                },
                _ => {},
            }
            g += 1;
        }
        let mut i: usize = 0;
        while i < self.ir.len()
            invariant
                i <= self.ir.len(),
                forall|j: int|
                    0 <= j < self.globals.len() ==> (#[trigger] self.globals@[j]).realign_fits(
                        pos as int,
                        count as int,
                        false,
                    ),
                forall|j: int|
                    0 <= j < i && !(pos <= j < pos + count) ==> (#[trigger] self.ir@[j]).realign_fits(
                        j,
                        pos as int,
                        count as int,
                        false,
                    ),
            decreases self.ir.len() - i,
        {
            let leaves = i >= pos && i - pos < count;
            let fits = leaves || match self.ir[i] {
                IRNode::CallFromOffset(off) | IRNode::PushAddressFromOffset(off) | IRNode::JumpFromOffset(
                    off,
                ) => {
                    let moved = realign_offset_exec(i, off, pos, count, false);
                    i16::MIN as i128 <= moved && moved <= i16::MAX as i128
                },
                _ => true,
            };
            if !fits {
                assert(!self@.ir[i as int].realign_fits(
                    i as int,
                    pos as int,
                    count as int,
                    false,
                ));
                return false;
            }
            i += 1;
        }
        true
    }
}

impl<'a> CompiledProgram<'a> {
    /// Whether `string` can be interned: it is in the pool already, or the
    /// pool's byte counter has room for it.
    pub fn can_add_static_string(&self, string: &'a str) -> (b: bool)
        ensures
            b == self@.can_intern(string),
    {
        let mut i: usize = 0;
        while i < self.static_strings.len()
            invariant
                i <= self.static_strings.len(),
                forall|j: int| 0 <= j < i ==> (#[trigger] self.static_strings@[j]).0@ != string@,
            decreases self.static_strings.len() - i,
        {
            if str_eq(string, self.static_strings[i].0) {
                proof {
                    lemma_pool_find(self.static_strings@, string@);
                }
                return true;
            }
            i += 1;
        }
        proof {
            lemma_pool_find(self.static_strings@, string@);
        }
        string.as_bytes().len() <= usize::MAX - self.static_strings_len
    }

    /// Interns `string` and returns the offset that names it in the pool:
    /// that of the entry that holds the text already, else the number of
    /// bytes of all entries, under which the string is appended. The pool
    /// of a new program is well formed, and stays so: no method but this
    /// one touches it.
    #[must_use]
    pub fn add_static_string(&mut self, string: &'a str) -> (offset: usize)
        requires
            old(self)@.can_intern(string),
        ensures
            (final(self)@, offset) == old(self)@.interned(string),
            old(self)@.pool_wf() ==> final(self)@.pool_wf(),
            old(self)@.pool_wf() && pool_find(old(self)@.static_strings, string@) is None
                ==> offset == pool_bytes(old(self)@.static_strings),
    {
        proof {
            if self@.pool_wf() {
                lemma_intern_keeps_pool_wf(self@, string);
            }
        }
        let mut i: usize = 0;
        while i < self.static_strings.len()
            invariant
                i <= self.static_strings.len(),
                self@ == old(self)@,
                self.static_strings@ == old(self)@.static_strings,
                forall|j: int| 0 <= j < i ==> (#[trigger] self.static_strings@[j]).0@ != string@,
            decreases self.static_strings.len() - i,
        {
            if str_eq(string, self.static_strings[i].0) {
                proof {
                    lemma_pool_find(self.static_strings@, string@);
                }
                return self.static_strings[i].1;
            }
            i += 1;
        }
        proof {
            lemma_pool_find(self.static_strings@, string@);
        }
        let string_pos = self.static_strings_len;
        self.static_strings.push((string, string_pos));
        self.static_strings_len += string.as_bytes().len();
        string_pos
    }
}

impl<'a> CompiledProgram<'a> {
    /// Whether the stack offsets after index `pos` can be bumped by
    /// `alignment` without leaving the range of their operands.
    pub fn can_realign_stack_offsets(&self, pos: usize, stack_offset: usize, alignment: usize) -> (b:
        bool)
        ensures
            b == self@.stack_realign_fits(pos as int, stack_offset, alignment),
    {
        let mut i: usize = 0;
        while i < self.ir.len()
            invariant
                i <= self.ir.len(),
                forall|j: int|
                    pos < j < i ==> (#[trigger] self.ir@[j]).stack_realign_fits(
                        stack_offset,
                        alignment,
                    ),
            decreases self.ir.len() - i,
        {
            if i > pos {
                let fits = match self.ir[i] {
                    IRNode::Pop64ToStack(offset) => bump_fits(offset, stack_offset, alignment),
                    IRNode::Load64ToStack(_, offset) => bump_fits(offset, stack_offset, alignment),
                    IRNode::StackReadPush64(offset) => bump_fits(offset, stack_offset, alignment),
                    IRNode::GlobalReadLoad64ToStack(_, offset) => bump_fits(
                        offset,
                        stack_offset,
                        alignment,
                    ),
                    IRNode::StackReadLoad64ToStack(src, dst) => bump_fits(
                        src,
                        stack_offset,
                        alignment,
                    ) && bump_fits(dst, stack_offset, alignment),
                    _ => true,
                };
                if !fits {
                    assert(!self@.ir[i as int].stack_realign_fits(stack_offset, alignment));
                    return false;
                }
            }
            i += 1;
        }
        true
    }

    /// Adds `alignment` to every stack offset beyond `stack_offset` that an
    /// instruction after index `pos` holds. This keeps the instructions that
    /// were emitted for a frame right when the frame below them grows.
    pub fn realign_stack_offsets(&mut self, pos: usize, stack_offset: usize, alignment: usize)
        requires
            old(self)@.stack_realign_fits(pos as int, stack_offset, alignment),
        ensures
            final(self)@ == old(self)@.stack_realigned(pos as int, stack_offset, alignment),
    {
        let ghost before = self@;
        let mut i: usize = 0;
        while i < self.ir.len()
            invariant
                i <= self.ir.len(),
                self.ir@.len() == before.ir.len(),
                self@ == (ProgramView { ir: self.ir@, ..before }),
                before.stack_realign_fits(pos as int, stack_offset, alignment),
                forall|j: int|
                    0 <= j < i ==> #[trigger] self.ir@[j] == if j > pos {
                        before.ir[j].stack_realigned(stack_offset, alignment)
                    } else {
                        before.ir[j]
                    },
                forall|j: int| i <= j < self.ir.len() ==> #[trigger] self.ir@[j] == before.ir[j],
            decreases self.ir.len() - i,
        {
            if i > pos {
                assert(before.ir[i as int].stack_realign_fits(stack_offset, alignment));
                match self.ir[i] {
                    IRNode::Pop64ToStack(offset) => {
                        self.ir[i] = IRNode::Pop64ToStack(bump(offset, stack_offset, alignment));
                    },
                    IRNode::Load64ToStack(value, offset) => {
                        self.ir[i] = IRNode::Load64ToStack(
                            value,
                            bump(offset, stack_offset, alignment),
                        );
                    },
                    IRNode::StackReadPush64(offset) => {
                        self.ir[i] = IRNode::StackReadPush64(
                            bump(offset, stack_offset, alignment),
                        );
                    },
                    IRNode::GlobalReadLoad64ToStack(global_pos, offset) => {
                        self.ir[i] = IRNode::GlobalReadLoad64ToStack(
                            global_pos,
                            bump(offset, stack_offset, alignment),
                        );
                    },
                    IRNode::StackReadLoad64ToStack(src, dst) => {
                        self.ir[i] = IRNode::StackReadLoad64ToStack(
                            bump(src, stack_offset, alignment),
                            bump(dst, stack_offset, alignment),
                        );
                    },
                    _ => {},
                }
            }
            i += 1;
        }
        proof {
            assert(self@.ir =~= before.stack_realigned(pos as int, stack_offset, alignment).ir);
        }
    }
}

impl<'a> Clone for CompiledProgram<'a> {
    fn clone(&self) -> (r: Self)
        ensures
            r@ == self@,
    {
        let mut globals: Vec<GlobalInfo<'a>> = Vec::new();
        let mut g: usize = 0;
        while g < self.globals.len()
            invariant
                g <= self.globals.len(),
                globals@ == self.globals@.take(g as int),
            decreases self.globals.len() - g,
        {
            globals.push(self.globals[g].clone());
            proof {
                assert(self.globals@.take(g + 1) =~= self.globals@.take(g as int).push(
                    self.globals@[g as int],
                ));
            }
            g += 1;
        }
        proof {
            assert(self.globals@.take(self.globals@.len() as int) =~= self.globals@);
        }
        let ir = self.ir.clone();
        let externals = self.externals.clone();
        let mut static_strings: Vec<(&'a str, usize)> = Vec::new();
        let mut k: usize = 0;
        while k < self.static_strings.len()
            invariant
                k <= self.static_strings.len(),
                static_strings@ == self.static_strings@.take(k as int),
            decreases self.static_strings.len() - k,
        {
            static_strings.push(self.static_strings[k]);
            proof {
                assert(self.static_strings@.take(k + 1) =~= self.static_strings@.take(
                    k as int,
                ).push(self.static_strings@[k as int]));
            }
            k += 1;
        }
        proof {
            assert(ir@ =~= self.ir@);
            assert(externals@ =~= self.externals@);
            assert(self.static_strings@.take(self.static_strings@.len() as int)
                =~= self.static_strings@);
        }
        CompiledProgram {
            ir,
            globals,
            externals,
            package_name: self.package_name,
            static_strings,
            static_strings_len: self.static_strings_len,
        }
    }
}

impl<'a> CompiledProgram<'a> {
    /// Whether nothing outside the `count` instructions from `pos` on
    /// points into them.
    fn nothing_points_into(&self, pos: usize, count: usize) -> (b: bool)
        requires
            pos + count <= self@.ir.len(),
        ensures
            b == self@.nothing_points_into(pos as int, count as int),
    {
        let len: usize = self.ir.len();
        assert(pos + count <= len);
        let end: usize = pos + count;
        let mut g: usize = 0;
        while g < self.globals.len()
            invariant
                g <= self.globals.len(),
                end == pos + count,
                forall|j: int|
                    0 <= j < g ==> ((#[trigger] self.globals@[j]).init matches CTimeVal::Function {
                        address,
                        ..
                    } ==> !(pos < address < pos + count)),
            decreases self.globals.len() - g,
        {
            match &self.globals[g].init {
                CTimeVal::Function { address, .. } => {
                    if pos < *address && *address < end {
                        assert(self@.globals[g as int].init is Function);
                        return false;
                    }
                },
                _ => {},
            }
            g += 1;
        }
        let mut i: usize = 0;
        while i < self.ir.len()
            invariant
                i <= self.ir.len(),
                end == pos + count,
                forall|j: int|
                    0 <= j < self.globals.len() ==> ((#[trigger] self.globals@[j]).init matches CTimeVal::Function {
                        address,
                        ..
                    } ==> !(pos < address < pos + count)),
                forall|j: int|
                    0 <= j < i && !(pos <= j < pos + count)
                        && (#[trigger] self.ir@[j]).is_reference() ==> !(pos <= j
                        + self.ir@[j].reference() < pos + count),
            decreases self.ir.len() - i,
        {
            if i < pos || i >= end {
                let inside = match self.ir[i] {
                    IRNode::CallFromOffset(off) | IRNode::PushAddressFromOffset(off) | IRNode::JumpFromOffset(
                        off,
                    ) => {
                        let target: i128 = i as i128 + off as i128;
                        pos as i128 <= target && target < end as i128
                    },
                    _ => false,
                };
                if inside {
                    assert(self@.ir[i as int].is_reference());
                    return false;
                }
            }
            i += 1;
        }
        true
    }

    /// Whether a function address of a global names index `pos`.
    fn function_starts_at(&self, pos: usize) -> (b: bool)
        ensures
            b == !(forall|g: int|
                0 <= g < self@.globals.len() ==> ((#[trigger] self@.globals[g]).init matches CTimeVal::Function {
                    address,
                    ..
                } ==> address != pos)),
    {
        let mut g: usize = 0;
        while g < self.globals.len()
            invariant
                g <= self.globals.len(),
                forall|j: int|
                    0 <= j < g ==> ((#[trigger] self.globals@[j]).init matches CTimeVal::Function {
                        address,
                        ..
                    } ==> address != pos),
            decreases self.globals.len() - g,
        {
            match &self.globals[g].init {
                CTimeVal::Function { address, .. } => {
                    if *address == pos {
                        assert(self@.globals[g as int].init is Function);
                        return true;
                    }
                },
                _ => {},
            }
            g += 1;
        }
        false
    }

    /// Whether the `count` instructions from `pos` on can be rewritten into
    /// `replacement`, or into nothing.
    pub fn can_rewrite(&self, pos: usize, count: usize, replacement: Option<IRNode<'a>>) -> (b:
        bool)
        ensures
            b == self@.can_rewrite(pos as int, count as int, replacement),
    {
        let len = self.ir.len();
        if count == 0 || count > len || pos > len - count {
            return false;
        }
        if !self.nothing_points_into(pos, count) {
            return false;
        }
        if !self.can_realign(pos, count, false) {
            return false;
        }
        match replacement {
            Some(IRNode::CallFromOffset(off))
            | Some(IRNode::PushAddressFromOffset(off))
            | Some(IRNode::JumpFromOffset(off)) => {
                let placed = realign_offset_exec(pos, off, pos, 1, true);
                let target: i128 = pos as i128 + placed;
                i16::MIN as i128 <= placed && placed <= i16::MAX as i128 && 0 <= target && target
                    < len as i128 - count as i128 + 1
            },
            Some(_) => true,
            None => pos + count != len || !self.function_starts_at(pos),
        }
    }

    /// Rewrites the `count` instructions from `pos` on into `replacement`,
    /// or into nothing.
    pub fn rewrite(&mut self, pos: usize, count: usize, replacement: Option<IRNode<'a>>)
        requires
            old(self)@.can_rewrite(pos as int, count as int, replacement),
        ensures
            final(self)@ == old(self)@.rewritten(pos as int, count as int, replacement),
    {
        proof {
            crate::ir_gen::realign::lemma_shift_then_insert_fits(
                self@,
                pos as int,
                count as int,
            );
        }
        let len: usize = self.ir.len();
        assert(pos + count <= len);
        self.shift_nodes(pos..=(pos + count - 1));
        match replacement {
            Some(node) => self.insert_node(pos, node),
            None => {},
        }
    }
}

} // verus!
