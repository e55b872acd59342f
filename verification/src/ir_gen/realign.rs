use vstd::prelude::*;
use crate::ir_gen::ctimeval::CTimeVal;
use crate::ir_gen::global::GlobalInfo;
use crate::ir_gen::ir::IRNode;
use crate::ir_gen::program::ProgramView;

verus! {

/// The relative reference `off` held at index `host`, after `count`
/// instructions are inserted at index `pos` (`insert`) or removed from it.
/// A reference that reaches forward across `pos` grows by the signed
/// count, one that reaches backward across it shrinks by it, and any other
/// stays as it is. `host` is the index before the change.
pub open spec fn realign_offset(host: int, off: int, pos: int, count: int, insert: bool) -> int {
    let tgt = host + off;
    let delta = if insert { count } else { -count };
    if host < pos && pos <= tgt {
        off + delta
    } else if tgt < pos && pos <= host {
        off - delta
    } else {
        off
    }
}

/// The absolute instruction index `address`, after `count` instructions are
/// inserted at index `pos` (`insert`) or removed from it: only an index
/// beyond `pos` moves.
pub open spec fn realign_address(address: int, pos: int, count: int, insert: bool) -> int {
    if address > pos {
        if insert {
            address + count
        } else {
            address - count
        }
    } else {
        address
    }
}

/// Where the instruction at index `i` stands after `count` instructions are
/// inserted at `pos` (`insert`) or removed from it. For a removed
/// instruction the result has no meaning.
pub open spec fn moved_index(i: int, pos: int, count: int, insert: bool) -> int {
    if i >= pos {
        if insert {
            i + count
        } else {
            i - count
        }
    } else {
        i
    }
}

impl<'a> IRNode<'a> {
    /// The node as it reads after the change, when it stood at index `host`
    /// before it.
    pub open spec fn realigned(&self, host: int, pos: int, count: int, insert: bool) -> IRNode<'a> {
        if self.is_reference() {
            self.with_reference(realign_offset(host, self.reference(), pos, count, insert) as i16)
        } else {
            *self
        }
    }

    /// Whether the realigned reference can be held in the node.
    pub open spec fn realign_fits(&self, host: int, pos: int, count: int, insert: bool) -> bool {
        self.is_reference() ==> i16::MIN <= realign_offset(
            host,
            self.reference(),
            pos,
            count,
            insert,
        ) <= i16::MAX
    }
}

impl<'a> IRNode<'a> {
    /// The node as it is stored when it is inserted at index `pos`: the
    /// rule of realignment holds of its own reference too, as of one that
    /// is held at `pos`. So a reference that points backward moves by one,
    /// and who inserts it gives it one short of the distance; any other is
    /// stored as it is given.
    pub open spec fn placed(&self, pos: int) -> IRNode<'a> {
        self.realigned(pos, pos, 1, true)
    }

    /// Whether the node can be stored at index `pos`.
    pub open spec fn placing_fits(&self, pos: int) -> bool {
        self.realign_fits(pos, pos, 1, true)
    }
}

impl<'a> GlobalInfo<'a> {
    /// The global as it reads after the change: a function's address moves
    /// with the instructions, any other initializer stays.
    pub open spec fn realigned(&self, pos: int, count: int, insert: bool) -> GlobalInfo<'a> {
        match self.init {
            CTimeVal::Function { address, return_type_val } => GlobalInfo {
                init: CTimeVal::Function {
                    address: realign_address(address as int, pos, count, insert) as usize,
                    return_type_val,
                },
                ..*self
            },
            _ => *self,
        }
    }

    /// Whether the realigned address can be held in the global.
    pub open spec fn realign_fits(&self, pos: int, count: int, insert: bool) -> bool {
        self.init matches CTimeVal::Function { address, .. } ==> 0 <= realign_address(
            address as int,
            pos,
            count,
            insert,
        ) <= usize::MAX
    }
}

impl<'a> ProgramView<'a> {
    /// Whether every reference and every function address of the program
    /// can be realigned within the width of its operand.
    pub open spec fn realign_fits(&self, pos: int, count: int, insert: bool) -> bool {
        &&& forall|i: int|
            0 <= i < self.ir.len() ==> (#[trigger] self.ir[i]).realign_fits(i, pos, count, insert)
        &&& forall|g: int|
            0 <= g < self.globals.len() ==> (#[trigger] self.globals[g]).realign_fits(
                pos,
                count,
                insert,
            )
    }

    /// Whether the `count` instructions from `pos` on can be removed: every
    /// reference that stays, and every function address, can be realigned
    /// within the width of its operand. Nothing is asked of the references
    /// that leave.
    pub open spec fn shift_fits(&self, pos: int, count: int) -> bool {
        &&& forall|i: int|
            0 <= i < self.ir.len() && !(pos <= i < pos + count) ==> (#[trigger] self.ir[i]).realign_fits(
                i,
                pos,
                count,
                false,
            )
        &&& forall|g: int|
            0 <= g < self.globals.len() ==> (#[trigger] self.globals[g]).realign_fits(
                pos,
                count,
                false,
            )
    }

    /// The program with every relative reference and every function address
    /// realigned; the instructions themselves stay where they are.
    pub open spec fn realigned(&self, pos: int, count: int, insert: bool) -> ProgramView<'a> {
        ProgramView {
            ir: Seq::new(self.ir.len(), |i: int| self.ir[i].realigned(i, pos, count, insert)),
            globals: Seq::new(
                self.globals.len(),
                |g: int| self.globals[g].realigned(pos, count, insert),
            ),
            ..*self
        }
    }

    /// The program after `node` is inserted at index `pos`. The references
    /// that were in the program are realigned for the insertion, and the
    /// new node is placed (see `placed`).
    pub open spec fn inserted(&self, pos: int, node: IRNode<'a>) -> ProgramView<'a> {
        let r = self.realigned(pos, 1, true);
        ProgramView { ir: r.ir.insert(pos, node.placed(pos)), ..r }
    }

    /// The program after the `count` instructions from index `pos` on are
    /// removed.
    pub open spec fn shifted(&self, pos: int, count: int) -> ProgramView<'a> {
        let r = self.realigned(pos, count, false);
        ProgramView {
            ir: r.ir.subrange(0, pos) + r.ir.subrange(pos + count, r.ir.len() as int),
            ..r
        }
    }
}

/// A stack offset after the frame below it grew by `delta` bytes: an
/// offset beyond `threshold` moves with the frame, any other stays.
pub open spec fn bump_offset(offset: usize, threshold: usize, delta: usize) -> int {
    if offset > threshold {
        offset + delta
    } else {
        offset as int
    }
}

impl<'a> IRNode<'a> {
    /// The node with each stack offset it holds bumped.
    pub open spec fn stack_realigned(&self, threshold: usize, delta: usize) -> IRNode<'a> {
        match self {
            IRNode::Pop64ToStack(offset) => IRNode::Pop64ToStack(
                bump_offset(*offset, threshold, delta) as usize,
            ),
            IRNode::Load64ToStack(value, offset) => IRNode::Load64ToStack(
                *value,
                bump_offset(*offset, threshold, delta) as usize,
            ),
            IRNode::StackReadPush64(offset) => IRNode::StackReadPush64(
                bump_offset(*offset, threshold, delta) as usize,
            ),
            IRNode::GlobalReadLoad64ToStack(pos, offset) => IRNode::GlobalReadLoad64ToStack(
                *pos,
                bump_offset(*offset, threshold, delta) as usize,
            ),
            IRNode::StackReadLoad64ToStack(src, dst) => IRNode::StackReadLoad64ToStack(
                bump_offset(*src, threshold, delta) as usize,
                bump_offset(*dst, threshold, delta) as usize,
            ),
            _ => *self,
        }
    }

    /// Whether each bumped stack offset can be held in the node.
    pub open spec fn stack_realign_fits(&self, threshold: usize, delta: usize) -> bool {
        match self {
            IRNode::Pop64ToStack(offset) => bump_offset(*offset, threshold, delta) <= usize::MAX,
            IRNode::Load64ToStack(_, offset) => bump_offset(*offset, threshold, delta)
                <= usize::MAX,
            IRNode::StackReadPush64(offset) => bump_offset(*offset, threshold, delta)
                <= usize::MAX,
            IRNode::GlobalReadLoad64ToStack(_, offset) => bump_offset(*offset, threshold, delta)
                <= usize::MAX,
            IRNode::StackReadLoad64ToStack(src, dst) => bump_offset(*src, threshold, delta)
                <= usize::MAX && bump_offset(*dst, threshold, delta) <= usize::MAX,
            _ => true,
        }
    }
}

impl<'a> ProgramView<'a> {
    /// Whether the stack offsets of the instructions after index `after` can
    /// be bumped within the width of their operands.
    pub open spec fn stack_realign_fits(&self, after: int, threshold: usize, delta: usize) -> bool {
        forall|i: int|
            after < i < self.ir.len() ==> (#[trigger] self.ir[i]).stack_realign_fits(
                threshold,
                delta,
            )
    }

    /// The program with the stack offsets of the instructions after index
    /// `after` bumped; the instructions up to `after` stay as they are.
    pub open spec fn stack_realigned(&self, after: int, threshold: usize, delta: usize)
        -> ProgramView<'a> {
        ProgramView {
            ir: Seq::new(
                self.ir.len(),
                |i: int|
                    if i > after {
                        self.ir[i].stack_realigned(threshold, delta)
                    } else {
                        self.ir[i]
                    },
            ),
            ..*self
        }
    }
}

impl<'a> ProgramView<'a> {
    /// Every relative reference names an instruction of the program.
    pub open spec fn references_valid(&self) -> bool {
        forall|i: int|
            0 <= i < self.ir.len() && (#[trigger] self.ir[i]).is_reference() ==> 0 <= i
                + self.ir[i].reference() < self.ir.len()
    }

    /// Every function address of a global names an instruction of the
    /// program.
    pub open spec fn addresses_valid(&self) -> bool {
        forall|g: int|
            0 <= g < self.globals.len() ==> ((#[trigger] self.globals[g]).init matches CTimeVal::Function {
                address,
                ..
            } ==> address < self.ir.len())
    }

    /// No reference held outside the `count` instructions from `pos` on
    /// names one of them, and no function address lies behind the first of
    /// them.
    pub open spec fn nothing_points_into(&self, pos: int, count: int) -> bool {
        &&& forall|i: int|
            0 <= i < self.ir.len() && !(pos <= i < pos + count)
                && (#[trigger] self.ir[i]).is_reference() ==> !(pos <= i + self.ir[i].reference()
                < pos + count)
        &&& forall|g: int|
            0 <= g < self.globals.len() ==> ((#[trigger] self.globals[g]).init matches CTimeVal::Function {
                address,
                ..
            } ==> !(pos < address < pos + count))
    }
}

impl<'a> ProgramView<'a> {
    /// Whether the `count` instructions from `pos` on can be rewritten
    /// into `replacement`, or into nothing: nothing outside them points
    /// into them, the realignment fits, and afterwards the reference of the
    /// replacement, as it is placed, and every function address that named
    /// the first of them still name an instruction.
    pub open spec fn can_rewrite(&self, pos: int, count: int, replacement: Option<IRNode<'a>>)
        -> bool {
        &&& 0 <= pos
        &&& 0 < count
        &&& pos + count <= self.ir.len()
        &&& self.nothing_points_into(pos, count)
        &&& self.realign_fits(pos, count, false)
        &&& match replacement {
            Some(node) => node.placing_fits(pos) && (node.is_reference() ==> 0 <= pos
                + node.placed(pos).reference() < self.ir.len() - count + 1),
            None => pos + count == self.ir.len() ==> forall|g: int|
                0 <= g < self.globals.len() ==> ((#[trigger] self.globals[g]).init matches CTimeVal::Function {
                    address,
                    ..
                } ==> address != pos),
        }
    }

    /// The program after the `count` instructions from `pos` on are
    /// rewritten into `replacement`, or into nothing.
    pub open spec fn rewritten(&self, pos: int, count: int, replacement: Option<IRNode<'a>>)
        -> ProgramView<'a> {
        match replacement {
            Some(node) => self.shifted(pos, count).inserted(pos, node),
            None => self.shifted(pos, count),
        }
    }
}

/// Removing right away the instruction that was just inserted restores the
/// program: the instructions, every relative reference and every function
/// address are what they were.
pub proof fn lemma_insert_then_shift_restores<'a>(p: ProgramView<'a>, pos: int, node: IRNode<'a>)
    requires
        0 <= pos <= p.ir.len(),
        p.realign_fits(pos, 1, true),
        node.placing_fits(pos),
    ensures
        p.inserted(pos, node).realign_fits(pos, 1, false),
        p.inserted(pos, node).shifted(pos, 1) == p,
{
    let q = p.inserted(pos, node);
    let r = q.shifted(pos, 1);
    assert forall|i: int| 0 <= i < q.ir.len() implies (#[trigger] q.ir[i]).realign_fits(
        i,
        pos,
        1,
        false,
    ) by {
        if i < pos {
            assert(p.ir[i].realign_fits(i, pos, 1, true));
        } else if i > pos {
            assert(p.ir[i - 1].realign_fits(i - 1, pos, 1, true));
        } else {
            let off = node.placed(pos).reference();
            assert(i16::MIN <= off <= i16::MAX);
        }
    }
    assert forall|g: int| 0 <= g < q.globals.len() implies (#[trigger] q.globals[g]).realign_fits(
        pos,
        1,
        false,
    ) by {
        assert(p.globals[g].realign_fits(pos, 1, true));
    }
    assert(r.ir.len() == p.ir.len());
    assert forall|i: int| 0 <= i < p.ir.len() implies r.ir[i] == p.ir[i] by {
        assert(p.ir[i].realign_fits(i, pos, 1, true));
    }
    assert(r.ir =~= p.ir);
    assert forall|g: int| 0 <= g < p.globals.len() implies r.globals[g] == p.globals[g] by {
        assert(p.globals[g].realign_fits(pos, 1, true));
    }
    assert(r.globals =~= p.globals);
}

/// After an insertion every reference that was in the program names the
/// place to which its target moved, and the instruction there is the one
/// it named before.
pub proof fn lemma_insert_keeps_targets<'a>(
    p: ProgramView<'a>,
    pos: int,
    node: IRNode<'a>,
    i: int,
)
    requires
        0 <= pos <= p.ir.len(),
        p.realign_fits(pos, 1, true),
        0 <= i < p.ir.len(),
        p.ir[i].is_reference(),
    ensures
        ({
            let q = p.inserted(pos, node);
            let host = moved_index(i, pos, 1, true);
            let target = i + p.ir[i].reference();
            &&& q.ir[host] == p.ir[i].realigned(i, pos, 1, true)
            &&& q.ir[host].is_reference()
            &&& host + q.ir[host].reference() == moved_index(target, pos, 1, true)
            &&& 0 <= target < p.ir.len() ==> q.ir[moved_index(target, pos, 1, true)]
                == p.ir[target].realigned(target, pos, 1, true)
        }),
{
    assert(p.ir[i].realign_fits(i, pos, 1, true));
}

/// After a removal every reference that stays in the program, and whose
/// target stays, names the place to which its target moved, and the
/// instruction there is the one it named before.
pub proof fn lemma_shift_keeps_targets<'a>(p: ProgramView<'a>, pos: int, count: int, i: int)
    requires
        0 <= pos,
        0 <= count,
        pos + count <= p.ir.len(),
        p.shift_fits(pos, count),
        0 <= i < p.ir.len(),
        !(pos <= i < pos + count),
        p.ir[i].is_reference(),
        !(pos <= i + p.ir[i].reference() < pos + count),
    ensures
        ({
            let q = p.shifted(pos, count);
            let host = moved_index(i, pos, count, false);
            let target = i + p.ir[i].reference();
            &&& q.ir[host] == p.ir[i].realigned(i, pos, count, false)
            &&& q.ir[host].is_reference()
            &&& host + q.ir[host].reference() == moved_index(target, pos, count, false)
            &&& 0 <= target < p.ir.len() ==> q.ir[moved_index(target, pos, count, false)]
                == p.ir[target].realigned(target, pos, count, false)
        }),
{
    assert(p.ir[i].realign_fits(i, pos, count, false));
}

/// In a program of at most `i16::MAX` instructions whose references are
/// valid, an instruction can be inserted anywhere. The references stay
/// valid if that of the new instruction, as it is placed, is.
pub proof fn lemma_insert_keeps_references_valid<'a>(
    p: ProgramView<'a>,
    pos: int,
    node: IRNode<'a>,
)
    requires
        0 <= pos <= p.ir.len(),
        p.ir.len() < i16::MAX,
        p.references_valid(),
        p.addresses_valid(),
        node.placing_fits(pos),
        node.is_reference() ==> 0 <= pos + node.placed(pos).reference() <= p.ir.len(),
    ensures
        p.realign_fits(pos, 1, true),
        p.inserted(pos, node).references_valid(),
        p.inserted(pos, node).addresses_valid(),
{
    let q = p.inserted(pos, node);
    assert forall|i: int| 0 <= i < p.ir.len() implies (#[trigger] p.ir[i]).realign_fits(
        i,
        pos,
        1,
        true,
    ) by {}
    assert forall|g: int| 0 <= g < p.globals.len() implies (#[trigger] p.globals[g]).realign_fits(
        pos,
        1,
        true,
    ) by {}
    assert forall|i: int| 0 <= i < q.ir.len() && (#[trigger] q.ir[i]).is_reference() implies 0 <= i
        + q.ir[i].reference() < q.ir.len() by {
        if i < pos {
            assert(p.ir[i].realign_fits(i, pos, 1, true));
        } else if i > pos {
            assert(p.ir[i - 1].realign_fits(i - 1, pos, 1, true));
        }
    }
    assert forall|g: int| 0 <= g < q.globals.len() implies ((#[trigger] q.globals[g]).init matches CTimeVal::Function {
        address,
        ..
    } ==> address < q.ir.len()) by {
        assert(p.globals[g].realign_fits(pos, 1, true));
    }
}

/// In a program of at most `i16::MAX` instructions whose references are
/// valid, a run of instructions that nothing outside it points into can be
/// removed, and the references stay valid.
pub proof fn lemma_shift_keeps_references_valid<'a>(p: ProgramView<'a>, pos: int, count: int)
    requires
        0 <= pos,
        0 <= count,
        pos + count <= p.ir.len(),
        p.ir.len() <= i16::MAX,
        p.references_valid(),
        p.addresses_valid(),
        p.nothing_points_into(pos, count),
        forall|g: int|
            0 <= g < p.globals.len() ==> ((#[trigger] p.globals[g]).init matches CTimeVal::Function {
                address,
                ..
            } ==> address != pos || pos + count < p.ir.len()),
    ensures
        p.shift_fits(pos, count),
        p.shifted(pos, count).references_valid(),
        p.shifted(pos, count).addresses_valid(),
{
    let q = p.shifted(pos, count);
    assert forall|i: int| 0 <= i < p.ir.len() implies (#[trigger] p.ir[i]).realign_fits(
        i,
        pos,
        count,
        false,
    ) by {}
    assert forall|g: int| 0 <= g < p.globals.len() implies (#[trigger] p.globals[g]).realign_fits(
        pos,
        count,
        false,
    ) by {}
    assert forall|i: int| 0 <= i < q.ir.len() && (#[trigger] q.ir[i]).is_reference() implies 0 <= i
        + q.ir[i].reference() < q.ir.len() by {
        if i < pos {
            assert(p.ir[i].realign_fits(i, pos, count, false));
            assert(q.ir[i] == p.ir[i].realigned(i, pos, count, false));
        } else {
            assert(p.ir[i + count].realign_fits(i + count, pos, count, false));
            assert(q.ir[i] == p.ir[i + count].realigned(i + count, pos, count, false));
        }
    }
    assert forall|g: int| 0 <= g < q.globals.len() implies ((#[trigger] q.globals[g]).init matches CTimeVal::Function {
        address,
        ..
    } ==> address < q.ir.len()) by {
        assert(p.globals[g].realign_fits(pos, count, false));
    }
}

/// After an insertion a function address names the instruction it named
/// before; an address that named the place of the insertion names the new
/// instruction.
pub proof fn lemma_insert_keeps_addresses<'a>(
    p: ProgramView<'a>,
    pos: int,
    node: IRNode<'a>,
    g: int,
)
    requires
        0 <= pos <= p.ir.len(),
        p.realign_fits(pos, 1, true),
        0 <= g < p.globals.len(),
        p.globals[g].init is Function,
        p.globals[g].init->address < p.ir.len(),
    ensures
        ({
            let q = p.inserted(pos, node);
            let before = p.globals[g].init->address as int;
            let after = q.globals[g].init->address as int;
            &&& q.globals[g].init is Function
            &&& after == realign_address(before, pos, 1, true)
            &&& before != pos ==> q.ir[after] == p.ir[before].realigned(before, pos, 1, true)
            &&& before == pos ==> q.ir[after] == node.placed(pos)
        }),
{
    assert(p.globals[g].realign_fits(pos, 1, true));
}

/// After a removal a function address that named an instruction outside
/// the removed run names the same instruction; one that named the first
/// removed instruction names the instruction that followed the run.
pub proof fn lemma_shift_keeps_addresses<'a>(p: ProgramView<'a>, pos: int, count: int, g: int)
    requires
        0 <= pos,
        0 < count,
        pos + count <= p.ir.len(),
        p.shift_fits(pos, count),
        0 <= g < p.globals.len(),
        p.globals[g].init is Function,
        p.globals[g].init->address < p.ir.len(),
        !(pos < p.globals[g].init->address < pos + count),
    ensures
        ({
            let q = p.shifted(pos, count);
            let before = p.globals[g].init->address as int;
            let after = q.globals[g].init->address as int;
            &&& q.globals[g].init is Function
            &&& after == realign_address(before, pos, count, false)
            &&& before != pos ==> q.ir[after] == p.ir[before].realigned(before, pos, count, false)
            &&& before == pos && pos + count < p.ir.len() ==> q.ir[after] == p.ir[pos
                + count].realigned(pos + count, pos, count, false)
        }),
{
    assert(p.globals[g].realign_fits(pos, count, false));
}

/// After a run that nothing points into is removed, an instruction can be
/// inserted in its place.
pub proof fn lemma_shift_then_insert_fits<'a>(p: ProgramView<'a>, pos: int, count: int)
    requires
        0 <= pos,
        0 < count,
        pos + count <= p.ir.len(),
        p.nothing_points_into(pos, count),
        p.realign_fits(pos, count, false),
    ensures
        p.shifted(pos, count).realign_fits(pos, 1, true),
{
    let q = p.shifted(pos, count);
    assert forall|i: int| 0 <= i < q.ir.len() implies (#[trigger] q.ir[i]).realign_fits(
        i,
        pos,
        1,
        true,
    ) by {
        if i < pos {
            assert(p.ir[i].realign_fits(i, pos, count, false));
            assert(q.ir[i] == p.ir[i].realigned(i, pos, count, false));
        } else {
            assert(p.ir[i + count].realign_fits(i + count, pos, count, false));
            assert(q.ir[i] == p.ir[i + count].realigned(i + count, pos, count, false));
        }
    }
    assert forall|g: int| 0 <= g < q.globals.len() implies (#[trigger] q.globals[g]).realign_fits(
        pos,
        1,
        true,
    ) by {
        assert(p.globals[g].realign_fits(pos, count, false));
    }
}

/// A rewrite keeps every relative reference on an instruction.
pub proof fn lemma_rewrite_keeps_references<'a>(
    p: ProgramView<'a>,
    pos: int,
    count: int,
    replacement: Option<IRNode<'a>>,
)
    requires
        p.references_valid(),
        p.can_rewrite(pos, count, replacement),
    ensures
        p.rewritten(pos, count, replacement).references_valid(),
{
    let q = p.shifted(pos, count);
    assert forall|i: int| 0 <= i < q.ir.len() && (#[trigger] q.ir[i]).is_reference() implies 0 <= i
        + q.ir[i].reference() < q.ir.len() by {
        if i < pos {
            assert(p.ir[i].realign_fits(i, pos, count, false));
            assert(q.ir[i] == p.ir[i].realigned(i, pos, count, false));
        } else {
            assert(p.ir[i + count].realign_fits(i + count, pos, count, false));
            assert(q.ir[i] == p.ir[i + count].realigned(i + count, pos, count, false));
        }
    }
    match replacement {
        Some(node) => {
            lemma_shift_then_insert_fits(p, pos, count);
            let r = q.inserted(pos, node);
            assert forall|i: int|
                0 <= i < r.ir.len() && (#[trigger] r.ir[i]).is_reference() implies 0 <= i
                + r.ir[i].reference() < r.ir.len() by {
                if i < pos {
                    assert(q.ir[i].realign_fits(i, pos, 1, true));
                } else if i > pos {
                    assert(q.ir[i - 1].realign_fits(i - 1, pos, 1, true));
                }
            }
        },
        None => {},
    }
}

/// A rewrite keeps every function address of a global on an instruction.
pub proof fn lemma_rewrite_keeps_addresses<'a>(
    p: ProgramView<'a>,
    pos: int,
    count: int,
    replacement: Option<IRNode<'a>>,
)
    requires
        p.addresses_valid(),
        p.can_rewrite(pos, count, replacement),
    ensures
        p.rewritten(pos, count, replacement).addresses_valid(),
{
    let q = p.shifted(pos, count);
    match replacement {
        Some(node) => {
            lemma_shift_then_insert_fits(p, pos, count);
            let r = q.inserted(pos, node);
            assert forall|g: int| 0 <= g < r.globals.len() implies ((#[trigger] r.globals[g]).init matches CTimeVal::Function {
                address,
                ..
            } ==> address < r.ir.len()) by {
                assert(q.globals[g].realign_fits(pos, 1, true));
                assert(p.globals[g].realign_fits(pos, count, false));
            }
        },
        None => {
            assert forall|g: int| 0 <= g < q.globals.len() implies ((#[trigger] q.globals[g]).init matches CTimeVal::Function {
                address,
                ..
            } ==> address < q.ir.len()) by {
                assert(p.globals[g].realign_fits(pos, count, false));
            }
        },
    }
}

/// Where the instruction at index `i`, which stands outside the `count`
/// instructions from `pos` on, stands after these are rewritten; `replaced`
/// says whether one instruction takes their place.
pub open spec fn rewritten_index(i: int, pos: int, count: int, replaced: bool) -> int {
    if i < pos {
        i
    } else if replaced {
        i - count + 1
    } else {
        i - count
    }
}

/// A rewrite leaves every other reference on its target: a reference that
/// is held outside the rewritten instructions names, after the rewrite,
/// the place to which the instruction it named has moved, and that
/// instruction is there, unchanged but for a reference of its own.
pub proof fn lemma_rewrite_keeps_targets<'a>(
    p: ProgramView<'a>,
    pos: int,
    count: int,
    replacement: Option<IRNode<'a>>,
    i: int,
)
    requires
        p.can_rewrite(pos, count, replacement),
        0 <= i < p.ir.len(),
        !(pos <= i < pos + count),
        p.ir[i].is_reference(),
    ensures
        ({
            let q = p.rewritten(pos, count, replacement);
            let host = rewritten_index(i, pos, count, replacement is Some);
            let target = i + p.ir[i].reference();
            let moved = rewritten_index(target, pos, count, replacement is Some);
            &&& 0 <= host < q.ir.len()
            &&& q.ir[host].is_reference()
            &&& q.ir[host] == p.ir[i].with_reference(q.ir[host].reference() as i16)
            &&& host + q.ir[host].reference() == moved
            &&& !(pos <= target < pos + count)
            &&& 0 <= target < p.ir.len() ==> {
                &&& 0 <= moved < q.ir.len()
                &&& q.ir[moved].is_reference() == p.ir[target].is_reference()
                &&& !p.ir[target].is_reference() ==> q.ir[moved] == p.ir[target]
            }
        }),
{
    let s = p.shifted(pos, count);
    let target = i + p.ir[i].reference();
    assert(p.ir[i].realign_fits(i, pos, count, false));
    let h1 = moved_index(i, pos, count, false);
    assert(s.ir[h1] == p.ir[i].realigned(i, pos, count, false));
    if 0 <= target < p.ir.len() {
        let t1 = moved_index(target, pos, count, false);
        assert(s.ir[t1] == p.ir[target].realigned(target, pos, count, false));
    }
    match replacement {
        Some(node) => {
            lemma_shift_then_insert_fits(p, pos, count);
            assert(s.ir[h1].realign_fits(h1, pos, 1, true));
            if 0 <= target < p.ir.len() {
                let t1 = moved_index(target, pos, count, false);
                assert(s.ir[t1].realign_fits(t1, pos, 1, true));
            }
        },
        None => {},
    }
}

} // verus!
