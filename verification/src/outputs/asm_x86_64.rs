use vstd::prelude::*;
use vstd::string::{StringExecFns, StringSliceAdditionalSpecFns};
use crate::ir_gen::ctimeval::CTimeVal;
use crate::ir_gen::external::ExternalInfo;
use crate::ir_gen::global::GlobalInfo;
use crate::ir_gen::ir::IRNode;
use crate::ir_gen::program::{CompiledProgram, ProgramView};
use crate::text::{append_decimal, append_signed_decimal, decimal, signed_decimal};

verus! {

/// Why a program could not be written as assembly.
#[derive(Debug, Clone, Copy, PartialEq, Eq, Structural)]
pub enum EmitError {
    /// A global is initialized with a value that the assembly has no form
    /// for: a signed integer or a type.
    UnsupportedInitializer,
}

/// A piece of a line with one number in it.
pub open spec fn operand(prefix: Seq<char>, n: nat, suffix: Seq<char>) -> Seq<char> {
    prefix + decimal(n) + suffix
}

/// A piece of a line with one number in it that may be negative.
pub open spec fn signed_operand(prefix: Seq<char>, n: int, suffix: Seq<char>) -> Seq<char> {
    prefix + signed_decimal(n) + suffix
}

/// The entry of an instruction that takes one line: the label of its
/// index, then the instruction `body`.
pub open spec fn inline_text(i: int, body: Seq<char>) -> Seq<char> {
    "    OP_"@ + decimal(i as nat) + ": "@ + body + "\n"@
}

/// The entry of an instruction that takes two lines `first` and `second`
/// under the label of its index.
pub open spec fn block_text(i: int, first: Seq<char>, second: Seq<char>) -> Seq<char> {
    "OP_"@ + decimal(i as nat) + ":\n    "@ + first + "\n    "@ + second + "\n"@
}

/// The lines of the instruction `node` that stands at index `i`. A relative
/// reference is written as the label of the instruction it names.
pub open spec fn node_text(i: int, node: IRNode) -> Seq<char> {
    match node {
        IRNode::Return { params_size } => if params_size == 0 {
            inline_text(i, "ret"@)
        } else {
            inline_text(i, operand("ret "@, params_size as nat, ""@))
        },
        IRNode::CallFromOffset(offset) => inline_text(
            i,
            signed_operand("call OP_"@, i + offset, ""@),
        ),
        IRNode::JumpFromOffset(offset) => inline_text(
            i,
            signed_operand("jump OP_"@, i + offset, ""@),
        ),
        IRNode::PushAddressFromOffset(offset) => inline_text(
            i,
            signed_operand("push qword OP_"@, i + offset, ""@),
        ),
        IRNode::Push64(value) => inline_text(i, operand("push qword "@, value as nat, ""@)),
        IRNode::StackAlloc(size) => inline_text(i, operand("sub rsp, "@, size as nat, ""@)),
        IRNode::StackDealloc(size) => inline_text(i, operand("add rsp, "@, size as nat, ""@)),
        IRNode::Load64ToStack(value, offset) => inline_text(
            i,
            operand("mov qword [rsp+"@, offset as nat, "], "@) + decimal(value as nat),
        ),
        IRNode::GlobalReadPush64(pos) => inline_text(
            i,
            operand("push qword [_GLOB_"@, pos as nat, "]"@),
        ),
        IRNode::StackReadPush64(offset) => inline_text(
            i,
            operand("push qword [rsp+"@, offset as nat, "]"@),
        ),
        IRNode::PushStaticStringPointer(pos) => inline_text(
            i,
            operand("push qword _STR_"@, pos as nat, ""@),
        ),
        IRNode::ExternalReadPush64(external) => if external.is_const {
            inline_text(
                i,
                "push "@ + mangled(true, external.package_name@, external.name@),
            )
        } else {
            inline_text(
                i,
                "push qword ["@ + mangled(false, external.package_name@, external.name@) + "]"@,
            )
        },
        IRNode::Pop64ToStack(offset) => block_text(
            i,
            "pop rax"@,
            signed_operand("mov [rsp+"@, offset - 8, "], rax"@),
        ),
        IRNode::GlobalReadLoad64ToStack(pos, offset) => block_text(
            i,
            operand("mov rax, [_GLOB_"@, pos as nat, "]"@),
            operand("mov [rsp+"@, offset as nat, "], rax"@),
        ),
        IRNode::StackReadLoad64ToStack(src, dst) => block_text(
            i,
            operand("mov rax, [rsp+"@, src as nat, "]"@),
            operand("mov [rsp+"@, dst as nat, "], rax"@),
        ),
        IRNode::Call => block_text(i, "pop rax"@, "call rax"@),
    }
}

/// The declaration of an external symbol.
pub open spec fn external_text(external: ExternalInfo) -> Seq<char> {
    if external.is_const {
        "extern _PKG_"@ + external.package_name@ + "_"@ + external.name@ + "\n"@
    } else {
        "extern _PKGv_"@ + external.package_name@ + "_"@ + external.name@ + "\n"@
    }
}

/// The first `n` of `bytes` in decimal, separated by commas.
pub open spec fn bytes_text(bytes: Seq<u8>, n: int) -> Seq<char>
    decreases n,
{
    if n <= 0 {
        Seq::empty()
    } else if n == 1 {
        decimal(bytes[0] as nat)
    } else {
        bytes_text(bytes, n - 1) + ","@ + decimal(bytes[n - 1] as nat)
    }
}

/// The definition of an interned string: its bytes under a label made of
/// its offset.
pub open spec fn string_text(entry: (&str, usize)) -> Seq<char> {
    "_STR_"@ + decimal(entry.1 as nat) + ": db "@ + bytes_text(
        entry.0.spec_bytes(),
        entry.0.spec_bytes().len() as int,
    ) + "\n"@
}

/// Whether the assembly has a form for the initializer of `global`.
pub open spec fn global_supported(global: GlobalInfo) -> bool {
    global.init is UInt || global.init is Function || global.init is StringSlice
}

/// The name under which other packages see a global or an external.
pub open spec fn mangled(is_const: bool, package: Seq<char>, name: Seq<char>) -> Seq<char> {
    if is_const {
        "_PKG_"@ + package + "_"@ + name
    } else {
        "_PKGv_"@ + package + "_"@ + name
    }
}

/// The lines that export `global` from the package `package`, if it is
/// exported.
pub open spec fn export_text(global: GlobalInfo, package: Seq<char>) -> Seq<char> {
    if global.is_exported {
        "global "@ + mangled(global.is_const, package, global.name@) + "\n"@ + mangled(
            global.is_const,
            package,
            global.name@,
        ) + " equ _GLOB_"@ + decimal(global.pos as nat) + "\n"@
    } else {
        Seq::empty()
    }
}

/// What stands between the label of a global and its value: a constant is
/// an alias, a variable eight bytes of data.
pub open spec fn binding(is_const: bool) -> Seq<char> {
    if is_const {
        " equ "@
    } else {
        ": dq "@
    }
}

/// The line that binds the slot at `pos` of the global segment to `value`.
pub open spec fn slot_text(pos: nat, is_const: bool, value: Seq<char>) -> Seq<char> {
    "_GLOB_"@ + decimal(pos) + binding(is_const) + value + "\n"@
}

/// The lines that define the value of `global`. A string takes two slots:
/// its address, and its length eight bytes further on.
pub open spec fn value_text(global: GlobalInfo) -> Seq<char> {
    match global.init {
        CTimeVal::UInt(value) => slot_text(
            global.pos as nat,
            global.is_const,
            operand(""@, value as nat, ""@),
        ),
        CTimeVal::Function { address, .. } => slot_text(
            global.pos as nat,
            global.is_const,
            operand("OP_"@, address as nat, ""@),
        ),
        CTimeVal::StringSlice(pointer, len) => slot_text(
            global.pos as nat,
            global.is_const,
            operand("_STR_"@, pointer as nat, ""@),
        ) + slot_text((global.pos + 8) as nat, global.is_const, operand(""@, len as nat, ""@)),
        _ => Seq::empty(),
    }
}

/// The lines of the first `n` external symbols.
pub open spec fn externals_text(externals: Seq<ExternalInfo>, n: int) -> Seq<char>
    decreases n,
{
    if n <= 0 {
        Seq::empty()
    } else {
        externals_text(externals, n - 1) + external_text(externals[n - 1])
    }
}

/// The lines of the first `n` interned strings.
pub open spec fn strings_text(strings: Seq<(&str, usize)>, n: int) -> Seq<char>
    decreases n,
{
    if n <= 0 {
        Seq::empty()
    } else {
        strings_text(strings, n - 1) + string_text(strings[n - 1])
    }
}

/// The lines of the first `n` globals.
pub open spec fn globals_text(globals: Seq<GlobalInfo>, package: Seq<char>, n: int) -> Seq<char>
    decreases n,
{
    if n <= 0 {
        Seq::empty()
    } else {
        globals_text(globals, package, n - 1) + export_text(globals[n - 1], package) + value_text(
            globals[n - 1],
        )
    }
}

/// The lines of the first `n` instructions.
pub open spec fn nodes_text(ir: Seq<IRNode>, n: int) -> Seq<char>
    decreases n,
{
    if n <= 0 {
        Seq::empty()
    } else {
        nodes_text(ir, n - 1) + node_text(n - 1, ir[n - 1])
    }
}

impl<'a> ProgramView<'a> {
    /// The package name under which the program's globals are exported:
    /// `main` where none was declared.
    pub open spec fn package_or_main(&self) -> Seq<char> {
        match self.package_name {
            Some(name) => name@,
            None => "main"@,
        }
    }

    /// Whether the program can be written as assembly.
    pub open spec fn emittable(&self) -> bool {
        forall|g: int| 0 <= g < self.globals.len() ==> global_supported(#[trigger] self.globals[g])
    }

    /// The program written as assembly: the data section with the external
    /// symbols, the interned strings and the globals, then the text
    /// section with one labelled entry for each instruction.
    pub open spec fn asm_text(&self) -> Seq<char> {
        "section .data\n"@ + externals_text(self.externals, self.externals.len() as int)
            + strings_text(self.static_strings, self.static_strings.len() as int) + globals_text(
            self.globals,
            self.package_or_main(),
            self.globals.len() as int,
        ) + "section .text\n"@ + nodes_text(self.ir, self.ir.len() as int)
    }
}

fn text_of(s: &str) -> (r: String)
    ensures
        r@ == s@,
{
    let mut r = String::new();
    r.append(s);
    assert(r@ =~= s@);
    r
}

fn operand_of(prefix: &str, n: u128, suffix: &str) -> (r: String)
    ensures
        r@ == operand(prefix@, n as nat, suffix@),
{
    let mut r = String::new();
    r.append(prefix);
    append_decimal(&mut r, n);
    r.append(suffix);
    assert(r@ =~= operand(prefix@, n as nat, suffix@));
    r
}

fn signed_operand_of(prefix: &str, n: i128, suffix: &str) -> (r: String)
    requires
        n > i128::MIN,
    ensures
        r@ == signed_operand(prefix@, n as int, suffix@),
{
    let mut r = String::new();
    r.append(prefix);
    append_signed_decimal(&mut r, n);
    r.append(suffix);
    assert(r@ =~= signed_operand(prefix@, n as int, suffix@));
    r
}

fn append_inline(out: &mut String, i: usize, body: &String)
    ensures
        final(out)@ == old(out)@ + inline_text(i as int, body@),
{
    out.append("    OP_");
    append_decimal(out, i as u128);
    out.append(": ");
    out.append(body.as_str());
    out.append("\n");
    assert(out@ =~= old(out)@ + inline_text(i as int, body@));
}

fn append_block(out: &mut String, i: usize, first: &String, second: &String)
    ensures
        final(out)@ == old(out)@ + block_text(i as int, first@, second@),
{
    out.append("OP_");
    append_decimal(out, i as u128);
    out.append(":\n    ");
    out.append(first.as_str());
    out.append("\n    ");
    out.append(second.as_str());
    out.append("\n");
    assert(out@ =~= old(out)@ + block_text(i as int, first@, second@));
}

/// The instruction that pushes an external symbol.
fn external_push(external: &ExternalInfo) -> (r: String)
    ensures
        r@ == if external.is_const {
            "push "@ + mangled(true, external.package_name@, external.name@)
        } else {
            "push qword ["@ + mangled(false, external.package_name@, external.name@) + "]"@
        },
{
    let mut r = String::new();
    if external.is_const {
        r.append("push ");
        append_mangled(&mut r, true, external.package_name, external.name);
        assert(r@ =~= "push "@ + mangled(true, external.package_name@, external.name@));
    } else {
        r.append("push qword [");
        append_mangled(&mut r, false, external.package_name, external.name);
        r.append("]");
        assert(r@ =~= "push qword ["@ + mangled(
            false,
            external.package_name@,
            external.name@,
        ) + "]"@);
    }
    r
}

/// The instruction that stores an immediate value on the stack.
fn load_immediate(value: u64, offset: usize) -> (r: String)
    ensures
        r@ == operand("mov qword [rsp+"@, offset as nat, "], "@) + decimal(value as nat),
{
    let mut r = operand_of("mov qword [rsp+", offset as u128, "], ");
    append_decimal(&mut r, value as u128);
    r
}

fn append_node(out: &mut String, i: usize, node: &IRNode)
    ensures
        final(out)@ == old(out)@ + node_text(i as int, *node),
{
    match *node {
        IRNode::Return { params_size } => {
            if params_size == 0 {
                append_inline(out, i, &text_of("ret"));
            } else {
                append_inline(out, i, &operand_of("ret ", params_size as u128, ""));
            }
        },
        IRNode::CallFromOffset(offset) => {
            append_inline(out, i, &signed_operand_of("call OP_", i as i128 + offset as i128, ""));
        },
        IRNode::JumpFromOffset(offset) => {
            append_inline(out, i, &signed_operand_of("jump OP_", i as i128 + offset as i128, ""));
        },
        IRNode::PushAddressFromOffset(offset) => {
            append_inline(
                out,
                i,
                &signed_operand_of("push qword OP_", i as i128 + offset as i128, ""),
            );
        },
        IRNode::Push64(value) => {
            append_inline(out, i, &operand_of("push qword ", value as u128, ""));
        },
        IRNode::StackAlloc(size) => {
            append_inline(out, i, &operand_of("sub rsp, ", size as u128, ""));
        },
        IRNode::StackDealloc(size) => {
            append_inline(out, i, &operand_of("add rsp, ", size as u128, ""));
        },
        IRNode::Load64ToStack(value, offset) => {
            append_inline(out, i, &load_immediate(value, offset));
        },
        IRNode::GlobalReadPush64(pos) => {
            append_inline(out, i, &operand_of("push qword [_GLOB_", pos as u128, "]"));
        },
        IRNode::StackReadPush64(offset) => {
            append_inline(out, i, &operand_of("push qword [rsp+", offset as u128, "]"));
        },
        IRNode::PushStaticStringPointer(pos) => {
            append_inline(out, i, &operand_of("push qword _STR_", pos as u128, ""));
        },
        IRNode::ExternalReadPush64(external) => {
            append_inline(out, i, &external_push(&external));
        },
        IRNode::Pop64ToStack(offset) => {
            append_block(
                out,
                i,
                &text_of("pop rax"),
                &signed_operand_of("mov [rsp+", offset as i128 - 8, "], rax"),
            );
        },
        IRNode::GlobalReadLoad64ToStack(pos, offset) => {
            append_block(
                out,
                i,
                &operand_of("mov rax, [_GLOB_", pos as u128, "]"),
                &operand_of("mov [rsp+", offset as u128, "], rax"),
            );
        },
        IRNode::StackReadLoad64ToStack(src, dst) => {
            append_block(
                out,
                i,
                &operand_of("mov rax, [rsp+", src as u128, "]"),
                &operand_of("mov [rsp+", dst as u128, "], rax"),
            );
        },
        IRNode::Call => {
            append_block(out, i, &text_of("pop rax"), &text_of("call rax"));
        },
    }
}

fn append_external(out: &mut String, external: &ExternalInfo)
    ensures
        final(out)@ == old(out)@ + external_text(*external),
{
    if external.is_const {
        out.append("extern _PKG_");
    } else {
        out.append("extern _PKGv_");
    }
    out.append(external.package_name);
    out.append("_");
    out.append(external.name);
    out.append("\n");
    assert(out@ =~= old(out)@ + external_text(*external));
}

fn append_string(out: &mut String, string: &str, pos: usize)
    ensures
        final(out)@ == old(out)@ + string_text((string, pos)),
{
    out.append("_STR_");
    append_decimal(out, pos as u128);
    out.append(": db ");
    let ghost start = out@;
    let bytes = string.as_bytes();
    let mut i: usize = 0;
    while i < bytes.len()
        invariant
            i <= bytes.len(),
            bytes@ == string.spec_bytes(),
            out@ == start + bytes_text(bytes@, i as int),
        decreases bytes.len() - i,
    {
        if i > 0 {
            out.append(",");
        }
        append_decimal(out, bytes[i] as u128);
        i += 1;
        assert(out@ =~= start + bytes_text(bytes@, i as int));
    }
    out.append("\n");
    assert(out@ =~= old(out)@ + string_text((string, pos)));
}

fn append_mangled(out: &mut String, is_const: bool, package: &str, name: &str)
    ensures
        final(out)@ == old(out)@ + mangled(is_const, package@, name@),
{
    if is_const {
        out.append("_PKG_");
    } else {
        out.append("_PKGv_");
    }
    out.append(package);
    out.append("_");
    out.append(name);
    assert(out@ =~= old(out)@ + mangled(is_const, package@, name@));
}

fn append_export(out: &mut String, global: &GlobalInfo, package: &str)
    ensures
        final(out)@ == old(out)@ + export_text(*global, package@),
{
    if global.is_exported {
        out.append("global ");
        append_mangled(out, global.is_const, package, global.name);
        out.append("\n");
        append_mangled(out, global.is_const, package, global.name);
        out.append(" equ _GLOB_");
        append_decimal(out, global.pos as u128);
        out.append("\n");
    }
    assert(out@ =~= old(out)@ + export_text(*global, package@));
}

fn append_slot(out: &mut String, pos: u128, is_const: bool, value: &String)
    ensures
        final(out)@ == old(out)@ + slot_text(pos as nat, is_const, value@),
{
    out.append("_GLOB_");
    append_decimal(out, pos);
    if is_const {
        out.append(" equ ");
    } else {
        out.append(": dq ");
    }
    out.append(value.as_str());
    out.append("\n");
    assert(out@ =~= old(out)@ + slot_text(pos as nat, is_const, value@));
}

fn append_value(out: &mut String, global: &GlobalInfo) -> (r: Result<(), EmitError>)
    ensures
        r is Ok == global_supported(*global),
        r is Ok ==> final(out)@ == old(out)@ + value_text(*global),
{
    match &global.init {
        CTimeVal::UInt(value) => {
            append_slot(out, global.pos as u128, global.is_const, &operand_of("", *value as u128, ""));
            Ok(())
        },
        CTimeVal::Function { address, .. } => {
            append_slot(
                out,
                global.pos as u128,
                global.is_const,
                &operand_of("OP_", *address as u128, ""),
            );
            Ok(())
        },
        CTimeVal::StringSlice(pointer, len) => {
            append_slot(
                out,
                global.pos as u128,
                global.is_const,
                &operand_of("_STR_", *pointer as u128, ""),
            );
            append_slot(
                out,
                global.pos as u128 + 8,
                global.is_const,
                &operand_of("", *len as u128, ""),
            );
            assert(out@ =~= old(out)@ + value_text(*global));
            Ok(())
        },
        _ => Err(EmitError::UnsupportedInitializer),
    }
}

/// Writes the program as assembly for NASM on x86-64.
pub fn gen_asm_x86_64_from_ir(cprog: &CompiledProgram) -> (r: Result<String, EmitError>)
    ensures
        r is Ok == cprog@.emittable(),
        r matches Ok(text) ==> text@ == cprog@.asm_text(),
{
    let mut out = String::new();
    out.append("section .data\n");
    let package_name = match cprog.get_package_name() {
        Some(name) => name,
        None => "main",
    };
    let ghost head = out@;
    for external in it: cprog.externals_iter()
        invariant
            it.seq() == cprog@.externals.as_ref(),
            out@ == head + externals_text(cprog@.externals, it.index() as int),
    {
        append_external(&mut out, external);
        assert(out@ =~= head + externals_text(cprog@.externals, it.index() + 1));
    }
    let ghost head = out@;
    for entry in it: cprog.static_strings_iter()
        invariant
            it.seq() == cprog@.static_strings.as_ref(),
            out@ == head + strings_text(cprog@.static_strings, it.index() as int),
    {
        append_string(&mut out, entry.0, entry.1);
        assert(out@ =~= head + strings_text(cprog@.static_strings, it.index() + 1));
    }
    let ghost head = out@;
    for global in it: cprog.globals_iter()
        invariant
            it.seq() == cprog@.globals.as_ref(),
            package_name@ == cprog@.package_or_main(),
            forall|g: int| 0 <= g < it.index() ==> global_supported(#[trigger] cprog@.globals[g]),
            out@ == head + globals_text(cprog@.globals, package_name@, it.index() as int),
    {
        append_export(&mut out, global, package_name);
        match append_value(&mut out, global) {
            Err(e) => {
                assert(!global_supported(cprog@.globals[it.index() as int]));
                return Err(e);
            },
            Ok(()) => {},
        }
        assert(out@ =~= head + globals_text(cprog@.globals, package_name@, it.index() + 1));
    }
    out.append("section .text\n");
    let ghost head = out@;
    let mut i: usize = 0;
    while i < cprog.count_ir()
        invariant
            i <= cprog@.ir.len(),
            out@ == head + nodes_text(cprog@.ir, i as int),
        decreases cprog@.ir.len() - i,
    {
        append_node(&mut out, i, cprog.node_at(i));
        i += 1;
        assert(out@ =~= head + nodes_text(cprog@.ir, i as int));
    }
    assert(out@ =~= cprog@.asm_text());
    Ok(out)
}

} // verus!
