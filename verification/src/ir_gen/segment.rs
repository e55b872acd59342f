use vstd::prelude::*;
use crate::ir_gen::gen_laws::lemma_gen_stmt_scopes;
use crate::ir_gen::gen_model::{
    decl_type_val,
    declared,
    gen_decl_spec,
    gen_expr_spec,
    gen_stmt_spec,
    gen_stmts_spec,
    generate_spec,
    resolve_annotation_spec,
    resolve_expr_spec,
    GenView,
};
use crate::ir_gen::gen_scopes::{
    lemma_gen_expr_same_scopes,
    lemma_resolve_annotation_same_scopes,
    lemma_resolve_expr_same_scopes,
};
use crate::ir_gen::gen_stable::{
    lemma_drop_value_stable,
    lemma_gen_expr_stable,
    lemma_resolve_annotation_stable,
    lemma_resolve_expr_stable,
};
use crate::ir_gen::ir::IRNode;
use crate::ir_gen::typeval::TypeVal;
use crate::ir_gen::variable::Variable;
use crate::parser::ast::{Expr, Stmt};

verus! {

/// Bytes that the variables of the global scope take in the global
/// segment: the sizes of those that have a place there.
pub open spec fn segment_size(vars: Seq<Variable>) -> nat
    decreases vars.len(),
{
    if vars.len() == 0 {
        0
    } else {
        segment_size(vars.drop_first()) + if vars[0].global_pos is Some {
            vars[0].type_val.size_of() as nat
        } else {
            0
        }
    }
}

/// Whether the global segment is laid out without gaps or overlaps: every
/// global stands behind those declared before it, and the segment is as
/// large as all of them together.
pub open spec fn laid_out(st: GenView) -> bool {
    &&& st.global_sz == segment_size(st.global_scope)
    &&& forall|i: int|
        0 <= i < st.global_scope.len() ==> ((#[trigger] st.global_scope[i]).global_pos matches Some(
            pos,
        ) ==> pos == segment_size(st.global_scope.skip(i + 1)))
}

/// A variable declared in the global scope stands in front of the others.
pub proof fn lemma_add_global_laid_out<'a>(st: GenView<'a>, var: Variable<'a>, grown: usize)
    requires
        laid_out(st),
        match var.global_pos {
            Some(pos) => pos == st.global_sz && grown == st.global_sz + var.type_val.size_of(),
            None => grown == st.global_sz,
        },
    ensures
        laid_out(GenView { global_sz: grown, ..st.add_global(var) }),
{
    let after = GenView { global_sz: grown, ..st.add_global(var) };
    assert(after.global_scope.drop_first() =~= st.global_scope);
    assert forall|i: int| 0 <= i < after.global_scope.len() implies ((#[trigger] after.global_scope[i]).global_pos matches Some(
        pos,
    ) ==> pos == segment_size(after.global_scope.skip(i + 1))) by {
        if i == 0 {
            assert(after.global_scope.skip(1) =~= st.global_scope);
        } else {
            assert(after.global_scope[i] == st.global_scope[i - 1]);
            assert(after.global_scope.skip(i + 1) =~= st.global_scope.skip(i));
        }
    }
}

/// A statement at the top of a program keeps the global segment laid out.
pub proof fn lemma_top_statement_laid_out<'a>(st: GenView<'a>, stmt: &Stmt<'a>)
    requires
        laid_out(st),
        st.scopes.len() == 0,
    ensures
        gen_stmt_spec(st, stmt) matches Ok(after) ==> laid_out(after) && after.scopes.len() == 0,
{
    lemma_gen_stmt_scopes(st, stmt);
    match stmt {
        Stmt::Expr(expr, _) => {
            lemma_gen_expr_same_scopes(st, expr);
            lemma_gen_expr_stable(st, expr, 0);
            match gen_expr_spec(st, expr) {
                Ok(lowered) => lemma_drop_value_stable(lowered, st, 0),
                Err(_) => {},
            }
        },
        Stmt::PackageDecl(_) => {},
        Stmt::ConstDecl(name, init, type_expr, is_exported) => {
            lemma_top_declaration_laid_out(st, *name, init, type_expr, true, *is_exported);
        },
        Stmt::VarDecl(name, init, type_expr, is_exported) => {
            lemma_top_declaration_laid_out(st, *name, init, type_expr, false, *is_exported);
        },
    }
}

/// A declaration at the top of a program takes its room behind the
/// globals declared before it.
pub proof fn lemma_top_declaration_laid_out<'a>(
    st: GenView<'a>,
    name: &'a str,
    init: &Option<Expr<'a>>,
    type_expr: &Option<Expr<'a>>,
    is_const: bool,
    is_exported: bool,
)
    requires
        laid_out(st),
        st.scopes.len() == 0,
    ensures
        gen_decl_spec(st, name, init, type_expr, is_const, is_exported) matches Ok(after)
            ==> laid_out(after),
{
    lemma_resolve_annotation_same_scopes(st, type_expr);
    lemma_resolve_annotation_stable(st, type_expr, 0);
    match resolve_annotation_spec(st, type_expr) {
        Ok((typed, annotated)) => match init {
            Some(expr) => {
                lemma_resolve_expr_same_scopes(typed, expr);
                lemma_resolve_expr_stable(typed, expr, 0);
                match resolve_expr_spec(typed, expr) {
                    Ok((resolved, symbol)) => {
                        let type_val = decl_type_val(annotated, symbol);
                        match symbol.const_val {
                            Some(value) => match resolved.new_global_pos(type_val) {
                                Ok((placed, pos)) => {
                                    lemma_add_global_laid_out(
                                        resolved,
                                        declared(
                                            name,
                                            type_val,
                                            Some(pos),
                                            None,
                                            if is_const {
                                                Some(value)
                                            } else {
                                                None
                                            },
                                        ),
                                        placed.global_sz,
                                    );
                                },
                                Err(_) => {},
                            },
                            None => {},
                        }
                    },
                    Err(_) => {},
                }
            },
            None => {
                let type_val = match annotated {
                    Some(t) => t,
                    None => TypeVal::UInt64,
                };
                if !is_exported {
                    match typed.new_global_pos(type_val) {
                        Ok((placed, pos)) => {
                            if is_const {
                                lemma_add_global_laid_out(
                                    typed,
                                    declared(name, type_val, Some(pos), None, None),
                                    placed.global_sz,
                                );
                            } else {
                                match placed.emit(IRNode::StackAlloc(type_val.size_of())).grow(
                                    type_val.size_of(),
                                ) {
                                    Ok(allocated) => {
                                        lemma_add_global_laid_out(
                                            typed,
                                            declared(
                                                name,
                                                type_val,
                                                Some(pos),
                                                Some(allocated.stack_sz),
                                                None,
                                            ),
                                            placed.global_sz,
                                        );
                                    },
                                    Err(_) => {},
                                }
                            }
                        },
                        Err(_) => {},
                    }
                }
            },
        },
        Err(_) => {},
    }
}

/// The statements at the top of a program keep the global segment laid
/// out.
pub proof fn lemma_top_statements_laid_out<'a>(st: GenView<'a>, ast: &Vec<Stmt<'a>>, from: int)
    requires
        laid_out(st),
        st.scopes.len() == 0,
    ensures
        gen_stmts_spec(st, ast, from) matches Ok(after) ==> laid_out(after),
    decreases ast.len() - from,
{
    if 0 <= from < ast.len() {
        lemma_top_statement_laid_out(st, &ast[from]);
        match gen_stmt_spec(st, &ast[from]) {
            Ok(next) => lemma_top_statements_laid_out(next, ast, from + 1),
            Err(_) => {},
        }
    }
}

/// The global segment of a generated program is laid out without gaps or
/// overlaps, and it is as large as the globals of the program together.
pub proof fn lemma_generated_segment_laid_out<'a>(ast: &Vec<Stmt<'a>>)
    ensures
        generate_spec(GenView::initial(), ast) matches Ok(after) ==> laid_out(after),
{
    let st = GenView::<'a>::initial();
    let print = crate::ir_gen::external::ExternalInfo {
        name: "print",
        package_name: "rt",
        is_const: true,
    };
    let listed = GenView {
        program: crate::ir_gen::program::ProgramView {
            externals: st.program.externals.push(print),
            ..st.program
        },
        ..st
    };
    assert(laid_out(listed));
    lemma_add_global_laid_out(
        listed,
        Variable {
            name: "print",
            type_val: TypeVal::FunctionPointer(Box::new(TypeVal::Unit)),
            global_pos: None,
            stack_loc: None,
            const_val: None,
            external: Some(print),
        },
        0,
    );
    lemma_top_statements_laid_out(st.with_runtime(), ast, 0);
}

} // verus!
