use furn::ir_gen::ctimeval::CTimeVal;
use furn::ir_gen::scope::Scope;
use furn::ir_gen::symbol::CmplSymbol;
use furn::ir_gen::typeval::TypeVal;
use furn::ir_gen::variable::Variable;

fn local(name: &str, stack_loc: usize) -> Variable {
    Variable {
        name,
        type_val: TypeVal::UInt64,
        global_pos: None,
        stack_loc: Some(stack_loc),
        const_val: None,
        external: None,
    }
}

#[test]
fn sizes_of_types() {
    assert_eq!(TypeVal::Unit.size_of(), 0);
    assert_eq!(TypeVal::UInt64.size_of(), 8);
    assert_eq!(TypeVal::StringSlice.size_of(), 16);
    assert_eq!(TypeVal::FunctionPointer(Box::new(TypeVal::StringSlice)).size_of(), 8);
    assert_eq!(TypeVal::MethodPointer.size_of(), 16);
}

#[test]
fn clones_are_equal() {
    let t = TypeVal::FunctionPointer(Box::new(TypeVal::FunctionPointer(Box::new(TypeVal::Unit))));
    assert_eq!(t.clone(), t);
    let values = [
        CTimeVal::UInt(3),
        CTimeVal::Int(-3),
        CTimeVal::StringSlice(1, 2),
        CTimeVal::Function { address: 4, return_type_val: t.clone() },
        CTimeVal::Type(TypeVal::StringSlice),
    ];
    for v in &values {
        assert_eq!(v.clone(), *v);
    }
    let mut var = local("x", 8);
    var.const_val = Some(CTimeVal::UInt(1));
    assert_eq!(var.clone(), var);
    let symbol = CmplSymbol { const_val: None, type_val: TypeVal::Unit };
    assert_eq!(symbol.type_val, TypeVal::Unit);
}

#[test]
fn empty_scope_finds_nothing() {
    let scope = Scope::new();
    assert_eq!(scope.len(), 0);
    assert!(scope.lookup("x").is_none());
    assert_eq!(scope.iter().count(), 0);
}

#[test]
fn later_declaration_shadows_earlier() {
    let mut scope = Scope::new();
    scope.add(local("x", 8));
    scope.add(local("y", 16));
    scope.add(local("x", 24));
    assert_eq!(scope.len(), 3);
    assert_eq!(scope.lookup("x").unwrap().stack_loc, Some(24));
    assert_eq!(scope.lookup("y").unwrap().stack_loc, Some(16));
    assert!(scope.lookup("z").is_none());
    let order: Vec<Option<usize>> = scope.iter().map(|v| v.stack_loc).collect();
    assert_eq!(order, vec![Some(24), Some(16), Some(8)]);
    assert_eq!(scope.get(2).stack_loc, Some(8));
}

#[test]
fn lookup_mut_changes_the_variable_found() {
    let mut scope = Scope::new();
    scope.add(local("x", 8));
    scope.add(local("x", 24));
    scope.lookup_mut("x").unwrap().stack_loc = Some(99);
    assert!(scope.lookup_mut("nope").is_none());
    let order: Vec<Option<usize>> = scope.iter().map(|v| v.stack_loc).collect();
    assert_eq!(order, vec![Some(99), Some(8)]);
}
