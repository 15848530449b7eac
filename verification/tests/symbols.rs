//! The symbol table on its own.

use ir_builder::ir::builder::SymbolTable;
use ir_builder::ir::{Expression, FunctionType, LocalVarId, Type};

fn lvalue(ty: Type) -> Type {
    Type::LValue(Box::new(ty))
}

fn signature() -> Type {
    Type::Function(FunctionType { return_ty: Box::new(Type::Unit), params_ty: vec![Type::Int] })
}

#[test]
fn empty_table_knows_nothing() {
    let table = SymbolTable::new();
    assert_eq!(table.get_var(&"x".to_string()), None);
}

#[test]
fn global_is_a_plain_value() {
    let mut table = SymbolTable::new();
    assert!(table.register_global("f".to_string(), signature()));
    assert_eq!(
        table.get_var(&"f".to_string()),
        Some((signature(), Expression::GlobalLoad("f".to_string())))
    );
    assert_eq!(table.get_var(&"g".to_string()), None);
}

#[test]
fn global_defined_twice() {
    let mut table = SymbolTable::new();
    assert!(table.register_global("f".to_string(), signature()));
    assert!(!table.register_global("f".to_string(), Type::Int));
    assert_eq!(
        table.get_var(&"f".to_string()),
        Some((Type::Int, Expression::GlobalLoad("f".to_string())))
    );
}

#[test]
fn local_is_a_storage_location() {
    let mut table = SymbolTable::new();
    table.start_local_scope();
    assert!(table.register_local("x".to_string(), Type::Int, LocalVarId(3)));
    assert_eq!(
        table.get_var(&"x".to_string()),
        Some((lvalue(Type::Int), Expression::LocalVarLoad(LocalVarId(3))))
    );
}

#[test]
fn local_defined_twice_in_one_scope() {
    let mut table = SymbolTable::new();
    table.start_local_scope();
    assert!(table.register_local("x".to_string(), Type::Int, LocalVarId(0)));
    assert!(!table.register_local("x".to_string(), Type::Bool, LocalVarId(1)));
    assert_eq!(
        table.get_var(&"x".to_string()),
        Some((lvalue(Type::Bool), Expression::LocalVarLoad(LocalVarId(1))))
    );
}

#[test]
fn inner_scope_shadows_outer() {
    let mut table = SymbolTable::new();
    table.start_local_scope();
    assert!(table.register_local("x".to_string(), Type::Int, LocalVarId(0)));
    assert!(table.register_local("y".to_string(), Type::Char, LocalVarId(1)));
    table.start_local_scope();
    assert!(table.register_local("x".to_string(), Type::Bool, LocalVarId(2)));
    assert_eq!(
        table.get_var(&"x".to_string()),
        Some((lvalue(Type::Bool), Expression::LocalVarLoad(LocalVarId(2))))
    );
    assert_eq!(
        table.get_var(&"y".to_string()),
        Some((lvalue(Type::Char), Expression::LocalVarLoad(LocalVarId(1))))
    );
    table.end_local_scope();
    assert_eq!(
        table.get_var(&"x".to_string()),
        Some((lvalue(Type::Int), Expression::LocalVarLoad(LocalVarId(0))))
    );
    table.end_local_scope();
    assert_eq!(table.get_var(&"x".to_string()), None);
}

#[test]
fn local_shadows_global() {
    let mut table = SymbolTable::new();
    assert!(table.register_global("f".to_string(), signature()));
    table.start_local_scope();
    assert!(table.register_local("f".to_string(), Type::Int, LocalVarId(0)));
    assert_eq!(
        table.get_var(&"f".to_string()),
        Some((lvalue(Type::Int), Expression::LocalVarLoad(LocalVarId(0))))
    );
    table.end_local_scope();
    assert_eq!(
        table.get_var(&"f".to_string()),
        Some((signature(), Expression::GlobalLoad("f".to_string())))
    );
}

#[test]
fn closing_without_a_scope_changes_nothing() {
    let mut table = SymbolTable::new();
    assert!(table.register_global("f".to_string(), signature()));
    table.end_local_scope();
    assert_eq!(
        table.get_var(&"f".to_string()),
        Some((signature(), Expression::GlobalLoad("f".to_string())))
    );
    table.start_local_scope();
    assert!(table.register_local("x".to_string(), Type::Int, LocalVarId(0)));
}
