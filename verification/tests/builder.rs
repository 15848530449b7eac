//! The builder of one function and the assembly of its blocks.

use ir_builder::ast::Span;
use ir_builder::ir::builder::cfg::assemble;
use ir_builder::ir::builder::function::Item;
use ir_builder::ir::builder::{ErrorKind, FunctionBuilder, SymbolTable};
use ir_builder::ir::{
    BasicBlock, BasicBlockId, Declaration, Expression, FunctionType, Literal, LocalVar,
    LocalVarId, Statement, Terminator, Type, Value,
};

fn signature() -> FunctionType {
    FunctionType { return_ty: Box::new(Type::Int), params_ty: vec![Type::Bool] }
}

fn builder() -> FunctionBuilder {
    FunctionBuilder::new("f".to_string(), signature(), SymbolTable::new())
}

fn value(id: usize, ty: Type) -> Value {
    Value { id, ty }
}

fn label(id: usize) -> BasicBlockId {
    BasicBlockId(id)
}

fn number(id: usize, v: i64) -> Statement {
    Statement::Assign(value(id, Type::Int), Expression::Literal(Literal::Int(v)))
}

fn ret(id: usize) -> Terminator {
    Terminator::Ret(value(id, Type::Int))
}

fn here() -> Span {
    Span { start: 2, end: 9 }
}

fn blocks_of(fb: FunctionBuilder) -> Vec<BasicBlock> {
    match fb.to_function(here()).unwrap() {
        Declaration::Function { bbs, .. } => bbs,
        other => panic!("not a function: {:?}", other),
    }
}

#[test]
fn fresh_builder() {
    let fb = builder();
    assert_eq!(fb.name, "f");
    assert_eq!(fb.ty, signature());
    assert!(fb.locals.is_empty());
    assert!(fb.items.is_empty());
    assert_eq!(fb.local_counter, 0);
    assert_eq!(fb.label_counter, 1);
    assert_eq!(fb.current_temp_id, 0);
    assert_eq!(fb.current_loop_info, None);
}

#[test]
fn values_are_numbered_from_zero() {
    let mut fb = builder();
    assert_eq!(fb.new_temp_value(Type::Int), value(0, Type::Int));
    assert_eq!(fb.new_temp_value(Type::Bool), value(1, Type::Bool));
    assert_eq!(fb.current_temp_id, 2);
    assert!(fb.items.is_empty());
}

#[test]
fn labels_are_numbered_from_one() {
    let mut fb = builder();
    assert_eq!(fb.new_label(), label(1));
    assert_eq!(fb.new_label(), label(2));
    assert_eq!(fb.label_counter, 3);
}

#[test]
fn buffer_keeps_the_order_of_what_is_pushed() {
    let mut fb = builder();
    let v = fb.new_temp_value(Type::Int);
    fb.push_statement(number(0, 7));
    let next = fb.new_label();
    fb.push_terminator_label(None, next);
    fb.push_terminator(Some(Terminator::Ret(v)));
    assert_eq!(
        fb.items,
        vec![
            Item::Statement(number(0, 7)),
            Item::TerminatorAndLabel(None, label(1)),
            Item::TerminatorAndLabel(Some(ret(0)), label(2)),
        ]
    );
    assert_eq!(fb.label_counter, 3);
}

#[test]
fn assign_binds_a_fresh_value() {
    let mut fb = builder();
    let v = fb.assign(Type::Int, Expression::Literal(Literal::Int(7)));
    assert_eq!(v, value(0, Type::Int));
    assert_eq!(fb.items, vec![Item::Statement(number(0, 7))]);
    assert_eq!(fb.current_temp_id, 1);
}

#[test]
fn stack_slots_share_one_counter() {
    let mut fb = builder();
    fb.start_local_scope();
    assert!(fb.register_param("a".to_string(), Type::Bool, Some(0)));
    assert_eq!(fb.register_local_logical(), LocalVarId(1));
    assert!(fb.register_local_variable("x".to_string(), Type::Int));
    assert_eq!(
        fb.locals,
        vec![
            LocalVar { id: LocalVarId(0), ty: Type::Bool, param_index: Some(0) },
            LocalVar { id: LocalVarId(1), ty: Type::Bool, param_index: None },
            LocalVar { id: LocalVarId(2), ty: Type::Int, param_index: None },
        ]
    );
    assert_eq!(fb.local_counter, 3);
    assert_eq!(
        fb.symbol_table.get_var(&"x".to_string()),
        Some((Type::LValue(Box::new(Type::Int)), Expression::LocalVarLoad(LocalVarId(2))))
    );
}

#[test]
fn slot_of_a_taken_name_is_declared_all_the_same() {
    let mut fb = builder();
    fb.start_local_scope();
    assert!(fb.register_local_variable("x".to_string(), Type::Int));
    assert!(!fb.register_local_variable("x".to_string(), Type::Bool));
    assert_eq!(fb.locals.len(), 2);
    assert_eq!(fb.local_counter, 2);
}

#[test]
fn unnamed_slot_binds_no_name() {
    let mut fb = builder();
    fb.start_local_scope();
    assert!(fb.register_local_variable("x".to_string(), Type::Int));
    let before = fb.symbol_table.get_var(&"x".to_string());
    assert_eq!(fb.register_local_logical(), LocalVarId(1));
    assert_eq!(fb.symbol_table.get_var(&"x".to_string()), before);
    assert_eq!(fb.symbol_table.get_var(&"".to_string()), None);
    assert!(fb.register_local_variable("y".to_string(), Type::Int));
    assert_eq!(fb.locals.len(), 3);
}

#[test]
fn empty_buffer_falls_off() {
    let err = builder().to_function(here()).unwrap_err();
    assert_eq!(err.kind, ErrorKind::MissingReturn);
    assert_eq!(err.msg, "Not all paths return.");
    assert_eq!(err.span, here());
}

#[test]
fn statements_without_a_boundary_fall_off() {
    let mut fb = builder();
    fb.push_statement(number(0, 1));
    let err = fb.to_function(here()).unwrap_err();
    assert_eq!(err.kind, ErrorKind::MissingReturn);
}

#[test]
fn one_returning_block() {
    let mut fb = builder();
    let v = fb.assign(Type::Int, Expression::Literal(Literal::Int(1)));
    fb.push_terminator(Some(Terminator::Ret(v)));
    assert_eq!(
        fb.to_function(here()),
        Ok(Declaration::Function {
            name: "f".to_string(),
            ty: signature(),
            locals: vec![],
            bbs: vec![BasicBlock { id: label(0), stmts: vec![number(0, 1)], terminator: ret(0) }],
        })
    );
}

#[test]
fn boundary_without_terminator_falls_through() {
    let mut fb = builder();
    let v = fb.assign(Type::Int, Expression::Literal(Literal::Int(1)));
    let next = fb.new_label();
    fb.push_terminator_label(None, next);
    fb.push_terminator(Some(Terminator::Ret(v)));
    assert_eq!(
        blocks_of(fb),
        vec![
            BasicBlock {
                id: label(0),
                stmts: vec![number(0, 1)],
                terminator: Terminator::Br(label(1)),
            },
            BasicBlock { id: label(1), stmts: vec![], terminator: ret(0) },
        ]
    );
}

#[test]
fn fall_through_into_the_open_end() {
    let mut fb = builder();
    let next = fb.new_label();
    fb.push_terminator_label(None, next);
    let err = fb.to_function(here()).unwrap_err();
    assert_eq!(err.kind, ErrorKind::MissingReturn);
}

#[test]
fn branch_with_one_arm_into_the_open_end() {
    let mut fb = builder();
    let c = fb.assign(Type::Bool, Expression::Literal(Literal::Bool(true)));
    let on_true = fb.new_label();
    let on_false = fb.new_label();
    fb.push_terminator_label(Some(Terminator::BrCond(c.clone(), on_true, on_false)), on_true);
    fb.push_terminator_label(Some(Terminator::Ret(c)), on_false);
    let err = fb.to_function(here()).unwrap_err();
    assert_eq!(err.kind, ErrorKind::MissingReturn);
}

#[test]
fn block_that_nothing_names_is_dropped() {
    let mut fb = builder();
    let v = fb.assign(Type::Int, Expression::Literal(Literal::Int(1)));
    fb.push_terminator(Some(Terminator::Ret(v.clone())));
    fb.push_statement(number(9, 9));
    fb.push_terminator(Some(Terminator::Ret(v)));
    assert_eq!(
        blocks_of(fb),
        vec![BasicBlock { id: label(0), stmts: vec![number(0, 1)], terminator: ret(0) }]
    );
}

#[test]
fn open_end_that_only_dropped_blocks_lead_to() {
    let mut fb = builder();
    let v = fb.assign(Type::Int, Expression::Literal(Literal::Int(1)));
    fb.push_terminator(Some(Terminator::Ret(v)));
    let end = fb.new_label();
    fb.push_terminator_label(None, end);
    assert_eq!(
        blocks_of(fb),
        vec![BasicBlock { id: label(0), stmts: vec![number(0, 1)], terminator: ret(0) }]
    );
}

#[test]
fn block_named_by_a_dropped_block_stays() {
    let mut fb = builder();
    let v = fb.assign(Type::Int, Expression::Literal(Literal::Int(1)));
    let dropped = fb.new_label();
    let named = fb.new_label();
    fb.push_terminator_label(Some(Terminator::Ret(v.clone())), dropped);
    fb.push_terminator_label(Some(Terminator::Br(named)), named);
    fb.push_terminator(Some(Terminator::Ret(v)));
    let bbs = blocks_of(fb);
    assert_eq!(bbs.iter().map(|bb| bb.id).collect::<Vec<_>>(), vec![label(0), label(2)]);
}

#[test]
fn labels_are_not_renumbered() {
    let mut fb = builder();
    let v = fb.assign(Type::Bool, Expression::Literal(Literal::Bool(true)));
    let a = fb.new_label();
    let b = fb.new_label();
    let c = fb.new_label();
    fb.push_terminator_label(Some(Terminator::BrCond(v.clone(), c, b)), c);
    fb.push_terminator_label(Some(Terminator::Ret(v.clone())), a);
    fb.push_terminator_label(Some(Terminator::Ret(v.clone())), b);
    fb.push_terminator(Some(Terminator::Ret(v)));
    let bbs = blocks_of(fb);
    assert_eq!(bbs.iter().map(|bb| bb.id).collect::<Vec<_>>(), vec![label(0), label(3), label(2)]);
}

#[test]
fn entry_that_loops_on_itself() {
    let mut fb = builder();
    fb.push_terminator(Some(Terminator::Br(label(0))));
    assert_eq!(
        blocks_of(fb),
        vec![BasicBlock { id: label(0), stmts: vec![], terminator: Terminator::Br(label(0)) }]
    );
}

#[test]
fn assemble_gives_the_kept_blocks() {
    let items = vec![
        Item::Statement(number(0, 1)),
        Item::TerminatorAndLabel(Some(Terminator::Br(label(2))), label(1)),
        Item::Statement(number(1, 2)),
        Item::TerminatorAndLabel(None, label(2)),
        Item::TerminatorAndLabel(Some(ret(0)), label(3)),
    ];
    assert_eq!(
        assemble(items),
        Some(vec![
            BasicBlock {
                id: label(0),
                stmts: vec![number(0, 1)],
                terminator: Terminator::Br(label(2)),
            },
            BasicBlock { id: label(2), stmts: vec![], terminator: ret(0) },
        ])
    );
}

#[test]
fn assemble_sees_a_way_to_the_open_end() {
    let items = vec![
        Item::TerminatorAndLabel(Some(Terminator::Br(label(2))), label(1)),
        Item::TerminatorAndLabel(Some(ret(0)), label(2)),
    ];
    assert_eq!(assemble(items), None);
}

#[test]
fn buffer_with_labels_that_were_not_handed_out() {
    // the buffer of `if (true) { return 1; } return 2;`, pushed by hand
    let mut fb = builder();
    let c = value(0, Type::Bool);
    fb.push_statement(Statement::Assign(c.clone(), Expression::Literal(Literal::Bool(true))));
    fb.push_terminator_label(Some(Terminator::BrCond(c.clone(), label(2), label(3))), label(2));
    fb.push_statement(number(1, 1));
    fb.push_terminator_label(Some(ret(1)), label(4));
    fb.push_terminator_label(Some(Terminator::Br(label(1))), label(3));
    fb.push_terminator_label(None, label(1));
    fb.push_statement(number(2, 2));
    fb.push_terminator_label(Some(ret(2)), label(5));
    assert_eq!(fb.label_counter, 1);
    let bbs = blocks_of(fb);
    assert_eq!(bbs.iter().map(|bb| bb.id).collect::<Vec<_>>(), vec![
        label(0),
        label(2),
        label(3),
        label(1)
    ]);
    assert_eq!(bbs[0].terminator, Terminator::BrCond(c, label(2), label(3)));
    assert_eq!(bbs[1].terminator, ret(1));
    assert_eq!(bbs[2].terminator, Terminator::Br(label(1)));
    assert_eq!(bbs[3].terminator, ret(2));
}

#[test]
fn buffer_of_an_endless_loop_pushed_by_hand() {
    let mut fb = builder();
    fb.push_terminator_label(None, label(1));
    fb.push_terminator_label(Some(Terminator::Br(label(1))), label(2));
    assert_eq!(
        blocks_of(fb),
        vec![
            BasicBlock { id: label(0), stmts: vec![], terminator: Terminator::Br(label(1)) },
            BasicBlock { id: label(1), stmts: vec![], terminator: Terminator::Br(label(1)) },
        ]
    );
}

#[test]
fn terminator_that_names_a_label_without_a_block() {
    let items = vec![
        Item::TerminatorAndLabel(Some(Terminator::Br(label(9))), label(1)),
        Item::TerminatorAndLabel(Some(ret(0)), label(2)),
    ];
    assert_eq!(
        assemble(items),
        Some(vec![BasicBlock { id: label(0), stmts: vec![], terminator: Terminator::Br(label(9)) }])
    );
}

#[test]
fn boundary_that_opens_the_label_of_the_entry_again() {
    let items = vec![
        Item::TerminatorAndLabel(Some(ret(0)), label(0)),
        Item::TerminatorAndLabel(Some(ret(1)), label(3)),
    ];
    assert_eq!(
        assemble(items),
        Some(vec![
            BasicBlock { id: label(0), stmts: vec![], terminator: ret(0) },
            BasicBlock { id: label(0), stmts: vec![], terminator: ret(1) },
        ])
    );
}

#[test]
fn labels_may_be_as_large_as_a_machine_word() {
    let far = label(usize::MAX);
    let items = vec![
        Item::TerminatorAndLabel(Some(Terminator::Br(far)), label(7)),
        Item::TerminatorAndLabel(Some(ret(0)), far),
        Item::TerminatorAndLabel(Some(ret(1)), label(usize::MAX - 1)),
    ];
    assert_eq!(
        assemble(items),
        Some(vec![
            BasicBlock { id: label(0), stmts: vec![], terminator: Terminator::Br(far) },
            BasicBlock { id: far, stmts: vec![], terminator: ret(1) },
        ])
    );
    let items = vec![
        Item::TerminatorAndLabel(Some(Terminator::Br(far)), label(7)),
        Item::TerminatorAndLabel(Some(ret(0)), far),
    ];
    assert_eq!(assemble(items), None);
}
