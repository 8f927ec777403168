use borrow_audit::findings::Detail;
use borrow_audit::findings::Finding;
use borrow_audit::findings::FindingKind;
use borrow_audit::findings::Location;
use borrow_audit::findings::Malformed;
use borrow_audit::mir::BasicBlockData;
use borrow_audit::mir::Body;
use borrow_audit::mir::BorrowKind;
use borrow_audit::mir::CallTarget;
use borrow_audit::mir::LocalDecl;
use borrow_audit::mir::Operand;
use borrow_audit::mir::Place;
use borrow_audit::mir::Program;
use borrow_audit::mir::Rvalue;
use borrow_audit::mir::Statement;
use borrow_audit::mir::Terminator;
use borrow_audit::mir_visitor::analyze;
use borrow_audit::mir_visitor::copy_operands;
use borrow_audit::mir_visitor::MirVisitor;
use borrow_audit::mir_visitor::CALL_DEPTH;
use borrow_audit::stacked_borrows::Tag;

fn direct(local: u32) -> Place {
    Place { local, indirect: false }
}

fn deref(local: u32) -> Place {
    Place { local, indirect: true }
}

fn at(block: usize, statement_index: usize) -> Location {
    Location { function: 0, block, statement_index }
}

fn locals(mutable: &[bool]) -> Vec<LocalDecl> {
    mutable.iter().map(|m| LocalDecl { mutable: *m }).collect()
}

fn empty_program() -> Program {
    Program { bodies: Vec::new() }
}

fn one_block(decls: Vec<LocalDecl>, statements: Vec<Statement>, terminator: Terminator) -> Body {
    Body {
        local_decls: decls,
        basic_blocks: vec![BasicBlockData { statements, terminator: Some(terminator) }],
    }
}

fn tag_not_found(id: u32, location: Location) -> Finding {
    Finding { kind: FindingKind::TagNotFound, location, detail: Detail::Tag(Tag::Tagged(id)) }
}

fn assign_const(local: u32) -> Statement {
    Statement::Assign(direct(local), Rvalue::Use(Operand::Constant))
}

#[test]
fn new_visitor_has_no_findings() {
    let program = empty_program();
    let visitor = MirVisitor::new(&program, Vec::new());
    assert_eq!(visitor.findings(), vec![]);
    assert_eq!(CALL_DEPTH, 8);
}

#[test]
fn place_to_tag_takes_the_location() {
    let program = empty_program();
    let visitor = MirVisitor::new(&program, Vec::new());
    assert_eq!(visitor.place_to_tag(&direct(5)), Tag::Tagged(5));
    assert_eq!(visitor.place_to_tag(&deref(5)), Tag::Tagged(5));
}

#[test]
fn operand_as_u32_takes_the_location_or_zero() {
    let program = empty_program();
    let visitor = MirVisitor::new(&program, Vec::new());
    assert_eq!(visitor.operand_as_u32(&Operand::Move(direct(4))), 4);
    assert_eq!(visitor.operand_as_u32(&Operand::Copy(deref(6))), 6);
    assert_eq!(visitor.operand_as_u32(&Operand::Constant), 0);
}

#[test]
fn is_mutable_asks_for_a_direct_mutable_location() {
    let program = empty_program();
    let mut visitor = MirVisitor::new(&program, Vec::new());
    visitor.visit_local_decl(0, &LocalDecl { mutable: false });
    visitor.visit_local_decl(1, &LocalDecl { mutable: true });
    assert!(visitor.is_mutable(&Operand::Move(direct(1))));
    assert!(visitor.is_mutable(&Operand::Copy(direct(1))));
    assert!(!visitor.is_mutable(&Operand::Copy(deref(1))));
    assert!(!visitor.is_mutable(&Operand::Copy(direct(0))));
    assert!(!visitor.is_mutable(&Operand::Copy(direct(2))));
    assert!(!visitor.is_mutable(&Operand::Constant));
}

#[test]
fn copy_operands_copies() {
    let operands = vec![Operand::Constant, Operand::Move(direct(1)), Operand::Copy(deref(2))];
    assert_eq!(copy_operands(&operands), operands);
}

#[test]
fn direct_operand_and_constant_touch_nothing() {
    let program = empty_program();
    let mut visitor = MirVisitor::new(&program, Vec::new());
    visitor.visit_operand(&Operand::Copy(direct(3)), at(0, 0));
    visitor.visit_operand(&Operand::Move(direct(3)), at(0, 0));
    visitor.visit_operand(&Operand::Constant, at(0, 0));
    assert_eq!(visitor.findings(), vec![]);
}

#[test]
fn indirect_operand_without_frame_is_reported() {
    let program = empty_program();
    let mut visitor = MirVisitor::new(&program, Vec::new());
    visitor.visit_operand(&Operand::Copy(deref(3)), at(2, 5));
    assert_eq!(visitor.findings(), vec![tag_not_found(3, at(2, 5))]);
}

#[test]
fn add_to_stack_pushes_for_a_direct_place_only() {
    let program = empty_program();
    let mut visitor = MirVisitor::new(&program, Vec::new());
    visitor.add_to_stack(&direct(1), Tag::Tagged(1), at(0, 0));
    assert_eq!(visitor.findings(), vec![]);
    visitor.add_to_stack(&deref(2), Tag::Tagged(2), at(0, 1));
    assert_eq!(visitor.findings(), vec![tag_not_found(2, at(0, 1))]);
    visitor.add_to_stack(&deref(1), Tag::Tagged(1), at(0, 2));
    assert_eq!(visitor.findings(), vec![tag_not_found(2, at(0, 1))]);
}

#[test]
fn push_args_seeds_the_parameters() {
    let program = empty_program();
    let args = vec![Operand::Constant, Operand::Constant];
    let mut visitor = MirVisitor::new(&program, args);
    visitor.push_args();
    assert!(!visitor.alias_graph.does_variable_exits(0));
    assert!(visitor.alias_graph.does_variable_exits(1));
    assert!(visitor.alias_graph.does_variable_exits(2));
    assert!(!visitor.alias_graph.does_variable_exits(3));
    // the parameters can be written through; what follows them cannot
    visitor.visit_operand(&Operand::Copy(deref(1)), at(0, 0));
    visitor.visit_operand(&Operand::Copy(deref(2)), at(0, 0));
    assert_eq!(visitor.findings(), vec![]);
    visitor.visit_operand(&Operand::Copy(deref(3)), at(0, 0));
    assert_eq!(visitor.findings(), vec![tag_not_found(3, at(0, 0))]);
}

#[test]
fn use_of_a_moved_place_points_to_it() {
    let program = empty_program();
    let mut visitor = MirVisitor::new(&program, Vec::new());
    visitor.visit_assign(&direct(1), &Rvalue::Use(Operand::Constant), at(0, 0));
    visitor.visit_assign(&direct(2), &Rvalue::Use(Operand::Move(direct(1))), at(0, 1));
    assert_eq!(visitor.alias_graph.are_alias(2, 1), Ok(true));
    visitor.visit_assign(&direct(3), &Rvalue::Use(Operand::Copy(direct(1))), at(0, 2));
    assert_eq!(visitor.alias_graph.are_alias(3, 1), Ok(false));
    assert_eq!(visitor.findings(), vec![]);
}

#[test]
fn use_into_a_direct_place_severs_its_edges() {
    let program = empty_program();
    let mut visitor = MirVisitor::new(&program, Vec::new());
    visitor.visit_assign(&direct(1), &Rvalue::Use(Operand::Constant), at(0, 0));
    visitor.visit_assign(&direct(2), &Rvalue::Ref(BorrowKind::Mut, direct(1)), at(0, 1));
    assert_eq!(visitor.alias_graph.are_alias(2, 1), Ok(true));
    visitor.visit_assign(&deref(2), &Rvalue::Use(Operand::Constant), at(0, 2));
    assert_eq!(visitor.alias_graph.are_alias(2, 1), Ok(true));
    visitor.visit_assign(&direct(2), &Rvalue::Use(Operand::Constant), at(0, 3));
    assert_eq!(visitor.alias_graph.are_alias(2, 1), Ok(false));
    assert_eq!(visitor.findings(), vec![]);
}

#[test]
fn fresh_aggregate_removes_the_edge() {
    let program = empty_program();
    let mut visitor = MirVisitor::new(&program, Vec::new());
    visitor.visit_assign(&direct(3), &Rvalue::Use(Operand::Constant), at(0, 0));
    visitor.visit_assign(&direct(1), &Rvalue::Ref(BorrowKind::Shared, direct(3)), at(0, 1));
    assert_eq!(visitor.alias_graph.are_alias(1, 3), Ok(true));
    visitor.visit_assign(
        &direct(1),
        &Rvalue::Aggregate(vec![Operand::Constant, Operand::Constant]),
        at(0, 2),
    );
    assert_eq!(visitor.alias_graph.are_alias(1, 3), Ok(false));
    assert_eq!(visitor.findings(), vec![]);
}

#[test]
fn aggregate_reads_every_operand_first() {
    let program = empty_program();
    let mut visitor = MirVisitor::new(&program, Vec::new());
    visitor.visit_assign(
        &direct(1),
        &Rvalue::Aggregate(vec![
            Operand::Copy(deref(7)),
            Operand::Constant,
            Operand::Move(deref(8)),
        ]),
        at(1, 4),
    );
    assert_eq!(
        visitor.findings(),
        vec![tag_not_found(7, at(1, 4)), tag_not_found(8, at(1, 4))]
    );
    assert!(visitor.alias_graph.does_variable_exits(1));
}

#[test]
fn operators_give_a_fresh_value() {
    let program = empty_program();
    let rvalues = vec![
        Rvalue::Cast(Operand::Copy(direct(2))),
        Rvalue::BinaryOp(Operand::Copy(direct(2)), Operand::Constant),
        Rvalue::UnaryOp(Operand::Copy(direct(2))),
        Rvalue::NullaryOp,
        Rvalue::Discriminant(direct(2)),
    ];
    for rvalue in &rvalues {
        let mut visitor = MirVisitor::new(&program, Vec::new());
        visitor.visit_assign(&direct(2), &Rvalue::Use(Operand::Constant), at(0, 0));
        visitor.visit_assign(&direct(1), &Rvalue::AddressOf(direct(2)), at(0, 1));
        assert_eq!(visitor.alias_graph.are_alias(1, 2), Ok(true));
        visitor.visit_assign(&direct(1), rvalue, at(0, 2));
        assert_eq!(visitor.alias_graph.are_alias(1, 2), Ok(false));
        // the destination has a frame of its own
        visitor.visit_operand(&Operand::Copy(deref(1)), at(0, 3));
        assert_eq!(visitor.findings(), vec![]);
    }
}

#[test]
fn binary_operator_reads_both_operands() {
    let program = empty_program();
    let mut visitor = MirVisitor::new(&program, Vec::new());
    visitor.visit_assign(
        &direct(1),
        &Rvalue::BinaryOp(Operand::Copy(deref(5)), Operand::Copy(deref(6))),
        at(0, 0),
    );
    assert_eq!(
        visitor.findings(),
        vec![tag_not_found(5, at(0, 0)), tag_not_found(6, at(0, 0))]
    );
}

#[test]
fn box_points_to_its_operand_and_pushes_nothing() {
    let program = empty_program();
    let mut visitor = MirVisitor::new(&program, Vec::new());
    visitor.visit_assign(&direct(2), &Rvalue::Use(Operand::Constant), at(0, 0));
    visitor.visit_assign(&direct(1), &Rvalue::ShallowInitBox(Operand::Move(direct(2))), at(0, 1));
    assert_eq!(visitor.alias_graph.are_alias(1, 2), Ok(true));
    assert_eq!(visitor.findings(), vec![]);
    visitor.visit_operand(&Operand::Copy(deref(1)), at(0, 2));
    assert_eq!(visitor.findings(), vec![tag_not_found(1, at(0, 2))]);
}

#[test]
fn box_of_a_constant_points_to_the_return_slot() {
    let program = empty_program();
    let mut visitor = MirVisitor::new(&program, Vec::new());
    visitor.visit_assign(&direct(1), &Rvalue::ShallowInitBox(Operand::Constant), at(0, 0));
    assert_eq!(visitor.alias_graph.are_alias(1, 0), Ok(true));
}

#[test]
fn unsupported_constructs_are_reported() {
    let program = empty_program();
    let mut visitor = MirVisitor::new(&program, Vec::new());
    visitor.visit_assign(&direct(1), &Rvalue::Other, at(0, 0));
    visitor.visit_statement(&Statement::Other, at(0, 1));
    assert_eq!(visitor.visit_terminator(&Terminator::Other, at(0, 2)), Ok(()));
    assert_eq!(
        visitor.findings(),
        vec![
            Finding {
                kind: FindingKind::UnsupportedConstruct,
                location: at(0, 0),
                detail: Detail::Rvalue,
            },
            Finding {
                kind: FindingKind::UnsupportedConstruct,
                location: at(0, 1),
                detail: Detail::Statement,
            },
            Finding {
                kind: FindingKind::UnsupportedConstruct,
                location: at(0, 2),
                detail: Detail::Terminator,
            },
        ]
    );
    assert!(!visitor.alias_graph.does_variable_exits(1));
}

#[test]
fn storage_statements_change_nothing() {
    let program = empty_program();
    let mut visitor = MirVisitor::new(&program, Vec::new());
    visitor.visit_assign(&direct(1), &Rvalue::Use(Operand::Constant), at(0, 0));
    visitor.visit_statement(&Statement::StorageDead(1), at(0, 1));
    visitor.visit_statement(&Statement::StorageLive(1), at(0, 2));
    visitor.visit_storage(1);
    // the frame outlives the storage
    visitor.visit_operand(&Operand::Copy(deref(1)), at(0, 3));
    assert_eq!(visitor.findings(), vec![]);
    assert!(visitor.alias_graph.does_variable_exits(1));
}

#[test]
fn set_discriminant_gives_a_fresh_value() {
    let program = empty_program();
    let mut visitor = MirVisitor::new(&program, Vec::new());
    visitor.visit_assign(&direct(2), &Rvalue::Use(Operand::Constant), at(0, 0));
    visitor.visit_assign(&direct(1), &Rvalue::Ref(BorrowKind::Mut, direct(2)), at(0, 1));
    visitor.visit_statement(&Statement::SetDiscriminant(direct(1)), at(0, 2));
    assert_eq!(visitor.alias_graph.are_alias(1, 2), Ok(false));
    visitor.visit_set_discriminant(&deref(9), at(0, 3));
    assert_eq!(visitor.findings(), vec![tag_not_found(9, at(0, 3))]);
    assert!(visitor.alias_graph.does_variable_exits(9));
}

#[test]
fn shared_reads_coexist() {
    // _1 = const; _2 = &_1; _3 = &_1; read *_2; read *_3 through new references
    let program = empty_program();
    let mut visitor = MirVisitor::new(&program, Vec::new());
    visitor.visit_statement(&assign_const(1), at(0, 0));
    visitor.visit_assign(&direct(2), &Rvalue::Ref(BorrowKind::Shared, direct(1)), at(0, 1));
    visitor.visit_assign(&direct(3), &Rvalue::Ref(BorrowKind::Shared, direct(1)), at(0, 2));
    visitor.visit_assign(&direct(4), &Rvalue::Ref(BorrowKind::Shared, deref(2)), at(0, 3));
    visitor.visit_assign(&direct(5), &Rvalue::Ref(BorrowKind::Shared, deref(3)), at(0, 4));
    visitor.visit_assign(&direct(6), &Rvalue::Ref(BorrowKind::Shared, deref(2)), at(0, 5));
    assert_eq!(visitor.findings(), vec![]);
}

#[test]
fn stale_write_is_reported_where_it_happens() {
    // _1 = const; _2 = &mut _1; _3 = &mut _1; *_2 = const
    let program = empty_program();
    let mut visitor = MirVisitor::new(&program, Vec::new());
    visitor.visit_statement(&assign_const(1), at(0, 0));
    visitor.visit_assign(&direct(2), &Rvalue::Ref(BorrowKind::Mut, direct(1)), at(0, 1));
    assert_eq!(visitor.findings(), vec![]);
    visitor.visit_assign(&direct(3), &Rvalue::Ref(BorrowKind::Mut, direct(1)), at(0, 2));
    assert_eq!(visitor.findings(), vec![]);
    visitor.visit_assign(&deref(2), &Rvalue::Use(Operand::Constant), at(0, 3));
    assert_eq!(visitor.findings(), vec![tag_not_found(2, at(0, 3))]);
    // the later reference is still in order
    visitor.visit_assign(&deref(3), &Rvalue::Use(Operand::Constant), at(0, 4));
    assert_eq!(visitor.findings(), vec![tag_not_found(2, at(0, 3))]);
}

#[test]
fn write_through_the_owner_invalidates_a_shared_reference() {
    // _1 = const; _2 = &_1; _3 = &mut _1; read through _2
    let program = empty_program();
    let mut visitor = MirVisitor::new(&program, Vec::new());
    visitor.visit_statement(&assign_const(1), at(0, 0));
    visitor.visit_assign(&direct(2), &Rvalue::Ref(BorrowKind::Shared, direct(1)), at(0, 1));
    visitor.visit_assign(&direct(3), &Rvalue::Ref(BorrowKind::Mut, direct(1)), at(0, 2));
    visitor.visit_assign(&direct(4), &Rvalue::Ref(BorrowKind::Shared, deref(2)), at(0, 3));
    assert_eq!(visitor.findings(), vec![tag_not_found(2, at(0, 3))]);
}

#[test]
fn raw_pointers_tolerate_a_read_but_not_a_write() {
    // _1 = const; _2 = &raw _1; _3 = &raw _1: the second write through _1
    // pops the first raw pointer
    let program = empty_program();
    let mut visitor = MirVisitor::new(&program, Vec::new());
    visitor.visit_statement(&assign_const(1), at(0, 0));
    visitor.visit_assign(&direct(2), &Rvalue::AddressOf(direct(1)), at(0, 1));
    visitor.visit_assign(&direct(5), &Rvalue::Ref(BorrowKind::Shared, direct(1)), at(0, 2));
    visitor.visit_operand(&Operand::Copy(deref(2)), at(0, 3));
    assert_eq!(visitor.findings(), vec![]);
    visitor.visit_assign(&direct(3), &Rvalue::AddressOf(direct(1)), at(0, 4));
    visitor.visit_operand(&Operand::Copy(deref(2)), at(0, 5));
    assert_eq!(visitor.findings(), vec![tag_not_found(2, at(0, 5))]);
    assert_eq!(visitor.alias_graph.are_alias(2, 3), Ok(true));
}

#[test]
fn reference_to_an_unassigned_location_is_reported() {
    let program = empty_program();
    let mut visitor = MirVisitor::new(&program, Vec::new());
    visitor.visit_assign(&direct(2), &Rvalue::Ref(BorrowKind::Shared, direct(1)), at(0, 0));
    assert_eq!(visitor.findings(), vec![tag_not_found(1, at(0, 0))]);
    assert_eq!(visitor.alias_graph.are_alias(2, 1), Ok(true));
}

#[test]
fn assert_reads_its_condition() {
    let program = empty_program();
    let mut visitor = MirVisitor::new(&program, Vec::new());
    let terminator = Terminator::Assert { cond: Operand::Copy(deref(4)) };
    assert_eq!(visitor.visit_terminator(&terminator, at(3, 0)), Ok(()));
    assert_eq!(visitor.findings(), vec![tag_not_found(4, at(3, 0))]);
}

#[test]
fn return_does_nothing() {
    let program = empty_program();
    let mut visitor = MirVisitor::new(&program, Vec::new());
    assert_eq!(visitor.visit_terminator(&Terminator::Return, at(0, 0)), Ok(()));
    assert_eq!(visitor.findings(), vec![]);
}

fn aliased_call(target: CallTarget) -> Body {
    // _1 = &mut _3; _2 = &mut _3; _0 = call(_1, _2)
    one_block(
        locals(&[true, true, true, true]),
        vec![
            assign_const(3),
            Statement::Assign(direct(1), Rvalue::Ref(BorrowKind::Mut, direct(3))),
            Statement::Assign(direct(2), Rvalue::Ref(BorrowKind::Mut, direct(3))),
        ],
        Terminator::Call {
            target,
            args: vec![Operand::Move(direct(1)), Operand::Move(direct(2))],
            destination: direct(0),
        },
    )
}

#[test]
fn aliased_mutable_arguments_are_reported_once() {
    let program = Program { bodies: vec![aliased_call(CallTarget::Unresolved)] };
    let mut visitor = MirVisitor::new(&program, Vec::new());
    assert_eq!(visitor.visit_body(0), Ok(()));
    assert_eq!(
        visitor.findings(),
        vec![Finding {
            kind: FindingKind::AliasedMutableArguments,
            location: at(0, 3),
            detail: Detail::Locals(1, 2),
        }]
    );
    // the destination was handled all the same
    assert!(visitor.alias_graph.does_variable_exits(0));
    visitor.visit_operand(&Operand::Copy(deref(0)), at(1, 0));
    assert_eq!(visitor.findings().len(), 1);
}

#[test]
fn immutable_arguments_are_not_checked() {
    let mut body = aliased_call(CallTarget::Unresolved);
    body.local_decls = locals(&[true, true, false, true]);
    let program = Program { bodies: vec![body] };
    assert_eq!(analyze(&program, 0, Vec::new(), 0), Ok(vec![]));
}

#[test]
fn first_two_mutable_arguments_are_the_ones_checked() {
    // _1 and _2 alias, but _4, which aliases nothing, stands between them
    let body = one_block(
        locals(&[true, true, true, true, true]),
        vec![
            assign_const(3),
            assign_const(4),
            Statement::Assign(direct(1), Rvalue::Ref(BorrowKind::Mut, direct(3))),
            Statement::Assign(direct(2), Rvalue::Ref(BorrowKind::Mut, direct(3))),
        ],
        Terminator::Call {
            target: CallTarget::Unresolved,
            args: vec![
                Operand::Constant,
                Operand::Move(direct(1)),
                Operand::Move(direct(4)),
                Operand::Move(direct(2)),
            ],
            destination: direct(0),
        },
    );
    let program = Program { bodies: vec![body] };
    assert_eq!(analyze(&program, 0, Vec::new(), 0), Ok(vec![]));
}

#[test]
fn untracked_mutable_argument_passed_twice_aliases_itself() {
    let body = one_block(
        locals(&[true, true]),
        Vec::new(),
        Terminator::Call {
            target: CallTarget::Unresolved,
            args: vec![Operand::Copy(direct(1)), Operand::Copy(direct(1))],
            destination: direct(0),
        },
    );
    let program = Program { bodies: vec![body] };
    assert_eq!(
        analyze(&program, 0, Vec::new(), 0),
        Ok(vec![Finding {
            kind: FindingKind::AliasedMutableArguments,
            location: at(0, 0),
            detail: Detail::Locals(1, 1),
        }])
    );
}

#[test]
fn checked_arguments_are_registered() {
    let program = empty_program();
    let mut visitor = MirVisitor::new(&program, Vec::new());
    visitor.visit_local_decl(1, &LocalDecl { mutable: true });
    visitor.visit_local_decl(2, &LocalDecl { mutable: true });
    visitor.visit_local_decl(3, &LocalDecl { mutable: true });
    let args = vec![Operand::Copy(direct(1)), Operand::Copy(direct(2)), Operand::Copy(direct(3))];
    assert_eq!(visitor.mutable_arguments(&args), vec![1, 2, 3]);
    visitor.check_arguments(&args, at(0, 0));
    assert!(visitor.alias_graph.does_variable_exits(1));
    assert!(visitor.alias_graph.does_variable_exits(2));
    assert!(!visitor.alias_graph.does_variable_exits(3));
    assert_eq!(visitor.findings(), vec![]);
    visitor.check_arguments(&vec![Operand::Copy(direct(3))], at(0, 0));
    assert!(!visitor.alias_graph.does_variable_exits(3));
}

#[test]
fn untracked_mutable_arguments_alias_nothing() {
    let body = one_block(
        locals(&[true, true, true]),
        Vec::new(),
        Terminator::Call {
            target: CallTarget::Unresolved,
            args: vec![Operand::Copy(direct(1)), Operand::Copy(direct(2))],
            destination: direct(0),
        },
    );
    let program = Program { bodies: vec![body] };
    assert_eq!(analyze(&program, 0, Vec::new(), 0), Ok(vec![]));
}

#[test]
fn same_mutable_argument_twice_aliases_itself() {
    let body = one_block(
        locals(&[true, true]),
        vec![assign_const(1)],
        Terminator::Call {
            target: CallTarget::Unresolved,
            args: vec![Operand::Copy(direct(1)), Operand::Copy(direct(1))],
            destination: direct(0),
        },
    );
    let program = Program { bodies: vec![body] };
    assert_eq!(
        analyze(&program, 0, Vec::new(), 0),
        Ok(vec![Finding {
            kind: FindingKind::AliasedMutableArguments,
            location: at(0, 1),
            detail: Detail::Locals(1, 1),
        }])
    );
}

#[test]
fn call_into_an_indirect_destination_only_writes_through_it() {
    let body = one_block(
        locals(&[true, true]),
        Vec::new(),
        Terminator::Call {
            target: CallTarget::Unresolved,
            args: Vec::new(),
            destination: deref(1),
        },
    );
    let program = Program { bodies: vec![body] };
    let mut visitor = MirVisitor::new(&program, Vec::new());
    assert_eq!(visitor.visit_body(0), Ok(()));
    assert_eq!(visitor.findings(), vec![tag_not_found(1, at(0, 0))]);
    assert!(!visitor.alias_graph.does_variable_exits(1));
}

fn callee_with_stale_write() -> Body {
    // fn(_1): _2 = &mut _1; _3 = &mut _1; *_2 = const; return
    one_block(
        locals(&[true, true, true, true]),
        vec![
            Statement::Assign(direct(2), Rvalue::Ref(BorrowKind::Mut, direct(1))),
            Statement::Assign(direct(3), Rvalue::Ref(BorrowKind::Mut, direct(1))),
            Statement::Assign(deref(2), Rvalue::Use(Operand::Constant)),
        ],
        Terminator::Return,
    )
}

fn caller_of(function: usize) -> Body {
    // _1 = const; *_5 read in the call's argument; _0 = call(_1)
    Body {
        local_decls: locals(&[true, true, true, true, true, true]),
        basic_blocks: vec![
            BasicBlockData { statements: vec![assign_const(1)], terminator: None },
            BasicBlockData {
                statements: Vec::new(),
                terminator: Some(Terminator::Call {
                    target: CallTarget::Resolved(function),
                    args: vec![Operand::Copy(deref(5))],
                    destination: deref(4),
                }),
            },
        ],
    }
}

#[test]
fn findings_of_the_callee_are_merged_in_order() {
    let program = Program { bodies: vec![caller_of(1), callee_with_stale_write()] };
    assert_eq!(
        analyze(&program, 0, Vec::new(), 1),
        Ok(vec![
            tag_not_found(5, at(1, 0)),
            tag_not_found(2, Location { function: 1, block: 0, statement_index: 2 }),
            tag_not_found(4, at(1, 0)),
        ])
    );
}

#[test]
fn callee_is_not_entered_at_depth_zero() {
    let program = Program { bodies: vec![caller_of(1), callee_with_stale_write()] };
    assert_eq!(
        analyze(&program, 0, Vec::new(), 0),
        Ok(vec![tag_not_found(5, at(1, 0)), tag_not_found(4, at(1, 0))])
    );
}

#[test]
fn callee_frame_starts_from_its_parameters_only() {
    // the callee writes through parameter 1 and through location 2,
    // which no argument seeds
    let callee = one_block(
        locals(&[true, true, true]),
        vec![
            Statement::Assign(deref(1), Rvalue::Use(Operand::Constant)),
            Statement::Assign(deref(2), Rvalue::Use(Operand::Constant)),
        ],
        Terminator::Return,
    );
    let caller = one_block(
        locals(&[true, true, true]),
        vec![assign_const(1), assign_const(2)],
        Terminator::Call {
            target: CallTarget::Resolved(1),
            args: vec![Operand::Move(direct(1))],
            destination: direct(0),
        },
    );
    let program = Program { bodies: vec![caller, callee] };
    assert_eq!(
        analyze(&program, 0, Vec::new(), 4),
        Ok(vec![tag_not_found(2, Location { function: 1, block: 0, statement_index: 1 })])
    );
}

fn recursive_body() -> Body {
    // fn(): read *_1; _0 = self()
    one_block(
        locals(&[true, true]),
        vec![Statement::Assign(direct(0), Rvalue::Use(Operand::Copy(deref(1))))],
        Terminator::Call {
            target: CallTarget::Resolved(0),
            args: Vec::new(),
            destination: direct(0),
        },
    )
}

#[test]
fn recursion_ends_at_the_depth() {
    let program = Program { bodies: vec![recursive_body()] };
    let one = tag_not_found(1, at(0, 0));
    assert_eq!(analyze(&program, 0, Vec::new(), 0), Ok(vec![one]));
    assert_eq!(analyze(&program, 0, Vec::new(), 3), Ok(vec![one, one, one, one]));
    let mut visitor = MirVisitor::new(&program, Vec::new());
    assert_eq!(visitor.visit_body(0), Ok(()));
    assert_eq!(visitor.findings().len(), CALL_DEPTH + 1);
    let mut shallow = MirVisitor::with_depth(&program, Vec::new(), 2);
    assert_eq!(shallow.visit_body(0), Ok(()));
    assert_eq!(shallow.findings().len(), 3);
}

#[test]
fn blocks_are_walked_once_in_layout_order() {
    let body = Body {
        local_decls: locals(&[true, true, true]),
        basic_blocks: vec![
            BasicBlockData {
                statements: vec![Statement::Other],
                terminator: Some(Terminator::Other),
            },
            BasicBlockData { statements: Vec::new(), terminator: None },
            BasicBlockData {
                statements: vec![assign_const(1), Statement::Other],
                terminator: Some(Terminator::Return),
            },
        ],
    };
    let program = Program { bodies: vec![body] };
    let unsupported = |location: Location, detail: Detail| Finding {
        kind: FindingKind::UnsupportedConstruct,
        location,
        detail,
    };
    assert_eq!(
        analyze(&program, 0, Vec::new(), 1),
        Ok(vec![
            unsupported(at(0, 0), Detail::Statement),
            unsupported(at(0, 1), Detail::Terminator),
            unsupported(at(2, 1), Detail::Statement),
        ])
    );
}

#[test]
fn visit_basic_block_data_numbers_the_statements() {
    let program = empty_program();
    let mut visitor = MirVisitor::new(&program, Vec::new());
    let data = BasicBlockData {
        statements: vec![
            assign_const(1),
            Statement::Assign(direct(2), Rvalue::Use(Operand::Copy(deref(8)))),
        ],
        terminator: Some(Terminator::Assert { cond: Operand::Copy(deref(9)) }),
    };
    assert_eq!(visitor.visit_basic_block_data(6, &data), Ok(()));
    assert_eq!(
        visitor.findings(),
        vec![tag_not_found(8, at(6, 1)), tag_not_found(9, at(6, 2))]
    );
}

#[test]
fn declarations_form_stacks_but_no_nodes() {
    let body = Body { local_decls: locals(&[false, true, true]), basic_blocks: Vec::new() };
    let program = Program { bodies: vec![body] };
    let mut visitor = MirVisitor::new(&program, Vec::new());
    assert_eq!(visitor.visit_body(0), Ok(()));
    assert!(!visitor.alias_graph.does_variable_exits(0));
    assert!(!visitor.alias_graph.does_variable_exits(1));
    assert!(visitor.is_mutable(&Operand::Copy(direct(1))));
    assert!(!visitor.is_mutable(&Operand::Copy(direct(0))));
    assert_eq!(visitor.findings(), vec![]);
}

#[test]
fn unknown_function_is_malformed() {
    let program = empty_program();
    assert_eq!(analyze(&program, 0, Vec::new(), 1), Err(Malformed { function: 0 }));
    let mut visitor = MirVisitor::new(&program, Vec::new());
    assert_eq!(visitor.visit_body(3), Err(Malformed { function: 3 }));
}

#[test]
fn destination_out_of_range_is_malformed() {
    let body = one_block(
        locals(&[true, true]),
        vec![Statement::Other],
        Terminator::Call {
            target: CallTarget::Unresolved,
            args: Vec::new(),
            destination: direct(2),
        },
    );
    let program = Program { bodies: vec![body] };
    assert_eq!(analyze(&program, 0, Vec::new(), 1), Err(Malformed { function: 0 }));
}

#[test]
fn call_of_a_missing_function_is_malformed() {
    let body = one_block(
        locals(&[true]),
        Vec::new(),
        Terminator::Call {
            target: CallTarget::Resolved(1),
            args: Vec::new(),
            destination: direct(0),
        },
    );
    let program = Program { bodies: vec![body] };
    assert_eq!(analyze(&program, 0, Vec::new(), 0), Err(Malformed { function: 0 }));
}

#[test]
fn malformed_callee_fails_the_caller() {
    let callee = one_block(
        locals(&[true]),
        vec![assign_const(1)],
        Terminator::Return,
    );
    let caller = one_block(
        locals(&[true]),
        vec![Statement::Other],
        Terminator::Call {
            target: CallTarget::Resolved(1),
            args: Vec::new(),
            destination: direct(0),
        },
    );
    let program = Program { bodies: vec![caller, callee] };
    assert_eq!(analyze(&program, 0, Vec::new(), 1), Err(Malformed { function: 1 }));
    // the callee is not entered at depth 0, so its body is not looked at
    assert_eq!(
        analyze(&program, 0, Vec::new(), 0),
        Ok(vec![Finding {
            kind: FindingKind::UnsupportedConstruct,
            location: at(0, 0),
            detail: Detail::Statement,
        }])
    );
}
