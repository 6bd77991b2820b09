use bfcomp::assembly::{BasicBlockOp, CompileError, Operand};
use bfcomp::dispatch::{next_basic_block_number, BasicBlock, Op, Program, Session};
use bfcomp::dynamic::{call_stack, DynamicLocation};
use bfcomp::location::{
    cell, if_stmt, while_on, StaticLocation, CALL_SP, CURRENT_BASIC_BLOCK, CURRENT_BASIC_BLOCK_EQ0,
    CURRENT_BASIC_BLOCK_EQ1, JMP_TEMP, NEXT_BASIC_BLOCK, R0, R1, SP, TRASH,
};
use bfcomp::targets::{Backend, Source};

fn reg(a: usize) -> DynamicLocation {
    DynamicLocation::Static(cell(a))
}

#[test]
fn block_ids_start_at_one_and_labels_bind() {
    let mut session = Session::new();
    let a = BasicBlock::new(&mut session, Some(String::from("main")), vec![]);
    let b = BasicBlock::new(&mut session, None, vec![]);
    let c = BasicBlock::new(&mut session, Some(String::from("end")), vec![]);
    assert_eq!(a.number, 1);
    assert_eq!(b.number, 2);
    assert_eq!(c.number, 3);
    assert_eq!(a.next_basic_block(), 2);
    assert_eq!(session.lookup("main"), Some(1));
    assert_eq!(session.lookup("end"), Some(3));
    assert_eq!(session.lookup("nowhere"), None);
    assert_eq!(next_basic_block_number(&mut session), 4);
}

#[test]
fn newest_label_binding_wins() {
    let mut session = Session::new();
    BasicBlock::new(&mut session, Some(String::from("x")), vec![]);
    BasicBlock::new(&mut session, Some(String::from("x")), vec![]);
    assert_eq!(session.lookup("x"), Some(2));
}

#[test]
fn simple_instructions_lower_to_cell_emitters() {
    let r0 = reg(R0);
    let trash = cell(TRASH);
    assert_eq!(BasicBlockOp::HexDump.assemble().unwrap(), "#");
    assert_eq!(BasicBlockOp::DecimalDump.assemble().unwrap(), "$");
    assert_eq!(
        BasicBlockOp::Assign { src: Operand::Immediate(5), dest: r0 }.assemble().unwrap(),
        cell(R0).set_const(5)
    );
    assert_eq!(BasicBlockOp::Inc(r0, None).assemble().unwrap(), cell(R0).inc());
    assert_eq!(BasicBlockOp::Dec(r0, Some(3)).assemble().unwrap(), cell(R0).sub_const(3));
    assert_eq!(BasicBlockOp::GetChar(None).assemble().unwrap(), trash.getchar());
    assert_eq!(
        BasicBlockOp::PutChar(Operand::Immediate(72)).assemble().unwrap(),
        trash.set_const(72) + &trash.putchar()
    );
    assert_eq!(BasicBlockOp::Pop(None).assemble().unwrap(), cell(SP).dec());
}

#[test]
fn push_stages_a_location_before_moving_the_stack_pointer() {
    let sp = cell(SP);
    let out = BasicBlockOp::Push(Operand::Location(reg(R0))).assemble().unwrap();
    let expected = reg(bfcomp::location::PUSH_TEMP).set_from(reg(R0))
        + &sp.inc()
        + &sp.stack_deref().set_from(reg(bfcomp::location::PUSH_TEMP));
    assert_eq!(out, expected);
}

#[test]
fn arithmetic_goes_through_t0_and_t1() {
    let out = BasicBlockOp::Add {
        lhs: Operand::Location(reg(R0)),
        rhs: Operand::Immediate(10),
        dest: reg(R1),
    }
    .assemble()
    .unwrap();
    let expected = reg(bfcomp::location::T0).set_from(reg(R0))
        + &reg(bfcomp::location::T1).set_const(10)
        + &DynamicLocation::plus(reg(R1), reg(bfcomp::location::T0), reg(bfcomp::location::T1));
    assert_eq!(out, expected);
}

#[test]
fn lea_of_a_fixed_cell_is_its_address() {
    let out = BasicBlockOp::GetAddr {
        src: reg(R1),
        dest: reg(R0),
        offset: Some(Operand::Immediate(2)),
        negative: true,
    }
    .assemble()
    .unwrap();
    assert_eq!(out, cell(R0).set_const(R1 as u64 - 2));
    let out = BasicBlockOp::GetAddr {
        src: cell(SP).stack_deref(),
        dest: reg(R0),
        offset: Some(Operand::Immediate(1)),
        negative: true,
    }
    .assemble()
    .unwrap();
    assert_eq!(out, cell(R0).set_from(cell(SP)) + &cell(R0).sub_const(1));
}

#[test]
fn mod_is_unimplemented() {
    let op = BasicBlockOp::Mod {
        lhs: Operand::Immediate(1),
        rhs: Operand::Immediate(2),
        dest: reg(R0),
    };
    assert!(matches!(op.assemble(), Err(CompileError::UnimplementedInstruction)));
}

#[test]
fn control_flow_sets_next_block() {
    let mut session = Session::new();
    let main = BasicBlock::new(&mut session, Some(String::from("main")), vec![]);
    let next = cell(NEXT_BASIC_BLOCK);
    assert_eq!(Op::Quit(9).goto_next_basic_block(&session).unwrap(), next.set_const(0));
    assert_eq!(
        Op::Jmp(9, String::from("main")).goto_next_basic_block(&session).unwrap(),
        next.set_const(main.number as u64)
    );
    let call = Op::Call(9, String::from("main")).goto_next_basic_block(&session).unwrap();
    let csp = cell(CALL_SP);
    assert_eq!(call, csp.inc() + &call_stack().set(csp, next) + &next.set_const(1));
    let ret = Op::Return(9).goto_next_basic_block(&session).unwrap();
    assert_eq!(ret, call_stack().get(csp, next) + &csp.dec());
    let jmp_if = Op::JmpIf(9, reg(R0), String::from("main")).goto_next_basic_block(&session).unwrap();
    let j = cell(JMP_TEMP);
    assert_eq!(
        jmp_if,
        reg(JMP_TEMP).set_from(reg(R0)) + &next.set_const(10) + &if_stmt(&j, next.set_const(1))
    );
    assert_eq!(
        Op::BasicBlock(main.clone()).goto_next_basic_block(&session).unwrap(),
        ""
    );
}

#[test]
fn unknown_label_is_an_error() {
    let session = Session::new();
    match Op::Jmp(1, String::from("nowhere")).assemble(&session) {
        Err(CompileError::UnknownLabel(l)) => assert_eq!(l, "nowhere"),
        other => panic!("unexpected {other:?}"),
    }
    let program = Program(vec![Op::Call(1, String::from("f")), Op::Quit(2)]);
    assert!(program.assemble(&session).is_err());
}

#[test]
fn op_runs_only_when_its_block_is_current() {
    let session = Session::new();
    let out = Op::Quit(4).assemble(&session).unwrap();
    let eq0 = cell(CURRENT_BASIC_BLOCK_EQ0);
    let eq1 = cell(CURRENT_BASIC_BLOCK_EQ1);
    let expected = eq1.set_const(4)
        + &StaticLocation::equals(eq0, cell(CURRENT_BASIC_BLOCK), eq1)
        + &if_stmt(&eq0, cell(NEXT_BASIC_BLOCK).set_const(0));
    assert_eq!(out, expected);
}

#[test]
fn program_is_a_dispatch_loop() {
    let mut session = Session::new();
    let bb = BasicBlock::new(
        &mut session,
        Some(String::from("main")),
        vec![BasicBlockOp::PutChar(Operand::Immediate(33))],
    );
    let quit = next_basic_block_number(&mut session);
    let mut program = Program(vec![Op::Label(String::from("main"), bb.clone())]);
    program.push(Op::Quit(quit));
    assert_eq!(program.len(), 2);
    let out = program.assemble(&session).unwrap();
    let next = cell(NEXT_BASIC_BLOCK);
    let current = cell(CURRENT_BASIC_BLOCK);
    let body = program.0[0].assemble(&session).unwrap() + &program.0[1].assemble(&session).unwrap();
    let expected = current.set_const(1)
        + &next.set_const(1)
        + &while_on(&next, next.inc() + &body + &current.set_from(next));
    assert_eq!(out, expected);
    assert_eq!(bb.assemble().unwrap(), bb.assemble_ops().unwrap());
}

#[test]
fn sources_and_backends() {
    assert_eq!(Source::from_file_extension("bf"), Some(Source::BrainFuck));
    assert_eq!(Source::from_file_extension("asm"), Some(Source::Assembly));
    assert_eq!(Source::from_file_extension("txt"), None);
    assert!(Source::Assembly.is_compatible_with(&Source::Assembly));
    assert!(!Source::Assembly.is_compatible_with(&Source::BrainFuck));
    assert_eq!(Backend::from_file_extension("c"), Some(Backend::C));
    assert_eq!(Backend::from_file_extension(""), Some(Backend::Exe));
    assert_eq!(Backend::from_file_extension("b"), Some(Backend::BrainFuck));
    assert_eq!(Backend::from_file_extension("rs"), None);
    assert!(Backend::C.is_compatible_with(&Backend::C32Bit));
    assert!(!Backend::C.is_compatible_with(&Backend::Exe));
    assert!(Backend::Run16Bit.is_compatible_with(&Backend::Run));
    assert_eq!(Backend::Run16Bit.bytes(), 2);
    assert_eq!(Backend::Exe32Bit.bytes(), 4);
    assert_eq!(Backend::BrainFuck.bytes(), 1);
    assert_eq!(Backend::C.to_file_extension(), "c");
    assert_eq!(Backend::C16Bit.to_file_extension(), "");
}

#[test]
fn debug_helper_prints_each_register() {
    let r0 = bfcomp::location::register("R0");
    let out = bfcomp::assembly::debug_helper(&vec![r0]);
    let trash = cell(TRASH);
    let expected = trash.putmsg("R0@17=") + &r0.putint() + &trash.putmsg("\n");
    assert_eq!(out, expected);
    assert_eq!(bfcomp::assembly::debug_helper(&vec![]), "");
}
