use bfcomp::assembly::{BasicBlockOp, Operand};
use bfcomp::dispatch::{next_basic_block_number, BasicBlock, Op, Program, Session};
use bfcomp::dynamic::{stack, DynamicLocation};
use bfcomp::location::{
    cell, register, StaticLocation, EQUALS_TEMP0, MATH_TEMP0, MATH_TEMP1, MATH_TEMP2, MATH_TEMP3,
    NOT_EQUALS_TEMP0, NOT_EQUALS_TEMP1, SET_TEMP,
};
use bfcomp::table::{global_alloc, Table, TapeAllocator};

/// A plain 8-bit BF machine: 30000 cells, reading 0 at the end of input.
struct Machine {
    tape: Vec<u8>,
    head: usize,
    output: Vec<u8>,
}

fn run_bf(code: &str, tape: Vec<u8>, input: &[u8]) -> Machine {
    let prog: Vec<u8> = code.bytes().filter(|b| b"+-<>[].,".contains(b)).collect();
    let mut jump = vec![0usize; prog.len()];
    let mut open = Vec::new();
    for (i, &c) in prog.iter().enumerate() {
        if c == b'[' {
            open.push(i);
        } else if c == b']' {
            let j = open.pop().expect("unbalanced ]");
            jump[i] = j;
            jump[j] = i;
        }
    }
    assert!(open.is_empty(), "unbalanced [");
    let mut m = Machine { tape, head: 0, output: Vec::new() };
    let mut input = input.iter();
    let mut pc = 0;
    while pc < prog.len() {
        match prog[pc] {
            b'+' => m.tape[m.head] = m.tape[m.head].wrapping_add(1),
            b'-' => m.tape[m.head] = m.tape[m.head].wrapping_sub(1),
            b'>' => m.head += 1,
            b'<' => m.head -= 1,
            b'.' => m.output.push(m.tape[m.head]),
            b',' => m.tape[m.head] = *input.next().unwrap_or(&0),
            b'[' => {
                if m.tape[m.head] == 0 {
                    pc = jump[pc];
                }
            }
            b']' => {
                if m.tape[m.head] != 0 {
                    pc = jump[pc];
                }
            }
            _ => {}
        }
        pc += 1;
    }
    m
}

fn tape_with(values: &[(usize, u8)]) -> Vec<u8> {
    let mut t = vec![0u8; 30000];
    for &(a, v) in values {
        t[a] = v;
    }
    t
}

const A: usize = 70;
const B: usize = 71;
const C: usize = 72;

fn binop(f: fn(StaticLocation, StaticLocation, StaticLocation) -> String, a: u8, b: u8) -> Machine {
    let code = f(cell(C), cell(A), cell(B));
    run_bf(&code, tape_with(&[(A, a), (B, b), (C, 99)]), b"")
}

#[test]
fn arithmetic_preserves_operands_and_clears_scratches() {
    let cases: [(u8, u8); 5] = [(20, 2), (7, 7), (0, 5), (255, 1), (9, 0)];
    for (a, b) in cases {
        let plus = binop(StaticLocation::plus, a, b);
        let minus = binop(StaticLocation::minus, a, b);
        let times = binop(StaticLocation::times, a, b);
        let eq = binop(StaticLocation::equals, a, b);
        let ne = binop(StaticLocation::not_equals, a, b);
        assert_eq!(plus.tape[C], a.wrapping_add(b));
        assert_eq!(minus.tape[C], a.wrapping_sub(b));
        assert_eq!(times.tape[C], a.wrapping_mul(b));
        assert_eq!(eq.tape[C], (a == b) as u8);
        assert_eq!(ne.tape[C], (a != b) as u8);
        for m in [&plus, &minus, &times, &eq, &ne] {
            assert_eq!(m.head, 0);
            assert_eq!((m.tape[A], m.tape[B]), (a, b));
            for s in [SET_TEMP, MATH_TEMP1, EQUALS_TEMP0, NOT_EQUALS_TEMP0, NOT_EQUALS_TEMP1] {
                assert_eq!(m.tape[s], 0, "scratch {s}");
            }
        }
        if b != 0 {
            let div = binop(StaticLocation::divide, a, b);
            assert_eq!(div.tape[C], a / b);
            assert_eq!(div.head, 0);
            assert_eq!((div.tape[A], div.tape[B]), (a, b));
            for s in [MATH_TEMP0, MATH_TEMP1, MATH_TEMP2, MATH_TEMP3] {
                assert_eq!(div.tape[s], 0);
            }
        }
    }
}

#[test]
fn negate_and_not() {
    for a in [0u8, 1, 5, 128, 255] {
        let n = run_bf(&StaticLocation::negate(cell(C), cell(A)), tape_with(&[(A, a)]), b"");
        assert_eq!(n.tape[C], a.wrapping_neg());
        assert_eq!((n.tape[A], n.head, n.tape[MATH_TEMP0]), (a, 0, 0));
        let b = run_bf(&StaticLocation::boolean_not(cell(C), cell(A)), tape_with(&[(A, a)]), b"");
        assert_eq!(b.tape[C], (a == 0) as u8);
        assert_eq!((b.tape[A], b.head, b.tape[MATH_TEMP0]), (a, 0, 0));
    }
}

#[test]
fn copy_preserves_source() {
    let m = run_bf(&cell(A).set_from(cell(B)), tape_with(&[(A, 3), (B, 42)]), b"");
    assert_eq!((m.tape[A], m.tape[B], m.tape[SET_TEMP], m.head), (42, 42, 0, 0));
}

#[test]
fn putint_prints_decimal() {
    for (v, text) in [(0u8, "0"), (7, "7"), (15, "15"), (120, "120"), (255, "255")] {
        let m = run_bf(&cell(A).putint(), tape_with(&[(A, v)]), b"");
        assert_eq!(String::from_utf8(m.output).unwrap(), text);
        assert_eq!((m.tape[A], m.head), (v, 0));
    }
}

#[test]
fn table_store_and_load_keep_flags_clear() {
    let mut alloc = TapeAllocator::new();
    alloc.next = 200;
    let idx = global_alloc(&mut alloc, 1);
    let val = global_alloc(&mut alloc, 1);
    let dst = global_alloc(&mut alloc, 1);
    let table = Table::allocate(&mut alloc, 10);
    let text = b"Hi world!";
    let mut code = String::new();
    for (i, &byte) in text.iter().enumerate() {
        code += &idx.set_const(i as u64);
        code += &val.set_const(byte as u64);
        code += &table.set(idx, val);
    }
    let stored = run_bf(&code, vec![0u8; 30000], b"");
    assert_eq!(stored.head, 0);
    // Outside the stored bytes, every cell of the table (its flags and
    // scratch cells) is back to 0.
    let base = table.start().address() - 1;
    let size = table.total_size();
    let mut expected: Vec<u8> = text.to_vec();
    expected.sort();
    let flags = |t: &Vec<u8>| {
        let mut nonzero: Vec<u8> = t[base..base + size].iter().copied().filter(|&v| v != 0).collect();
        nonzero.sort();
        nonzero == expected
    };
    assert!(flags(&stored.tape));
    for i in 0..text.len() {
        let mut load = idx.set_const(i as u64);
        load += &table.get(idx, dst);
        let m = run_bf(&load, stored.tape.clone(), b"");
        assert_eq!(m.tape[dst.address()], text[i]);
        assert_eq!(m.tape[idx.address()], i as u8);
        assert_eq!(m.head, 0);
        assert!(flags(&m.tape));
    }
}

#[test]
fn stack_elements_are_addressed_by_a_register() {
    let sp = register("SP");
    let code = sp.set_const(3)
        + &DynamicLocation::DerefStack(sp).set_const(77)
        + &DynamicLocation::Static(cell(A)).set_from(DynamicLocation::DerefStack(sp));
    let m = run_bf(&code, vec![0u8; 30000], b"");
    assert_eq!((m.tape[A], m.tape[sp.address()], m.head), (77, 3, 0));
    let _ = stack();
}

fn reg(name: &str) -> DynamicLocation {
    DynamicLocation::Static(register(name))
}

fn run_program(session: &Session, program: &Program, input: &[u8]) -> String {
    let bf = program.assemble(session).unwrap();
    let m = run_bf(&bf, vec![0u8; 30000], input);
    assert_eq!(m.head, 0);
    String::from_utf8(m.output).unwrap()
}

#[test]
fn math_program_prints_sum() {
    let mut session = Session::new();
    let ops = vec![
        BasicBlockOp::Assign { src: Operand::Immediate(5), dest: reg("R0") },
        BasicBlockOp::Assign { src: Operand::Immediate(10), dest: reg("R1") },
        BasicBlockOp::Add {
            lhs: Operand::Location(reg("R0")),
            rhs: Operand::Location(reg("R1")),
            dest: reg("R2"),
        },
        BasicBlockOp::PutInt(Operand::Location(reg("R2"))),
        BasicBlockOp::PutChar(Operand::Immediate(10)),
    ];
    let main = BasicBlock::new(&mut session, Some(String::from("main")), ops);
    let quit = next_basic_block_number(&mut session);
    let program = Program(vec![Op::Label(String::from("main"), main), Op::Quit(quit)]);
    assert_eq!(run_program(&session, &program, b""), "15\n");
}

#[test]
fn inc_dec_program_on_the_stack() {
    let mut session = Session::new();
    let top = register("SP").stack_deref();
    let ops = vec![
        BasicBlockOp::Assign { src: Operand::Immediate(5), dest: top },
        BasicBlockOp::PutInt(Operand::Location(top)),
        BasicBlockOp::PutChar(Operand::Immediate(10)),
        BasicBlockOp::Dec(top, None),
        BasicBlockOp::PutInt(Operand::Location(top)),
        BasicBlockOp::PutChar(Operand::Immediate(10)),
    ];
    let main = BasicBlock::new(&mut session, Some(String::from("main")), ops);
    let quit = next_basic_block_number(&mut session);
    let program = Program(vec![Op::Label(String::from("main"), main), Op::Quit(quit)]);
    assert_eq!(run_program(&session, &program, b""), "5\n4\n");
}

#[test]
fn call_returns_to_the_next_block() {
    let mut session = Session::new();
    let putc = |c: u8| BasicBlockOp::PutChar(Operand::Immediate(c as u64));
    let main = BasicBlock::new(
        &mut session,
        Some(String::from("main")),
        vec![putc(b'H'), putc(b'i'), putc(b'!'), putc(b'\n')],
    );
    let call = next_basic_block_number(&mut session);
    let after = BasicBlock::new(
        &mut session,
        None,
        vec![BasicBlockOp::PutInt(Operand::Location(reg("R0"))), putc(b'\n')],
    );
    let quit = next_basic_block_number(&mut session);
    let sub = BasicBlock::new(
        &mut session,
        Some(String::from("calc_max_int")),
        vec![
            BasicBlockOp::Assign { src: Operand::Immediate(0), dest: reg("R0") },
            BasicBlockOp::Dec(reg("R0"), None),
        ],
    );
    let ret = next_basic_block_number(&mut session);
    let end = next_basic_block_number(&mut session);
    let program = Program(vec![
        Op::Label(String::from("main"), main),
        Op::Call(call, String::from("calc_max_int")),
        Op::BasicBlock(after),
        Op::Quit(quit),
        Op::Label(String::from("calc_max_int"), sub),
        Op::Return(ret),
        Op::Quit(end),
    ]);
    assert_eq!(run_program(&session, &program, b""), "Hi!\n255\n");
}

#[test]
fn cat_program_echoes_until_zero() {
    let mut session = Session::new();
    let putc = |c: u8| BasicBlockOp::PutChar(Operand::Immediate(c as u64));
    let main = BasicBlock::new(&mut session, Some(String::from("main")), vec![]);
    let cat = BasicBlock::new(
        &mut session,
        Some(String::from("cat")),
        vec![
            BasicBlockOp::GetChar(Some(reg("R0"))),
            BasicBlockOp::Eq {
                lhs: Operand::Location(reg("R0")),
                rhs: Operand::Immediate(0),
                dest: reg("R1"),
            },
        ],
    );
    let jmp_if = next_basic_block_number(&mut session);
    let echo = BasicBlock::new(&mut session, None, vec![BasicBlockOp::PutChar(Operand::Location(reg("R0")))]);
    let jmp = next_basic_block_number(&mut session);
    let end = BasicBlock::new(
        &mut session,
        Some(String::from("end")),
        vec![putc(b'B'), putc(b'y'), putc(b'e'), putc(b'!'), putc(b'\n')],
    );
    let quit = next_basic_block_number(&mut session);
    let program = Program(vec![
        Op::Label(String::from("main"), main),
        Op::Label(String::from("cat"), cat),
        Op::JmpIf(jmp_if, reg("R1"), String::from("end")),
        Op::BasicBlock(echo),
        Op::Jmp(jmp, String::from("cat")),
        Op::Label(String::from("end"), end),
        Op::Quit(quit),
    ]);
    assert_eq!(run_program(&session, &program, b"Hello!\n"), "Hello!\nBye!\n");
}

#[test]
fn recursive_factorial() {
    let mut session = Session::new();
    let putc = |c: u8| BasicBlockOp::PutChar(Operand::Immediate(c as u64));
    let top = register("SP").stack_deref();
    let mut intro: Vec<BasicBlockOp> = b"Fact of ".iter().map(|&c| putc(c)).collect();
    intro.push(BasicBlockOp::Assign { src: Operand::Immediate(5), dest: reg("R0") });
    intro.push(BasicBlockOp::PutInt(Operand::Location(reg("R0"))));
    intro.push(putc(b':'));
    intro.push(putc(b' '));
    intro.push(BasicBlockOp::Push(Operand::Location(reg("R0"))));
    let main = BasicBlock::new(&mut session, Some(String::from("main")), intro);
    let call1 = next_basic_block_number(&mut session);
    let after = BasicBlock::new(
        &mut session,
        None,
        vec![BasicBlockOp::PutInt(Operand::Location(top)), putc(b'\n')],
    );
    let quit = next_basic_block_number(&mut session);
    let fact = BasicBlock::new(
        &mut session,
        Some(String::from("fact")),
        vec![BasicBlockOp::Eq {
            lhs: Operand::Location(top),
            rhs: Operand::Immediate(1),
            dest: reg("R0"),
        }],
    );
    let jmp_if = next_basic_block_number(&mut session);
    let recurse = BasicBlock::new(
        &mut session,
        None,
        vec![BasicBlockOp::Push(Operand::Location(top)), BasicBlockOp::Dec(top, None)],
    );
    let call2 = next_basic_block_number(&mut session);
    let combine = BasicBlock::new(
        &mut session,
        None,
        vec![
            BasicBlockOp::Pop(Some(reg("R0"))),
            BasicBlockOp::Mul {
                lhs: Operand::Location(top),
                rhs: Operand::Location(reg("R0")),
                dest: top,
            },
        ],
    );
    let ret1 = next_basic_block_number(&mut session);
    let end = BasicBlock::new(
        &mut session,
        Some(String::from("end")),
        vec![BasicBlockOp::Assign { src: Operand::Immediate(1), dest: top }],
    );
    let ret2 = next_basic_block_number(&mut session);
    let last = next_basic_block_number(&mut session);
    let program = Program(vec![
        Op::Label(String::from("main"), main),
        Op::Call(call1, String::from("fact")),
        Op::BasicBlock(after),
        Op::Quit(quit),
        Op::Label(String::from("fact"), fact),
        Op::JmpIf(jmp_if, reg("R0"), String::from("end")),
        Op::BasicBlock(recurse),
        Op::Call(call2, String::from("fact")),
        Op::BasicBlock(combine),
        Op::Return(ret1),
        Op::Label(String::from("end"), end),
        Op::Return(ret2),
        Op::Quit(last),
    ]);
    assert_eq!(run_program(&session, &program, b""), "Fact of 5: 120\n");
}

#[test]
fn lea_overwrites_a_stacked_cell() {
    let mut session = Session::new();
    let imm = |c: u8| Operand::Immediate(c as u64);
    let r0 = register("R0");
    let ops = vec![
        BasicBlockOp::Push(imm(b'\n')),
        BasicBlockOp::Push(imm(b'?')),
        BasicBlockOp::Push(imm(b'?')),
        BasicBlockOp::HexDump,
        BasicBlockOp::PutChar(imm(b'\n')),
        BasicBlockOp::GetAddr {
            src: register("SP").stack_deref(),
            dest: reg("R0"),
            offset: Some(imm(1)),
            negative: true,
        },
        BasicBlockOp::Assign { src: imm(b'!'), dest: r0.stack_deref() },
        BasicBlockOp::Pop(Some(reg("R1"))),
        BasicBlockOp::PutChar(Operand::Location(reg("R1"))),
        BasicBlockOp::Pop(Some(reg("R1"))),
        BasicBlockOp::PutChar(Operand::Location(reg("R1"))),
        BasicBlockOp::Pop(Some(reg("R1"))),
        BasicBlockOp::PutChar(Operand::Location(reg("R1"))),
    ];
    let main = BasicBlock::new(&mut session, Some(String::from("main")), ops);
    let quit = next_basic_block_number(&mut session);
    let program = Program(vec![Op::Label(String::from("main"), main), Op::Quit(quit)]);
    assert_eq!(run_program(&session, &program, b""), "\n?!\n");
}
