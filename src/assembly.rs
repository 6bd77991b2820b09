//! Operands and straight-line instructions of the assembly language, and the
//! BF each instruction lowers to.
use vstd::prelude::*;
use vstd::utf8::encode_utf8;
use vstd::string::StringSliceAdditionalSpecFns;
use crate::location::{
    StaticLocation, cell, dec_code, inc_code, set_const_code, equals_code, divide_code,
    negate_code, not_equals_code, sum_code, times_code, getchar_code, putchar_code, putint_code,
    putmsg_code,
    DYN_OP_TEMP0, DYN_OP_TEMP1, DYN_OP_TEMP2, PUSH_TEMP, SP, T0, T1, TRASH,
};
use crate::dynamic::{
    DynamicLocation, binop_code, dyn_add_code, dyn_copy_code, dyn_getchar_code, dyn_putchar_code,
    dyn_putint_code, dyn_set_const_code, t0_cell, t1_cell, t2_cell, unop_code,
};

verus! {

/// An instruction operand.
#[derive(Debug, Clone, Copy)]
pub enum Operand {
    /// A register, or a stack or heap element indexed by a register.
    Location(DynamicLocation),
    /// A constant value.
    Immediate(u64),
}

/// A straight-line instruction.
#[derive(Debug, Clone, Copy)]
pub enum BasicBlockOp {
    /// Pushes the operand onto the stack.
    Push(Operand),
    /// Pops the top of the stack, into the location if one is given.
    Pop(Option<DynamicLocation>),
    /// Reads a character, into the location if one is given.
    GetChar(Option<DynamicLocation>),
    /// Prints the operand as a character.
    PutChar(Operand),
    /// Prints the operand in decimal.
    PutInt(Operand),
    /// `dest <- src`.
    Assign { src: Operand, dest: DynamicLocation },
    /// `dest <-` the effective address of `src`, plus or minus `offset`.
    GetAddr { src: DynamicLocation, dest: DynamicLocation, offset: Option<Operand>, negative: bool },
    Add { lhs: Operand, rhs: Operand, dest: DynamicLocation },
    Sub { lhs: Operand, rhs: Operand, dest: DynamicLocation },
    Mul { lhs: Operand, rhs: Operand, dest: DynamicLocation },
    Div { lhs: Operand, rhs: Operand, dest: DynamicLocation },
    /// Accepted, but has no lowering.
    Mod { lhs: Operand, rhs: Operand, dest: DynamicLocation },
    Neg { src: Operand, dest: DynamicLocation },
    Eq { lhs: Operand, rhs: Operand, dest: DynamicLocation },
    Ne { lhs: Operand, rhs: Operand, dest: DynamicLocation },
    /// Adds the amount (1 if none is given).
    Inc(DynamicLocation, Option<u64>),
    /// Subtracts the amount (1 if none is given).
    Dec(DynamicLocation, Option<u64>),
    /// Prints a hexadecimal dump of the tape.
    HexDump,
    /// Prints a decimal dump of the tape.
    DecimalDump,
}

/// Why a program could not be lowered.
#[derive(Debug, Clone)]
pub enum CompileError {
    /// A jump or call names a label that no block carries.
    UnknownLabel(String),
    /// The instruction has no lowering.
    UnimplementedInstruction,
}

pub open spec fn reg(a: usize) -> DynamicLocation {
    DynamicLocation::Static(StaticLocation::Address(a))
}

pub open spec fn top_of_stack() -> DynamicLocation {
    DynamicLocation::DerefStack(StaticLocation::Address(SP))
}

/// Stages an operand in cell `dst`.
pub open spec fn load_code(dst: usize, op: Operand) -> Seq<char> {
    match op {
        Operand::Immediate(n) => dyn_set_const_code(reg(dst), n as nat),
        Operand::Location(l) => dyn_copy_code(reg(dst), l),
    }
}

/// `SP <- SP + 1; stack[SP] <- v`; a location goes through `PUSH_TEMP` first.
pub open spec fn push_code(op: Operand) -> Seq<char> {
    match op {
        Operand::Immediate(n) => inc_code(SP as nat) + dyn_set_const_code(top_of_stack(), n as nat),
        Operand::Location(l) => dyn_copy_code(reg(PUSH_TEMP), l) + inc_code(SP as nat)
            + dyn_copy_code(top_of_stack(), reg(PUSH_TEMP)),
    }
}

/// `d <- stack[SP]; SP <- SP - 1`.
pub open spec fn pop_code(op: Option<DynamicLocation>) -> Seq<char> {
    match op {
        None => dec_code(SP as nat),
        Some(l) => dyn_copy_code(l, top_of_stack()) + dec_code(SP as nat),
    }
}

/// A fixed address moved by a literal offset, wrapping at 64 bits.
pub open spec fn offset_address(addr: nat, n: u64, negative: bool) -> nat {
    if negative {
        ((addr - n) % 0x1_0000_0000_0000_0000) as nat
    } else {
        ((addr + n) % 0x1_0000_0000_0000_0000) as nat
    }
}

/// A literal offset as a signed change of a cell.
pub open spec fn signed_offset(n: u64, negative: bool) -> int {
    if negative {
        -((n as i64) as int)
    } else {
        (n as i64) as int
    }
}

pub open spec fn offset_op_code(dest: DynamicLocation, off: DynamicLocation, negative: bool) -> Seq<char> {
    binop_code(sum_code(t2_cell(), t0_cell(), t1_cell(), !negative), dest, dest, off)
}

pub open spec fn lea_code(
    src: DynamicLocation,
    dest: DynamicLocation,
    offset: Option<Operand>,
    negative: bool,
) -> Seq<char> {
    match src {
        DynamicLocation::Static(l) => match offset {
            None => dyn_set_const_code(dest, l.cell()),
            Some(Operand::Immediate(n)) => dyn_set_const_code(dest, offset_address(l.cell(), n, negative)),
            Some(Operand::Location(o)) => dyn_set_const_code(dest, l.cell()) + offset_op_code(
                dest,
                o,
                negative,
            ),
        },
        DynamicLocation::DerefStack(l) | DynamicLocation::DerefHeap(l) => match offset {
            None => dyn_copy_code(dest, DynamicLocation::Static(l)),
            Some(Operand::Immediate(n)) => dyn_copy_code(dest, DynamicLocation::Static(l))
                + dyn_add_code(dest, signed_offset(n, negative)),
            Some(Operand::Location(o)) => dyn_copy_code(dest, DynamicLocation::Static(l))
                + offset_op_code(dest, o, negative),
        },
    }
}

/// Operands staged in `T0` and `T1`, then the fixed-cell emitter `op`.
pub open spec fn arith_code(op: Seq<char>, lhs: Operand, rhs: Operand, dest: DynamicLocation) -> Seq<
    char,
> {
    load_code(T0, lhs) + load_code(T1, rhs) + binop_code(op, dest, reg(T0), reg(T1))
}

/// What a straight-line instruction lowers to (`Mod` has no lowering).
pub open spec fn lowering(op: BasicBlockOp) -> Seq<char> {
    match op {
        BasicBlockOp::Push(o) => push_code(o),
        BasicBlockOp::Pop(o) => pop_code(o),
        BasicBlockOp::HexDump => seq!['#'],
        BasicBlockOp::DecimalDump => seq!['$'],
        BasicBlockOp::Inc(l, amount) => match amount {
            None => dyn_add_code(l, 1),
            Some(k) => dyn_add_code(l, (k as i64) as int),
        },
        BasicBlockOp::Dec(l, amount) => match amount {
            None => dyn_add_code(l, -1),
            Some(k) => dyn_add_code(l, -((k as i64) as int)),
        },
        BasicBlockOp::GetAddr { src, dest, offset, negative } => lea_code(src, dest, offset, negative),
        BasicBlockOp::Assign { src, dest } => match src {
            Operand::Immediate(n) => dyn_set_const_code(dest, n as nat),
            Operand::Location(l) => dyn_copy_code(dest, l),
        },
        BasicBlockOp::GetChar(o) => match o {
            None => getchar_code(TRASH as nat),
            Some(l) => dyn_getchar_code(l),
        },
        BasicBlockOp::PutChar(o) => match o {
            Operand::Immediate(n) => set_const_code(TRASH as nat, n as nat) + putchar_code(
                TRASH as nat,
            ),
            Operand::Location(l) => dyn_putchar_code(l),
        },
        BasicBlockOp::PutInt(o) => match o {
            Operand::Immediate(n) => set_const_code(TRASH as nat, n as nat) + putint_code(TRASH as nat),
            Operand::Location(l) => dyn_putint_code(l),
        },
        BasicBlockOp::Add { lhs, rhs, dest } => arith_code(
            sum_code(t2_cell(), t0_cell(), t1_cell(), true),
            lhs,
            rhs,
            dest,
        ),
        BasicBlockOp::Sub { lhs, rhs, dest } => arith_code(
            sum_code(t2_cell(), t0_cell(), t1_cell(), false),
            lhs,
            rhs,
            dest,
        ),
        BasicBlockOp::Mul { lhs, rhs, dest } => arith_code(
            times_code(t2_cell(), t0_cell(), t1_cell()),
            lhs,
            rhs,
            dest,
        ),
        BasicBlockOp::Div { lhs, rhs, dest } => arith_code(
            divide_code(t2_cell(), t0_cell(), t1_cell()),
            lhs,
            rhs,
            dest,
        ),
        BasicBlockOp::Eq { lhs, rhs, dest } => arith_code(
            equals_code(t2_cell(), t0_cell(), t1_cell()),
            lhs,
            rhs,
            dest,
        ),
        BasicBlockOp::Ne { lhs, rhs, dest } => arith_code(
            not_equals_code(t2_cell(), t0_cell(), t1_cell()),
            lhs,
            rhs,
            dest,
        ),
        BasicBlockOp::Neg { src, dest } => load_code(T0, src) + unop_code(
            negate_code(t1_cell(), t0_cell()),
            dest,
            reg(T0),
        ),
        BasicBlockOp::Mod { .. } => Seq::empty(),
    }
}

/// Stages `op` in the fixed cell `dst`.
fn load_operand(dst: usize, op: Operand) -> (r: String)
    ensures
        r@ == load_code(dst, op),
{
    let d = DynamicLocation::Static(cell(dst));
    match op {
        Operand::Immediate(n) => d.set_const(n),
        Operand::Location(loc) => d.set_from(loc),
    }
}

fn push(op: Operand) -> (r: String)
    ensures
        r@ == push_code(op),
{
    let sp = cell(SP);
    match op {
        Operand::Immediate(n) => {
            let mut out = sp.inc();
            out.append(&sp.stack_deref().set_const(n));
            out
        },
        Operand::Location(loc) => {
            let temp = DynamicLocation::Static(cell(PUSH_TEMP));
            let mut out = temp.set_from(loc);
            out.append(&sp.inc());
            out.append(&sp.stack_deref().set_from(temp));
            out
        },
    }
}

fn pop(op: Option<DynamicLocation>) -> (r: String)
    ensures
        r@ == pop_code(op),
{
    let sp = cell(SP);
    match op {
        None => sp.dec(),
        Some(loc) => {
            let mut out = loc.set_from(sp.stack_deref());
            out.append(&sp.dec());
            out
        },
    }
}

/// Stages both operands in `T0` and `T1` and runs the fixed-cell emitter.
fn arith(
    binop: impl Fn(StaticLocation, StaticLocation, StaticLocation) -> String,
    lhs: Operand,
    rhs: Operand,
    dest: DynamicLocation,
) -> (r: String)
    requires
        call_requires(
            binop,
            (StaticLocation::Address(DYN_OP_TEMP2), StaticLocation::Address(
                DYN_OP_TEMP0,
            ), StaticLocation::Address(DYN_OP_TEMP1)),
        ),
    ensures
        exists|s: String|
            call_ensures(
                binop,
                (StaticLocation::Address(DYN_OP_TEMP2), StaticLocation::Address(
                    DYN_OP_TEMP0,
                ), StaticLocation::Address(DYN_OP_TEMP1)),
                s,
            ) && r@ == arith_code(s@, lhs, rhs, dest),
{
    let mut out = load_operand(T0, lhs);
    out.append(&load_operand(T1, rhs));
    out.append(
        &DynamicLocation::static_binop(
            binop,
            dest,
            DynamicLocation::Static(cell(T0)),
            DynamicLocation::Static(cell(T1)),
        ),
    );
    out
}

/// `dest <- dest ± off`, by the dynamic adder or subtractor.
fn offset_by(dest: DynamicLocation, off: DynamicLocation, negative: bool) -> (r: String)
    ensures
        r@ == offset_op_code(dest, off, negative),
{
    if negative {
        DynamicLocation::minus(dest, dest, off)
    } else {
        DynamicLocation::plus(dest, dest, off)
    }
}

#[verifier::rlimit(30)]
fn lea(src: DynamicLocation, dest: DynamicLocation, offset: Option<Operand>, negative: bool) -> (r:
    String)
    ensures
        r@ == lea_code(src, dest, offset, negative),
{
    match src {
        DynamicLocation::Static(loc) => {
            let a = loc.address() as u64;
            match offset {
                None => dest.set_const(a),
                Some(Operand::Immediate(n)) => {
                    let v = if negative {
                        a.wrapping_sub(n)
                    } else {
                        a.wrapping_add(n)
                    };
                    dest.set_const(v)
                },
                Some(Operand::Location(o)) => {
                    let mut out = dest.set_const(a);
                    out.append(&offset_by(dest, o, negative));
                    out
                },
            }
        },
        DynamicLocation::DerefStack(loc) | DynamicLocation::DerefHeap(loc) => {
            let mut out = dest.set_from(DynamicLocation::Static(loc));
            match offset {
                None => {},
                Some(Operand::Immediate(n)) => {
                    let k = #[verifier::truncate] (n as i64);
                    if negative {
                        out.append(&dest.sub_const(k));
                    } else {
                        out.append(&dest.add_const(k));
                    }
                },
                Some(Operand::Location(o)) => {
                    out.append(&offset_by(dest, o, negative));
                },
            }
            out
        },
    }
}

impl BasicBlockOp {
    /// Lowers the instruction to BF; `Mod` has no lowering.
    pub fn assemble(&self) -> (r: Result<String, CompileError>)
        ensures
            self is Mod <==> r is Err,
            r matches Err(e) ==> e is UnimplementedInstruction,
            r matches Ok(s) ==> s@ == lowering(*self),
    {
        let trash = cell(TRASH);
        let out = match *self {
            BasicBlockOp::Push(op) => push(op),
            BasicBlockOp::Pop(op) => pop(op),
            BasicBlockOp::HexDump => {
                proof {
                    reveal_strlit("#");
                    assert("#"@ =~= seq!['#']);
                }
                String::from_str("#")
            },
            BasicBlockOp::DecimalDump => {
                proof {
                    reveal_strlit("$");
                    assert("$"@ =~= seq!['$']);
                }
                String::from_str("$")
            },
            BasicBlockOp::Inc(loc, amount) => match amount {
                None => loc.inc(),
                Some(k) => loc.add_const(#[verifier::truncate] (k as i64)),
            },
            BasicBlockOp::Dec(loc, amount) => match amount {
                None => loc.dec(),
                Some(k) => loc.sub_const(#[verifier::truncate] (k as i64)),
            },
            BasicBlockOp::GetAddr { src, dest, offset, negative } => lea(src, dest, offset, negative),
            BasicBlockOp::Assign { src, dest } => match src {
                Operand::Immediate(n) => dest.set_const(n),
                Operand::Location(loc) => dest.set_from(loc),
            },
            BasicBlockOp::GetChar(None) => trash.getchar(),
            BasicBlockOp::GetChar(Some(loc)) => loc.getchar(),
            BasicBlockOp::PutChar(Operand::Immediate(n)) => {
                let mut out = trash.set_const(n);
                out.append(&trash.putchar());
                out
            },
            BasicBlockOp::PutChar(Operand::Location(loc)) => loc.putchar(),
            BasicBlockOp::PutInt(Operand::Immediate(n)) => {
                let mut out = trash.set_const(n);
                out.append(&trash.putint());
                out
            },
            BasicBlockOp::PutInt(Operand::Location(loc)) => loc.putint(),
            BasicBlockOp::Add { lhs, rhs, dest } => arith(StaticLocation::plus, lhs, rhs, dest),
            BasicBlockOp::Sub { lhs, rhs, dest } => arith(StaticLocation::minus, lhs, rhs, dest),
            BasicBlockOp::Mul { lhs, rhs, dest } => arith(StaticLocation::times, lhs, rhs, dest),
            BasicBlockOp::Div { lhs, rhs, dest } => arith(StaticLocation::divide, lhs, rhs, dest),
            BasicBlockOp::Eq { lhs, rhs, dest } => arith(StaticLocation::equals, lhs, rhs, dest),
            BasicBlockOp::Ne { lhs, rhs, dest } => arith(StaticLocation::not_equals, lhs, rhs, dest),
            BasicBlockOp::Neg { src, dest } => {
                let mut out = load_operand(T0, src);
                out.append(
                    &DynamicLocation::static_unop(
                        StaticLocation::negate,
                        dest,
                        DynamicLocation::Static(cell(T0)),
                    ),
                );
                out
            },
            BasicBlockOp::Mod { .. } => {
                return Err(CompileError::UnimplementedInstruction);
            },
        };
        Ok(out)
    }
}

/// What `debug_helper` prints for one register: `name@address=value` and a newline.
pub open spec fn debug_line(reg: StaticLocation) -> Seq<char> {
    let t = TRASH as nat;
    putmsg_code(t, encode_utf8(reg.text() + seq!['='])) + putint_code(reg.cell()) + putmsg_code(
        t,
        encode_utf8(seq!['\n']),
    )
}

pub open spec fn debug_code(regs: Seq<StaticLocation>) -> Seq<char>
    decreases regs.len(),
{
    if regs.len() == 0 {
        Seq::empty()
    } else {
        debug_code(regs.drop_last()) + debug_line(regs.last())
    }
}

/// Code that prints each register of `regs` with its value, through `TRASH`.
#[verifier::rlimit(40)]
pub fn debug_helper(regs: &Vec<StaticLocation>) -> (r: String)
    ensures
        r@ == debug_code(regs@),
{
    let mut result = String::new();
    let mut i: usize = 0;
    while i < regs.len()
        invariant
            i <= regs@.len(),
            result@ == debug_code(regs@.take(i as int)),
        decreases regs@.len() - i,
    {
        let trash = cell(TRASH);
        let reg = regs[i];
        let mut label = reg.describe();
        label.append("=");
        proof {
            reveal_strlit("=");
            assert("="@ =~= seq!['=']);
            reveal_strlit("\n");
            assert("\n"@ =~= seq!['\n']);
        }
        let ghost before = result@;
        let text = label.as_str();
        let newline = "\n";
        assert(text.spec_bytes() == encode_utf8(reg.text() + seq!['=']));
        assert(newline.spec_bytes() == encode_utf8(seq!['\n']));
        let m1 = trash.putmsg(text);
        let m2 = reg.putint();
        let m3 = trash.putmsg(newline);
        result.append(&m1);
        result.append(&m2);
        result.append(&m3);
        assert(result@ =~= before + debug_line(reg));
        proof {
            let t = regs@.take(i + 1);
            assert(t.drop_last() =~= regs@.take(i as int));
            assert(t.last() == reg);
        }
        i = i + 1;
    }
    assert(regs@.take(regs@.len() as int) =~= regs@);
    result
}

} // verus!
