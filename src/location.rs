//! Fixed tape cells, the register file, and the primitive emitters on a fixed cell.
//!
//! Every emitter moves the head from home to the cells it works on and back,
//! so its text returns home (see `code::returns_home`).
use vstd::prelude::*;
use vstd::string::StringSliceAdditionalSpecFns;
use crate::code::{digits, push_digits};
use crate::code::{
    rep, returns_home, lemma_returns_home_loop, lemma_shifts_concat, lemma_shifts_concat3,
    lemma_shifts_empty, lemma_shifts_moves, lemma_shifts_plain, lemma_shifts_rep_plain,
    push_repeat, repeat_str,
};

verus! {

// The register file, by address. Cell 0 is the home cell.
pub const NEXT_BASIC_BLOCK: usize = 1;
pub const CURRENT_BASIC_BLOCK: usize = 2;
pub const CURRENT_BASIC_BLOCK_EQ0: usize = 3;
pub const CURRENT_BASIC_BLOCK_EQ1: usize = 4;
pub const SP: usize = 5;
pub const HP: usize = 6;
pub const IDX_TEMP: usize = 7;
pub const VAL_TEMP: usize = 8;
pub const CALL_SP: usize = 9;
pub const PUSH_TEMP: usize = 10;
pub const T0: usize = 11;
pub const T1: usize = 12;
pub const T2: usize = 13;
pub const T3: usize = 14;
pub const T4: usize = 15;
pub const T5: usize = 16;
pub const R0: usize = 17;
pub const R1: usize = 18;
pub const R2: usize = 19;
pub const R3: usize = 20;
pub const R4: usize = 21;
pub const R5: usize = 22;
pub const DYN_OP_TEMP0: usize = 23;
pub const DYN_OP_TEMP1: usize = 24;
pub const DYN_OP_TEMP2: usize = 25;
pub const PUT_INT0: usize = 26;
pub const PUT_INT1: usize = 27;
pub const PUT_INT2: usize = 28;
pub const PUT_INT3: usize = 29;
pub const PUT_INT4: usize = 30;
pub const PUT_INT5: usize = 31;
pub const PUT_INT6: usize = 32;
pub const PUT_INT7: usize = 33;
pub const PUT_INT8: usize = 34;
pub const PUT_INT10: usize = 35;
pub const JMP_TEMP: usize = 36;
pub const SET_TEMP: usize = 37;
pub const DYN_SET_TEMP: usize = 38;
pub const EQUALS_TEMP0: usize = 39;
pub const EQUALS_TEMP1: usize = 40;
pub const NOT_EQUALS_TEMP0: usize = 41;
pub const NOT_EQUALS_TEMP1: usize = 42;
pub const MATH_TEMP0: usize = 43;
pub const MATH_TEMP1: usize = 44;
pub const MATH_TEMP2: usize = 45;
pub const MATH_TEMP3: usize = 46;
pub const IF_TEMP0: usize = 47;
pub const R6: usize = 48;
pub const R7: usize = 49;
pub const R8: usize = 50;
pub const R9: usize = 51;
pub const R10: usize = 52;
pub const R11: usize = 53;
pub const R12: usize = 54;
pub const R13: usize = 55;
pub const R14: usize = 56;
pub const R15: usize = 57;
pub const ZERO: usize = 58;
pub const TRASH: usize = 59;

/// Number of registers; they occupy cells `1..=REGISTER_COUNT`.
pub const REGISTER_COUNT: usize = 59;

/// The home cell.
pub const NULL: usize = 0;

/// The name of register `i` (its cell is `i + 1`).
pub open spec fn register_name_spec(i: nat) -> Seq<char> {
    if i == 0 { "NEXT_BASIC_BLOCK"@ }
    else if i == 1 { "CURRENT_BASIC_BLOCK"@ }
    else if i == 2 { "CURRENT_BASIC_BLOCK_EQ0"@ }
    else if i == 3 { "CURRENT_BASIC_BLOCK_EQ1"@ }
    else if i == 4 { "SP"@ }
    else if i == 5 { "HP"@ }
    else if i == 6 { "IDX_TEMP"@ }
    else if i == 7 { "VAL_TEMP"@ }
    else if i == 8 { "CALL_SP"@ }
    else if i == 9 { "PUSH_TEMP"@ }
    else if i == 10 { "T0"@ }
    else if i == 11 { "T1"@ }
    else if i == 12 { "T2"@ }
    else if i == 13 { "T3"@ }
    else if i == 14 { "T4"@ }
    else if i == 15 { "T5"@ }
    else if i == 16 { "R0"@ }
    else if i == 17 { "R1"@ }
    else if i == 18 { "R2"@ }
    else if i == 19 { "R3"@ }
    else if i == 20 { "R4"@ }
    else if i == 21 { "R5"@ }
    else if i == 22 { "DYN_OP_TEMP0"@ }
    else if i == 23 { "DYN_OP_TEMP1"@ }
    else if i == 24 { "DYN_OP_TEMP2"@ }
    else if i == 25 { "PUT_INT0"@ }
    else if i == 26 { "PUT_INT1"@ }
    else if i == 27 { "PUT_INT2"@ }
    else if i == 28 { "PUT_INT3"@ }
    else if i == 29 { "PUT_INT4"@ }
    else if i == 30 { "PUT_INT5"@ }
    else if i == 31 { "PUT_INT6"@ }
    else if i == 32 { "PUT_INT7"@ }
    else if i == 33 { "PUT_INT8"@ }
    else if i == 34 { "PUT_INT10"@ }
    else if i == 35 { "JMP_TEMP"@ }
    else if i == 36 { "SET_TEMP"@ }
    else if i == 37 { "DYN_SET_TEMP"@ }
    else if i == 38 { "EQUALS_TEMP0"@ }
    else if i == 39 { "EQUALS_TEMP1"@ }
    else if i == 40 { "NOT_EQUALS_TEMP0"@ }
    else if i == 41 { "NOT_EQUALS_TEMP1"@ }
    else if i == 42 { "MATH_TEMP0"@ }
    else if i == 43 { "MATH_TEMP1"@ }
    else if i == 44 { "MATH_TEMP2"@ }
    else if i == 45 { "MATH_TEMP3"@ }
    else if i == 46 { "IF_TEMP0"@ }
    else if i == 47 { "R6"@ }
    else if i == 48 { "R7"@ }
    else if i == 49 { "R8"@ }
    else if i == 50 { "R9"@ }
    else if i == 51 { "R10"@ }
    else if i == 52 { "R11"@ }
    else if i == 53 { "R12"@ }
    else if i == 54 { "R13"@ }
    else if i == 55 { "R14"@ }
    else if i == 56 { "R15"@ }
    else if i == 57 { "ZERO"@ }
    else { "TRASH"@ }
}

/// The name of register `i`, for `i < REGISTER_COUNT`.
pub fn register_name(i: usize) -> (r: &'static str)
    requires
        i < REGISTER_COUNT,
    ensures
        r@ == register_name_spec(i as nat),
{
    if i == 0 { "NEXT_BASIC_BLOCK" }
    else if i == 1 { "CURRENT_BASIC_BLOCK" }
    else if i == 2 { "CURRENT_BASIC_BLOCK_EQ0" }
    else if i == 3 { "CURRENT_BASIC_BLOCK_EQ1" }
    else if i == 4 { "SP" }
    else if i == 5 { "HP" }
    else if i == 6 { "IDX_TEMP" }
    else if i == 7 { "VAL_TEMP" }
    else if i == 8 { "CALL_SP" }
    else if i == 9 { "PUSH_TEMP" }
    else if i == 10 { "T0" }
    else if i == 11 { "T1" }
    else if i == 12 { "T2" }
    else if i == 13 { "T3" }
    else if i == 14 { "T4" }
    else if i == 15 { "T5" }
    else if i == 16 { "R0" }
    else if i == 17 { "R1" }
    else if i == 18 { "R2" }
    else if i == 19 { "R3" }
    else if i == 20 { "R4" }
    else if i == 21 { "R5" }
    else if i == 22 { "DYN_OP_TEMP0" }
    else if i == 23 { "DYN_OP_TEMP1" }
    else if i == 24 { "DYN_OP_TEMP2" }
    else if i == 25 { "PUT_INT0" }
    else if i == 26 { "PUT_INT1" }
    else if i == 27 { "PUT_INT2" }
    else if i == 28 { "PUT_INT3" }
    else if i == 29 { "PUT_INT4" }
    else if i == 30 { "PUT_INT5" }
    else if i == 31 { "PUT_INT6" }
    else if i == 32 { "PUT_INT7" }
    else if i == 33 { "PUT_INT8" }
    else if i == 34 { "PUT_INT10" }
    else if i == 35 { "JMP_TEMP" }
    else if i == 36 { "SET_TEMP" }
    else if i == 37 { "DYN_SET_TEMP" }
    else if i == 38 { "EQUALS_TEMP0" }
    else if i == 39 { "EQUALS_TEMP1" }
    else if i == 40 { "NOT_EQUALS_TEMP0" }
    else if i == 41 { "NOT_EQUALS_TEMP1" }
    else if i == 42 { "MATH_TEMP0" }
    else if i == 43 { "MATH_TEMP1" }
    else if i == 44 { "MATH_TEMP2" }
    else if i == 45 { "MATH_TEMP3" }
    else if i == 46 { "IF_TEMP0" }
    else if i == 47 { "R6" }
    else if i == 48 { "R7" }
    else if i == 49 { "R8" }
    else if i == 50 { "R9" }
    else if i == 51 { "R10" }
    else if i == 52 { "R11" }
    else if i == 53 { "R12" }
    else if i == 54 { "R13" }
    else if i == 55 { "R14" }
    else if i == 56 { "R15" }
    else if i == 57 { "ZERO" }
    else { "TRASH" }
}

/// All registers, in cell order, each under its name.
pub fn registers() -> (r: Vec<StaticLocation>)
    ensures
        r@.len() == REGISTER_COUNT,
        forall|i: int|
            0 <= i < REGISTER_COUNT ==> (#[trigger] r@[i]).cell() == i + 1 && (r@[i] matches StaticLocation::Named { name, .. }
                && name@ == register_name_spec(i as nat)),
{
    let mut out: Vec<StaticLocation> = Vec::new();
    let mut i: usize = 0;
    while i < REGISTER_COUNT
        invariant
            i <= REGISTER_COUNT,
            out@.len() == i,
            forall|j: int|
                0 <= j < i ==> (#[trigger] out@[j]).cell() == j + 1 && (out@[j] matches StaticLocation::Named { name, .. }
                    && name@ == register_name_spec(j as nat)),
        decreases REGISTER_COUNT - i,
    {
        out.push(StaticLocation::Named { name: register_name(i), addr: i + 1 });
        i = i + 1;
    }
    out
}

/// Character-wise equality of two strings.
pub fn str_equal(a: &str, b: &str) -> (r: bool)
    ensures
        r == (a@ == b@),
{
    let n = a.unicode_len();
    if n != b.unicode_len() {
        return false;
    }
    let mut i: usize = 0;
    while i < n
        invariant
            n == a@.len(),
            n == b@.len(),
            i <= n,
            forall|j: int| 0 <= j < i ==> a@[j] == b@[j],
        decreases n - i,
    {
        if a.get_char(i) != b.get_char(i) {
            return false;
        }
        i = i + 1;
    }
    assert(a@ =~= b@);
    true
}

/// `name` names a register.
pub open spec fn is_register_name(name: Seq<char>) -> bool {
    exists|i: nat| i < REGISTER_COUNT && register_name_spec(i) == name
}

/// The register named `name`, if any: the first register of that name.
pub fn lookup_register(name: &str) -> (r: Option<StaticLocation>)
    ensures
        r.is_none() <==> !is_register_name(name@),
        r matches Some(loc) ==> exists|i: nat|
            i < REGISTER_COUNT && register_name_spec(i) == name@ && loc.cell() == i + 1
                && (forall|j: nat| j < i ==> register_name_spec(j) != name@),
{
    let mut i: usize = 0;
    while i < REGISTER_COUNT
        invariant
            i <= REGISTER_COUNT,
            forall|j: nat| j < i ==> register_name_spec(j) != name@,
        decreases REGISTER_COUNT - i,
    {
        let candidate = register_name(i);
        if str_equal(candidate, name) {
            let loc = StaticLocation::Named { name: candidate, addr: i + 1 };
            assert(register_name_spec(i as nat) == name@);
            return Some(loc);
        }
        i = i + 1;
    }
    assert forall|k: nat| k < REGISTER_COUNT implies register_name_spec(k) != name@ by {
        assert(k < i);
    }
    None
}

/// The register named `name`.
pub fn register(name: &str) -> (r: StaticLocation)
    requires
        is_register_name(name@),
    ensures
        exists|i: nat|
            i < REGISTER_COUNT && register_name_spec(i) == name@ && r.cell() == i + 1
                && (forall|j: nat| j < i ==> register_name_spec(j) != name@),
{
    match lookup_register(name) {
        Some(loc) => loc,
        None => StaticLocation::Address(0),
    }
}

/// A fixed tape cell, optionally carrying a name for diagnostics.
#[derive(Clone, Copy, Debug)]
pub enum StaticLocation {
    /// A named location.
    Named { name: &'static str, addr: usize },
    /// A fixed address on the tape.
    Address(usize),
}

/// Two locations are equal when they denote the same cell, whatever their names.
impl PartialEq for StaticLocation {
    fn eq(&self, other: &StaticLocation) -> (r: bool) {
        self.address() == other.address()
    }
}

impl vstd::std_specs::cmp::PartialEqSpecImpl for StaticLocation {
    open spec fn obeys_eq_spec() -> bool {
        true
    }

    open spec fn eq_spec(&self, other: &StaticLocation) -> bool {
        self.cell() == other.cell()
    }
}

impl Eq for StaticLocation {
}

/// The fixed cell at `addr`.
pub fn cell(addr: usize) -> (r: StaticLocation)
    ensures
        r == StaticLocation::Address(addr),
        r.cell() == addr,
{
    StaticLocation::Address(addr)
}

// ---------------------------------------------------------------------
// The emitted text, as a function of the cells involved.
// ---------------------------------------------------------------------

pub open spec fn to_code(a: nat) -> Seq<char> {
    rep('>', a)
}

pub open spec fn from_code(a: nat) -> Seq<char> {
    rep('<', a)
}

/// `body` run with the head on cell `a`, starting and ending at home.
pub open spec fn at(a: nat, body: Seq<char>) -> Seq<char> {
    to_code(a) + body + from_code(a)
}

pub open spec fn clear_loop() -> Seq<char> {
    seq!['[', '-', ']']
}

pub open spec fn zero_code(a: nat) -> Seq<char> {
    at(a, clear_loop())
}

pub open spec fn add_code(a: nat, n: nat) -> Seq<char> {
    at(a, rep('+', n))
}

pub open spec fn sub_code(a: nat, n: nat) -> Seq<char> {
    at(a, rep('-', n))
}

pub open spec fn inc_code(a: nat) -> Seq<char> {
    add_code(a, 1)
}

pub open spec fn dec_code(a: nat) -> Seq<char> {
    sub_code(a, 1)
}

pub open spec fn set_const_code(a: nat, k: nat) -> Seq<char> {
    at(a, clear_loop() + rep('+', k))
}

/// Runs `body` while cell `x` is nonzero; `body` starts and ends at home.
pub open spec fn while_code(x: nat, body: Seq<char>) -> Seq<char> {
    at(x, seq!['['] + from_code(x) + body + to_code(x) + seq![']'])
}

/// `dst <- src` through the scratch cell `SET_TEMP`; nothing when the cells coincide.
pub open spec fn copy_code(dst: nat, src: nat) -> Seq<char> {
    if dst == src {
        Seq::empty()
    } else {
        zero_code(SET_TEMP as nat) + zero_code(dst)
            + while_code(src, inc_code(dst) + inc_code(SET_TEMP as nat) + dec_code(src))
            + while_code(SET_TEMP as nat, inc_code(src) + dec_code(SET_TEMP as nat))
    }
}

/// Runs `body` once when cell `x` is nonzero, leaving `x` as it was.
pub open spec fn if_code(x: nat, body: Seq<char>) -> Seq<char> {
    copy_code(IF_TEMP0 as nat, x) + at(
        IF_TEMP0 as nat,
        seq!['['] + from_code(IF_TEMP0 as nat) + body + to_code(IF_TEMP0 as nat) + seq!['[', '-', ']', ']'],
    )
}

pub open spec fn negate_code(x: nat, src: nat) -> Seq<char> {
    let t0 = MATH_TEMP0 as nat;
    copy_code(x, src) + zero_code(t0) + while_code(x, dec_code(t0) + dec_code(x))
        + while_code(t0, dec_code(x) + inc_code(t0))
}

pub open spec fn boolean_not_code(x: nat, src: nat) -> Seq<char> {
    let t0 = MATH_TEMP0 as nat;
    zero_code(t0) + copy_code(x, src) + while_code(x, inc_code(t0) + zero_code(x)) + inc_code(x)
        + while_code(t0, dec_code(x) + dec_code(t0))
}

pub open spec fn equals_code(x: nat, lhs: nat, rhs: nat) -> Seq<char> {
    let y = EQUALS_TEMP0 as nat;
    copy_code(x, lhs) + copy_code(y, rhs) + while_code(x, dec_code(x) + dec_code(y)) + inc_code(x)
        + while_code(y, dec_code(x) + zero_code(y))
}

pub open spec fn not_equals_code(x: nat, lhs: nat, y: nat) -> Seq<char> {
    let t0 = NOT_EQUALS_TEMP0 as nat;
    let t1 = NOT_EQUALS_TEMP1 as nat;
    zero_code(t0) + zero_code(t1) + copy_code(x, lhs) + while_code(x, inc_code(t1) + dec_code(x))
        + while_code(y, dec_code(t1) + inc_code(t0) + dec_code(y))
        + while_code(t0, inc_code(y) + dec_code(t0))
        + while_code(t1, inc_code(x) + zero_code(t1))
}

/// Shared shape of addition (`up`) and subtraction (`!up`) into `MATH_TEMP0`.
pub open spec fn sum_code(dest: nat, lhs: nat, y: nat, up: bool) -> Seq<char> {
    let x = MATH_TEMP0 as nat;
    let t0 = MATH_TEMP1 as nat;
    let step = if up { inc_code(x) } else { dec_code(x) };
    zero_code(t0) + copy_code(x, lhs) + while_code(y, step + inc_code(t0) + dec_code(y))
        + while_code(t0, inc_code(y) + dec_code(t0)) + copy_code(dest, x)
}

pub open spec fn times_code(x: nat, lhs: nat, y: nat) -> Seq<char> {
    let t0 = MATH_TEMP0 as nat;
    let t1 = MATH_TEMP1 as nat;
    zero_code(t0) + zero_code(t1) + copy_code(x, lhs) + while_code(x, inc_code(t1) + dec_code(x))
        + while_code(
        t1,
        while_code(y, inc_code(x) + inc_code(t0) + dec_code(y)) + while_code(
            t0,
            inc_code(y) + dec_code(t0),
        ) + dec_code(t1),
    )
}

/// The innermost step of division: one unit of the divisor is taken off.
pub open spec fn divide_step_code(x: nat) -> Seq<char> {
    let t0 = MATH_TEMP0 as nat;
    let t1 = MATH_TEMP1 as nat;
    let t2 = MATH_TEMP2 as nat;
    let t3 = MATH_TEMP3 as nat;
    inc_code(t2) + dec_code(t0) + while_code(t0, zero_code(t2) + inc_code(t3) + dec_code(t0))
        + while_code(t3, inc_code(t0) + dec_code(t3)) + while_code(
        t2,
        dec_code(t1) + while_code(t1, dec_code(x) + zero_code(t1)) + inc_code(t1) + dec_code(t2),
    ) + dec_code(t1)
}

pub open spec fn divide_code(x: nat, lhs: nat, y: nat) -> Seq<char> {
    let t0 = MATH_TEMP0 as nat;
    let t1 = MATH_TEMP1 as nat;
    let t2 = MATH_TEMP2 as nat;
    let t3 = MATH_TEMP3 as nat;
    zero_code(t0) + zero_code(t1) + zero_code(t2) + zero_code(t3) + copy_code(x, lhs)
        + while_code(x, inc_code(t0) + dec_code(x)) + while_code(
        t0,
        while_code(y, inc_code(t1) + inc_code(t2) + dec_code(y)) + while_code(
            t2,
            inc_code(y) + dec_code(t2),
        ) + while_code(t1, divide_step_code(x)) + inc_code(x),
    )
}

/// The standard decimal printing routine, run from `PUT_INT0`.
pub open spec fn put_int_routine() -> Seq<char> {
    ">[-]>[-]+>[-]+<[>[-<-<<[->+>+<<]>[-<+>]>>]++++++++++>[-]+>[-]>[-]>[-]<<<<<[->-[>+>>]>[[-<+>]+>+>>]<<<<<]>>-[-<<+>>]<[-]++++++++[-<++++++>]>>[-<<+>>]<<]<[.[-]<]<"@
}

pub open spec fn putint_code(src: nat) -> Seq<char> {
    copy_code(PUT_INT0 as nat, src) + zero_code(PUT_INT1 as nat) + zero_code(PUT_INT2 as nat)
        + zero_code(PUT_INT3 as nat) + set_const_code(PUT_INT4 as nat, 1) + zero_code(
        PUT_INT5 as nat,
    ) + zero_code(PUT_INT6 as nat) + zero_code(PUT_INT7 as nat) + at(
        PUT_INT0 as nat,
        put_int_routine(),
    )
}

pub open spec fn putchar_code(a: nat) -> Seq<char> {
    at(a, seq!['.'])
}

pub open spec fn getchar_code(a: nat) -> Seq<char> {
    at(a, seq![','])
}

/// Prints each byte of `msg` through cell `a`.
pub open spec fn putmsg_code(a: nat, msg: Seq<u8>) -> Seq<char>
    decreases msg.len(),
{
    if msg.len() == 0 {
        Seq::empty()
    } else {
        putmsg_code(a, msg.drop_last()) + set_const_code(a, msg.last() as nat) + putchar_code(a)
    }
}

/// Adding a signed amount: a run of `+`, or of `-` for a negative amount.
pub open spec fn add_signed_code(a: nat, k: int) -> Seq<char> {
    if k < 0 {
        sub_code(a, (-k) as nat)
    } else {
        add_code(a, k as nat)
    }
}

// ---------------------------------------------------------------------
// Returning home.
// ---------------------------------------------------------------------

pub broadcast proof fn lemma_home_concat(a: Seq<char>, b: Seq<char>)
    requires
        returns_home(a),
        returns_home(b),
    ensures
        #[trigger] returns_home(a + b),
{
    lemma_shifts_concat(a, b, 0, 0);
}

pub broadcast proof fn lemma_home_empty()
    ensures
        #[trigger] returns_home(Seq::<char>::empty()),
{
    lemma_shifts_empty();
}

pub broadcast proof fn lemma_home_at(a: nat, body: Seq<char>)
    requires
        returns_home(body),
    ensures
        #[trigger] returns_home(at(a, body)),
{
    lemma_shifts_moves(a);
    lemma_shifts_concat3(to_code(a), body, from_code(a), a as int, 0, -(a as int));
}

pub broadcast proof fn lemma_home_while(x: nat, body: Seq<char>)
    requires
        returns_home(body),
    ensures
        #[trigger] returns_home(while_code(x, body)),
{
    lemma_shifts_moves(x);
    lemma_shifts_concat3(from_code(x), body, to_code(x), -(x as int), 0, x as int);
    lemma_returns_home_loop(from_code(x) + body + to_code(x));
    assert(seq!['['] + from_code(x) + body + to_code(x) + seq![']'] =~= seq!['['] + (from_code(x)
        + body + to_code(x)) + seq![']']);
    lemma_home_at(x, seq!['['] + from_code(x) + body + to_code(x) + seq![']']);
}

pub broadcast proof fn lemma_home_add(a: nat, n: nat)
    ensures
        #[trigger] returns_home(add_code(a, n)),
{
    lemma_shifts_rep_plain('+', n);
    lemma_home_at(a, rep('+', n));
}

pub broadcast proof fn lemma_home_sub(a: nat, n: nat)
    ensures
        #[trigger] returns_home(sub_code(a, n)),
{
    lemma_shifts_rep_plain('-', n);
    lemma_home_at(a, rep('-', n));
}

pub broadcast proof fn lemma_home_set_const(a: nat, n: nat)
    ensures
        #[trigger] returns_home(set_const_code(a, n)),
{
    lemma_shifts_rep_plain('+', n);
    lemma_home_zero_loop();
    lemma_shifts_concat(clear_loop(), rep('+', n), 0, 0);
    lemma_home_at(a, clear_loop() + rep('+', n));
}

pub proof fn lemma_home_zero_loop()
    ensures
        returns_home(clear_loop()),
{
    lemma_shifts_plain('-');
    lemma_returns_home_loop(seq!['-']);
    assert(seq!['['] + seq!['-'] + seq![']'] =~= clear_loop());
}

pub broadcast proof fn lemma_home_zero(a: nat)
    ensures
        #[trigger] returns_home(zero_code(a)),
{
    lemma_home_zero_loop();
    lemma_home_at(a, clear_loop());
}

pub broadcast proof fn lemma_home_putchar(a: nat)
    ensures
        #[trigger] returns_home(putchar_code(a)),
{
    lemma_shifts_plain('.');
    lemma_home_at(a, seq!['.']);
}

pub broadcast proof fn lemma_home_getchar(a: nat)
    ensures
        #[trigger] returns_home(getchar_code(a)),
{
    lemma_shifts_plain(',');
    lemma_home_at(a, seq![',']);
}

pub broadcast group group_home {
    lemma_home_concat,
    lemma_home_empty,
    lemma_home_at,
    lemma_home_while,
    lemma_home_add,
    lemma_home_sub,
    lemma_home_set_const,
    lemma_home_zero,
    lemma_home_putchar,
    lemma_home_getchar,
}

pub broadcast proof fn lemma_home_copy(dst: nat, src: nat)
    ensures
        #[trigger] returns_home(copy_code(dst, src)),
{
    broadcast use group_home;

}

pub proof fn lemma_home_if(x: nat, body: Seq<char>)
    requires
        returns_home(body),
    ensures
        returns_home(if_code(x, body)),
{
    broadcast use group_home, lemma_home_copy;

    let t = IF_TEMP0 as nat;
    lemma_shifts_moves(t);
    lemma_home_zero_loop();
    lemma_shifts_concat3(from_code(t), body, to_code(t), -(t as int), 0, t as int);
    lemma_shifts_concat(from_code(t) + body + to_code(t), clear_loop(), 0, 0);
    lemma_returns_home_loop(from_code(t) + body + to_code(t) + clear_loop());
    assert(seq!['['] + from_code(t) + body + to_code(t) + seq!['[', '-', ']', ']'] =~= seq!['['] + (
    from_code(t) + body + to_code(t) + clear_loop()) + seq![']']);
}

pub proof fn lemma_home_putmsg(a: nat, msg: Seq<u8>)
    ensures
        returns_home(putmsg_code(a, msg)),
    decreases msg.len(),
{
    broadcast use group_home;

    if msg.len() > 0 {
        lemma_home_putmsg(a, msg.drop_last());
    }
}

pub proof fn lemma_home_add_signed(a: nat, k: int)
    ensures
        returns_home(add_signed_code(a, k)),
{
    broadcast use group_home;

}

// ---------------------------------------------------------------------
// Emitters.
// ---------------------------------------------------------------------

/// `contents` with the head first on cell `a`, starting and ending at home.
fn at_cell(a: usize, contents: &str) -> (r: String)
    ensures
        r@ == at(a as nat, contents@),
{
    let mut out = repeat_str(">", a as u64);
    out.append(contents);
    push_repeat(&mut out, "<", a as u64);
    proof {
        reveal_strlit(">");
        reveal_strlit("<");
        assert(">"@ =~= seq!['>']);
        assert("<"@ =~= seq!['<']);
    }
    out
}

/// Runs `contents` while `x` is nonzero.
pub fn while_on(x: &StaticLocation, contents: String) -> (r: String)
    ensures
        r@ == while_code(x.cell(), contents@),
        returns_home(contents@) ==> returns_home(r@),
{
    let a = x.address();
    let mut inner = String::from_str("[");
    inner.append(&x.from());
    inner.append(&contents);
    inner.append(&x.to());
    inner.append("]");
    proof {
        reveal_strlit("[");
        reveal_strlit("]");
        assert("["@ =~= seq!['[']);
        assert("]"@ =~= seq![']']);
        broadcast use lemma_home_while;

    }
    at_cell(a, &inner)
}

/// Runs `contents` once if `x` is nonzero, through the scratch cell `IF_TEMP0`;
/// `x` keeps its value.
pub fn if_stmt(x: &StaticLocation, contents: String) -> (r: String)
    ensures
        r@ == if_code(x.cell(), contents@),
        returns_home(contents@) ==> returns_home(r@),
{
    let t = cell(IF_TEMP0);
    let mut out = t.set_from(*x);
    let mut inner = String::from_str("[");
    inner.append(&t.from());
    inner.append(&contents);
    inner.append(&t.to());
    inner.append("[-]]");
    proof {
        reveal_strlit("[");
        reveal_strlit("[-]]");
        assert("["@ =~= seq!['[']);
        assert("[-]]"@ =~= seq!['[', '-', ']', ']']);
    }
    out.append(&at_cell(IF_TEMP0, &inner));
    proof {
        if returns_home(contents@) {
            lemma_home_if(x.cell(), contents@);
        }
    }
    out
}

impl StaticLocation {
    /// The cell this location denotes.
    pub open spec fn cell(self) -> nat {
        match self {
            StaticLocation::Named { addr, .. } => addr as nat,
            StaticLocation::Address(addr) => addr as nat,
        }
    }

    /// The text of the location: `@` and the address, after the name if it has one.
    pub open spec fn text(self) -> Seq<char> {
        match self {
            StaticLocation::Named { name, addr } => name@ + seq!['@'] + digits(addr as nat),
            StaticLocation::Address(addr) => seq!['@'] + digits(addr as nat),
        }
    }

    /// The location as text, such as `SP@5` or `@7`.
    pub fn describe(&self) -> (r: String)
        ensures
            r@ == self.text(),
    {
        let mut out = match self {
            StaticLocation::Named { name, .. } => String::from_str(name),
            StaticLocation::Address(_) => String::new(),
        };
        out.append("@");
        push_digits(&mut out, self.address() as u64);
        proof {
            reveal_strlit("@");
            assert("@"@ =~= seq!['@']);
        }
        assert(out@ =~= self.text());
        out
    }

    /// The register named `name`.
    pub fn register(name: &str) -> (r: Self)
        requires
            is_register_name(name@),
        ensures
            exists|i: nat|
                i < REGISTER_COUNT && register_name_spec(i) == name@ && r.cell() == i + 1
                    && (forall|j: nat| j < i ==> register_name_spec(j) != name@),
    {
        register(name)
    }

    pub fn address(&self) -> (r: usize)
        ensures
            r == self.cell(),
    {
        match self {
            StaticLocation::Address(addr) => *addr,
            StaticLocation::Named { addr, .. } => *addr,
        }
    }

    /// The location `offset` cells further along, keeping the name.
    pub fn off(self, offset: i64) -> (r: Self)
        requires
            0 <= self.cell() + offset <= usize::MAX,
        ensures
            r.cell() == self.cell() + offset,
            self matches StaticLocation::Named { name, .. } ==> r matches StaticLocation::Named {
                name: n,
                ..
            } && n == name,
            self is Address ==> r is Address,
    {
        match self {
            StaticLocation::Address(addr) => StaticLocation::Address(
                (addr as i128 + offset as i128) as usize,
            ),
            StaticLocation::Named { name, addr } => StaticLocation::Named {
                name,
                addr: (addr as i128 + offset as i128) as usize,
            },
        }
    }

    /// The same cell under the name `name`.
    pub fn named(self, name: &'static str) -> (r: Self)
        ensures
            r == (StaticLocation::Named { name, addr: self.address_spec() }),
    {
        match self {
            StaticLocation::Address(addr) => StaticLocation::Named { name, addr },
            StaticLocation::Named { addr, .. } => StaticLocation::Named { name, addr },
        }
    }

    pub open spec fn address_spec(self) -> usize {
        match self {
            StaticLocation::Named { addr, .. } => addr,
            StaticLocation::Address(addr) => addr,
        }
    }

    /// The same cell without a name.
    pub fn strip_name(self) -> (r: Self)
        ensures
            r == StaticLocation::Address(self.address_spec()),
    {
        match self {
            StaticLocation::Named { addr, .. } => StaticLocation::Address(addr),
            _ => self,
        }
    }

    /// A fixed address on the tape.
    pub fn addr(addr: usize) -> (r: Self)
        ensures
            r == StaticLocation::Address(addr),
    {
        StaticLocation::Address(addr)
    }

    /// Moves the head from home to this cell.
    pub fn to(&self) -> (r: String)
        ensures
            r@ == to_code(self.cell()),
    {
        proof {
            reveal_strlit(">");
            assert(">"@ =~= seq!['>']);
        }
        repeat_str(">", self.address() as u64)
    }

    /// Moves the head from this cell back home.
    pub fn from(&self) -> (r: String)
        ensures
            r@ == from_code(self.cell()),
    {
        proof {
            reveal_strlit("<");
            assert("<"@ =~= seq!['<']);
        }
        repeat_str("<", self.address() as u64)
    }

    /// `self <- 0`.
    pub fn zero(&self) -> (r: String)
        ensures
            r@ == zero_code(self.cell()),
            returns_home(r@),
    {
        proof {
            reveal_strlit("[-]");
            assert("[-]"@ =~= clear_loop());
            lemma_home_zero(self.cell());
        }
        at_cell(self.address(), "[-]")
    }

    /// `self <- src`, through the scratch cell `SET_TEMP`; `src` keeps its value.
    /// Emits nothing when both denote the same cell.
    pub fn set_from(&self, src: StaticLocation) -> (r: String)
        ensures
            r@ == copy_code(self.cell(), src.cell()),
            returns_home(r@),
            self.cell() == src.cell() ==> r@.len() == 0,
    {
        proof {
            lemma_home_copy(self.cell(), src.cell());

        }
        if *self == src {
            return String::new();
        }
        let x = *self;
        let y = src;
        let temp0 = cell(SET_TEMP);
        let mut out = temp0.zero();
        out.append(&x.zero());
        let mut body = x.inc();
        body.append(&temp0.inc());
        body.append(&y.dec());
        out.append(&while_on(&y, body));
        let mut back = y.inc();
        back.append(&temp0.dec());
        out.append(&while_on(&temp0, back));
        out
    }

    /// `dst <- self`.
    pub fn load_into(&self, dst: StaticLocation) -> (r: String)
        ensures
            r@ == copy_code(dst.cell(), self.cell()),
            returns_home(r@),
    {
        dst.set_from(*self)
    }

    /// `dest <- -src`, through `MATH_TEMP0`.
    pub fn negate(dest: StaticLocation, src: StaticLocation) -> (r: String)
        ensures
            r@ == negate_code(dest.cell(), src.cell()),
            returns_home(r@),
    {
        proof {
            broadcast use group_home, lemma_home_copy;

        }
        let temp0 = cell(MATH_TEMP0);
        let x = dest;
        let mut out = x.set_from(src);
        out.append(&temp0.zero());
        let mut first = temp0.dec();
        first.append(&x.dec());
        out.append(&while_on(&x, first));
        let mut second = x.dec();
        second.append(&temp0.inc());
        out.append(&while_on(&temp0, second));
        out
    }

    /// `dest <- (src == 0)`, through `MATH_TEMP0`.
    pub fn boolean_not(dest: StaticLocation, src: StaticLocation) -> (r: String)
        ensures
            r@ == boolean_not_code(dest.cell(), src.cell()),
            returns_home(r@),
    {
        proof {
            broadcast use group_home, lemma_home_copy;

        }
        let x = dest;
        let temp0 = cell(MATH_TEMP0);
        let mut out = temp0.zero();
        out.append(&x.set_from(src));
        let mut first = temp0.inc();
        first.append(&x.zero());
        out.append(&while_on(&x, first));
        out.append(&x.inc());
        let mut second = x.dec();
        second.append(&temp0.dec());
        out.append(&while_on(&temp0, second));
        out
    }

    /// `dest <- (lhs == rhs)`, working on copies of both operands.
    pub fn equals(dest: StaticLocation, lhs: StaticLocation, rhs: StaticLocation) -> (r: String)
        ensures
            r@ == equals_code(dest.cell(), lhs.cell(), rhs.cell()),
            returns_home(r@),
    {
        proof {
            broadcast use group_home, lemma_home_copy;

        }
        let x = dest;
        let y = cell(EQUALS_TEMP0);
        let mut out = x.set_from(lhs);
        out.append(&y.set_from(rhs));
        let mut first = x.dec();
        first.append(&y.dec());
        out.append(&while_on(&x, first));
        out.append(&x.inc());
        let mut second = x.dec();
        second.append(&y.zero());
        out.append(&while_on(&y, second));
        out
    }

    /// `dest <- (lhs != rhs)`; `rhs` is drained and restored.
    pub fn not_equals(dest: StaticLocation, lhs: StaticLocation, rhs: StaticLocation) -> (r: String)
        ensures
            r@ == not_equals_code(dest.cell(), lhs.cell(), rhs.cell()),
            returns_home(r@),
    {
        proof {
            broadcast use group_home, lemma_home_copy;

        }
        let x = dest;
        let y = rhs;
        let temp0 = cell(NOT_EQUALS_TEMP0);
        let temp1 = cell(NOT_EQUALS_TEMP1);
        let mut out = temp0.zero();
        out.append(&temp1.zero());
        out.append(&x.set_from(lhs));
        let mut a = temp1.inc();
        a.append(&x.dec());
        out.append(&while_on(&x, a));
        let mut b = temp1.dec();
        b.append(&temp0.inc());
        b.append(&y.dec());
        out.append(&while_on(&y, b));
        let mut c = y.inc();
        c.append(&temp0.dec());
        out.append(&while_on(&temp0, c));
        let mut d = x.inc();
        d.append(&temp1.zero());
        out.append(&while_on(&temp1, d));
        out
    }

    fn sum(dest: StaticLocation, lhs: StaticLocation, rhs: StaticLocation, up: bool) -> (r: String)
        ensures
            r@ == sum_code(dest.cell(), lhs.cell(), rhs.cell(), up),
            returns_home(r@),
    {
        proof {
            broadcast use group_home, lemma_home_copy;

        }
        let x = cell(MATH_TEMP0);
        let y = rhs;
        let temp0 = cell(MATH_TEMP1);
        let mut out = temp0.zero();
        out.append(&x.set_from(lhs));
        let mut a = if up { x.inc() } else { x.dec() };
        a.append(&temp0.inc());
        a.append(&y.dec());
        out.append(&while_on(&y, a));
        let mut b = y.inc();
        b.append(&temp0.dec());
        out.append(&while_on(&temp0, b));
        out.append(&dest.set_from(x));
        out
    }

    /// `dest <- lhs + rhs`, through `MATH_TEMP0` and `MATH_TEMP1`.
    pub fn plus(dest: StaticLocation, lhs: StaticLocation, rhs: StaticLocation) -> (r: String)
        ensures
            r@ == sum_code(dest.cell(), lhs.cell(), rhs.cell(), true),
            returns_home(r@),
    {
        Self::sum(dest, lhs, rhs, true)
    }

    /// `dest <- lhs - rhs`, through `MATH_TEMP0` and `MATH_TEMP1`.
    pub fn minus(dest: StaticLocation, lhs: StaticLocation, rhs: StaticLocation) -> (r: String)
        ensures
            r@ == sum_code(dest.cell(), lhs.cell(), rhs.cell(), false),
            returns_home(r@),
    {
        Self::sum(dest, lhs, rhs, false)
    }

    /// `dest <- lhs * rhs`, through `MATH_TEMP0` and `MATH_TEMP1`.
    pub fn times(dest: StaticLocation, lhs: StaticLocation, rhs: StaticLocation) -> (r: String)
        ensures
            r@ == times_code(dest.cell(), lhs.cell(), rhs.cell()),
            returns_home(r@),
    {
        proof {
            broadcast use group_home, lemma_home_copy;

        }
        let x = dest;
        let y = rhs;
        let temp0 = cell(MATH_TEMP0);
        let temp1 = cell(MATH_TEMP1);
        let mut out = temp0.zero();
        out.append(&temp1.zero());
        out.append(&x.set_from(lhs));
        let mut a = temp1.inc();
        a.append(&x.dec());
        out.append(&while_on(&x, a));
        let mut b = x.inc();
        b.append(&temp0.inc());
        b.append(&y.dec());
        let mut c = y.inc();
        c.append(&temp0.dec());
        let mut outer = while_on(&y, b);
        outer.append(&while_on(&temp0, c));
        outer.append(&temp1.dec());
        out.append(&while_on(&temp1, outer));
        out
    }

    /// `dest <- lhs / rhs` (truncating), through `MATH_TEMP0..MATH_TEMP3`.
    pub fn divide(dest: StaticLocation, lhs: StaticLocation, rhs: StaticLocation) -> (r: String)
        ensures
            r@ == divide_code(dest.cell(), lhs.cell(), rhs.cell()),
            returns_home(r@),
    {
        proof {
            broadcast use group_home, lemma_home_copy;

        }
        let x = dest;
        let y = rhs;
        let temp0 = cell(MATH_TEMP0);
        let temp1 = cell(MATH_TEMP1);
        let temp2 = cell(MATH_TEMP2);
        let temp3 = cell(MATH_TEMP3);

        let mut out = temp0.zero();
        out.append(&temp1.zero());
        out.append(&temp2.zero());
        out.append(&temp3.zero());
        out.append(&x.set_from(lhs));
        let mut a = temp0.inc();
        a.append(&x.dec());
        out.append(&while_on(&x, a));

        // One unit of the divisor.
        let mut restore_flag = temp1.dec();
        let mut clear = x.dec();
        clear.append(&temp1.zero());
        restore_flag.append(&while_on(&temp1, clear));
        restore_flag.append(&temp1.inc());
        restore_flag.append(&temp2.dec());
        let mut drain = temp2.zero();
        drain.append(&temp3.inc());
        drain.append(&temp0.dec());
        let mut refill = temp0.inc();
        refill.append(&temp3.dec());
        let mut step = temp2.inc();
        step.append(&temp0.dec());
        step.append(&while_on(&temp0, drain));
        step.append(&while_on(&temp3, refill));
        step.append(&while_on(&temp2, restore_flag));
        step.append(&temp1.dec());

        let mut copy_divisor = temp1.inc();
        copy_divisor.append(&temp2.inc());
        copy_divisor.append(&y.dec());
        let mut restore_divisor = y.inc();
        restore_divisor.append(&temp2.dec());
        let mut round = while_on(&y, copy_divisor);
        round.append(&while_on(&temp2, restore_divisor));
        round.append(&while_on(&temp1, step));
        round.append(&x.inc());
        out.append(&while_on(&temp0, round));
        out
    }

    /// Prints this cell as a character.
    pub fn putchar(&self) -> (r: String)
        ensures
            r@ == putchar_code(self.cell()),
            returns_home(r@),
    {
        proof {
            reveal_strlit(".");
            assert("."@ =~= seq!['.']);
            lemma_home_putchar(self.cell());

        }
        at_cell(self.address(), ".")
    }

    /// Prints each byte of `msg`, using this cell as the buffer.
    pub fn putmsg(&self, msg: &str) -> (r: String)
        ensures
            r@ == putmsg_code(self.cell(), msg.spec_bytes()),
            returns_home(r@),
    {
        let bytes = msg.as_bytes();
        let mut result = String::new();
        let mut i: usize = 0;
        while i < bytes.len()
            invariant
                i <= bytes@.len(),
                bytes@ == msg.spec_bytes(),
                result@ == putmsg_code(self.cell(), bytes@.subrange(0, i as int)),
            decreases bytes@.len() - i,
        {
            let ch = bytes[i];
            result.append(&self.set_const(ch as u64));
            result.append(&self.putchar());
            proof {
                let next = bytes@.subrange(0, i + 1);
                assert(next.drop_last() =~= bytes@.subrange(0, i as int));
                assert(next.last() == ch);
            }
            i = i + 1;
        }
        assert(bytes@.subrange(0, bytes@.len() as int) =~= bytes@);
        proof {
            lemma_home_putmsg(self.cell(), msg.spec_bytes());
        }
        result
    }

    /// Prints the value of this cell in decimal; the cell keeps its value.
    pub fn putint(&self) -> (r: String)
        ensures
            r@ == putint_code(self.cell()),
    {
        let p0 = cell(PUT_INT0);
        let mut out = p0.set_from(*self);
        out.append(&cell(PUT_INT1).zero());
        out.append(&cell(PUT_INT2).zero());
        out.append(&cell(PUT_INT3).zero());
        out.append(&cell(PUT_INT4).set_const(1));
        out.append(&cell(PUT_INT5).zero());
        out.append(&cell(PUT_INT6).zero());
        out.append(&cell(PUT_INT7).zero());
        out.append(&at_cell(
            PUT_INT0,
            ">[-]>[-]+>[-]+<[>[-<-<<[->+>+<<]>[-<+>]>>]++++++++++>[-]+>[-]>[-]>[-]<<<<<[->-[>+>>]>[[-<+>]+>+>>]<<<<<]>>-[-<<+>>]<[-]++++++++[-<++++++>]>>[-<<+>>]<<]<[.[-]<]<",
        ));
        out
    }

    /// Reads one character into this cell.
    pub fn getchar(&self) -> (r: String)
        ensures
            r@ == getchar_code(self.cell()),
            returns_home(r@),
    {
        proof {
            reveal_strlit(",");
            assert(","@ =~= seq![',']);
            lemma_home_getchar(self.cell());

        }
        at_cell(self.address(), ",")
    }

    pub fn inc(&self) -> (r: String)
        ensures
            r@ == inc_code(self.cell()),
            returns_home(r@),
    {
        self.add_const(1)
    }

    pub fn dec(&self) -> (r: String)
        ensures
            r@ == dec_code(self.cell()),
            returns_home(r@),
    {
        self.sub_const(1)
    }

    /// `self <- literal`, as a clear followed by `literal` increments.
    pub fn set_const(&self, literal: u64) -> (r: String)
        ensures
            r@ == set_const_code(self.cell(), literal as nat),
            returns_home(r@),
    {
        let mut body = String::from_str("[-]");
        push_repeat(&mut body, "+", literal);
        proof {
            reveal_strlit("[-]");
            reveal_strlit("+");
            assert("+"@ =~= seq!['+']);
            assert(body@ =~= clear_loop() + rep('+', literal as nat));
            lemma_home_set_const(self.cell(), literal as nat);

        }
        at_cell(self.address(), &body)
    }

    /// Adds `literal` to this cell (subtracts for a negative `literal`).
    pub fn add_const(&self, literal: i64) -> (r: String)
        ensures
            r@ == add_signed_code(self.cell(), literal as int),
            returns_home(r@),
    {
        proof {
            lemma_home_add_signed(self.cell(), literal as int);
            reveal_strlit("+");
            reveal_strlit("-");
            assert("+"@ =~= seq!['+']);
            assert("-"@ =~= seq!['-']);
        }
        if literal < 0 {
            let n: u64 = if literal == i64::MIN {
                9223372036854775808u64
            } else {
                (-literal) as u64
            };
            at_cell(self.address(), &repeat_str("-", n))
        } else {
            at_cell(self.address(), &repeat_str("+", literal as u64))
        }
    }

    /// Subtracts `literal` from this cell (adds for a negative `literal`).
    pub fn sub_const(&self, literal: i64) -> (r: String)
        ensures
            r@ == add_signed_code(self.cell(), -(literal as int)),
            returns_home(r@),
    {
        proof {
            lemma_home_add_signed(self.cell(), -(literal as int));
            reveal_strlit("+");
            reveal_strlit("-");
            assert("+"@ =~= seq!['+']);
            assert("-"@ =~= seq!['-']);
        }
        if literal > 0 {
            at_cell(self.address(), &repeat_str("-", literal as u64))
        } else {
            let n: u64 = if literal == i64::MIN {
                9223372036854775808u64
            } else {
                (-literal) as u64
            };
            at_cell(self.address(), &repeat_str("+", n))
        }
    }
}

} // verus!
