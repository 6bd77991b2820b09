//! Locations with an addressing mode: a fixed cell, or an element of the stack
//! or the heap whose index is held in a fixed cell.
use vstd::prelude::*;
use crate::location::{
    StaticLocation, add_signed_code, boolean_not_code, cell, copy_code, divide_code, equals_code,
    getchar_code, negate_code, not_equals_code, putchar_code, putint_code, set_const_code, sum_code,
    times_code, DYN_OP_TEMP0, DYN_OP_TEMP1, DYN_OP_TEMP2, DYN_SET_TEMP, VAL_TEMP,
};
use crate::table::{
    Table, table_at, table_get_code, table_set_code, CALL_STACK_BASE, CALL_STACK_SIZE, HEAP_BASE,
    HEAP_SIZE, STACK_BASE, STACK_SIZE,
};

verus! {

/// The stack, in the standard layout.
pub open spec fn stack_table() -> Table {
    table_at(STACK_SIZE, STACK_BASE as nat)
}

/// The heap, in the standard layout.
pub open spec fn heap_table() -> Table {
    table_at(HEAP_SIZE, HEAP_BASE as nat)
}

/// The call stack, in the standard layout.
pub open spec fn call_stack_table() -> Table {
    table_at(CALL_STACK_SIZE, CALL_STACK_BASE as nat)
}

pub fn stack() -> (r: Table)
    ensures
        r == stack_table(),
{
    Table::new(STACK_SIZE, cell(STACK_BASE))
}

pub fn heap() -> (r: Table)
    ensures
        r == heap_table(),
{
    Table::new(HEAP_SIZE, cell(HEAP_BASE))
}

pub fn call_stack() -> (r: Table)
    ensures
        r == call_stack_table(),
{
    Table::new(CALL_STACK_SIZE, cell(CALL_STACK_BASE))
}

/// A location on the tape, with its addressing mode.
#[derive(Debug, Clone, Copy)]
pub enum DynamicLocation {
    /// The heap element whose index is in the given cell.
    DerefHeap(StaticLocation),
    /// The stack element whose index is in the given cell.
    DerefStack(StaticLocation),
    /// The given cell.
    Static(StaticLocation),
}

/// Same addressing mode on the same cell.
pub open spec fn same_location(a: DynamicLocation, b: DynamicLocation) -> bool {
    match (a, b) {
        (DynamicLocation::Static(x), DynamicLocation::Static(y)) => x.cell() == y.cell(),
        (DynamicLocation::DerefStack(x), DynamicLocation::DerefStack(y)) => x.cell() == y.cell(),
        (DynamicLocation::DerefHeap(x), DynamicLocation::DerefHeap(y)) => x.cell() == y.cell(),
        _ => false,
    }
}

impl PartialEq for DynamicLocation {
    fn eq(&self, other: &DynamicLocation) -> (r: bool) {
        match (self, other) {
            (DynamicLocation::Static(x), DynamicLocation::Static(y)) => x.address() == y.address(),
            (DynamicLocation::DerefStack(x), DynamicLocation::DerefStack(y)) => x.address()
                == y.address(),
            (DynamicLocation::DerefHeap(x), DynamicLocation::DerefHeap(y)) => x.address()
                == y.address(),
            _ => false,
        }
    }
}

impl vstd::std_specs::cmp::PartialEqSpecImpl for DynamicLocation {
    open spec fn obeys_eq_spec() -> bool {
        true
    }

    open spec fn eq_spec(&self, other: &DynamicLocation) -> bool {
        same_location(*self, *other)
    }
}

impl Eq for DynamicLocation {
}

impl From<StaticLocation> for DynamicLocation {
    fn from(value: StaticLocation) -> (r: Self) {
        DynamicLocation::Static(value)
    }
}

impl vstd::std_specs::convert::FromSpecImpl<StaticLocation> for DynamicLocation {
    open spec fn obeys_from_spec() -> bool {
        true
    }

    open spec fn from_spec(v: StaticLocation) -> DynamicLocation {
        DynamicLocation::Static(v)
    }
}

/// `dst <- src` across addressing modes; an element goes through `DYN_SET_TEMP`
/// when both sides are indirect. Nothing when both are the same location.
pub open spec fn dyn_copy_code(dst: DynamicLocation, src: DynamicLocation) -> Seq<char> {
    let tmp = DYN_SET_TEMP as nat;
    if same_location(dst, src) {
        Seq::empty()
    } else {
        match (dst, src) {
            (DynamicLocation::Static(d), DynamicLocation::Static(s)) => copy_code(d.cell(), s.cell()),
            (DynamicLocation::Static(d), DynamicLocation::DerefStack(s)) => table_get_code(
                stack_table(),
                s.cell(),
                d.cell(),
            ),
            (DynamicLocation::Static(d), DynamicLocation::DerefHeap(s)) => table_get_code(
                heap_table(),
                s.cell(),
                d.cell(),
            ),
            (DynamicLocation::DerefStack(d), DynamicLocation::Static(s)) => table_set_code(
                stack_table(),
                d.cell(),
                s.cell(),
            ),
            (DynamicLocation::DerefHeap(d), DynamicLocation::Static(s)) => table_set_code(
                heap_table(),
                d.cell(),
                s.cell(),
            ),
            (DynamicLocation::DerefStack(d), DynamicLocation::DerefStack(s)) => table_get_code(
                stack_table(),
                s.cell(),
                tmp,
            ) + table_set_code(stack_table(), d.cell(), tmp),
            (DynamicLocation::DerefHeap(d), DynamicLocation::DerefHeap(s)) => table_get_code(
                heap_table(),
                s.cell(),
                tmp,
            ) + table_set_code(heap_table(), d.cell(), tmp),
            (DynamicLocation::DerefStack(d), DynamicLocation::DerefHeap(s)) => table_get_code(
                heap_table(),
                s.cell(),
                tmp,
            ) + table_set_code(stack_table(), d.cell(), tmp),
            (DynamicLocation::DerefHeap(d), DynamicLocation::DerefStack(s)) => table_get_code(
                stack_table(),
                s.cell(),
                tmp,
            ) + table_set_code(heap_table(), d.cell(), tmp),
        }
    }
}

/// Stores the literal `value`; an element is staged in `VAL_TEMP`.
pub open spec fn dyn_set_const_code(l: DynamicLocation, value: nat) -> Seq<char> {
    let v = VAL_TEMP as nat;
    match l {
        DynamicLocation::Static(c) => set_const_code(c.cell(), value),
        DynamicLocation::DerefStack(c) => set_const_code(v, value) + table_set_code(
            stack_table(),
            c.cell(),
            v,
        ),
        DynamicLocation::DerefHeap(c) => set_const_code(v, value) + table_set_code(
            heap_table(),
            c.cell(),
            v,
        ),
    }
}

/// Adds the signed amount `k`; an element is loaded into `VAL_TEMP`, changed
/// there, and stored back.
pub open spec fn dyn_add_code(l: DynamicLocation, k: int) -> Seq<char> {
    let v = VAL_TEMP as nat;
    match l {
        DynamicLocation::Static(c) => add_signed_code(c.cell(), k),
        DynamicLocation::DerefStack(c) => table_get_code(stack_table(), c.cell(), v)
            + add_signed_code(v, k) + table_set_code(stack_table(), c.cell(), v),
        DynamicLocation::DerefHeap(c) => table_get_code(heap_table(), c.cell(), v) + add_signed_code(
            v,
            k,
        ) + table_set_code(heap_table(), c.cell(), v),
    }
}

pub open spec fn dyn_getchar_code(l: DynamicLocation) -> Seq<char> {
    let v = VAL_TEMP as nat;
    match l {
        DynamicLocation::Static(c) => getchar_code(c.cell()),
        DynamicLocation::DerefStack(c) => getchar_code(v) + table_set_code(stack_table(), c.cell(), v),
        DynamicLocation::DerefHeap(c) => getchar_code(v) + table_set_code(heap_table(), c.cell(), v),
    }
}

pub open spec fn dyn_putint_code(l: DynamicLocation) -> Seq<char> {
    let v = VAL_TEMP as nat;
    match l {
        DynamicLocation::Static(c) => putint_code(c.cell()),
        DynamicLocation::DerefStack(c) => table_get_code(stack_table(), c.cell(), v) + putint_code(v),
        DynamicLocation::DerefHeap(c) => table_get_code(heap_table(), c.cell(), v) + putint_code(v),
    }
}

pub open spec fn dyn_putchar_code(l: DynamicLocation) -> Seq<char> {
    let v = VAL_TEMP as nat;
    match l {
        DynamicLocation::Static(c) => putchar_code(c.cell()),
        DynamicLocation::DerefStack(c) => table_get_code(stack_table(), c.cell(), v) + putchar_code(v),
        DynamicLocation::DerefHeap(c) => table_get_code(heap_table(), c.cell(), v) + putchar_code(v),
    }
}

pub open spec fn op_temp(a: usize) -> DynamicLocation {
    DynamicLocation::Static(StaticLocation::Address(a))
}

/// A fixed-cell binary emitter `op` run on operands staged in the
/// `DYN_OP_TEMP` cells, with its result stored into `dest`.
pub open spec fn binop_code(
    op: Seq<char>,
    dest: DynamicLocation,
    lhs: DynamicLocation,
    rhs: DynamicLocation,
) -> Seq<char> {
    dyn_copy_code(op_temp(DYN_OP_TEMP0), lhs) + dyn_copy_code(op_temp(DYN_OP_TEMP1), rhs) + op
        + dyn_copy_code(dest, op_temp(DYN_OP_TEMP2))
}

/// A fixed-cell unary emitter `op` run on an operand staged in `DYN_OP_TEMP0`,
/// with its result stored into `dest`.
pub open spec fn unop_code(op: Seq<char>, dest: DynamicLocation, src: DynamicLocation) -> Seq<char> {
    dyn_copy_code(op_temp(DYN_OP_TEMP0), src) + op + dyn_copy_code(dest, op_temp(DYN_OP_TEMP1))
}

pub open spec fn t0_cell() -> nat {
    DYN_OP_TEMP0 as nat
}

pub open spec fn t1_cell() -> nat {
    DYN_OP_TEMP1 as nat
}

pub open spec fn t2_cell() -> nat {
    DYN_OP_TEMP2 as nat
}

impl DynamicLocation {
    /// The home cell.
    pub fn home() -> (r: Self)
        ensures
            r == DynamicLocation::Static(StaticLocation::Address(0)),
    {
        DynamicLocation::Static(StaticLocation::Address(0))
    }

    /// The text of the location: a fixed cell as such, a stack element in
    /// brackets, a heap element in brackets after `(heap) `.
    pub open spec fn text(self) -> Seq<char> {
        match self {
            DynamicLocation::Static(l) => l.text(),
            DynamicLocation::DerefStack(l) => seq!['['] + l.text() + seq![']'],
            DynamicLocation::DerefHeap(l) => "(heap) ["@ + l.text() + seq![']'],
        }
    }

    /// The location as text, such as `R0@17`, `[SP@5]` or `(heap) [HP@6]`.
    pub fn describe(&self) -> (r: String)
        ensures
            r@ == self.text(),
    {
        proof {
            reveal_strlit("[");
            reveal_strlit("]");
            assert("["@ =~= seq!['[']);
            assert("]"@ =~= seq![']']);
        }
        match self {
            DynamicLocation::Static(l) => l.describe(),
            DynamicLocation::DerefStack(l) => {
                let mut out = String::from_str("[");
                out.append(&l.describe());
                out.append("]");
                out
            },
            DynamicLocation::DerefHeap(l) => {
                let mut out = String::from_str("(heap) [");
                out.append(&l.describe());
                out.append("]");
                out
            },
        }
    }

    /// The fixed location `offset` cells further along; only a fixed cell can
    /// be offset.
    pub fn off(self, offset: i64) -> (r: Self)
        requires
            self matches DynamicLocation::Static(l) && 0 <= l.cell() + offset <= usize::MAX,
        ensures
            r matches DynamicLocation::Static(m) && self matches DynamicLocation::Static(l)
                && m.cell() == l.cell() + offset,
    {
        match self {
            Self::Static(loc) => Self::Static(loc.off(offset)),
            _ => self,
        }
    }

    /// A fixed address on the tape.
    pub fn addr(addr: usize) -> (r: Self)
        ensures
            r == DynamicLocation::Static(StaticLocation::Address(addr)),
    {
        Self::Static(StaticLocation::Address(addr))
    }

    /// `self <- src`.
    pub fn set_from(&self, src: DynamicLocation) -> (r: String)
        ensures
            r@ == dyn_copy_code(*self, src),
            same_location(*self, src) ==> r@.len() == 0,
    {
        let temp0 = cell(DYN_SET_TEMP);
        if *self == src {
            return String::new();
        }
        match (*self, src) {
            (DynamicLocation::Static(dst), DynamicLocation::Static(src)) => dst.set_from(src),
            (DynamicLocation::Static(dst), DynamicLocation::DerefStack(src)) => stack().get(src, dst),
            (DynamicLocation::Static(dst), DynamicLocation::DerefHeap(src)) => heap().get(src, dst),
            (DynamicLocation::DerefStack(dst), DynamicLocation::Static(src)) => stack().set(dst, src),
            (DynamicLocation::DerefHeap(dst), DynamicLocation::Static(src)) => heap().set(dst, src),
            (DynamicLocation::DerefStack(dst), DynamicLocation::DerefStack(src)) => {
                let mut out = stack().get(src, temp0);
                out.append(&stack().set(dst, temp0));
                out
            },
            (DynamicLocation::DerefHeap(dst), DynamicLocation::DerefHeap(src)) => {
                let mut out = heap().get(src, temp0);
                out.append(&heap().set(dst, temp0));
                out
            },
            (DynamicLocation::DerefStack(dst), DynamicLocation::DerefHeap(src)) => {
                let mut out = heap().get(src, temp0);
                out.append(&stack().set(dst, temp0));
                out
            },
            (DynamicLocation::DerefHeap(dst), DynamicLocation::DerefStack(src)) => {
                let mut out = stack().get(src, temp0);
                out.append(&heap().set(dst, temp0));
                out
            },
        }
    }

    /// `dst <- self`.
    pub fn get_from(&self, dst: DynamicLocation) -> (r: String)
        ensures
            r@ == dyn_copy_code(dst, *self),
    {
        dst.set_from(*self)
    }

    /// `self <- value`.
    pub fn set_const(&self, value: u64) -> (r: String)
        ensures
            r@ == dyn_set_const_code(*self, value as nat),
    {
        let v = cell(VAL_TEMP);
        match self {
            Self::Static(loc) => loc.set_const(value),
            Self::DerefStack(loc) => {
                let mut out = v.set_const(value);
                out.append(&stack().set(*loc, v));
                out
            },
            Self::DerefHeap(loc) => {
                let mut out = v.set_const(value);
                out.append(&heap().set(*loc, v));
                out
            },
        }
    }

    pub fn inc(&self) -> (r: String)
        ensures
            r@ == dyn_add_code(*self, 1),
    {
        self.add_const(1)
    }

    pub fn dec(&self) -> (r: String)
        ensures
            r@ == dyn_add_code(*self, -1),
    {
        self.sub_const(1)
    }

    /// Adds `value` (subtracts for a negative `value`).
    pub fn add_const(&self, value: i64) -> (r: String)
        ensures
            r@ == dyn_add_code(*self, value as int),
    {
        let v = cell(VAL_TEMP);
        match self {
            Self::Static(loc) => loc.add_const(value),
            Self::DerefStack(loc) => {
                let mut out = stack().get(*loc, v);
                out.append(&v.add_const(value));
                out.append(&stack().set(*loc, v));
                out
            },
            Self::DerefHeap(loc) => {
                let mut out = heap().get(*loc, v);
                out.append(&v.add_const(value));
                out.append(&heap().set(*loc, v));
                out
            },
        }
    }

    /// Subtracts `value` (adds for a negative `value`).
    pub fn sub_const(&self, value: i64) -> (r: String)
        ensures
            r@ == dyn_add_code(*self, -(value as int)),
    {
        let v = cell(VAL_TEMP);
        match self {
            Self::Static(loc) => loc.sub_const(value),
            Self::DerefStack(loc) => {
                let mut out = stack().get(*loc, v);
                out.append(&v.sub_const(value));
                out.append(&stack().set(*loc, v));
                out
            },
            Self::DerefHeap(loc) => {
                let mut out = heap().get(*loc, v);
                out.append(&v.sub_const(value));
                out.append(&heap().set(*loc, v));
                out
            },
        }
    }

    /// Runs the fixed-cell emitter `binop` on copies of `lhs` and `rhs`, and
    /// stores its result into `dest`.
    pub fn static_binop(
        binop: impl Fn(StaticLocation, StaticLocation, StaticLocation) -> String,
        dest: DynamicLocation,
        lhs: DynamicLocation,
        rhs: DynamicLocation,
    ) -> (r: String)
        requires
            call_requires(binop, (cell_at(DYN_OP_TEMP2), cell_at(DYN_OP_TEMP0), cell_at(DYN_OP_TEMP1))),
        ensures
            exists|s: String|
                call_ensures(
                    binop,
                    (cell_at(DYN_OP_TEMP2), cell_at(DYN_OP_TEMP0), cell_at(DYN_OP_TEMP1)),
                    s,
                ) && r@ == binop_code(s@, dest, lhs, rhs),
    {
        let t0 = cell(DYN_OP_TEMP0);
        let t1 = cell(DYN_OP_TEMP1);
        let t2 = cell(DYN_OP_TEMP2);
        let mut out = DynamicLocation::Static(t0).set_from(lhs);
        out.append(&DynamicLocation::Static(t1).set_from(rhs));
        let s = binop(t2, t0, t1);
        out.append(&s);
        out.append(&dest.set_from(DynamicLocation::Static(t2)));
        out
    }

    /// Runs the fixed-cell emitter `unop` on a copy of `src`, and stores its
    /// result into `dest`.
    pub fn static_unop(
        unop: impl Fn(StaticLocation, StaticLocation) -> String,
        dest: DynamicLocation,
        src: DynamicLocation,
    ) -> (r: String)
        requires
            call_requires(unop, (cell_at(DYN_OP_TEMP1), cell_at(DYN_OP_TEMP0))),
        ensures
            exists|s: String|
                call_ensures(unop, (cell_at(DYN_OP_TEMP1), cell_at(DYN_OP_TEMP0)), s) && r@
                    == unop_code(s@, dest, src),
    {
        let t0 = cell(DYN_OP_TEMP0);
        let t1 = cell(DYN_OP_TEMP1);
        let mut out = DynamicLocation::Static(t0).set_from(src);
        let s = unop(t1, t0);
        out.append(&s);
        out.append(&dest.set_from(DynamicLocation::Static(t1)));
        out
    }

    /// `dest <- -src`.
    pub fn negate(dest: DynamicLocation, src: DynamicLocation) -> (r: String)
        ensures
            r@ == unop_code(negate_code(t1_cell(), t0_cell()), dest, src),
    {
        Self::static_unop(StaticLocation::negate, dest, src)
    }

    /// `dest <- (src == 0)`.
    pub fn boolean_not(dest: DynamicLocation, src: DynamicLocation) -> (r: String)
        ensures
            r@ == unop_code(boolean_not_code(t1_cell(), t0_cell()), dest, src),
    {
        Self::static_unop(StaticLocation::boolean_not, dest, src)
    }

    /// Reads one character into this location.
    pub fn getchar(&self) -> (r: String)
        ensures
            r@ == dyn_getchar_code(*self),
    {
        let v = cell(VAL_TEMP);
        match self {
            Self::Static(loc) => loc.getchar(),
            Self::DerefStack(loc) => {
                let mut out = v.getchar();
                out.append(&stack().set(*loc, v));
                out
            },
            Self::DerefHeap(loc) => {
                let mut out = v.getchar();
                out.append(&heap().set(*loc, v));
                out
            },
        }
    }

    /// Prints the value at this location in decimal.
    pub fn putint(&self) -> (r: String)
        ensures
            r@ == dyn_putint_code(*self),
    {
        let v = cell(VAL_TEMP);
        match self {
            Self::Static(loc) => loc.putint(),
            Self::DerefStack(loc) => {
                let mut out = stack().get(*loc, v);
                out.append(&v.putint());
                out
            },
            Self::DerefHeap(loc) => {
                let mut out = heap().get(*loc, v);
                out.append(&v.putint());
                out
            },
        }
    }

    /// Prints the value at this location as a character.
    pub fn putchar(&self) -> (r: String)
        ensures
            r@ == dyn_putchar_code(*self),
    {
        let v = cell(VAL_TEMP);
        match self {
            Self::Static(loc) => loc.putchar(),
            Self::DerefStack(loc) => {
                let mut out = stack().get(*loc, v);
                out.append(&v.putchar());
                out
            },
            Self::DerefHeap(loc) => {
                let mut out = heap().get(*loc, v);
                out.append(&v.putchar());
                out
            },
        }
    }

    /// `dest <- lhs + rhs`.
    pub fn plus(dest: DynamicLocation, lhs: DynamicLocation, rhs: DynamicLocation) -> (r: String)
        ensures
            r@ == binop_code(sum_code(t2_cell(), t0_cell(), t1_cell(), true), dest, lhs, rhs),
    {
        Self::static_binop(StaticLocation::plus, dest, lhs, rhs)
    }

    /// `dest <- lhs - rhs`.
    pub fn minus(dest: DynamicLocation, lhs: DynamicLocation, rhs: DynamicLocation) -> (r: String)
        ensures
            r@ == binop_code(sum_code(t2_cell(), t0_cell(), t1_cell(), false), dest, lhs, rhs),
    {
        Self::static_binop(StaticLocation::minus, dest, lhs, rhs)
    }

    /// `dest <- lhs * rhs`.
    pub fn times(dest: DynamicLocation, lhs: DynamicLocation, rhs: DynamicLocation) -> (r: String)
        ensures
            r@ == binop_code(times_code(t2_cell(), t0_cell(), t1_cell()), dest, lhs, rhs),
    {
        Self::static_binop(StaticLocation::times, dest, lhs, rhs)
    }

    /// `dest <- lhs / rhs`.
    pub fn divide(dest: DynamicLocation, lhs: DynamicLocation, rhs: DynamicLocation) -> (r: String)
        ensures
            r@ == binop_code(divide_code(t2_cell(), t0_cell(), t1_cell()), dest, lhs, rhs),
    {
        Self::static_binop(StaticLocation::divide, dest, lhs, rhs)
    }

    /// `dest <- (lhs == rhs)`.
    pub fn equals(dest: DynamicLocation, lhs: DynamicLocation, rhs: DynamicLocation) -> (r: String)
        ensures
            r@ == binop_code(equals_code(t2_cell(), t0_cell(), t1_cell()), dest, lhs, rhs),
    {
        Self::static_binop(StaticLocation::equals, dest, lhs, rhs)
    }

    /// `dest <- (lhs != rhs)`.
    pub fn not_equals(dest: DynamicLocation, lhs: DynamicLocation, rhs: DynamicLocation) -> (r: String)
        ensures
            r@ == binop_code(not_equals_code(t2_cell(), t0_cell(), t1_cell()), dest, lhs, rhs),
    {
        Self::static_binop(StaticLocation::not_equals, dest, lhs, rhs)
    }

    /// The stack element indexed by this fixed cell.
    pub fn stack_deref(self) -> (r: Self)
        requires
            self is Static,
        ensures
            self matches DynamicLocation::Static(l) && r == DynamicLocation::DerefStack(l),
    {
        match self {
            Self::Static(loc) => Self::DerefStack(loc),
            _ => self,
        }
    }

    /// The heap element indexed by this fixed cell.
    pub fn heap_deref(self) -> (r: Self)
        requires
            self is Static,
        ensures
            self matches DynamicLocation::Static(l) && r == DynamicLocation::DerefHeap(l),
    {
        match self {
            Self::Static(loc) => Self::DerefHeap(loc),
            _ => self,
        }
    }
}

pub open spec fn cell_at(a: usize) -> StaticLocation {
    StaticLocation::Address(a)
}

impl StaticLocation {
    /// The stack element indexed by this cell.
    pub fn stack_deref(self) -> (r: DynamicLocation)
        ensures
            r == DynamicLocation::DerefStack(self),
    {
        DynamicLocation::Static(self).stack_deref()
    }

    /// The heap element indexed by this cell.
    pub fn heap_deref(self) -> (r: DynamicLocation)
        ensures
            r == DynamicLocation::DerefHeap(self),
    {
        DynamicLocation::Static(self).heap_deref()
    }
}

} // verus!
