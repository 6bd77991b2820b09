//! Cell allocation, and tables: arrays on the tape with indexed load and store.
use vstd::prelude::*;
use vstd::string::StringSliceAdditionalSpecFns;
use crate::location::{
    StaticLocation, at, cell, dec_code, inc_code, set_const_code, while_code, while_on, zero_code,
    REGISTER_COUNT, VAL_TEMP,
};

verus! {

/// Hands out consecutive cell ranges, from cell 0 upwards; nothing is freed.
pub struct TapeAllocator {
    pub next: usize,
}

impl TapeAllocator {
    /// An allocator whose first range starts at the home cell.
    pub fn new() -> (r: Self)
        ensures
            r.next == 0,
    {
        TapeAllocator { next: 0 }
    }
}

/// Reserves `size` cells and returns the first of them.
pub fn global_alloc(alloc: &mut TapeAllocator, size: usize) -> (r: StaticLocation)
    requires
        old(alloc).next + size <= usize::MAX,
    ensures
        r == StaticLocation::Address(old(alloc).next),
        final(alloc).next == old(alloc).next + size,
{
    let result = StaticLocation::Address(alloc.next);
    alloc.next = alloc.next + size;
    result
}

/// Elements in each of the stack, the heap and the call stack.
pub const STACK_SIZE: usize = 1000;
pub const HEAP_SIZE: usize = 1000;
pub const CALL_STACK_SIZE: usize = 1000;

pub const CELLS_PER_STACK_ELEMENT: usize = 2;

/// Cells reserved at the start of the tape for the register file.
pub const REGISTER_AREA: usize = REGISTER_COUNT + 100;

/// Where the standard layout places the stack, the heap and the call stack:
/// one after another, right after the register area.
pub const STACK_BASE: usize = REGISTER_AREA;
pub const HEAP_BASE: usize = STACK_BASE + 4 + 2 * STACK_SIZE;
pub const CALL_STACK_BASE: usize = HEAP_BASE + 4 + 2 * HEAP_SIZE;

/// An array of `data_cells` cells on the tape. From its base cell on, it holds
/// a scratch cell, a start cell, two more scratch cells, then interleaved
/// (flag, data) pairs that are walked by the indexed load and store.
#[derive(Debug, Clone, Copy)]
pub struct Table {
    pub data_cells: usize,
    pub start_data: StaticLocation,
    pub temp0: StaticLocation,
    pub temp1: StaticLocation,
    pub temp2: StaticLocation,
}

/// The table of `n` cells based at cell `base`.
pub open spec fn table_at(n: usize, base: nat) -> Table {
    Table {
        data_cells: n,
        start_data: StaticLocation::Address((base + 1) as usize),
        temp0: StaticLocation::Address((base + 2) as usize),
        temp1: StaticLocation::Address((base + 3) as usize),
        temp2: StaticLocation::Address(base as usize),
    }
}

/// The walk of the indexed store, run from the start cell.
pub open spec fn store_walk() -> Seq<char> {
    ">>[[>>]+[<<]>>-]+[>>]<[-]<[<<]>[>[>>]<+<[<<]>-]>[>>]<<[-<<]"@
}

/// The first half of the indexed load's walk, run from the start cell.
pub open spec fn load_walk_out() -> Seq<char> {
    ">>[[>>]+[<<]>>-]+[>>]<[<[<<]>+<"@
}

/// The second half of the indexed load's walk, run from the start cell.
pub open spec fn load_walk_back() -> Seq<char> {
    ">>[>>]<-]<[<<]>[>[>>]<+<[<<]>-]>[>>]<<[-<<]"@
}

/// `table[y] <- z`, with `y` and `z` kept.
pub open spec fn table_set_code(t: Table, y: nat, z: nat) -> Seq<char> {
    let t0 = t.temp0.cell();
    let t1 = t.temp1.cell();
    let t2 = t.temp2.cell();
    zero_code(t0) + zero_code(t1) + zero_code(t2) + while_code(
        y,
        inc_code(t1) + inc_code(t2) + dec_code(y),
    ) + while_code(t2, inc_code(y) + dec_code(t2)) + while_code(
        z,
        inc_code(t0) + inc_code(t2) + dec_code(z),
    ) + while_code(t2, inc_code(z) + dec_code(t2)) + at(t.start_data.cell(), store_walk())
}

/// `x <- table[z]`, with `z` kept.
pub open spec fn table_get_code(t: Table, z: nat, x: nat) -> Seq<char> {
    let y = t.start_data.cell();
    let t0 = t.temp0.cell();
    let t1 = t.temp1.cell();
    zero_code(x) + zero_code(t0) + zero_code(t1) + while_code(
        z,
        inc_code(t1) + inc_code(t0) + dec_code(z),
    ) + while_code(t0, inc_code(z) + dec_code(t0)) + at(y, load_walk_out()) + inc_code(x) + at(
        y,
        load_walk_back(),
    )
}

impl Table {
    /// The table of `data_cells` cells whose header starts at `start_location`.
    pub fn new(data_cells: usize, start_location: StaticLocation) -> (r: Self)
        requires
            start_location.cell() + 3 <= usize::MAX,
        ensures
            r == table_at(data_cells, start_location.cell()),
    {
        let base = start_location.address();
        Table {
            data_cells,
            start_data: StaticLocation::Address(base + 1),
            temp0: StaticLocation::Address(base + 2),
            temp1: StaticLocation::Address(base + 3),
            temp2: StaticLocation::Address(base),
        }
    }

    /// Reserves the cells of a table of `data_cells` cells and lays it out there.
    pub fn allocate(alloc: &mut TapeAllocator, data_cells: usize) -> (r: Self)
        requires
            old(alloc).next + 4 + 2 * data_cells <= usize::MAX,
        ensures
            r == table_at(data_cells, old(alloc).next as nat),
            final(alloc).next == old(alloc).next + 4 + 2 * data_cells,
    {
        let base = global_alloc(alloc, 4 + 2 * data_cells);
        Self::new(data_cells, base)
    }

    /// Cells the table occupies: its header and its (flag, data) pairs.
    pub fn total_size(&self) -> (r: usize)
        requires
            self.data_cells * 2 + 4 <= usize::MAX,
        ensures
            r == self.data_cells * 2 + 4,
    {
        self.data_cells * 2 + 4
    }

    /// The start cell of the table.
    pub fn start(&self) -> (r: StaticLocation)
        ensures
            r == self.start_data,
    {
        self.start_data
    }

    /// The cell `data_cells` past the start cell.
    pub fn end(&self) -> (r: StaticLocation)
        requires
            self.start_data.cell() + self.data_cells <= usize::MAX,
        ensures
            r.cell() == self.start_data.cell() + self.data_cells,
    {
        cell(self.start_data.address() + self.data_cells)
    }

    /// `table[index] <- value`; `index` and `value` keep their values.
    pub fn set(&self, index: StaticLocation, value: StaticLocation) -> (r: String)
        ensures
            r@ == table_set_code(*self, index.cell(), value.cell()),
    {
        let x = self.start_data;
        let y = index;
        let z = value;
        let temp0 = self.temp0;
        let temp1 = self.temp1;
        let temp2 = self.temp2;

        let mut out = temp0.zero();
        out.append(&temp1.zero());
        out.append(&temp2.zero());
        let mut a = temp1.inc();
        a.append(&temp2.inc());
        a.append(&y.dec());
        out.append(&while_on(&y, a));
        let mut b = y.inc();
        b.append(&temp2.dec());
        out.append(&while_on(&temp2, b));
        let mut c = temp0.inc();
        c.append(&temp2.inc());
        c.append(&z.dec());
        out.append(&while_on(&z, c));
        let mut d = z.inc();
        d.append(&temp2.dec());
        out.append(&while_on(&temp2, d));
        out.append(&x.to());
        out.append(">>[[>>]+[<<]>>-]+[>>]<[-]<[<<]>[>[>>]<+<[<<]>-]>[>>]<<[-<<]");
        out.append(&x.from());
        out
    }

    /// `table[index] <- value` for a literal `value`, staged in `VAL_TEMP`.
    pub fn set_const(&self, index: StaticLocation, value: u64) -> (r: String)
        ensures
            r@ == set_const_code(VAL_TEMP as nat, value as nat) + table_set_code(
                *self,
                index.cell(),
                VAL_TEMP as nat,
            ),
    {
        let z = cell(VAL_TEMP);
        let mut out = z.set_const(value);
        out.append(&self.set(index, z));
        out
    }

    /// `dst <- table[index]`; `index` keeps its value.
    pub fn get(&self, index: StaticLocation, dst: StaticLocation) -> (r: String)
        ensures
            r@ == table_get_code(*self, index.cell(), dst.cell()),
    {
        let x = dst;
        let y = self.start_data;
        let z = index;
        let temp0 = self.temp0;
        let temp1 = self.temp1;

        let mut out = x.zero();
        out.append(&temp0.zero());
        out.append(&temp1.zero());
        let mut a = temp1.inc();
        a.append(&temp0.inc());
        a.append(&z.dec());
        out.append(&while_on(&z, a));
        let mut b = z.inc();
        b.append(&temp0.dec());
        out.append(&while_on(&temp0, b));
        out.append(&y.to());
        out.append(">>[[>>]+[<<]>>-]+[>>]<[<[<<]>+<");
        out.append(&y.from());
        out.append(&x.inc());
        out.append(&y.to());
        out.append(">>[>>]<-]<[<<]>[>[>>]<+<[<<]>-]>[>>]<<[-<<]");
        out.append(&y.from());
        out
    }
}

/// Reserves the register area and then the stack, which it returns.
pub fn allocate_registers_and_stack(alloc: &mut TapeAllocator) -> (r: Table)
    requires
        old(alloc).next + REGISTER_AREA + 4 + 2 * STACK_SIZE <= usize::MAX,
    ensures
        r == table_at(STACK_SIZE, (old(alloc).next + REGISTER_AREA) as nat),
        final(alloc).next == old(alloc).next + REGISTER_AREA + 4 + 2 * STACK_SIZE,
{
    let _registers = global_alloc(alloc, REGISTER_AREA);
    Table::allocate(alloc, STACK_SIZE)
}

/// Reserves the heap.
pub fn allocate_heap(alloc: &mut TapeAllocator) -> (r: Table)
    requires
        old(alloc).next + 4 + 2 * HEAP_SIZE <= usize::MAX,
    ensures
        r == table_at(HEAP_SIZE, old(alloc).next as nat),
        final(alloc).next == old(alloc).next + 4 + 2 * HEAP_SIZE,
{
    Table::allocate(alloc, HEAP_SIZE)
}

/// Reserves the call stack.
pub fn allocate_call_stack(alloc: &mut TapeAllocator) -> (r: Table)
    requires
        old(alloc).next + 4 + 2 * CALL_STACK_SIZE <= usize::MAX,
    ensures
        r == table_at(CALL_STACK_SIZE, old(alloc).next as nat),
        final(alloc).next == old(alloc).next + 4 + 2 * CALL_STACK_SIZE,
{
    Table::allocate(alloc, CALL_STACK_SIZE)
}

/// The code that stores the bytes of `s`, one per cell from cell `base` on.
pub open spec fn string_code(base: nat, s: Seq<u8>) -> Seq<char>
    decreases s.len(),
{
    if s.len() == 0 {
        Seq::empty()
    } else {
        string_code(base, s.drop_last()) + set_const_code((base + s.len() - 1) as nat, s.last() as nat)
    }
}

/// Reserves `len + 1` cells for the bytes of `string` and returns where they
/// start, with the code that writes them there.
pub fn allocate_string(alloc: &mut TapeAllocator, string: &str) -> (r: (StaticLocation, String))
    requires
        old(alloc).next + string.spec_bytes().len() + 1 <= usize::MAX,
    ensures
        r.0 == StaticLocation::Address(old(alloc).next),
        r.1@ == string_code(old(alloc).next as nat, string.spec_bytes()),
        final(alloc).next == old(alloc).next + string.spec_bytes().len() + 1,
{
    let bytes = string.as_bytes();
    let result_addr = global_alloc(alloc, bytes.len() + 1);
    let base = result_addr.address();
    let mut result_code = String::new();
    let mut i: usize = 0;
    while i < bytes.len()
        invariant
            i <= bytes@.len(),
            bytes@ == string.spec_bytes(),
            base + bytes@.len() + 1 <= usize::MAX,
            result_code@ == string_code(base as nat, bytes@.subrange(0, i as int)),
        decreases bytes@.len() - i,
    {
        let c = cell(base + i);
        result_code.append(&c.set_const(bytes[i] as u64));
        proof {
            let next = bytes@.subrange(0, i + 1);
            assert(next.drop_last() =~= bytes@.subrange(0, i as int));
        }
        i = i + 1;
    }
    assert(bytes@.subrange(0, bytes@.len() as int) =~= bytes@);
    (result_addr, result_code)
}

} // verus!
