use bfcomp::dynamic::{stack, DynamicLocation};
use bfcomp::location::{
    cell, register, register_name, registers, while_on, if_stmt, StaticLocation, NULL,
    REGISTER_COUNT, SET_TEMP, TRASH, IF_TEMP0,
};
use bfcomp::table::{global_alloc, Table, TapeAllocator};

/// Every loop body moves the head back to where the loop started.
fn loops_return(s: &str) -> bool {
    let mut stack: Vec<i64> = Vec::new();
    let mut d: i64 = 0;
    for c in s.chars() {
        match c {
            '>' => d += 1,
            '<' => d -= 1,
            '[' => stack.push(d),
            ']' => {
                if stack.pop() != Some(d) {
                    return false;
                }
            }
            _ => {}
        }
    }
    stack.is_empty() && d == 0
}

#[test]
fn test_register_addresses() {
    let regs = registers();
    println!("{regs:?}");
    println!("{REGISTER_COUNT:?}");
    assert_eq!(cell(NULL), StaticLocation::Address(0));
    for i in 0..REGISTER_COUNT {
        let name = register_name(i);
        let r = register(name);
        println!("{name} = {r:?}");
        assert_eq!(r, StaticLocation::Address(i + 1).strip_name());
    }
    assert_eq!(regs.len(), REGISTER_COUNT);
}

#[test]
fn test_table() {
    let mut alloc = TapeAllocator::new();
    let val = global_alloc(&mut alloc, 1);
    let idx = global_alloc(&mut alloc, 1);
    let dst = global_alloc(&mut alloc, 1);
    println!("idx: {idx:?}");
    println!("val: {val:?}");
    println!("dst: {dst:?}");

    let table = Table::allocate(&mut alloc, 10);

    println!("{table:#?}");

    let text = "Hi world!";

    for (i, byte) in text.bytes().enumerate() {
        println!("{}", idx.set_const(i as u64));
        println!("{}", val.set_const(byte as u64));
        println!("{}", table.set(idx, val));
    }

    for i in 0..text.len() {
        println!("{}", idx.set_const(i as u64));
        println!("{}", table.get(idx, val));
        println!("{}", val.putchar());
    }

    println!("{}", val.set_const(10));
    println!("{}", val.putchar());
}

#[test]
fn allocator_hands_out_consecutive_ranges() {
    let mut alloc = TapeAllocator::new();
    assert_eq!(global_alloc(&mut alloc, 3), StaticLocation::Address(0));
    assert_eq!(global_alloc(&mut alloc, 1), StaticLocation::Address(3));
    let t = Table::allocate(&mut alloc, 10);
    assert_eq!(t.start(), StaticLocation::Address(5));
    assert_eq!(t.total_size(), 24);
    assert_eq!(t.end(), StaticLocation::Address(15));
    assert_eq!(alloc.next, 28);
}

#[test]
fn primitive_emitters_exact_text() {
    let c = cell(2);
    assert_eq!(c.to(), ">>");
    assert_eq!(c.from(), "<<");
    assert_eq!(c.zero(), ">>[-]<<");
    assert_eq!(c.set_const(3), ">>[-]+++<<");
    assert_eq!(c.inc(), ">>+<<");
    assert_eq!(c.dec(), ">>-<<");
    assert_eq!(c.add_const(-2), ">>--<<");
    assert_eq!(c.sub_const(-2), ">>++<<");
    assert_eq!(c.putchar(), ">>.<<");
    assert_eq!(c.getchar(), ">>,<<");
    assert_eq!(while_on(&cell(1), String::from("X")), ">[<X>]<");
}

#[test]
fn copy_is_identity_on_alias() {
    let x = cell(17);
    assert_eq!(x.set_from(x), "");
    assert_eq!(x.set_from(StaticLocation::Address(17).named("R0")), "");
    let d = DynamicLocation::Static(x);
    assert_eq!(d.set_from(d), "");
    let s = x.stack_deref();
    assert_eq!(s.set_from(s), "");
}

#[test]
fn copy_uses_scratch_and_restores() {
    let out = cell(1).set_from(cell(2));
    let t = "<".repeat(SET_TEMP);
    let to_t = ">".repeat(SET_TEMP);
    let expected = format!(
        "{to_t}[-]{t}>[-]<>>[<<>+<{to_t}+{t}>>-<<>>]<<{to_t}[{t}>>+<<{to_t}-{t}{to_t}]{t}"
    );
    assert_eq!(out, expected);
}

#[test]
fn emitters_return_home() {
    let a = cell(20);
    let b = cell(21);
    let c = cell(22);
    let texts = vec![
        StaticLocation::plus(a, b, c),
        StaticLocation::minus(a, b, c),
        StaticLocation::times(a, b, c),
        StaticLocation::divide(a, b, c),
        StaticLocation::negate(a, b),
        StaticLocation::boolean_not(a, b),
        StaticLocation::equals(a, b, c),
        StaticLocation::not_equals(a, b, c),
        a.putmsg("Hi!\n"),
        if_stmt(&a, b.inc()),
    ];
    for t in texts {
        assert!(loops_return(&t), "{t}");
    }
}

#[test]
fn negate_clears_scratch_before_use() {
    let out = StaticLocation::negate(cell(1), cell(1));
    assert!(out.starts_with(&">".repeat(43)));
}

#[test]
fn putmsg_sets_each_byte() {
    let t = cell(TRASH);
    let out = t.putmsg("AB");
    let expected = t.set_const(65) + &t.putchar() + &t.set_const(66) + &t.putchar();
    assert_eq!(out, expected);
}

#[test]
fn if_stmt_copies_into_its_scratch() {
    let x = cell(3);
    let out = if_stmt(&x, String::from("B"));
    let to = ">".repeat(IF_TEMP0);
    let from = "<".repeat(IF_TEMP0);
    let expected = cell(IF_TEMP0).set_from(x) + &format!("{to}[{from}B{to}[-]]{from}");
    assert_eq!(out, expected);
}

#[test]
fn off_and_names() {
    let r = StaticLocation::Address(4).named("X");
    assert_eq!(r.off(3).address(), 7);
    assert_eq!(r.off(-4).address(), 0);
    assert_eq!(r.strip_name(), StaticLocation::Address(4));
    assert_eq!(StaticLocation::addr(9), StaticLocation::Address(9));
    assert_eq!(StaticLocation::register("SP"), StaticLocation::Address(5));
    assert_eq!(register("TRASH").address(), 59);
}

#[test]
fn dynamic_locations_route_through_tables() {
    let sp = cell(5);
    let v = cell(8);
    let s = DynamicLocation::DerefStack(sp);
    assert_eq!(s.set_const(7), v.set_const(7) + &stack().set(sp, v));
    assert_eq!(
        DynamicLocation::Static(cell(17)).set_from(s),
        stack().get(sp, cell(17))
    );
    assert_eq!(s.putchar(), stack().get(sp, v) + &v.putchar());
    assert_eq!(DynamicLocation::addr(3).off(2), DynamicLocation::Static(cell(5)));
    assert_eq!(DynamicLocation::from(cell(3)), DynamicLocation::Static(cell(3)));
    assert_eq!(DynamicLocation::Static(sp).stack_deref(), s);
    assert_eq!(DynamicLocation::Static(sp).heap_deref(), DynamicLocation::DerefHeap(sp));
}

#[test]
fn locations_as_text() {
    assert_eq!(StaticLocation::Address(7).describe(), "@7");
    assert_eq!(register("SP").describe(), "SP@5");
    assert_eq!(register("R15").describe(), "R15@57");
    assert_eq!(DynamicLocation::DerefStack(register("SP")).describe(), "[SP@5]");
    assert_eq!(DynamicLocation::DerefHeap(register("HP")).describe(), "(heap) [HP@6]");
    assert_eq!(DynamicLocation::Static(cell(0)).describe(), "@0");
}
