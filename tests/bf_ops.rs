use bfcomp::bf::{compile_to_c, compile_to_ook, parse, simplify_bf, Op, UnsupportedCellWidth};

#[test]
fn parse_merges_and_recognises_clear() {
    assert_eq!(parse("+++"), vec![Op::Add(3)]);
    assert_eq!(parse(">><"), vec![Op::Move(1)]);
    assert_eq!(parse("[-]"), vec![Op::Zero]);
    assert_eq!(parse("[-][-]"), vec![Op::Zero]);
    assert_eq!(parse("[ -]"), vec![Op::While, Op::Add(-1), Op::End]);
    assert_eq!(parse("hello + world ."), vec![Op::Add(1), Op::Put]);
    assert_eq!(parse("><"), vec![Op::Move(0)]);
    assert_eq!(parse("#$,"), vec![Op::HexDump, Op::DecDump, Op::Get]);
    assert_eq!(parse(""), vec![]);
}

#[test]
fn clear_anywhere_is_zero() {
    assert_eq!(parse("[[-]]"), vec![Op::While, Op::Zero, Op::End]);
    assert_eq!(parse("+[-]+"), vec![Op::Add(1), Op::Zero, Op::Add(1)]);
}

#[test]
fn coalescing_law() {
    let mut a = Op::Add(2);
    assert!(a.coalesce(Op::Add(3)));
    assert_eq!(a, Op::Add(5));
    let mut m = Op::Move(-2);
    assert!(m.coalesce(Op::Move(5)));
    assert_eq!(m, Op::Move(3));
    let mut z = Op::Zero;
    assert!(z.coalesce(Op::Zero));
    assert_eq!(z, Op::Zero);
    let mut x = Op::Move(1);
    assert!(!x.coalesce(Op::Add(1)));
    assert_eq!(x, Op::Move(1));
}

#[test]
fn simplify_removes_comments_and_merges() {
    assert_eq!(simplify_bf(String::from("++ -- [-] >> a <")), "[-]>");
    assert_eq!(simplify_bf(String::from("+++.")), "+++.");
    assert_eq!(simplify_bf(String::from("<<<")), "<<<");
    assert_eq!(simplify_bf(String::from("comment only")), "");
}

#[test]
fn round_trip_is_stable() {
    let src = String::from("+[ -]>><<<,.[->+<]# $ --++");
    let once = simplify_bf(src.clone());
    let twice = simplify_bf(once.clone());
    assert_eq!(once, twice);
    assert_eq!(once, "+[-]<,.[->+<]#$");
}

#[test]
fn write_bf_widths() {
    let mut s = String::new();
    Op::Move(2).write_bf(&mut s, 1);
    Op::Add(-3).write_bf(&mut s, 1);
    Op::Zero.write_bf(&mut s, 1);
    assert_eq!(s, ">>---[-]");

    let mut w = String::new();
    Op::Move(1).write_bf(&mut w, 2);
    Op::Move(-1).write_bf(&mut w, 2);
    Op::Put.write_bf(&mut w, 2);
    assert_eq!(w, ">>><<<.");

    let mut a = String::new();
    Op::Add(1).write_bf(&mut a, 2);
    assert_eq!(a, "+[<+>>>+<<-]<[>+<-]+>>>[<<<->>>[-]]<<<[->>+<<]>");

    let mut z16 = String::new();
    Op::While.write_bf(&mut z16, 2);
    Op::Add(-1).write_bf(&mut z16, 2);
    Op::End.write_bf(&mut z16, 2);
    let mut zero16 = String::new();
    Op::Zero.write_bf(&mut zero16, 2);
    assert_eq!(z16, zero16);

    let mut m32 = String::new();
    Op::Move(2).write_bf(&mut m32, 4);
    assert_eq!(m32, ">>>>>>>>>>");
    let mut z32 = String::new();
    Op::While.write_bf(&mut z32, 4);
    Op::Add(-1).write_bf(&mut z32, 4);
    Op::End.write_bf(&mut z32, 4);
    let mut zero32 = String::new();
    Op::Zero.write_bf(&mut zero32, 4);
    assert_eq!(z32, zero32);
}

#[test]
fn write_c_statements() {
    let mut s = String::new();
    Op::Move(-3).write_c(&mut s);
    assert_eq!(s, "ptr += -3;");
    let mut t = String::new();
    Op::Add(12).write_c(&mut t);
    assert_eq!(t, "*ptr += 12;");
    let mut u = String::new();
    Op::Get.write_c(&mut u);
    assert_eq!(u, "*ptr = (ch = getchar()) == EOF? 0 : ch;");
}

#[test]
fn compile_to_c_program() {
    let c = compile_to_c(String::from("+>."), 1).unwrap();
    let expected = "#include <stdio.h>\n#include <stdlib.h>\nint main() {\n    unsigned char *tape = calloc(30000, sizeof(char));\n    unsigned char *ptr = tape;\n    char ch;\n    *ptr += 1;\n    ptr += 1;\n    putchar(*ptr);\n    free(tape);\n    return 0;\n}\n";
    assert_eq!(c, expected);
    let c16 = compile_to_c(String::from(""), 2).unwrap();
    assert!(c16.contains("unsigned short *tape = calloc(30000, sizeof(short));"));
    let c32 = compile_to_c(String::from(""), 4).unwrap();
    assert!(c32.contains("unsigned int *ptr = tape;"));
    assert_eq!(compile_to_c(String::from("+"), 3), Err(UnsupportedCellWidth { bytes: 3 }));
}

#[test]
fn compile_to_ook_text() {
    assert_eq!(compile_to_ook(String::from("+>.")), "Ook. Ook. Ook. Ook? Ook! Ook. ");
    assert_eq!(compile_to_ook(String::from("<-")), "Ook? Ook. Ook! Ook! ");
    assert_eq!(compile_to_ook(String::from("[-]")), "Ook! Ook? Ook! Ook! Ook? Ook! ");
}

#[test]
fn write_c_extreme_counts() {
    let mut s = String::new();
    Op::Add(i32::MIN).write_c(&mut s);
    assert_eq!(s, "*ptr += -2147483648;");
    let mut t = String::new();
    Op::Move(i32::MAX).write_c(&mut t);
    assert_eq!(t, "ptr += 2147483647;");
    let mut u = String::new();
    Op::Move(0).write_c(&mut u);
    assert_eq!(u, "ptr += 0;");
}
