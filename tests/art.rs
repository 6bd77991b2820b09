use bfcomp::art::{
    apply_ascii_art_template, ascii_art_fill, ascii_art_size, available_brainfuck_slots,
    pad_brainfuck_with_comments, replace_brainfuck_chars, scale_ascii_art,
};
use bfcomp::assembly::{BasicBlockOp, Operand};
use bfcomp::comments::strip_comments;
use bfcomp::dispatch::{next_basic_block_number, BasicBlock, Op, Program, Session};
use bfcomp::dynamic::DynamicLocation;
use bfcomp::location::{cell, R0};

#[test]
fn replaces_code_characters() {
    assert_eq!(replace_brainfuck_chars(String::from("a+b-[x].,<>#$")), "a*b~{x}:;\\/@S");
}

#[test]
fn counts_visible_slots() {
    assert_eq!(available_brainfuck_slots(" a b\n c "), 3);
    assert_eq!(available_brainfuck_slots(" \t\n"), 0);
}

#[test]
fn measures_and_fills() {
    assert_eq!(ascii_art_size("ab\nabcd\r\nx"), (4, 3));
    assert_eq!(ascii_art_size(""), (0, 0));
    assert_eq!(ascii_art_fill("ab\nc", 3, 3), "ab \nc  \n   ");
}

#[test]
fn scales_both_ways() {
    assert_eq!(scale_ascii_art("ab\nc", 2), "aabb\naabb\ncc\ncc");
    assert_eq!(scale_ascii_art("ab\n", 1), "ab");
}

#[test]
fn pads_with_comments() {
    assert_eq!(pad_brainfuck_with_comments(String::from("++"), "", 2), "++");
    assert_eq!(pad_brainfuck_with_comments(String::from("+"), "xy", 8), "xy+xy   ");
    assert_eq!(pad_brainfuck_with_comments(String::from("+++"), "ab", 5), "ab+++");
    assert_eq!(pad_brainfuck_with_comments(String::from("++++"), "abc", 6), "++++  ");
}

#[test]
fn fills_a_template() {
    let out = apply_ascii_art_template("#### ####\n ##", String::from("+++."), "");
    assert_eq!(out, "@%*+ ++@%\n *.      ");
    let grown = apply_ascii_art_template("#", String::from("+++."), "");
    assert_eq!(grown, "++\n+.");
}

#[test]
fn test_apply_template() {
    let mut session = Session::new();
    let r0 = DynamicLocation::Static(cell(R0));
    let main = BasicBlock::new(
        &mut session,
        Some(String::from("main")),
        vec![
            BasicBlockOp::Assign { src: Operand::Immediate(5), dest: r0 },
            BasicBlockOp::PutInt(Operand::Location(r0)),
        ],
    );
    let quit = next_basic_block_number(&mut session);
    let program = Program(vec![Op::Label(String::from("main"), main), Op::Quit(quit)]);
    let bf = program.assemble(&session).unwrap();
    let comment = "adam mcdaniel is cool";
    let art = apply_ascii_art_template("###\n# #\n###", bf.clone(), comment);
    let code: String = art.chars().filter(|c| "+-<>[].,#$".contains(*c)).collect();
    assert_eq!(code, bfcomp::bf::simplify_bf(bf));
    assert!(art.contains("adam"));
}

#[test]
fn strips_comments() {
    assert_eq!(strip_comments("a // c\nb /* x */ c ;; y\nd ; e"), "a \nb  c \nd  e");
    assert_eq!(strip_comments("x /* never closed"), "x ");
    assert_eq!(strip_comments("/*/ y"), " y");
}
