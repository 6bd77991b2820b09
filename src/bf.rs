//! Brainfuck as a list of operations: parsing with coalescing, and emission as
//! Brainfuck for 8-, 16- or 32-bit cells, as Ook!, and as C.
use vstd::prelude::*;
use vstd::string::StringSliceAdditionalSpecFns;
use vstd::utf8::encode_utf8;
use crate::code::{decimal, decimal_string, push_repeat, repeat_seq};

verus! {

/// A Brainfuck operation.
#[derive(Debug, Clone, Copy, PartialEq, Eq, Structural)]
pub enum Op {
    /// Move the pointer (`>` repeated, or `<` for a negative count).
    Move(i32),
    /// Add to the cell (`+` repeated, or `-` for a negative count).
    Add(i32),
    /// Set the cell to zero (`[-]`).
    Zero,
    /// Print the cell (`.`).
    Put,
    /// Read into the cell (`,`).
    Get,
    /// Start of a loop (`[`).
    While,
    /// End of a loop (`]`).
    End,
    /// Hexadecimal dump of the tape (`#`).
    HexDump,
    /// Decimal dump of the tape (`$`).
    DecDump,
}

/// An operation with its count as a mathematical integer.
pub enum Cmd {
    Move(int),
    Add(int),
    Zero,
    Put,
    Get,
    While,
    End,
    HexDump,
    DecDump,
}

impl Op {
    pub open spec fn cmd(self) -> Cmd {
        match self {
            Op::Move(n) => Cmd::Move(n as int),
            Op::Add(n) => Cmd::Add(n as int),
            Op::Zero => Cmd::Zero,
            Op::Put => Cmd::Put,
            Op::Get => Cmd::Get,
            Op::While => Cmd::While,
            Op::End => Cmd::End,
            Op::HexDump => Cmd::HexDump,
            Op::DecDump => Cmd::DecDump,
        }
    }
}

pub open spec fn cmds(ops: Seq<Op>) -> Seq<Cmd> {
    ops.map_values(|o: Op| o.cmd())
}

/// Two adjacent operations that merge into one: moves, adds, or clears.
pub open spec fn merges(a: Cmd, b: Cmd) -> bool {
    match (a, b) {
        (Cmd::Move(_), Cmd::Move(_)) => true,
        (Cmd::Add(_), Cmd::Add(_)) => true,
        (Cmd::Zero, Cmd::Zero) => true,
        _ => false,
    }
}

/// The merge of two mergeable operations: counts add up, clears collapse.
pub open spec fn merged(a: Cmd, b: Cmd) -> Cmd {
    match (a, b) {
        (Cmd::Move(x), Cmd::Move(y)) => Cmd::Move(x + y),
        (Cmd::Add(x), Cmd::Add(y)) => Cmd::Add(x + y),
        _ => a,
    }
}

/// Appends `c`, merging it into the last operation when they merge.
pub open spec fn push_merged(acc: Seq<Cmd>, c: Cmd) -> Seq<Cmd> {
    if acc.len() > 0 && merges(acc.last(), c) {
        acc.drop_last().push(merged(acc.last(), c))
    } else {
        acc.push(c)
    }
}

/// The operation a single byte stands for; other bytes are comments.
pub open spec fn token(b: u8) -> Option<Cmd> {
    if b == 62 {
        Some(Cmd::Move(1))
    } else if b == 60 {
        Some(Cmd::Move(-1))
    } else if b == 43 {
        Some(Cmd::Add(1))
    } else if b == 45 {
        Some(Cmd::Add(-1))
    } else if b == 46 {
        Some(Cmd::Put)
    } else if b == 44 {
        Some(Cmd::Get)
    } else if b == 91 {
        Some(Cmd::While)
    } else if b == 93 {
        Some(Cmd::End)
    } else if b == 35 {
        Some(Cmd::HexDump)
    } else if b == 36 {
        Some(Cmd::DecDump)
    } else {
        None
    }
}

/// The text starts with the clear idiom `[-]`.
pub open spec fn starts_with_clear(b: Seq<u8>) -> bool {
    b.len() >= 3 && b[0] == 91 && b[1] == 45 && b[2] == 93
}

/// Parses `b` after the operations `acc`: `[-]` is a clear, each other
/// operation byte one operation, merged into the one before when they merge.
pub open spec fn parse_from(b: Seq<u8>, acc: Seq<Cmd>) -> Seq<Cmd>
    decreases b.len(),
{
    if b.len() == 0 {
        acc
    } else if starts_with_clear(b) {
        parse_from(b.skip(3), push_merged(acc, Cmd::Zero))
    } else {
        match token(b[0]) {
            Some(c) => parse_from(b.skip(1), push_merged(acc, c)),
            None => parse_from(b.skip(1), acc),
        }
    }
}

/// The operations of the BF text `b`.
pub open spec fn parse_spec(b: Seq<u8>) -> Seq<Cmd> {
    parse_from(b, Seq::empty())
}

/// The largest count that an operation of `ops` holds.
pub open spec fn counts_within(ops: Seq<Op>, bound: int) -> bool {
    forall|k: int|
        0 <= k < ops.len() ==> match #[trigger] ops[k] {
            Op::Move(d) => -bound <= d <= bound,
            Op::Add(d) => -bound <= d <= bound,
            _ => true,
        }
}

impl Op {
    /// Merges `other` into this operation when the two merge (moves, adds, or
    /// clears), and says whether it did.
    pub fn coalesce(&mut self, other: Self) -> (r: bool)
        requires
            match (*old(self), other) {
                (Op::Move(x), Op::Move(y)) => i32::MIN <= x + y <= i32::MAX,
                (Op::Add(x), Op::Add(y)) => i32::MIN <= x + y <= i32::MAX,
                _ => true,
            },
        ensures
            r == merges(old(self).cmd(), other.cmd()),
            r ==> final(self).cmd() == merged(old(self).cmd(), other.cmd()),
            !r ==> *final(self) == *old(self),
    {
        match (*self, other) {
            (Op::Move(x), Op::Move(y)) => {
                *self = Op::Move(x + y);
                true
            },
            (Op::Add(x), Op::Add(y)) => {
                *self = Op::Add(x + y);
                true
            },
            (Op::Zero, Op::Zero) => true,
            _ => false,
        }
    }
}

/// The operation a single byte stands for, if any.
fn token_of(b: u8) -> (r: Option<Op>)
    ensures
        r is None <==> token(b) is None,
        r matches Some(op) ==> token(b) == Some(op.cmd()),
        r matches Some(op) ==> match op {
            Op::Move(d) => -1 <= d <= 1,
            Op::Add(d) => -1 <= d <= 1,
            _ => true,
        },
{
    if b == 62 {
        Some(Op::Move(1))
    } else if b == 60 {
        Some(Op::Move(-1))
    } else if b == 43 {
        Some(Op::Add(1))
    } else if b == 45 {
        Some(Op::Add(-1))
    } else if b == 46 {
        Some(Op::Put)
    } else if b == 44 {
        Some(Op::Get)
    } else if b == 91 {
        Some(Op::While)
    } else if b == 93 {
        Some(Op::End)
    } else if b == 35 {
        Some(Op::HexDump)
    } else if b == 36 {
        Some(Op::DecDump)
    } else {
        None
    }
}

/// Appends `op` to `ops`, merging it into the last operation when they merge.
fn push_op(ops: &mut Vec<Op>, op: Op, Ghost(bound): Ghost<int>)
    requires
        counts_within(old(ops)@, bound),
        0 <= bound < i32::MAX,
        match op {
            Op::Move(d) => -1 <= d <= 1,
            Op::Add(d) => -1 <= d <= 1,
            _ => true,
        },
    ensures
        cmds(final(ops)@) == push_merged(cmds(old(ops)@), op.cmd()),
        counts_within(final(ops)@, bound + 1),
{
    let n = ops.len();
    proof {
        assert(cmds(old(ops)@).len() == n);
        if n > 0 {
            assert(cmds(old(ops)@).last() == old(ops)@[n - 1].cmd());
        }
    }
    if n > 0 {
        let mut last = ops[n - 1];
        assert(counts_within(old(ops)@, bound) ==> match old(ops)@[n - 1] {
            Op::Move(d) => -bound <= d <= bound,
            Op::Add(d) => -bound <= d <= bound,
            _ => true,
        });
        if last.coalesce(op) {
            ops.set(n - 1, last);
            proof {
                assert(cmds(ops@) =~= cmds(old(ops)@).drop_last().push(
                    merged(cmds(old(ops)@).last(), op.cmd()),
                ));
            }
            return;
        }
    }
    ops.push(op);
    proof {
        assert(cmds(ops@) =~= cmds(old(ops)@).push(op.cmd()));
    }
}

/// Parses BF text: `[-]` becomes `Zero`, each other operation byte one
/// operation, and adjacent moves, adds and clears are merged. Every other byte
/// is a comment.
pub fn parse(input: &str) -> (r: Vec<Op>)
    requires
        input.spec_bytes().len() < i32::MAX,
    ensures
        cmds(r@) == parse_spec(input.spec_bytes()),
{
    let b = input.as_bytes();
    let n = b.len();
    let mut ops: Vec<Op> = Vec::new();
    let mut i: usize = 0;
    proof {
        assert(b@.skip(0) =~= b@);
        assert(cmds(ops@) =~= Seq::<Cmd>::empty());
    }
    while i < n
        invariant
            n == b@.len(),
            b@ == input.spec_bytes(),
            n < i32::MAX,
            i <= n,
            counts_within(ops@, i as int),
            parse_spec(b@) == parse_from(b@.skip(i as int), cmds(ops@)),
        decreases n - i,
    {
        let rest = Ghost(b@.skip(i as int));
        if i + 2 < n && b[i] == 91 && b[i + 1] == 45 && b[i + 2] == 93 {
            proof {
                assert(starts_with_clear(rest@));
                assert(rest@.skip(3) =~= b@.skip(i + 3));
            }
            push_op(&mut ops, Op::Zero, Ghost(i as int));
            i = i + 3;
        } else {
            proof {
                assert(!starts_with_clear(rest@));
                assert(rest@.skip(1) =~= b@.skip(i + 1));
                assert(rest@[0] == b@[i as int]);
            }
            match token_of(b[i]) {
                Some(op) => {
                    push_op(&mut ops, op, Ghost(i as int));
                },
                None => {},
            }
            i = i + 1;
        }
    }
    proof {
        assert(b@.skip(n as int) =~= Seq::<u8>::empty());
    }
    ops
}

// ---------------------------------------------------------------------
// Emission.
// ---------------------------------------------------------------------

/// The cell widths, in bytes, that emission supports.
pub open spec fn supported_width(bytes: u8) -> bool {
    bytes == 1 || bytes == 2 || bytes == 4
}

/// A signed count as a run of `up` units, or of `down` units when not positive.
pub open spec fn signed_run(n: int, up: Seq<char>, down: Seq<char>) -> Seq<char> {
    if n > 0 {
        repeat_seq(up, n as nat)
    } else {
        repeat_seq(down, (-n) as nat)
    }
}

pub open spec fn add_up_16() -> Seq<char> {
    "+[<+>>>+<<-]<[>+<-]+>>>[<<<->>>[-]]<<<[->>+<<]>"@
}

pub open spec fn add_down_16() -> Seq<char> {
    "[<+>>>+<<-]<[>+<-]+>>>[<<<->>>[-]]<<<[->>-<<]>-"@
}

pub open spec fn while_16() -> Seq<char> {
    "[>>+>>>+<<<<<-]>>>>>[<<<<<+>>>>>-]<<<[[-]<<<+>>>]<[>+>>>+<<<<-]>>>>[<<<<+>>>>-]<<<[[-]<<<+>>>]<<<[[-]>"@
}

pub open spec fn end_16() -> Seq<char> {
    "[>>+>>>+<<<<<-]>>>>>[<<<<<+>>>>>-]<<<[[-]<<<+>>>]<[>+>>>+<<<<-]>>>>[<<<<+>>>>-]<<<[[-]<<<+>>>]<<<]>"@
}

pub open spec fn add_up_32() -> Seq<char> {
    "+[<+>>>>>+<<<<-]<[>+<-]+>>>>>[<<<<<->>>>>[-]]<<<<<[->>+[<<+>>>>>+<<<-]<<[>>+<<-]+>>>>>[<<<<<->>>>>[-]]<<<<<[->>>+[<<<+>>>>>+<<-]<<<[>>>+<<<-]+>>>>>[<<<<<->>>>>[-]]<<<<<[->>>>+<<<<]]]>"@
}

pub open spec fn add_down_32() -> Seq<char> {
    "[<+>>>>>+<<<<-]<[>+<-]+>>>>>[<<<<<->>>>>[-]]<<<<<[->>[<<+>>>>>+<<<-]<<[>>+<<-]+>>>>>[<<<<<->>>>>[-]]<<<<<[->>>[<<<+>>>>>+<<-]<<<[>>>+<<<-]+>>>>>[<<<<<->>>>>[-]]<<<<<[->>>>-<<<<]>>>-<<<]>>-<<]>-"@
}

pub open spec fn while_32() -> Seq<char> {
    "[>>>>+>>>>>+<<<<<<<<<-]>>>>>>>>>[<<<<<<<<<+>>>>>>>>>-]<<<<<[[-]<<<<<+>>>>>]<<<[>>>+>>>>>+<<<<<<<<-]>>>>>>>>[<<<<<<<<+>>>>>>>>-]<<<<<[[-]<<<<<+>>>>>]<<[>>+>>>>>+<<<<<<<-]>>>>>>>[<<<<<<<+>>>>>>>-]<<<<<[[-]<<<<<+>>>>>]<[>+>>>>>+<<<<<<-]>>>>>>[<<<<<<+>>>>>>-]<<<<<[[-]<<<<<+>>>>>]<<<<<[[-]>"@
}

pub open spec fn end_32() -> Seq<char> {
    "[>>>>+>>>>>+<<<<<<<<<-]>>>>>>>>>[<<<<<<<<<+>>>>>>>>>-]<<<<<[[-]<<<<<+>>>>>]<<<[>>>+>>>>>+<<<<<<<<-]>>>>>>>>[<<<<<<<<+>>>>>>>>-]<<<<<[[-]<<<<<+>>>>>]<<[>>+>>>>>+<<<<<<<-]>>>>>>>[<<<<<<<+>>>>>>>-]<<<<<[[-]<<<<<+>>>>>]<[>+>>>>>+<<<<<<-]>>>>>>[<<<<<<+>>>>>>-]<<<<<[[-]<<<<<+>>>>>]<<<<<]>"@
}

/// The BF text of one operation for cells of `bytes` bytes. On wider cells a
/// logical cell spans several byte cells and `+ - [ ]` become fixed routines.
pub open spec fn emit(c: Cmd, bytes: u8) -> Seq<char> {
    if bytes == 1 {
        match c {
            Cmd::Move(n) => signed_run(n, seq!['>'], seq!['<']),
            Cmd::Add(n) => signed_run(n, seq!['+'], seq!['-']),
            Cmd::Zero => seq!['[', '-', ']'],
            Cmd::Put => seq!['.'],
            Cmd::Get => seq![','],
            Cmd::While => seq!['['],
            Cmd::End => seq![']'],
            Cmd::HexDump => seq!['#'],
            Cmd::DecDump => seq!['$'],
        }
    } else if bytes == 2 {
        match c {
            Cmd::Move(n) => signed_run(n, ">>>"@, "<<<"@),
            Cmd::Add(n) => signed_run(n, add_up_16(), add_down_16()),
            Cmd::Zero => while_16() + add_down_16() + end_16(),
            Cmd::Put => seq!['.'],
            Cmd::Get => seq![','],
            Cmd::While => while_16(),
            Cmd::End => end_16(),
            Cmd::HexDump => seq!['#'],
            Cmd::DecDump => seq!['$'],
        }
    } else {
        match c {
            Cmd::Move(n) => signed_run(n, ">>>>>"@, "<<<<<"@),
            Cmd::Add(n) => signed_run(n, add_up_32(), add_down_32()),
            Cmd::Zero => while_32() + add_down_32() + end_32(),
            Cmd::Put => seq!['.'],
            Cmd::Get => seq![','],
            Cmd::While => while_32(),
            Cmd::End => end_32(),
            Cmd::HexDump => seq!['#'],
            Cmd::DecDump => seq!['$'],
        }
    }
}

/// The BF text of a list of operations.
pub open spec fn emit_all(ops: Seq<Cmd>, bytes: u8) -> Seq<char>
    decreases ops.len(),
{
    if ops.len() == 0 {
        Seq::empty()
    } else {
        emit_all(ops.drop_last(), bytes) + emit(ops.last(), bytes)
    }
}

/// The Ook! text of one operation (dumps have none).
pub open spec fn ook(c: Cmd) -> Seq<char> {
    match c {
        Cmd::Move(n) => signed_run(n, "Ook. Ook? "@, "Ook? Ook. "@),
        Cmd::Add(n) => signed_run(n, "Ook. Ook. "@, "Ook! Ook! "@),
        Cmd::Zero => "Ook! Ook? "@ + "Ook! Ook! "@ + "Ook? Ook! "@,
        Cmd::Put => "Ook! Ook. "@,
        Cmd::Get => "Ook. Ook! "@,
        Cmd::While => "Ook! Ook? "@,
        Cmd::End => "Ook? Ook! "@,
        Cmd::HexDump => Seq::empty(),
        Cmd::DecDump => Seq::empty(),
    }
}

pub open spec fn ook_all(ops: Seq<Cmd>) -> Seq<char>
    decreases ops.len(),
{
    if ops.len() == 0 {
        Seq::empty()
    } else {
        ook_all(ops.drop_last()) + ook(ops.last())
    }
}

/// Appends a signed count as runs of `up` or `down`.
fn push_signed_run(out: &mut String, n: i32, up: &str, down: &str)
    ensures
        final(out)@ == old(out)@ + signed_run(n as int, up@, down@),
{
    if n > 0 {
        push_repeat(out, up, n as u64);
    } else {
        push_repeat(out, down, (-(n as i64)) as u64);
    }
}

impl Op {
    /// Appends the operation as Ook! (8-bit cells only).
    pub fn write_ook(&self, ook_text: &mut String, target_cell_bytes: u8)
        requires
            target_cell_bytes == 1,
        ensures
            final(ook_text)@ == old(ook_text)@ + ook(self.cmd()),
    {
        match self {
            Op::Move(n) => push_signed_run(ook_text, *n, "Ook. Ook? ", "Ook? Ook. "),
            Op::Add(n) => push_signed_run(ook_text, *n, "Ook. Ook. ", "Ook! Ook! "),
            Op::Zero => {
                ook_text.append("Ook! Ook? ");
                ook_text.append("Ook! Ook! ");
                ook_text.append("Ook? Ook! ");
            },
            Op::Put => ook_text.append("Ook! Ook. "),
            Op::Get => ook_text.append("Ook. Ook! "),
            Op::While => ook_text.append("Ook! Ook? "),
            Op::End => ook_text.append("Ook? Ook! "),
            _ => {
                assert(old(ook_text)@ + Seq::<char>::empty() =~= old(ook_text)@);
            },
        }
    }

    /// Appends the operation as BF for cells of `target_cell_bytes` bytes.
    pub fn write_bf(&self, bf: &mut String, target_cell_bytes: u8)
        requires
            supported_width(target_cell_bytes),
        ensures
            final(bf)@ == old(bf)@ + emit(self.cmd(), target_cell_bytes),
    {
        proof {
            reveal_strlit(">");
            reveal_strlit("<");
            reveal_strlit("+");
            reveal_strlit("-");
            reveal_strlit("[-]");
            reveal_strlit(".");
            reveal_strlit(",");
            reveal_strlit("[");
            reveal_strlit("]");
            reveal_strlit("#");
            reveal_strlit("$");
            assert(">"@ =~= seq!['>']);
            assert("<"@ =~= seq!['<']);
            assert("+"@ =~= seq!['+']);
            assert("-"@ =~= seq!['-']);
            assert("[-]"@ =~= seq!['[', '-', ']']);
            assert("."@ =~= seq!['.']);
            assert(","@ =~= seq![',']);
            assert("["@ =~= seq!['[']);
            assert("]"@ =~= seq![']']);
            assert("#"@ =~= seq!['#']);
            assert("$"@ =~= seq!['$']);
        }
        if target_cell_bytes == 1 {
            match self {
                Op::Move(n) => push_signed_run(bf, *n, ">", "<"),
                Op::Add(n) => push_signed_run(bf, *n, "+", "-"),
                Op::Zero => bf.append("[-]"),
                Op::Put => bf.append("."),
                Op::Get => bf.append(","),
                Op::While => bf.append("["),
                Op::End => bf.append("]"),
                Op::HexDump => bf.append("#"),
                Op::DecDump => bf.append("$"),
            }
        } else if target_cell_bytes == 2 {
            match self {
                Op::Move(n) => push_signed_run(bf, *n, ">>>", "<<<"),
                Op::Add(n) => push_signed_run(
                    bf,
                    *n,
                    "+[<+>>>+<<-]<[>+<-]+>>>[<<<->>>[-]]<<<[->>+<<]>",
                    "[<+>>>+<<-]<[>+<-]+>>>[<<<->>>[-]]<<<[->>-<<]>-",
                ),
                Op::Zero => {
                    bf.append("[>>+>>>+<<<<<-]>>>>>[<<<<<+>>>>>-]<<<[[-]<<<+>>>]<[>+>>>+<<<<-]>>>>[<<<<+>>>>-]<<<[[-]<<<+>>>]<<<[[-]>");
                    bf.append("[<+>>>+<<-]<[>+<-]+>>>[<<<->>>[-]]<<<[->>-<<]>-");
                    bf.append("[>>+>>>+<<<<<-]>>>>>[<<<<<+>>>>>-]<<<[[-]<<<+>>>]<[>+>>>+<<<<-]>>>>[<<<<+>>>>-]<<<[[-]<<<+>>>]<<<]>");
                },
                Op::Put => bf.append("."),
                Op::Get => bf.append(","),
                Op::While => bf.append(
                    "[>>+>>>+<<<<<-]>>>>>[<<<<<+>>>>>-]<<<[[-]<<<+>>>]<[>+>>>+<<<<-]>>>>[<<<<+>>>>-]<<<[[-]<<<+>>>]<<<[[-]>",
                ),
                Op::End => bf.append(
                    "[>>+>>>+<<<<<-]>>>>>[<<<<<+>>>>>-]<<<[[-]<<<+>>>]<[>+>>>+<<<<-]>>>>[<<<<+>>>>-]<<<[[-]<<<+>>>]<<<]>",
                ),
                Op::HexDump => bf.append("#"),
                Op::DecDump => bf.append("$"),
            }
        } else {
            match self {
                Op::Move(n) => push_signed_run(bf, *n, ">>>>>", "<<<<<"),
                Op::Add(n) => push_signed_run(
                    bf,
                    *n,
                    "+[<+>>>>>+<<<<-]<[>+<-]+>>>>>[<<<<<->>>>>[-]]<<<<<[->>+[<<+>>>>>+<<<-]<<[>>+<<-]+>>>>>[<<<<<->>>>>[-]]<<<<<[->>>+[<<<+>>>>>+<<-]<<<[>>>+<<<-]+>>>>>[<<<<<->>>>>[-]]<<<<<[->>>>+<<<<]]]>",
                    "[<+>>>>>+<<<<-]<[>+<-]+>>>>>[<<<<<->>>>>[-]]<<<<<[->>[<<+>>>>>+<<<-]<<[>>+<<-]+>>>>>[<<<<<->>>>>[-]]<<<<<[->>>[<<<+>>>>>+<<-]<<<[>>>+<<<-]+>>>>>[<<<<<->>>>>[-]]<<<<<[->>>>-<<<<]>>>-<<<]>>-<<]>-",
                ),
                Op::Zero => {
                    bf.append("[>>>>+>>>>>+<<<<<<<<<-]>>>>>>>>>[<<<<<<<<<+>>>>>>>>>-]<<<<<[[-]<<<<<+>>>>>]<<<[>>>+>>>>>+<<<<<<<<-]>>>>>>>>[<<<<<<<<+>>>>>>>>-]<<<<<[[-]<<<<<+>>>>>]<<[>>+>>>>>+<<<<<<<-]>>>>>>>[<<<<<<<+>>>>>>>-]<<<<<[[-]<<<<<+>>>>>]<[>+>>>>>+<<<<<<-]>>>>>>[<<<<<<+>>>>>>-]<<<<<[[-]<<<<<+>>>>>]<<<<<[[-]>");
                    bf.append("[<+>>>>>+<<<<-]<[>+<-]+>>>>>[<<<<<->>>>>[-]]<<<<<[->>[<<+>>>>>+<<<-]<<[>>+<<-]+>>>>>[<<<<<->>>>>[-]]<<<<<[->>>[<<<+>>>>>+<<-]<<<[>>>+<<<-]+>>>>>[<<<<<->>>>>[-]]<<<<<[->>>>-<<<<]>>>-<<<]>>-<<]>-");
                    bf.append("[>>>>+>>>>>+<<<<<<<<<-]>>>>>>>>>[<<<<<<<<<+>>>>>>>>>-]<<<<<[[-]<<<<<+>>>>>]<<<[>>>+>>>>>+<<<<<<<<-]>>>>>>>>[<<<<<<<<+>>>>>>>>-]<<<<<[[-]<<<<<+>>>>>]<<[>>+>>>>>+<<<<<<<-]>>>>>>>[<<<<<<<+>>>>>>>-]<<<<<[[-]<<<<<+>>>>>]<[>+>>>>>+<<<<<<-]>>>>>>[<<<<<<+>>>>>>-]<<<<<[[-]<<<<<+>>>>>]<<<<<]>");
                },
                Op::Put => bf.append("."),
                Op::Get => bf.append(","),
                Op::While => bf.append(
                    "[>>>>+>>>>>+<<<<<<<<<-]>>>>>>>>>[<<<<<<<<<+>>>>>>>>>-]<<<<<[[-]<<<<<+>>>>>]<<<[>>>+>>>>>+<<<<<<<<-]>>>>>>>>[<<<<<<<<+>>>>>>>>-]<<<<<[[-]<<<<<+>>>>>]<<[>>+>>>>>+<<<<<<<-]>>>>>>>[<<<<<<<+>>>>>>>-]<<<<<[[-]<<<<<+>>>>>]<[>+>>>>>+<<<<<<-]>>>>>>[<<<<<<+>>>>>>-]<<<<<[[-]<<<<<+>>>>>]<<<<<[[-]>",
                ),
                Op::End => bf.append(
                    "[>>>>+>>>>>+<<<<<<<<<-]>>>>>>>>>[<<<<<<<<<+>>>>>>>>>-]<<<<<[[-]<<<<<+>>>>>]<<<[>>>+>>>>>+<<<<<<<<-]>>>>>>>>[<<<<<<<<+>>>>>>>>-]<<<<<[[-]<<<<<+>>>>>]<<[>>+>>>>>+<<<<<<<-]>>>>>>>[<<<<<<<+>>>>>>>-]<<<<<[[-]<<<<<+>>>>>]<[>+>>>>>+<<<<<<-]>>>>>>[<<<<<<+>>>>>>-]<<<<<[[-]<<<<<+>>>>>]<<<<<]>",
                ),
                Op::HexDump => bf.append("#"),
                Op::DecDump => bf.append("$"),
            }
        }
    }
}

/// Appends all of `ops` as BF for cells of `bytes` bytes.
pub fn write_all_bf(ops: &Vec<Op>, out: &mut String, bytes: u8)
    requires
        supported_width(bytes),
    ensures
        final(out)@ == old(out)@ + emit_all(cmds(ops@), bytes),
{
    let mut i: usize = 0;
    while i < ops.len()
        invariant
            supported_width(bytes),
            i <= ops@.len(),
            out@ == old(out)@ + emit_all(cmds(ops@.subrange(0, i as int)), bytes),
        decreases ops@.len() - i,
    {
        proof {
            let next = cmds(ops@.subrange(0, i + 1));
            assert(next.drop_last() =~= cmds(ops@.subrange(0, i as int)));
            assert(next.last() == ops@[i as int].cmd());
        }
        ops[i].write_bf(out, bytes);
        i = i + 1;
        assert(out@ =~= old(out)@ + emit_all(cmds(ops@.subrange(0, i as int)), bytes));
    }
    assert(ops@.subrange(0, ops@.len() as int) =~= ops@);
}

/// Re-emits BF text in its canonical 8-bit form: parsed, merged, and written
/// back without comments.
pub fn simplify_bf(bf: String) -> (r: String)
    requires
        encode_utf8(bf@).len() < i32::MAX,
    ensures
        r@ == emit_all(parse_spec(encode_utf8(bf@)), 1),
{
    let ops = parse(bf.as_str());
    let mut out = String::new();
    write_all_bf(&ops, &mut out, 1);
    assert(out@ =~= emit_all(cmds(ops@), 1));
    out
}

/// Translates BF text to Ook!.
pub fn compile_to_ook(bf: String) -> (r: String)
    requires
        encode_utf8(bf@).len() < i32::MAX,
    ensures
        r@ == ook_all(parse_spec(encode_utf8(bf@))),
{
    let ops = parse(bf.as_str());
    let mut out = String::new();
    let mut i: usize = 0;
    while i < ops.len()
        invariant
            i <= ops@.len(),
            out@ == ook_all(cmds(ops@.subrange(0, i as int))),
        decreases ops@.len() - i,
    {
        proof {
            let next = cmds(ops@.subrange(0, i + 1));
            assert(next.drop_last() =~= cmds(ops@.subrange(0, i as int)));
            assert(next.last() == ops@[i as int].cmd());
        }
        ops[i].write_ook(&mut out, 1);
        i = i + 1;
    }
    assert(ops@.subrange(0, ops@.len() as int) =~= ops@);
    out
}

// ---------------------------------------------------------------------
// C.
// ---------------------------------------------------------------------

pub open spec fn hex_dump_c() -> Seq<char> {
    "for (int i = 0; i < 0x100; i++) {\n    if (i % 16 == 0) {\n        printf(\"%03d-%03d: \", i, i + 15);\n    }\n    printf(\"%02x \", tape[i]);\n    if ((i + 1) % 16 == 0) {\n        printf(\"\\n\");\n    }\n}"@
}

pub open spec fn dec_dump_c() -> Seq<char> {
    "for (int i = 0; i < 0x100; i++) {\n    if (i % 16 == 0) {\n        printf(\"%03d-%03d: \", i, i + 15);\n    }\n    printf(\"%3d \", tape[i]);\n    if ((i + 1) % 16 == 0) {\n        printf(\"\\n\");\n    }\n}"@
}

/// The C statement of one operation.
pub open spec fn c_statement(c: Cmd) -> Seq<char> {
    match c {
        Cmd::Move(n) => "ptr += "@ + decimal(n) + ";"@,
        Cmd::Add(n) => "*ptr += "@ + decimal(n) + ";"@,
        Cmd::Zero => "*ptr = 0;"@,
        Cmd::Put => "putchar(*ptr);"@,
        Cmd::Get => "*ptr = (ch = getchar()) == EOF? 0 : ch;"@,
        Cmd::While => "while (*ptr) {"@,
        Cmd::End => "}"@,
        Cmd::HexDump => hex_dump_c(),
        Cmd::DecDump => dec_dump_c(),
    }
}

/// The body of `main`: one indented line per operation.
pub open spec fn c_body(ops: Seq<Cmd>) -> Seq<char>
    decreases ops.len(),
{
    if ops.len() == 0 {
        Seq::empty()
    } else {
        c_body(ops.drop_last()) + "    "@ + c_statement(ops.last()) + "\n"@
    }
}

/// The start of the C program: a zeroed tape of 30000 unsigned cells of the
/// given width, and the head at its start.
pub open spec fn c_header(bytes: u8) -> Seq<char> {
    let tape = if bytes == 1 {
        "    unsigned char *tape = calloc(30000, sizeof(char));\n"@
            + "    unsigned char *ptr = tape;\n"@
    } else if bytes == 2 {
        "    unsigned short *tape = calloc(30000, sizeof(short));\n"@
            + "    unsigned short *ptr = tape;\n"@
    } else {
        "    unsigned int *tape = calloc(30000, sizeof(int));\n"@ + "    unsigned int *ptr = tape;\n"@
    };
    "#include <stdio.h>\n"@ + "#include <stdlib.h>\n"@ + "int main() {\n"@ + tape
        + "    char ch;\n"@
}

pub open spec fn c_footer() -> Seq<char> {
    "    free(tape);\n"@ + "    return 0;\n"@ + "}\n"@
}

/// A cell width that the C back-end cannot emit.
#[derive(Debug, Clone, Copy, PartialEq, Eq, Structural)]
pub struct UnsupportedCellWidth {
    pub bytes: u8,
}

impl Op {
    /// Appends the operation as a C statement.
    pub fn write_c(&self, out: &mut String)
        ensures
            final(out)@ == old(out)@ + c_statement(self.cmd()),
    {
        match self {
            Op::Move(n) => {
                out.append("ptr += ");
                out.append(&decimal_string(*n as i64));
                out.append(";");
            },
            Op::Add(n) => {
                out.append("*ptr += ");
                out.append(&decimal_string(*n as i64));
                out.append(";");
            },
            Op::Zero => out.append("*ptr = 0;"),
            Op::Put => out.append("putchar(*ptr);"),
            Op::Get => out.append("*ptr = (ch = getchar()) == EOF? 0 : ch;"),
            Op::While => out.append("while (*ptr) {"),
            Op::End => out.append("}"),
            Op::HexDump => out.append("for (int i = 0; i < 0x100; i++) {\n    if (i % 16 == 0) {\n        printf(\"%03d-%03d: \", i, i + 15);\n    }\n    printf(\"%02x \", tape[i]);\n    if ((i + 1) % 16 == 0) {\n        printf(\"\\n\");\n    }\n}"),
            Op::DecDump => out.append("for (int i = 0; i < 0x100; i++) {\n    if (i % 16 == 0) {\n        printf(\"%03d-%03d: \", i, i + 15);\n    }\n    printf(\"%3d \", tape[i]);\n    if ((i + 1) % 16 == 0) {\n        printf(\"\\n\");\n    }\n}"),
        }
    }
}

/// Translates BF text to a C program over a tape of cells of `bytes` bytes.
pub fn compile_to_c(bf: String, bytes: u8) -> (r: Result<String, UnsupportedCellWidth>)
    requires
        encode_utf8(bf@).len() < i32::MAX,
    ensures
        r is Err <==> !supported_width(bytes),
        r matches Err(e) ==> e.bytes == bytes,
        r matches Ok(s) ==> s@ == c_header(bytes) + c_body(parse_spec(encode_utf8(bf@))) + c_footer(),
{
    if bytes != 1 && bytes != 2 && bytes != 4 {
        return Err(UnsupportedCellWidth { bytes });
    }
    let ops = parse(bf.as_str());
    let mut out = String::from_str("#include <stdio.h>\n");
    out.append("#include <stdlib.h>\n");
    out.append("int main() {\n");
    if bytes == 1 {
        out.append("    unsigned char *tape = calloc(30000, sizeof(char));\n");
        out.append("    unsigned char *ptr = tape;\n");
    } else if bytes == 2 {
        out.append("    unsigned short *tape = calloc(30000, sizeof(short));\n");
        out.append("    unsigned short *ptr = tape;\n");
    } else {
        out.append("    unsigned int *tape = calloc(30000, sizeof(int));\n");
        out.append("    unsigned int *ptr = tape;\n");
    }
    out.append("    char ch;\n");
    let ghost header = out@;
    assert(header =~= c_header(bytes));
    let mut i: usize = 0;
    while i < ops.len()
        invariant
            i <= ops@.len(),
            out@ == header + c_body(cmds(ops@.subrange(0, i as int))),
        decreases ops@.len() - i,
    {
        proof {
            let next = cmds(ops@.subrange(0, i + 1));
            assert(next.drop_last() =~= cmds(ops@.subrange(0, i as int)));
            assert(next.last() == ops@[i as int].cmd());
        }
        out.append("    ");
        ops[i].write_c(&mut out);
        out.append("\n");
        i = i + 1;
        assert(out@ =~= header + c_body(cmds(ops@.subrange(0, i as int))));
    }
    assert(ops@.subrange(0, ops@.len() as int) =~= ops@);
    out.append("    free(tape);\n");
    out.append("    return 0;\n");
    out.append("}\n");
    assert(out@ =~= c_header(bytes) + c_body(parse_spec(encode_utf8(bf@))) + c_footer());
    Ok(out)
}

} // verus!
