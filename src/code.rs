//! Brainfuck text as a sequence of characters: repetition, and the structural
//! "returns home" property of emitted code.
use vstd::prelude::*;

verus! {

/// `n` copies of `unit`, one after another.
pub open spec fn repeat_seq(unit: Seq<char>, n: nat) -> Seq<char>
    decreases n,
{
    if n == 0 {
        Seq::empty()
    } else {
        repeat_seq(unit, (n - 1) as nat) + unit
    }
}

/// `n` copies of the character `c`.
pub open spec fn rep(c: char, n: nat) -> Seq<char> {
    repeat_seq(seq![c], n)
}

/// Walks BF text, tracking the head displacement `d` and a stack holding the
/// displacement at each open `[`. A `]` must close a loop at the displacement
/// at which it was opened; otherwise the walk fails.
pub open spec fn walk(s: Seq<char>, st: Seq<int>, d: int) -> Option<(Seq<int>, int)>
    decreases s.len(),
{
    if s.len() == 0 {
        Some((st, d))
    } else {
        let c = s[0];
        let rest = s.drop_first();
        if c == '>' {
            walk(rest, st, d + 1)
        } else if c == '<' {
            walk(rest, st, d - 1)
        } else if c == '[' {
            walk(rest, st.push(d), d)
        } else if c == ']' {
            if st.len() > 0 && st.last() == d {
                walk(rest, st.drop_last(), d)
            } else {
                None
            }
        } else {
            walk(rest, st, d)
        }
    }
}

/// The text moves the head by exactly `k` cells, and every loop in it that it
/// opens it also closes, with the head back where the loop was entered.
/// Any run of such text therefore moves the head by `k`, whatever the tape holds.
pub open spec fn shifts(s: Seq<char>, k: int) -> bool {
    forall|st: Seq<int>, d: int| #[trigger] walk(s, st, d) == Some((st, d + k))
}

/// The text starts and ends with the head on the same cell, on every run.
pub open spec fn returns_home(s: Seq<char>) -> bool {
    shifts(s, 0)
}

pub proof fn lemma_walk_concat(a: Seq<char>, b: Seq<char>, st: Seq<int>, d: int)
    ensures
        walk(a + b, st, d) == (match walk(a, st, d) {
            Some(p) => walk(b, p.0, p.1),
            None => None,
        }),
    decreases a.len(),
{
    if a.len() == 0 {
        assert(a + b =~= b);
    } else {
        assert((a + b).drop_first() =~= a.drop_first() + b);
        assert((a + b)[0] == a[0]);
        let c = a[0];
        if c == '>' {
            lemma_walk_concat(a.drop_first(), b, st, d + 1);
        } else if c == '<' {
            lemma_walk_concat(a.drop_first(), b, st, d - 1);
        } else if c == '[' {
            lemma_walk_concat(a.drop_first(), b, st.push(d), d);
        } else if c == ']' {
            if st.len() > 0 && st.last() == d {
                lemma_walk_concat(a.drop_first(), b, st.drop_last(), d);
            }
        } else {
            lemma_walk_concat(a.drop_first(), b, st, d);
        }
    }
}

pub proof fn lemma_shifts_concat(a: Seq<char>, b: Seq<char>, ka: int, kb: int)
    requires
        shifts(a, ka),
        shifts(b, kb),
    ensures
        shifts(a + b, ka + kb),
{
    assert forall|st: Seq<int>, d: int| #[trigger] walk(a + b, st, d) == Some((st, d + (ka + kb))) by {
        lemma_walk_concat(a, b, st, d);
        assert(walk(a, st, d) == Some((st, d + ka)));
        assert(walk(b, st, d + ka) == Some((st, d + ka + kb)));
    }
}

pub proof fn lemma_shifts_concat3(a: Seq<char>, b: Seq<char>, c: Seq<char>, ka: int, kb: int, kc: int)
    requires
        shifts(a, ka),
        shifts(b, kb),
        shifts(c, kc),
    ensures
        shifts(a + b + c, ka + kb + kc),
{
    lemma_shifts_concat(a, b, ka, kb);
    lemma_shifts_concat(a + b, c, ka + kb, kc);
}

/// One step of the walk, on a text of a single character.
pub proof fn lemma_walk_single(c: char, st: Seq<int>, d: int)
    ensures
        walk(seq![c], st, d) == (if c == '>' {
            Some((st, d + 1))
        } else if c == '<' {
            Some((st, d - 1))
        } else if c == '[' {
            Some((st.push(d), d))
        } else if c == ']' {
            if st.len() > 0 && st.last() == d {
                Some((st.drop_last(), d))
            } else {
                None
            }
        } else {
            Some((st, d))
        }),
{
    let s = seq![c];
    assert(s.drop_first() =~= Seq::<char>::empty());
    assert(walk(Seq::<char>::empty(), st, d + 1) == Some((st, d + 1)));
    assert(walk(Seq::<char>::empty(), st, d - 1) == Some((st, d - 1)));
    assert(walk(Seq::<char>::empty(), st, d) == Some((st, d)));
    assert(walk(Seq::<char>::empty(), st.push(d), d) == Some((st.push(d), d)));
    assert(walk(Seq::<char>::empty(), st.drop_last(), d) == Some((st.drop_last(), d)));
}

pub proof fn lemma_shifts_empty()
    ensures
        shifts(Seq::<char>::empty(), 0),
{
    assert forall|st: Seq<int>, d: int| #[trigger] walk(Seq::<char>::empty(), st, d) == Some((st, d + 0)) by {}
}

/// A single character that is neither a move nor a bracket leaves the head alone.
pub proof fn lemma_shifts_plain(c: char)
    requires
        c != '>' && c != '<' && c != '[' && c != ']',
    ensures
        shifts(seq![c], 0),
{
    assert forall|st: Seq<int>, d: int| #[trigger] walk(seq![c], st, d) == Some((st, d + 0)) by {
        lemma_walk_single(c, st, d);
    }
}

pub proof fn lemma_shifts_right()
    ensures
        shifts(seq!['>'], 1),
{
    assert forall|st: Seq<int>, d: int| #[trigger] walk(seq!['>'], st, d) == Some((st, d + 1)) by {
        lemma_walk_single('>', st, d);
    }
}

pub proof fn lemma_shifts_left()
    ensures
        shifts(seq!['<'], -1),
{
    assert forall|st: Seq<int>, d: int| #[trigger] walk(seq!['<'], st, d) == Some((st, d + -1)) by {
        lemma_walk_single('<', st, d);
    }
}

pub proof fn lemma_shifts_repeat(unit: Seq<char>, k: int, n: nat)
    requires
        shifts(unit, k),
    ensures
        shifts(repeat_seq(unit, n), k * n),
    decreases n,
{
    if n == 0 {
        lemma_shifts_empty();
    } else {
        lemma_shifts_repeat(unit, k, (n - 1) as nat);
        lemma_shifts_concat(repeat_seq(unit, (n - 1) as nat), unit, k * (n - 1), k);
        assert(k * (n - 1) + k == k * n) by (nonlinear_arith);
    }
}

/// Moving right `n` cells, and moving back left `n` cells.
pub proof fn lemma_shifts_moves(n: nat)
    ensures
        shifts(rep('>', n), n as int),
        shifts(rep('<', n), -(n as int)),
{
    lemma_shifts_right();
    lemma_shifts_left();
    lemma_shifts_repeat(seq!['>'], 1, n);
    lemma_shifts_repeat(seq!['<'], -1, n);
    assert(-1 * n == -(n as int)) by (nonlinear_arith);
}

pub proof fn lemma_shifts_rep_plain(c: char, n: nat)
    requires
        c != '>' && c != '<' && c != '[' && c != ']',
    ensures
        shifts(rep(c, n), 0),
{
    lemma_shifts_plain(c);
    lemma_shifts_repeat(seq![c], 0, n);
}

/// A loop whose body returns home returns home.
pub proof fn lemma_returns_home_loop(body: Seq<char>)
    requires
        returns_home(body),
    ensures
        returns_home(seq!['['] + body + seq![']']),
{
    assert forall|st: Seq<int>, d: int| #[trigger] walk(seq!['['] + body + seq![']'], st, d) == Some((st, d + 0)) by {
        lemma_walk_concat(seq!['['] + body, seq![']'], st, d);
        lemma_walk_concat(seq!['['], body, st, d);
        lemma_walk_single('[', st, d);
        assert(walk(body, st.push(d), d) == Some((st.push(d), d + 0)));
        assert(st.push(d).drop_last() =~= st);
        lemma_walk_single(']', st.push(d), d);
    }
}

/// Appends `n` copies of `unit` to `out`.
pub fn push_repeat(out: &mut String, unit: &str, n: u64)
    ensures
        final(out)@ == old(out)@ + repeat_seq(unit@, n as nat),
{
    let mut i: u64 = 0;
    while i < n
        invariant
            i <= n,
            out@ == old(out)@ + repeat_seq(unit@, i as nat),
        decreases n - i,
    {
        out.append(unit);
        i = i + 1;
        assert(out@ =~= old(out)@ + repeat_seq(unit@, i as nat));
    }
}

/// `n` copies of `unit`.
pub fn repeat_str(unit: &str, n: u64) -> (r: String)
    ensures
        r@ == repeat_seq(unit@, n as nat),
{
    let mut out = String::new();
    push_repeat(&mut out, unit, n);
    assert(out@ =~= repeat_seq(unit@, n as nat));
    out
}

/// Relies on `String::push`, which appends the character.
#[verifier::external_body]
pub(crate) fn push_char(s: &mut String, c: char)
    ensures
        final(s)@ == old(s)@.push(c),
{
    s.push(c);
}

/// The string of the characters `cs`.
pub fn string_of(cs: &Vec<char>) -> (r: String)
    ensures
        r@ == cs@,
{
    let mut out = String::new();
    let mut i: usize = 0;
    while i < cs.len()
        invariant
            i <= cs@.len(),
            out@ == cs@.take(i as int),
        decreases cs@.len() - i,
    {
        push_char(&mut out, cs[i]);
        i = i + 1;
        assert(out@ =~= cs@.take(i as int));
    }
    assert(cs@.take(cs@.len() as int) =~= cs@);
    out
}

/// The decimal digit of `d`, for `d < 10`.
pub open spec fn digit_char(d: nat) -> char {
    if d == 0 { '0' } else if d == 1 { '1' } else if d == 2 { '2' } else if d == 3 { '3' }
    else if d == 4 { '4' } else if d == 5 { '5' } else if d == 6 { '6' } else if d == 7 { '7' }
    else if d == 8 { '8' } else { '9' }
}

/// The digits of `n` in decimal.
pub open spec fn digits(n: nat) -> Seq<char>
    decreases n,
{
    if n < 10 {
        seq![digit_char(n)]
    } else {
        digits(n / 10) + seq![digit_char(n % 10)]
    }
}

/// `n` in decimal, with a leading `-` when negative.
pub open spec fn decimal(n: int) -> Seq<char> {
    if n < 0 {
        seq!['-'] + digits((-n) as nat)
    } else {
        digits(n as nat)
    }
}

/// Appends the decimal digits of `n`.
pub fn push_digits(out: &mut String, n: u64)
    ensures
        final(out)@ == old(out)@ + digits(n as nat),
    decreases n,
{
    if n >= 10 {
        push_digits(out, n / 10);
    }
    let d = n % 10;
    let c = if d == 0 { '0' } else if d == 1 { '1' } else if d == 2 { '2' } else if d == 3 { '3' }
        else if d == 4 { '4' } else if d == 5 { '5' } else if d == 6 { '6' } else if d == 7 { '7' }
        else if d == 8 { '8' } else { '9' };
    push_char(out, c);
    assert(out@ =~= old(out)@ + digits(n as nat));
}

/// `n` in decimal, with a leading `-` when negative.
pub fn decimal_string(n: i64) -> (r: String)
    ensures
        r@ == decimal(n as int),
{
    let mut out = String::new();
    if n < 0 {
        push_char(&mut out, '-');
        let m: u64 = if n == i64::MIN { 9223372036854775808u64 } else { (-n) as u64 };
        push_digits(&mut out, m);
    } else {
        push_digits(&mut out, n as u64);
    }
    assert(out@ =~= decimal(n as int));
    out
}

} // verus!
