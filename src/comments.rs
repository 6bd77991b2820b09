//! Comments in assembly source: `//` and `;;` run to the end of the line (the
//! newline stays), `/* ... */` is dropped whole, and a lone `;` is dropped.
use vstd::prelude::*;
use crate::code::push_char;

verus! {

/// `s` with its comments removed.
pub open spec fn stripped(s: Seq<char>) -> Seq<char>
    decreases s.len(), 1nat,
{
    if s.len() == 0 {
        Seq::empty()
    } else if s.len() >= 2 && ((s[0] == '/' && s[1] == '/') || (s[0] == ';' && s[1] == ';')) {
        rest_of_line(s.skip(1))
    } else if s.len() >= 2 && s[0] == '/' && s[1] == '*' {
        rest_of_block(s.skip(1))
    } else if s[0] == ';' {
        stripped(s.skip(1))
    } else {
        seq![s[0]] + stripped(s.skip(1))
    }
}

/// Inside a line comment: everything up to the newline is dropped.
pub open spec fn rest_of_line(t: Seq<char>) -> Seq<char>
    decreases t.len(), 0nat,
{
    if t.len() == 0 {
        Seq::empty()
    } else if t[0] == '\n' {
        seq!['\n'] + stripped(t.skip(1))
    } else {
        rest_of_line(t.skip(1))
    }
}

/// Inside a block comment, from its `*`: everything up to the first `*/` is dropped.
pub open spec fn rest_of_block(t: Seq<char>) -> Seq<char>
    decreases t.len(), 0nat,
{
    if t.len() == 0 {
        Seq::empty()
    } else if t.len() >= 2 && t[0] == '*' && t[1] == '/' {
        stripped(t.skip(2))
    } else {
        rest_of_block(t.skip(1))
    }
}

pub open spec fn resume(mode: u8, t: Seq<char>) -> Seq<char> {
    if mode == 0 {
        stripped(t)
    } else if mode == 1 {
        rest_of_line(t)
    } else {
        rest_of_block(t)
    }
}

/// Removes the comments of assembly source.
pub fn strip_comments(input: &str) -> (r: String)
    ensures
        r@ == stripped(input@),
{
    let n = input.unicode_len();
    let ghost s = input@;
    let mut out = String::new();
    // 0: code, 1: in a line comment, 2: in a block comment.
    let mut mode: u8 = 0;
    let mut i: usize = 0;
    assert(s.skip(0) =~= s);
    while i < n
        invariant
            n == s.len(),
            s == input@,
            i <= n,
            mode <= 2,
            out@ + resume(mode, s.skip(i as int)) == stripped(s),
        decreases n - i,
    {
        let ghost t = s.skip(i as int);
        assert(t.skip(1) =~= s.skip(i + 1));
        assert(t[0] == s[i as int]);
        let c = input.get_char(i);
        let has_next = i + 1 < n;
        let next = if has_next { input.get_char(i + 1) } else { ' ' };
        if has_next {
            assert(t[1] == s[i + 1]);
        }
        if mode == 0 {
            if has_next && ((c == '/' && next == '/') || (c == ';' && next == ';')) {
                mode = 1;
            } else if has_next && c == '/' && next == '*' {
                mode = 2;
            } else if c == ';' {
            } else {
                push_char(&mut out, c);
                assert(out@ + stripped(t.skip(1)) =~= out@.drop_last() + (seq![c] + stripped(t.skip(1))));
            }
            i = i + 1;
        } else if mode == 1 {
            if c == '\n' {
                push_char(&mut out, c);
                mode = 0;
                assert(out@ + stripped(t.skip(1)) =~= out@.drop_last() + (seq!['\n'] + stripped(t.skip(1))));
            }
            i = i + 1;
        } else {
            if has_next && c == '*' && next == '/' {
                mode = 0;
                assert(t.skip(2) =~= s.skip(i + 2));
                i = i + 2;
            } else {
                i = i + 1;
            }
        }
    }
    assert(s.skip(n as int) =~= Seq::<char>::empty());
    assert(out@ + resume(mode, Seq::<char>::empty()) =~= out@);
    out
}

} // verus!
