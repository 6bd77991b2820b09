//! ASCII-art templates for BF output: the template's visible characters are
//! replaced, in order, by the characters of the code.
use vstd::prelude::*;
use vstd::std_specs::iter::IteratorSpec;
use crate::code::string_of;

verus! {

broadcast use {vstd::string::axiom_spec_iter, vstd::string::next_postcondition};

/// The characters of `s`, in order.
pub fn char_vec(s: &str) -> (r: Vec<char>)
    ensures
        r@ == s@,
{
    let mut out: Vec<char> = Vec::new();
    let mut it = s.chars();
    loop
        invariant
            out@ + it.remaining() == s@,
            it.obeys_prophetic_iter_laws(),
            it.decrease() is Some,
        decreases it.decrease()->0,
    {
        match it.next() {
            Some(c) => {
                out.push(c);
                assert(out@ + it.remaining() =~= s@);
            },
            None => {
                assert(out@ =~= s@);
                return out;
            },
        }
    }
}

/// Whitespace in the Unicode sense (the `White_Space` property).
pub open spec fn is_space(c: char) -> bool {
    ('\t' <= c && c <= '\r') || c == ' ' || c == '\u{85}' || c == '\u{A0}' || c == '\u{1680}' || (
    '\u{2000}' <= c && c <= '\u{200A}') || c == '\u{2028}' || c == '\u{2029}' || c == '\u{202F}'
        || c == '\u{205F}' || c == '\u{3000}'
}

pub fn is_whitespace(c: char) -> (r: bool)
    ensures
        r == is_space(c),
{
    ('\t' <= c && c <= '\r') || c == ' ' || c == '\u{85}' || c == '\u{A0}' || c == '\u{1680}' || (
    '\u{2000}' <= c && c <= '\u{200A}') || c == '\u{2028}' || c == '\u{2029}' || c == '\u{202F}'
        || c == '\u{205F}' || c == '\u{3000}'
}

/// The characters a BF reader would take as code, replaced by look-alikes.
pub open spec fn safe_char(c: char) -> char {
    if c == '-' { '~' }
    else if c == '+' { '*' }
    else if c == '.' { ':' }
    else if c == ',' { ';' }
    else if c == '#' { '@' }
    else if c == '$' { 'S' }
    else if c == '>' { '/' }
    else if c == '<' { '\\' }
    else if c == '[' { '{' }
    else if c == ']' { '}' }
    else { c }
}

/// Replaces every BF character of `art` by a look-alike.
pub fn replace_brainfuck_chars(art: String) -> (r: String)
    ensures
        r@ == art@.map_values(|c: char| safe_char(c)),
{
    let cs = char_vec(art.as_str());
    let mut out: Vec<char> = Vec::new();
    let mut i: usize = 0;
    while i < cs.len()
        invariant
            i <= cs@.len(),
            out@ == cs@.take(i as int).map_values(|c: char| safe_char(c)),
        decreases cs@.len() - i,
    {
        let c = cs[i];
        let d = if c == '-' { '~' }
            else if c == '+' { '*' }
            else if c == '.' { ':' }
            else if c == ',' { ';' }
            else if c == '#' { '@' }
            else if c == '$' { 'S' }
            else if c == '>' { '/' }
            else if c == '<' { '\\' }
            else if c == '[' { '{' }
            else if c == ']' { '}' }
            else { c };
        out.push(d);
        i = i + 1;
        assert(out@ =~= cs@.take(i as int).map_values(|c: char| safe_char(c)));
    }
    assert(cs@.take(cs@.len() as int) =~= cs@);
    string_of(&out)
}

/// The number of characters of `s` that are not whitespace.
pub open spec fn visible_count(s: Seq<char>) -> nat
    decreases s.len(),
{
    if s.len() == 0 {
        0
    } else {
        visible_count(s.drop_last()) + if is_space(s.last()) { 0nat } else { 1nat }
    }
}

/// The number of characters of `cs` that are not whitespace.
fn count_visible(cs: &Vec<char>) -> (r: usize)
    ensures
        r == visible_count(cs@),
{
    let mut n: usize = 0;
    let mut i: usize = 0;
    while i < cs.len()
        invariant
            i <= cs@.len(),
            n == visible_count(cs@.take(i as int)),
            n <= i,
        decreases cs@.len() - i,
    {
        assert(cs@.take(i + 1).drop_last() =~= cs@.take(i as int));
        if !is_whitespace(cs[i]) {
            n = n + 1;
        }
        i = i + 1;
    }
    assert(cs@.take(cs@.len() as int) =~= cs@);
    n
}

/// How many code characters the template can hold.
pub fn available_brainfuck_slots(art: &str) -> (r: usize)
    ensures
        r == visible_count(art@),
{
    count_visible(&char_vec(art))
}

// ---------------------------------------------------------------------
// Lines.
// ---------------------------------------------------------------------

/// The index of the first newline of `s`, or its length if it has none.
pub open spec fn first_newline(s: Seq<char>) -> nat
    decreases s.len(),
{
    if s.len() == 0 {
        0
    } else if s[0] == '\n' {
        0
    } else {
        1 + first_newline(s.skip(1))
    }
}

/// A line without its line ending: `\n`, or `\r\n`.
pub open spec fn line_body(s: Seq<char>, k: nat) -> Seq<char> {
    if k > 0 && s[k - 1] == '\r' {
        s.take(k - 1)
    } else {
        s.take(k as int)
    }
}

/// The lines of `s`, split at `\n` or `\r\n`; a final line ending starts no
/// further line.
pub open spec fn lines_of(s: Seq<char>) -> Seq<Seq<char>>
    decreases s.len(),
{
    if s.len() == 0 {
        Seq::empty()
    } else {
        let k = first_newline(s);
        if k >= s.len() {
            seq![s]
        } else {
            seq![line_body(s, k)] + lines_of(s.skip(k + 1 as int))
        }
    }
}

/// The lines `ls` joined with `\n`.
pub open spec fn join_lines(ls: Seq<Seq<char>>) -> Seq<char>
    decreases ls.len(),
{
    if ls.len() == 0 {
        Seq::empty()
    } else if ls.len() == 1 {
        ls[0]
    } else {
        join_lines(ls.drop_last()) + seq!['\n'] + ls.last()
    }
}

proof fn lemma_first_newline(s: Seq<char>, j: int)
    requires
        0 <= j <= s.len(),
        forall|m: int| 0 <= m < j ==> s[m] != '\n',
        j == s.len() || s[j] == '\n',
    ensures
        first_newline(s) == j,
    decreases s.len(),
{
    if s.len() > 0 && j > 0 {
        assert forall|m: int| 0 <= m < j - 1 implies s.skip(1)[m] != '\n' by {
            assert(s.skip(1)[m] == s[m + 1]);
        }
        if j < s.len() {
            assert(s.skip(1)[j - 1] == s[j]);
        }
        lemma_first_newline(s.skip(1), j - 1);
    }
}

/// Splits text into its lines.
pub fn split_lines(cs: &Vec<char>) -> (r: Vec<Vec<char>>)
    ensures
        r@.len() == lines_of(cs@).len(),
        forall|i: int| 0 <= i < r@.len() ==> (#[trigger] r@[i])@ == lines_of(cs@)[i],
{
    let n = cs.len();
    let mut out: Vec<Vec<char>> = Vec::new();
    let mut line: Vec<char> = Vec::new();
    let mut start: usize = 0;
    let mut j: usize = 0;
    let ghost mut done: Seq<Seq<char>> = Seq::empty();
    assert(cs@.skip(0) =~= cs@);
    while j < n
        invariant
            n == cs@.len(),
            start <= j <= n,
            line@ == cs@.subrange(start as int, j as int),
            forall|m: int| start <= m < j ==> cs@[m] != '\n',
            out@.len() == done.len(),
            forall|i: int| 0 <= i < out@.len() ==> (#[trigger] out@[i])@ == done[i],
            lines_of(cs@) == done + lines_of(cs@.skip(start as int)),
        decreases n - j,
    {
        let c = cs[j];
        if c == '\n' {
            let ghost rest = cs@.skip(start as int);
            proof {
                assert forall|m: int| 0 <= m < j - start implies rest[m] != '\n' by {
                    assert(rest[m] == cs@[start + m]);
                }
                assert(rest[j - start] == cs@[j as int]);
                lemma_first_newline(rest, j - start);
                assert(rest.skip(j - start + 1) =~= cs@.skip(j + 1));
            }
            let len = line.len();
            if len > 0 && line[len - 1] == '\r' {
                line.pop();
            }
            proof {
                assert(line@ =~= line_body(rest, (j - start) as nat));
                done = done.push(line@);
                assert(lines_of(rest) == seq![line_body(rest, (j - start) as nat)] + lines_of(
                    rest.skip(j - start + 1),
                ));
                assert(lines_of(cs@) =~= done + lines_of(cs@.skip(j + 1)));
            }
            out.push(line);
            line = Vec::new();
            start = j + 1;
        } else {
            line.push(c);
        }
        j = j + 1;
        assert(line@ =~= cs@.subrange(start as int, j as int));
    }
    if start < n {
        let ghost rest = cs@.skip(start as int);
        proof {
            assert forall|m: int| 0 <= m < n - start implies rest[m] != '\n' by {
                assert(rest[m] == cs@[start + m]);
            }
            lemma_first_newline(rest, n - start);
            assert(line@ =~= rest);
            done = done.push(line@);
            assert(lines_of(cs@) =~= done);
        }
        out.push(line);
    } else {
        assert(cs@.skip(start as int) =~= Seq::<char>::empty());
        assert(lines_of(cs@) =~= done);
    }
    out
}

/// Joins lines with `\n`.
pub fn join_with_newlines(ls: &Vec<Vec<char>>) -> (r: Vec<char>)
    ensures
        r@ == join_lines(ls@.map_values(|l: Vec<char>| l@)),
{
    let ghost views = ls@.map_values(|l: Vec<char>| l@);
    let mut out: Vec<char> = Vec::new();
    let mut i: usize = 0;
    while i < ls.len()
        invariant
            i <= ls@.len(),
            views == ls@.map_values(|l: Vec<char>| l@),
            out@ == join_lines(views.take(i as int)),
        decreases ls@.len() - i,
    {
        let ghost before = out@;
        if i > 0 {
            out.push('\n');
        }
        let mut k: usize = 0;
        let line = &ls[i];
        let ghost base = out@;
        while k < line.len()
            invariant
                k <= line@.len(),
                out@ == base + line@.take(k as int),
            decreases line@.len() - k,
        {
            out.push(line[k]);
            k = k + 1;
            assert(out@ =~= base + line@.take(k as int));
        }
        assert(line@.take(line@.len() as int) =~= line@);
        proof {
            let t = views.take(i + 1);
            assert(t.drop_last() =~= views.take(i as int));
            assert(t.last() == line@);
            if i == 0 {
                assert(out@ =~= line@);
                assert(join_lines(t) == t[0]);
            } else {
                assert(out@ =~= before + seq!['\n'] + line@);
            }
        }
        i = i + 1;
    }
    assert(views.take(ls@.len() as int) =~= views);
    out
}

// ---------------------------------------------------------------------
// Templates.
// ---------------------------------------------------------------------

/// The length of the longest line.
pub open spec fn max_len(ls: Seq<Seq<char>>) -> nat
    decreases ls.len(),
{
    if ls.len() == 0 {
        0
    } else {
        let m = max_len(ls.drop_last());
        if ls.last().len() > m {
            ls.last().len()
        } else {
            m
        }
    }
}

/// The width (longest line, in characters) and height (number of lines) of `art`.
pub fn ascii_art_size(art: &str) -> (r: (usize, usize))
    ensures
        r.0 == max_len(lines_of(art@)),
        r.1 == lines_of(art@).len(),
{
    let cs = char_vec(art);
    let lines = split_lines(&cs);
    let ghost ls = lines_of(cs@);
    let mut width: usize = 0;
    let mut i: usize = 0;
    while i < lines.len()
        invariant
            i <= lines@.len(),
            lines@.len() == ls.len(),
            forall|k: int| 0 <= k < lines@.len() ==> (#[trigger] lines@[k])@ == ls[k],
            width == max_len(ls.take(i as int)),
        decreases lines@.len() - i,
    {
        proof {
            let t = ls.take(i + 1);
            assert(t.drop_last() =~= ls.take(i as int));
            assert(t.last() == lines@[i as int]@);
        }
        if lines[i].len() > width {
            width = lines[i].len();
        }
        i = i + 1;
    }
    assert(ls.take(ls.len() as int) =~= ls);
    (width, lines.len())
}

/// Each character of `l` repeated `k` times.
pub open spec fn widen(l: Seq<char>, k: nat) -> Seq<char>
    decreases l.len(),
{
    if l.len() == 0 {
        Seq::empty()
    } else {
        widen(l.drop_last(), k) + Seq::new(k, |i: int| l.last())
    }
}

/// Each line widened `k` times and repeated `k` times.
pub open spec fn scaled_lines(ls: Seq<Seq<char>>, k: nat) -> Seq<Seq<char>>
    decreases ls.len(),
{
    if ls.len() == 0 {
        Seq::empty()
    } else {
        scaled_lines(ls.drop_last(), k) + Seq::new(k, |i: int| widen(ls.last(), k))
    }
}

fn widen_line(l: &Vec<char>, k: usize) -> (r: Vec<char>)
    ensures
        r@ == widen(l@, k as nat),
{
    let mut out: Vec<char> = Vec::new();
    let mut i: usize = 0;
    while i < l.len()
        invariant
            i <= l@.len(),
            out@ == widen(l@.take(i as int), k as nat),
        decreases l@.len() - i,
    {
        let ghost before = out@;
        let mut j: usize = 0;
        while j < k
            invariant
                j <= k,
                i < l@.len(),
                out@ == before + Seq::new(j as nat, |m: int| l@[i as int]),
            decreases k - j,
        {
            out.push(l[i]);
            j = j + 1;
            assert(out@ =~= before + Seq::new(j as nat, |m: int| l@[i as int]));
        }
        proof {
            let t = l@.take(i + 1);
            assert(t.drop_last() =~= l@.take(i as int));
            assert(t.last() == l@[i as int]);
        }
        i = i + 1;
    }
    assert(l@.take(l@.len() as int) =~= l@);
    out
}

/// `art` enlarged `scale_factor` times in both directions.
pub fn scale_ascii_art(art: &str, scale_factor: usize) -> (r: String)
    ensures
        r@ == join_lines(scaled_lines(lines_of(art@), scale_factor as nat)),
{
    let cs = char_vec(art);
    let lines = split_lines(&cs);
    let ghost ls = lines_of(cs@);
    let mut out: Vec<Vec<char>> = Vec::new();
    let mut i: usize = 0;
    while i < lines.len()
        invariant
            i <= lines@.len(),
            lines@.len() == ls.len(),
            forall|k: int| 0 <= k < lines@.len() ==> (#[trigger] lines@[k])@ == ls[k],
            out@.map_values(|l: Vec<char>| l@) == scaled_lines(ls.take(i as int), scale_factor as nat),
        decreases lines@.len() - i,
    {
        let ghost before = out@.map_values(|l: Vec<char>| l@);
        let ghost wide = widen(ls[i as int], scale_factor as nat);
        let mut j: usize = 0;
        while j < scale_factor
            invariant
                j <= scale_factor,
                i < lines@.len(),
                lines@.len() == ls.len(),
                lines@[i as int]@ == ls[i as int],
                wide == widen(ls[i as int], scale_factor as nat),
                out@.map_values(|l: Vec<char>| l@) == before + Seq::new(j as nat, |m: int| wide),
            decreases scale_factor - j,
        {
            let w = widen_line(&lines[i], scale_factor);
            assert(w@ == wide);
            let ghost prev = out@;
            out.push(w);
            assert(out@.map_values(|l: Vec<char>| l@) =~= prev.map_values(|l: Vec<char>| l@).push(w@));
            j = j + 1;
            assert(out@.map_values(|l: Vec<char>| l@) =~= before + Seq::new(j as nat, |m: int| wide));
        }
        proof {
            let t = ls.take(i + 1);
            assert(t.drop_last() =~= ls.take(i as int));
            assert(t.last() == ls[i as int]);
        }
        i = i + 1;
    }
    assert(ls.take(ls.len() as int) =~= ls);
    string_of(&join_with_newlines(&out))
}

/// `l` padded with spaces up to `width` characters.
pub open spec fn padded(l: Seq<char>, width: nat) -> Seq<char> {
    if l.len() < width {
        l + Seq::new((width - l.len()) as nat, |i: int| ' ')
    } else {
        l
    }
}

/// Each line padded to `width`, then blank lines of `width` spaces up to `height` lines.
pub open spec fn filled_lines(ls: Seq<Seq<char>>, width: nat, height: nat) -> Seq<Seq<char>> {
    ls.map_values(|l: Seq<char>| padded(l, width)) + Seq::new(
        if height > ls.len() { (height - ls.len()) as nat } else { 0 },
        |i: int| Seq::new(width, |j: int| ' '),
    )
}

fn spaces(n: usize) -> (r: Vec<char>)
    ensures
        r@ == Seq::new(n as nat, |i: int| ' '),
{
    let mut out: Vec<char> = Vec::new();
    let mut i: usize = 0;
    while i < n
        invariant
            i <= n,
            out@ == Seq::new(i as nat, |k: int| ' '),
        decreases n - i,
    {
        out.push(' ');
        i = i + 1;
        assert(out@ =~= Seq::new(i as nat, |k: int| ' '));
    }
    out
}

/// `art` with every line padded to `width` and blank lines added up to `height`.
pub fn ascii_art_fill(art: &str, width: usize, height: usize) -> (r: String)
    ensures
        r@ == join_lines(filled_lines(lines_of(art@), width as nat, height as nat)),
{
    let cs = char_vec(art);
    let lines = split_lines(&cs);
    let ghost ls = lines_of(cs@);
    let mut out: Vec<Vec<char>> = Vec::new();
    let mut i: usize = 0;
    while i < lines.len()
        invariant
            i <= lines@.len(),
            lines@.len() == ls.len(),
            forall|k: int| 0 <= k < lines@.len() ==> (#[trigger] lines@[k])@ == ls[k],
            out@.len() == i,
            forall|k: int| 0 <= k < i ==> (#[trigger] out@[k])@ == padded(ls[k], width as nat),
        decreases lines@.len() - i,
    {
        let mut line = lines[i].clone();
        let bytes = line.len();
        assert(line@ == ls[i as int]);
        if bytes < width {
            let pad = spaces(width - bytes);
            let mut k: usize = 0;
            let ghost base = line@;
            while k < pad.len()
                invariant
                    k <= pad@.len(),
                    line@ == base + pad@.take(k as int),
                decreases pad@.len() - k,
            {
                line.push(pad[k]);
                k = k + 1;
                assert(line@ =~= base + pad@.take(k as int));
            }
            assert(pad@.take(pad@.len() as int) =~= pad@);
        }
        assert(line@ =~= padded(ls[i as int], width as nat));
        out.push(line);
        i = i + 1;
    }
    while out.len() < height
        invariant
            out@.len() >= ls.len(),
            forall|k: int| 0 <= k < ls.len() ==> (#[trigger] out@[k])@ == padded(ls[k], width as nat),
            forall|k: int| ls.len() <= k < out@.len() ==> (#[trigger] out@[k])@ == Seq::new(
                width as nat,
                |j: int| ' ',
            ),
            out@.len() <= ls.len() || out@.len() <= height,
        decreases height - out@.len(),
    {
        out.push(spaces(width));
    }
    let ghost target = filled_lines(ls, width as nat, height as nat);
    assert(out@.map_values(|l: Vec<char>| l@) =~= target);
    string_of(&join_with_newlines(&out))
}

/// Weaves `comment` into `code`: a comment wherever the running length is a
/// multiple of `interval`, at most `left` of them, until `desired` is reached.
pub open spec fn weave(
    code: Seq<char>,
    comment: Seq<char>,
    interval: nat,
    left: nat,
    desired: nat,
    total: nat,
) -> Seq<char>
    decreases code.len(),
{
    if total >= desired {
        Seq::empty()
    } else {
        let insert = interval > 0 && total % interval == 0 && left > 0;
        let pre = if insert { comment } else { Seq::empty() };
        let after = if insert { total + comment.len() } else { total };
        let left_after: nat = if insert { (left - 1) as nat } else { left };
        if code.len() == 0 {
            pre
        } else {
            pre + seq![code[0]] + weave(code.skip(1), comment, interval, left_after, desired, after + 1)
        }
    }
}

/// The comment used for padding when none is given.
pub open spec fn default_comment() -> Seq<char> {
    seq!['@', '%', '*']
}

/// `code` padded to `desired` characters: copies of the comment spread evenly
/// through it, then spaces.
pub open spec fn padded_code(code: Seq<char>, comment: Seq<char>, desired: nat) -> Seq<char> {
    let n = code.len();
    let c = if comment.len() == 0 { default_comment() } else { comment };
    if n >= desired {
        code
    } else if (desired - n) / (c.len() as int) == 0 {
        code + Seq::new((desired - n) as nat, |i: int| ' ')
    } else {
        let num = ((desired - n) / (c.len() as int)) as nat;
        let interval = (((n + num) as int) / (num as int)) as nat;
        let w = weave(code, c, interval, num, desired, 0);
        let full = if w.len() < desired {
            w + Seq::new((desired - w.len()) as nat, |i: int| ' ')
        } else {
            w
        };
        full.take(desired as int)
    }
}

/// Pads BF code to exactly `desired_size` characters with copies of `comment`
/// (`@%*` if it is empty) spread through it; longer code is returned as is.
pub fn pad_brainfuck_with_comments(code: String, comment: &str, desired_size: usize) -> (r: String)
    ensures
        r@ == padded_code(code@, comment@, desired_size as nat),
{
    let cs = char_vec(code.as_str());
    let n = cs.len();
    if n >= desired_size {
        return code;
    }
    let given = char_vec(comment);
    let cm: Vec<char> = if given.len() == 0 {
        vec!['@', '%', '*']
    } else {
        given
    };
    assert(cm@ == (if comment@.len() == 0 { default_comment() } else { comment@ }));
    let remaining = desired_size - n;
    let num = remaining / cm.len();
    if num == 0 {
        let mut out = cs;
        let pad = spaces(remaining);
        let mut k: usize = 0;
        let ghost base = out@;
        while k < pad.len()
            invariant
                k <= pad@.len(),
                out@ == base + pad@.take(k as int),
            decreases pad@.len() - k,
        {
            out.push(pad[k]);
            k = k + 1;
            assert(out@ =~= base + pad@.take(k as int));
        }
        assert(pad@.take(pad@.len() as int) =~= pad@);
        return string_of(&out);
    }
    let interval = (n + num) / num;
    proof {
        let a = (n + num) as int;
        let b = num as int;
        assert(a / b >= 1) by (nonlinear_arith)
            requires
                b >= 1,
                a >= b,
        ;
    }
    let mut out: Vec<char> = Vec::new();
    let mut total: usize = 0;
    let ghost mut spec_total: nat = 0;
    let mut left: usize = num;
    let mut i: usize = 0;
    let ghost w = weave(cs@, cm@, interval as nat, num as nat, desired_size as nat, 0);
    assert(cs@.skip(0) =~= cs@);
    // The running length saturates: once it would pass `usize::MAX` it is past
    // `desired_size` either way, and the weaving stops.
    loop
        invariant_except_break
            i <= n,
            total == spec_total || (total == usize::MAX && spec_total >= usize::MAX),
            w == out@ + weave(cs@.skip(i as int), cm@, interval as nat, left as nat, desired_size as nat, spec_total),
        invariant
            n == cs@.len(),
            interval > 0,
            cm@.len() > 0,
        ensures
            out@ == w,
        decreases n - i,
    {
        let ghost rest = cs@.skip(i as int);
        if total >= desired_size {
            assert(out@ =~= w);
            break;
        }
        let insert = total % interval == 0 && left > 0;
        let ghost before = out@;
        if insert {
            let mut k: usize = 0;
            while k < cm.len()
                invariant
                    k <= cm@.len(),
                    out@ == before + cm@.take(k as int),
                decreases cm@.len() - k,
            {
                out.push(cm[k]);
                k = k + 1;
                assert(out@ =~= before + cm@.take(k as int));
            }
            assert(cm@.take(cm@.len() as int) =~= cm@);
            total = total.saturating_add(cm.len());
            proof {
                spec_total = spec_total + cm@.len();
            }
            left = left - 1;
        }
        if i >= n {
            assert(rest.len() == 0);
            assert(out@ =~= w);
            break;
        }
        proof {
            assert(rest[0] == cs@[i as int]);
            assert(rest.skip(1) =~= cs@.skip(i + 1));
        }
        out.push(cs[i]);
        total = total.saturating_add(1);
        proof {
            spec_total = spec_total + 1;
        }
        i = i + 1;
        assert(w =~= out@ + weave(cs@.skip(i as int), cm@, interval as nat, left as nat, desired_size as nat, spec_total));
    }
    let mut full = out;
    while full.len() < desired_size
        invariant
            full@.len() <= desired_size || full@ == w,
            full@.len() >= w.len(),
            full@ == w + Seq::new((full@.len() - w.len()) as nat, |k: int| ' '),
        decreases desired_size - full@.len(),
    {
        full.push(' ');
        assert(full@ =~= w + Seq::new((full@.len() - w.len()) as nat, |k: int| ' '));
    }
    let ghost padded_w = if w.len() < desired_size {
        w + Seq::new((desired_size - w.len()) as nat, |k: int| ' ')
    } else {
        w
    };
    assert(full@ =~= padded_w || full@.take(desired_size as int) =~= padded_w.take(desired_size as int));
    full.truncate(desired_size);
    string_of(&full)
}

// ---------------------------------------------------------------------
// Counting visible characters.
// ---------------------------------------------------------------------

/// The visible characters of all the lines.
pub open spec fn lines_visible(ls: Seq<Seq<char>>) -> nat
    decreases ls.len(),
{
    if ls.len() == 0 {
        0
    } else {
        lines_visible(ls.drop_last()) + visible_count(ls.last())
    }
}

proof fn lemma_visible_concat(a: Seq<char>, b: Seq<char>)
    ensures
        visible_count(a + b) == visible_count(a) + visible_count(b),
    decreases b.len(),
{
    if b.len() == 0 {
        assert(a + b =~= a);
    } else {
        assert((a + b).drop_last() =~= a + b.drop_last());
        assert((a + b).last() == b.last());
        lemma_visible_concat(a, b.drop_last());
    }
}

proof fn lemma_visible_run(r: Seq<char>, c: char)
    requires
        forall|i: int| 0 <= i < r.len() ==> r[i] == c,
    ensures
        visible_count(r) == if is_space(c) { 0 } else { r.len() },
    decreases r.len(),
{
    if r.len() > 0 {
        assert(r.last() == r[r.len() - 1]);
        lemma_visible_run(r.drop_last(), c);
    }
}

proof fn lemma_visible_widen(l: Seq<char>, k: nat)
    ensures
        visible_count(widen(l, k)) == k * visible_count(l),
    decreases l.len(),
{
    if l.len() > 0 {
        let run = Seq::new(k, |i: int| l.last());
        assert(widen(l, k) =~= widen(l.drop_last(), k) + run);
        lemma_visible_widen(l.drop_last(), k);
        lemma_visible_concat(widen(l.drop_last(), k), run);
        lemma_visible_run(run, l.last());
        let w0 = widen(l.drop_last(), k);
        assert(visible_count(widen(l, k)) == visible_count(w0) + visible_count(run));
        assert(visible_count(w0) == k * visible_count(l.drop_last()));
        let a = visible_count(l.drop_last());
        assert(visible_count(run) == if is_space(l.last()) { 0 } else { k as int });
        if is_space(l.last()) {
            assert(visible_count(l) == a);
            assert(visible_count(widen(l, k)) == k * a);
        } else {
            assert(visible_count(l) == a + 1);
            assert(k * a + k == k * (a + 1)) by (nonlinear_arith);
            assert(visible_count(widen(l, k)) == k * a + k);
        }
    } else {
        assert(widen(l, k) =~= Seq::<char>::empty());
        assert(visible_count(l) == 0);
        assert(visible_count(Seq::<char>::empty()) == 0);
    }
}

proof fn lemma_lines_visible_concat(a: Seq<Seq<char>>, b: Seq<Seq<char>>)
    ensures
        lines_visible(a + b) == lines_visible(a) + lines_visible(b),
    decreases b.len(),
{
    if b.len() == 0 {
        assert(a + b =~= a);
    } else {
        assert((a + b).drop_last() =~= a + b.drop_last());
        assert((a + b).last() == b.last());
        lemma_lines_visible_concat(a, b.drop_last());
    }
}

proof fn lemma_lines_visible_copies(ls: Seq<Seq<char>>, x: Seq<char>)
    requires
        forall|i: int| 0 <= i < ls.len() ==> ls[i] == x,
    ensures
        lines_visible(ls) == ls.len() * visible_count(x),
    decreases ls.len(),
{
    if ls.len() > 0 {
        assert(ls.last() == ls[ls.len() - 1]);
        lemma_lines_visible_copies(ls.drop_last(), x);
        let k = ls.len();
        assert((k - 1) * visible_count(x) + visible_count(x) == k * visible_count(x)) by (nonlinear_arith);
    }
}

proof fn lemma_visible_join(ls: Seq<Seq<char>>)
    ensures
        visible_count(join_lines(ls)) == lines_visible(ls),
    decreases ls.len(),
{
    if ls.len() == 1 {
        assert(ls.drop_last() =~= Seq::<Seq<char>>::empty());
        assert(lines_visible(ls.drop_last()) == 0);
        assert(lines_visible(ls) == visible_count(ls[0]));
    } else if ls.len() > 1 {
        lemma_visible_join(ls.drop_last());
        lemma_visible_concat(join_lines(ls.drop_last()) + seq!['\n'], ls.last());
        lemma_visible_concat(join_lines(ls.drop_last()), seq!['\n']);
        lemma_visible_run(seq!['\n'], '\n');
        assert(is_space('\n'));
        assert(visible_count(seq!['\n']) == 0);
        let j0 = join_lines(ls.drop_last());
        assert(visible_count(j0 + seq!['\n']) == visible_count(j0));
        assert(join_lines(ls) == j0 + seq!['\n'] + ls.last());
        assert(visible_count(join_lines(ls)) == visible_count(j0) + visible_count(ls.last()));
        assert(visible_count(j0) == lines_visible(ls.drop_last()));
    } else {
        assert(visible_count(Seq::<char>::empty()) == 0);
    }
}

proof fn lemma_visible_scaled(ls: Seq<Seq<char>>, k: nat)
    ensures
        lines_visible(scaled_lines(ls, k)) == k * k * lines_visible(ls),
    decreases ls.len(),
{
    if ls.len() > 0 {
        lemma_visible_scaled(ls.drop_last(), k);
        let copies = Seq::new(k, |i: int| widen(ls.last(), k));
        assert(scaled_lines(ls, k) =~= scaled_lines(ls.drop_last(), k) + copies);
        lemma_lines_visible_concat(scaled_lines(ls.drop_last(), k), copies);
        lemma_lines_visible_copies(copies, widen(ls.last(), k));
        lemma_visible_widen(ls.last(), k);
        let a = lines_visible(ls.drop_last());
        let b = visible_count(ls.last());
        assert(k * k * a + k * (k * b) == k * k * (a + b)) by (nonlinear_arith);
        assert(lines_visible(copies) == k * (k * b));
        assert(lines_visible(ls) == a + b);
    } else {
        assert(scaled_lines(ls, k) =~= Seq::<Seq<char>>::empty());
        assert(lines_visible(Seq::<Seq<char>>::empty()) == 0);
        assert(lines_visible(ls) == 0);
        assert(k * k * 0 == 0) by (nonlinear_arith);
    }
}

proof fn lemma_first_newline_bound(s: Seq<char>)
    ensures
        first_newline(s) <= s.len(),
        first_newline(s) < s.len() ==> s[first_newline(s) as int] == '\n',
        forall|m: int| 0 <= m < first_newline(s) ==> s[m] != '\n',
    decreases s.len(),
{
    if s.len() > 0 && s[0] != '\n' {
        lemma_first_newline_bound(s.skip(1));
        assert forall|m: int| 0 <= m < first_newline(s) implies s[m] != '\n' by {
            if m > 0 {
                assert(s[m] == s.skip(1)[m - 1]);
            }
        }
    }
}

proof fn lemma_visible_lines(s: Seq<char>)
    ensures
        lines_visible(lines_of(s)) == visible_count(s),
    decreases s.len(),
{
    if s.len() > 0 {
        let k = first_newline(s);
        lemma_first_newline_bound(s);
        if k >= s.len() {
            assert(seq![s].drop_last() =~= Seq::<Seq<char>>::empty());
            assert(lines_visible(seq![s].drop_last()) == 0);
            assert(lines_visible(seq![s]) == visible_count(s));
        } else {
            let rest = s.skip(k + 1 as int);
            lemma_visible_lines(rest);
            let body = line_body(s, k);
            assert(s =~= s.take(k as int) + (seq!['\n'] + rest));
            lemma_visible_concat(s.take(k as int), seq!['\n'] + rest);
            lemma_visible_concat(seq!['\n'], rest);
            lemma_visible_run(seq!['\n'], '\n');
            if k > 0 && s[k - 1] == '\r' {
                assert(s.take(k as int) =~= s.take(k - 1) + seq!['\r']);
                lemma_visible_concat(s.take(k - 1), seq!['\r']);
                lemma_visible_run(seq!['\r'], '\r');
            }
            lemma_lines_visible_concat(seq![body], lines_of(rest));
            assert(seq![body].drop_last() =~= Seq::<Seq<char>>::empty());
            assert(lines_visible(seq![body].drop_last()) == 0);
            assert(lines_visible(seq![body]) == visible_count(body));
            assert(lines_of(s) == seq![body] + lines_of(rest));
        }
    }
}

proof fn lemma_visible_padded(ls: Seq<Seq<char>>, w: nat)
    ensures
        lines_visible(ls.map_values(|l: Seq<char>| padded(l, w))) == lines_visible(ls),
    decreases ls.len(),
{
    if ls.len() > 0 {
        let m = ls.map_values(|l: Seq<char>| padded(l, w));
        assert(m.drop_last() =~= ls.drop_last().map_values(|l: Seq<char>| padded(l, w)));
        lemma_visible_padded(ls.drop_last(), w);
        let l = ls.last();
        assert(m.last() == padded(l, w));
        if l.len() < w {
            let pad = Seq::new((w - l.len()) as nat, |i: int| ' ');
            assert(padded(l, w) =~= l + pad);
            lemma_visible_concat(l, pad);
            lemma_visible_run(pad, ' ');
        }
    }
}

proof fn lemma_visible_filled(ls: Seq<Seq<char>>, w: nat, h: nat)
    ensures
        lines_visible(filled_lines(ls, w, h)) == lines_visible(ls),
{
    let blank = Seq::new(w, |j: int| ' ');
    let n: nat = if h > ls.len() { (h - ls.len()) as nat } else { 0 };
    let blanks = Seq::new(n, |i: int| blank);
    assert(filled_lines(ls, w, h) =~= ls.map_values(|l: Seq<char>| padded(l, w)) + blanks);
    lemma_lines_visible_concat(ls.map_values(|l: Seq<char>| padded(l, w)), blanks);
    lemma_visible_padded(ls, w);
    lemma_lines_visible_copies(blanks, blank);
    lemma_visible_run(blank, ' ');
}

proof fn lemma_visible_safe(s: Seq<char>)
    ensures
        visible_count(s.map_values(|c: char| safe_char(c))) == visible_count(s),
    decreases s.len(),
{
    if s.len() > 0 {
        let m = s.map_values(|c: char| safe_char(c));
        assert(m.drop_last() =~= s.drop_last().map_values(|c: char| safe_char(c)));
        lemma_visible_safe(s.drop_last());
    }
}

/// Doubling a template quadruples its visible characters.
pub proof fn lemma_scale_visible(t: Seq<char>)
    ensures
        visible_count(join_lines(scaled_lines(lines_of(t), 2))) == 4 * visible_count(t),
{
    lemma_visible_join(scaled_lines(lines_of(t), 2));
    lemma_visible_scaled(lines_of(t), 2);
    lemma_visible_lines(t);
}

// ---------------------------------------------------------------------
// Applying a template.
// ---------------------------------------------------------------------

/// `t` doubled until it has at least `n` visible characters, at most `fuel`
/// times. A template with a visible character needs fewer than `n` doublings.
pub open spec fn grown(t: Seq<char>, n: nat, fuel: nat) -> Seq<char>
    decreases fuel,
{
    if visible_count(t) >= n || fuel == 0 {
        t
    } else {
        grown(join_lines(scaled_lines(lines_of(t), 2)), n, (fuel - 1) as nat)
    }
}

/// The visible characters of `t` replaced, in order, by those of `code`;
/// `#` once the code runs out.
pub open spec fn fill_in(t: Seq<char>, code: Seq<char>) -> Seq<char>
    decreases t.len(),
{
    if t.len() == 0 {
        Seq::empty()
    } else if is_space(t[0]) {
        seq![t[0]] + fill_in(t.skip(1), code)
    } else if code.len() == 0 {
        seq!['#'] + fill_in(t.skip(1), code)
    } else {
        seq![code[0]] + fill_in(t.skip(1), code.skip(1))
    }
}

/// The template as it is filled: BF characters replaced, lines padded to a
/// rectangle.
pub open spec fn prepared(template: Seq<char>) -> Seq<char> {
    let t = template.map_values(|c: char| safe_char(c));
    let ls = lines_of(t);
    join_lines(filled_lines(ls, max_len(ls), ls.len()))
}

/// Lays simplified BF code out over an ASCII-art template: the template is
/// doubled until it has room, the code padded with `comment` to fill it, and
/// its visible characters replaced by the code in order.
pub fn apply_ascii_art_template(art_template: &str, bf: String, comment: &str) -> (r: String)
    requires
        visible_count(art_template@) > 0,
        vstd::utf8::encode_utf8(bf@).len() < i32::MAX,
    ensures
        ({
            let code = crate::bf::emit_all(crate::bf::parse_spec(vstd::utf8::encode_utf8(bf@)), 1);
            let t = grown(prepared(art_template@), code.len(), code.len());
            r@ == fill_in(t, padded_code(code, comment@, visible_count(t)))
        }),
{
    let replaced = replace_brainfuck_chars(String::from_str(art_template));
    let (width, height) = ascii_art_size(replaced.as_str());
    let mut art = ascii_art_fill(replaced.as_str(), width, height);
    let code = crate::bf::simplify_bf(bf);
    let code_len = char_vec(code.as_str()).len();
    proof {
        lemma_visible_safe(art_template@);
        let ls = lines_of(replaced@);
        lemma_visible_join(filled_lines(ls, width as nat, height as nat));
        lemma_visible_filled(ls, width as nat, height as nat);
        lemma_visible_lines(replaced@);
    }
    let mut slots = available_brainfuck_slots(art.as_str());
    let ghost mut fuel: nat = code_len as nat;
    while slots < code_len
        invariant
            slots == visible_count(art@),
            slots > 0,
            slots + fuel >= code_len + 1,
            grown(art@, code_len as nat, fuel) == grown(
                prepared(art_template@),
                code_len as nat,
                code_len as nat,
            ),
        decreases fuel,
    {
        proof {
            lemma_scale_visible(art@);
        }
        art = scale_ascii_art(art.as_str(), 2);
        slots = available_brainfuck_slots(art.as_str());
        proof {
            fuel = (fuel - 1) as nat;
        }
    }
    let padded = char_vec(pad_brainfuck_with_comments(code, comment, slots).as_str());
    let cells = char_vec(art.as_str());
    let ghost t = cells@;
    let mut out: Vec<char> = Vec::new();
    let mut i: usize = 0;
    let mut j: usize = 0;
    assert(t.skip(0) =~= t);
    assert(padded@.skip(0) =~= padded@);
    while i < cells.len()
        invariant
            i <= cells@.len(),
            j <= padded@.len(),
            t == cells@,
            out@ + fill_in(t.skip(i as int), padded@.skip(j as int)) == fill_in(t, padded@),
        decreases cells@.len() - i,
    {
        let c = cells[i];
        let ghost rest = t.skip(i as int);
        let ghost code_rest = padded@.skip(j as int);
        assert(rest[0] == c);
        assert(rest.skip(1) =~= t.skip(i + 1));
        let ghost before = out@;
        if is_whitespace(c) {
            out.push(c);
            assert(out@ + fill_in(t.skip(i + 1), code_rest) =~= before + (seq![c] + fill_in(
                rest.skip(1),
                code_rest,
            )));
        } else if j < padded.len() {
            let d = padded[j];
            out.push(d);
            proof {
                assert(code_rest[0] == d);
                assert(code_rest.skip(1) =~= padded@.skip(j + 1));
                assert(out@ + fill_in(t.skip(i + 1), padded@.skip(j + 1)) =~= before + (seq![d]
                    + fill_in(rest.skip(1), code_rest.skip(1))));
            }
            j = j + 1;
        } else {
            out.push('#');
            assert(code_rest.len() == 0);
            assert(out@ + fill_in(t.skip(i + 1), code_rest) =~= before + (seq!['#'] + fill_in(
                rest.skip(1),
                code_rest,
            )));
        }
        i = i + 1;
    }
    assert(t.skip(cells@.len() as int) =~= Seq::<char>::empty());
    assert(out@ =~= fill_in(t, padded@));
    string_of(&out)
}

} // verus!
