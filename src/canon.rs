//! What a list of BF operations does, up to merging: adjacent moves and adds
//! summed, zero counts dropped, repeated clears collapsed, and `[-]` read as a
//! clear. Parsing and re-emitting BF keeps this canonical form.
use vstd::prelude::*;
use crate::bf::{Cmd, emit, emit_all, merged, merges, parse_from, parse_spec, push_merged, starts_with_clear, token};
use crate::code::repeat_seq;
use vstd::utf8::{encode_utf8, is_ascii_chars, is_ascii_chars_encode_utf8};

verus! {

/// Appends a clear unless the list already ends with one.
pub open spec fn push_clear(acc: Seq<Cmd>) -> Seq<Cmd> {
    if acc.len() > 0 && acc.last() == Cmd::Zero {
        acc
    } else {
        acc.push(Cmd::Zero)
    }
}

/// Appends `c` to a canonical list, keeping it canonical.
pub open spec fn reduce_push(acc: Seq<Cmd>, c: Cmd) -> Seq<Cmd> {
    match c {
        Cmd::Move(k) => if k == 0 {
            acc
        } else if acc.len() > 0 && acc.last() is Move {
            let j = acc.last()->Move_0;
            if j + k == 0 {
                acc.drop_last()
            } else {
                acc.drop_last().push(Cmd::Move(j + k))
            }
        } else {
            acc.push(Cmd::Move(k))
        },
        Cmd::Add(k) => if k == 0 {
            acc
        } else if acc.len() > 0 && acc.last() is Add {
            let j = acc.last()->Add_0;
            if j + k == 0 {
                acc.drop_last()
            } else {
                acc.drop_last().push(Cmd::Add(j + k))
            }
        } else {
            acc.push(Cmd::Add(k))
        },
        Cmd::Zero => push_clear(acc),
        Cmd::End => if acc.len() >= 2 && acc.last() == Cmd::Add(-1) && acc[acc.len() - 2]
            == Cmd::While {
            push_clear(acc.drop_last().drop_last())
        } else {
            acc.push(Cmd::End)
        },
        _ => acc.push(c),
    }
}

/// Appends the operations `ops`, in order, to the canonical list `acc`.
pub open spec fn reduce_from(ops: Seq<Cmd>, acc: Seq<Cmd>) -> Seq<Cmd>
    decreases ops.len(),
{
    if ops.len() == 0 {
        acc
    } else {
        reduce_from(ops.drop_first(), reduce_push(acc, ops[0]))
    }
}

/// The canonical form of a list of operations.
pub open spec fn canonical(ops: Seq<Cmd>) -> Seq<Cmd> {
    reduce_from(ops, Seq::empty())
}

/// A canonical list: no zero counts, and no two neighbours that would merge.
pub open spec fn reduced(d: Seq<Cmd>) -> bool {
    &&& forall|i: int| 0 <= i < d.len() ==> #[trigger] d[i] != Cmd::Move(0) && d[i] != Cmd::Add(0)
    &&& forall|i: int| 0 < i < d.len() ==> !merges(d[i - 1], #[trigger] d[i])
}

/// The operation of each operation byte, one by one: no merging, and `[-]`
/// read as its three bytes.
pub open spec fn tokens(b: Seq<u8>) -> Seq<Cmd>
    decreases b.len(),
{
    if b.len() == 0 {
        Seq::empty()
    } else {
        match token(b[0]) {
            Some(c) => seq![c] + tokens(b.skip(1)),
            None => tokens(b.skip(1)),
        }
    }
}

/// The bytes of ASCII text.
pub open spec fn ascii_bytes(s: Seq<char>) -> Seq<u8> {
    s.map_values(|c: char| c as u8)
}

proof fn lemma_reduced_push(d: Seq<Cmd>, c: Cmd)
    requires
        reduced(d),
    ensures
        reduced(reduce_push(d, c)),
{
    let r = reduce_push(d, c);
    if d.len() >= 2 {
        assert(!merges(d[d.len() - 2], d[d.len() - 1]));
    }
    if d.len() >= 3 {
        assert(!merges(d[d.len() - 3], d[d.len() - 2]));
    }
    assert forall|i: int| 0 <= i < r.len() implies #[trigger] r[i] != Cmd::Move(0) && r[i] != Cmd::Add(0) by {
        if i < d.len() - 2 {
            assert(r[i] == d[i]);
        } else if i < d.len() {
            assert(r[i] == d[i] || i == r.len() - 1);
        }
    }
    assert forall|i: int| 0 < i < r.len() implies !merges(r[i - 1], #[trigger] r[i]) by {
        if i < d.len() - 2 {
            assert(r[i] == d[i] && r[i - 1] == d[i - 1]);
        } else if i < d.len() - 1 {
            assert(r[i - 1] == d[i - 1]);
        }
    }
}

proof fn lemma_reduced_from(ops: Seq<Cmd>, d: Seq<Cmd>)
    requires
        reduced(d),
    ensures
        reduced(reduce_from(ops, d)),
    decreases ops.len(),
{
    if ops.len() > 0 {
        lemma_reduced_push(d, ops[0]);
        lemma_reduced_from(ops.drop_first(), reduce_push(d, ops[0]));
    }
}

proof fn lemma_reduce_concat(xs: Seq<Cmd>, ys: Seq<Cmd>, d: Seq<Cmd>)
    ensures
        reduce_from(xs + ys, d) == reduce_from(ys, reduce_from(xs, d)),
    decreases xs.len(),
{
    if xs.len() == 0 {
        assert(xs + ys =~= ys);
    } else {
        assert((xs + ys).drop_first() =~= xs.drop_first() + ys);
        assert((xs + ys)[0] == xs[0]);
        lemma_reduce_concat(xs.drop_first(), ys, reduce_push(d, xs[0]));
    }
}

proof fn lemma_reduce_single(c: Cmd, d: Seq<Cmd>)
    ensures
        reduce_from(seq![c], d) == reduce_push(d, c),
{
    assert(seq![c].drop_first() =~= Seq::<Cmd>::empty());
    assert(reduce_from(Seq::<Cmd>::empty(), reduce_push(d, c)) == reduce_push(d, c));
}

/// Appending to a list appends to its canonical form.
proof fn lemma_reduce_push_last(ops: Seq<Cmd>, d: Seq<Cmd>, c: Cmd)
    ensures
        reduce_from(ops.push(c), d) == reduce_push(reduce_from(ops, d), c),
{
    assert(ops.push(c) =~= ops + seq![c]);
    lemma_reduce_concat(ops, seq![c], d);
    lemma_reduce_single(c, reduce_from(ops, d));
}

/// Adjacent moves, and adjacent adds, merge into their sum.
pub proof fn lemma_counts_sum(d: Seq<Cmd>, a: int, b: int)
    requires
        reduced(d),
    ensures
        reduce_push(reduce_push(d, Cmd::Move(a)), Cmd::Move(b)) == reduce_push(d, Cmd::Move(a + b)),
        reduce_push(reduce_push(d, Cmd::Add(a)), Cmd::Add(b)) == reduce_push(d, Cmd::Add(a + b)),
{
    if d.len() > 0 {
        assert(d[d.len() - 1] != Cmd::Move(0) && d[d.len() - 1] != Cmd::Add(0));
    }
    if d.len() >= 2 {
        assert(!merges(d[d.len() - 2], d[d.len() - 1]));
        assert(d.drop_last().last() == d[d.len() - 2]);
    }
}

/// Two clears in a row are one clear.
proof fn lemma_clear_twice(d: Seq<Cmd>)
    ensures
        reduce_push(reduce_push(d, Cmd::Zero), Cmd::Zero) == reduce_push(d, Cmd::Zero),
{
}

/// `[`, `-`, `]` one after another are a clear.
proof fn lemma_clear_loop(d: Seq<Cmd>)
    ensures
        reduce_push(reduce_push(reduce_push(d, Cmd::While), Cmd::Add(-1)), Cmd::End) == reduce_push(
            d,
            Cmd::Zero,
        ),
{
    let d1 = d.push(Cmd::While);
    let d2 = d1.push(Cmd::Add(-1));
    assert(reduce_push(d, Cmd::While) == d1);
    assert(reduce_push(d1, Cmd::Add(-1)) == d2);
    assert(d2[d2.len() - 2] == Cmd::While);
    assert(d2.drop_last().drop_last() =~= d);
}

/// Merging while parsing agrees with the canonical form.
proof fn lemma_merge_canonical(acc: Seq<Cmd>, c: Cmd)
    requires
        c is Move || c is Add || c is Zero,
    ensures
        canonical(push_merged(acc, c)) == reduce_push(canonical(acc), c),
{
    lemma_reduced_from(acc, Seq::empty());
    if acc.len() > 0 && merges(acc.last(), c) {
        let pre = acc.drop_last();
        assert(acc =~= pre.push(acc.last()));
        lemma_reduce_push_last(pre, Seq::empty(), acc.last());
        lemma_reduce_push_last(pre, Seq::empty(), merged(acc.last(), c));
        lemma_reduced_from(pre, Seq::empty());
        match (acc.last(), c) {
            (Cmd::Move(x), Cmd::Move(y)) => lemma_counts_sum(canonical(pre), x, y),
            (Cmd::Add(x), Cmd::Add(y)) => lemma_counts_sum(canonical(pre), x, y),
            _ => lemma_clear_twice(canonical(pre)),
        }
    } else {
        lemma_reduce_push_last(acc, Seq::empty(), c);
    }
}

proof fn lemma_token_kind(b: u8)
    ensures
        token(b) matches Some(c) ==> (c is Move || c is Add || c is Put || c is Get || c is While
            || c is End || c is HexDump || c is DecDump),
{
}

/// Parsing has the canonical form of reading the operation bytes one by one.
proof fn lemma_parse_canonical(b: Seq<u8>, acc: Seq<Cmd>)
    ensures
        canonical(parse_from(b, acc)) == reduce_from(tokens(b), canonical(acc)),
    decreases b.len(),
{
    lemma_reduced_from(acc, Seq::empty());
    if b.len() == 0 {
    } else if starts_with_clear(b) {
        lemma_parse_canonical(b.skip(3), push_merged(acc, Cmd::Zero));
        lemma_merge_canonical(acc, Cmd::Zero);
        let rest = tokens(b.skip(3));
        assert(b.skip(1).skip(1) =~= b.skip(2));
        assert(b.skip(2).skip(1) =~= b.skip(3));
        assert(b.skip(1)[0] == b[1]);
        assert(b.skip(2)[0] == b[2]);
        assert(token(b[0]) == Some(Cmd::While));
        assert(token(b[1]) == Some(Cmd::Add(-1)));
        assert(token(b[2]) == Some(Cmd::End));
        assert(tokens(b.skip(2)) == seq![Cmd::End] + rest);
        assert(tokens(b.skip(1)) == seq![Cmd::Add(-1)] + tokens(b.skip(2)));
        assert(tokens(b) == seq![Cmd::While] + tokens(b.skip(1)));
        assert(tokens(b) =~= seq![Cmd::While, Cmd::Add(-1), Cmd::End] + rest);
        let d = canonical(acc);
        lemma_reduce_concat(seq![Cmd::While, Cmd::Add(-1), Cmd::End], rest, d);
        assert(seq![Cmd::While, Cmd::Add(-1), Cmd::End] =~= seq![Cmd::While].push(Cmd::Add(-1)).push(
            Cmd::End,
        ));
        lemma_reduce_push_last(seq![Cmd::While].push(Cmd::Add(-1)), d, Cmd::End);
        lemma_reduce_push_last(seq![Cmd::While], d, Cmd::Add(-1));
        lemma_reduce_single(Cmd::While, d);
        lemma_clear_loop(d);
    } else {
        match token(b[0]) {
            Some(c) => {
                lemma_parse_canonical(b.skip(1), push_merged(acc, c));
                lemma_token_kind(b[0]);
                if c is Move || c is Add {
                    lemma_merge_canonical(acc, c);
                } else {
                    if acc.len() > 0 {
                        assert(!merges(acc.last(), c));
                    }
                    lemma_reduce_push_last(acc, Seq::empty(), c);
                }
                lemma_reduce_concat(seq![c], tokens(b.skip(1)), canonical(acc));
                lemma_reduce_single(c, canonical(acc));
            },
            None => {
                lemma_parse_canonical(b.skip(1), acc);
            },
        }
    }
}

proof fn lemma_tokens_concat(x: Seq<u8>, y: Seq<u8>)
    ensures
        tokens(x + y) == tokens(x) + tokens(y),
    decreases x.len(),
{
    if x.len() == 0 {
        assert(x + y =~= y);
        assert(tokens(x) + tokens(y) =~= tokens(y));
    } else {
        assert((x + y).skip(1) =~= x.skip(1) + y);
        assert((x + y)[0] == x[0]);
        lemma_tokens_concat(x.skip(1), y);
        match token(x[0]) {
            Some(c) => {
                assert(seq![c] + (tokens(x.skip(1)) + tokens(y)) =~= (seq![c] + tokens(x.skip(1)))
                    + tokens(y));
            },
            None => {},
        }
    }
}

proof fn lemma_ascii_concat(x: Seq<char>, y: Seq<char>)
    ensures
        ascii_bytes(x + y) == ascii_bytes(x) + ascii_bytes(y),
{
    assert(ascii_bytes(x + y) =~= ascii_bytes(x) + ascii_bytes(y));
}

proof fn lemma_tokens_char(c: char)
    ensures
        tokens(ascii_bytes(seq![c])) == (match token(c as u8) {
            Some(t) => seq![t],
            None => Seq::empty(),
        }),
{
    let b = ascii_bytes(seq![c]);
    assert(b =~= seq![c as u8]);
    assert(b.skip(1) =~= Seq::<u8>::empty());
    assert(tokens(Seq::<u8>::empty()) == Seq::<Cmd>::empty());
    match token(c as u8) {
        Some(t) => {
            assert(seq![t] + Seq::<Cmd>::empty() =~= seq![t]);
        },
        None => {},
    }
}

/// A run of one move or add character is that many unit operations, whose
/// canonical form is a single operation with the run's length as its count.
proof fn lemma_run(c: char, unit: Cmd, n: nat, d: Seq<Cmd>)
    requires
        reduced(d),
        unit == Cmd::Move(1) || unit == Cmd::Move(-1) || unit == Cmd::Add(1) || unit == Cmd::Add(-1),
        token(c as u8) == Some(unit),
    ensures
        reduce_from(tokens(ascii_bytes(repeat_seq(seq![c], n))), d) == reduce_push(
            d,
            match unit {
                Cmd::Move(s) => Cmd::Move(s * n),
                Cmd::Add(s) => Cmd::Add(s * n),
                _ => unit,
            },
        ),
    decreases n,
{
    if n == 0 {
        assert(repeat_seq(seq![c], 0) =~= Seq::<char>::empty());
        assert(ascii_bytes(Seq::<char>::empty()) =~= Seq::<u8>::empty());
        match unit {
            Cmd::Move(s) => assert(s * 0 == 0),
            Cmd::Add(s) => assert(s * 0 == 0),
            _ => {},
        }
    } else {
        let prev = repeat_seq(seq![c], (n - 1) as nat);
        lemma_run(c, unit, (n - 1) as nat, d);
        lemma_ascii_concat(prev, seq![c]);
        lemma_tokens_concat(ascii_bytes(prev), ascii_bytes(seq![c]));
        lemma_tokens_char(c);
        lemma_reduce_concat(tokens(ascii_bytes(prev)), seq![unit], d);
        lemma_reduce_single(unit, reduce_from(tokens(ascii_bytes(prev)), d));
        match unit {
            Cmd::Move(s) => {
                lemma_counts_sum(d, s * (n - 1), s);
                assert(s * (n - 1) + s == s * n) by (nonlinear_arith);
            },
            Cmd::Add(s) => {
                lemma_counts_sum(d, s * (n - 1), s);
                assert(s * (n - 1) + s == s * n) by (nonlinear_arith);
            },
            _ => {},
        }
    }
}

/// The 8-bit text of one operation, read back one byte at a time, appends
/// that operation to a canonical list.
proof fn lemma_emit_one(c: Cmd, d: Seq<Cmd>)
    requires
        reduced(d),
    ensures
        reduce_from(tokens(ascii_bytes(emit(c, 1))), d) == reduce_push(d, c),
{
    match c {
        Cmd::Move(n) => {
            assert(('>' as u8) == 62u8 && ('<' as u8) == 60u8);
            if n > 0 {
                lemma_run('>', Cmd::Move(1), n as nat, d);
                assert(1 * (n as nat) == n);
            } else {
                lemma_run('<', Cmd::Move(-1), (-n) as nat, d);
                assert(-1 * ((-n) as nat) == n);
            }
        },
        Cmd::Add(n) => {
            assert(('+' as u8) == 43u8 && ('-' as u8) == 45u8);
            if n > 0 {
                lemma_run('+', Cmd::Add(1), n as nat, d);
                assert(1 * (n as nat) == n);
            } else {
                lemma_run('-', Cmd::Add(-1), (-n) as nat, d);
                assert(-1 * ((-n) as nat) == n);
            }
        },
        Cmd::Zero => {
            let s = seq!['[', '-', ']'];
            assert(s =~= seq!['['] + seq!['-'] + seq![']']);
            lemma_ascii_concat(seq!['['] + seq!['-'], seq![']']);
            lemma_ascii_concat(seq!['['], seq!['-']);
            lemma_tokens_concat(ascii_bytes(seq!['['] + seq!['-']), ascii_bytes(seq![']']));
            lemma_tokens_concat(ascii_bytes(seq!['[']), ascii_bytes(seq!['-']));
            lemma_tokens_char('[');
            lemma_tokens_char('-');
            lemma_tokens_char(']');
            assert(tokens(ascii_bytes(s)) =~= seq![Cmd::While].push(Cmd::Add(-1)).push(Cmd::End));
            lemma_reduce_push_last(seq![Cmd::While].push(Cmd::Add(-1)), d, Cmd::End);
            lemma_reduce_push_last(seq![Cmd::While], d, Cmd::Add(-1));
            lemma_reduce_single(Cmd::While, d);
            lemma_clear_loop(d);
        },
        _ => {
            let ch = if c is Put { '.' } else if c is Get { ',' } else if c is While { '[' }
                else if c is End { ']' } else if c is HexDump { '#' } else { '$' };
            assert(emit(c, 1) == seq![ch]);
            lemma_tokens_char(ch);
            lemma_reduce_single(c, d);
        },
    }
}

/// Emitting a list at 8 bits and reading it back one byte at a time keeps its
/// canonical form.
proof fn lemma_emit_canonical(ops: Seq<Cmd>, d: Seq<Cmd>)
    requires
        reduced(d),
    ensures
        reduce_from(tokens(ascii_bytes(emit_all(ops, 1))), d) == reduce_from(ops, d),
    decreases ops.len(),
{
    if ops.len() == 0 {
        assert(ascii_bytes(Seq::<char>::empty()) =~= Seq::<u8>::empty());
    } else {
        let pre = ops.drop_last();
        lemma_emit_canonical(pre, d);
        lemma_ascii_concat(emit_all(pre, 1), emit(ops.last(), 1));
        lemma_tokens_concat(ascii_bytes(emit_all(pre, 1)), ascii_bytes(emit(ops.last(), 1)));
        lemma_reduce_concat(
            tokens(ascii_bytes(emit_all(pre, 1))),
            tokens(ascii_bytes(emit(ops.last(), 1))),
            d,
        );
        lemma_reduced_from(pre, d);
        lemma_emit_one(ops.last(), reduce_from(pre, d));
        assert(ops =~= pre.push(ops.last()));
        lemma_reduce_push_last(pre, d, ops.last());
    }
}

/// Round trip: parsing BF text, emitting it at 8-bit width and parsing the
/// result gives the same operations, up to merging (moves and adds summed,
/// zero counts dropped, `[-]` a clear).
pub proof fn lemma_round_trip(b: Seq<u8>)
    ensures
        canonical(parse_spec(ascii_bytes(emit_all(parse_spec(b), 1)))) == canonical(parse_spec(b)),
{
    let ops = parse_spec(b);
    let e = ascii_bytes(emit_all(ops, 1));
    lemma_parse_canonical(e, Seq::empty());
    assert(canonical(Seq::<Cmd>::empty()) == Seq::<Cmd>::empty());
    assert(reduced(Seq::<Cmd>::empty()));
    lemma_emit_canonical(ops, Seq::empty());
}

/// Merging while parsing: an add followed by an add is one add of their sum,
/// and a move followed by a move one move of their sum.
pub proof fn lemma_coalescing(acc: Seq<Cmd>, a: int, b: int)
    ensures
        push_merged(push_merged(acc, Cmd::Add(a)), Cmd::Add(b)) == push_merged(acc, Cmd::Add(a + b)),
        push_merged(push_merged(acc, Cmd::Move(a)), Cmd::Move(b)) == push_merged(
            acc,
            Cmd::Move(a + b),
        ),
{
    assert(push_merged(acc, Cmd::Add(a)).drop_last() =~= (if acc.len() > 0 && acc.last() is Add {
        acc.drop_last()
    } else {
        acc
    }));
    assert(push_merged(acc, Cmd::Move(a)).drop_last() =~= (if acc.len() > 0 && acc.last() is Move {
        acc.drop_last()
    } else {
        acc
    }));
}

/// Parsing stops at the end of `x` when what follows starts with `[`: no clear
/// idiom spans the boundary.
proof fn lemma_parse_split(x: Seq<u8>, z: Seq<u8>, acc: Seq<Cmd>)
    requires
        z.len() > 0,
        z[0] == 91,
    ensures
        parse_from(x + z, acc) == parse_from(z, parse_from(x, acc)),
    decreases x.len(),
{
    if x.len() == 0 {
        assert(x + z =~= z);
    } else {
        let xz = x + z;
        assert(xz[0] == x[0]);
        if starts_with_clear(xz) {
            assert(x.len() >= 3) by {
                if x.len() == 1 {
                    assert(xz[1] == z[0]);
                } else if x.len() == 2 {
                    assert(xz[2] == z[0]);
                }
            }
            assert(starts_with_clear(x));
            assert(xz.skip(3) =~= x.skip(3) + z);
            lemma_parse_split(x.skip(3), z, push_merged(acc, Cmd::Zero));
        } else {
            if x.len() >= 3 {
                assert(!starts_with_clear(x)) by {
                    assert(xz[1] == x[1] && xz[2] == x[2]);
                }
            }
            assert(xz.skip(1) =~= x.skip(1) + z);
            match token(x[0]) {
                Some(c) => lemma_parse_split(x.skip(1), z, push_merged(acc, c)),
                None => lemma_parse_split(x.skip(1), z, acc),
            }
        }
    }
}

/// `[-]` anywhere in BF text parses as a clear, in place.
pub proof fn lemma_clear_anywhere(x: Seq<u8>, y: Seq<u8>)
    ensures
        parse_spec(x + seq![91u8, 45u8, 93u8] + y) == parse_from(
            y,
            push_merged(parse_spec(x), Cmd::Zero),
        ),
{
    let z = seq![91u8, 45u8, 93u8] + y;
    assert(x + seq![91u8, 45u8, 93u8] + y =~= x + z);
    lemma_parse_split(x, z, Seq::empty());
    assert(starts_with_clear(z));
    assert(z.skip(3) =~= y);
}

proof fn lemma_ascii_concat_chars(a: Seq<char>, b: Seq<char>)
    requires
        is_ascii_chars(a),
        is_ascii_chars(b),
    ensures
        is_ascii_chars(a + b),
{
    assert forall|i: int| 0 <= i < (a + b).len() implies '\0' <= #[trigger] (a + b)[i] <= '\u{7f}' by {
        if i < a.len() {
            assert((a + b)[i] == a[i]);
        } else {
            assert((a + b)[i] == b[i - a.len()]);
        }
    }
}

proof fn lemma_repeat_ascii(u: Seq<char>, n: nat)
    requires
        is_ascii_chars(u),
    ensures
        is_ascii_chars(repeat_seq(u, n)),
    decreases n,
{
    if n > 0 {
        lemma_repeat_ascii(u, (n - 1) as nat);
        lemma_ascii_concat_chars(repeat_seq(u, (n - 1) as nat), u);
    }
}

/// 8-bit BF text is ASCII.
proof fn lemma_emit_ascii(ops: Seq<Cmd>)
    ensures
        is_ascii_chars(emit_all(ops, 1)),
    decreases ops.len(),
{
    if ops.len() > 0 {
        lemma_emit_ascii(ops.drop_last());
        let c = ops.last();
        match c {
            Cmd::Move(n) => {
                assert(is_ascii_chars(seq!['>']));
                assert(is_ascii_chars(seq!['<']));
                if n > 0 {
                    lemma_repeat_ascii(seq!['>'], n as nat);
                } else {
                    lemma_repeat_ascii(seq!['<'], (-n) as nat);
                }
            },
            Cmd::Add(n) => {
                assert(is_ascii_chars(seq!['+']));
                assert(is_ascii_chars(seq!['-']));
                if n > 0 {
                    lemma_repeat_ascii(seq!['+'], n as nat);
                } else {
                    lemma_repeat_ascii(seq!['-'], (-n) as nat);
                }
            },
            _ => {},
        }
        lemma_ascii_concat_chars(emit_all(ops.drop_last(), 1), emit(c, 1));
    }
}

/// Simplifying BF text (`simplify_bf`) keeps what it does: the operations of
/// the result have the same canonical form as those of the input.
pub proof fn lemma_simplify_round_trip(s: Seq<char>)
    ensures
        canonical(parse_spec(encode_utf8(emit_all(parse_spec(encode_utf8(s)), 1)))) == canonical(
            parse_spec(encode_utf8(s)),
        ),
{
    let e = emit_all(parse_spec(encode_utf8(s)), 1);
    lemma_emit_ascii(parse_spec(encode_utf8(s)));
    is_ascii_chars_encode_utf8(e);
    assert(encode_utf8(e) =~= ascii_bytes(e));
    lemma_round_trip(encode_utf8(s));
}

} // verus!
