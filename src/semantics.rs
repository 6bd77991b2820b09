//! What the cell emitters do to the tape. Their text is built from a few
//! shapes: adding to a cell, clearing or setting a cell, a loop on a cell
//! whose body returns home, a run-once block, and sequencing. `Prog` names
//! those shapes, `render` gives the BF text of each, and `run` executes them
//! on a tape of cells modulo `m`. For each emitter covered here, a lemma shows
//! that its text is the rendering of a `Prog`, and another what that `Prog`
//! does to the tape.
use vstd::prelude::*;
use vstd::arithmetic::div_mod::{lemma_add_mod_noop, lemma_small_mod};
use crate::location::{
    add_signed_code, at, copy_code, dec_code, equals_code, from_code, if_code, inc_code, negate_code,
    not_equals_code, times_code, NOT_EQUALS_TEMP0, NOT_EQUALS_TEMP1,
    set_const_code, sum_code, to_code, while_code, zero_code, CURRENT_BASIC_BLOCK,
    CURRENT_BASIC_BLOCK_EQ0, CURRENT_BASIC_BLOCK_EQ1, EQUALS_TEMP0, IF_TEMP0, MATH_TEMP0, MATH_TEMP1,
    SET_TEMP,
};
use crate::dispatch::guarded_code;

verus! {

/// A program built from the emitters' shapes.
pub enum Prog {
    Skip,
    /// Adds an amount to a cell.
    Add(nat, int),
    /// Clears a cell.
    Clear(nat),
    /// Clears a cell, then adds an amount to it.
    Assign(nat, nat),
    /// Runs the body once if the cell is nonzero, then clears the cell.
    Once(nat, Box<Prog>),
    /// Runs the body while the cell is nonzero.
    Loop(nat, Box<Prog>),
    /// Runs one program, then the other.
    Then(Box<Prog>, Box<Prog>),
}

/// The BF text of a program.
pub open spec fn render(p: Prog) -> Seq<char>
    decreases p,
{
    match p {
        Prog::Skip => Seq::empty(),
        Prog::Add(a, k) => add_signed_code(a, k),
        Prog::Clear(a) => zero_code(a),
        Prog::Assign(a, k) => set_const_code(a, k),
        Prog::Once(x, body) => at(
            x,
            seq!['['] + from_code(x) + render(*body) + to_code(x) + seq!['[', '-', ']', ']'],
        ),
        Prog::Loop(x, body) => while_code(x, render(*body)),
        Prog::Then(p1, p2) => render(*p1) + render(*p2),
    }
}

/// `a mod m`, as a cell value.
pub open spec fn wrap(a: int, m: nat) -> nat {
    (a % (m as int)) as nat
}

/// Runs `p` on the tape `t` with cells modulo `m`, allowing `fuel` iterations
/// of each loop; `None` when a loop needs more. Cells past the tape are left
/// alone and read as 0.
pub open spec fn run(p: Prog, t: Seq<nat>, m: nat, fuel: nat) -> Option<Seq<nat>>
    decreases fuel, p,
{
    match p {
        Prog::Skip => Some(t),
        Prog::Add(a, k) => if a < t.len() {
            Some(t.update(a as int, wrap(t[a as int] as int + k, m)))
        } else {
            Some(t)
        },
        Prog::Clear(a) => if a < t.len() {
            Some(t.update(a as int, 0))
        } else {
            Some(t)
        },
        Prog::Assign(a, k) => if a < t.len() {
            Some(t.update(a as int, wrap(k as int, m)))
        } else {
            Some(t)
        },
        Prog::Once(x, body) => if x >= t.len() || t[x as int] == 0 {
            Some(t)
        } else {
            match run(*body, t, m, fuel) {
                Some(t2) => if x < t2.len() {
                    Some(t2.update(x as int, 0))
                } else {
                    Some(t2)
                },
                None => None,
            }
        },
        Prog::Loop(x, body) => if x >= t.len() || t[x as int] == 0 {
            Some(t)
        } else if fuel == 0 {
            None
        } else {
            match run(*body, t, m, (fuel - 1) as nat) {
                Some(t2) => run(Prog::Loop(x, body), t2, m, (fuel - 1) as nat),
                None => None,
            }
        },
        Prog::Then(p1, p2) => match run(*p1, t, m, fuel) {
            Some(t2) => run(*p2, t2, m, fuel),
            None => None,
        },
    }
}

/// Every cell of the tape holds a value below `m`.
pub open spec fn in_range(t: Seq<nat>, m: nat) -> bool {
    forall|i: int| 0 <= i < t.len() ==> #[trigger] t[i] < m
}

pub open spec fn then3(a: Prog, b: Prog, c: Prog) -> Prog {
    Prog::Then(Box::new(a), Box::new(Prog::Then(Box::new(b), Box::new(c))))
}

pub open spec fn inc(a: nat) -> Prog {
    Prog::Add(a, 1)
}

pub open spec fn dec(a: nat) -> Prog {
    Prog::Add(a, -1)
}

/// `while s { c += e; s -= 1 }`.
pub open spec fn move1(s: nat, c: nat, e: int) -> Prog {
    Prog::Loop(s, Box::new(Prog::Then(Box::new(Prog::Add(c, e)), Box::new(dec(s)))))
}

/// `while s { c1 += e1; c2 += 1; s -= 1 }`.
pub open spec fn move2(s: nat, c1: nat, e1: int, c2: nat) -> Prog {
    Prog::Loop(s, Box::new(then3(Prog::Add(c1, e1), inc(c2), dec(s))))
}

/// The copy emitter `dst <- src`, through `SET_TEMP`.
pub open spec fn copy_prog(dst: nat, src: nat) -> Prog {
    let tmp = SET_TEMP as nat;
    if dst == src {
        Prog::Skip
    } else {
        Prog::Then(
            Box::new(then3(Prog::Clear(tmp), Prog::Clear(dst), move2(src, dst, 1, tmp))),
            Box::new(move1(tmp, src, 1)),
        )
    }
}

/// The adder (`up`) or subtractor emitter.
pub open spec fn sum_prog(dest: nat, lhs: nat, y: nat, up: bool) -> Prog {
    let x = MATH_TEMP0 as nat;
    let t0 = MATH_TEMP1 as nat;
    Prog::Then(
        Box::new(then3(
            Prog::Clear(t0),
            copy_prog(x, lhs),
            move2(y, x, if up { 1 } else { -1 }, t0),
        )),
        Box::new(Prog::Then(Box::new(move1(t0, y, 1)), Box::new(copy_prog(dest, x)))),
    )
}

proof fn lemma_render_steps(a: nat)
    ensures
        render(inc(a)) == inc_code(a),
        render(dec(a)) == dec_code(a),
{
}

/// The copy emitter's text is the rendering of `copy_prog`.
pub proof fn lemma_render_copy(dst: nat, src: nat)
    ensures
        render(copy_prog(dst, src)) == copy_code(dst, src),
{
    reveal_with_fuel(render, 4);
    if dst != src {
        let tmp = SET_TEMP as nat;
        lemma_render_steps(dst);
        lemma_render_steps(src);
        lemma_render_steps(tmp);
        assert(render(move2(src, dst, 1, tmp)) == while_code(
            src,
            inc_code(dst) + (inc_code(tmp) + dec_code(src)),
        ));
        assert(inc_code(dst) + (inc_code(tmp) + dec_code(src)) =~= inc_code(dst) + inc_code(tmp)
            + dec_code(src));
        assert(render(move1(tmp, src, 1)) == while_code(tmp, inc_code(src) + dec_code(tmp)));
        assert(render(copy_prog(dst, src)) =~= copy_code(dst, src));
    }
}

proof fn lemma_render_move2(s: nat, c1: nat, e1: int, c2: nat)
    ensures
        render(move2(s, c1, e1, c2)) == while_code(
            s,
            add_signed_code(c1, e1) + inc_code(c2) + dec_code(s),
        ),
{
    reveal_with_fuel(render, 3);
    lemma_render_steps(c2);
    lemma_render_steps(s);
    assert(add_signed_code(c1, e1) + (inc_code(c2) + dec_code(s)) =~= add_signed_code(c1, e1)
        + inc_code(c2) + dec_code(s));
}

proof fn lemma_render_move1(s: nat, c: nat)
    ensures
        render(move1(s, c, 1)) == while_code(s, inc_code(c) + dec_code(s)),
{
    reveal_with_fuel(render, 3);
    lemma_render_steps(c);
    lemma_render_steps(s);
}

/// The adder and subtractor emitters' text is the rendering of `sum_prog`.
#[verifier::spinoff_prover]
#[verifier::rlimit(100)]
pub proof fn lemma_render_sum(dest: nat, lhs: nat, y: nat, up: bool)
    ensures
        render(sum_prog(dest, lhs, y, up)) == sum_code(dest, lhs, y, up),
{
    let x = MATH_TEMP0 as nat;
    let t0 = MATH_TEMP1 as nat;
    let e: int = if up { 1 } else { -1 };
    lemma_render_copy(x, lhs);
    lemma_render_copy(dest, x);
    lemma_render_move2(y, x, e, t0);
    lemma_render_move1(t0, y);
    let step = if up { inc_code(x) } else { dec_code(x) };
    assert(add_signed_code(x, e) == step);
    let first = then3(Prog::Clear(t0), copy_prog(x, lhs), move2(y, x, e, t0));
    let inner = Prog::Then(Box::new(copy_prog(x, lhs)), Box::new(move2(y, x, e, t0)));
    assert(render(inner) == render(copy_prog(x, lhs)) + render(move2(y, x, e, t0)));
    assert(render(Prog::Clear(t0)) == zero_code(t0));
    assert(render(first) == render(Prog::Clear(t0)) + render(inner));
    let second = Prog::Then(Box::new(move1(t0, y, 1)), Box::new(copy_prog(dest, x)));
    assert(render(first) == zero_code(t0) + (copy_code(x, lhs) + while_code(
        y,
        step + inc_code(t0) + dec_code(y),
    )));
    assert(render(second) == while_code(t0, inc_code(y) + dec_code(t0)) + copy_code(dest, x));
    assert(render(sum_prog(dest, lhs, y, up)) == render(first) + render(second));
    assert(render(sum_prog(dest, lhs, y, up)) =~= sum_code(dest, lhs, y, up));
}

proof fn lemma_wrap_step(a: nat, e: int, v: int, m: nat)
    requires
        m > 0,
    ensures
        wrap(wrap(a + e, m) + e * v, m) == wrap(a + e * (v + 1), m),
{
    lemma_add_mod_noop(a + e, e * v, m as int);
    lemma_add_mod_noop(wrap(a + e, m) as int, e * v, m as int);
    lemma_small_mod(wrap(a + e, m), m);
    assert(a + e + e * v == a + e * (v + 1)) by (nonlinear_arith);
}

/// The one-target moving loop adds `e` times the loop cell to the target and
/// clears the loop cell.
pub proof fn lemma_move1(s: nat, c: nat, e: int, t: Seq<nat>, m: nat, fuel: nat)
    requires
        s != c,
        s < t.len(),
        c < t.len(),
        m > 0,
        in_range(t, m),
        fuel >= t[s as int],
    ensures
        run(move1(s, c, e), t, m, fuel) == Some(
            t.update(c as int, wrap(t[c as int] as int + e * t[s as int], m)).update(s as int, 0),
        ),
    decreases t[s as int],
{
    let v = t[s as int];
    if v == 0 {
        lemma_small_mod(t[c as int], m);
        assert(t.update(c as int, wrap(t[c as int] as int + e * 0, m)).update(s as int, 0) =~= t);
    } else {
        let body = Prog::Then(Box::new(Prog::Add(c, e)), Box::new(dec(s)));
        let t1 = t.update(c as int, wrap(t[c as int] as int + e, m));
        let t2 = t1.update(s as int, wrap(v - 1, m));
        assert(run(Prog::Add(c, e), t, m, (fuel - 1) as nat) == Some(t1));
        assert(run(dec(s), t1, m, (fuel - 1) as nat) == Some(t2));
        assert(run(body, t, m, (fuel - 1) as nat) == Some(t2));
        lemma_small_mod((v - 1) as nat, m);
        lemma_small_mod(wrap(t[c as int] as int + e, m), m + 1);
        assert(in_range(t2, m)) by {
            assert forall|i: int| 0 <= i < t2.len() implies #[trigger] t2[i] < m by {
                if i != c && i != s {
                    assert(t2[i] == t[i]);
                }
            }
        }
        lemma_move1(s, c, e, t2, m, (fuel - 1) as nat);
        lemma_wrap_step(t[c as int], e, v - 1, m);
        assert(t2.update(c as int, wrap(t2[c as int] as int + e * t2[s as int], m)).update(s as int, 0)
            =~= t.update(c as int, wrap(t[c as int] as int + e * v, m)).update(s as int, 0));
    }
}

proof fn lemma_wrap_range(a: int, m: nat)
    requires
        m > 0,
    ensures
        wrap(a, m) < m,
{
}

proof fn lemma_in_range_update(t: Seq<nat>, i: int, v: nat, m: nat)
    requires
        0 <= i < t.len(),
        in_range(t, m),
        v < m,
    ensures
        in_range(t.update(i, v), m),
{
    assert forall|j: int| 0 <= j < t.update(i, v).len() implies #[trigger] t.update(i, v)[j] < m by {
        if j != i {
            assert(t.update(i, v)[j] == t[j]);
        }
    }
}

/// The two-target moving loop adds `e1` times the loop cell to the first
/// target and the loop cell to the second, and clears the loop cell.
pub proof fn lemma_move2(s: nat, c1: nat, e1: int, c2: nat, t: Seq<nat>, m: nat, fuel: nat)
    requires
        s != c1,
        s != c2,
        c1 != c2,
        s < t.len(),
        c1 < t.len(),
        c2 < t.len(),
        m > 0,
        in_range(t, m),
        fuel >= t[s as int],
    ensures
        run(move2(s, c1, e1, c2), t, m, fuel) == Some(
            t.update(c1 as int, wrap(t[c1 as int] as int + e1 * t[s as int], m)).update(
                c2 as int,
                wrap(t[c2 as int] as int + t[s as int], m),
            ).update(s as int, 0),
        ),
    decreases t[s as int],
{
    let v = t[s as int];
    if v == 0 {
        lemma_small_mod(t[c1 as int], m);
        lemma_small_mod(t[c2 as int], m);
        assert(t.update(c1 as int, wrap(t[c1 as int] as int + e1 * 0, m)).update(
            c2 as int,
            wrap(t[c2 as int] as int + 0, m),
        ).update(s as int, 0) =~= t);
    } else {
        let body = then3(Prog::Add(c1, e1), inc(c2), dec(s));
        let t1 = t.update(c1 as int, wrap(t[c1 as int] as int + e1, m));
        let t2 = t1.update(c2 as int, wrap(t[c2 as int] as int + 1, m));
        let t3 = t2.update(s as int, wrap(v - 1, m));
        let f = (fuel - 1) as nat;
        assert(run(Prog::Add(c1, e1), t, m, f) == Some(t1));
        assert(run(inc(c2), t1, m, f) == Some(t2));
        assert(run(dec(s), t2, m, f) == Some(t3));
        let rest = Prog::Then(Box::new(inc(c2)), Box::new(dec(s)));
        assert(run(rest, t1, m, f) == Some(t3));
        assert(run(body, t, m, f) == Some(t3));
        lemma_small_mod((v - 1) as nat, m);
        lemma_wrap_range(t[c1 as int] as int + e1, m);
        lemma_wrap_range(t[c2 as int] as int + 1, m);
        lemma_in_range_update(t, c1 as int, wrap(t[c1 as int] as int + e1, m), m);
        lemma_in_range_update(t1, c2 as int, wrap(t[c2 as int] as int + 1, m), m);
        lemma_in_range_update(t2, s as int, wrap(v - 1, m), m);
        lemma_move2(s, c1, e1, c2, t3, m, f);
        lemma_wrap_step(t[c1 as int], e1, v - 1, m);
        lemma_wrap_step(t[c2 as int], 1, v - 1, m);
        assert(t3.update(c1 as int, wrap(t3[c1 as int] as int + e1 * t3[s as int], m)).update(
            c2 as int,
            wrap(t3[c2 as int] as int + t3[s as int], m),
        ).update(s as int, 0) =~= t.update(c1 as int, wrap(t[c1 as int] as int + e1 * v, m)).update(
            c2 as int,
            wrap(t[c2 as int] as int + v, m),
        ).update(s as int, 0));
    }
}

/// Copying: `dst` takes the value of `src`, `src` keeps its value, the
/// scratch cell `SET_TEMP` ends at 0, and no other cell changes. Copying a
/// cell onto itself changes nothing.
pub proof fn lemma_copy_effect(dst: nat, src: nat, t: Seq<nat>, m: nat)
    requires
        dst < t.len(),
        src < t.len(),
        SET_TEMP < t.len(),
        dst != SET_TEMP,
        src != SET_TEMP,
        m > 0,
        in_range(t, m),
    ensures
        dst == src ==> run(copy_prog(dst, src), t, m, m) == Some(t),
        dst != src ==> run(copy_prog(dst, src), t, m, m) == Some(
            t.update(dst as int, t[src as int]).update(SET_TEMP as int, 0),
        ),
{
    if dst != src {
        let tmp = SET_TEMP as nat;
        let v = t[src as int];
        let t1 = t.update(tmp as int, 0);
        let t2 = t1.update(dst as int, 0);
        assert(run(Prog::Clear(tmp), t, m, m) == Some(t1));
        assert(run(Prog::Clear(dst), t1, m, m) == Some(t2));
        lemma_in_range_update(t, tmp as int, 0, m);
        lemma_in_range_update(t1, dst as int, 0, m);
        assert(t2[src as int] == v);
        lemma_move2(src, dst, 1, tmp, t2, m, m);
        lemma_small_mod(v, m);
        let t3 = t2.update(dst as int, wrap(0int + 1 * v, m)).update(tmp as int, wrap(0int + v, m)).update(
            src as int,
            0,
        );
        assert(t3 =~= t2.update(dst as int, v).update(tmp as int, v).update(src as int, 0));
        let first = then3(Prog::Clear(tmp), Prog::Clear(dst), move2(src, dst, 1, tmp));
        let tail = Prog::Then(Box::new(Prog::Clear(dst)), Box::new(move2(src, dst, 1, tmp)));
        assert(run(tail, t1, m, m) == Some(t3));
        assert(run(first, t, m, m) == Some(t3));
        lemma_in_range_update(t2, dst as int, v, m);
        lemma_in_range_update(t2.update(dst as int, v), tmp as int, v, m);
        lemma_in_range_update(t2.update(dst as int, v).update(tmp as int, v), src as int, 0, m);
        assert(t3[tmp as int] == v);
        lemma_move1(tmp, src, 1, t3, m, m);
        let t4 = t3.update(src as int, wrap(t3[src as int] as int + 1 * v, m)).update(tmp as int, 0);
        assert(t4 =~= t.update(dst as int, v).update(SET_TEMP as int, 0));
    }
}

/// Adding (`up`) or subtracting: `dest` and `MATH_TEMP0` take
/// `lhs + rhs` (or `lhs - rhs`) modulo `m`, both operands keep their values,
/// the scratch cells `MATH_TEMP1` and `SET_TEMP` end at 0, and no other cell
/// changes. The operands and the destination may coincide, but not with the
/// scratch cells.
pub proof fn lemma_sum_effect(dest: nat, lhs: nat, rhs: nat, up: bool, t: Seq<nat>, m: nat)
    requires
        dest < t.len(),
        lhs < t.len(),
        rhs < t.len(),
        SET_TEMP < t.len(),
        MATH_TEMP0 < t.len(),
        MATH_TEMP1 < t.len(),
        dest != SET_TEMP && dest != MATH_TEMP0 && dest != MATH_TEMP1,
        lhs != SET_TEMP && lhs != MATH_TEMP0 && lhs != MATH_TEMP1,
        rhs != SET_TEMP && rhs != MATH_TEMP0 && rhs != MATH_TEMP1,
        m > 0,
        in_range(t, m),
    ensures
        ({
            let r = wrap(
                if up { t[lhs as int] as int + t[rhs as int] } else { t[lhs as int] - t[rhs as int] },
                m,
            );
            run(sum_prog(dest, lhs, rhs, up), t, m, m) == Some(
                t.update(MATH_TEMP1 as int, 0).update(SET_TEMP as int, 0).update(
                    MATH_TEMP0 as int,
                    r,
                ).update(dest as int, r),
            )
        }),
{
    let x = MATH_TEMP0 as nat;
    let t0 = MATH_TEMP1 as nat;
    let tmp = SET_TEMP as nat;
    let y = rhs;
    let e: int = if up { 1 } else { -1 };
    let a = t[lhs as int];
    let b = t[y as int];
    let r = wrap(if up { a as int + b } else { a - b }, m);
    // Clear MATH_TEMP1.
    let ta = t.update(t0 as int, 0);
    lemma_in_range_update(t, t0 as int, 0, m);
    assert(run(Prog::Clear(t0), t, m, m) == Some(ta));
    // MATH_TEMP0 <- lhs.
    lemma_copy_effect(x, lhs, ta, m);
    let tb = ta.update(x as int, a).update(tmp as int, 0);
    lemma_in_range_update(ta, x as int, a, m);
    lemma_in_range_update(ta.update(x as int, a), tmp as int, 0, m);
    // Move rhs into MATH_TEMP0 (up or down) and MATH_TEMP1.
    assert(tb[y as int] == b);
    lemma_move2(y, x, e, t0, tb, m, m);
    lemma_small_mod(a, m);
    lemma_small_mod(b, m);
    let tc = tb.update(x as int, wrap(a + e * b, m)).update(t0 as int, b).update(y as int, 0);
    assert(tb.update(x as int, wrap(tb[x as int] as int + e * b, m)).update(
        t0 as int,
        wrap(tb[t0 as int] as int + b, m),
    ).update(y as int, 0) =~= tc);
    if up {
        assert(e * b == b) by (nonlinear_arith)
            requires
                e == 1,
        ;
    } else {
        assert(e * b == -b) by (nonlinear_arith)
            requires
                e == -1,
        ;
    }
    assert(wrap(a + e * b, m) == r);
    lemma_wrap_range(a + e * b, m);
    lemma_in_range_update(tb, x as int, r, m);
    lemma_in_range_update(tb.update(x as int, r), t0 as int, b, m);
    lemma_in_range_update(tb.update(x as int, r).update(t0 as int, b), y as int, 0, m);
    // Move MATH_TEMP1 back into rhs.
    lemma_move1(t0, y, 1, tc, m, m);
    let td = tc.update(y as int, b).update(t0 as int, 0);
    assert(tc.update(y as int, wrap(tc[y as int] as int + 1 * tc[t0 as int], m)).update(t0 as int, 0)
        =~= td);
    lemma_in_range_update(tc, y as int, b, m);
    lemma_in_range_update(tc.update(y as int, b), t0 as int, 0, m);
    // dest <- MATH_TEMP0.
    assert(td[x as int] == r);
    lemma_copy_effect(dest, x, td, m);
    let te = td.update(dest as int, r).update(tmp as int, 0);
    let first = then3(Prog::Clear(t0), copy_prog(x, lhs), move2(y, x, e, t0));
    let inner = Prog::Then(Box::new(copy_prog(x, lhs)), Box::new(move2(y, x, e, t0)));
    assert(run(inner, ta, m, m) == Some(tc));
    assert(run(first, t, m, m) == Some(tc));
    let second = Prog::Then(Box::new(move1(t0, y, 1)), Box::new(copy_prog(dest, x)));
    assert(run(second, tc, m, m) == Some(te));
    assert(te =~= t.update(t0 as int, 0).update(tmp as int, 0).update(x as int, r).update(
        dest as int,
        r,
    ));
}

/// The equality emitter: `x <- (lhs == rhs)`, through `EQUALS_TEMP0`.
pub open spec fn equals_prog(x: nat, lhs: nat, rhs: nat) -> Prog {
    let y = EQUALS_TEMP0 as nat;
    Prog::Then(
        Box::new(then3(
            copy_prog(x, lhs),
            copy_prog(y, rhs),
            Prog::Loop(x, Box::new(Prog::Then(Box::new(dec(x)), Box::new(dec(y))))),
        )),
        Box::new(Prog::Then(
            Box::new(inc(x)),
            Box::new(Prog::Loop(y, Box::new(Prog::Then(Box::new(dec(x)), Box::new(Prog::Clear(y)))))),
        )),
    )
}

/// The equality emitter's text is the rendering of `equals_prog`.
#[verifier::spinoff_prover]
#[verifier::rlimit(100)]
pub proof fn lemma_render_equals(x: nat, lhs: nat, rhs: nat)
    ensures
        render(equals_prog(x, lhs, rhs)) == equals_code(x, lhs, rhs),
{
    let y = EQUALS_TEMP0 as nat;
    lemma_render_copy(x, lhs);
    lemma_render_copy(y, rhs);
    lemma_render_steps(x);
    lemma_render_steps(y);
    let l1 = Prog::Loop(x, Box::new(Prog::Then(Box::new(dec(x)), Box::new(dec(y)))));
    let b1 = Prog::Then(Box::new(dec(x)), Box::new(dec(y)));
    assert(render(b1) == dec_code(x) + dec_code(y));
    assert(render(l1) == while_code(x, dec_code(x) + dec_code(y)));
    let b2 = Prog::Then(Box::new(dec(x)), Box::new(Prog::Clear(y)));
    let l2 = Prog::Loop(y, Box::new(b2));
    assert(render(Prog::Clear(y)) == zero_code(y));
    assert(render(b2) == dec_code(x) + zero_code(y));
    assert(render(l2) == while_code(y, dec_code(x) + zero_code(y)));
    let inner = Prog::Then(Box::new(copy_prog(y, rhs)), Box::new(l1));
    assert(render(inner) == render(copy_prog(y, rhs)) + render(l1));
    let first = then3(copy_prog(x, lhs), copy_prog(y, rhs), l1);
    assert(render(first) == render(copy_prog(x, lhs)) + render(inner));
    let second = Prog::Then(Box::new(inc(x)), Box::new(l2));
    assert(render(second) == inc_code(x) + render(l2));
    assert(render(equals_prog(x, lhs, rhs)) == render(first) + render(second));
    assert(render(equals_prog(x, lhs, rhs)) =~= equals_code(x, lhs, rhs));
}

/// `while s { s -= 1; c += e }`: the loop cell is counted down into `c`.
proof fn lemma_count_down(s: nat, c: nat, e: int, t: Seq<nat>, m: nat, fuel: nat)
    requires
        s != c,
        s < t.len(),
        c < t.len(),
        m > 0,
        in_range(t, m),
        fuel >= t[s as int],
    ensures
        run(Prog::Loop(s, Box::new(Prog::Then(Box::new(dec(s)), Box::new(Prog::Add(c, e))))), t, m, fuel)
            == Some(t.update(c as int, wrap(t[c as int] as int + e * t[s as int], m)).update(s as int, 0)),
    decreases t[s as int],
{
    let v = t[s as int];
    let lp = Prog::Loop(s, Box::new(Prog::Then(Box::new(dec(s)), Box::new(Prog::Add(c, e)))));
    if v == 0 {
        lemma_small_mod(t[c as int], m);
        assert(t.update(c as int, wrap(t[c as int] as int + e * 0, m)).update(s as int, 0) =~= t);
    } else {
        let f = (fuel - 1) as nat;
        let t1 = t.update(s as int, wrap(v - 1, m));
        let t2 = t1.update(c as int, wrap(t[c as int] as int + e, m));
        assert(run(dec(s), t, m, f) == Some(t1));
        assert(run(Prog::Add(c, e), t1, m, f) == Some(t2));
        assert(run(Prog::Then(Box::new(dec(s)), Box::new(Prog::Add(c, e))), t, m, f) == Some(t2));
        lemma_small_mod((v - 1) as nat, m);
        lemma_wrap_range(t[c as int] as int + e, m);
        lemma_in_range_update(t, s as int, wrap(v - 1, m), m);
        lemma_in_range_update(t1, c as int, wrap(t[c as int] as int + e, m), m);
        lemma_count_down(s, c, e, t2, m, f);
        lemma_wrap_step(t[c as int], e, v - 1, m);
        assert(t2.update(c as int, wrap(t2[c as int] as int + e * t2[s as int], m)).update(s as int, 0)
            =~= t.update(c as int, wrap(t[c as int] as int + e * v, m)).update(s as int, 0));
    }
}

/// Equality: `x` becomes 1 when `lhs` and `rhs` hold the same value and 0
/// otherwise; both operands keep their values, the scratch cells
/// `EQUALS_TEMP0` and `SET_TEMP` end at 0, and no other cell changes. The
/// operands may coincide, but not with `x` or the scratch cells.
pub proof fn lemma_equals_effect(x: nat, lhs: nat, rhs: nat, t: Seq<nat>, m: nat)
    requires
        x < t.len(),
        lhs < t.len(),
        rhs < t.len(),
        SET_TEMP < t.len(),
        EQUALS_TEMP0 < t.len(),
        x != SET_TEMP && x != EQUALS_TEMP0 && x != lhs && x != rhs,
        lhs != SET_TEMP && lhs != EQUALS_TEMP0,
        rhs != SET_TEMP && rhs != EQUALS_TEMP0,
        m > 1,
        in_range(t, m),
    ensures
        run(equals_prog(x, lhs, rhs), t, m, m) == Some(
            t.update(x as int, if t[lhs as int] == t[rhs as int] { 1nat } else { 0nat }).update(
                EQUALS_TEMP0 as int,
                0,
            ).update(SET_TEMP as int, 0),
        ),
{
    let y = EQUALS_TEMP0 as nat;
    let tmp = SET_TEMP as nat;
    let a = t[lhs as int];
    let b = t[rhs as int];
    // x <- lhs, y <- rhs.
    lemma_copy_effect(x, lhs, t, m);
    let t1 = t.update(x as int, a).update(tmp as int, 0);
    lemma_in_range_update(t, x as int, a, m);
    lemma_in_range_update(t.update(x as int, a), tmp as int, 0, m);
    assert(t1[rhs as int] == b);
    lemma_copy_effect(y, rhs, t1, m);
    let t2 = t1.update(y as int, b).update(tmp as int, 0);
    lemma_in_range_update(t1, y as int, b, m);
    lemma_in_range_update(t1.update(y as int, b), tmp as int, 0, m);
    // Count x down into y: y = b - a.
    assert(t2[x as int] == a && t2[y as int] == b);
    lemma_count_down(x, y, -1, t2, m, m);
    let d = wrap(b as int + -1 * a, m);
    let t3 = t2.update(y as int, d).update(x as int, 0);
    lemma_wrap_range(b as int + -1 * a, m);
    lemma_in_range_update(t2, y as int, d, m);
    lemma_in_range_update(t2.update(y as int, d), x as int, 0, m);
    // x = 1.
    lemma_small_mod(1, m);
    let t4 = t3.update(x as int, 1);
    assert(run(inc(x), t3, m, m) == Some(t4));
    // Once if y is nonzero: x = 0, y = 0.
    let b2 = Prog::Then(Box::new(dec(x)), Box::new(Prog::Clear(y)));
    let l2 = Prog::Loop(y, Box::new(b2));
    lemma_small_mod(0, m);
    let same = a == b;
    assert(same <==> d == 0) by {
        lemma_small_mod(a, m);
        lemma_small_mod(b, m);
        if a == b {
            assert(b as int + -1 * a == 0);
        } else {
            assert(b as int + -1 * a != 0);
            assert(-(m as int) < b as int + -1 * a < m as int);
            if b > a {
                lemma_small_mod((b - a) as nat, m);
            } else {
                assert((b as int + -1 * a) % (m as int) == (b as int + -1 * a) + m as int) by {
                    lemma_small_mod((b as int + -1 * a + m as int) as nat, m);
                    vstd::arithmetic::div_mod::lemma_mod_add_multiples_vanish(
                        b as int + -1 * a,
                        m as int,
                    );
                }
            }
        }
    }
    let t5 = if same { t4 } else { t4.update(x as int, 0).update(y as int, 0) };
    if !same {
        let t45 = t4.update(x as int, 0);
        assert(run(dec(x), t4, m, (m - 1) as nat) == Some(t45));
        assert(run(Prog::Clear(y), t45, m, (m - 1) as nat) == Some(t5));
        assert(run(b2, t4, m, (m - 1) as nat) == Some(t5));
        assert(run(l2, t5, m, (m - 1) as nat) == Some(t5));
    }
    assert(run(l2, t4, m, m) == Some(t5));
    let second = Prog::Then(Box::new(inc(x)), Box::new(l2));
    assert(run(second, t3, m, m) == Some(t5));
    let l1 = Prog::Loop(x, Box::new(Prog::Then(Box::new(dec(x)), Box::new(dec(y)))));
    assert(dec(y) == Prog::Add(y, -1));
    let inner = Prog::Then(Box::new(copy_prog(y, rhs)), Box::new(l1));
    assert(run(inner, t1, m, m) == Some(t3));
    let first = then3(copy_prog(x, lhs), copy_prog(y, rhs), l1);
    assert(run(first, t, m, m) == Some(t3));
    assert(t5 =~= t.update(x as int, if a == b { 1nat } else { 0nat }).update(y as int, 0).update(
        tmp as int,
        0,
    ));
}

/// The guard the dispatcher puts around each element: `body` runs when
/// `CURRENT_BASIC_BLOCK` holds `n`.
pub open spec fn guard_prog(n: nat, body: Prog) -> Prog {
    let eq0 = CURRENT_BASIC_BLOCK_EQ0 as nat;
    let eq1 = CURRENT_BASIC_BLOCK_EQ1 as nat;
    let cur = CURRENT_BASIC_BLOCK as nat;
    let flag = IF_TEMP0 as nat;
    then3(
        Prog::Assign(eq1, n),
        equals_prog(eq0, cur, eq1),
        Prog::Then(Box::new(copy_prog(flag, eq0)), Box::new(Prog::Once(flag, Box::new(body)))),
    )
}

/// The dispatcher's guard text is the rendering of `guard_prog`.
#[verifier::spinoff_prover]
#[verifier::rlimit(100)]
pub proof fn lemma_render_guard(n: nat, body: Prog)
    ensures
        render(guard_prog(n, body)) == guarded_code(n, render(body)),
{
    let eq0 = CURRENT_BASIC_BLOCK_EQ0 as nat;
    let eq1 = CURRENT_BASIC_BLOCK_EQ1 as nat;
    let cur = CURRENT_BASIC_BLOCK as nat;
    let flag = IF_TEMP0 as nat;
    lemma_render_equals(eq0, cur, eq1);
    lemma_render_copy(flag, eq0);
    let once = Prog::Once(flag, Box::new(body));
    let tail = Prog::Then(Box::new(copy_prog(flag, eq0)), Box::new(once));
    assert(render(tail) == render(copy_prog(flag, eq0)) + render(once));
    assert(render(tail) == if_code(eq0, render(body)));
    let inner = Prog::Then(Box::new(equals_prog(eq0, cur, eq1)), Box::new(tail));
    assert(render(inner) == render(equals_prog(eq0, cur, eq1)) + render(tail));
    assert(render(Prog::Assign(eq1, n)) == set_const_code(eq1, n));
    assert(render(guard_prog(n, body)) =~= guarded_code(n, render(body)));
}

/// The guard: `body` runs exactly when `CURRENT_BASIC_BLOCK` holds `n`
/// (modulo `m`); either way the comparison leaves `CURRENT_BASIC_BLOCK_EQ1`
/// at `n`, `CURRENT_BASIC_BLOCK_EQ0` at the outcome, and clears its other
/// scratch cells, and `CURRENT_BASIC_BLOCK` keeps its value.
pub proof fn lemma_guard_effect(n: nat, body: Prog, t: Seq<nat>, m: nat, fuel: nat)
    requires
        IF_TEMP0 < t.len(),
        m > 1,
        fuel >= m,
        in_range(t, m),
    ensures
        ({
            let hit = t[CURRENT_BASIC_BLOCK as int] == wrap(n as int, m);
            let f: nat = if hit { 1 } else { 0 };
            let t1 = t.update(CURRENT_BASIC_BLOCK_EQ1 as int, wrap(n as int, m)).update(
                CURRENT_BASIC_BLOCK_EQ0 as int,
                f,
            ).update(EQUALS_TEMP0 as int, 0).update(SET_TEMP as int, 0).update(
                IF_TEMP0 as int,
                f,
            );
            run(guard_prog(n, body), t, m, fuel) == if hit {
                match run(body, t1, m, fuel) {
                    Some(t2) => if IF_TEMP0 < t2.len() {
                        Some(t2.update(IF_TEMP0 as int, 0))
                    } else {
                        Some(t2)
                    },
                    None => None,
                }
            } else {
                Some(t1)
            }
        }),
{
    let eq0 = CURRENT_BASIC_BLOCK_EQ0 as nat;
    let eq1 = CURRENT_BASIC_BLOCK_EQ1 as nat;
    let cur = CURRENT_BASIC_BLOCK as nat;
    let flag = IF_TEMP0 as nat;
    let tmp = SET_TEMP as nat;
    let k = wrap(n as int, m);
    let hit = t[cur as int] == k;
    let f: nat = if hit { 1 } else { 0 };
    // CURRENT_BASIC_BLOCK_EQ1 <- n.
    let ta = t.update(eq1 as int, k);
    assert(run(Prog::Assign(eq1, n), t, m, fuel) == Some(ta));
    lemma_wrap_range(n as int, m);
    lemma_in_range_update(t, eq1 as int, k, m);
    // CURRENT_BASIC_BLOCK_EQ0 <- (CURRENT_BASIC_BLOCK == CURRENT_BASIC_BLOCK_EQ1).
    lemma_equals_effect(eq0, cur, eq1, ta, m);
    let tb = ta.update(eq0 as int, f).update(EQUALS_TEMP0 as int, 0).update(tmp as int, 0);
    assert(run(equals_prog(eq0, cur, eq1), ta, m, m) == Some(tb));
    lemma_run_fuel_equals(eq0, cur, eq1, ta, m, fuel);
    lemma_in_range_update(ta, eq0 as int, f, m);
    lemma_in_range_update(ta.update(eq0 as int, f), EQUALS_TEMP0 as int, 0, m);
    lemma_in_range_update(ta.update(eq0 as int, f).update(EQUALS_TEMP0 as int, 0), tmp as int, 0, m);
    // IF_TEMP0 <- CURRENT_BASIC_BLOCK_EQ0.
    lemma_copy_effect(flag, eq0, tb, m);
    let tc = tb.update(flag as int, f).update(tmp as int, 0);
    lemma_run_fuel_copy(flag, eq0, tb, m, fuel);
    let t1 = t.update(eq1 as int, k).update(eq0 as int, f).update(EQUALS_TEMP0 as int, 0).update(
        tmp as int,
        0,
    ).update(flag as int, f);
    assert(tc =~= t1);
    let once = Prog::Once(flag, Box::new(body));
    let tail = Prog::Then(Box::new(copy_prog(flag, eq0)), Box::new(once));
    assert(run(tail, tb, m, fuel) == run(once, tc, m, fuel));
    let inner = Prog::Then(Box::new(equals_prog(eq0, cur, eq1)), Box::new(tail));
    assert(run(inner, ta, m, fuel) == run(tail, tb, m, fuel));
    assert(run(guard_prog(n, body), t, m, fuel) == run(inner, ta, m, fuel));
}

/// More fuel does not change a run that finished.
proof fn lemma_run_more_fuel(p: Prog, t: Seq<nat>, m: nat, f1: nat, f2: nat)
    requires
        f1 <= f2,
        run(p, t, m, f1) is Some,
    ensures
        run(p, t, m, f2) == run(p, t, m, f1),
    decreases f1, p,
{
    match p {
        Prog::Loop(x, body) => {
            if !(x >= t.len() || t[x as int] == 0) {
                let t2 = run(*body, t, m, (f1 - 1) as nat)->0;
                lemma_run_more_fuel(*body, t, m, (f1 - 1) as nat, (f2 - 1) as nat);
                lemma_run_more_fuel(Prog::Loop(x, body), t2, m, (f1 - 1) as nat, (f2 - 1) as nat);
            }
        },
        Prog::Then(p1, p2) => {
            lemma_run_more_fuel(*p1, t, m, f1, f2);
            let t2 = run(*p1, t, m, f1)->0;
            lemma_run_more_fuel(*p2, t2, m, f1, f2);
        },
        Prog::Once(x, body) => {
            if !(x >= t.len() || t[x as int] == 0) {
                lemma_run_more_fuel(*body, t, m, f1, f2);
            }
        },
        _ => {},
    }
}

proof fn lemma_run_fuel_equals(x: nat, l: nat, r: nat, t: Seq<nat>, m: nat, fuel: nat)
    requires
        fuel >= m,
        run(equals_prog(x, l, r), t, m, m) is Some,
    ensures
        run(equals_prog(x, l, r), t, m, fuel) == run(equals_prog(x, l, r), t, m, m),
{
    lemma_run_more_fuel(equals_prog(x, l, r), t, m, m, fuel);
}

proof fn lemma_run_fuel_copy(d: nat, s: nat, t: Seq<nat>, m: nat, fuel: nat)
    requires
        fuel >= m,
        run(copy_prog(d, s), t, m, m) is Some,
    ensures
        run(copy_prog(d, s), t, m, fuel) == run(copy_prog(d, s), t, m, m),
{
    lemma_run_more_fuel(copy_prog(d, s), t, m, m, fuel);
}

/// The negation emitter: `x <- -src`, through `MATH_TEMP0`.
pub open spec fn negate_prog(x: nat, src: nat) -> Prog {
    let t0 = MATH_TEMP0 as nat;
    Prog::Then(
        Box::new(then3(copy_prog(x, src), Prog::Clear(t0), move1(x, t0, -1))),
        Box::new(Prog::Loop(t0, Box::new(Prog::Then(Box::new(dec(x)), Box::new(inc(t0)))))),
    )
}

/// The negation emitter's text is the rendering of `negate_prog`.
#[verifier::spinoff_prover]
#[verifier::rlimit(100)]
pub proof fn lemma_render_negate(x: nat, src: nat)
    ensures
        render(negate_prog(x, src)) == negate_code(x, src),
{
    let t0 = MATH_TEMP0 as nat;
    lemma_render_copy(x, src);
    lemma_render_steps(x);
    lemma_render_steps(t0);
    let m1 = move1(x, t0, -1);
    let b1 = Prog::Then(Box::new(Prog::Add(t0, -1)), Box::new(dec(x)));
    assert(render(b1) == dec_code(t0) + dec_code(x));
    assert(render(m1) == while_code(x, dec_code(t0) + dec_code(x)));
    let b2 = Prog::Then(Box::new(dec(x)), Box::new(inc(t0)));
    assert(render(b2) == dec_code(x) + inc_code(t0));
    let l2 = Prog::Loop(t0, Box::new(b2));
    assert(render(l2) == while_code(t0, dec_code(x) + inc_code(t0)));
    let inner = Prog::Then(Box::new(Prog::Clear(t0)), Box::new(m1));
    assert(render(Prog::Clear(t0)) == zero_code(t0));
    assert(render(inner) == zero_code(t0) + render(m1));
    let first = then3(copy_prog(x, src), Prog::Clear(t0), m1);
    assert(render(first) == render(copy_prog(x, src)) + render(inner));
    assert(render(negate_prog(x, src)) == render(first) + render(l2));
    assert(render(negate_prog(x, src)) =~= negate_code(x, src));
}

/// `while s { c -= 1; s += 1 }`: the loop cell counts up to `m`, where it wraps
/// to 0, taking `m - s` from `c`.
proof fn lemma_count_up(s: nat, c: nat, t: Seq<nat>, m: nat, fuel: nat)
    requires
        s != c,
        s < t.len(),
        c < t.len(),
        m > 1,
        in_range(t, m),
        t[s as int] > 0,
        fuel >= m - t[s as int],
    ensures
        run(Prog::Loop(s, Box::new(Prog::Then(Box::new(dec(c)), Box::new(inc(s))))), t, m, fuel)
            == Some(t.update(c as int, wrap(t[c as int] as int - (m - t[s as int]), m)).update(s as int, 0)),
    decreases m - t[s as int],
{
    let w = t[s as int];
    let body = Prog::Then(Box::new(dec(c)), Box::new(inc(s)));
    let lp = Prog::Loop(s, Box::new(body));
    let f = (fuel - 1) as nat;
    let t1 = t.update(c as int, wrap(t[c as int] as int - 1, m));
    let t2 = t1.update(s as int, wrap(w as int + 1, m));
    assert(run(dec(c), t, m, f) == Some(t1));
    assert(run(inc(s), t1, m, f) == Some(t2));
    assert(run(body, t, m, f) == Some(t2));
    lemma_wrap_range(t[c as int] as int - 1, m);
    lemma_wrap_range(w as int + 1, m);
    lemma_in_range_update(t, c as int, wrap(t[c as int] as int - 1, m), m);
    lemma_in_range_update(t1, s as int, wrap(w as int + 1, m), m);
    if w + 1 == m {
        vstd::arithmetic::div_mod::lemma_mod_self_0(m as int);
        assert(t2[s as int] == 0);
        assert(run(lp, t2, m, f) == Some(t2));
        assert(t2 =~= t.update(c as int, wrap(t[c as int] as int - (m - w), m)).update(s as int, 0));
    } else {
        lemma_small_mod((w + 1) as nat, m);
        assert(t2[s as int] == w + 1);
        lemma_count_up(s, c, t2, m, f);
        lemma_wrap_step(t[c as int], -1, m - w - 1, m);
        assert(t2[c as int] == wrap(t[c as int] + -1, m));
        assert(t[c as int] + -1 * (m - w - 1 + 1) == t[c as int] as int - (m - w));
        assert(t2.update(c as int, wrap(t2[c as int] as int - (m - t2[s as int]), m)).update(s as int, 0)
            =~= t.update(c as int, wrap(t[c as int] as int - (m - w), m)).update(s as int, 0));
    }
}

/// Negation: `x` becomes `-src` modulo `m`, `src` keeps its value, the scratch
/// cells `MATH_TEMP0` and `SET_TEMP` end at 0, and no other cell changes.
pub proof fn lemma_negate_effect(x: nat, src: nat, t: Seq<nat>, m: nat)
    requires
        x < t.len(),
        src < t.len(),
        SET_TEMP < t.len(),
        MATH_TEMP0 < t.len(),
        x != SET_TEMP && x != MATH_TEMP0 && x != src,
        src != SET_TEMP && src != MATH_TEMP0,
        m > 1,
        in_range(t, m),
    ensures
        run(negate_prog(x, src), t, m, m) == Some(
            t.update(x as int, wrap(-(t[src as int] as int), m)).update(MATH_TEMP0 as int, 0).update(
                SET_TEMP as int,
                0,
            ),
        ),
{
    let t0 = MATH_TEMP0 as nat;
    let tmp = SET_TEMP as nat;
    let v = t[src as int];
    lemma_copy_effect(x, src, t, m);
    let ta = t.update(x as int, v).update(tmp as int, 0);
    lemma_in_range_update(t, x as int, v, m);
    lemma_in_range_update(t.update(x as int, v), tmp as int, 0, m);
    let tb = ta.update(t0 as int, 0);
    assert(run(Prog::Clear(t0), ta, m, m) == Some(tb));
    lemma_in_range_update(ta, t0 as int, 0, m);
    assert(tb[x as int] == v);
    lemma_move1(x, t0, -1, tb, m, m);
    let w = wrap(0 + -1 * v, m);
    let tc = tb.update(t0 as int, w).update(x as int, 0);
    assert(tb.update(t0 as int, wrap(tb[t0 as int] as int + -1 * v, m)).update(x as int, 0) =~= tc);
    lemma_wrap_range(0 + -1 * v, m);
    lemma_in_range_update(tb, t0 as int, w, m);
    lemma_in_range_update(tb.update(t0 as int, w), x as int, 0, m);
    let b2 = Prog::Then(Box::new(dec(x)), Box::new(inc(t0)));
    let l2 = Prog::Loop(t0, Box::new(b2));
    let first = then3(copy_prog(x, src), Prog::Clear(t0), move1(x, t0, -1));
    let inner = Prog::Then(Box::new(Prog::Clear(t0)), Box::new(move1(x, t0, -1)));
    assert(run(inner, ta, m, m) == Some(tc));
    assert(run(first, t, m, m) == Some(tc));
    let expected = t.update(x as int, wrap(-(v as int), m)).update(t0 as int, 0).update(tmp as int, 0);
    if v == 0 {
        lemma_small_mod(0, m);
        assert(w == 0);
        assert(run(l2, tc, m, m) == Some(tc));
        assert(tc =~= expected);
    } else {
        lemma_small_mod(v, m);
        lemma_small_mod((m - v) as nat, m);
        assert(w == m - v) by {
            vstd::arithmetic::div_mod::lemma_mod_add_multiples_vanish(-(v as int), m as int);
        }
        lemma_count_up(t0, x, tc, m, m);
        assert(tc[x as int] == 0);
        assert(wrap(0 - (m - w), m) == wrap(-(v as int), m));
        assert(tc.update(x as int, wrap(tc[x as int] as int - (m - tc[t0 as int]), m)).update(
            t0 as int,
            0,
        ) =~= expected);
    }
}

/// The inequality emitter: `x <- (lhs != y)`, through `NOT_EQUALS_TEMP0` and
/// `NOT_EQUALS_TEMP1`; `y` is drained and restored.
pub open spec fn not_equals_prog(x: nat, lhs: nat, y: nat) -> Prog {
    let t0 = NOT_EQUALS_TEMP0 as nat;
    let t1 = NOT_EQUALS_TEMP1 as nat;
    Prog::Then(
        Box::new(then3(Prog::Clear(t0), Prog::Clear(t1), copy_prog(x, lhs))),
        Box::new(Prog::Then(
            Box::new(then3(move1(x, t1, 1), move2(y, t1, -1, t0), move1(t0, y, 1))),
            Box::new(Prog::Loop(t1, Box::new(Prog::Then(Box::new(inc(x)), Box::new(Prog::Clear(t1)))))),
        )),
    )
}

/// The inequality emitter's text is the rendering of `not_equals_prog`.
#[verifier::spinoff_prover]
#[verifier::rlimit(100)]
pub proof fn lemma_render_not_equals(x: nat, lhs: nat, y: nat)
    ensures
        render(not_equals_prog(x, lhs, y)) == not_equals_code(x, lhs, y),
{
    let t0 = NOT_EQUALS_TEMP0 as nat;
    let t1 = NOT_EQUALS_TEMP1 as nat;
    lemma_render_copy(x, lhs);
    lemma_render_move1(x, t1);
    lemma_render_move1(t0, y);
    lemma_render_steps(x);
    lemma_render_steps(y);
    lemma_render_steps(t0);
    lemma_render_steps(t1);
    lemma_render_move2(y, t1, -1, t0);
    assert(add_signed_code(t1, -1) == dec_code(t1));
    assert(render(Prog::Clear(t0)) == zero_code(t0));
    assert(render(Prog::Clear(t1)) == zero_code(t1));
    let a1 = then3(Prog::Clear(t0), Prog::Clear(t1), copy_prog(x, lhs));
    let a1i = Prog::Then(Box::new(Prog::Clear(t1)), Box::new(copy_prog(x, lhs)));
    assert(render(a1i) == zero_code(t1) + copy_code(x, lhs));
    assert(render(a1) == zero_code(t0) + render(a1i));
    let a2 = then3(move1(x, t1, 1), move2(y, t1, -1, t0), move1(t0, y, 1));
    let a2i = Prog::Then(Box::new(move2(y, t1, -1, t0)), Box::new(move1(t0, y, 1)));
    assert(render(a2i) == render(move2(y, t1, -1, t0)) + render(move1(t0, y, 1)));
    assert(render(a2) == render(move1(x, t1, 1)) + render(a2i));
    let b4 = Prog::Then(Box::new(inc(x)), Box::new(Prog::Clear(t1)));
    assert(render(b4) == inc_code(x) + zero_code(t1));
    let l4 = Prog::Loop(t1, Box::new(b4));
    assert(render(l4) == while_code(t1, inc_code(x) + zero_code(t1)));
    let rest = Prog::Then(Box::new(a2), Box::new(l4));
    assert(render(rest) == render(a2) + render(l4));
    assert(render(not_equals_prog(x, lhs, y)) == render(a1) + render(rest));
    assert(render(not_equals_prog(x, lhs, y)) =~= not_equals_code(x, lhs, y));
}

/// Inequality: `x` becomes 1 when `lhs` and `rhs` hold different values and 0
/// otherwise; both operands keep their values, the scratch cells
/// `NOT_EQUALS_TEMP0`, `NOT_EQUALS_TEMP1` and `SET_TEMP` end at 0, and no
/// other cell changes. The operands may coincide, but not with `x` or the
/// scratch cells.
#[verifier::rlimit(60)]
pub proof fn lemma_not_equals_effect(x: nat, lhs: nat, rhs: nat, t: Seq<nat>, m: nat)
    requires
        x < t.len(),
        lhs < t.len(),
        rhs < t.len(),
        SET_TEMP < t.len(),
        NOT_EQUALS_TEMP1 < t.len(),
        x != SET_TEMP && x != NOT_EQUALS_TEMP0 && x != NOT_EQUALS_TEMP1 && x != lhs && x != rhs,
        lhs != SET_TEMP && lhs != NOT_EQUALS_TEMP0 && lhs != NOT_EQUALS_TEMP1,
        rhs != SET_TEMP && rhs != NOT_EQUALS_TEMP0 && rhs != NOT_EQUALS_TEMP1,
        m > 1,
        in_range(t, m),
    ensures
        run(not_equals_prog(x, lhs, rhs), t, m, m) == Some(
            t.update(x as int, if t[lhs as int] != t[rhs as int] { 1nat } else { 0nat }).update(
                NOT_EQUALS_TEMP0 as int,
                0,
            ).update(NOT_EQUALS_TEMP1 as int, 0).update(SET_TEMP as int, 0),
        ),
{
    let t0 = NOT_EQUALS_TEMP0 as nat;
    let t1 = NOT_EQUALS_TEMP1 as nat;
    let tmp = SET_TEMP as nat;
    let y = rhs;
    let a = t[lhs as int];
    let b = t[y as int];
    lemma_small_mod(0, m);
    lemma_small_mod(a, m);
    lemma_small_mod(b, m);
    // Clear both scratch cells, then x <- lhs.
    let ta = t.update(t0 as int, 0).update(t1 as int, 0);
    lemma_in_range_update(t, t0 as int, 0, m);
    lemma_in_range_update(t.update(t0 as int, 0), t1 as int, 0, m);
    assert(ta[lhs as int] == a);
    lemma_copy_effect(x, lhs, ta, m);
    let tb = ta.update(x as int, a).update(tmp as int, 0);
    lemma_in_range_update(ta, x as int, a, m);
    lemma_in_range_update(ta.update(x as int, a), tmp as int, 0, m);
    let a1i = Prog::Then(Box::new(Prog::Clear(t1)), Box::new(copy_prog(x, lhs)));
    assert(run(Prog::Clear(t0), t, m, m) == Some(t.update(t0 as int, 0)));
    assert(run(Prog::Clear(t1), t.update(t0 as int, 0), m, m) == Some(ta));
    assert(run(copy_prog(x, lhs), ta, m, m) == Some(tb));
    assert(run(a1i, t.update(t0 as int, 0), m, m) == Some(tb));
    let a1 = then3(Prog::Clear(t0), Prog::Clear(t1), copy_prog(x, lhs));
    assert(run(a1, t, m, m) == Some(tb));
    // Move x into t1: t1 = a.
    assert(tb[x as int] == a && tb[t1 as int] == 0);
    lemma_move1(x, t1, 1, tb, m, m);
    let tc = tb.update(t1 as int, a).update(x as int, 0);
    assert(tb.update(t1 as int, wrap(tb[t1 as int] as int + 1 * a, m)).update(x as int, 0) =~= tc);
    lemma_in_range_update(tb, t1 as int, a, m);
    lemma_in_range_update(tb.update(t1 as int, a), x as int, 0, m);
    // Move y out of t1 into t0: t1 = a - b, t0 = b.
    assert(tc[y as int] == b && tc[t0 as int] == 0 && tc[t1 as int] == a);
    lemma_move2(y, t1, -1, t0, tc, m, m);
    let d = wrap(a + -1 * b, m);
    let td = tc.update(t1 as int, d).update(t0 as int, b).update(y as int, 0);
    assert(tc.update(t1 as int, wrap(tc[t1 as int] + -1 * b, m)).update(
        t0 as int,
        wrap(tc[t0 as int] as int + b, m),
    ).update(y as int, 0) =~= td);
    lemma_wrap_range(a + -1 * b, m);
    lemma_in_range_update(tc, t1 as int, d, m);
    lemma_in_range_update(tc.update(t1 as int, d), t0 as int, b, m);
    lemma_in_range_update(tc.update(t1 as int, d).update(t0 as int, b), y as int, 0, m);
    // Move t0 back into y.
    lemma_move1(t0, y, 1, td, m, m);
    let te = td.update(y as int, b).update(t0 as int, 0);
    assert(td.update(y as int, wrap(td[y as int] as int + 1 * td[t0 as int], m)).update(t0 as int, 0)
        =~= te);
    let a2i = Prog::Then(Box::new(move2(y, t1, -1, t0)), Box::new(move1(t0, y, 1)));
    assert(run(a2i, tc, m, m) == Some(te));
    let a2 = then3(move1(x, t1, 1), move2(y, t1, -1, t0), move1(t0, y, 1));
    assert(run(a2, tb, m, m) == Some(te));
    // x <- 1 once if t1 is nonzero.
    let differ = a != b;
    assert(differ <==> d != 0) by {
        if a == b {
            assert(a + -1 * b == 0);
        } else if a > b {
            lemma_small_mod((a - b) as nat, m);
        } else {
            lemma_small_mod((a - b + m) as nat, m);
            vstd::arithmetic::div_mod::lemma_mod_add_multiples_vanish(a + -1 * b, m as int);
        }
    }
    let b4 = Prog::Then(Box::new(inc(x)), Box::new(Prog::Clear(t1)));
    let l4 = Prog::Loop(t1, Box::new(b4));
    assert(te[x as int] == 0 && te[t1 as int] == d);
    let tf = if differ { te.update(x as int, 1).update(t1 as int, 0) } else { te };
    if differ {
        lemma_small_mod(1, m);
        let tx = te.update(x as int, 1);
        assert(run(inc(x), te, m, (m - 1) as nat) == Some(tx));
        assert(run(Prog::Clear(t1), tx, m, (m - 1) as nat) == Some(tf));
        assert(run(b4, te, m, (m - 1) as nat) == Some(tf));
        assert(run(l4, tf, m, (m - 1) as nat) == Some(tf));
    }
    assert(run(l4, te, m, m) == Some(tf));
    let rest = Prog::Then(Box::new(a2), Box::new(l4));
    assert(run(rest, tb, m, m) == Some(tf));
    assert(tf =~= t.update(x as int, if a != b { 1nat } else { 0nat }).update(t0 as int, 0).update(
        t1 as int,
        0,
    ).update(tmp as int, 0));
}

/// One round of multiplication: `y` is added into `x` (through `t0`, which
/// refills `y`), and the round counter `t1` goes down.
pub open spec fn times_round(x: nat, y: nat, t0: nat, t1: nat) -> Prog {
    then3(move2(y, x, 1, t0), move1(t0, y, 1), dec(t1))
}

/// The multiplication emitter: `x <- lhs * y`, through `MATH_TEMP0` and
/// `MATH_TEMP1`.
pub open spec fn times_prog(x: nat, lhs: nat, y: nat) -> Prog {
    let t0 = MATH_TEMP0 as nat;
    let t1 = MATH_TEMP1 as nat;
    Prog::Then(
        Box::new(then3(Prog::Clear(t0), Prog::Clear(t1), copy_prog(x, lhs))),
        Box::new(Prog::Then(
            Box::new(move1(x, t1, 1)),
            Box::new(Prog::Loop(t1, Box::new(times_round(x, y, t0, t1)))),
        )),
    )
}

/// The multiplication emitter's text is the rendering of `times_prog`.
#[verifier::spinoff_prover]
#[verifier::rlimit(100)]
pub proof fn lemma_render_times(x: nat, lhs: nat, y: nat)
    ensures
        render(times_prog(x, lhs, y)) == times_code(x, lhs, y),
{
    let t0 = MATH_TEMP0 as nat;
    let t1 = MATH_TEMP1 as nat;
    lemma_render_copy(x, lhs);
    lemma_render_move1(x, t1);
    lemma_render_move1(t0, y);
    lemma_render_move2(y, x, 1, t0);
    lemma_render_steps(t1);
    assert(add_signed_code(x, 1) == inc_code(x));
    assert(render(Prog::Clear(t0)) == zero_code(t0));
    assert(render(Prog::Clear(t1)) == zero_code(t1));
    let a1 = then3(Prog::Clear(t0), Prog::Clear(t1), copy_prog(x, lhs));
    let a1i = Prog::Then(Box::new(Prog::Clear(t1)), Box::new(copy_prog(x, lhs)));
    assert(render(a1i) == zero_code(t1) + copy_code(x, lhs));
    assert(render(a1) == zero_code(t0) + render(a1i));
    let ri = Prog::Then(Box::new(move1(t0, y, 1)), Box::new(dec(t1)));
    assert(render(ri) == render(move1(t0, y, 1)) + dec_code(t1));
    let round = times_round(x, y, t0, t1);
    assert(render(round) == render(move2(y, x, 1, t0)) + render(ri));
    let outer = Prog::Loop(t1, Box::new(round));
    assert(render(outer) == while_code(t1, render(round)));
    assert(render(round) =~= while_code(y, inc_code(x) + inc_code(t0) + dec_code(y)) + while_code(
        t0,
        inc_code(y) + dec_code(t0),
    ) + dec_code(t1));
    let rest = Prog::Then(Box::new(move1(x, t1, 1)), Box::new(outer));
    assert(render(rest) == render(move1(x, t1, 1)) + render(outer));
    assert(render(times_prog(x, lhs, y)) == render(a1) + render(rest));
    assert(render(times_prog(x, lhs, y)) =~= times_code(x, lhs, y));
}

/// Each round adds `y` into `x` once more, until the counter `t1` is spent.
proof fn lemma_times_rounds(x: nat, y: nat, t0: nat, t1: nat, t: Seq<nat>, m: nat, fuel: nat)
    requires
        x != y && x != t0 && x != t1 && y != t0 && y != t1 && t0 != t1,
        x < t.len() && y < t.len() && t0 < t.len() && t1 < t.len(),
        m > 1,
        in_range(t, m),
        t[t0 as int] == 0,
        fuel >= t[t1 as int] + m,
    ensures
        run(Prog::Loop(t1, Box::new(times_round(x, y, t0, t1))), t, m, fuel) == Some(
            t.update(x as int, wrap(t[x as int] as int + t[y as int] * t[t1 as int], m)).update(t1 as int, 0),
        ),
    decreases t[t1 as int],
{
    let c = t[t1 as int];
    let b = t[y as int];
    let outer = Prog::Loop(t1, Box::new(times_round(x, y, t0, t1)));
    lemma_small_mod(t[x as int], m);
    if c == 0 {
        assert(t.update(x as int, wrap(t[x as int] as int + b * 0, m)).update(t1 as int, 0) =~= t);
    } else {
        let f = (fuel - 1) as nat;
        lemma_move2(y, x, 1, t0, t, m, f);
        let xb = wrap(t[x as int] as int + 1 * b, m);
        lemma_small_mod(b, m);
        let ta = t.update(x as int, xb).update(t0 as int, b).update(y as int, 0);
        assert(t.update(x as int, wrap(t[x as int] as int + 1 * b, m)).update(
            t0 as int,
            wrap(t[t0 as int] as int + b, m),
        ).update(y as int, 0) =~= ta);
        lemma_wrap_range(t[x as int] as int + 1 * b, m);
        lemma_in_range_update(t, x as int, xb, m);
        lemma_in_range_update(t.update(x as int, xb), t0 as int, b, m);
        lemma_in_range_update(t.update(x as int, xb).update(t0 as int, b), y as int, 0, m);
        lemma_move1(t0, y, 1, ta, m, f);
        let tb = ta.update(y as int, b).update(t0 as int, 0);
        assert(ta.update(y as int, wrap(ta[y as int] as int + 1 * ta[t0 as int], m)).update(
            t0 as int,
            0,
        ) =~= tb);
        lemma_in_range_update(ta, y as int, b, m);
        lemma_in_range_update(ta.update(y as int, b), t0 as int, 0, m);
        lemma_small_mod((c - 1) as nat, m);
        let tc = tb.update(t1 as int, (c - 1) as nat);
        assert(run(dec(t1), tb, m, f) == Some(tc));
        lemma_in_range_update(tb, t1 as int, (c - 1) as nat, m);
        let ri = Prog::Then(Box::new(move1(t0, y, 1)), Box::new(dec(t1)));
        assert(run(ri, ta, m, f) == Some(tc));
        assert(run(times_round(x, y, t0, t1), t, m, f) == Some(tc));
        assert(tc[t1 as int] == c - 1 && tc[t0 as int] == 0 && tc[y as int] == b && tc[x as int] == xb);
        lemma_times_rounds(x, y, t0, t1, tc, m, f);
        lemma_wrap_step(t[x as int], b as int, c - 1, m);
        assert(b * (c - 1 + 1) == b * c);
        assert(tc.update(x as int, wrap(tc[x as int] as int + tc[y as int] * tc[t1 as int], m)).update(
            t1 as int,
            0,
        ) =~= t.update(x as int, wrap(t[x as int] as int + b * c, m)).update(t1 as int, 0)) by {
            assert(b as int * (c - 1) == b * (c - 1));
            assert(tc[y as int] * tc[t1 as int] == b * (c - 1));
        }
    }
}

/// Multiplication: `x` becomes `lhs * rhs` modulo `m`, both operands keep
/// their values, the scratch cells `MATH_TEMP0`, `MATH_TEMP1` and `SET_TEMP`
/// end at 0, and no other cell changes. The operands may coincide, but not
/// with `x` or the scratch cells.
#[verifier::rlimit(60)]
pub proof fn lemma_times_effect(x: nat, lhs: nat, rhs: nat, t: Seq<nat>, m: nat)
    requires
        x < t.len(),
        lhs < t.len(),
        rhs < t.len(),
        SET_TEMP < t.len(),
        MATH_TEMP1 < t.len(),
        x != SET_TEMP && x != MATH_TEMP0 && x != MATH_TEMP1 && x != lhs && x != rhs,
        lhs != SET_TEMP && lhs != MATH_TEMP0 && lhs != MATH_TEMP1,
        rhs != SET_TEMP && rhs != MATH_TEMP0 && rhs != MATH_TEMP1,
        m > 1,
        in_range(t, m),
    ensures
        run(times_prog(x, lhs, rhs), t, m, 2 * m) == Some(
            t.update(x as int, wrap(t[lhs as int] as int * t[rhs as int], m)).update(MATH_TEMP0 as int, 0).update(
                MATH_TEMP1 as int,
                0,
            ).update(SET_TEMP as int, 0),
        ),
{
    let t0 = MATH_TEMP0 as nat;
    let t1 = MATH_TEMP1 as nat;
    let tmp = SET_TEMP as nat;
    let y = rhs;
    let a = t[lhs as int];
    let b = t[y as int];
    let fuel = 2 * m;
    lemma_small_mod(0, m);
    lemma_small_mod(a, m);
    let ta = t.update(t0 as int, 0).update(t1 as int, 0);
    lemma_in_range_update(t, t0 as int, 0, m);
    lemma_in_range_update(t.update(t0 as int, 0), t1 as int, 0, m);
    assert(run(Prog::Clear(t0), t, m, fuel) == Some(t.update(t0 as int, 0)));
    assert(run(Prog::Clear(t1), t.update(t0 as int, 0), m, fuel) == Some(ta));
    assert(ta[lhs as int] == a);
    lemma_copy_effect(x, lhs, ta, m);
    lemma_run_fuel_copy(x, lhs, ta, m, fuel);
    let tb = ta.update(x as int, a).update(tmp as int, 0);
    lemma_in_range_update(ta, x as int, a, m);
    lemma_in_range_update(ta.update(x as int, a), tmp as int, 0, m);
    let a1i = Prog::Then(Box::new(Prog::Clear(t1)), Box::new(copy_prog(x, lhs)));
    assert(run(a1i, t.update(t0 as int, 0), m, fuel) == Some(tb));
    let a1 = then3(Prog::Clear(t0), Prog::Clear(t1), copy_prog(x, lhs));
    assert(run(a1, t, m, fuel) == Some(tb));
    assert(tb[x as int] == a && tb[t1 as int] == 0);
    lemma_move1(x, t1, 1, tb, m, fuel);
    let tc = tb.update(t1 as int, a).update(x as int, 0);
    assert(tb.update(t1 as int, wrap(tb[t1 as int] as int + 1 * a, m)).update(x as int, 0) =~= tc);
    lemma_in_range_update(tb, t1 as int, a, m);
    lemma_in_range_update(tb.update(t1 as int, a), x as int, 0, m);
    assert(tc[t0 as int] == 0 && tc[y as int] == b && tc[t1 as int] == a && tc[x as int] == 0);
    lemma_times_rounds(x, y, t0, t1, tc, m, fuel);
    let td = tc.update(x as int, wrap(0int + b * a, m)).update(t1 as int, 0);
    let outer = Prog::Loop(t1, Box::new(times_round(x, y, t0, t1)));
    let rest = Prog::Then(Box::new(move1(x, t1, 1)), Box::new(outer));
    assert(run(rest, tb, m, fuel) == Some(td));
    assert(b * a == a * b) by (nonlinear_arith);
    assert(td =~= t.update(x as int, wrap(a as int * b, m)).update(t0 as int, 0).update(t1 as int, 0).update(
        tmp as int,
        0,
    ));
}

} // verus!
