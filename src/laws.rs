//! Properties of the evaluation rules that hold for every input.
use crate::ast::{BinaryOperator, Expr, Stmt};
use crate::semantics::{
    abs, apply_operator, division_by_zero_message, eval, run, run_for, run_program, run_seq,
    run_while, trunc_div, type_mismatch, Fault, Machine, LOOP_LIMIT,
};
use crate::text::decimal;
use crate::value::{display, Val};
use vstd::prelude::*;

verus! {

/// Dividing two numbers truncates toward zero: for a nonnegative dividend
/// and a positive divisor it is the floor of the quotient, and changing the
/// sign of either operand changes the sign of the result. Dividing by zero
/// fails with a runtime error, and no other division of numbers fails but
/// the one whose quotient leaves the 64-bit range.
pub proof fn law_division(a: i64, b: i64)
    ensures
        b == 0 ==> apply_operator(BinaryOperator::Divide, Val::Number(a), Val::Number(b)) == Err::<
            Val,
            Fault,
        >(Fault::RuntimeError(division_by_zero_message())),
        b != 0 && !(a == i64::MIN && b == -1) ==> apply_operator(
            BinaryOperator::Divide,
            Val::Number(a),
            Val::Number(b),
        ) == Ok::<Val, Fault>(Val::Number(trunc_div(a as int, b as int) as i64)),
        a >= 0 && b > 0 ==> trunc_div(a as int, b as int) == a as int / b as int,
        b != 0 ==> trunc_div(-a, b as int) == -trunc_div(a as int, b as int),
        b != 0 ==> trunc_div(a as int, -b) == -trunc_div(a as int, b as int),
{
    if b != 0 {
        let q = abs(a as int) / abs(b as int);
        assert(abs(a as int) <= 0x8000_0000_0000_0000);
        assert(abs(b as int) >= 1);
        vstd::arithmetic::div_mod::lemma_div_is_ordered_by_denominator(
            abs(a as int),
            1,
            abs(b as int),
        );
        vstd::arithmetic::div_mod::lemma_div_pos_is_pos(abs(a as int), abs(b as int));
        if !(a == i64::MIN && b == -1) {
            if abs(b as int) == 1 {
                assert(q == abs(a as int));
            } else {
                vstd::arithmetic::div_mod::lemma_div_is_ordered_by_denominator(
                    abs(a as int),
                    2,
                    abs(b as int),
                );
                assert(abs(a as int) / 2 <= 0x4000_0000_0000_0000);
            }
        }
        if a == 0 {
            assert(trunc_div(-a, b as int) == 0);
        }
    }
}

/// `+` with a text operand joins texts: a text and a number give the text
/// followed by the number's decimal text, a number and a text the decimal
/// text followed by the text, two texts their concatenation. With no text
/// operand, `+` on anything but two numbers is a type error.
pub proof fn law_text_concatenation(x: Seq<char>, y: Seq<char>, n: i64, l: Val, r: Val)
    ensures
        apply_operator(BinaryOperator::Add, Val::String(x), Val::Number(n)) == Ok::<Val, Fault>(
            Val::String(x + decimal(n as int)),
        ),
        apply_operator(BinaryOperator::Add, Val::Number(n), Val::String(y)) == Ok::<Val, Fault>(
            Val::String(decimal(n as int) + y),
        ),
        apply_operator(BinaryOperator::Add, Val::String(x), Val::String(y)) == Ok::<Val, Fault>(
            Val::String(x + y),
        ),
        apply_operator(BinaryOperator::Add, Val::String(x), r) == Ok::<Val, Fault>(
            Val::String(x + display(r)),
        ),
        apply_operator(BinaryOperator::Add, l, Val::String(y)) == Ok::<Val, Fault>(
            Val::String(display(l) + y),
        ),
        !(l is String) && !(r is String) && !(l is Number && r is Number) ==> apply_operator(
            BinaryOperator::Add,
            l,
            r,
        ) == Err::<Val, Fault>(type_mismatch(BinaryOperator::Add, l, r)),
{
}

/// Whether statement `s` can bind `n`: it assigns `n` or loops over `n`
/// somewhere inside.
pub open spec fn binds(s: Stmt, n: Seq<char>) -> bool
    decreases s, 0int,
{
    match s {
        Stmt::Assignment(x, _) => x == n,
        Stmt::Block(ss, _) => binds_any(ss, n, 0),
        Stmt::While(_, b) => binds(*b, n),
        Stmt::ForLoop(v, _, _, b) => v == n || binds(*b, n),
        Stmt::If(_, t, e) => binds(*t, n) || match e {
            Some(b) => binds(*b, n),
            None => false,
        },
        Stmt::FunctionCall(_, _) => false,
    }
}

/// Whether any of `ss[i..]` can bind `n`.
pub open spec fn binds_any(ss: Seq<Stmt>, n: Seq<char>, i: int) -> bool
    decreases ss, ss.len() - i,
{
    if i < 0 || i >= ss.len() {
        false
    } else {
        binds(ss[i], n) || binds_any(ss, n, i + 1)
    }
}

/// Referring to a name that is not bound fails with `UndefinedVariable`.
pub proof fn law_unbound_identifier(env: Map<Seq<char>, Val>, n: Seq<char>)
    requires
        !env.contains_key(n),
    ensures
        eval(env, Expr::Identifier(n)) == Err::<Val, Fault>(Fault::UndefinedVariable(n)),
{
}

/// A run leaves unbound every name that its statements never assign and
/// never loop over, whichever branches it takes and however often it
/// repeats; so a reference to such a name fails with `UndefinedVariable`.
pub proof fn law_unassigned_stays_unbound(fuel: nat, m: Machine, s: Stmt, n: Seq<char>)
    requires
        !m.env.contains_key(n),
        !binds(s, n),
    ensures
        !run(fuel, m, s).0.env.contains_key(n),
        eval(run(fuel, m, s).0.env, Expr::Identifier(n)) == Err::<Val, Fault>(
            Fault::UndefinedVariable(n),
        ),
    decreases fuel, s, 0int,
{
    match s {
        Stmt::Block(ss, _) => lemma_seq_unbound(fuel, m, ss, 0, n),
        Stmt::While(c, b) => lemma_while_unbound(fuel, m, c, *b, n),
        Stmt::ForLoop(v, a, z, b) => {
            if let Ok(Val::Number(lo)) = eval(m.env, a) {
                if let Ok(Val::Number(hi)) = eval(m.env, z) {
                    lemma_for_unbound(fuel, m, v, lo as int, hi as int, *b, n);
                }
            }
        },
        Stmt::If(c, t, e) => {
            if let Ok(v) = eval(m.env, c) {
                law_unassigned_stays_unbound(fuel, m, *t, n);
                if let Some(b) = e {
                    law_unassigned_stays_unbound(fuel, m, *b, n);
                }
            }
        },
        _ => {},
    }
}

/// The same for a whole program: a name that no statement of it assigns or
/// loops over is never bound by running it, so every reference to it fails
/// with `UndefinedVariable`.
pub proof fn law_program_unassigned_stays_unbound(m: Machine, p: Seq<Stmt>, n: Seq<char>)
    requires
        !m.env.contains_key(n),
        !binds_any(p, n, 0),
    ensures
        !run_program(m, p).0.env.contains_key(n),
        eval(run_program(m, p).0.env, Expr::Identifier(n)) == Err::<Val, Fault>(
            Fault::UndefinedVariable(n),
        ),
{
    lemma_seq_unbound(LOOP_LIMIT as nat, m, p, 0, n);
}

proof fn lemma_seq_unbound(fuel: nat, m: Machine, ss: Seq<Stmt>, i: int, n: Seq<char>)
    requires
        !m.env.contains_key(n),
        !binds_any(ss, n, i),
    ensures
        !run_seq(fuel, m, ss, i).0.env.contains_key(n),
    decreases fuel, ss, ss.len() - i,
{
    if 0 <= i < ss.len() {
        law_unassigned_stays_unbound(fuel, m, ss[i], n);
        let (m1, f) = run(fuel, m, ss[i]);
        if f is None {
            lemma_seq_unbound(fuel, m1, ss, i + 1, n);
        }
    }
}

proof fn lemma_while_unbound(fuel: nat, m: Machine, c: Expr, b: Stmt, n: Seq<char>)
    requires
        !m.env.contains_key(n),
        !binds(b, n),
    ensures
        !run_while(fuel, m, c, b).0.env.contains_key(n),
    decreases fuel, b, 0int,
{
    if let Ok(v) = eval(m.env, c) {
        if fuel > 0 {
            law_unassigned_stays_unbound((fuel - 1) as nat, m, b, n);
            let (m1, f) = run((fuel - 1) as nat, m, b);
            if f is None {
                lemma_while_unbound((fuel - 1) as nat, m1, c, b, n);
            }
        }
    }
}

proof fn lemma_for_unbound(
    fuel: nat,
    m: Machine,
    v: Seq<char>,
    i: int,
    hi: int,
    b: Stmt,
    n: Seq<char>,
)
    requires
        !m.env.contains_key(n),
        v != n,
        !binds(b, n),
    ensures
        !run_for(fuel, m, v, i, hi, b).0.env.contains_key(n),
    decreases fuel, b, hi - i + 1,
{
    if i <= hi {
        let m1 = Machine { env: m.env.insert(v, Val::Number(i as i64)), out: m.out };
        law_unassigned_stays_unbound(fuel, m1, b, n);
        let (m2, f) = run(fuel, m1, b);
        if f is None && i != hi {
            lemma_for_unbound(fuel, m2, v, i + 1, hi, b, n);
        }
    }
}

/// Runs body `b` once for each number of `ks` in order, with `v` bound to it,
/// stopping at the first failure.
pub open spec fn run_each(fuel: nat, m: Machine, v: Seq<char>, ks: Seq<int>, b: Stmt) -> (
    Machine,
    Option<Fault>,
)
    decreases ks.len(),
{
    if ks.len() == 0 {
        (m, None)
    } else {
        let m1 = Machine { env: m.env.insert(v, Val::Number(ks[0] as i64)), out: m.out };
        let (m2, f) = run(fuel, m1, b);
        if f is Some {
            (m2, f)
        } else {
            run_each(fuel, m2, v, ks.drop_first(), b)
        }
    }
}

/// The numbers `lo, lo + 1, ..., hi`; empty when `hi < lo`.
pub open spec fn inclusive_range(lo: int, hi: int) -> Seq<int> {
    Seq::new(if hi < lo { 0 } else { (hi - lo + 1) as nat }, |k: int| lo + k)
}

/// A `for` loop whose bounds evaluate to numbers `lo` and `hi` runs its body
/// once for each of `lo, lo + 1, ..., hi` in order, `hi - lo + 1` times in
/// all, with the loop variable bound to that number; when `hi < lo` it runs
/// the body no time and changes nothing.
pub proof fn law_for_loop(
    fuel: nat,
    m: Machine,
    v: Seq<char>,
    a: Expr,
    z: Expr,
    b: Stmt,
    lo: i64,
    hi: i64,
)
    requires
        eval(m.env, a) == Ok::<Val, Fault>(Val::Number(lo)),
        eval(m.env, z) == Ok::<Val, Fault>(Val::Number(hi)),
    ensures
        run(fuel, m, Stmt::ForLoop(v, a, z, Box::new(b))) == run_each(
            fuel,
            m,
            v,
            inclusive_range(lo as int, hi as int),
            b,
        ),
        lo <= hi ==> inclusive_range(lo as int, hi as int).len() == hi - lo + 1,
        hi < lo ==> run(fuel, m, Stmt::ForLoop(v, a, z, Box::new(b))) == (m, None::<Fault>),
{
    lemma_for_each(fuel, m, v, lo as int, hi as int, b);
}

proof fn lemma_for_each(fuel: nat, m: Machine, v: Seq<char>, i: int, hi: int, b: Stmt)
    requires
        i64::MIN <= i,
        hi <= i64::MAX,
    ensures
        run_for(fuel, m, v, i, hi, b) == run_each(fuel, m, v, inclusive_range(i, hi), b),
    decreases hi - i + 1,
{
    let ks = inclusive_range(i, hi);
    if i <= hi {
        assert(ks[0] == i);
        let m1 = Machine { env: m.env.insert(v, Val::Number(i as i64)), out: m.out };
        let (m2, f) = run(fuel, m1, b);
        if f is Some {
        } else if i == hi {
            assert(ks.drop_first() =~= Seq::<int>::empty());
            assert(run_each(fuel, m2, v, ks.drop_first(), b) == (m2, None::<Fault>));
        } else {
            assert(ks.drop_first() =~= inclusive_range(i + 1, hi));
            lemma_for_each(fuel, m2, v, i + 1, hi, b);
        }
    } else {
        assert(ks.len() == 0);
    }
}

} // verus!
