//! The meaning of a program: how expressions evaluate and how statements
//! change the bindings and the printed output.
use crate::ast::{BinaryOperator, Expr, Stmt};
use crate::value::{display, kind_name, truthy, Val};
use vstd::prelude::*;

verus! {

/// A failure of a run, as a mathematical value.
pub ghost enum Fault {
    UndefinedVariable(Seq<char>),
    TypeError(Seq<char>),
    RuntimeError(Seq<char>),
}

/// What a run has built so far: the bindings and the text printed.
pub ghost struct Machine {
    pub env: Map<Seq<char>, Val>,
    pub out: Seq<char>,
}

/// How many times, at most, one `while` loop repeats its body in a run.
pub const LOOP_LIMIT: u64 = 0xffff_ffff_ffff_ffff;

pub open spec fn abs(a: int) -> int {
    if a < 0 {
        -a
    } else {
        a
    }
}

/// Integer division that truncates toward zero.
pub open spec fn trunc_div(a: int, b: int) -> int {
    if (a < 0) == (b < 0) {
        abs(a) / abs(b)
    } else {
        -(abs(a) / abs(b))
    }
}

pub open spec fn overflow_message() -> Seq<char> {
    "Integer overflow"@
}

pub open spec fn division_by_zero_message() -> Seq<char> {
    "Division by zero"@
}

/// A number result, or a failure when it leaves the 64-bit range.
pub open spec fn number_result(n: int) -> Result<Val, Fault> {
    if i64::MIN <= n <= i64::MAX {
        Ok(Val::Number(n as i64))
    } else {
        Err(Fault::RuntimeError(overflow_message()))
    }
}

pub open spec fn operator_name(op: BinaryOperator) -> Seq<char> {
    match op {
        BinaryOperator::Add => "Add"@,
        BinaryOperator::Subtract => "Subtract"@,
        BinaryOperator::Multiply => "Multiply"@,
        BinaryOperator::Divide => "Divide"@,
        BinaryOperator::Equals => "Equals"@,
        BinaryOperator::GreaterThan => "GreaterThan"@,
        BinaryOperator::GreaterThanEquals => "GreaterThanEquals"@,
        BinaryOperator::LessThan => "LessThan"@,
        BinaryOperator::LessThanEquals => "LessThanEquals"@,
        BinaryOperator::And => "And"@,
        BinaryOperator::Or => "Or"@,
    }
}

/// The failure of an operator applied to operands it is not defined for.
pub open spec fn type_mismatch(op: BinaryOperator, l: Val, r: Val) -> Fault {
    Fault::TypeError(
        "Cannot apply operator "@ + operator_name(op) + " to "@ + kind_name(l) + " and "@
            + kind_name(r),
    )
}

/// A binary operator applied to two values. Arithmetic and comparisons take
/// two numbers; `+` also joins texts, turning a non-text operand into its
/// display text; every other pair is a type error.
pub open spec fn apply_operator(op: BinaryOperator, l: Val, r: Val) -> Result<Val, Fault> {
    match (l, r) {
        (Val::Number(a), Val::Number(b)) => match op {
            BinaryOperator::Add => number_result(a + b),
            BinaryOperator::Subtract => number_result(a - b),
            BinaryOperator::Multiply => number_result(a * b),
            BinaryOperator::Divide => if b == 0 {
                Err(Fault::RuntimeError(division_by_zero_message()))
            } else {
                number_result(trunc_div(a as int, b as int))
            },
            BinaryOperator::Equals => Ok(Val::Boolean(a == b)),
            BinaryOperator::GreaterThan => Ok(Val::Boolean(a > b)),
            BinaryOperator::GreaterThanEquals => Ok(Val::Boolean(a >= b)),
            BinaryOperator::LessThan => Ok(Val::Boolean(a < b)),
            BinaryOperator::LessThanEquals => Ok(Val::Boolean(a <= b)),
            _ => Err(type_mismatch(op, l, r)),
        },
        (Val::String(x), Val::String(y)) => if op == BinaryOperator::Add {
            Ok(Val::String(x + y))
        } else {
            Err(type_mismatch(op, l, r))
        },
        (Val::String(x), _) => if op == BinaryOperator::Add {
            Ok(Val::String(x + display(r)))
        } else {
            Err(type_mismatch(op, l, r))
        },
        (_, Val::String(y)) => if op == BinaryOperator::Add {
            Ok(Val::String(display(l) + y))
        } else {
            Err(type_mismatch(op, l, r))
        },
        _ => Err(type_mismatch(op, l, r)),
    }
}

pub open spec fn call_in_expression_message(name: Seq<char>) -> Seq<char> {
    "Function calls not supported in expressions: "@ + name
}

/// The value of an expression under the bindings `env`; operands are
/// evaluated left to right and the first failure ends the evaluation.
pub open spec fn eval(env: Map<Seq<char>, Val>, e: Expr) -> Result<Val, Fault>
    decreases e,
{
    match e {
        Expr::Identifier(n) => if env.contains_key(n) {
            Ok(env[n])
        } else {
            Err(Fault::UndefinedVariable(n))
        },
        Expr::Number(n) => Ok(Val::Number(n)),
        Expr::String(s) => Ok(Val::String(s)),
        Expr::BinaryOp(l, op, r) => match eval(env, *l) {
            Err(f) => Err(f),
            Ok(lv) => match eval(env, *r) {
                Err(f) => Err(f),
                Ok(rv) => apply_operator(op, lv, rv),
            },
        },
        Expr::FunctionCall(name, _) => Err(Fault::RuntimeError(call_in_expression_message(name))),
    }
}

/// The values of a list of expressions, left to right, up to the first failure.
pub open spec fn eval_all(env: Map<Seq<char>, Val>, es: Seq<Expr>) -> Result<Seq<Val>, Fault>
    decreases es.len(),
{
    if es.len() == 0 {
        Ok(Seq::empty())
    } else {
        match eval_all(env, es.drop_last()) {
            Err(f) => Err(f),
            Ok(vs) => match eval(env, es.last()) {
                Err(f) => Err(f),
                Ok(v) => Ok(vs.push(v)),
            },
        }
    }
}

/// The display texts of values joined by single spaces.
pub open spec fn join_display(vs: Seq<Val>) -> Seq<char>
    decreases vs.len(),
{
    if vs.len() == 0 {
        Seq::empty()
    } else if vs.len() == 1 {
        display(vs[0])
    } else {
        join_display(vs.drop_last()) + seq![' '] + display(vs.last())
    }
}

pub open spec fn unknown_function_message(name: Seq<char>) -> Seq<char> {
    "Unknown function: "@ + name
}

pub open spec fn loop_limit_message() -> Seq<char> {
    "Loop iteration limit reached"@
}

pub open spec fn for_start_message() -> Seq<char> {
    "For loop start value must be a number"@
}

pub open spec fn for_end_message() -> Seq<char> {
    "For loop end value must be a number"@
}

/// Runs statement `s` from `m`: the machine it ends in, and the failure
/// that stopped it, if any. A `while` loop repeats its body at most `fuel`
/// times, and each repetition hands its body one less.
pub open spec fn run(fuel: nat, m: Machine, s: Stmt) -> (Machine, Option<Fault>)
    decreases fuel, s, 0int,
{
    match s {
        Stmt::Assignment(n, e) => match eval(m.env, e) {
            Ok(v) => (Machine { env: m.env.insert(n, v), out: m.out }, None),
            Err(f) => (m, Some(f)),
        },
        Stmt::Block(ss, _) => run_seq(fuel, m, ss, 0),
        Stmt::While(c, b) => run_while(fuel, m, c, *b),
        Stmt::ForLoop(v, a, z, b) => match eval(m.env, a) {
            Err(f) => (m, Some(f)),
            Ok(Val::Number(lo)) => match eval(m.env, z) {
                Err(f) => (m, Some(f)),
                Ok(Val::Number(hi)) => run_for(fuel, m, v, lo as int, hi as int, *b),
                Ok(_) => (m, Some(Fault::TypeError(for_end_message()))),
            },
            Ok(_) => (m, Some(Fault::TypeError(for_start_message()))),
        },
        Stmt::If(c, t, e) => match eval(m.env, c) {
            Err(f) => (m, Some(f)),
            Ok(v) => if truthy(v) {
                run(fuel, m, *t)
            } else {
                match e {
                    Some(b) => run(fuel, m, *b),
                    None => (m, None),
                }
            },
        },
        Stmt::FunctionCall(name, args) => if name == "print"@ {
            match eval_all(m.env, args) {
                Err(f) => (m, Some(f)),
                Ok(vs) => (
                    Machine { env: m.env, out: m.out + join_display(vs) + seq!['\n'] },
                    None,
                ),
            }
        } else {
            (m, Some(Fault::RuntimeError(unknown_function_message(name))))
        },
    }
}

/// Runs `ss[i..]` in order, stopping at the first failure.
pub open spec fn run_seq(fuel: nat, m: Machine, ss: Seq<Stmt>, i: int) -> (Machine, Option<Fault>)
    decreases fuel, ss, ss.len() - i,
{
    if i < 0 || i >= ss.len() {
        (m, None)
    } else {
        let (m1, f) = run(fuel, m, ss[i]);
        if f is Some {
            (m1, f)
        } else {
            run_seq(fuel, m1, ss, i + 1)
        }
    }
}

/// Runs `while c` with body `b`.
pub open spec fn run_while(fuel: nat, m: Machine, c: Expr, b: Stmt) -> (Machine, Option<Fault>)
    decreases fuel, b, 0int,
{
    match eval(m.env, c) {
        Err(f) => (m, Some(f)),
        Ok(v) => if !truthy(v) {
            (m, None)
        } else if fuel == 0 {
            (m, Some(Fault::RuntimeError(loop_limit_message())))
        } else {
            let (m1, f) = run((fuel - 1) as nat, m, b);
            if f is Some {
                (m1, f)
            } else {
                run_while((fuel - 1) as nat, m1, c, b)
            }
        },
    }
}

/// Runs body `b` with `v` bound to each of `i, i + 1, ..., hi` in turn.
pub open spec fn run_for(fuel: nat, m: Machine, v: Seq<char>, i: int, hi: int, b: Stmt) -> (
    Machine,
    Option<Fault>,
)
    decreases fuel, b, hi - i + 1,
{
    if i > hi {
        (m, None)
    } else {
        let m1 = Machine { env: m.env.insert(v, Val::Number(i as i64)), out: m.out };
        let (m2, f) = run(fuel, m1, b);
        if f is Some {
            (m2, f)
        } else if i == hi {
            (m2, None)
        } else {
            run_for(fuel, m2, v, i + 1, hi, b)
        }
    }
}

/// Runs the top-level statements of a program in order.
pub open spec fn run_program(m: Machine, p: Seq<Stmt>) -> (Machine, Option<Fault>) {
    run_seq(LOOP_LIMIT as nat, m, p, 0)
}

} // verus!
