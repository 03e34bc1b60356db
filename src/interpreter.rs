//! Tree-walking evaluation of a program against the bindings of one run.
use crate::ast::{expr_view, exprs_view, stmt_view, BinaryOperator, Expr, Expression, Program, Statement};
use crate::environment::Environment;
use crate::semantics::{
    apply_operator, eval, eval_all, join_display, operator_name, run, run_for, run_program,
    run_seq, run_while, type_mismatch, Fault, Machine, LOOP_LIMIT,
};
use crate::text::push_str;
use crate::value::{display, Val, Value};
use vstd::prelude::*;
use vstd::string::*;

verus! {

#[derive(Clone, Debug, PartialEq)]
pub enum InterpreterError {
    UndefinedVariable { name: String },
    TypeError { message: String },
    RuntimeError { message: String },
}

impl View for InterpreterError {
    type V = Fault;

    open spec fn view(&self) -> Fault {
        match self {
            InterpreterError::UndefinedVariable { name } => Fault::UndefinedVariable(name@),
            InterpreterError::TypeError { message } => Fault::TypeError(message@),
            InterpreterError::RuntimeError { message } => Fault::RuntimeError(message@),
        }
    }
}

/// The failure that a result reports, if any.
pub open spec fn fault_of<T>(r: Result<T, InterpreterError>) -> Option<Fault> {
    match r {
        Ok(_) => None,
        Err(e) => Some(e@),
    }
}

/// A value result as a mathematical value.
pub open spec fn value_result(r: Result<Value, InterpreterError>) -> Result<Val, Fault> {
    match r {
        Ok(v) => Ok(v@),
        Err(e) => Err(e@),
    }
}

fn runtime_error(text: &str) -> (e: InterpreterError)
    ensures
        e@ == Fault::RuntimeError(text@),
{
    InterpreterError::RuntimeError { message: String::from_str(text) }
}

fn operator_text(op: BinaryOperator) -> (r: &'static str)
    ensures
        r@ == operator_name(op),
{
    match op {
        BinaryOperator::Add => "Add",
        BinaryOperator::Subtract => "Subtract",
        BinaryOperator::Multiply => "Multiply",
        BinaryOperator::Divide => "Divide",
        BinaryOperator::Equals => "Equals",
        BinaryOperator::GreaterThan => "GreaterThan",
        BinaryOperator::GreaterThanEquals => "GreaterThanEquals",
        BinaryOperator::LessThan => "LessThan",
        BinaryOperator::LessThanEquals => "LessThanEquals",
        BinaryOperator::And => "And",
        BinaryOperator::Or => "Or",
    }
}

fn mismatch_error(op: BinaryOperator, l: &Value, r: &Value) -> (e: InterpreterError)
    ensures
        e@ == type_mismatch(op, l@, r@),
{
    let mut m = String::from_str("Cannot apply operator ");
    push_str(&mut m, operator_text(op));
    push_str(&mut m, " to ");
    push_str(&mut m, l.kind_name());
    push_str(&mut m, " and ");
    push_str(&mut m, r.kind_name());
    InterpreterError::TypeError { message: m }
}

fn number_result(n: i128) -> (r: Result<Value, InterpreterError>)
    ensures
        value_result(r) == crate::semantics::number_result(n as int),
{
    if n < i64::MIN as i128 || n > i64::MAX as i128 {
        Err(runtime_error("Integer overflow"))
    } else {
        Ok(Value::Number(n as i64))
    }
}

fn magnitude(a: i64) -> (r: u128)
    ensures
        r as int == crate::semantics::abs(a as int),
{
    if a < 0 {
        (0i128 - a as i128) as u128
    } else {
        a as u128
    }
}

/// Applies a binary operator to two values.
pub fn apply_binary(op: BinaryOperator, l: &Value, r: &Value) -> (res: Result<Value, InterpreterError>)
    ensures
        value_result(res) == apply_operator(op, l@, r@),
{
    match (l, r) {
        (Value::Number(a), Value::Number(b)) => {
            let a = *a;
            let b = *b;
            match op {
                BinaryOperator::Add => number_result(a as i128 + b as i128),
                BinaryOperator::Subtract => number_result(a as i128 - b as i128),
                BinaryOperator::Multiply => {
                    let x = a as i128;
                    let y = b as i128;
                    assert(-0x4000_0000_0000_0000_0000_0000_0000_0000 <= x * y
                        <= 0x4000_0000_0000_0000_0000_0000_0000_0000) by (nonlinear_arith)
                        requires
                            -0x8000_0000_0000_0000 <= x <= 0x7fff_ffff_ffff_ffff,
                            -0x8000_0000_0000_0000 <= y <= 0x7fff_ffff_ffff_ffff,
                    ;
                    number_result(x * y)
                },
                BinaryOperator::Divide => {
                    if b == 0 {
                        Err(runtime_error("Division by zero"))
                    } else {
                        let ma = magnitude(a);
                        let mb = magnitude(b);
                        let q = ma / mb;
                        assert(q <= 0x8000_0000_0000_0000) by {
                            vstd::arithmetic::div_mod::lemma_div_is_ordered_by_denominator(
                                ma as int,
                                1,
                                mb as int,
                            );
                        }
                        if (a < 0) == (b < 0) {
                            number_result(q as i128)
                        } else {
                            number_result(0 - q as i128)
                        }
                    }
                },
                BinaryOperator::Equals => Ok(Value::Boolean(a == b)),
                BinaryOperator::GreaterThan => Ok(Value::Boolean(a > b)),
                BinaryOperator::GreaterThanEquals => Ok(Value::Boolean(a >= b)),
                BinaryOperator::LessThan => Ok(Value::Boolean(a < b)),
                BinaryOperator::LessThanEquals => Ok(Value::Boolean(a <= b)),
                _ => Err(mismatch_error(op, l, r)),
            }
        },
        (Value::String(x), _) => {
            if op == BinaryOperator::Add {
                let mut s = x.clone();
                r.write_display(&mut s);
                Ok(Value::String(s))
            } else {
                Err(mismatch_error(op, l, r))
            }
        },
        (_, Value::String(y)) => {
            if op == BinaryOperator::Add {
                let mut s = l.display();
                push_str(&mut s, y.as_str());
                Ok(Value::String(s))
            } else {
                Err(mismatch_error(op, l, r))
            }
        },
        _ => Err(mismatch_error(op, l, r)),
    }
}

/// Executes programs against one binding table. What `print` writes is
/// collected in order, for the caller to send to standard output.
pub struct Interpreter {
    environment: Environment,
    output: String,
    source: String,
}

impl View for Interpreter {
    type V = Machine;

    closed spec fn view(&self) -> Machine {
        Machine { env: self.environment@, out: self.output@ }
    }
}

impl Interpreter {
    pub closed spec fn wf(&self) -> bool {
        self.environment.wf()
    }

    /// An interpreter with no bindings and no output; `source` is the program
    /// text, kept for diagnostics.
    pub fn new(source: String) -> (r: Interpreter)
        ensures
            r.wf(),
            r@.env == Map::<Seq<char>, Val>::empty(),
            r@.out == Seq::<char>::empty(),
            r.source()@ == source@,
    {
        Interpreter { environment: Environment::new(), output: String::new(), source }
    }

    pub closed spec fn source(&self) -> String {
        self.source
    }

    /// The program text given to `new`.
    pub fn source_text(&self) -> (r: &String)
        ensures
            r@ == self.source()@,
    {
        &self.source
    }

    /// The value bound to `name`, if any.
    pub fn variable(&self, name: &String) -> (r: Option<Value>)
        requires
            self.wf(),
        ensures
            match r {
                Some(v) => self@.env.contains_key(name@) && v@ == self@.env[name@],
                None => !self@.env.contains_key(name@),
            },
    {
        self.environment.get(name)
    }

    /// Everything that `print` has written so far.
    pub fn output(&self) -> (r: &String)
        ensures
            r@ == self@.out,
    {
        &self.output
    }

    /// Runs every top-level statement in order, stopping at the first failure.
    pub fn interpret(&mut self, program: Program) -> (r: Result<(), InterpreterError>)
        requires
            old(self).wf(),
        ensures
            final(self).wf(),
            (final(self)@, fault_of(r)) == run_program(old(self)@, program@),
    {
        let n = program.statements.len();
        let mut i: usize = 0;
        while i < n
            invariant
                self.wf(),
                n == program.statements.len(),
                i <= n,
                run_seq(LOOP_LIMIT as nat, self@, program@, i as int) == run_program(
                    old(self)@,
                    program@,
                ),
            decreases n - i,
        {
            match self.execute_statement(&program.statements[i], LOOP_LIMIT) {
                Ok(()) => {},
                Err(e) => {
                    return Err(e);
                },
            }
            i = i + 1;
        }
        Ok(())
    }

    /// The value of an expression under the current bindings.
    pub fn evaluate_expression(&self, expression: &Expression) -> (r: Result<Value, InterpreterError>)
        requires
            self.wf(),
        ensures
            value_result(r) == eval(self@.env, expr_view(*expression)),
        decreases expression,
    {
        match expression {
            Expression::Number(n) => Ok(Value::Number(*n)),
            Expression::String(s) => Ok(Value::String(s.clone())),
            Expression::Identifier(name) => match self.environment.get(name) {
                Some(v) => Ok(v),
                None => Err(InterpreterError::UndefinedVariable { name: name.clone() }),
            },
            Expression::BinaryOp { left, operator, right } => {
                let l = match self.evaluate_expression(left) {
                    Ok(v) => v,
                    Err(e) => {
                        return Err(e);
                    },
                };
                let r = match self.evaluate_expression(right) {
                    Ok(v) => v,
                    Err(e) => {
                        return Err(e);
                    },
                };
                apply_binary(*operator, &l, &r)
            },
            Expression::FunctionCall { name, arguments: _ } => {
                let mut m = String::from_str("Function calls not supported in expressions: ");
                push_str(&mut m, name.as_str());
                Err(InterpreterError::RuntimeError { message: m })
            },
        }
    }

    fn print_call(&mut self, arguments: &Vec<Expression>) -> (r: Result<(), InterpreterError>)
        requires
            old(self).wf(),
        ensures
            final(self).wf(),
            (final(self)@, fault_of(r)) == match eval_all(old(self)@.env, exprs_view(arguments@)) {
                Err(f) => (old(self)@, Some(f)),
                Ok(vs) => (
                    Machine {
                        env: old(self)@.env,
                        out: old(self)@.out + join_display(vs) + seq!['\n'],
                    },
                    None,
                ),
            },
    {
        let ghost args = exprs_view(arguments@);
        let mut values: Vec<Value> = Vec::new();
        let mut i: usize = 0;
        proof {
            assert(args.subrange(0, 0) =~= Seq::<Expr>::empty());
            assert(values@.map_values(|v: Value| v@) =~= Seq::<Val>::empty());
        }
        while i < arguments.len()
            invariant
                self.wf(),
                self@ == old(self)@,
                i <= arguments.len(),
                args == exprs_view(arguments@),
                eval_all(self@.env, args.subrange(0, i as int)) == Ok::<Seq<Val>, Fault>(
                    values@.map_values(|v: Value| v@),
                ),
            decreases arguments.len() - i,
        {
            let v = match self.evaluate_expression(&arguments[i]) {
                Ok(v) => v,
                Err(e) => {
                    proof {
                        lemma_eval_all_prefix_fails(self@.env, args, i as int);
                    }
                    return Err(e);
                },
            };
            proof {
                assert(args.subrange(0, i + 1).drop_last() =~= args.subrange(0, i as int));
            }
            let ghost before = values@;
            values.push(v);
            proof {
                assert(values@.map_values(|v: Value| v@) =~= before.map_values(|v: Value| v@).push(
                    v@,
                ));
            }
            i = i + 1;
        }
        proof {
            assert(args.subrange(0, i as int) =~= args);
        }
        let ghost vs = values@.map_values(|v: Value| v@);
        let mut j: usize = 0;
        while j < values.len()
            invariant
                self.wf(),
                self@.env == old(self)@.env,
                j <= values.len(),
                vs == values@.map_values(|v: Value| v@),
                self@.out == old(self)@.out + join_display(vs.subrange(0, j as int)),
            decreases values.len() - j,
        {
            if j > 0 {
                push_str(&mut self.output, " ");
                proof {
                    reveal_strlit(" ");
                }
            }
            values[j].write_display(&mut self.output);
            proof {
                let t = vs.subrange(0, j + 1);
                assert(t.drop_last() =~= vs.subrange(0, j as int));
                assert(t.last() == values@[j as int]@);
                if j == 0 {
                    assert(join_display(t) == display(t[0]));
                    assert(self@.out =~= old(self)@.out + join_display(t));
                } else {
                    assert(join_display(t) == join_display(vs.subrange(0, j as int)) + seq![' ']
                        + display(t.last()));
                    assert(self@.out =~= old(self)@.out + join_display(t));
                }
            }
            j = j + 1;
        }
        push_str(&mut self.output, "\n");
        proof {
            reveal_strlit("\n");
            assert(vs.subrange(0, j as int) =~= vs);
            assert(eval_all(old(self)@.env, args) == Ok::<Seq<Val>, Fault>(vs));
            assert(self@.out =~= old(self)@.out + join_display(vs) + seq!['\n']);
        }
        Ok(())
    }

    /// Executes one statement; a `while` loop inside repeats its body at most
    /// `fuel` times.
    #[verifier::loop_isolation(false)]
    pub fn execute_statement(&mut self, statement: &Statement, fuel: u64) -> (r: Result<(), InterpreterError>)
        requires
            old(self).wf(),
        ensures
            final(self).wf(),
            (final(self)@, fault_of(r)) == run(fuel as nat, old(self)@, stmt_view(*statement)),
        decreases fuel, statement,
    {
        match statement {
            Statement::Assignment { identifier, expression } => {
                match self.evaluate_expression(expression) {
                    Ok(v) => {
                        self.environment.define(identifier.clone(), v);
                        Ok(())
                    },
                    Err(e) => Err(e),
                }
            },
            Statement::Block { statements, indentation: _ } => {
                let ghost ss = stmt_view(*statement)->Block_0;
                let mut i: usize = 0;
                while i < statements.len()
                    invariant
                        self.wf(),
                        i <= statements.len(),
                        ss == stmt_view(*statement)->Block_0,
                        ss.len() == statements.len(),
                        forall|k: int| 0 <= k < ss.len() ==> ss[k] == stmt_view(#[trigger] statements@[k]),
                        run_seq(fuel as nat, self@, ss, i as int) == run(
                            fuel as nat,
                            old(self)@,
                            stmt_view(*statement),
                        ),
                    decreases statements.len() - i,
                {
                    match self.execute_statement(&statements[i], fuel) {
                        Ok(()) => {},
                        Err(e) => {
                            return Err(e);
                        },
                    }
                    i = i + 1;
                }
                Ok(())
            },
            Statement::While { condition, body } => {
                let ghost c = expr_view(**condition);
                let ghost b = stmt_view(**body);
                let mut f = fuel;
                loop
                    invariant
                        self.wf(),
                        c == expr_view(**condition),
                        b == stmt_view(**body),
                        f <= fuel,
                        run_while(f as nat, self@, c, b) == run(
                            fuel as nat,
                            old(self)@,
                            stmt_view(*statement),
                        ),
                    decreases f,
                {
                    let v = match self.evaluate_expression(condition) {
                        Ok(v) => v,
                        Err(e) => {
                            return Err(e);
                        },
                    };
                    if !v.is_truthy() {
                        return Ok(());
                    }
                    if f == 0 {
                        return Err(runtime_error("Loop iteration limit reached"));
                    }
                    f = f - 1;
                    match self.execute_statement(body, f) {
                        Ok(()) => {},
                        Err(e) => {
                            return Err(e);
                        },
                    }
                }
            },
            Statement::ForLoop { variable, start_value, end_value, body } => {
                let lo = match self.evaluate_expression(start_value) {
                    Ok(Value::Number(n)) => n,
                    Ok(_) => {
                        return Err(InterpreterError::TypeError {
                            message: String::from_str("For loop start value must be a number"),
                        });
                    },
                    Err(e) => {
                        return Err(e);
                    },
                };
                let hi = match self.evaluate_expression(end_value) {
                    Ok(Value::Number(n)) => n,
                    Ok(_) => {
                        return Err(InterpreterError::TypeError {
                            message: String::from_str("For loop end value must be a number"),
                        });
                    },
                    Err(e) => {
                        return Err(e);
                    },
                };
                if lo > hi {
                    proof {
                        assert(run_for(fuel as nat, self@, variable@, lo as int, hi as int, stmt_view(**body))
                            == (self@, None::<Fault>));
                    }
                    return Ok(());
                }
                let ghost b = stmt_view(**body);
                let mut i = lo;
                loop
                    invariant
                        self.wf(),
                        b == stmt_view(**body),
                        lo <= i <= hi,
                        run_for(fuel as nat, self@, variable@, i as int, hi as int, b) == run(
                            fuel as nat,
                            old(self)@,
                            stmt_view(*statement),
                        ),
                    decreases hi - i,
                {
                    self.environment.define(variable.clone(), Value::Number(i));
                    match self.execute_statement(body, fuel) {
                        Ok(()) => {},
                        Err(e) => {
                            return Err(e);
                        },
                    }
                    if i == hi {
                        return Ok(());
                    }
                    i = i + 1;
                }
            },
            Statement::If { condition, then_branch, else_branch } => {
                let v = match self.evaluate_expression(condition) {
                    Ok(v) => v,
                    Err(e) => {
                        return Err(e);
                    },
                };
                if v.is_truthy() {
                    self.execute_statement(then_branch, fuel)
                } else {
                    match else_branch {
                        Some(b) => self.execute_statement(b, fuel),
                        None => Ok(()),
                    }
                }
            },
            Statement::FunctionCall { name, arguments } => {
                if *name == String::from_str("print") {
                    self.print_call(arguments)
                } else {
                    let mut m = String::from_str("Unknown function: ");
                    push_str(&mut m, name.as_str());
                    Err(InterpreterError::RuntimeError { message: m })
                }
            },
        }
    }
}

/// When evaluating `es[i]` fails, evaluating the whole list fails with the
/// same failure, provided the first `i` succeed.
proof fn lemma_eval_all_prefix_fails(env: Map<Seq<char>, Val>, es: Seq<Expr>, i: int)
    requires
        0 <= i < es.len(),
        eval_all(env, es.subrange(0, i)) is Ok,
        eval(env, es[i]) is Err,
    ensures
        eval_all(env, es) == Err::<Seq<Val>, Fault>(eval(env, es[i])->Err_0),
    decreases es.len(),
{
    if i == es.len() - 1 {
        assert(es.drop_last() =~= es.subrange(0, i));
    } else {
        assert(es.drop_last().subrange(0, i) =~= es.subrange(0, i));
        lemma_eval_all_prefix_fails(env, es.drop_last(), i);
    }
}

} // verus!
