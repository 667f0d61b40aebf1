//! The evaluator: walks statement and expression trees against a chain of
//! scopes.
//!
//! What `out` writes is kept as a list of lines, which the host can take.
//! A host that wants each line at once gives a sink: a function that is
//! called with the line at the moment it is written, and whose return the
//! evaluator awaits before it goes on.

use vstd::prelude::*;
use vstd::string::StringExecFns;
use crate::ast::{
    cases_model, clone_names, clone_stmts, exprs_model, lemma_call_model, lemma_stmt_model,
    names_model, opt_expr_model, stmts_model, BinaryOperator, Expression, Statement,
    UnaryOperator,
};
use crate::environment::{defined, Environment};
use crate::error::{RuntimeError, RuntimeErrorModel};
use crate::semantics::{
    binary_result, bound, call_result, eval_args, eval_expr, exec_list, exec_stmt, exhausted,
    globals, initial_state, native_result, number_result, run_cases, run_for, run_program,
    run_while, unary_result, CaseOutcome, ListOutcome, Outcome, State,
};
use crate::number::Number;
use crate::value::{operator_text, truthy, values_model, Value, ValueModel};

verus! {

/// The budget of an evaluator that was given none: more rounds and calls
/// than any machine will run.
pub const UNBOUNDED: u64 = 0xffff_ffff_ffff_ffff;

/// Whether a sink takes every line.
pub open spec fn accepts<F: Fn(String)>(sink: &F) -> bool {
    forall|line: String| call_requires(*sink, (line,))
}

/// The value or error of a result.
pub open spec fn result_model(r: Result<Value, RuntimeError>) -> Result<
    ValueModel,
    RuntimeErrorModel,
> {
    match r {
        Ok(v) => Ok(v@),
        Err(e) => Err(e@),
    }
}

/// The outcome that a result and the state behind it stand for.
pub open spec fn outcome(r: Result<Value, RuntimeError>, st: State) -> Outcome {
    Outcome { result: result_model(r), state: st }
}

/// The outcome that a list of values, or an error, and the state behind it
/// stand for.
pub open spec fn list_outcome(r: Result<Vec<Value>, RuntimeError>, st: State) -> ListOutcome {
    ListOutcome {
        result: match r {
            Ok(list) => Ok(values_model(list@)),
            Err(e) => Err(e@),
        },
        state: st,
    }
}

/// A number as a result, or the error where it cannot be held.
fn number_value(n: Option<Number>) -> (r: Result<Value, RuntimeError>)
    ensures
        result_model(r) == number_result(n),
{
    match n {
        Some(n) => Ok(Value::Number(n)),
        None => Err(RuntimeError::Custom(String::from_str("Number out of range"))),
    }
}

/// The error for a budget that is used up.
fn budget_error() -> (e: RuntimeError)
    ensures
        e@ == exhausted(),
{
    RuntimeError::Custom(String::from_str("Evaluation budget exhausted"))
}

/// The evaluator. It holds the scopes in force, the lines that `out` has
/// written and nobody has taken yet, and its budget.
pub struct Interpreter {
    environment: Environment,
    output: Vec<String>,
    limit: u64,
}

impl Interpreter {
    /// The scopes and the lines written.
    pub closed spec fn state(&self) -> State {
        State { env: self.environment.frames(), output: names_model(self.output@) }
    }

    /// The scopes are in order.
    pub closed spec fn wf(&self) -> bool {
        self.environment.wf()
    }

    /// The budget on which each program runs.
    pub closed spec fn budget(&self) -> nat {
        self.limit as nat
    }

    /// An evaluator with the built-in functions in its one scope, and a
    /// budget that no run will use up.
    pub fn new() -> (interpreter: Interpreter)
        ensures
            interpreter.wf(),
            interpreter.state() == initial_state(),
            interpreter.budget() == UNBOUNDED,
    {
        Interpreter::with_budget(UNBOUNDED)
    }

    /// An evaluator with the built-in functions in its one scope, and the
    /// budget `limit`.
    pub fn with_budget(limit: u64) -> (interpreter: Interpreter)
        ensures
            interpreter.wf(),
            interpreter.state() == initial_state(),
            interpreter.budget() == limit,
    {
        let mut interpreter = Interpreter {
            environment: Environment::new(),
            output: Vec::new(),
            limit,
        };
        interpreter.define_native_functions();
        assert(interpreter.state().env =~= globals());
        assert(interpreter.state().output =~= Seq::empty());
        interpreter
    }

    /// The lines that `out` has written and nobody has taken yet.
    pub fn output(&self) -> (lines: &Vec<String>)
        ensures
            names_model(lines@) == self.state().output,
    {
        &self.output
    }

    /// Takes the lines that `out` has written, and leaves none.
    pub fn take_output(&mut self) -> (lines: Vec<String>)
        requires
            old(self).wf(),
        ensures
            final(self).wf(),
            final(self).budget() == old(self).budget(),
            names_model(lines@) == old(self).state().output,
            final(self).state() == (State {
                env: old(self).state().env,
                output: Seq::empty(),
            }),
    {
        let mut lines: Vec<String> = Vec::new();
        core::mem::swap(&mut self.output, &mut lines);
        assert(names_model(self.output@) =~= Seq::empty());
        lines
    }

    /// Runs the statements in order in the scopes in force. The value is
    /// that of the last statement that ran, `Null` for none. The first error
    /// ends the run; what ran before it stays done.
    pub fn interpret(&mut self, statements: Vec<Statement>) -> (r: Result<Value, RuntimeError>)
        requires
            old(self).wf(),
        ensures
            final(self).wf(),
            final(self).budget() == old(self).budget(),
            final(self).state().env.len() == old(self).state().env.len(),
            outcome(r, final(self).state()) == run_program(
                old(self).budget(),
                stmts_model(statements@),
                old(self).state(),
            ),
    {
        let depth = self.limit;
        let quiet = |line: String| {};
        self.run_list(&statements, depth, &quiet, false)
    }

    /// Runs the statements as `interpret` does, and hands each line to `sink`
    /// at the moment `out` writes it: one call for each line, in the order of
    /// the program, and the run goes on when the call has come back. The
    /// lines are kept as well.
    pub fn interpret_with<F: Fn(String)>(&mut self, statements: Vec<Statement>, sink: &F) -> (r:
        Result<Value, RuntimeError>)
        requires
            old(self).wf(),
            accepts(sink),
        ensures
            final(self).wf(),
            final(self).budget() == old(self).budget(),
            final(self).state().env.len() == old(self).state().env.len(),
            outcome(r, final(self).state()) == run_program(
                old(self).budget(),
                stmts_model(statements@),
                old(self).state(),
            ),
    {
        let depth = self.limit;
        self.run_list(&statements, depth, sink, true)
    }

    /// An evaluator that hands what `out` writes to `callback`.
    pub fn with_callback<F: Fn(String)>(callback: F) -> (wired: WithCallback<F>)
        requires
            accepts(&callback),
        ensures
            wired.wf(),
            wired.state() == initial_state(),
            wired.budget() == UNBOUNDED,
    {
        WithCallback { interpreter: Interpreter::new(), callback }
    }

    /// Runs a list of statements.
    fn run_list<F: Fn(String)>(
        &mut self,
        list: &Vec<Statement>,
        depth: u64,
        sink: &F,
        stream: bool,
    ) -> (r: Result<Value, RuntimeError>)
        requires
            old(self).wf(),
            stream ==> accepts(sink),
        ensures
            final(self).wf(),
            final(self).limit == old(self).limit,
            final(self).state().env.len() == old(self).state().env.len(),
            outcome(r, final(self).state()) == exec_list(
                depth as nat,
                stmts_model(list@),
                0,
                old(self).state(),
                ValueModel::Null,
            ),
        decreases depth, 2int, list, 0int,
    {
        let mut result = Value::Null;
        let mut i: usize = 0;
        while i < list.len()
            invariant
                self.wf(),
                stream ==> accepts(sink),
                i <= list.len(),
                self.limit == old(self).limit,
                self.state().env.len() == old(self).state().env.len(),
                exec_list(depth as nat, stmts_model(list@), i as int, self.state(), result@)
                    == exec_list(
                    depth as nat,
                    stmts_model(list@),
                    0,
                    old(self).state(),
                    ValueModel::Null,
                ),
            decreases list.len() - i,
        {
            assert(stmts_model(list@)[i as int] == list[i as int]@);
            result = match self.execute_statement(&list[i], depth, sink, stream) {
                Ok(value) => value,
                Err(e) => {
                    return Err(e);
                },
            };
            i += 1;
        }
        Ok(result)
    }

    /// Runs one statement.
    fn execute_statement<F: Fn(String)>(
        &mut self,
        statement: &Statement,
        depth: u64,
        sink: &F,
        stream: bool,
    ) -> (r: Result<Value, RuntimeError>)
        requires
            old(self).wf(),
            stream ==> accepts(sink),
        ensures
            final(self).wf(),
            final(self).limit == old(self).limit,
            final(self).state().env.len() == old(self).state().env.len(),
            outcome(r, final(self).state()) == exec_stmt(
                depth as nat,
                statement@,
                old(self).state(),
            ),
        decreases depth, 2int, statement, 0int,
    {
        proof {
            lemma_stmt_model(*statement);
            self.environment.lemma_frames();
        }
        match statement {
            Statement::Expression(expr) => self.evaluate_expression(expr, depth, sink, stream),
            Statement::VarDeclaration { name, initializer } => {
                let value = match initializer {
                    Some(expr) => match self.evaluate_expression(expr, depth, sink, stream) {
                        Ok(value) => value,
                        Err(e) => {
                            return Err(e);
                        },
                    },
                    None => Value::Null,
                };
                self.environment.define(name.clone(), value.duplicate());
                Ok(value)
            },
            Statement::Block(statements) => {
                self.environment.push_scope();
                let result = self.run_list(statements, depth, sink, stream);
                self.environment.pop_scope();
                result
            },
            Statement::FunctionDeclaration { name, params, body } => {
                let function = Value::Function {
                    params: clone_names(params),
                    body: clone_stmts(body),
                };
                self.environment.define(name.clone(), function);
                Ok(Value::Null)
            },
            Statement::Return(expr) => match expr {
                Some(expr) => self.evaluate_expression(expr, depth, sink, stream),
                None => Ok(Value::Null),
            },
            Statement::If { condition, then_branch, else_branch } => {
                let tested = self.evaluate_expression(condition, depth, sink, stream);
                let condition_value = match tested {
                    Ok(value) => value,
                    Err(e) => {
                        return Err(e);
                    },
                };
                if self.is_truthy(&condition_value) {
                    self.execute_statement(then_branch, depth, sink, stream)
                } else {
                    match else_branch {
                        Some(else_stmt) => self.execute_statement(else_stmt, depth, sink, stream),
                        None => Ok(Value::Null),
                    }
                }
            },
            Statement::While { condition, body } => {
                self.run_while(condition, body, depth, sink, stream)
            },
            Statement::For { initializer, condition, increment, body } => {
                match initializer {
                    Some(init_stmt) => match self.execute_statement(
                        init_stmt,
                        depth,
                        sink,
                        stream,
                    ) {
                        Ok(_) => {},
                        Err(e) => {
                            return Err(e);
                        },
                    },
                    None => {},
                }
                self.run_for(condition, increment, body, depth, sink, stream)
            },
            Statement::Switch { condition, cases, default } => {
                let value = match self.evaluate_expression(condition, depth, sink, stream) {
                    Ok(value) => value,
                    Err(e) => {
                        return Err(e);
                    },
                };
                let (matched, result) = self.run_cases(cases, &value, depth, sink, stream);
                if matched {
                    result
                } else {
                    match default {
                        Some(default_stmts) => self.run_list(default_stmts, depth, sink, stream),
                        None => Ok(Value::Null),
                    }
                }
            },
        }
    }

    /// Runs the rounds of a `while` loop.
    fn run_while<F: Fn(String)>(
        &mut self,
        condition: &Expression,
        body: &Statement,
        depth: u64,
        sink: &F,
        stream: bool,
    ) -> (r: Result<Value, RuntimeError>)
        requires
            old(self).wf(),
            stream ==> accepts(sink),
        ensures
            final(self).wf(),
            final(self).limit == old(self).limit,
            final(self).state().env.len() == old(self).state().env.len(),
            outcome(r, final(self).state()) == run_while(
                depth as nat,
                condition@,
                body@,
                old(self).state(),
                ValueModel::Null,
            ),
        decreases depth, 0int, body, 0int,
    {
        let mut result = Value::Null;
        let mut d: u64 = depth;
        loop
            invariant
                self.wf(),
                stream ==> accepts(sink),
                d <= depth,
                self.limit == old(self).limit,
                self.state().env.len() == old(self).state().env.len(),
                run_while(d as nat, condition@, body@, self.state(), result@) == run_while(
                    depth as nat,
                    condition@,
                    body@,
                    old(self).state(),
                    ValueModel::Null,
                ),
            decreases d,
        {
            if d == 0 {
                return Err(budget_error());
            }
            d = d - 1;
            let condition_value = match self.evaluate_expression(condition, d, sink, stream) {
                Ok(value) => value,
                Err(e) => {
                    return Err(e);
                },
            };
            if !self.is_truthy(&condition_value) {
                return Ok(result);
            }
            result = match self.execute_statement(body, d, sink, stream) {
                Ok(value) => value,
                Err(e) => {
                    return Err(e);
                },
            };
        }
    }

    /// Runs the rounds of a `for` loop, behind its first clause.
    fn run_for<F: Fn(String)>(
        &mut self,
        condition: &Option<Expression>,
        increment: &Option<Expression>,
        body: &Statement,
        depth: u64,
        sink: &F,
        stream: bool,
    ) -> (r: Result<Value, RuntimeError>)
        requires
            old(self).wf(),
            stream ==> accepts(sink),
        ensures
            final(self).wf(),
            final(self).limit == old(self).limit,
            final(self).state().env.len() == old(self).state().env.len(),
            outcome(r, final(self).state()) == run_for(
                depth as nat,
                opt_expr_model(*condition),
                opt_expr_model(*increment),
                body@,
                old(self).state(),
                ValueModel::Null,
            ),
        decreases depth, 0int, body, 0int,
    {
        let mut result = Value::Null;
        let mut d: u64 = depth;
        loop
            invariant
                self.wf(),
                stream ==> accepts(sink),
                d <= depth,
                self.limit == old(self).limit,
                self.state().env.len() == old(self).state().env.len(),
                run_for(
                    d as nat,
                    opt_expr_model(*condition),
                    opt_expr_model(*increment),
                    body@,
                    self.state(),
                    result@,
                ) == run_for(
                    depth as nat,
                    opt_expr_model(*condition),
                    opt_expr_model(*increment),
                    body@,
                    old(self).state(),
                    ValueModel::Null,
                ),
            decreases d,
        {
            if d == 0 {
                return Err(budget_error());
            }
            d = d - 1;
            match condition {
                Some(cond) => {
                    let condition_value = match self.evaluate_expression(cond, d, sink, stream) {
                        Ok(value) => value,
                        Err(e) => {
                            return Err(e);
                        },
                    };
                    if !self.is_truthy(&condition_value) {
                        return Ok(result);
                    }
                },
                None => {},
            }
            result = match self.execute_statement(body, d, sink, stream) {
                Ok(value) => value,
                Err(e) => {
                    return Err(e);
                },
            };
            match increment {
                Some(incr) => match self.evaluate_expression(incr, d, sink, stream) {
                    Ok(_) => {},
                    Err(e) => {
                        return Err(e);
                    },
                },
                None => {},
            }
        }
    }

    /// Looks for the first case that equals `subject`, and runs it.
    fn run_cases<F: Fn(String)>(
        &mut self,
        cases: &Vec<(Expression, Vec<Statement>)>,
        subject: &Value,
        depth: u64,
        sink: &F,
        stream: bool,
    ) -> (found: (bool, Result<Value, RuntimeError>))
        requires
            old(self).wf(),
            stream ==> accepts(sink),
        ensures
            final(self).wf(),
            final(self).limit == old(self).limit,
            final(self).state().env.len() == old(self).state().env.len(),
            (CaseOutcome { matched: found.0, outcome: outcome(found.1, final(self).state()) })
                == run_cases(depth as nat, cases_model(cases@), 0, subject@, old(self).state()),
        decreases depth, 2int, cases, 0int,
    {
        let mut i: usize = 0;
        while i < cases.len()
            invariant
                self.wf(),
                stream ==> accepts(sink),
                i <= cases.len(),
                self.limit == old(self).limit,
                self.state().env.len() == old(self).state().env.len(),
                run_cases(depth as nat, cases_model(cases@), i as int, subject@, self.state())
                    == run_cases(
                    depth as nat,
                    cases_model(cases@),
                    0,
                    subject@,
                    old(self).state(),
                ),
            decreases cases.len() - i,
        {
            assert(cases_model(cases@)[i as int] == (
                cases[i as int].0@,
                stmts_model(cases[i as int].1@),
            ));
            let case_value = match self.evaluate_expression(&cases[i].0, depth, sink, stream) {
                Ok(value) => value,
                Err(e) => {
                    return (true, Err(e));
                },
            };
            if subject.equals(&case_value) {
                let result = self.run_list(&cases[i].1, depth, sink, stream);
                return (true, result);
            }
            i += 1;
        }
        (false, Ok(Value::Null))
    }

    /// Evaluates an expression.
    fn evaluate_expression<F: Fn(String)>(
        &mut self,
        expression: &Expression,
        depth: u64,
        sink: &F,
        stream: bool,
    ) -> (r: Result<Value, RuntimeError>)
        requires
            old(self).wf(),
            stream ==> accepts(sink),
        ensures
            final(self).wf(),
            final(self).limit == old(self).limit,
            final(self).state().env.len() == old(self).state().env.len(),
            outcome(r, final(self).state()) == eval_expr(
                depth as nat,
                expression@,
                old(self).state(),
            ),
        decreases depth, 1int, expression, 0int,
    {
        proof {
            lemma_call_model(*expression);
        }
        match expression {
            Expression::Number(n) => Ok(Value::Number(*n)),
            Expression::String(s) => Ok(Value::String(s.clone())),
            Expression::Boolean(b) => Ok(Value::Boolean(*b)),
            Expression::Identifier(name) => self.environment.get(name.as_str()),
            Expression::Binary { left, operator, right } => {
                if let BinaryOperator::Assign = operator {
                    match &**left {
                        Expression::Identifier(name) => {
                            let assigned = self.evaluate_expression(right, depth, sink, stream);
                            let right_val = match assigned {
                                Ok(value) => value,
                                Err(e) => {
                                    return Err(e);
                                },
                            };
                            match self.environment.assign(name.as_str(), right_val.duplicate()) {
                                Ok(()) => Ok(right_val),
                                Err(e) => Err(e),
                            }
                        },
                        _ => Err(
                            RuntimeError::TypeError(
                                String::from_str("Left side of assignment must be a variable"),
                            ),
                        ),
                    }
                } else {
                    let left_val = match self.evaluate_expression(left, depth, sink, stream) {
                        Ok(value) => value,
                        Err(e) => {
                            return Err(e);
                        },
                    };
                    let right_val = match self.evaluate_expression(right, depth, sink, stream) {
                        Ok(value) => value,
                        Err(e) => {
                            return Err(e);
                        },
                    };
                    self.evaluate_binary_op(*operator, left_val, right_val)
                }
            },
            Expression::Unary { operator, operand } => {
                let operand_val = match self.evaluate_expression(operand, depth, sink, stream) {
                    Ok(value) => value,
                    Err(e) => {
                        return Err(e);
                    },
                };
                self.evaluate_unary_op(*operator, operand_val)
            },
            Expression::Call { callee, arguments } => {
                let callee_val = match self.evaluate_expression(callee, depth, sink, stream) {
                    Ok(value) => value,
                    Err(e) => {
                        return Err(e);
                    },
                };
                let evaluated_args = match self.evaluate_arguments(arguments, depth, sink, stream) {
                    Ok(list) => list,
                    Err(e) => {
                        return Err(e);
                    },
                };
                self.call_value(&callee_val, evaluated_args, depth, sink, stream)
            },
        }
    }

    /// Evaluates the arguments of a call, from left to right.
    fn evaluate_arguments<F: Fn(String)>(
        &mut self,
        list: &Vec<Expression>,
        depth: u64,
        sink: &F,
        stream: bool,
    ) -> (r: Result<Vec<Value>, RuntimeError>)
        requires
            old(self).wf(),
            stream ==> accepts(sink),
        ensures
            final(self).wf(),
            final(self).limit == old(self).limit,
            final(self).state().env.len() == old(self).state().env.len(),
            list_outcome(r, final(self).state()) == eval_args(
                depth as nat,
                exprs_model(list@),
                0,
                old(self).state(),
                Seq::empty(),
            ),
        decreases depth, 1int, list, 0int,
    {
        let mut values: Vec<Value> = Vec::new();
        let mut i: usize = 0;
        assert(values_model(values@) =~= Seq::empty());
        while i < list.len()
            invariant
                self.wf(),
                stream ==> accepts(sink),
                i <= list.len(),
                self.limit == old(self).limit,
                self.state().env.len() == old(self).state().env.len(),
                eval_args(
                    depth as nat,
                    exprs_model(list@),
                    i as int,
                    self.state(),
                    values_model(values@),
                ) == eval_args(
                    depth as nat,
                    exprs_model(list@),
                    0,
                    old(self).state(),
                    Seq::empty(),
                ),
            decreases list.len() - i,
        {
            assert(exprs_model(list@)[i as int] == list[i as int]@);
            let value = match self.evaluate_expression(&list[i], depth, sink, stream) {
                Ok(value) => value,
                Err(e) => {
                    return Err(e);
                },
            };
            let ghost before = values_model(values@);
            values.push(value);
            assert(values_model(values@) =~= before.push(value@));
            i += 1;
        }
        Ok(values)
    }

    /// Calls `callee` with `args`.
    fn call_value<F: Fn(String)>(
        &mut self,
        callee: &Value,
        args: Vec<Value>,
        depth: u64,
        sink: &F,
        stream: bool,
    ) -> (r: Result<Value, RuntimeError>)
        requires
            old(self).wf(),
            stream ==> accepts(sink),
        ensures
            final(self).wf(),
            final(self).limit == old(self).limit,
            final(self).state().env.len() == old(self).state().env.len(),
            outcome(r, final(self).state()) == call_result(
                depth as nat,
                callee@,
                values_model(args@),
                old(self).state(),
            ),
        decreases depth, 0int, callee, 0int,
    {
        proof {
            self.environment.lemma_frames();
        }
        match callee {
            Value::NativeFunction(name) => self.call_native(name, args, sink, stream),
            Value::Function { params, body } => {
                if args.len() != params.len() {
                    return Err(
                        RuntimeError::InvalidArgumentCount {
                            expected: params.len(),
                            got: args.len(),
                        },
                    );
                }
                if depth == 0 {
                    return Err(budget_error());
                }
                self.environment.push_scope();
                self.bind_parameters(params, args);
                let result = self.run_list(body, depth - 1, sink, stream);
                self.environment.pop_scope();
                result
            },
            _ => {
                let mut message = String::from_str("Cannot call non-function value: ");
                let text = callee.debug_string();
                message.append(text.as_str());
                Err(RuntimeError::TypeError(message))
            },
        }
    }

    /// Binds each parameter to its argument in the innermost scope.
    fn bind_parameters(&mut self, params: &Vec<String>, args: Vec<Value>)
        requires
            old(self).wf(),
            params.len() == args.len(),
        ensures
            final(self).wf(),
            final(self).limit == old(self).limit,
            final(self).output == old(self).output,
            final(self).state().env == bound(
                old(self).state().env,
                names_model(params@),
                values_model(args@),
                0,
            ),
            final(self).state().env.len() == old(self).state().env.len(),
    {
        let mut args = args;
        let ghost values = values_model(args@);
        let mut i: usize = 0;
        while i < params.len()
            invariant
                self.wf(),
                i <= params.len(),
                params.len() == args.len(),
                values.len() == args.len(),
                self.limit == old(self).limit,
                self.output == old(self).output,
                self.state().env.len() == old(self).state().env.len(),
                forall|j: int| i <= j < args.len() ==> (#[trigger] args[j])@ == values[j],
                bound(self.state().env, names_model(params@), values, i as int) == bound(
                    old(self).state().env,
                    names_model(params@),
                    values,
                    0,
                ),
            decreases params.len() - i,
        {
            let mut value = Value::Null;
            args.set_and_swap(i, &mut value);
            assert(names_model(params@)[i as int] == params[i as int]@);
            self.environment.define(params[i].clone(), value);
            i += 1;
        }
    }

    /// Applies a binary operator to two values.
    fn evaluate_binary_op(&self, operator: BinaryOperator, left: Value, right: Value) -> (r:
        Result<Value, RuntimeError>)
        ensures
            result_model(r) == binary_result(operator, left@, right@),
    {
        match (operator, &left, &right) {
            (BinaryOperator::Add, Value::Number(a), Value::Number(b)) => number_value(
                a.checked_add(*b),
            ),
            (BinaryOperator::Add, Value::String(a), Value::String(b)) => {
                let mut s = a.clone();
                s.append(b.as_str());
                Ok(Value::String(s))
            },
            (BinaryOperator::Subtract, Value::Number(a), Value::Number(b)) => number_value(
                a.checked_sub(*b),
            ),
            (BinaryOperator::Multiply, Value::Number(a), Value::Number(b)) => number_value(
                a.checked_mul(*b),
            ),
            (BinaryOperator::Divide, Value::Number(a), Value::Number(b)) => {
                if b.is_zero() {
                    Err(RuntimeError::DivisionByZero)
                } else {
                    number_value(a.checked_div(*b))
                }
            },
            (BinaryOperator::Equal, _, _) => Ok(Value::Boolean(left.equals(&right))),
            (BinaryOperator::NotEqual, _, _) => Ok(Value::Boolean(!left.equals(&right))),
            (BinaryOperator::Greater, Value::Number(a), Value::Number(b)) => Ok(
                Value::Boolean(b.less_than(*a)),
            ),
            (BinaryOperator::Less, Value::Number(a), Value::Number(b)) => Ok(
                Value::Boolean(a.less_than(*b)),
            ),
            (BinaryOperator::GreaterEqual, Value::Number(a), Value::Number(b)) => Ok(
                Value::Boolean(!a.less_than(*b)),
            ),
            (BinaryOperator::LessEqual, Value::Number(a), Value::Number(b)) => Ok(
                Value::Boolean(!b.less_than(*a)),
            ),
            (BinaryOperator::And, Value::Boolean(a), Value::Boolean(b)) => Ok(
                Value::Boolean(*a && *b),
            ),
            (BinaryOperator::Or, Value::Boolean(a), Value::Boolean(b)) => Ok(
                Value::Boolean(*a || *b),
            ),
            _ => {
                let mut message = String::from_str("Invalid operation: cannot apply ");
                message.append(operator_text(operator));
                message.append(" to ");
                let l = left.debug_string();
                message.append(l.as_str());
                message.append(" and ");
                let r = right.debug_string();
                message.append(r.as_str());
                Err(RuntimeError::TypeError(message))
            },
        }
    }

    /// Applies a prefix operator to a value.
    fn evaluate_unary_op(&self, operator: UnaryOperator, operand: Value) -> (r: Result<
        Value,
        RuntimeError,
    >)
        ensures
            result_model(r) == unary_result(operator, operand@),
    {
        match (operator, operand) {
            (UnaryOperator::Minus, Value::Number(n)) => number_value(n.checked_neg()),
            (UnaryOperator::Not, Value::Boolean(b)) => Ok(Value::Boolean(!b)),
            _ => Err(RuntimeError::InvalidOperation),
        }
    }

    /// Whether a value counts as true in a condition.
    fn is_truthy(&self, value: &Value) -> (r: bool)
        ensures
            r == truthy(value@),
    {
        value.is_truthy()
    }

    /// Binds the built-in functions in the innermost scope.
    fn define_native_functions(&mut self)
        requires
            old(self).wf(),
        ensures
            final(self).wf(),
            final(self).limit == old(self).limit,
            final(self).output == old(self).output,
            final(self).state().env == defined(
                defined(
                    old(self).state().env,
                    "out"@,
                    ValueModel::NativeFunction("out"@),
                ),
                "round"@,
                ValueModel::NativeFunction("round"@),
            ),
    {
        self.environment.define(
            String::from_str("out"),
            Value::NativeFunction(String::from_str("out")),
        );
        self.environment.define(
            String::from_str("round"),
            Value::NativeFunction(String::from_str("round")),
        );
    }

    /// Calls the built-in function `name`.
    fn call_native<F: Fn(String)>(
        &mut self,
        name: &String,
        args: Vec<Value>,
        sink: &F,
        stream: bool,
    ) -> (r: Result<Value, RuntimeError>)
        requires
            old(self).wf(),
            stream ==> accepts(sink),
        ensures
            final(self).wf(),
            final(self).limit == old(self).limit,
            final(self).state().env == old(self).state().env,
            outcome(r, final(self).state()) == native_result(
                name@,
                values_model(args@),
                old(self).state(),
            ),
    {
        let out_name = String::from_str("out");
        let round_name = String::from_str("round");
        if *name == out_name {
            if args.len() != 1 {
                return Err(RuntimeError::InvalidArgumentCount { expected: 1, got: args.len() });
            }
            let text = args[0].display_string();
            if stream {
                sink(text.clone());
            }
            let ghost before = names_model(self.output@);
            self.output.push(text);
            assert(names_model(self.output@) =~= before.push(text@));
            Ok(Value::Null)
        } else if *name == round_name {
            if args.len() == 0 {
                return Err(RuntimeError::InvalidArgumentCount { expected: 1, got: 0 });
            }
            match &args[0] {
                Value::Number(n) => number_value(n.checked_round()),
                _ => Err(RuntimeError::TypeError(String::from_str("Expected number argument"))),
            }
        } else {
            Err(RuntimeError::UndefinedVariable(name.clone()))
        }
    }
}

/// An evaluator together with the sink that takes its output.
pub struct WithCallback<F: Fn(String)> {
    interpreter: Interpreter,
    callback: F,
}

impl<F: Fn(String)> WithCallback<F> {
    /// The scopes and the lines written.
    pub closed spec fn state(&self) -> State {
        self.interpreter.state()
    }

    /// The evaluator is in order, and the sink takes every line.
    pub closed spec fn wf(&self) -> bool {
        self.interpreter.wf() && accepts(&self.callback)
    }

    /// The budget on which each program runs.
    pub closed spec fn budget(&self) -> nat {
        self.interpreter.budget()
    }

    /// Runs the statements, handing each line that `out` writes to the sink
    /// as it is written.
    pub fn interpret(&mut self, statements: Vec<Statement>) -> (r: Result<Value, RuntimeError>)
        requires
            old(self).wf(),
        ensures
            final(self).wf(),
            final(self).budget() == old(self).budget(),
            final(self).state().env.len() == old(self).state().env.len(),
            outcome(r, final(self).state()) == run_program(
                old(self).budget(),
                stmts_model(statements@),
                old(self).state(),
            ),
    {
        self.interpreter.interpret_with(statements, &self.callback)
    }

    /// The lines that `out` has written and nobody has taken yet.
    pub fn output(&self) -> (lines: &Vec<String>)
        ensures
            names_model(lines@) == self.state().output,
    {
        self.interpreter.output()
    }

    /// Takes the lines that `out` has written, and leaves none.
    pub fn take_output(&mut self) -> (lines: Vec<String>)
        requires
            old(self).wf(),
        ensures
            final(self).wf(),
            final(self).budget() == old(self).budget(),
            names_model(lines@) == old(self).state().output,
            final(self).state() == (State {
                env: old(self).state().env,
                output: Seq::empty(),
            }),
    {
        self.interpreter.take_output()
    }
}

} // verus!
