//! What a program means: evaluation as a function of the scopes in force,
//! the lines written so far, and a budget.
//!
//! The budget bounds how deep calls and loop rounds may nest: every call of a
//! declared function and every round of a loop runs on one less than what
//! surrounds it, and at zero neither can start. Whatever the budget, the
//! evaluation of a program ends.

use vstd::prelude::*;
use crate::ast::{BinaryOperator, ExprModel, StmtModel, UnaryOperator};
use crate::environment::{
    assigned, assignment_creates_no_binding, defined, lookup, popped, pushed, Frames,
};
use crate::error::RuntimeErrorModel;
use crate::number::{checked, product_units, quotient_units, rounded_units, Number};
use crate::value::{debug_text, display_text, operator_name, truthy, values_equal, ValueModel};

verus! {

/// What evaluation reads and changes: the scopes, and the lines that `out`
/// has written, in order.
pub struct State {
    pub env: Frames,
    pub output: Seq<Seq<char>>,
}

/// A value or an error, and the state that evaluation left.
pub struct Outcome {
    pub result: Result<ValueModel, RuntimeErrorModel>,
    pub state: State,
}

/// The values of a list of expressions or an error, and the state left.
pub struct ListOutcome {
    pub result: Result<Seq<ValueModel>, RuntimeErrorModel>,
    pub state: State,
}

/// What looking for a matching `case` gives: whether one matched, and the
/// outcome so far.
pub struct CaseOutcome {
    pub matched: bool,
    pub outcome: Outcome,
}

/// The error for a number that cannot be held.
pub open spec fn out_of_range() -> RuntimeErrorModel {
    RuntimeErrorModel::Custom("Number out of range"@)
}

/// The error for a budget that is used up.
pub open spec fn exhausted() -> RuntimeErrorModel {
    RuntimeErrorModel::Custom("Evaluation budget exhausted"@)
}

/// The scopes in which a program starts: one scope that binds the built-in
/// functions.
pub open spec fn globals() -> Frames {
    seq![
        Map::empty().insert("out"@, ValueModel::NativeFunction("out"@)).insert(
            "round"@,
            ValueModel::NativeFunction("round"@),
        ),
    ]
}

/// The state in which a program starts.
pub open spec fn initial_state() -> State {
    State { env: globals(), output: Seq::empty() }
}

/// A number as a result, or the error where it cannot be held.
pub open spec fn number_result(n: Option<Number>) -> Result<ValueModel, RuntimeErrorModel> {
    match n {
        Some(n) => Ok(ValueModel::Number(n)),
        None => Err(out_of_range()),
    }
}

/// The error for operands that an operator does not take.
pub open spec fn operand_error(op: BinaryOperator, l: ValueModel, r: ValueModel) -> Seq<char> {
    "Invalid operation: cannot apply "@ + operator_name(op) + " to "@ + debug_text(l) + " and "@
        + debug_text(r)
}

/// A binary operator applied to two values.
pub open spec fn binary_result(op: BinaryOperator, l: ValueModel, r: ValueModel) -> Result<
    ValueModel,
    RuntimeErrorModel,
> {
    match (op, l, r) {
        (BinaryOperator::Add, ValueModel::Number(a), ValueModel::Number(b)) => number_result(
            checked(a.units + b.units),
        ),
        (BinaryOperator::Add, ValueModel::String(a), ValueModel::String(b)) => Ok(
            ValueModel::String(a + b),
        ),
        (BinaryOperator::Subtract, ValueModel::Number(a), ValueModel::Number(b)) => number_result(
            checked(a.units - b.units),
        ),
        (BinaryOperator::Multiply, ValueModel::Number(a), ValueModel::Number(b)) => number_result(
            checked(product_units(a.units as int, b.units as int)),
        ),
        (BinaryOperator::Divide, ValueModel::Number(a), ValueModel::Number(b)) => if b.units
            == 0 {
            Err(RuntimeErrorModel::DivisionByZero)
        } else {
            number_result(checked(quotient_units(a.units as int, b.units as int)))
        },
        (BinaryOperator::Equal, _, _) => Ok(ValueModel::Boolean(values_equal(l, r))),
        (BinaryOperator::NotEqual, _, _) => Ok(ValueModel::Boolean(!values_equal(l, r))),
        (BinaryOperator::Greater, ValueModel::Number(a), ValueModel::Number(b)) => Ok(
            ValueModel::Boolean(a.units > b.units),
        ),
        (BinaryOperator::Less, ValueModel::Number(a), ValueModel::Number(b)) => Ok(
            ValueModel::Boolean(a.units < b.units),
        ),
        (BinaryOperator::GreaterEqual, ValueModel::Number(a), ValueModel::Number(b)) => Ok(
            ValueModel::Boolean(a.units >= b.units),
        ),
        (BinaryOperator::LessEqual, ValueModel::Number(a), ValueModel::Number(b)) => Ok(
            ValueModel::Boolean(a.units <= b.units),
        ),
        (BinaryOperator::And, ValueModel::Boolean(a), ValueModel::Boolean(b)) => Ok(
            ValueModel::Boolean(a && b),
        ),
        (BinaryOperator::Or, ValueModel::Boolean(a), ValueModel::Boolean(b)) => Ok(
            ValueModel::Boolean(a || b),
        ),
        _ => Err(RuntimeErrorModel::TypeError(operand_error(op, l, r))),
    }
}

/// A prefix operator applied to a value.
pub open spec fn unary_result(op: UnaryOperator, v: ValueModel) -> Result<
    ValueModel,
    RuntimeErrorModel,
> {
    match (op, v) {
        (UnaryOperator::Minus, ValueModel::Number(n)) => number_result(checked(-n.units)),
        (UnaryOperator::Not, ValueModel::Boolean(b)) => Ok(ValueModel::Boolean(!b)),
        _ => Err(RuntimeErrorModel::InvalidOperation),
    }
}

/// A built-in function applied to its arguments. `out` takes exactly one
/// value and writes its text as a line. `round` takes a number first, gives
/// the nearest whole number, and ignores what follows.
pub open spec fn native_result(name: Seq<char>, args: Seq<ValueModel>, st: State) -> Outcome {
    if name == "out"@ {
        if args.len() != 1 {
            Outcome {
                result: Err(
                    RuntimeErrorModel::InvalidArgumentCount { expected: 1, got: args.len() as int },
                ),
                state: st,
            }
        } else {
            Outcome {
                result: Ok(ValueModel::Null),
                state: State { env: st.env, output: st.output.push(display_text(args[0])) },
            }
        }
    } else if name == "round"@ {
        if args.len() == 0 {
            Outcome {
                result: Err(RuntimeErrorModel::InvalidArgumentCount { expected: 1, got: 0 }),
                state: st,
            }
        } else {
            match args[0] {
                ValueModel::Number(n) => Outcome {
                    result: number_result(checked(rounded_units(n.units as int))),
                    state: st,
                },
                _ => Outcome {
                    result: Err(RuntimeErrorModel::TypeError("Expected number argument"@)),
                    state: st,
                },
            }
        }
    } else {
        Outcome { result: Err(RuntimeErrorModel::UndefinedVariable(name)), state: st }
    }
}

/// The scopes after the parameters from index `i` on have been bound to the
/// arguments, in order, in the innermost scope.
pub open spec fn bound(
    frames: Frames,
    params: Seq<Seq<char>>,
    args: Seq<ValueModel>,
    i: int,
) -> Frames
    decreases params.len() - i,
{
    if i < 0 || i >= params.len() || i >= args.len() {
        frames
    } else {
        bound(defined(frames, params[i], args[i]), params, args, i + 1)
    }
}

/// An outcome with its innermost scope left behind.
pub open spec fn leave(o: Outcome) -> Outcome {
    Outcome { result: o.result, state: State { env: popped(o.state.env), output: o.state.output } }
}

/// A state with a new scope opened.
pub open spec fn enter(st: State) -> State {
    State { env: pushed(st.env), output: st.output }
}

/// A failure with `e` in state `st`.
pub open spec fn raise(e: RuntimeErrorModel, st: State) -> Outcome {
    Outcome { result: Err(e), state: st }
}

/// The value `v` in state `st`.
pub open spec fn give(v: ValueModel, st: State) -> Outcome {
    Outcome { result: Ok(v), state: st }
}

/// The message for a call of something that is no function.
pub open spec fn not_callable(v: ValueModel) -> RuntimeErrorModel {
    RuntimeErrorModel::TypeError("Cannot call non-function value: "@ + debug_text(v))
}

/// The message for an assignment to something that is no name.
pub open spec fn not_assignable() -> RuntimeErrorModel {
    RuntimeErrorModel::TypeError("Left side of assignment must be a variable"@)
}

/// A call of `callee` with the values `args`.
pub open spec fn call_result(fuel: nat, callee: ValueModel, args: Seq<ValueModel>, st: State)
    -> Outcome
    decreases fuel, 0int, callee, 0int,
{
    match callee {
        ValueModel::NativeFunction(name) => native_result(name, args, st),
        ValueModel::Function { params, body } => {
            if args.len() != params.len() {
                raise(
                    RuntimeErrorModel::InvalidArgumentCount {
                        expected: params.len() as int,
                        got: args.len() as int,
                    },
                    st,
                )
            } else if fuel == 0 {
                raise(exhausted(), st)
            } else {
                let inner = State {
                    env: bound(pushed(st.env), params, args, 0),
                    output: st.output,
                };
                leave(exec_list((fuel - 1) as nat, body, 0, inner, ValueModel::Null))
            }
        },
        _ => raise(not_callable(callee), st),
    }
}

/// The value of an expression.
pub open spec fn eval_expr(fuel: nat, e: ExprModel, st: State) -> Outcome
    decreases fuel, 1int, e, 0int,
{
    match e {
        ExprModel::Number(n) => give(ValueModel::Number(n), st),
        ExprModel::String(s) => give(ValueModel::String(s), st),
        ExprModel::Boolean(b) => give(ValueModel::Boolean(b), st),
        ExprModel::Identifier(name) => match lookup(st.env, name) {
            Some(v) => give(v, st),
            None => raise(RuntimeErrorModel::UndefinedVariable(name), st),
        },
        ExprModel::Binary { left, operator, right } => {
            if operator == BinaryOperator::Assign {
                match *left {
                    ExprModel::Identifier(name) => {
                        let value = eval_expr(fuel, *right, st);
                        match value.result {
                            Err(_) => value,
                            Ok(v) => match assigned(value.state.env, name, v) {
                                Some(env) => give(
                                    v,
                                    State { env, output: value.state.output },
                                ),
                                None => raise(
                                    RuntimeErrorModel::UndefinedVariable(name),
                                    value.state,
                                ),
                            },
                        }
                    },
                    _ => raise(not_assignable(), st),
                }
            } else {
                let first = eval_expr(fuel, *left, st);
                match first.result {
                    Err(_) => first,
                    Ok(l) => {
                        let second = eval_expr(fuel, *right, first.state);
                        match second.result {
                            Err(_) => second,
                            Ok(r) => Outcome {
                                result: binary_result(operator, l, r),
                                state: second.state,
                            },
                        }
                    },
                }
            }
        },
        ExprModel::Unary { operator, operand } => {
            let inner = eval_expr(fuel, *operand, st);
            match inner.result {
                Err(_) => inner,
                Ok(v) => Outcome { result: unary_result(operator, v), state: inner.state },
            }
        },
        ExprModel::Call { callee, arguments } => {
            let target = eval_expr(fuel, *callee, st);
            match target.result {
                Err(_) => target,
                Ok(f) => {
                    let list = eval_args(fuel, arguments, 0, target.state, Seq::empty());
                    match list.result {
                        Err(e) => raise(e, list.state),
                        Ok(args) => call_result(fuel, f, args, list.state),
                    }
                },
            }
        },
    }
}

/// The values of the expressions from index `i` on, in order, behind the
/// values `done`.
pub open spec fn eval_args(
    fuel: nat,
    list: Seq<ExprModel>,
    i: int,
    st: State,
    done: Seq<ValueModel>,
) -> ListOutcome
    decreases fuel, 1int, list, list.len() - i,
{
    if i < 0 || i >= list.len() {
        ListOutcome { result: Ok(done), state: st }
    } else {
        let one = eval_expr(fuel, list[i], st);
        match one.result {
            Err(e) => ListOutcome { result: Err(e), state: one.state },
            Ok(v) => eval_args(fuel, list, i + 1, one.state, done.push(v)),
        }
    }
}

/// The statements from index `i` on, in order. The value is that of the last
/// statement that ran, or `last` where none did; the first error ends the
/// run.
pub open spec fn exec_list(fuel: nat, list: Seq<StmtModel>, i: int, st: State, last: ValueModel)
    -> Outcome
    decreases fuel, 2int, list, list.len() - i,
{
    if i < 0 || i >= list.len() {
        give(last, st)
    } else {
        let one = exec_stmt(fuel, list[i], st);
        match one.result {
            Err(_) => one,
            Ok(v) => exec_list(fuel, list, i + 1, one.state, v),
        }
    }
}

/// The rounds of a `while` loop; `last` is the value of the round before.
pub open spec fn run_while(
    fuel: nat,
    condition: ExprModel,
    body: StmtModel,
    st: State,
    last: ValueModel,
) -> Outcome
    decreases fuel, 0int, body, 0int,
{
    if fuel == 0 {
        raise(exhausted(), st)
    } else {
        let test = eval_expr((fuel - 1) as nat, condition, st);
        match test.result {
            Err(_) => test,
            Ok(c) => {
                if !truthy(c) {
                    give(last, test.state)
                } else {
                    let round = exec_stmt((fuel - 1) as nat, body, test.state);
                    match round.result {
                        Err(_) => round,
                        Ok(v) => run_while((fuel - 1) as nat, condition, body, round.state, v),
                    }
                }
            },
        }
    }
}

/// The rounds of a `for` loop behind its first clause; `last` is the value
/// of the round before. A loop without a condition runs until the budget ends
/// it.
pub open spec fn run_for(
    fuel: nat,
    condition: Option<ExprModel>,
    increment: Option<ExprModel>,
    body: StmtModel,
    st: State,
    last: ValueModel,
) -> Outcome
    decreases fuel, 0int, body, 0int,
{
    if fuel == 0 {
        raise(exhausted(), st)
    } else {
        let test = match condition {
            Some(c) => eval_expr((fuel - 1) as nat, c, st),
            None => give(ValueModel::Boolean(true), st),
        };
        match test.result {
            Err(_) => test,
            Ok(c) => {
                if !truthy(c) {
                    give(last, test.state)
                } else {
                    let round = exec_stmt((fuel - 1) as nat, body, test.state);
                    match round.result {
                        Err(_) => round,
                        Ok(v) => {
                            let step = match increment {
                                Some(i) => eval_expr((fuel - 1) as nat, i, round.state),
                                None => give(ValueModel::Null, round.state),
                            };
                            match step.result {
                                Err(_) => step,
                                Ok(_) => run_for(
                                    (fuel - 1) as nat,
                                    condition,
                                    increment,
                                    body,
                                    step.state,
                                    v,
                                ),
                            }
                        },
                    }
                }
            },
        }
    }
}

/// The cases of a `switch` from index `i` on: each case value is evaluated in
/// turn and compared with `subject`; the statements of the first equal one
/// run.
pub open spec fn run_cases(
    fuel: nat,
    cases: Seq<(ExprModel, Seq<StmtModel>)>,
    i: int,
    subject: ValueModel,
    st: State,
) -> CaseOutcome
    decreases fuel, 2int, cases, cases.len() - i,
{
    if i < 0 || i >= cases.len() {
        CaseOutcome { matched: false, outcome: give(ValueModel::Null, st) }
    } else {
        let value = eval_expr(fuel, cases[i].0, st);
        match value.result {
            Err(_) => CaseOutcome { matched: true, outcome: value },
            Ok(v) => {
                if values_equal(subject, v) {
                    CaseOutcome {
                        matched: true,
                        outcome: exec_list(fuel, cases[i].1, 0, value.state, ValueModel::Null),
                    }
                } else {
                    run_cases(fuel, cases, i + 1, subject, value.state)
                }
            },
        }
    }
}

/// The effect of a statement.
pub open spec fn exec_stmt(fuel: nat, s: StmtModel, st: State) -> Outcome
    decreases fuel, 2int, s, 0int,
{
    match s {
        StmtModel::Expression(e) => eval_expr(fuel, e, st),
        StmtModel::VarDeclaration { name, initializer } => {
            let value = match initializer {
                Some(e) => eval_expr(fuel, e, st),
                None => give(ValueModel::Null, st),
            };
            match value.result {
                Err(_) => value,
                Ok(v) => give(
                    v,
                    State { env: defined(value.state.env, name, v), output: value.state.output },
                ),
            }
        },
        StmtModel::Block(list) => leave(exec_list(fuel, list, 0, enter(st), ValueModel::Null)),
        StmtModel::FunctionDeclaration { name, params, body } => give(
            ValueModel::Null,
            State {
                env: defined(st.env, name, ValueModel::Function { params, body }),
                output: st.output,
            },
        ),
        StmtModel::Return(e) => match e {
            Some(e) => eval_expr(fuel, e, st),
            None => give(ValueModel::Null, st),
        },
        StmtModel::If { condition, then_branch, else_branch } => {
            let test = eval_expr(fuel, condition, st);
            match test.result {
                Err(_) => test,
                Ok(c) => {
                    if truthy(c) {
                        exec_stmt(fuel, *then_branch, test.state)
                    } else {
                        match else_branch {
                            Some(b) => exec_stmt(fuel, *b, test.state),
                            None => give(ValueModel::Null, test.state),
                        }
                    }
                },
            }
        },
        StmtModel::While { condition, body } => run_while(
            fuel,
            condition,
            *body,
            st,
            ValueModel::Null,
        ),
        StmtModel::For { initializer, condition, increment, body } => {
            let first = match initializer {
                Some(s) => exec_stmt(fuel, *s, st),
                None => give(ValueModel::Null, st),
            };
            match first.result {
                Err(_) => first,
                Ok(_) => run_for(fuel, condition, increment, *body, first.state, ValueModel::Null),
            }
        },
        StmtModel::Switch { condition, cases, default } => {
            let subject = eval_expr(fuel, condition, st);
            match subject.result {
                Err(_) => subject,
                Ok(v) => {
                    let found = run_cases(fuel, cases, 0, v, subject.state);
                    if found.matched {
                        found.outcome
                    } else {
                        match default {
                            Some(list) => exec_list(
                                fuel,
                                list,
                                0,
                                found.outcome.state,
                                ValueModel::Null,
                            ),
                            None => give(ValueModel::Null, found.outcome.state),
                        }
                    }
                },
            }
        },
    }
}

/// The outcome of a program: its statements run in order in state `st`.
pub open spec fn run_program(fuel: nat, program: Seq<StmtModel>, st: State) -> Outcome {
    exec_list(fuel, program, 0, st, ValueModel::Null)
}

/// What evaluation never undoes: there are as many scopes afterwards as
/// before, and every line written before is still there, in its place.
pub open spec fn keeps(before: State, after: State) -> bool {
    &&& after.env.len() == before.env.len()
    &&& before.output.len() <= after.output.len()
    &&& forall|i: int| 0 <= i < before.output.len() ==> after.output[i] == before.output[i]
}

/// Binding parameters opens and leaves no scope.
proof fn lemma_bound_len(frames: Frames, params: Seq<Seq<char>>, args: Seq<ValueModel>, i: int)
    ensures
        bound(frames, params, args, i).len() == frames.len(),
    decreases params.len() - i,
{
    if !(i < 0 || i >= params.len() || i >= args.len()) {
        lemma_bound_len(defined(frames, params[i], args[i]), params, args, i + 1);
    }
}

/// A call keeps the scopes and the lines written.
proof fn lemma_call_keeps(fuel: nat, callee: ValueModel, args: Seq<ValueModel>, st: State)
    ensures
        keeps(st, call_result(fuel, callee, args, st).state),
    decreases fuel, 0int, callee, 0int,
{
    match callee {
        ValueModel::Function { params, body } => {
            if args.len() == params.len() && fuel > 0 {
                let inner = State {
                    env: bound(pushed(st.env), params, args, 0),
                    output: st.output,
                };
                lemma_bound_len(pushed(st.env), params, args, 0);
                lemma_list_keeps((fuel - 1) as nat, body, 0, inner, ValueModel::Null);
            }
        },
        _ => {},
    }
}

/// An expression keeps the scopes and the lines written.
proof fn lemma_expr_keeps(fuel: nat, e: ExprModel, st: State)
    ensures
        keeps(st, eval_expr(fuel, e, st).state),
    decreases fuel, 1int, e, 0int,
{
    match e {
        ExprModel::Binary { left, operator, right } => {
            if operator == BinaryOperator::Assign {
                match *left {
                    ExprModel::Identifier(name) => {
                        lemma_expr_keeps(fuel, *right, st);
                        let value = eval_expr(fuel, *right, st);
                        match value.result {
                            Ok(v) => {
                                assignment_creates_no_binding(
                                    value.state.env,
                                    name,
                                    v,
                                );
                            },
                            Err(_) => {},
                        }
                    },
                    _ => {},
                }
            } else {
                lemma_expr_keeps(fuel, *left, st);
                lemma_expr_keeps(fuel, *right, eval_expr(fuel, *left, st).state);
            }
        },
        ExprModel::Unary { operator, operand } => {
            lemma_expr_keeps(fuel, *operand, st);
        },
        ExprModel::Call { callee, arguments } => {
            lemma_expr_keeps(fuel, *callee, st);
            let target = eval_expr(fuel, *callee, st);
            match target.result {
                Ok(f) => {
                    lemma_args_keep(fuel, arguments, 0, target.state, Seq::empty());
                    let list = eval_args(fuel, arguments, 0, target.state, Seq::empty());
                    match list.result {
                        Ok(args) => {
                            lemma_call_keeps(fuel, f, args, list.state);
                        },
                        Err(_) => {},
                    }
                },
                Err(_) => {},
            }
        },
        _ => {},
    }
}

/// Arguments keep the scopes and the lines written.
proof fn lemma_args_keep(
    fuel: nat,
    list: Seq<ExprModel>,
    i: int,
    st: State,
    done: Seq<ValueModel>,
)
    ensures
        keeps(st, eval_args(fuel, list, i, st, done).state),
    decreases fuel, 1int, list, list.len() - i,
{
    if !(i < 0 || i >= list.len()) {
        lemma_expr_keeps(fuel, list[i], st);
        let one = eval_expr(fuel, list[i], st);
        match one.result {
            Ok(v) => {
                lemma_args_keep(fuel, list, i + 1, one.state, done.push(v));
            },
            Err(_) => {},
        }
    }
}

/// A list of statements keeps the scopes and the lines written.
proof fn lemma_list_keeps(fuel: nat, list: Seq<StmtModel>, i: int, st: State, last: ValueModel)
    ensures
        keeps(st, exec_list(fuel, list, i, st, last).state),
    decreases fuel, 2int, list, list.len() - i,
{
    if !(i < 0 || i >= list.len()) {
        lemma_stmt_keeps(fuel, list[i], st);
        let one = exec_stmt(fuel, list[i], st);
        match one.result {
            Ok(v) => {
                lemma_list_keeps(fuel, list, i + 1, one.state, v);
            },
            Err(_) => {},
        }
    }
}

/// A `while` loop keeps the scopes and the lines written.
proof fn lemma_while_keeps(
    fuel: nat,
    condition: ExprModel,
    body: StmtModel,
    st: State,
    last: ValueModel,
)
    ensures
        keeps(st, run_while(fuel, condition, body, st, last).state),
    decreases fuel, 0int, body, 0int,
{
    if fuel > 0 {
        lemma_expr_keeps((fuel - 1) as nat, condition, st);
        let test = eval_expr((fuel - 1) as nat, condition, st);
        match test.result {
            Ok(c) => {
                if truthy(c) {
                    lemma_stmt_keeps((fuel - 1) as nat, body, test.state);
                    let round = exec_stmt((fuel - 1) as nat, body, test.state);
                    match round.result {
                        Ok(v) => {
                            lemma_while_keeps((fuel - 1) as nat, condition, body, round.state, v);
                        },
                        Err(_) => {},
                    }
                }
            },
            Err(_) => {},
        }
    }
}

/// A `for` loop keeps the scopes and the lines written.
proof fn lemma_for_keeps(
    fuel: nat,
    condition: Option<ExprModel>,
    increment: Option<ExprModel>,
    body: StmtModel,
    st: State,
    last: ValueModel,
)
    ensures
        keeps(st, run_for(fuel, condition, increment, body, st, last).state),
    decreases fuel, 0int, body, 0int,
{
    if fuel > 0 {
        let f = (fuel - 1) as nat;
        match condition {
            Some(c) => {
                lemma_expr_keeps(f, c, st);
            },
            None => {},
        }
        let test = match condition {
            Some(c) => eval_expr(f, c, st),
            None => give(ValueModel::Boolean(true), st),
        };
        match test.result {
            Ok(c) => {
                if truthy(c) {
                    lemma_stmt_keeps(f, body, test.state);
                    let round = exec_stmt(f, body, test.state);
                    match round.result {
                        Ok(v) => {
                            match increment {
                                Some(i) => {
                                    lemma_expr_keeps(f, i, round.state);
                                },
                                None => {},
                            }
                            let step = match increment {
                                Some(i) => eval_expr(f, i, round.state),
                                None => give(ValueModel::Null, round.state),
                            };
                            match step.result {
                                Ok(_) => {
                                    lemma_for_keeps(f, condition, increment, body, step.state, v);
                                },
                                Err(_) => {},
                            }
                        },
                        Err(_) => {},
                    }
                }
            },
            Err(_) => {},
        }
    }
}

/// The cases of a `switch` keep the scopes and the lines written.
proof fn lemma_cases_keep(
    fuel: nat,
    cases: Seq<(ExprModel, Seq<StmtModel>)>,
    i: int,
    subject: ValueModel,
    st: State,
)
    ensures
        keeps(st, run_cases(fuel, cases, i, subject, st).outcome.state),
    decreases fuel, 2int, cases, cases.len() - i,
{
    if !(i < 0 || i >= cases.len()) {
        lemma_expr_keeps(fuel, cases[i].0, st);
        let value = eval_expr(fuel, cases[i].0, st);
        match value.result {
            Ok(v) => {
                if values_equal(subject, v) {
                    lemma_list_keeps(fuel, cases[i].1, 0, value.state, ValueModel::Null);
                } else {
                    lemma_cases_keep(fuel, cases, i + 1, subject, value.state);
                }
            },
            Err(_) => {},
        }
    }
}

/// A statement keeps the scopes and the lines written.
proof fn lemma_stmt_keeps(fuel: nat, s: StmtModel, st: State)
    ensures
        keeps(st, exec_stmt(fuel, s, st).state),
    decreases fuel, 2int, s, 0int,
{
    match s {
        StmtModel::Expression(e) => {
            lemma_expr_keeps(fuel, e, st);
        },
        StmtModel::VarDeclaration { name, initializer } => {
            match initializer {
                Some(e) => {
                    lemma_expr_keeps(fuel, e, st);
                },
                None => {},
            }
        },
        StmtModel::Block(list) => {
            lemma_list_keeps(fuel, list, 0, enter(st), ValueModel::Null);
        },
        StmtModel::FunctionDeclaration { name, params, body } => {},
        StmtModel::Return(e) => {
            match e {
                Some(e) => {
                    lemma_expr_keeps(fuel, e, st);
                },
                None => {},
            }
        },
        StmtModel::If { condition, then_branch, else_branch } => {
            lemma_expr_keeps(fuel, condition, st);
            let test = eval_expr(fuel, condition, st);
            match test.result {
                Ok(c) => {
                    if truthy(c) {
                        lemma_stmt_keeps(fuel, *then_branch, test.state);
                    } else {
                        match else_branch {
                            Some(b) => {
                                lemma_stmt_keeps(fuel, *b, test.state);
                            },
                            None => {},
                        }
                    }
                },
                Err(_) => {},
            }
        },
        StmtModel::While { condition, body } => {
            lemma_while_keeps(fuel, condition, *body, st, ValueModel::Null);
        },
        StmtModel::For { initializer, condition, increment, body } => {
            match initializer {
                Some(s) => {
                    lemma_stmt_keeps(fuel, *s, st);
                },
                None => {},
            }
            let first = match initializer {
                Some(s) => exec_stmt(fuel, *s, st),
                None => give(ValueModel::Null, st),
            };
            match first.result {
                Ok(_) => {
                    lemma_for_keeps(
                        fuel,
                        condition,
                        increment,
                        *body,
                        first.state,
                        ValueModel::Null,
                    );
                },
                Err(_) => {},
            }
        },
        StmtModel::Switch { condition, cases, default } => {
            lemma_expr_keeps(fuel, condition, st);
            let subject = eval_expr(fuel, condition, st);
            match subject.result {
                Ok(v) => {
                    lemma_cases_keep(fuel, cases, 0, v, subject.state);
                    let found = run_cases(fuel, cases, 0, v, subject.state);
                    if !found.matched {
                        match default {
                            Some(list) => {
                                lemma_list_keeps(
                                    fuel,
                                    list,
                                    0,
                                    found.outcome.state,
                                    ValueModel::Null,
                                );
                            },
                            None => {},
                        }
                    }
                },
                Err(_) => {},
            }
        },
    }
}

/// Every scope that a run opens it also leaves, whether it ends in a value
/// or in an error; and what a run writes comes behind what was written
/// before.
pub proof fn a_run_keeps_scopes_and_lines(fuel: nat, program: Seq<StmtModel>, st: State)
    ensures
        keeps(st, run_program(fuel, program, st).state),
{
    lemma_list_keeps(fuel, program, 0, st, ValueModel::Null);
}

} // verus!
