//! The grammar of the language, as functions from the tokens ahead to a
//! syntax tree and the tokens that are left.
//!
//! A token sequence holds `None` where the scanner met a lexical error. It
//! ends with `None` or with `EOF`; neither is ever consumed.
//!
//! Where a definition asks whether an inner parse has left fewer tokens
//! before it goes on, the answer is always yes (`lemma_statement_sound` and
//! its companions): the question is there so that the definitions end, and
//! the failure in its other branch never comes out of a parse.

use vstd::prelude::*;
use crate::ast::{BinaryOperator, ExprModel, StmtModel};
use crate::error::ParserError;
use crate::lexer::{lemma_scan_bounds, scan, scanned_numbers_are_not_negative};
use crate::number::{checked, Number};
use crate::types::TokenModel;

verus! {

/// The tokens ahead of a parser.
pub type Tokens = Seq<Option<TokenModel>>;

/// The outcome of one parsing function: what it built or why it failed, and
/// the tokens that it left.
pub struct Parsed<T> {
    pub result: Result<T, ParserError>,
    pub rest: Tokens,
}

/// The tokens that the scanner yields from index `i` on, up to and including
/// the first `EOF` or the first lexical error.
pub open spec fn tokens_from(s: Seq<char>, i: int) -> Tokens
    decreases s.len() - i,
{
    if i < 0 || i > s.len() {
        seq![None]
    } else {
        match scan(s, i).outcome {
            Err(_) => seq![None],
            Ok(TokenModel::EOF) => seq![Some(TokenModel::EOF)],
            Ok(t) => {
                proof {
                    lemma_scan_bounds(s, i);
                }
                seq![Some(t)] + tokens_from(s, scan(s, i).end)
            },
        }
    }
}

/// The tokens of a text are never empty; they end with `EOF` or, where the
/// scanner met an error, with `None`, and neither stands anywhere before the
/// end.
pub proof fn tokens_end_once(s: Seq<char>, i: int)
    ensures
        tokens_from(s, i).len() >= 1,
        tokens_from(s, i).last() is None || tokens_from(s, i).last() == Some(TokenModel::EOF),
        forall|k: int|
            0 <= k < tokens_from(s, i).len() - 1 ==> (#[trigger] tokens_from(s, i)[k]) is Some
                && tokens_from(s, i)[k] != Some(TokenModel::EOF),
    decreases s.len() - i,
{
    if !(i < 0 || i > s.len()) {
        match scan(s, i).outcome {
            Ok(t) => {
                if t != TokenModel::EOF {
                    lemma_scan_bounds(s, i);
                    tokens_end_once(s, scan(s, i).end);
                    let rest = tokens_from(s, scan(s, i).end);
                    let all = tokens_from(s, i);
                    assert(all =~= seq![Some(t)] + rest);
                    assert(all.last() == rest.last());
                    assert forall|k: int| 0 <= k < all.len() - 1 implies (#[trigger] all[k]) is Some
                        && all[k] != Some(TokenModel::EOF) by {
                        if k > 0 {
                            assert(all[k] == rest[k - 1]);
                        }
                    }
                }
            },
            Err(_) => {},
        }
    }
}

/// No number among the tokens of a text is negative, so a minus sign folded
/// into a literal always gives its negative.
pub proof fn number_tokens_are_not_negative(s: Seq<char>, i: int, k: int)
    requires
        0 <= k < tokens_from(s, i).len(),
    ensures
        tokens_from(s, i)[k] matches Some(TokenModel::Number(n)) ==> n.units >= 0 && negated(
            n,
        ).units == -n.units,
    decreases s.len() - i,
{
    if !(i < 0 || i > s.len()) {
        scanned_numbers_are_not_negative(s, i);
        match scan(s, i).outcome {
            Ok(t) => {
                if t != TokenModel::EOF {
                    lemma_scan_bounds(s, i);
                    if k > 0 {
                        number_tokens_are_not_negative(s, scan(s, i).end, k - 1);
                    }
                }
            },
            Err(_) => {},
        }
    }
}

/// The first token ahead.
pub open spec fn head(ts: Tokens) -> Option<TokenModel> {
    if ts.len() > 0 {
        ts[0]
    } else {
        None
    }
}

/// The tokens behind the first.
pub open spec fn tail(ts: Tokens) -> Tokens {
    if ts.len() > 0 {
        ts.skip(1)
    } else {
        ts
    }
}

/// A failure with `e`.
pub open spec fn fail<T>(e: ParserError, ts: Tokens) -> Parsed<T> {
    Parsed { result: Err(e), rest: ts }
}

/// A success with `v`.
pub open spec fn done<T>(v: T, ts: Tokens) -> Parsed<T> {
    Parsed { result: Ok(v), rest: ts }
}

/// The failure for a missing token: the end of the tokens where a lexical
/// error cut them short, an unexpected token otherwise.
pub open spec fn missing<T>(ts: Tokens) -> Parsed<T> {
    if head(ts) is None {
        fail(ParserError::UnexpectedEOF, ts)
    } else {
        fail(ParserError::UnexpectedToken, ts)
    }
}

/// Whether the first token ahead is `t`.
pub open spec fn at(ts: Tokens, t: TokenModel) -> bool {
    head(ts) == Some(t)
}

/// The binary operator that a token denotes.
pub open spec fn binary_operator(t: TokenModel) -> Option<BinaryOperator> {
    match t {
        TokenModel::Plus => Some(BinaryOperator::Add),
        TokenModel::Minus => Some(BinaryOperator::Subtract),
        TokenModel::Multiply => Some(BinaryOperator::Multiply),
        TokenModel::Divide => Some(BinaryOperator::Divide),
        TokenModel::Equals => Some(BinaryOperator::Equal),
        TokenModel::NotEquals => Some(BinaryOperator::NotEqual),
        TokenModel::Greater => Some(BinaryOperator::Greater),
        TokenModel::Less => Some(BinaryOperator::Less),
        TokenModel::GreaterEquals => Some(BinaryOperator::GreaterEqual),
        TokenModel::LessEquals => Some(BinaryOperator::LessEqual),
        TokenModel::And => Some(BinaryOperator::And),
        TokenModel::Or => Some(BinaryOperator::Or),
        TokenModel::Assign => Some(BinaryOperator::Assign),
        _ => None,
    }
}

/// The negative of a literal, or the literal itself where its negative
/// cannot be held.
pub open spec fn negated(n: Number) -> Number {
    match checked(-n.units) {
        Some(m) => m,
        None => n,
    }
}

/// A call argument with a minus sign before it: a numeric literal turns
/// negative, anything else stays as it is.
pub open spec fn fold_minus(e: ExprModel) -> ExprModel {
    match e {
        ExprModel::Number(n) => ExprModel::Number(negated(n)),
        _ => e,
    }
}

/// A primary term: a literal, a name, a call, or an expression in
/// parentheses. A name is an identifier, or the reserved word `out`, which
/// names the built-in function that writes a line; no other reserved word is
/// a term.
pub open spec fn parse_primary(ts: Tokens) -> Parsed<ExprModel>
    decreases ts.len(), 0int,
{
    match head(ts) {
        None => fail(ParserError::UnexpectedEOF, ts),
        Some(TokenModel::Number(n)) => done(ExprModel::Number(n), tail(ts)),
        Some(TokenModel::String(s)) => done(ExprModel::String(s), tail(ts)),
        Some(TokenModel::True) => done(ExprModel::Boolean(true), tail(ts)),
        Some(TokenModel::False) => done(ExprModel::Boolean(false), tail(ts)),
        Some(TokenModel::Identifier(name)) => {
            if at(tail(ts), TokenModel::LeftParen) {
                parse_call(tail(ts), ExprModel::Identifier(name))
            } else {
                done(ExprModel::Identifier(name), tail(ts))
            }
        },
        Some(TokenModel::Out) => {
            if at(tail(ts), TokenModel::LeftParen) {
                parse_call(tail(ts), ExprModel::Identifier("out"@))
            } else {
                done(ExprModel::Identifier("out"@), tail(ts))
            }
        },
        Some(TokenModel::LeftParen) => {
            let inner = parse_expression(tail(ts), 0);
            match inner.result {
                Err(e) => fail(e, inner.rest),
                Ok(e) => {
                    if at(inner.rest, TokenModel::RightParen) {
                        done(e, tail(inner.rest))
                    } else {
                        fail(ParserError::UnexpectedToken, inner.rest)
                    }
                },
            }
        },
        Some(_) => fail(ParserError::UnexpectedToken, ts),
    }
}

/// An expression whose operators all bind tighter than `precedence`.
pub open spec fn parse_expression(ts: Tokens, precedence: u8) -> Parsed<ExprModel>
    decreases ts.len(), 1int,
{
    let first = parse_primary(ts);
    match first.result {
        Err(e) => fail(e, first.rest),
        Ok(left) => {
            if first.rest.len() < ts.len() {
                climb(first.rest, left, precedence)
            } else {
                fail(ParserError::InvalidExpression, ts)
            }
        },
    }
}

/// The operators and right operands that follow `left`, as long as they bind
/// tighter than `precedence`. Each right operand is read with its operator's
/// own precedence as the new threshold, so equal operators group to the left.
pub open spec fn climb(ts: Tokens, left: ExprModel, precedence: u8) -> Parsed<ExprModel>
    decreases ts.len(), 0int,
{
    match head(ts) {
        None => done(left, ts),
        Some(t) => match binary_operator(t) {
            None => done(left, ts),
            Some(op) => {
                if op.spec_precedence() <= precedence {
                    done(left, ts)
                } else {
                    let right = parse_expression(tail(ts), op.spec_precedence());
                    match right.result {
                        Err(e) => fail(e, right.rest),
                        Ok(r) => {
                            if right.rest.len() < ts.len() {
                                climb(
                                    right.rest,
                                    ExprModel::Binary {
                                        left: Box::new(left),
                                        operator: op,
                                        right: Box::new(r),
                                    },
                                    precedence,
                                )
                            } else {
                                fail(ParserError::InvalidExpression, ts)
                            }
                        },
                    }
                }
            },
        },
    }
}

/// A call of `callee`, from the opening parenthesis on.
pub open spec fn parse_call(ts: Tokens, callee: ExprModel) -> Parsed<ExprModel>
    decreases ts.len(), 0int,
{
    let inside = tail(ts);
    if ts.len() == 0 {
        fail(ParserError::UnexpectedEOF, ts)
    } else if head(inside) is None || at(inside, TokenModel::RightParen) {
        close_call(inside, callee, Seq::empty())
    } else {
        let list = parse_arguments(inside, Seq::empty());
        match list.result {
            Err(e) => fail(e, list.rest),
            Ok(arguments) => close_call(list.rest, callee, arguments),
        }
    }
}

/// The closing parenthesis of a call.
pub open spec fn close_call(ts: Tokens, callee: ExprModel, arguments: Seq<ExprModel>) -> Parsed<
    ExprModel,
> {
    if at(ts, TokenModel::RightParen) {
        done(ExprModel::Call { callee: Box::new(callee), arguments }, tail(ts))
    } else {
        fail(ParserError::UnexpectedToken, ts)
    }
}

/// The arguments of a call, separated by commas, up to but not including the
/// closing parenthesis; `list` holds those read so far.
pub open spec fn parse_arguments(ts: Tokens, list: Seq<ExprModel>) -> Parsed<Seq<ExprModel>>
    decreases ts.len(), 2int,
{
    let minus = at(ts, TokenModel::Minus);
    let from = if minus {
        tail(ts)
    } else {
        ts
    };
    let one = parse_expression(from, 0);
    match one.result {
        Err(e) => fail(e, one.rest),
        Ok(e) => {
            let argument = if minus {
                fold_minus(e)
            } else {
                e
            };
            if at(one.rest, TokenModel::RightParen) {
                done(list.push(argument), one.rest)
            } else if at(one.rest, TokenModel::Comma) {
                if one.rest.len() <= ts.len() {
                    parse_arguments(tail(one.rest), list.push(argument))
                } else {
                    fail(ParserError::InvalidExpression, ts)
                }
            } else {
                missing(one.rest)
            }
        },
    }
}

/// An expression followed by a semicolon, as a statement.
pub open spec fn parse_expression_statement(ts: Tokens) -> Parsed<StmtModel> {
    let value = parse_expression(ts, 0);
    match value.result {
        Err(e) => fail(e, value.rest),
        Ok(e) => {
            if at(value.rest, TokenModel::Semicolon) {
                done(StmtModel::Expression(e), tail(value.rest))
            } else {
                fail(ParserError::UnexpectedToken, value.rest)
            }
        },
    }
}

/// A statement that starts with the identifier `name`. Where `=` follows
/// the name it is an assignment, where `(` follows it is a call, each with
/// its semicolon; anything else makes it an expression statement like any
/// other.
pub open spec fn parse_identifier_statement(ts: Tokens, name: Seq<char>) -> Parsed<StmtModel> {
    let after = tail(ts);
    if at(after, TokenModel::Assign) {
        let value = parse_expression(tail(after), 0);
        match value.result {
            Err(e) => fail(e, value.rest),
            Ok(e) => {
                if at(value.rest, TokenModel::Semicolon) {
                    done(
                        StmtModel::Expression(
                            ExprModel::Binary {
                                left: Box::new(ExprModel::Identifier(name)),
                                operator: BinaryOperator::Assign,
                                right: Box::new(e),
                            },
                        ),
                        tail(value.rest),
                    )
                } else {
                    fail(ParserError::UnexpectedToken, value.rest)
                }
            },
        }
    } else if at(after, TokenModel::LeftParen) {
        let call = parse_call(after, ExprModel::Identifier(name));
        match call.result {
            Err(e) => fail(e, call.rest),
            Ok(e) => {
                if at(call.rest, TokenModel::Semicolon) {
                    done(StmtModel::Expression(e), tail(call.rest))
                } else {
                    fail(ParserError::UnexpectedToken, call.rest)
                }
            },
        }
    } else {
        parse_expression_statement(ts)
    }
}

/// A declaration: `var`, a name, an optional `=` with an expression, and a
/// semicolon.
pub open spec fn parse_var_declaration(ts: Tokens) -> Parsed<StmtModel> {
    let after = tail(ts);
    match head(after) {
        Some(TokenModel::Identifier(name)) => {
            let ahead = tail(after);
            if at(ahead, TokenModel::Assign) {
                let value = parse_expression(tail(ahead), 0);
                match value.result {
                    Err(e) => fail(e, value.rest),
                    Ok(e) => end_var_declaration(value.rest, name, Some(e)),
                }
            } else {
                end_var_declaration(ahead, name, None)
            }
        },
        _ => fail(ParserError::ExpectedIdentifier, after),
    }
}

/// The semicolon that ends a declaration.
pub open spec fn end_var_declaration(
    ts: Tokens,
    name: Seq<char>,
    initializer: Option<ExprModel>,
) -> Parsed<StmtModel> {
    if at(ts, TokenModel::Semicolon) {
        done(StmtModel::VarDeclaration { name, initializer }, tail(ts))
    } else {
        missing(ts)
    }
}

/// A `return` with an optional expression and a semicolon.
pub open spec fn parse_return_statement(ts: Tokens) -> Parsed<StmtModel> {
    let after = tail(ts);
    if head(after) is None {
        fail(ParserError::UnexpectedEOF, after)
    } else if at(after, TokenModel::Semicolon) {
        done(StmtModel::Return(None), tail(after))
    } else {
        let value = parse_expression(after, 0);
        match value.result {
            Err(e) => fail(e, value.rest),
            Ok(e) => {
                if at(value.rest, TokenModel::Semicolon) {
                    done(StmtModel::Return(Some(e)), tail(value.rest))
                } else {
                    fail(ParserError::UnexpectedToken, value.rest)
                }
            },
        }
    }
}

/// The parameter names of a function, separated by commas, up to but not
/// including the closing parenthesis; `list` holds those read so far.
pub open spec fn parse_parameters(ts: Tokens, list: Seq<Seq<char>>) -> Parsed<Seq<Seq<char>>>
    decreases ts.len(),
{
    match head(ts) {
        Some(TokenModel::Identifier(name)) => {
            let after = tail(ts);
            if at(after, TokenModel::RightParen) {
                done(list.push(name), after)
            } else if at(after, TokenModel::Comma) {
                parse_parameters(tail(after), list.push(name))
            } else {
                missing(after)
            }
        },
        _ => fail(ParserError::ExpectedIdentifier, ts),
    }
}

/// `(`, a condition, and `)`, behind the keyword of a statement.
pub open spec fn parse_condition(ts: Tokens) -> Parsed<ExprModel> {
    let after = tail(ts);
    if !at(after, TokenModel::LeftParen) {
        fail(ParserError::UnexpectedToken, after)
    } else {
        let condition = parse_expression(tail(after), 0);
        match condition.result {
            Err(e) => fail(e, condition.rest),
            Ok(e) => {
                if at(condition.rest, TokenModel::RightParen) {
                    done(e, tail(condition.rest))
                } else {
                    fail(ParserError::UnexpectedToken, condition.rest)
                }
            },
        }
    }
}

/// An optional expression that ends before the token `end`.
pub open spec fn parse_clause(ts: Tokens, end: TokenModel) -> Parsed<Option<ExprModel>> {
    if head(ts) is None {
        fail(ParserError::UnexpectedEOF, ts)
    } else if at(ts, end) {
        done(None, ts)
    } else {
        let value = parse_expression(ts, 0);
        match value.result {
            Err(e) => fail(e, value.rest),
            Ok(e) => done(Some(e), value.rest),
        }
    }
}

/// Whether a parse left fewer tokens than it was given.
pub open spec fn moved<T>(p: Parsed<T>, ts: Tokens) -> bool {
    p.rest.len() < ts.len()
}

/// One statement, chosen by its first token.
pub open spec fn parse_statement(ts: Tokens) -> Parsed<StmtModel>
    decreases ts.len(), 1int,
{
    match head(ts) {
        None => fail(ParserError::UnexpectedEOF, ts),
        Some(TokenModel::Var) => parse_var_declaration(ts),
        Some(TokenModel::Fn) => parse_function_declaration(ts),
        Some(TokenModel::If) => parse_if_statement(ts),
        Some(TokenModel::While) => parse_while_statement(ts),
        Some(TokenModel::For) => parse_for_statement(ts),
        Some(TokenModel::Switch) => parse_switch_statement(ts),
        Some(TokenModel::Return) => parse_return_statement(ts),
        Some(TokenModel::LeftBrace) => parse_block_statement(ts),
        Some(TokenModel::Identifier(name)) => parse_identifier_statement(ts, name),
        Some(_) => parse_expression_statement(ts),
    }
}

/// The statements of a block up to its closing brace; `list` holds those
/// read so far.
pub open spec fn parse_block_items(ts: Tokens, list: Seq<StmtModel>) -> Parsed<Seq<StmtModel>>
    decreases ts.len(), 2int,
{
    if head(ts) is None || at(ts, TokenModel::RightBrace) {
        done(list, ts)
    } else {
        let one = parse_statement(ts);
        match one.result {
            Err(e) => fail(e, one.rest),
            Ok(s) => {
                if moved(one, ts) {
                    parse_block_items(one.rest, list.push(s))
                } else {
                    fail(ParserError::InvalidStatement, ts)
                }
            },
        }
    }
}

/// A block: statements between braces.
pub open spec fn parse_block_statement(ts: Tokens) -> Parsed<StmtModel>
    decreases ts.len(), 0int,
{
    if !at(ts, TokenModel::LeftBrace) {
        fail(ParserError::UnexpectedToken, ts)
    } else {
        let items = parse_block_items(tail(ts), Seq::empty());
        match items.result {
            Err(e) => fail(e, items.rest),
            Ok(list) => {
                if at(items.rest, TokenModel::RightBrace) {
                    done(StmtModel::Block(list), tail(items.rest))
                } else {
                    fail(ParserError::UnexpectedToken, items.rest)
                }
            },
        }
    }
}

/// A branch of an `if`: a block as it stands, any other statement wrapped
/// into a block of its own.
pub open spec fn parse_branch(ts: Tokens) -> Parsed<StmtModel>
    decreases ts.len(), 2int,
{
    if at(ts, TokenModel::LeftBrace) {
        parse_block_statement(ts)
    } else {
        let one = parse_statement(ts);
        match one.result {
            Err(e) => fail(e, one.rest),
            Ok(s) => done(StmtModel::Block(seq![s]), one.rest),
        }
    }
}

/// A function declaration: `fn`, a name, the parameter names in parentheses,
/// and a block.
pub open spec fn parse_function_declaration(ts: Tokens) -> Parsed<StmtModel>
    decreases ts.len(), 0int,
{
    let after = tail(ts);
    match head(after) {
        Some(TokenModel::Identifier(name)) => {
            let open = tail(after);
            if ts.len() == 0 || !at(open, TokenModel::LeftParen) {
                fail(ParserError::UnexpectedToken, open)
            } else {
                let inside = tail(open);
                let list = if head(inside) is None || at(inside, TokenModel::RightParen) {
                    done(Seq::empty(), inside)
                } else {
                    parse_parameters(inside, Seq::empty())
                };
                match list.result {
                    Err(e) => fail(e, list.rest),
                    Ok(params) => {
                        if !at(list.rest, TokenModel::RightParen) {
                            fail(ParserError::UnexpectedToken, list.rest)
                        } else if list.rest.len() <= ts.len() {
                            let block = parse_block_statement(tail(list.rest));
                            match block.result {
                                Err(e) => fail(e, block.rest),
                                Ok(StmtModel::Block(body)) => done(
                                    StmtModel::FunctionDeclaration { name, params, body },
                                    block.rest,
                                ),
                                Ok(_) => fail(ParserError::ExpectedBlock, block.rest),
                            }
                        } else {
                            fail(ParserError::InvalidStatement, ts)
                        }
                    },
                }
            }
        },
        _ => fail(ParserError::ExpectedIdentifier, after),
    }
}

/// An `if` with its condition, its branch, and an optional `else` branch.
pub open spec fn parse_if_statement(ts: Tokens) -> Parsed<StmtModel>
    decreases ts.len(), 0int,
{
    let condition = parse_condition(ts);
    match condition.result {
        Err(e) => fail(e, condition.rest),
        Ok(c) => {
            if ts.len() > 0 && moved(condition, ts) {
                let first = parse_branch(condition.rest);
                match first.result {
                    Err(e) => fail(e, first.rest),
                    Ok(then_branch) => {
                        if at(first.rest, TokenModel::Else) {
                            if moved(first, ts) {
                                let second = parse_branch(tail(first.rest));
                                match second.result {
                                    Err(e) => fail(e, second.rest),
                                    Ok(else_branch) => done(
                                        StmtModel::If {
                                            condition: c,
                                            then_branch: Box::new(then_branch),
                                            else_branch: Some(Box::new(else_branch)),
                                        },
                                        second.rest,
                                    ),
                                }
                            } else {
                                fail(ParserError::InvalidStatement, ts)
                            }
                        } else {
                            done(
                                StmtModel::If {
                                    condition: c,
                                    then_branch: Box::new(then_branch),
                                    else_branch: None,
                                },
                                first.rest,
                            )
                        }
                    },
                }
            } else {
                fail(ParserError::InvalidStatement, ts)
            }
        },
    }
}

/// A `while` with its condition and its body.
pub open spec fn parse_while_statement(ts: Tokens) -> Parsed<StmtModel>
    decreases ts.len(), 0int,
{
    let condition = parse_condition(ts);
    match condition.result {
        Err(e) => fail(e, condition.rest),
        Ok(c) => {
            if ts.len() > 0 && moved(condition, ts) {
                let body = parse_statement(condition.rest);
                match body.result {
                    Err(e) => fail(e, body.rest),
                    Ok(b) => done(StmtModel::While { condition: c, body: Box::new(b) }, body.rest),
                }
            } else {
                fail(ParserError::InvalidStatement, ts)
            }
        },
    }
}

/// The first clause of a `for`: a statement, which takes its own semicolon,
/// or a lone semicolon.
pub open spec fn parse_for_initializer(ts: Tokens) -> Parsed<Option<StmtModel>>
    decreases ts.len(), 2int,
{
    if head(ts) is None {
        fail(ParserError::UnexpectedEOF, ts)
    } else if at(ts, TokenModel::Semicolon) {
        done(None, tail(ts))
    } else {
        let one = parse_statement(ts);
        match one.result {
            Err(e) => fail(e, one.rest),
            Ok(s) => done(Some(s), one.rest),
        }
    }
}

/// The second and third clause of a `for`: an optional condition with its
/// semicolon, and an optional increment with the closing parenthesis.
pub open spec fn parse_for_clauses(ts: Tokens) -> Parsed<(Option<ExprModel>, Option<ExprModel>)> {
    let condition = parse_clause(ts, TokenModel::Semicolon);
    match condition.result {
        Err(e) => fail(e, condition.rest),
        Ok(c) => {
            if !at(condition.rest, TokenModel::Semicolon) {
                fail(ParserError::UnexpectedToken, condition.rest)
            } else {
                let increment = parse_clause(tail(condition.rest), TokenModel::RightParen);
                match increment.result {
                    Err(e) => fail(e, increment.rest),
                    Ok(i) => {
                        if at(increment.rest, TokenModel::RightParen) {
                            done((c, i), tail(increment.rest))
                        } else {
                            fail(ParserError::UnexpectedToken, increment.rest)
                        }
                    },
                }
            }
        },
    }
}

/// A `for` with its three clauses and its body.
pub open spec fn parse_for_statement(ts: Tokens) -> Parsed<StmtModel>
    decreases ts.len(), 0int,
{
    let open = tail(ts);
    if ts.len() == 0 || !at(open, TokenModel::LeftParen) {
        fail(ParserError::UnexpectedToken, open)
    } else {
        let first = parse_for_initializer(tail(open));
        match first.result {
            Err(e) => fail(e, first.rest),
            Ok(initializer) => {
                let clauses = parse_for_clauses(first.rest);
                match clauses.result {
                    Err(e) => fail(e, clauses.rest),
                    Ok((condition, increment)) => {
                        if moved(clauses, ts) {
                            let body = parse_statement(clauses.rest);
                            match body.result {
                                Err(e) => fail(e, body.rest),
                                Ok(b) => done(
                                    StmtModel::For {
                                        initializer: match initializer {
                                            Some(s) => Some(Box::new(s)),
                                            None => None,
                                        },
                                        condition,
                                        increment,
                                        body: Box::new(b),
                                    },
                                    body.rest,
                                ),
                            }
                        } else {
                            fail(ParserError::InvalidStatement, ts)
                        }
                    },
                }
            },
        }
    }
}

/// Whether a token ends the statements of a `case` or `default` group.
pub open spec fn ends_group(t: TokenModel) -> bool {
    t is Case || t is Default || t is RightBrace
}

/// The statements of one `case` or `default` group; `list` holds those read
/// so far.
pub open spec fn parse_group(ts: Tokens, list: Seq<StmtModel>) -> Parsed<Seq<StmtModel>>
    decreases ts.len(), 2int,
{
    match head(ts) {
        None => done(list, ts),
        Some(t) => {
            if ends_group(t) {
                done(list, ts)
            } else {
                let one = parse_statement(ts);
                match one.result {
                    Err(e) => fail(e, one.rest),
                    Ok(s) => {
                        if moved(one, ts) {
                            parse_group(one.rest, list.push(s))
                        } else {
                            fail(ParserError::InvalidStatement, ts)
                        }
                    },
                }
            }
        },
    }
}

/// The groups of a `switch` up to its closing brace; `cases` and `default`
/// hold what was read so far. A later `default` group replaces an earlier
/// one.
pub open spec fn parse_switch_groups(
    ts: Tokens,
    cases: Seq<(ExprModel, Seq<StmtModel>)>,
    default: Option<Seq<StmtModel>>,
) -> Parsed<(Seq<(ExprModel, Seq<StmtModel>)>, Option<Seq<StmtModel>>)>
    decreases ts.len(), 3int,
{
    match head(ts) {
        None => done((cases, default), ts),
        Some(TokenModel::RightBrace) => done((cases, default), ts),
        Some(TokenModel::Case) => {
            let value = parse_expression(tail(ts), 0);
            match value.result {
                Err(e) => fail(e, value.rest),
                Ok(v) => {
                    if !at(value.rest, TokenModel::Colon) {
                        fail(ParserError::UnexpectedToken, value.rest)
                    } else if value.rest.len() <= ts.len() {
                        let group = parse_group(tail(value.rest), Seq::empty());
                        match group.result {
                            Err(e) => fail(e, group.rest),
                            Ok(list) => {
                                if moved(group, ts) {
                                    parse_switch_groups(group.rest, cases.push((v, list)), default)
                                } else {
                                    fail(ParserError::InvalidStatement, ts)
                                }
                            },
                        }
                    } else {
                        fail(ParserError::InvalidStatement, ts)
                    }
                },
            }
        },
        Some(TokenModel::Default) => {
            let after = tail(ts);
            if !at(after, TokenModel::Colon) {
                fail(ParserError::UnexpectedToken, after)
            } else {
                let group = parse_group(tail(after), Seq::empty());
                match group.result {
                    Err(e) => fail(e, group.rest),
                    Ok(list) => {
                        if moved(group, ts) {
                            parse_switch_groups(group.rest, cases, Some(list))
                        } else {
                            fail(ParserError::InvalidStatement, ts)
                        }
                    },
                }
            }
        },
        Some(_) => fail(ParserError::UnexpectedToken, ts),
    }
}

/// A `switch` with its subject and its groups between braces.
pub open spec fn parse_switch_statement(ts: Tokens) -> Parsed<StmtModel>
    decreases ts.len(), 0int,
{
    let subject = parse_condition(ts);
    match subject.result {
        Err(e) => fail(e, subject.rest),
        Ok(condition) => {
            if !at(subject.rest, TokenModel::LeftBrace) {
                fail(ParserError::UnexpectedToken, subject.rest)
            } else if ts.len() > 0 && moved(subject, ts) {
                let groups = parse_switch_groups(tail(subject.rest), Seq::empty(), None);
                match groups.result {
                    Err(e) => fail(e, groups.rest),
                    Ok((cases, default)) => {
                        if at(groups.rest, TokenModel::RightBrace) {
                            done(
                                StmtModel::Switch { condition, cases, default },
                                tail(groups.rest),
                            )
                        } else {
                            fail(ParserError::UnexpectedToken, groups.rest)
                        }
                    },
                }
            } else {
                fail(ParserError::InvalidStatement, ts)
            }
        },
    }
}

/// The statements of a program up to `EOF`; `list` holds those read so far.
/// The first syntax error ends the parse, and so does a lexical error: where
/// the tokens are cut short, between two statements as inside one, the parse
/// fails and gives no statements.
pub open spec fn parse_statements(ts: Tokens, list: Seq<StmtModel>) -> Parsed<Seq<StmtModel>>
    decreases ts.len(),
{
    if at(ts, TokenModel::EOF) {
        done(list, ts)
    } else if head(ts) is None {
        fail(ParserError::UnexpectedEOF, ts)
    } else {
        let one = parse_statement(ts);
        match one.result {
            Err(e) => fail(e, one.rest),
            Ok(s) => {
                if moved(one, ts) {
                    parse_statements(one.rest, list.push(s))
                } else {
                    fail(ParserError::InvalidStatement, ts)
                }
            },
        }
    }
}

/// The program that a source text denotes.
pub open spec fn parse_source(source: Seq<char>) -> Result<Seq<StmtModel>, ParserError> {
    parse_statements(tokens_from(source, 0), Seq::empty()).result
}

/// The errors that parsing gives: a token that does not fit, tokens cut
/// short, or a name that is missing.
pub open spec fn is_syntax_error(e: ParserError) -> bool {
    e is UnexpectedToken || e is UnexpectedEOF || e is ExpectedIdentifier
}

/// What holds of every parse: a success has taken at least one token, and a
/// failure is one of the three syntax errors.
pub open spec fn sound<T>(p: Parsed<T>, ts: Tokens) -> bool {
    match p.result {
        Ok(_) => p.rest.len() < ts.len(),
        Err(e) => is_syntax_error(e),
    }
}

/// What holds of every parse that may take nothing: a success has left no
/// more tokens than it was given, and a failure is one of the three syntax
/// errors.
pub open spec fn steady<T>(p: Parsed<T>, ts: Tokens) -> bool {
    match p.result {
        Ok(_) => p.rest.len() <= ts.len(),
        Err(e) => is_syntax_error(e),
    }
}

/// A primary term takes at least one token and fails with a syntax error only.
pub proof fn lemma_primary_sound(ts: Tokens)
    ensures
        sound(parse_primary(ts), ts),
    decreases ts.len(), 0int,
{
    match head(ts) {
        Some(TokenModel::Identifier(name)) => {
            if at(tail(ts), TokenModel::LeftParen) {
                lemma_call_sound(tail(ts), ExprModel::Identifier(name));
            }
        },
        Some(TokenModel::Out) => {
            if at(tail(ts), TokenModel::LeftParen) {
                lemma_call_sound(tail(ts), ExprModel::Identifier("out"@));
            }
        },
        Some(TokenModel::LeftParen) => {
            lemma_expression_sound(tail(ts), 0);
        },
        _ => {},
    }
}

/// An expression takes at least one token and fails with a syntax error only.
pub proof fn lemma_expression_sound(ts: Tokens, precedence: u8)
    ensures
        sound(parse_expression(ts, precedence), ts),
    decreases ts.len(), 1int,
{
    lemma_primary_sound(ts);
    let first = parse_primary(ts);
    match first.result {
        Ok(left) => {
            lemma_climb_steady(first.rest, left, precedence);
        },
        Err(_) => {},
    }
}

/// Operators behind an operand take tokens or none and fail with a syntax error
/// only.
pub proof fn lemma_climb_steady(ts: Tokens, left: ExprModel, precedence: u8)
    ensures
        steady(climb(ts, left, precedence), ts),
    decreases ts.len(), 0int,
{
    match head(ts) {
        None => {},
        Some(t) => match binary_operator(t) {
            None => {},
            Some(op) => {
                if op.spec_precedence() > precedence {
                    lemma_expression_sound(tail(ts), op.spec_precedence());
                    let right = parse_expression(tail(ts), op.spec_precedence());
                    match right.result {
                        Ok(r) => {
                            lemma_climb_steady(
                                right.rest,
                                ExprModel::Binary {
                                    left: Box::new(left),
                                    operator: op,
                                    right: Box::new(r),
                                },
                                precedence,
                            );
                        },
                        Err(_) => {},
                    }
                }
            },
        },
    }
}

/// A call takes at least one token and fails with a syntax error only.
pub proof fn lemma_call_sound(ts: Tokens, callee: ExprModel)
    requires
        ts.len() > 0,
    ensures
        sound(parse_call(ts, callee), ts),
    decreases ts.len(), 0int,
{
    let inside = tail(ts);
    if head(inside) is None || at(inside, TokenModel::RightParen) {
    } else {
        lemma_arguments_sound(inside, Seq::empty());
    }
}

/// Arguments take at least one token and fail with a syntax error only.
pub proof fn lemma_arguments_sound(ts: Tokens, list: Seq<ExprModel>)
    ensures
        sound(parse_arguments(ts, list), ts),
    decreases ts.len(), 2int,
{
    let minus = at(ts, TokenModel::Minus);
    let from = if minus {
        tail(ts)
    } else {
        ts
    };
    lemma_expression_sound(from, 0);
    let one = parse_expression(from, 0);
    match one.result {
        Ok(e) => {
            let argument = if minus {
                fold_minus(e)
            } else {
                e
            };
            if at(one.rest, TokenModel::Comma) {
                lemma_arguments_sound(tail(one.rest), list.push(argument));
            }
        },
        Err(_) => {},
    }
}

/// Parameter names take at least one token and fail with a syntax error only.
pub proof fn lemma_parameters_sound(ts: Tokens, list: Seq<Seq<char>>)
    ensures
        sound(parse_parameters(ts, list), ts),
    decreases ts.len(),
{
    match head(ts) {
        Some(TokenModel::Identifier(name)) => {
            let after = tail(ts);
            if at(after, TokenModel::Comma) {
                lemma_parameters_sound(tail(after), list.push(name));
            }
        },
        _ => {},
    }
}

/// A condition in parentheses takes at least one token and fails with a syntax
/// error only.
pub proof fn lemma_condition_sound(ts: Tokens)
    requires
        ts.len() > 0,
    ensures
        sound(parse_condition(ts), ts),
{
    let after = tail(ts);
    if at(after, TokenModel::LeftParen) {
        lemma_expression_sound(tail(after), 0);
    }
}

/// A clause of a `for` takes tokens or none and fails with a syntax error only.
pub proof fn lemma_clause_steady(ts: Tokens, end: TokenModel)
    ensures
        steady(parse_clause(ts, end), ts),
{
    lemma_expression_sound(ts, 0);
}

/// The statements without a body take at least one token and fail with a syntax
/// error only.
pub proof fn lemma_simple_statements_sound(ts: Tokens)
    requires
        ts.len() > 0,
    ensures
        sound(parse_expression_statement(ts), ts),
        sound(parse_var_declaration(ts), ts),
        sound(parse_return_statement(ts), ts),
        forall|name: Seq<char>| sound(#[trigger] parse_identifier_statement(ts, name), ts),
{
    lemma_expression_sound(ts, 0);
    let after = tail(ts);
    lemma_expression_sound(after, 0);
    lemma_expression_sound(tail(after), 0);
    lemma_expression_sound(tail(tail(after)), 0);
    assert forall|name: Seq<char>| sound(#[trigger] parse_identifier_statement(ts, name), ts) by {
        if at(after, TokenModel::LeftParen) {
            lemma_call_sound(after, ExprModel::Identifier(name));
        }
    }
}

/// A statement takes at least one token and fails with a syntax error only.
pub proof fn lemma_statement_sound(ts: Tokens)
    ensures
        sound(parse_statement(ts), ts),
    decreases ts.len(), 1int,
{
    match head(ts) {
        None => {},
        Some(TokenModel::Fn) => {
            lemma_function_declaration_sound(ts);
        },
        Some(TokenModel::If) => {
            lemma_if_sound(ts);
        },
        Some(TokenModel::While) => {
            lemma_while_sound(ts);
        },
        Some(TokenModel::For) => {
            lemma_for_sound(ts);
        },
        Some(TokenModel::Switch) => {
            lemma_switch_sound(ts);
        },
        Some(TokenModel::LeftBrace) => {
            lemma_block_sound(ts);
        },
        Some(_) => {
            lemma_simple_statements_sound(ts);
        },
    }
}

/// The statements of a block take tokens or none and fail with a syntax error
/// only.
pub proof fn lemma_block_items_steady(ts: Tokens, list: Seq<StmtModel>)
    ensures
        steady(parse_block_items(ts, list), ts),
    decreases ts.len(), 2int,
{
    if head(ts) is None || at(ts, TokenModel::RightBrace) {
    } else {
        lemma_statement_sound(ts);
        let one = parse_statement(ts);
        match one.result {
            Ok(s) => {
                lemma_block_items_steady(one.rest, list.push(s));
            },
            Err(_) => {},
        }
    }
}

/// A block takes at least one token, is a block, and fails with a syntax error
/// only.
pub proof fn lemma_block_sound(ts: Tokens)
    ensures
        sound(parse_block_statement(ts), ts),
        parse_block_statement(ts).result matches Ok(s) ==> s is Block,
    decreases ts.len(), 0int,
{
    if at(ts, TokenModel::LeftBrace) {
        lemma_block_items_steady(tail(ts), Seq::empty());
    }
}

/// A branch takes at least one token and fails with a syntax error only.
pub proof fn lemma_branch_sound(ts: Tokens)
    ensures
        sound(parse_branch(ts), ts),
    decreases ts.len(), 2int,
{
    if at(ts, TokenModel::LeftBrace) {
        lemma_block_sound(ts);
    } else {
        lemma_statement_sound(ts);
    }
}

/// A function declaration takes at least one token and fails with a syntax error
/// only.
pub proof fn lemma_function_declaration_sound(ts: Tokens)
    ensures
        sound(parse_function_declaration(ts), ts),
    decreases ts.len(), 0int,
{
    let after = tail(ts);
    match head(after) {
        Some(TokenModel::Identifier(name)) => {
            let open = tail(after);
            if ts.len() == 0 || !at(open, TokenModel::LeftParen) {
            } else {
                let inside = tail(open);
                if head(inside) is None || at(inside, TokenModel::RightParen) {
                } else {
                    lemma_parameters_sound(inside, Seq::empty());
                }
                let list = if head(inside) is None || at(inside, TokenModel::RightParen) {
                    done(Seq::empty(), inside)
                } else {
                    parse_parameters(inside, Seq::empty())
                };
                match list.result {
                    Ok(params) => {
                        if at(list.rest, TokenModel::RightParen) {
                            lemma_block_sound(tail(list.rest));
                        }
                    },
                    Err(_) => {},
                }
            }
        },
        _ => {},
    }
}

/// An `if` takes at least one token and fails with a syntax error only.
pub proof fn lemma_if_sound(ts: Tokens)
    requires
        ts.len() > 0,
    ensures
        sound(parse_if_statement(ts), ts),
    decreases ts.len(), 0int,
{
    lemma_condition_sound(ts);
    let condition = parse_condition(ts);
    match condition.result {
        Ok(c) => {
            lemma_branch_sound(condition.rest);
            let first = parse_branch(condition.rest);
            match first.result {
                Ok(_) => {
                    if at(first.rest, TokenModel::Else) {
                        lemma_branch_sound(tail(first.rest));
                    }
                },
                Err(_) => {},
            }
        },
        Err(_) => {},
    }
}

/// A `while` takes at least one token and fails with a syntax error only.
pub proof fn lemma_while_sound(ts: Tokens)
    requires
        ts.len() > 0,
    ensures
        sound(parse_while_statement(ts), ts),
    decreases ts.len(), 0int,
{
    lemma_condition_sound(ts);
    let condition = parse_condition(ts);
    match condition.result {
        Ok(c) => {
            lemma_statement_sound(condition.rest);
        },
        Err(_) => {},
    }
}

/// The first clause of a `for` takes at least one token and fails with a syntax
/// error only.
pub proof fn lemma_for_initializer_sound(ts: Tokens)
    ensures
        sound(parse_for_initializer(ts), ts),
    decreases ts.len(), 2int,
{
    if head(ts) is None {
    } else if at(ts, TokenModel::Semicolon) {
    } else {
        lemma_statement_sound(ts);
    }
}

/// The second and third clause of a `for` take at least one token and fail with
/// a syntax error only.
pub proof fn lemma_for_clauses_sound(ts: Tokens)
    ensures
        sound(parse_for_clauses(ts), ts),
{
    lemma_clause_steady(ts, TokenModel::Semicolon);
    let condition = parse_clause(ts, TokenModel::Semicolon);
    match condition.result {
        Ok(c) => {
            if at(condition.rest, TokenModel::Semicolon) {
                lemma_clause_steady(tail(condition.rest), TokenModel::RightParen);
            }
        },
        Err(_) => {},
    }
}

/// A `for` takes at least one token and fails with a syntax error only.
pub proof fn lemma_for_sound(ts: Tokens)
    requires
        ts.len() > 0,
    ensures
        sound(parse_for_statement(ts), ts),
    decreases ts.len(), 0int,
{
    let open = tail(ts);
    if at(open, TokenModel::LeftParen) {
        lemma_for_initializer_sound(tail(open));
        let first = parse_for_initializer(tail(open));
        match first.result {
            Ok(initializer) => {
                lemma_for_clauses_sound(first.rest);
                let clauses = parse_for_clauses(first.rest);
                match clauses.result {
                    Ok(_) => {
                        lemma_statement_sound(clauses.rest);
                    },
                    Err(_) => {},
                }
            },
            Err(_) => {},
        }
    }
}

/// The statements of a group take tokens or none and fail with a syntax error
/// only.
pub proof fn lemma_group_steady(ts: Tokens, list: Seq<StmtModel>)
    ensures
        steady(parse_group(ts, list), ts),
    decreases ts.len(), 2int,
{
    match head(ts) {
        None => {},
        Some(t) => {
            if !ends_group(t) {
                lemma_statement_sound(ts);
                let one = parse_statement(ts);
                match one.result {
                    Ok(s) => {
                        lemma_group_steady(one.rest, list.push(s));
                    },
                    Err(_) => {},
                }
            }
        },
    }
}

/// The groups of a `switch` take tokens or none and fail with a syntax error
/// only.
pub proof fn lemma_switch_groups_steady(
    ts: Tokens,
    cases: Seq<(ExprModel, Seq<StmtModel>)>,
    default: Option<Seq<StmtModel>>,
)
    ensures
        steady(parse_switch_groups(ts, cases, default), ts),
    decreases ts.len(), 3int,
{
    match head(ts) {
        Some(TokenModel::Case) => {
            lemma_expression_sound(tail(ts), 0);
            let value = parse_expression(tail(ts), 0);
            match value.result {
                Ok(v) => {
                    if at(value.rest, TokenModel::Colon) {
                        lemma_group_steady(tail(value.rest), Seq::empty());
                        let group = parse_group(tail(value.rest), Seq::empty());
                        match group.result {
                            Ok(list) => {
                                lemma_switch_groups_steady(
                                    group.rest,
                                    cases.push((v, list)),
                                    default,
                                );
                            },
                            Err(_) => {},
                        }
                    }
                },
                Err(_) => {},
            }
        },
        Some(TokenModel::Default) => {
            let after = tail(ts);
            if at(after, TokenModel::Colon) {
                lemma_group_steady(tail(after), Seq::empty());
                let group = parse_group(tail(after), Seq::empty());
                match group.result {
                    Ok(list) => {
                        lemma_switch_groups_steady(group.rest, cases, Some(list));
                    },
                    Err(_) => {},
                }
            }
        },
        _ => {},
    }
}

/// A `switch` takes at least one token and fails with a syntax error only.
pub proof fn lemma_switch_sound(ts: Tokens)
    requires
        ts.len() > 0,
    ensures
        sound(parse_switch_statement(ts), ts),
    decreases ts.len(), 0int,
{
    lemma_condition_sound(ts);
    let subject = parse_condition(ts);
    match subject.result {
        Ok(condition) => {
            if at(subject.rest, TokenModel::LeftBrace) {
                lemma_switch_groups_steady(tail(subject.rest), Seq::empty(), None);
            }
        },
        Err(_) => {},
    }
}

/// Parsing fails with one of three errors only: an unexpected token, tokens
/// cut short, or a missing name. The other three kinds of syntax error never
/// come out of a parse.
pub proof fn parsing_gives_three_errors(ts: Tokens, list: Seq<StmtModel>)
    ensures
        parse_statements(ts, list).result matches Err(e) ==> is_syntax_error(e),
        parse_statements(ts, list).result is Ok ==> parse_statements(ts, list).rest.len()
            <= ts.len(),
    decreases ts.len(),
{
    if head(ts) is None || at(ts, TokenModel::EOF) {
    } else {
        lemma_statement_sound(ts);
        let one = parse_statement(ts);
        match one.result {
            Ok(s) => {
                parsing_gives_three_errors(one.rest, list.push(s));
            },
            Err(_) => {},
        }
    }
}

} // verus!
