//! From text to value: the numeric literal of a whole number comes back
//! unchanged from scanning, parsing and rounding.

use vstd::prelude::*;
use crate::ast::{ExprModel, StmtModel};
use crate::environment::lookup;
use crate::error::{LexerErrorModel, ParserError, RuntimeErrorModel};
use crate::grammar::{
    climb, parse_arguments, parse_call, parse_expression, parse_identifier_statement,
    parse_primary, parse_source, parse_statement, parse_statements, tokens_from, Tokens,
};
use crate::lexer::{
    number_end, scan, scan_number, skip_spaces, word_end, word_token,
};
use crate::number::{
    dot_index, is_digit, is_literal, is_whole_literal, lemma_dot_index, literal_number,
    literal_units, rounding_keeps_whole_literals, Number,
};
use crate::semantics::{
    call_result, eval_args, eval_expr, exec_list, exec_stmt, globals, initial_state,
    native_result, run_program,
};
use crate::types::TokenModel;
use crate::value::ValueModel;

verus! {

/// The text of the program that rounds the literal `literal`.
pub open spec fn rounding_source(literal: Seq<char>) -> Seq<char> {
    "round("@ + literal + ");"@
}

/// The call that rounds the number `n`.
pub open spec fn rounding_call(n: Number) -> ExprModel {
    ExprModel::Call {
        callee: Box::new(ExprModel::Identifier("round"@)),
        arguments: seq![ExprModel::Number(n)],
    }
}

/// The tokens of the program that rounds the number `n`.
pub open spec fn rounding_tokens(n: Number) -> Tokens {
    seq![
        Some(TokenModel::Identifier("round"@)),
        Some(TokenModel::LeftParen),
        Some(TokenModel::Number(n)),
        Some(TokenModel::RightParen),
        Some(TokenModel::Semicolon),
        Some(TokenModel::EOF),
    ]
}

/// The digits of a literal that stands in a text before a character that is no
/// digit and no point end where the literal ends.
proof fn lemma_number_end_of_literal(text: Seq<char>, at: int, literal: Seq<char>, k: int)
    requires
        is_literal(literal),
        0 <= at,
        0 <= k <= literal.len(),
        at + literal.len() < text.len(),
        forall|x: int| 0 <= x < literal.len() ==> text[at + x] == #[trigger] literal[x],
        !is_digit(text[at + literal.len()]),
        text[at + literal.len()] != '.',
    ensures
        number_end(text, at + k, dot_index(literal) < k) == (at + literal.len(), false),
    decreases literal.len() - k,
{
    lemma_dot_index(literal);
    if k < literal.len() {
        assert(text[at + k] == literal[k]);
        lemma_number_end_of_literal(text, at, literal, k + 1);
        if k == dot_index(literal) {
            assert(!is_digit('.'));
        } else {
            assert(is_digit(literal[k]));
        }
    }
}

/// `round` is no reserved word, and not the name `out`.
proof fn lemma_round_is_no_keyword()
    ensures
        word_token("round"@) == TokenModel::Identifier("round"@),
        "round"@ != "out"@,
{
    reveal_strlit("round");
    reveal_strlit("var");
    reveal_strlit("fn");
    reveal_strlit("if");
    reveal_strlit("else");
    reveal_strlit("while");
    reveal_strlit("for");
    reveal_strlit("switch");
    reveal_strlit("case");
    reveal_strlit("default");
    reveal_strlit("out");
    reveal_strlit("return");
    reveal_strlit("true");
    reveal_strlit("false");
    assert("round"@.len() == 5 && "round"@[0] == 'r');
    assert("var"@.len() == 3);
    assert("fn"@.len() == 2);
    assert("if"@.len() == 2);
    assert("else"@.len() == 4);
    assert("while"@.len() == 5 && "while"@[0] == 'w');
    assert("for"@.len() == 3);
    assert("switch"@.len() == 6);
    assert("case"@.len() == 4);
    assert("default"@.len() == 7);
    assert("out"@.len() == 3);
    assert("return"@.len() == 6);
    assert("true"@.len() == 4);
    assert("false"@.len() == 5 && "false"@[0] == 'f');
}

/// The scanner reads the program that rounds a literal as a name, an opening
/// parenthesis, the number, a closing parenthesis and a semicolon.
pub proof fn lemma_rounding_tokens(literal: Seq<char>)
    requires
        is_literal(literal),
        literal_number(literal) is Some,
    ensures
        tokens_from(rounding_source(literal), 0) == rounding_tokens(literal_number(literal)->0),
{
    let s = rounding_source(literal);
    let n = literal_number(literal)->0;
    let len = literal.len() as int;
    reveal_strlit("round(");
    reveal_strlit(");");
    reveal_strlit("round");
    lemma_round_is_no_keyword();
    lemma_dot_index(literal);
    assert(s.len() == len + 8);
    assert(s[0] == 'r' && s[1] == 'o' && s[2] == 'u' && s[3] == 'n' && s[4] == 'd' && s[5]
        == '(');
    assert forall|x: int| 0 <= x < len implies s[6 + x] == #[trigger] literal[x] by {}
    assert(s[6 + len] == ')');
    assert(s[7 + len] == ';');
    assert(is_digit(literal[0]));
    assert(s[6] == literal[0]);
    // The name.
    assert(scan(s, 0).outcome == Ok::<TokenModel, LexerErrorModel>(
        TokenModel::Identifier("round"@),
    ) && scan(s, 0).end == 5) by {
        reveal_with_fuel(word_end, 6);
        assert(skip_spaces(s, 0) == 0);
        assert(word_end(s, 0) == 5);
        assert(s.subrange(0, 5) =~= "round"@);
    }
    // The opening parenthesis.
    assert(scan(s, 5).outcome == Ok::<TokenModel, LexerErrorModel>(TokenModel::LeftParen)
        && scan(s, 5).end == 6) by {
        assert(skip_spaces(s, 5) == 5);
    }
    // The number.
    assert(scan(s, 6).outcome == Ok::<TokenModel, LexerErrorModel>(TokenModel::Number(n))
        && scan(s, 6).end == 6 + len) by {
        assert(skip_spaces(s, 6) == 6);
        lemma_number_end_of_literal(s, 6, literal, 0);
        assert(number_end(s, 6, false) == (6 + len, false));
        assert(s.subrange(6, 6 + len) =~= literal);
        assert(scan(s, 6) == scan_number(s, 6));
    }
    // The closing parenthesis, the semicolon and the end.
    assert(scan(s, 6 + len).outcome == Ok::<TokenModel, LexerErrorModel>(TokenModel::RightParen)
        && scan(s, 6 + len).end == 7 + len) by {
        assert(skip_spaces(s, 6 + len) == 6 + len);
    }
    assert(scan(s, 7 + len).outcome == Ok::<TokenModel, LexerErrorModel>(TokenModel::Semicolon)
        && scan(s, 7 + len).end == 8 + len) by {
        assert(skip_spaces(s, 7 + len) == 7 + len);
    }
    assert(scan(s, 8 + len).outcome == Ok::<TokenModel, LexerErrorModel>(TokenModel::EOF)) by {
        assert(skip_spaces(s, 8 + len) == 8 + len);
    }
    assert(tokens_from(s, 8 + len) =~= seq![Some(TokenModel::EOF)]);
    assert(tokens_from(s, 7 + len) =~= seq![Some(TokenModel::Semicolon), Some(TokenModel::EOF)]);
    assert(tokens_from(s, 6 + len) =~= seq![
        Some(TokenModel::RightParen),
        Some(TokenModel::Semicolon),
        Some(TokenModel::EOF),
    ]);
    assert(tokens_from(s, 6) =~= seq![
        Some(TokenModel::Number(n)),
        Some(TokenModel::RightParen),
        Some(TokenModel::Semicolon),
        Some(TokenModel::EOF),
    ]);
    assert(tokens_from(s, 5) =~= seq![
        Some(TokenModel::LeftParen),
        Some(TokenModel::Number(n)),
        Some(TokenModel::RightParen),
        Some(TokenModel::Semicolon),
        Some(TokenModel::EOF),
    ]);
    assert(tokens_from(s, 0) =~= rounding_tokens(n));
}

/// The parser reads those tokens as one statement: the call.
pub proof fn lemma_rounding_statement(n: Number)
    ensures
        parse_statements(rounding_tokens(n), Seq::empty()).result == Ok::<
            Seq<StmtModel>,
            ParserError,
        >(seq![StmtModel::Expression(rounding_call(n))]),
{
    let t0 = rounding_tokens(n);
    let t1 = t0.skip(1);
    let t2 = t1.skip(1);
    let t3 = t2.skip(1);
    let t4 = t3.skip(1);
    let t5 = t4.skip(1);
    assert(t1 =~= seq![
        Some(TokenModel::LeftParen),
        Some(TokenModel::Number(n)),
        Some(TokenModel::RightParen),
        Some(TokenModel::Semicolon),
        Some(TokenModel::EOF),
    ]);
    assert(t2 =~= seq![
        Some(TokenModel::Number(n)),
        Some(TokenModel::RightParen),
        Some(TokenModel::Semicolon),
        Some(TokenModel::EOF),
    ]);
    assert(t3 =~= seq![
        Some(TokenModel::RightParen),
        Some(TokenModel::Semicolon),
        Some(TokenModel::EOF),
    ]);
    assert(t4 =~= seq![Some(TokenModel::Semicolon), Some(TokenModel::EOF)]);
    assert(t5 =~= seq![Some(TokenModel::EOF)]);
    let number = ExprModel::Number(n);
    assert(parse_primary(t2).result == Ok::<ExprModel, ParserError>(number) && parse_primary(
        t2,
    ).rest == t3);
    assert(climb(t3, number, 0).result == Ok::<ExprModel, ParserError>(number) && climb(
        t3,
        number,
        0,
    ).rest == t3);
    assert(parse_expression(t2, 0).result == Ok::<ExprModel, ParserError>(number)
        && parse_expression(t2, 0).rest == t3);
    assert(Seq::<ExprModel>::empty().push(number) =~= seq![number]);
    assert(parse_arguments(t2, Seq::empty()).result == Ok::<Seq<ExprModel>, ParserError>(
        seq![number],
    ) && parse_arguments(t2, Seq::empty()).rest == t3);
    let callee = ExprModel::Identifier("round"@);
    assert(parse_call(t1, callee).result == Ok::<ExprModel, ParserError>(rounding_call(n))
        && parse_call(t1, callee).rest == t4);
    let statement = StmtModel::Expression(rounding_call(n));
    assert(parse_identifier_statement(t0, "round"@).result == Ok::<StmtModel, ParserError>(
        statement,
    ) && parse_identifier_statement(t0, "round"@).rest == t5);
    assert(parse_statement(t0) == parse_identifier_statement(t0, "round"@));
    assert(Seq::<StmtModel>::empty().push(statement) =~= seq![statement]);
    assert(parse_statements(t5, seq![statement]).result == Ok::<Seq<StmtModel>, ParserError>(
        seq![statement],
    ));
}

/// In the scopes in which a program starts, rounding the number of a whole
/// literal gives that number, whatever the budget.
pub proof fn lemma_rounding_value(literal: Seq<char>, fuel: nat)
    requires
        is_literal(literal),
        is_whole_literal(literal),
        literal_number(literal) is Some,
    ensures
        run_program(
            fuel,
            seq![StmtModel::Expression(rounding_call(literal_number(literal)->0))],
            initial_state(),
        ).result == Ok::<ValueModel, RuntimeErrorModel>(
            ValueModel::Number(literal_number(literal)->0),
        ),
{
    let n = literal_number(literal)->0;
    let st = initial_state();
    let call = rounding_call(n);
    let program = seq![StmtModel::Expression(call)];
    rounding_keeps_whole_literals(literal);
    lemma_round_is_no_keyword();
    assert(n.units == literal_units(literal));
    let round = ValueModel::NativeFunction("round"@);
    assert(globals()[0].dom().contains("round"@));
    assert(globals()[0]["round"@] == round);
    assert(lookup(st.env, "round"@) == Some(round));
    let callee = ExprModel::Identifier("round"@);
    assert(eval_expr(fuel, callee, st).result == Ok::<ValueModel, RuntimeErrorModel>(round)
        && eval_expr(fuel, callee, st).state == st);
    let arguments = seq![ExprModel::Number(n)];
    assert(eval_expr(fuel, arguments[0], st).result == Ok::<ValueModel, RuntimeErrorModel>(
        ValueModel::Number(n),
    ));
    assert(Seq::<ValueModel>::empty().push(ValueModel::Number(n)) =~= seq![ValueModel::Number(n)]);
    assert(eval_args(fuel, arguments, 1, st, seq![ValueModel::Number(n)]).result == Ok::<
        Seq<ValueModel>,
        RuntimeErrorModel,
    >(seq![ValueModel::Number(n)]));
    assert(eval_args(fuel, arguments, 0, st, Seq::empty()).result == Ok::<
        Seq<ValueModel>,
        RuntimeErrorModel,
    >(seq![ValueModel::Number(n)]) && eval_args(fuel, arguments, 0, st, Seq::empty()).state
        == st);
    assert(native_result("round"@, seq![ValueModel::Number(n)], st).result == Ok::<
        ValueModel,
        RuntimeErrorModel,
    >(ValueModel::Number(n)));
    assert(call_result(fuel, round, seq![ValueModel::Number(n)], st).result == Ok::<
        ValueModel,
        RuntimeErrorModel,
    >(ValueModel::Number(n)));
    assert(eval_expr(fuel, call, st).result == Ok::<ValueModel, RuntimeErrorModel>(
        ValueModel::Number(n),
    ));
    assert(exec_stmt(fuel, program[0], st) == eval_expr(fuel, call, st));
    let after = exec_stmt(fuel, program[0], st).state;
    assert(exec_list(fuel, program, 1, after, ValueModel::Number(n)).result
        == Ok::<ValueModel, RuntimeErrorModel>(ValueModel::Number(n)));
    assert(exec_list(fuel, program, 0, st, ValueModel::Null).result == Ok::<
        ValueModel,
        RuntimeErrorModel,
    >(ValueModel::Number(n)));
}

/// A whole number comes back from the whole path: the text `round(` +
/// literal + `);` parses to the call, and the call evaluates to the number
/// that the literal denotes.
pub proof fn whole_literals_round_to_themselves(literal: Seq<char>, fuel: nat)
    requires
        is_literal(literal),
        is_whole_literal(literal),
        literal_number(literal) is Some,
    ensures
        parse_source(rounding_source(literal)) == Ok::<Seq<StmtModel>, ParserError>(
            seq![StmtModel::Expression(rounding_call(literal_number(literal)->0))],
        ),
        run_program(
            fuel,
            seq![StmtModel::Expression(rounding_call(literal_number(literal)->0))],
            initial_state(),
        ).result == Ok::<ValueModel, RuntimeErrorModel>(
            ValueModel::Number(literal_number(literal)->0),
        ),
{
    lemma_rounding_tokens(literal);
    lemma_rounding_statement(literal_number(literal)->0);
    lemma_rounding_value(literal, fuel);
}

} // verus!
