//! The parser: from tokens to statement trees, by recursive descent with
//! precedence climbing.

use vstd::prelude::*;
use vstd::string::StringExecFns;
use crate::ast::{
    cases_model, exprs_model, lemma_call_model, lemma_stmt_model, names_model, opt_expr_model,
    opt_stmt_model, opt_stmts_model, stmts_model, BinaryOperator, ExprModel, Expression,
    Statement, StmtModel,
};
use crate::error::ParserError;
use crate::grammar::{
    at, binary_operator, climb, done, ends_group, fail, head, missing, negated,
    parse_arguments, parse_block_items, parse_block_statement, parse_branch, parse_call,
    parse_clause, parse_condition, parse_expression, parse_expression_statement,
    parse_for_initializer, parse_for_statement, parse_function_declaration, parse_group,
    parse_identifier_statement, parse_if_statement, parse_parameters, parse_primary,
    parse_return_statement, parse_source, parse_statement, parse_statements,
    parse_switch_groups, parse_switch_statement, parse_var_declaration, parse_while_statement,
    tail, tokens_from, Tokens,
};
use crate::lexer::{lemma_scan_bounds, Lexer};
use crate::number::Number;
use crate::types::{Token, TokenModel, TokenWithPosition};

verus! {

/// The tokens ahead, given the one in hand and those behind it.
pub open spec fn lookahead(t: Option<TokenWithPosition>, behind: Tokens) -> Tokens {
    match t {
        None => seq![None],
        Some(t) => if t.token@ is EOF {
            seq![Some(TokenModel::EOF)]
        } else {
            seq![Some(t.token@)] + behind
        },
    }
}

/// Whether two tokens are the same, payload included.
pub fn token_equals(a: &Token, b: &Token) -> (r: bool)
    ensures
        r == (a@ == b@),
{
    match (a, b) {
        (Token::Var, Token::Var) => true,
        (Token::Fn, Token::Fn) => true,
        (Token::If, Token::If) => true,
        (Token::Else, Token::Else) => true,
        (Token::While, Token::While) => true,
        (Token::For, Token::For) => true,
        (Token::Switch, Token::Switch) => true,
        (Token::Case, Token::Case) => true,
        (Token::Default, Token::Default) => true,
        (Token::Out, Token::Out) => true,
        (Token::Return, Token::Return) => true,
        (Token::True, Token::True) => true,
        (Token::False, Token::False) => true,
        (Token::Identifier(x), Token::Identifier(y)) => *x == *y,
        (Token::Number(x), Token::Number(y)) => x.units == y.units,
        (Token::String(x), Token::String(y)) => *x == *y,
        (Token::Plus, Token::Plus) => true,
        (Token::Minus, Token::Minus) => true,
        (Token::Multiply, Token::Multiply) => true,
        (Token::Divide, Token::Divide) => true,
        (Token::Assign, Token::Assign) => true,
        (Token::Equals, Token::Equals) => true,
        (Token::NotEquals, Token::NotEquals) => true,
        (Token::Greater, Token::Greater) => true,
        (Token::Less, Token::Less) => true,
        (Token::GreaterEquals, Token::GreaterEquals) => true,
        (Token::LessEquals, Token::LessEquals) => true,
        (Token::And, Token::And) => true,
        (Token::Or, Token::Or) => true,
        (Token::Not, Token::Not) => true,
        (Token::LeftParen, Token::LeftParen) => true,
        (Token::RightParen, Token::RightParen) => true,
        (Token::LeftBrace, Token::LeftBrace) => true,
        (Token::RightBrace, Token::RightBrace) => true,
        (Token::Comma, Token::Comma) => true,
        (Token::Semicolon, Token::Semicolon) => true,
        (Token::Colon, Token::Colon) => true,
        (Token::EOF, Token::EOF) => true,
        _ => false,
    }
}

/// The negative of a literal in a call argument.
fn negate_literal(n: Number) -> (r: Number)
    ensures
        r == negated(n),
{
    match n.checked_neg() {
        Some(m) => m,
        None => n,
    }
}

/// The parser. It holds the scanner, the token in hand and the one behind
/// it; a lexical error counts as the end of the tokens.
pub struct Parser {
    lexer: Lexer,
    current_token: Option<TokenWithPosition>,
    peek_token: Option<TokenWithPosition>,
}

impl Parser {
    /// The scanner is in order.
    pub closed spec fn wf(&self) -> bool {
        self.lexer.wf()
    }

    /// The tokens ahead, the one in hand first.
    #[verifier::opaque]
    pub closed spec fn ahead(&self) -> Tokens {
        lookahead(
            self.current_token,
            lookahead(self.peek_token, tokens_from(self.lexer.source(), self.lexer.offset())),
        )
    }

    /// What `ahead` says of the token in hand.
    proof fn lemma_ahead(&self)
        ensures
            self.ahead().len() >= 1,
            head(self.ahead()) == match self.current_token {
                None => None::<TokenModel>,
                Some(t) => Some(t.token@),
            },
            head(self.ahead()) matches Some(t) && t != TokenModel::EOF ==> self.ahead().len()
                >= 2,
    {
        reveal(Parser::ahead);
    }

    /// A parser at the first token of `input`.
    pub fn new(input: &str) -> (parser: Parser)
        requires
            input@.len() < usize::MAX,
        ensures
            parser.wf(),
            parser.ahead() == tokens_from(input@, 0),
    {
        let mut lexer = Lexer::new(input);
        let ghost s = lexer.source();
        proof {
            lemma_scan_bounds(s, 0);
        }
        let current_token = lexer.next_token().ok();
        let ghost mid = lexer.offset();
        proof {
            lemma_scan_bounds(s, mid);
        }
        let peek_token = lexer.next_token().ok();
        let parser = Parser { lexer, current_token, peek_token };
        proof {
            reveal(Parser::ahead);
            assert(tokens_from(s, mid) == lookahead(
                peek_token,
                tokens_from(s, parser.lexer.offset()),
            ));
            assert(tokens_from(s, 0) == lookahead(current_token, tokens_from(s, mid)));
        }
        parser
    }

    /// Takes the token behind the one in hand, and reads one more.
    fn advance_token(&mut self)
        requires
            old(self).wf(),
            head(old(self).ahead()) matches Some(t) && t != TokenModel::EOF,
        ensures
            final(self).wf(),
            final(self).ahead() == tail(old(self).ahead()),
            final(self).ahead().len() == old(self).ahead().len() - 1,
            final(self).ahead().len() >= 1,
    {
        let ghost s = self.lexer.source();
        let ghost mid = self.lexer.offset();
        proof {
            reveal(Parser::ahead);
            self.lemma_ahead();
            self.lexer.lemma_inside();
            lemma_scan_bounds(s, mid);
        }
        self.current_token = self.peek_token.take();
        self.peek_token = self.lexer.next_token().ok();
        proof {
            assert(tokens_from(s, mid) == lookahead(
                self.peek_token,
                tokens_from(s, self.lexer.offset()),
            ));
            assert(self.ahead() =~= tail(old(self).ahead()));
        }
    }

    /// Whether the token in hand is `expected`.
    fn check(&self, expected: &Token) -> (r: bool)
        requires
            self.wf(),
        ensures
            r == at(self.ahead(), expected@),
    {
        proof {
            self.lemma_ahead();
        }
        match &self.current_token {
            Some(t) => token_equals(&t.token, expected),
            None => false,
        }
    }

    /// Whether the token behind the one in hand is `expected`.
    fn check_next(&self, expected: &Token) -> (r: bool)
        requires
            self.wf(),
            head(self.ahead()) matches Some(t) && t != TokenModel::EOF,
        ensures
            r == at(tail(self.ahead()), expected@),
    {
        proof {
            reveal(Parser::ahead);
            let behind = lookahead(
                self.peek_token,
                tokens_from(self.lexer.source(), self.lexer.offset()),
            );
            assert(tail(self.ahead()) =~= behind);
        }
        match &self.peek_token {
            Some(t) => token_equals(&t.token, expected),
            None => false,
        }
    }

    /// Whether the parser stands at the place where a lexical error has cut
    /// the tokens short.
    pub fn cut_short(&self) -> (r: bool)
        requires
            self.wf(),
        ensures
            r == (head(self.ahead()) is None),
    {
        proof {
            self.lemma_ahead();
        }
        self.current_token.is_none()
    }

    /// The name of the identifier in hand, if one is.
    fn identifier(&self) -> (r: Option<String>)
        requires
            self.wf(),
        ensures
            match r {
                Some(name) => head(self.ahead()) == Some(TokenModel::Identifier(name@)),
                None => !(head(self.ahead()) matches Some(TokenModel::Identifier(_))),
            },
    {
        proof {
            self.lemma_ahead();
        }
        match &self.current_token {
            Some(t) => match &t.token {
                Token::Identifier(name) => Some(name.clone()),
                _ => None,
            },
            None => None,
        }
    }

    /// The error for a token that is missing here.
    fn missing_error(&self) -> (e: ParserError)
        requires
            self.wf(),
        ensures
            missing::<()>(self.ahead()).result == Err::<(), ParserError>(e),
    {
        if self.cut_short() {
            ParserError::UnexpectedEOF
        } else {
            ParserError::UnexpectedToken
        }
    }

    /// Takes the token `expected`, which is no `EOF`, or fails.
    fn expect_token(&mut self, expected: Token) -> (r: Result<(), ParserError>)
        requires
            old(self).wf(),
            expected@ != TokenModel::EOF,
        ensures
            final(self).wf(),
            match r {
                Ok(()) => at(old(self).ahead(), expected@) && final(self).ahead() == tail(
                    old(self).ahead(),
                ) && final(self).ahead().len() == old(self).ahead().len() - 1,
                Err(e) => !at(old(self).ahead(), expected@) && e == ParserError::UnexpectedToken
                    && final(self).ahead() == old(self).ahead(),
            },
    {
        if self.check(&expected) {
            self.advance_token();
            Ok(())
        } else {
            Err(ParserError::UnexpectedToken)
        }
    }

    /// The statements of the program, in order, up to `EOF`, or the first
    /// error. A text that does not scan fails as one that does not parse: at
    /// the place of a lexical error the tokens are cut short, and the error
    /// is `UnexpectedEOF` between two statements, and inside a statement the
    /// error that the statement gives for a missing token.
    pub fn parse_program(&mut self) -> (r: Result<Vec<Statement>, ParserError>)
        requires
            old(self).wf(),
        ensures
            final(self).wf(),
            match r {
                Ok(list) => parse_statements(old(self).ahead(), Seq::empty()) == done(
                    stmts_model(list@),
                    final(self).ahead(),
                ),
                Err(e) => parse_statements(old(self).ahead(), Seq::empty()) == fail::<
                    Seq<StmtModel>,
                >(e, final(self).ahead()),
            },
    {
        let mut statements: Vec<Statement> = Vec::new();
        assert(stmts_model(statements@) =~= Seq::empty());
        loop
            invariant
                self.wf(),
                parse_statements(self.ahead(), stmts_model(statements@)) == parse_statements(
                    old(self).ahead(),
                    Seq::empty(),
                ),
            decreases self.ahead().len(),
        {
            if self.check(&Token::EOF) {
                return Ok(statements);
            }
            if self.cut_short() {
                return Err(ParserError::UnexpectedEOF);
            }
            let ghost before = stmts_model(statements@);
            let stmt = match self.parse_statement() {
                Ok(stmt) => stmt,
                Err(e) => {
                    return Err(e);
                },
            };
            statements.push(stmt);
            assert(stmts_model(statements@) =~= before.push(stmt@));
        }
    }

    /// One statement, chosen by the token in hand.
    fn parse_statement(&mut self) -> (r: Result<Statement, ParserError>)
        requires
            old(self).wf(),
        ensures
            final(self).wf(),
            match r {
                Ok(s) => parse_statement(old(self).ahead()) == done(s@, final(self).ahead())
                    && final(self).ahead().len() < old(self).ahead().len(),
                Err(e) => parse_statement(old(self).ahead()) == fail::<StmtModel>(
                    e,
                    final(self).ahead(),
                ),
            },
        decreases old(self).ahead().len(), 1int,
    {
        proof {
            self.lemma_ahead();
        }
        if self.cut_short() {
            return Err(ParserError::UnexpectedEOF);
        }
        if self.check(&Token::Var) {
            self.parse_var_declaration()
        } else if self.check(&Token::Fn) {
            self.parse_function_declaration()
        } else if self.check(&Token::If) {
            self.parse_if_statement()
        } else if self.check(&Token::While) {
            self.parse_while_statement()
        } else if self.check(&Token::For) {
            self.parse_for_statement()
        } else if self.check(&Token::Switch) {
            self.parse_switch_statement()
        } else if self.check(&Token::Return) {
            self.parse_return_statement()
        } else if self.check(&Token::LeftBrace) {
            self.parse_block_statement()
        } else {
            match self.identifier() {
                Some(name) => {
                    if self.check_next(&Token::Assign) || self.check_next(&Token::LeftParen) {
                        self.parse_identifier_statement(name)
                    } else {
                        self.parse_expression_statement()
                    }
                },
                None => self.parse_expression_statement(),
            }
        }
    }

    /// An expression followed by a semicolon, as a statement.
    fn parse_expression_statement(&mut self) -> (r: Result<Statement, ParserError>)
        requires
            old(self).wf(),
        ensures
            final(self).wf(),
            match r {
                Ok(s) => parse_expression_statement(old(self).ahead()) == done(
                    s@,
                    final(self).ahead(),
                ) && final(self).ahead().len() < old(self).ahead().len(),
                Err(e) => parse_expression_statement(old(self).ahead()) == fail::<StmtModel>(
                    e,
                    final(self).ahead(),
                ),
            },
    {
        let expr = match self.parse_expression(0) {
            Ok(expr) => expr,
            Err(e) => {
                return Err(e);
            },
        };
        match self.expect_token(Token::Semicolon) {
            Ok(()) => {},
            Err(e) => {
                return Err(e);
            },
        }
        Ok(Statement::Expression(expr))
    }

    /// An assignment or a call as a statement: the identifier `name` is in
    /// hand, and `=` or `(` is the token behind it.
    fn parse_identifier_statement(&mut self, name: String) -> (r: Result<Statement, ParserError>)
        requires
            old(self).wf(),
            head(old(self).ahead()) == Some(TokenModel::Identifier(name@)),
            at(tail(old(self).ahead()), TokenModel::Assign) || at(
                tail(old(self).ahead()),
                TokenModel::LeftParen,
            ),
        ensures
            final(self).wf(),
            match r {
                Ok(s) => parse_identifier_statement(old(self).ahead(), name@) == done(
                    s@,
                    final(self).ahead(),
                ) && final(self).ahead().len() < old(self).ahead().len(),
                Err(e) => parse_identifier_statement(old(self).ahead(), name@) == fail::<StmtModel>(
                    e,
                    final(self).ahead(),
                ),
            },
    {
        self.advance_token();
        if self.check(&Token::Assign) {
            self.advance_token();
            let value = match self.parse_expression(0) {
                Ok(value) => value,
                Err(e) => {
                    return Err(e);
                },
            };
            match self.expect_token(Token::Semicolon) {
                Ok(()) => {},
                Err(e) => {
                    return Err(e);
                },
            }
            let ghost target = name@;
            let ghost source = value@;
            let left = Expression::identifier(name);
            assert(left@ == ExprModel::Identifier(target));
            let assignment = Expression::binary(left, BinaryOperator::Assign, value);
            assert(assignment@ == (ExprModel::Binary {
                left: Box::new(ExprModel::Identifier(target)),
                operator: BinaryOperator::Assign,
                right: Box::new(source),
            }));
            Ok(Statement::Expression(assignment))
        } else {
            assert(at(self.ahead(), TokenModel::LeftParen));
            let ghost after = self.ahead();
            let expr = match self.parse_function_call(Expression::Identifier(name)) {
                Ok(expr) => expr,
                Err(e) => {
                    return Err(e);
                },
            };
            assert(parse_call(after, ExprModel::Identifier(name@)) == done(expr@, self.ahead()));
            match self.expect_token(Token::Semicolon) {
                Ok(()) => {},
                Err(e) => {
                    return Err(e);
                },
            }
            Ok(Statement::Expression(expr))
        }
    }

    /// An expression whose operators all bind tighter than `precedence`.
    fn parse_expression(&mut self, precedence: u8) -> (r: Result<Expression, ParserError>)
        requires
            old(self).wf(),
        ensures
            final(self).wf(),
            match r {
                Ok(e) => parse_expression(old(self).ahead(), precedence) == done(
                    e@,
                    final(self).ahead(),
                ) && final(self).ahead().len() < old(self).ahead().len(),
                Err(e) => parse_expression(old(self).ahead(), precedence) == fail::<ExprModel>(
                    e,
                    final(self).ahead(),
                ),
            },
        decreases old(self).ahead().len(), 1int,
    {
        let mut left = match self.parse_primary() {
            Ok(left) => left,
            Err(e) => {
                return Err(e);
            },
        };
        loop
            invariant
                self.wf(),
                self.ahead().len() < old(self).ahead().len(),
                climb(self.ahead(), left@, precedence) == parse_expression(
                    old(self).ahead(),
                    precedence,
                ),
            decreases self.ahead().len(),
        {
            proof {
                self.lemma_ahead();
            }
            let op = match self.get_binary_operator() {
                Some(op) => op,
                None => {
                    return Ok(left);
                },
            };
            if op.precedence() <= precedence {
                return Ok(left);
            }
            self.advance_token();
            let right = match self.parse_expression(op.precedence()) {
                Ok(right) => right,
                Err(e) => {
                    return Err(e);
                },
            };
            left = Expression::Binary {
                left: Box::new(left),
                operator: op,
                right: Box::new(right),
            };
        }
    }

    /// A primary term.
    fn parse_primary(&mut self) -> (r: Result<Expression, ParserError>)
        requires
            old(self).wf(),
        ensures
            final(self).wf(),
            match r {
                Ok(e) => parse_primary(old(self).ahead()) == done(e@, final(self).ahead())
                    && final(self).ahead().len() < old(self).ahead().len(),
                Err(e) => parse_primary(old(self).ahead()) == fail::<ExprModel>(
                    e,
                    final(self).ahead(),
                ),
            },
        decreases old(self).ahead().len(), 0int,
    {
        proof {
            self.lemma_ahead();
        }
        let found = match &self.current_token {
            None => {
                return Err(ParserError::UnexpectedEOF);
            },
            Some(t) => match &t.token {
                Token::Number(n) => Expression::Number(*n),
                Token::String(s) => Expression::String(s.clone()),
                Token::Identifier(name) => Expression::Identifier(name.clone()),
                Token::Out => Expression::Identifier(String::from_str("out")),
                Token::True => Expression::Boolean(true),
                Token::False => Expression::Boolean(false),
                Token::LeftParen => {
                    self.advance_token();
                    let expr = match self.parse_expression(0) {
                        Ok(expr) => expr,
                        Err(e) => {
                            return Err(e);
                        },
                    };
                    match self.expect_token(Token::RightParen) {
                        Ok(()) => {},
                        Err(e) => {
                            return Err(e);
                        },
                    }
                    return Ok(expr);
                },
                _ => {
                    return Err(ParserError::UnexpectedToken);
                },
            },
        };
        self.advance_token();
        match found {
            Expression::Identifier(name) => {
                if self.check(&Token::LeftParen) {
                    self.parse_function_call(Expression::Identifier(name))
                } else {
                    Ok(Expression::Identifier(name))
                }
            },
            other => Ok(other),
        }
    }

    /// The binary operator that the token in hand denotes.
    fn get_binary_operator(&self) -> (r: Option<BinaryOperator>)
        requires
            self.wf(),
        ensures
            r == match head(self.ahead()) {
                Some(t) => binary_operator(t),
                None => None,
            },
    {
        proof {
            self.lemma_ahead();
        }
        match &self.current_token {
            None => None,
            Some(t) => match &t.token {
                Token::Plus => Some(BinaryOperator::Add),
                Token::Minus => Some(BinaryOperator::Subtract),
                Token::Multiply => Some(BinaryOperator::Multiply),
                Token::Divide => Some(BinaryOperator::Divide),
                Token::Equals => Some(BinaryOperator::Equal),
                Token::NotEquals => Some(BinaryOperator::NotEqual),
                Token::Greater => Some(BinaryOperator::Greater),
                Token::Less => Some(BinaryOperator::Less),
                Token::GreaterEquals => Some(BinaryOperator::GreaterEqual),
                Token::LessEquals => Some(BinaryOperator::LessEqual),
                Token::And => Some(BinaryOperator::And),
                Token::Or => Some(BinaryOperator::Or),
                Token::Assign => Some(BinaryOperator::Assign),
                _ => None,
            },
        }
    }

    /// A declaration, with `var` in hand.
    fn parse_var_declaration(&mut self) -> (r: Result<Statement, ParserError>)
        requires
            old(self).wf(),
            at(old(self).ahead(), TokenModel::Var),
        ensures
            final(self).wf(),
            match r {
                Ok(s) => parse_var_declaration(old(self).ahead()) == done(s@, final(self).ahead())
                    && final(self).ahead().len() < old(self).ahead().len(),
                Err(e) => parse_var_declaration(old(self).ahead()) == fail::<StmtModel>(
                    e,
                    final(self).ahead(),
                ),
            },
    {
        self.advance_token();
        let name = match self.identifier() {
            Some(name) => name,
            None => {
                return Err(ParserError::ExpectedIdentifier);
            },
        };
        self.advance_token();
        let initializer = if self.check(&Token::Assign) {
            self.advance_token();
            match self.parse_expression(0) {
                Ok(value) => Some(value),
                Err(e) => {
                    return Err(e);
                },
            }
        } else {
            None
        };
        if self.check(&Token::Semicolon) {
            self.advance_token();
            Ok(Statement::VarDeclaration { name, initializer })
        } else {
            Err(self.missing_error())
        }
    }

    /// The parameter names of a function, with the first one in hand.
    fn parse_parameters(&mut self) -> (r: Result<Vec<String>, ParserError>)
        requires
            old(self).wf(),
        ensures
            final(self).wf(),
            match r {
                Ok(list) => parse_parameters(old(self).ahead(), Seq::empty()) == done(
                    names_model(list@),
                    final(self).ahead(),
                ) && final(self).ahead().len() < old(self).ahead().len(),
                Err(e) => parse_parameters(old(self).ahead(), Seq::empty()) == fail::<
                    Seq<Seq<char>>,
                >(
                    e,
                    final(self).ahead(),
                ),
            },
    {
        let mut params: Vec<String> = Vec::new();
        assert(names_model(params@) =~= Seq::empty());
        loop
            invariant
                self.wf(),
                self.ahead().len() <= old(self).ahead().len(),
                parse_parameters(self.ahead(), names_model(params@)) == parse_parameters(
                    old(self).ahead(),
                    Seq::empty(),
                ),
            decreases self.ahead().len(),
        {
            let name = match self.identifier() {
                Some(name) => name,
                None => {
                    return Err(ParserError::ExpectedIdentifier);
                },
            };
            let ghost before = names_model(params@);
            params.push(name);
            assert(names_model(params@) =~= before.push(name@));
            self.advance_token();
            if self.check(&Token::RightParen) {
                return Ok(params);
            } else if self.check(&Token::Comma) {
                self.advance_token();
            } else {
                return Err(self.missing_error());
            }
        }
    }

    /// A function declaration, with `fn` in hand.
    fn parse_function_declaration(&mut self) -> (r: Result<Statement, ParserError>)
        requires
            old(self).wf(),
            at(old(self).ahead(), TokenModel::Fn),
        ensures
            final(self).wf(),
            match r {
                Ok(s) => parse_function_declaration(old(self).ahead()) == done(
                    s@,
                    final(self).ahead(),
                ) && final(self).ahead().len() < old(self).ahead().len(),
                Err(e) => parse_function_declaration(old(self).ahead()) == fail::<StmtModel>(
                    e,
                    final(self).ahead(),
                ),
            },
        decreases old(self).ahead().len(), 0int,
    {
        self.advance_token();
        let name = match self.identifier() {
            Some(name) => name,
            None => {
                return Err(ParserError::ExpectedIdentifier);
            },
        };
        self.advance_token();
        match self.expect_token(Token::LeftParen) {
            Ok(()) => {},
            Err(e) => {
                return Err(e);
            },
        }
        let params = if self.cut_short() || self.check(&Token::RightParen) {
            let empty: Vec<String> = Vec::new();
            assert(names_model(empty@) =~= Seq::empty());
            empty
        } else {
            match self.parse_parameters() {
                Ok(params) => params,
                Err(e) => {
                    return Err(e);
                },
            }
        };
        match self.expect_token(Token::RightParen) {
            Ok(()) => {},
            Err(e) => {
                return Err(e);
            },
        }
        let body = match self.parse_block_statement() {
            Ok(body) => body,
            Err(e) => {
                return Err(e);
            },
        };
        proof {
            lemma_stmt_model(body);
        }
        match body {
            Statement::Block(statements) => {
                let declaration = Statement::FunctionDeclaration {
                    name,
                    params,
                    body: statements,
                };
                proof {
                    lemma_stmt_model(declaration);
                }
                Ok(declaration)
            },
            _ => Err(ParserError::ExpectedBlock),
        }
    }

    /// A block, with its opening brace in hand.
    #[verifier::loop_isolation(false)]
    fn parse_block_statement(&mut self) -> (r: Result<Statement, ParserError>)
        requires
            old(self).wf(),
        ensures
            final(self).wf(),
            match r {
                Ok(s) => parse_block_statement(old(self).ahead()) == done(s@, final(self).ahead())
                    && final(self).ahead().len() < old(self).ahead().len() && s is Block,
                Err(e) => parse_block_statement(old(self).ahead()) == fail::<StmtModel>(
                    e,
                    final(self).ahead(),
                ),
            },
        decreases old(self).ahead().len(), 0int,
    {
        match self.expect_token(Token::LeftBrace) {
            Ok(()) => {},
            Err(e) => {
                return Err(e);
            },
        }
        let ghost inside = self.ahead();
        let mut statements: Vec<Statement> = Vec::new();
        assert(stmts_model(statements@) =~= Seq::empty());
        let mut more = !(self.cut_short() || self.check(&Token::RightBrace));
        while more
            invariant
                self.wf(),
                self.ahead().len() < old(self).ahead().len(),
                more == !(head(self.ahead()) is None || at(self.ahead(), TokenModel::RightBrace)),
                parse_block_items(self.ahead(), stmts_model(statements@)) == parse_block_items(
                    inside,
                    Seq::empty(),
                ),
            decreases self.ahead().len(),
        {
            let ghost before = stmts_model(statements@);
            let stmt = match self.parse_statement() {
                Ok(stmt) => stmt,
                Err(e) => {
                    return Err(e);
                },
            };
            statements.push(stmt);
            assert(stmts_model(statements@) =~= before.push(stmt@));
            more = !(self.cut_short() || self.check(&Token::RightBrace));
        }
        match self.expect_token(Token::RightBrace) {
            Ok(()) => {},
            Err(e) => {
                return Err(e);
            },
        }
        let block = Statement::Block(statements);
        proof {
            lemma_stmt_model(block);
        }
        Ok(block)
    }

    /// A branch of an `if`.
    fn parse_branch(&mut self) -> (r: Result<Statement, ParserError>)
        requires
            old(self).wf(),
        ensures
            final(self).wf(),
            match r {
                Ok(s) => parse_branch(old(self).ahead()) == done(s@, final(self).ahead())
                    && final(self).ahead().len() < old(self).ahead().len(),
                Err(e) => parse_branch(old(self).ahead()) == fail::<StmtModel>(
                    e,
                    final(self).ahead(),
                ),
            },
        decreases old(self).ahead().len(), 2int,
    {
        if self.check(&Token::LeftBrace) {
            self.parse_block_statement()
        } else {
            let stmt = match self.parse_statement() {
                Ok(stmt) => stmt,
                Err(e) => {
                    return Err(e);
                },
            };
            let mut list: Vec<Statement> = Vec::new();
            list.push(stmt);
            assert(stmts_model(list@) =~= seq![stmt@]);
            let block = Statement::Block(list);
            proof {
                lemma_stmt_model(block);
            }
            Ok(block)
        }
    }

    /// `(`, a condition and `)`, with the keyword before them in hand.
    fn parse_condition(&mut self) -> (r: Result<Expression, ParserError>)
        requires
            old(self).wf(),
            head(old(self).ahead()) matches Some(t) && t != TokenModel::EOF,
        ensures
            final(self).wf(),
            match r {
                Ok(e) => parse_condition(old(self).ahead()) == done(e@, final(self).ahead())
                    && final(self).ahead().len() < old(self).ahead().len(),
                Err(e) => parse_condition(old(self).ahead()) == fail::<ExprModel>(
                    e,
                    final(self).ahead(),
                ),
            },
    {
        self.advance_token();
        match self.expect_token(Token::LeftParen) {
            Ok(()) => {},
            Err(e) => {
                return Err(e);
            },
        }
        let condition = match self.parse_expression(0) {
            Ok(condition) => condition,
            Err(e) => {
                return Err(e);
            },
        };
        match self.expect_token(Token::RightParen) {
            Ok(()) => {},
            Err(e) => {
                return Err(e);
            },
        }
        Ok(condition)
    }

    /// An `if`, with the keyword in hand.
    fn parse_if_statement(&mut self) -> (r: Result<Statement, ParserError>)
        requires
            old(self).wf(),
            at(old(self).ahead(), TokenModel::If),
        ensures
            final(self).wf(),
            match r {
                Ok(s) => parse_if_statement(old(self).ahead()) == done(s@, final(self).ahead())
                    && final(self).ahead().len() < old(self).ahead().len(),
                Err(e) => parse_if_statement(old(self).ahead()) == fail::<StmtModel>(
                    e,
                    final(self).ahead(),
                ),
            },
        decreases old(self).ahead().len(), 0int,
    {
        let condition = match self.parse_condition() {
            Ok(condition) => condition,
            Err(e) => {
                return Err(e);
            },
        };
        let then_branch = match self.parse_branch() {
            Ok(branch) => branch,
            Err(e) => {
                return Err(e);
            },
        };
        let else_branch = if self.check(&Token::Else) {
            self.advance_token();
            match self.parse_branch() {
                Ok(branch) => Some(Box::new(branch)),
                Err(e) => {
                    return Err(e);
                },
            }
        } else {
            None
        };
        Ok(Statement::If { condition, then_branch: Box::new(then_branch), else_branch })
    }

    /// A `while`, with the keyword in hand.
    fn parse_while_statement(&mut self) -> (r: Result<Statement, ParserError>)
        requires
            old(self).wf(),
            at(old(self).ahead(), TokenModel::While),
        ensures
            final(self).wf(),
            match r {
                Ok(s) => parse_while_statement(old(self).ahead()) == done(s@, final(self).ahead())
                    && final(self).ahead().len() < old(self).ahead().len(),
                Err(e) => parse_while_statement(old(self).ahead()) == fail::<StmtModel>(
                    e,
                    final(self).ahead(),
                ),
            },
        decreases old(self).ahead().len(), 0int,
    {
        let condition = match self.parse_condition() {
            Ok(condition) => condition,
            Err(e) => {
                return Err(e);
            },
        };
        let body = match self.parse_statement() {
            Ok(body) => body,
            Err(e) => {
                return Err(e);
            },
        };
        Ok(Statement::While { condition, body: Box::new(body) })
    }

    /// An optional expression that ends before `end`.
    fn parse_clause(&mut self, end: Token) -> (r: Result<Option<Expression>, ParserError>)
        requires
            old(self).wf(),
        ensures
            final(self).wf(),
            r is Ok ==> final(self).ahead().len() <= old(self).ahead().len(),
            match r {
                Ok(e) => parse_clause(old(self).ahead(), end@) == done(
                    opt_expr_model(e),
                    final(self).ahead(),
                ),
                Err(e) => parse_clause(old(self).ahead(), end@) == fail::<Option<ExprModel>>(
                    e,
                    final(self).ahead(),
                ),
            },
    {
        if self.cut_short() {
            Err(ParserError::UnexpectedEOF)
        } else if self.check(&end) {
            Ok(None)
        } else {
            match self.parse_expression(0) {
                Ok(value) => Ok(Some(value)),
                Err(e) => Err(e),
            }
        }
    }

    /// The first clause of a `for`.
    fn parse_for_initializer(&mut self) -> (r: Result<Option<Statement>, ParserError>)
        requires
            old(self).wf(),
        ensures
            final(self).wf(),
            match r {
                Ok(s) => parse_for_initializer(old(self).ahead()) == done(
                    opt_stmt_model(s),
                    final(self).ahead(),
                ) && final(self).ahead().len() < old(self).ahead().len(),
                Err(e) => parse_for_initializer(old(self).ahead()) == fail::<Option<StmtModel>>(
                    e,
                    final(self).ahead(),
                ),
            },
        decreases old(self).ahead().len(), 2int,
    {
        if self.cut_short() {
            Err(ParserError::UnexpectedEOF)
        } else if self.check(&Token::Semicolon) {
            self.advance_token();
            Ok(None)
        } else {
            match self.parse_statement() {
                Ok(stmt) => Ok(Some(stmt)),
                Err(e) => Err(e),
            }
        }
    }

    /// A `for`, with the keyword in hand.
    #[verifier::rlimit(50)]
    fn parse_for_statement(&mut self) -> (r: Result<Statement, ParserError>)
        requires
            old(self).wf(),
            at(old(self).ahead(), TokenModel::For),
        ensures
            final(self).wf(),
            match r {
                Ok(s) => parse_for_statement(old(self).ahead()) == done(s@, final(self).ahead())
                    && final(self).ahead().len() < old(self).ahead().len(),
                Err(e) => parse_for_statement(old(self).ahead()) == fail::<StmtModel>(
                    e,
                    final(self).ahead(),
                ),
            },
        decreases old(self).ahead().len(), 0int,
    {
        self.advance_token();
        match self.expect_token(Token::LeftParen) {
            Ok(()) => {},
            Err(e) => {
                return Err(e);
            },
        }
        let initializer = match self.parse_for_initializer() {
            Ok(Some(stmt)) => Some(Box::new(stmt)),
            Ok(None) => None,
            Err(e) => {
                return Err(e);
            },
        };
        let condition = match self.parse_clause(Token::Semicolon) {
            Ok(condition) => condition,
            Err(e) => {
                return Err(e);
            },
        };
        match self.expect_token(Token::Semicolon) {
            Ok(()) => {},
            Err(e) => {
                return Err(e);
            },
        }
        let increment = match self.parse_clause(Token::RightParen) {
            Ok(increment) => increment,
            Err(e) => {
                return Err(e);
            },
        };
        match self.expect_token(Token::RightParen) {
            Ok(()) => {},
            Err(e) => {
                return Err(e);
            },
        }
        let body = match self.parse_statement() {
            Ok(body) => body,
            Err(e) => {
                return Err(e);
            },
        };
        Ok(Statement::For { initializer, condition, increment, body: Box::new(body) })
    }

    /// Whether the token in hand ends a `case` or `default` group.
    fn at_group_end(&self) -> (r: bool)
        requires
            self.wf(),
        ensures
            r == (head(self.ahead()) matches Some(t) && ends_group(t)),
    {
        self.check(&Token::Case) || self.check(&Token::Default) || self.check(&Token::RightBrace)
    }

    /// The statements of one `case` or `default` group.
    fn parse_group(&mut self) -> (r: Result<Vec<Statement>, ParserError>)
        requires
            old(self).wf(),
        ensures
            final(self).wf(),
            r is Ok ==> final(self).ahead().len() <= old(self).ahead().len(),
            match r {
                Ok(list) => parse_group(old(self).ahead(), Seq::empty()) == done(
                    stmts_model(list@),
                    final(self).ahead(),
                ),
                Err(e) => parse_group(old(self).ahead(), Seq::empty()) == fail::<Seq<StmtModel>>(
                    e,
                    final(self).ahead(),
                ),
            },
        decreases old(self).ahead().len(), 2int,
    {
        let mut statements: Vec<Statement> = Vec::new();
        assert(stmts_model(statements@) =~= Seq::empty());
        loop
            invariant
                self.wf(),
                self.ahead().len() <= old(self).ahead().len(),
                parse_group(self.ahead(), stmts_model(statements@)) == parse_group(
                    old(self).ahead(),
                    Seq::empty(),
                ),
            decreases self.ahead().len(),
        {
            if self.cut_short() || self.at_group_end() {
                return Ok(statements);
            }
            let ghost before = stmts_model(statements@);
            let stmt = match self.parse_statement() {
                Ok(stmt) => stmt,
                Err(e) => {
                    return Err(e);
                },
            };
            statements.push(stmt);
            assert(stmts_model(statements@) =~= before.push(stmt@));
        }
    }

    /// A `switch`, with the keyword in hand.
    #[verifier::loop_isolation(false)]
    #[verifier::rlimit(50)]
    fn parse_switch_statement(&mut self) -> (r: Result<Statement, ParserError>)
        requires
            old(self).wf(),
            at(old(self).ahead(), TokenModel::Switch),
        ensures
            final(self).wf(),
            match r {
                Ok(s) => parse_switch_statement(old(self).ahead()) == done(s@, final(self).ahead())
                    && final(self).ahead().len() < old(self).ahead().len(),
                Err(e) => parse_switch_statement(old(self).ahead()) == fail::<StmtModel>(
                    e,
                    final(self).ahead(),
                ),
            },
        decreases old(self).ahead().len(), 0int,
    {
        let condition = match self.parse_condition() {
            Ok(condition) => condition,
            Err(e) => {
                return Err(e);
            },
        };
        match self.expect_token(Token::LeftBrace) {
            Ok(()) => {},
            Err(e) => {
                return Err(e);
            },
        }
        let ghost inside = self.ahead();
        let mut cases: Vec<(Expression, Vec<Statement>)> = Vec::new();
        let mut default: Option<Vec<Statement>> = None;
        assert(cases_model(cases@) =~= Seq::empty());
        let mut more = !(self.cut_short() || self.check(&Token::RightBrace));
        while more
            invariant
                self.wf(),
                self.ahead().len() < old(self).ahead().len(),
                more == !(head(self.ahead()) is None || at(self.ahead(), TokenModel::RightBrace)),
                parse_switch_groups(self.ahead(), cases_model(cases@), opt_stmts_model(default))
                    == parse_switch_groups(inside, Seq::empty(), None),
            decreases self.ahead().len(),
        {
            if self.check(&Token::Case) {
                self.advance_token();
                let case_value = match self.parse_expression(0) {
                    Ok(value) => value,
                    Err(e) => {
                        return Err(e);
                    },
                };
                match self.expect_token(Token::Colon) {
                    Ok(()) => {},
                    Err(e) => {
                        return Err(e);
                    },
                }
                let statements = match self.parse_group() {
                    Ok(statements) => statements,
                    Err(e) => {
                        return Err(e);
                    },
                };
                let ghost before = cases_model(cases@);
                let ghost entry = (case_value@, stmts_model(statements@));
                cases.push((case_value, statements));
                assert(cases_model(cases@) =~= before.push(entry));
            } else if self.check(&Token::Default) {
                self.advance_token();
                match self.expect_token(Token::Colon) {
                    Ok(()) => {},
                    Err(e) => {
                        return Err(e);
                    },
                }
                let statements = match self.parse_group() {
                    Ok(statements) => statements,
                    Err(e) => {
                        return Err(e);
                    },
                };
                default = Some(statements);
            } else {
                return Err(ParserError::UnexpectedToken);
            }
            more = !(self.cut_short() || self.check(&Token::RightBrace));
        }
        match self.expect_token(Token::RightBrace) {
            Ok(()) => {},
            Err(e) => {
                return Err(e);
            },
        }
        let statement = Statement::Switch { condition, cases, default };
        proof {
            lemma_stmt_model(statement);
        }
        Ok(statement)
    }

    /// A `return`, with the keyword in hand.
    fn parse_return_statement(&mut self) -> (r: Result<Statement, ParserError>)
        requires
            old(self).wf(),
            at(old(self).ahead(), TokenModel::Return),
        ensures
            final(self).wf(),
            match r {
                Ok(s) => parse_return_statement(old(self).ahead()) == done(s@, final(self).ahead())
                    && final(self).ahead().len() < old(self).ahead().len(),
                Err(e) => parse_return_statement(old(self).ahead()) == fail::<StmtModel>(
                    e,
                    final(self).ahead(),
                ),
            },
    {
        self.advance_token();
        let value = if self.cut_short() {
            return Err(ParserError::UnexpectedEOF);
        } else if self.check(&Token::Semicolon) {
            None
        } else {
            match self.parse_expression(0) {
                Ok(value) => Some(value),
                Err(e) => {
                    return Err(e);
                },
            }
        };
        match self.expect_token(Token::Semicolon) {
            Ok(()) => {},
            Err(e) => {
                return Err(e);
            },
        }
        Ok(Statement::Return(value))
    }

    /// The arguments of a call, with the first one in hand.
    fn parse_arguments(&mut self) -> (r: Result<Vec<Expression>, ParserError>)
        requires
            old(self).wf(),
        ensures
            final(self).wf(),
            match r {
                Ok(list) => parse_arguments(old(self).ahead(), Seq::empty()) == done(
                    exprs_model(list@),
                    final(self).ahead(),
                ) && final(self).ahead().len() < old(self).ahead().len(),
                Err(e) => parse_arguments(old(self).ahead(), Seq::empty()) == fail::<
                    Seq<ExprModel>,
                >(
                    e,
                    final(self).ahead(),
                ),
            },
        decreases old(self).ahead().len(), 2int,
    {
        let mut arguments: Vec<Expression> = Vec::new();
        assert(exprs_model(arguments@) =~= Seq::empty());
        loop
            invariant
                self.wf(),
                self.ahead().len() <= old(self).ahead().len(),
                parse_arguments(self.ahead(), exprs_model(arguments@)) == parse_arguments(
                    old(self).ahead(),
                    Seq::empty(),
                ),
            decreases self.ahead().len(),
        {
            let is_negative = self.check(&Token::Minus);
            if is_negative {
                self.advance_token();
            }
            let parsed = match self.parse_expression(0) {
                Ok(parsed) => parsed,
                Err(e) => {
                    return Err(e);
                },
            };
            let arg = if is_negative {
                match parsed {
                    Expression::Number(n) => Expression::Number(negate_literal(n)),
                    other => other,
                }
            } else {
                parsed
            };
            let ghost before = exprs_model(arguments@);
            arguments.push(arg);
            assert(exprs_model(arguments@) =~= before.push(arg@));
            if self.check(&Token::RightParen) {
                return Ok(arguments);
            } else if self.check(&Token::Comma) {
                self.advance_token();
            } else {
                return Err(self.missing_error());
            }
        }
    }

    /// A call of `callee`, with the opening parenthesis in hand.
    fn parse_function_call(&mut self, callee: Expression) -> (r: Result<Expression, ParserError>)
        requires
            old(self).wf(),
            at(old(self).ahead(), TokenModel::LeftParen),
        ensures
            final(self).wf(),
            match r {
                Ok(e) => parse_call(old(self).ahead(), callee@) == done(e@, final(self).ahead())
                    && final(self).ahead().len() < old(self).ahead().len(),
                Err(e) => parse_call(old(self).ahead(), callee@) == fail::<ExprModel>(
                    e,
                    final(self).ahead(),
                ),
            },
        decreases old(self).ahead().len(), 0int,
    {
        self.advance_token();
        let arguments = if self.cut_short() || self.check(&Token::RightParen) {
            let empty: Vec<Expression> = Vec::new();
            assert(exprs_model(empty@) =~= Seq::empty());
            empty
        } else {
            match self.parse_arguments() {
                Ok(arguments) => arguments,
                Err(e) => {
                    return Err(e);
                },
            }
        };
        match self.expect_token(Token::RightParen) {
            Ok(()) => {},
            Err(e) => {
                return Err(e);
            },
        }
        let call = Expression::Call { callee: Box::new(callee), arguments };
        proof {
            lemma_call_model(call);
        }
        Ok(call)
    }
}

/// Parses a whole source text.
pub fn parse(input: &str) -> (r: Result<Vec<Statement>, ParserError>)
    requires
        input@.len() < usize::MAX,
    ensures
        match r {
            Ok(list) => parse_source(input@) == Ok::<Seq<StmtModel>, ParserError>(
                stmts_model(list@),
            ),
            Err(e) => parse_source(input@) == Err::<Seq<StmtModel>, ParserError>(e),
        },
{
    let mut parser = Parser::new(input);
    parser.parse_program()
}

} // verus!
