//! A small scripting language: scanner, parser and tree-walking evaluator.
//!
//! A source text goes through three stages. The scanner (`lexer`) turns it
//! into tokens (`types`), the parser (`parser`) turns the tokens into
//! statement trees (`ast`), and the evaluator (`interpreter`) runs the trees
//! against a chain of scopes (`environment`) and gives a value (`value`) or
//! an error (`error`). `engine` does all three in one call.
//!
//! What each stage must do is written down as a function on plain
//! sequences: `lexer::scan` for one step of the scanner, the functions of
//! `grammar` for the parser, and those of `semantics` for the evaluator. The
//! code is proved to compute just these functions.
//!
//! Numbers are decimal fractions with six places (`number`); there is no
//! floating point anywhere.
//!
//! Beyond the stages themselves, these facts are proved:
//! - the end of the input is found again by every later step of the scanner
//!   (`lexer::end_of_input_repeats`);
//! - comments are white space to the scanner: a text gives the same tokens
//!   with one space in the place of each comment, and with each character of
//!   each comment blanked out (`comments::comments_are_single_spaces`,
//!   `comments::comments_are_transparent`);
//! - parsing fails with one of three errors only
//!   (`grammar::parsing_gives_three_errors`);
//! - a declaration in an inner scope never changes an outer binding, and an
//!   assignment never creates one
//!   (`environment::inner_declaration_leaves_outer_scopes`,
//!   `environment::assignment_creates_no_binding`);
//! - a run leaves every scope that it opens, and never takes back a line
//!   that was written (`semantics::a_run_keeps_scopes_and_lines`);
//! - the literal of a whole number comes back unchanged from scanning,
//!   parsing and rounding (`roundtrip::whole_literals_round_to_themselves`).

pub mod ast;
pub mod comments;
pub mod engine;
pub mod environment;
pub mod error;
pub mod grammar;
pub mod interpreter;
pub mod lexer;
pub mod number;
pub mod parser;
pub mod roundtrip;
pub mod semantics;
pub mod text;
pub mod types;
pub mod value;
