//! The scanner: from source text to positioned tokens, one at a time.

use vstd::prelude::*;
use vstd::std_specs::iter::IteratorSpec;
use crate::error::{LexerError, LexerErrorModel};
use crate::number::{
    dot_index, is_digit, is_literal, lemma_dot_index, lemma_literal_units_nonneg, literal_number,
    Number,
};
use crate::text::{chars_of, string_of};
use crate::types::{Position, Token, TokenModel, TokenWithPosition};

verus! {

/// Whether `c` is white space: the characters that Unicode classes as
/// `White_Space`.
pub open spec fn is_space(c: char) -> bool {
    let u = c as u32;
    ||| 0x09 <= u <= 0x0d
    ||| u == 0x20
    ||| u == 0x85
    ||| u == 0xa0
    ||| u == 0x1680
    ||| 0x2000 <= u <= 0x200a
    ||| u == 0x2028
    ||| u == 0x2029
    ||| u == 0x202f
    ||| u == 0x205f
    ||| u == 0x3000
}

/// Whether `c` can start an identifier.
pub open spec fn is_letter(c: char) -> bool {
    ||| 'a' <= c <= 'z'
    ||| 'A' <= c <= 'Z'
    ||| c == '_'
}

/// Whether `c` can continue an identifier.
pub open spec fn is_word_char(c: char) -> bool {
    is_letter(c) || is_digit(c)
}

/// The line of the character at index `i`; the end of the text counts as one
/// more character. Index `-1` stands for the place before the text.
pub open spec fn line_at(s: Seq<char>, i: int) -> int
    decreases i + 1,
{
    if i < 0 {
        1
    } else {
        line_at(s, i - 1) + if i < s.len() && s[i] == '\n' {
            1int
        } else {
            0int
        }
    }
}

/// The column of the character at index `i`: zero for a line break, else one
/// more than that of its predecessor.
pub open spec fn column_at(s: Seq<char>, i: int) -> int
    decreases i + 1,
{
    if i < 0 {
        0
    } else if i < s.len() && s[i] == '\n' {
        0
    } else {
        column_at(s, i - 1) + 1
    }
}

/// The position of the character at index `i`.
pub open spec fn position_at(s: Seq<char>, i: int) -> Position {
    Position { line: line_at(s, i) as usize, column: column_at(s, i) as usize }
}

/// The first index at or behind `i` that holds no white space.
pub open spec fn skip_spaces(s: Seq<char>, i: int) -> int
    decreases s.len() - i,
{
    if 0 <= i < s.len() && is_space(s[i]) {
        skip_spaces(s, i + 1)
    } else {
        i
    }
}

/// Where a line comment ends whose text starts at `i`: behind the next line
/// break, or at the end of the text.
pub open spec fn line_comment_end(s: Seq<char>, i: int) -> int
    decreases s.len() - i,
{
    if i < 0 || i >= s.len() {
        i
    } else if s[i] == '\n' {
        i + 1
    } else {
        line_comment_end(s, i + 1)
    }
}

/// Where a block comment ends, read from `i` inside it at nesting `depth`:
/// the index behind the `*/` that closes the outermost level, or `None` where
/// the text ends first.
pub open spec fn block_comment_end(s: Seq<char>, i: int, depth: int) -> Option<int>
    decreases s.len() - i,
{
    if i < 0 || i >= s.len() {
        None
    } else if s[i] == '/' {
        if i + 1 < s.len() && s[i + 1] == '*' {
            block_comment_end(s, i + 2, depth + 1)
        } else {
            block_comment_end(s, i + 1, depth)
        }
    } else if s[i] == '*' {
        if i + 1 < s.len() && s[i + 1] == '/' {
            if depth <= 1 {
                Some(i + 2)
            } else {
                block_comment_end(s, i + 2, depth - 1)
            }
        } else {
            block_comment_end(s, i + 1, depth)
        }
    } else {
        block_comment_end(s, i + 1, depth)
    }
}

/// The first index at or behind `i` that cannot continue an identifier.
pub open spec fn word_end(s: Seq<char>, i: int) -> int
    decreases s.len() - i,
{
    if 0 <= i < s.len() && is_word_char(s[i]) {
        word_end(s, i + 1)
    } else {
        i
    }
}

/// The token of a word: a keyword where the word is reserved, else an
/// identifier.
pub open spec fn word_token(w: Seq<char>) -> TokenModel {
    if w == "var"@ {
        TokenModel::Var
    } else if w == "fn"@ {
        TokenModel::Fn
    } else if w == "if"@ {
        TokenModel::If
    } else if w == "else"@ {
        TokenModel::Else
    } else if w == "while"@ {
        TokenModel::While
    } else if w == "for"@ {
        TokenModel::For
    } else if w == "switch"@ {
        TokenModel::Switch
    } else if w == "case"@ {
        TokenModel::Case
    } else if w == "default"@ {
        TokenModel::Default
    } else if w == "out"@ {
        TokenModel::Out
    } else if w == "return"@ {
        TokenModel::Return
    } else if w == "true"@ {
        TokenModel::True
    } else if w == "false"@ {
        TokenModel::False
    } else {
        TokenModel::Identifier(w)
    }
}

/// Where the digits and points of a numeric literal stop, read from `i`:
/// the index, and whether a second decimal point stopped the literal.
pub open spec fn number_end(s: Seq<char>, i: int, seen_point: bool) -> (int, bool)
    decreases s.len() - i,
{
    if i < 0 || i >= s.len() {
        (i, false)
    } else if is_digit(s[i]) {
        number_end(s, i + 1, seen_point)
    } else if s[i] == '.' {
        if seen_point {
            (i, true)
        } else {
            number_end(s, i + 1, true)
        }
    } else {
        (i, false)
    }
}

/// The character that an escape sequence with the letter `c` stands for.
pub open spec fn unescape(c: char) -> char {
    if c == 'n' {
        '\n'
    } else if c == 't' {
        '\t'
    } else if c == 'r' {
        '\r'
    } else {
        c
    }
}

/// Reads a string body from `i`, with `text` read so far: the text and the
/// index behind the closing quote, or `None` where the source ends first.
pub open spec fn string_end(s: Seq<char>, i: int, text: Seq<char>) -> Option<(Seq<char>, int)>
    decreases s.len() - i,
{
    if i < 0 || i >= s.len() {
        None
    } else if s[i] == '"' {
        Some((text, i + 1))
    } else if s[i] == '\\' {
        if i + 1 < s.len() {
            string_end(s, i + 2, text.push(unescape(s[i + 1])))
        } else {
            None
        }
    } else {
        string_end(s, i + 1, text.push(s[i]))
    }
}

/// What one scanning step finds: a token or an error, the index where the
/// token starts, and the index where the scanner stands afterwards.
pub struct Scan {
    pub outcome: Result<TokenModel, LexerErrorModel>,
    pub start: int,
    pub end: int,
}

/// A token that takes `width` characters at `j`.
pub open spec fn found(token: TokenModel, j: int, width: int) -> Scan {
    Scan { outcome: Ok(token), start: j, end: j + width }
}

/// An error reported at `j`, with the scanner left at `end`.
pub open spec fn invalid_character(s: Seq<char>, j: int, end: int) -> Scan {
    Scan {
        outcome: Err(LexerErrorModel::InvalidCharacter(s[j], line_at(s, j), column_at(s, j))),
        start: j,
        end,
    }
}

/// Whether the character behind `j` is `c`.
pub open spec fn followed_by(s: Seq<char>, j: int, c: char) -> bool {
    j + 1 < s.len() && s[j + 1] == c
}

/// The numeric literal that starts at `j`.
pub open spec fn scan_number(s: Seq<char>, j: int) -> Scan {
    let (end, second_point) = number_end(s, j, false);
    let text = s.subrange(j, end);
    if second_point {
        Scan {
            outcome: Err(LexerErrorModel::InvalidNumber(text, line_at(s, j), column_at(s, j))),
            start: j,
            end,
        }
    } else {
        match literal_number(text) {
            Some(n) => Scan { outcome: Ok(TokenModel::Number(n)), start: j, end },
            None => Scan {
                outcome: Err(LexerErrorModel::InvalidNumber(text, line_at(s, j), column_at(s, j))),
                start: j,
                end,
            },
        }
    }
}

/// The string literal whose opening quote is at `j`.
pub open spec fn scan_string(s: Seq<char>, j: int) -> Scan {
    match string_end(s, j + 1, Seq::empty()) {
        Some((text, end)) => Scan { outcome: Ok(TokenModel::String(text)), start: j, end },
        None => Scan {
            outcome: Err(LexerErrorModel::UnterminatedString(line_at(s, j), column_at(s, j))),
            start: j,
            end: s.len() as int,
        },
    }
}

/// The operator or punctuation mark at `j`, which is no `/`.
pub open spec fn scan_mark(s: Seq<char>, j: int) -> Scan {
    let c = s[j];
    if c == '+' {
        found(TokenModel::Plus, j, 1)
    } else if c == '-' {
        found(TokenModel::Minus, j, 1)
    } else if c == '*' {
        found(TokenModel::Multiply, j, 1)
    } else if c == '=' {
        if followed_by(s, j, '=') {
            found(TokenModel::Equals, j, 2)
        } else {
            found(TokenModel::Assign, j, 1)
        }
    } else if c == '!' {
        if followed_by(s, j, '=') {
            found(TokenModel::NotEquals, j, 2)
        } else {
            found(TokenModel::Not, j, 1)
        }
    } else if c == '>' {
        if followed_by(s, j, '=') {
            found(TokenModel::GreaterEquals, j, 2)
        } else {
            found(TokenModel::Greater, j, 1)
        }
    } else if c == '<' {
        if followed_by(s, j, '=') {
            found(TokenModel::LessEquals, j, 2)
        } else {
            found(TokenModel::Less, j, 1)
        }
    } else if c == '&' {
        if followed_by(s, j, '&') {
            found(TokenModel::And, j, 2)
        } else {
            invalid_character(s, j, j + 1)
        }
    } else if c == '|' {
        if followed_by(s, j, '|') {
            found(TokenModel::Or, j, 2)
        } else {
            invalid_character(s, j, j + 1)
        }
    } else if c == '(' {
        found(TokenModel::LeftParen, j, 1)
    } else if c == ')' {
        found(TokenModel::RightParen, j, 1)
    } else if c == '{' {
        found(TokenModel::LeftBrace, j, 1)
    } else if c == '}' {
        found(TokenModel::RightBrace, j, 1)
    } else if c == ',' {
        found(TokenModel::Comma, j, 1)
    } else if c == ':' {
        found(TokenModel::Colon, j, 1)
    } else if c == ';' {
        found(TokenModel::Semicolon, j, 1)
    } else {
        invalid_character(s, j, j)
    }
}

/// The error for a block comment whose `*` is at `star` and that never ends.
pub open spec fn unterminated_comment(s: Seq<char>, star: int) -> Scan {
    Scan {
        outcome: Err(
            LexerErrorModel::UnterminatedBlockComment(line_at(s, star), column_at(s, star) - 2),
        ),
        start: star - 1,
        end: s.len() as int,
    }
}

/// One scanning step from index `i`: white space and comments are passed
/// over, then one token is read.
pub open spec fn scan(s: Seq<char>, i: int) -> Scan
    decreases s.len() - i,
{
    let j = skip_spaces(s, i);
    if j < 0 || j >= s.len() {
        found(TokenModel::EOF, j, 0)
    } else if s[j] == '/' {
        if followed_by(s, j, '/') {
            proof {
                lemma_skip_spaces(s, i);
                lemma_line_comment_end(s, j + 2);
            }
            scan(s, line_comment_end(s, j + 2))
        } else if followed_by(s, j, '*') {
            match block_comment_end(s, j + 2, 1) {
                Some(k) => {
                    proof {
                        lemma_skip_spaces(s, i);
                        lemma_block_comment_end(s, j + 2, 1);
                    }
                    scan(s, k)
                },
                None => unterminated_comment(s, j + 1),
            }
        } else {
            found(TokenModel::Divide, j, 1)
        }
    } else if is_letter(s[j]) {
        let end = word_end(s, j);
        Scan { outcome: Ok(word_token(s.subrange(j, end))), start: j, end }
    } else if is_digit(s[j]) {
        scan_number(s, j)
    } else if s[j] == '"' {
        scan_string(s, j)
    } else {
        scan_mark(s, j)
    }
}

/// Passing over white space stays inside the text, stops at a character that is no
/// white space, and does nothing when done again.
pub proof fn lemma_skip_spaces(s: Seq<char>, i: int)
    requires
        0 <= i <= s.len(),
    ensures
        i <= skip_spaces(s, i) <= s.len(),
        skip_spaces(s, i) < s.len() ==> !is_space(s[skip_spaces(s, i)]),
        skip_spaces(s, skip_spaces(s, i)) == skip_spaces(s, i),
    decreases s.len() - i,
{
    if i < s.len() && is_space(s[i]) {
        lemma_skip_spaces(s, i + 1);
    }
}

/// A line comment ends at or behind the place where its text starts, inside the
/// text.
pub proof fn lemma_line_comment_end(s: Seq<char>, i: int)
    requires
        0 <= i,
    ensures
        i <= line_comment_end(s, i),
        i <= s.len() ==> line_comment_end(s, i) <= s.len(),
    decreases s.len() - i,
{
    if i < s.len() && s[i] != '\n' {
        lemma_line_comment_end(s, i + 1);
    }
}

/// A block comment that ends does so behind the place from which it is read,
/// inside the text.
pub proof fn lemma_block_comment_end(s: Seq<char>, i: int, depth: int)
    requires
        0 <= i,
    ensures
        block_comment_end(s, i, depth) matches Some(k) ==> i < k <= s.len(),
    decreases s.len() - i,
{
    if i < s.len() {
        if s[i] == '/' {
            if i + 1 < s.len() && s[i + 1] == '*' {
                lemma_block_comment_end(s, i + 2, depth + 1);
            } else {
                lemma_block_comment_end(s, i + 1, depth);
            }
        } else if s[i] == '*' {
            if i + 1 < s.len() && s[i + 1] == '/' {
                if depth > 1 {
                    lemma_block_comment_end(s, i + 2, depth - 1);
                }
            } else {
                lemma_block_comment_end(s, i + 1, depth);
            }
        } else {
            lemma_block_comment_end(s, i + 1, depth);
        }
    }
}

/// Lines and columns are bounded by the number of characters read.
pub proof fn lemma_position_bounds(s: Seq<char>, i: int)
    requires
        -1 <= i <= s.len(),
    ensures
        1 <= line_at(s, i) <= i + 2,
        line_at(s, i) <= s.len() + 1,
        0 <= column_at(s, i) <= i + 1,
        0 <= i && !(i < s.len() && s[i] == '\n') ==> 1 <= column_at(s, i),
    decreases i + 1,
{
    if i >= 0 {
        lemma_position_bounds(s, i - 1);
    }
}

/// A word ends inside the text, at the first character that cannot continue it.
pub proof fn lemma_word_end(s: Seq<char>, i: int)
    requires
        0 <= i <= s.len(),
    ensures
        i <= word_end(s, i) <= s.len(),
        i < s.len() && is_word_char(s[i]) ==> i < word_end(s, i),
        word_end(s, i) < s.len() ==> !is_word_char(s[word_end(s, i)]),
    decreases s.len() - i,
{
    if i < s.len() && is_word_char(s[i]) {
        lemma_word_end(s, i + 1);
    }
}

/// The digits of a number end inside the text, at a character that is no digit.
pub proof fn lemma_number_end(s: Seq<char>, i: int, seen_point: bool)
    requires
        0 <= i <= s.len(),
    ensures
        i <= number_end(s, i, seen_point).0 <= s.len(),
        i < s.len() && is_digit(s[i]) ==> i < number_end(s, i, seen_point).0,
        ({
            let e = number_end(s, i, seen_point).0;
            e < s.len() ==> !is_digit(s[e])
        }),
        ({
            let e = number_end(s, i, seen_point).0;
            e < s.len() && s[e] == '.' ==> number_end(s, i, seen_point).1
        }),
    decreases s.len() - i,
{
    if i < s.len() {
        if is_digit(s[i]) {
            lemma_number_end(s, i + 1, seen_point);
        } else if s[i] == '.' && !seen_point {
            lemma_number_end(s, i + 1, true);
        }
    }
}

/// A string that ends does so behind the place from which it is read, inside the
/// text.
pub proof fn lemma_string_end(s: Seq<char>, i: int, text: Seq<char>)
    requires
        0 <= i,
    ensures
        string_end(s, i, text) matches Some(found) ==> i < found.1 <= s.len(),
    decreases s.len() - i,
{
    if i < s.len() && s[i] != '"' {
        if s[i] == '\\' {
            if i + 1 < s.len() {
                lemma_string_end(s, i + 2, text.push(unescape(s[i + 1])));
            }
        } else {
            lemma_string_end(s, i + 1, text.push(s[i]));
        }
    }
}

/// A scanning step stays inside the text, and a token other than `EOF` moves
/// the scanner forward.
pub proof fn lemma_scan_bounds(s: Seq<char>, i: int)
    requires
        0 <= i <= s.len(),
    ensures
        i <= scan(s, i).end <= s.len(),
        scan(s, i).outcome matches Ok(t) && t != TokenModel::EOF ==> i < scan(s, i).end,
        scan(s, i).outcome == Ok::<TokenModel, LexerErrorModel>(TokenModel::EOF) ==> scan(
            s,
            i,
        ).end == s.len(),
    decreases s.len() - i,
{
    lemma_skip_spaces(s, i);
    let j = skip_spaces(s, i);
    if j < s.len() {
        if s[j] == '/' {
            if followed_by(s, j, '/') {
                lemma_line_comment_end(s, j + 2);
                lemma_scan_bounds(s, line_comment_end(s, j + 2));
            } else if followed_by(s, j, '*') {
                lemma_block_comment_end(s, j + 2, 1);
                match block_comment_end(s, j + 2, 1) {
                    Some(k) => {
                        lemma_scan_bounds(s, k);
                    },
                    None => {},
                }
            }
        } else if is_letter(s[j]) {
            lemma_word_end(s, j);
            lemma_word_token(s.subrange(j, word_end(s, j)));
        } else if is_digit(s[j]) {
            lemma_number_end(s, j, false);
        } else if s[j] == '"' {
            lemma_string_end(s, j + 1, Seq::empty());
        }
    }
}

/// The end of the input is stable: once a scanning step has found it, the
/// scanner stands at the end of the text, and every later step finds it
/// again at the same place.
pub proof fn end_of_input_repeats(s: Seq<char>, i: int)
    requires
        0 <= i <= s.len(),
        scan(s, i).outcome == Ok::<TokenModel, LexerErrorModel>(TokenModel::EOF),
    ensures
        scan(s, i) == found(TokenModel::EOF, s.len() as int, 0),
        scan(s, scan(s, i).end) == scan(s, i),
    decreases s.len() - i,
{
    lemma_skip_spaces(s, i);
    let j = skip_spaces(s, i);
    if j < s.len() {
        if s[j] == '/' {
            if followed_by(s, j, '/') {
                lemma_line_comment_end(s, j + 2);
                end_of_input_repeats(s, line_comment_end(s, j + 2));
            } else if followed_by(s, j, '*') {
                lemma_block_comment_end(s, j + 2, 1);
                match block_comment_end(s, j + 2, 1) {
                    Some(k) => {
                        end_of_input_repeats(s, k);
                    },
                    None => {},
                }
            }
        } else if is_letter(s[j]) {
            lemma_word_token(s.subrange(j, word_end(s, j)));
        }
    }
    assert(skip_spaces(s, s.len() as int) == s.len());
}

/// White space before a token is passed over: scanning from `i` finds what
/// scanning from the first place behind the white space finds.
pub proof fn spaces_are_skipped(s: Seq<char>, i: int)
    requires
        0 <= i <= s.len(),
    ensures
        scan(s, i) == scan(s, skip_spaces(s, i)),
{
    lemma_skip_spaces(s, i);
}

/// A line comment is passed over: scanning from its `//` finds what scanning
/// from behind its line break finds.
pub proof fn line_comment_is_skipped(s: Seq<char>, i: int)
    requires
        0 <= i,
        i + 1 < s.len(),
        s[i] == '/',
        s[i + 1] == '/',
    ensures
        scan(s, i) == scan(s, line_comment_end(s, i + 2)),
{
    assert(!is_space('/'));
}

/// A block comment is passed over, whatever it holds and however deep it
/// nests: scanning from its `/*` finds what scanning from behind the `*/`
/// that closes it finds.
pub proof fn block_comment_is_skipped(s: Seq<char>, i: int, end: int)
    requires
        0 <= i,
        i + 1 < s.len(),
        s[i] == '/',
        s[i + 1] == '*',
        block_comment_end(s, i + 2, 1) == Some(end),
    ensures
        scan(s, i) == scan(s, end),
{
    assert(!is_space('/'));
}

/// Digits with at most one point behind a first digit have the shape of a literal.
proof fn lemma_number_shape(s: Seq<char>, j: int, i: int, seen_point: bool, point: int)
    requires
        0 <= j < i <= s.len(),
        is_digit(s[j]),
        seen_point ==> j < point < i && s[point] == '.',
        forall|k: int| j <= k < i && !(seen_point && k == point) ==> is_digit(#[trigger] s[k]),
        !number_end(s, i, seen_point).1,
    ensures
        is_literal(s.subrange(j, number_end(s, i, seen_point).0)),
    decreases s.len() - i,
{
    lemma_number_end(s, i, seen_point);
    if i < s.len() && is_digit(s[i]) {
        lemma_number_shape(s, j, i + 1, seen_point, point);
    } else if i < s.len() && s[i] == '.' && !seen_point {
        lemma_number_shape(s, j, i + 1, true, i);
    } else {
        let text = s.subrange(j, i);
        lemma_dot_index(text);
        let d = dot_index(text);
        assert(text[0] == s[j]);
        if d < text.len() {
            assert(text[d] == s[j + d]);
            assert(!is_digit('.'));
        }
        assert forall|k: int| 0 <= k < text.len() && k != d implies is_digit(
            #[trigger] text[k],
        ) by {
            assert(text[k] == s[j + k]);
        }
    }
}

/// The text of a numeric literal that the scanner accepts has the shape of
/// a literal.
pub proof fn lemma_scanned_literal(s: Seq<char>, j: int)
    requires
        0 <= j < s.len(),
        is_digit(s[j]),
        !number_end(s, j, false).1,
    ensures
        is_literal(s.subrange(j, number_end(s, j, false).0)),
{
    lemma_number_shape(s, j, j + 1, false, 0);
}

/// The scanner yields no negative number: a minus sign is a token of its
/// own.
pub proof fn scanned_numbers_are_not_negative(s: Seq<char>, i: int)
    requires
        0 <= i <= s.len(),
    ensures
        scan(s, i).outcome matches Ok(TokenModel::Number(n)) ==> n.units >= 0,
    decreases s.len() - i,
{
    lemma_skip_spaces(s, i);
    let j = skip_spaces(s, i);
    if j < s.len() {
        if s[j] == '/' {
            if followed_by(s, j, '/') {
                lemma_line_comment_end(s, j + 2);
                scanned_numbers_are_not_negative(s, line_comment_end(s, j + 2));
            } else if followed_by(s, j, '*') {
                lemma_block_comment_end(s, j + 2, 1);
                match block_comment_end(s, j + 2, 1) {
                    Some(k) => {
                        scanned_numbers_are_not_negative(s, k);
                    },
                    None => {},
                }
            }
        } else if is_letter(s[j]) {
            lemma_word_is_no_number(s.subrange(j, word_end(s, j)));
        } else if is_digit(s[j]) {
            if !number_end(s, j, false).1 {
                lemma_scanned_literal(s, j);
                lemma_literal_units_nonneg(s.subrange(j, number_end(s, j, false).0));
            }
        }
    }
}

/// No word is a number token.
proof fn lemma_word_is_no_number(w: Seq<char>)
    ensures
        !(word_token(w) is Number),
{
}

/// The first lexical error that scanning meets on its way from `i`, token
/// by token, or `None` where it reaches the end of the text.
pub open spec fn scan_failure(s: Seq<char>, i: int) -> Option<LexerErrorModel>
    decreases s.len() - i,
{
    if i < 0 || i > s.len() {
        None
    } else {
        match scan(s, i).outcome {
            Err(e) => Some(e),
            Ok(t) => {
                if t == TokenModel::EOF {
                    None
                } else {
                    proof {
                        lemma_scan_bounds(s, i);
                    }
                    scan_failure(s, scan(s, i).end)
                }
            },
        }
    }
}

/// No word is the end-of-input token.
pub proof fn lemma_word_token(w: Seq<char>)
    ensures
        word_token(w) != TokenModel::EOF,
{
}

/// Whether `c` is white space.
pub fn is_whitespace(c: char) -> (b: bool)
    ensures
        b == is_space(c),
{
    let u: u32 = c as u32;
    (0x09 <= u && u <= 0x0d) || u == 0x20 || u == 0x85 || u == 0xa0 || u == 0x1680 || (0x2000
        <= u && u <= 0x200a) || u == 0x2028 || u == 0x2029 || u == 0x202f || u == 0x205f || u
        == 0x3000
}

/// Whether `c` is a decimal digit.
pub fn is_decimal_digit(c: char) -> (b: bool)
    ensures
        b == is_digit(c),
{
    '0' <= c && c <= '9'
}

/// Whether `c` can start an identifier.
pub fn is_identifier_start(c: char) -> (b: bool)
    ensures
        b == is_letter(c),
{
    ('a' <= c && c <= 'z') || ('A' <= c && c <= 'Z') || c == '_'
}

/// Whether the characters `v[from..to]` spell `word`.
fn spells(v: &Vec<char>, from: usize, to: usize, word: &str) -> (b: bool)
    requires
        from <= to <= v.len(),
    ensures
        b == (v@.subrange(from as int, to as int) == word@),
{
    let mut same = true;
    let mut i: usize = from;
    for c in it: word.chars()
        invariant
            it.seq() == word@,
            from <= to <= v.len(),
            same ==> i == from + it.index() && i <= to,
            same ==> v@.subrange(from as int, i as int) == word@.take(it.index() as int),
            !same ==> v@.subrange(from as int, to as int) != word@,
    {
        if same {
            if i < to && v[i] == c {
                i += 1;
                assert(v@.subrange(from as int, i as int) =~= word@.take(it.index() + 1));
            } else {
                same = false;
                assert(v@.subrange(from as int, to as int) != word@) by {
                    if v@.subrange(from as int, to as int) == word@ {
                        assert(word@.len() == to - from);
                        assert(v@.subrange(from as int, to as int)[it.index() as int] == c);
                    }
                }
            }
        }
    }
    if same {
        assert(word@.take(word@.len() as int) =~= word@);
        if i == to {
            true
        } else {
            assert(v@.subrange(from as int, to as int).len() != word@.len());
            false
        }
    } else {
        false
    }
}

/// The scanner. It stands at one character of the source, or at its end, and
/// only moves forward.
pub struct Lexer {
    input: Vec<char>,
    cursor: usize,
    position: Position,
}

impl Lexer {
    /// The characters of the source.
    pub closed spec fn source(&self) -> Seq<char> {
        self.input@
    }

    /// The index of the character at which the scanner stands.
    pub closed spec fn offset(&self) -> int {
        self.cursor as int
    }

    /// The place of the character at which the scanner stands.
    pub closed spec fn place(&self) -> Position {
        self.position
    }

    /// The scanner stands inside its source, and its position is that of the
    /// character it stands at.
    pub closed spec fn wf(&self) -> bool {
        &&& self.cursor <= self.input.len()
        &&& self.input.len() < usize::MAX
        &&& self.position == position_at(self.input@, self.cursor as int)
    }

    /// A scanner in order stands inside its source.
    pub proof fn lemma_inside(&self)
        requires
            self.wf(),
        ensures
            0 <= self.offset() <= self.source().len(),
    {
    }

    /// A scanner at the first character of `input`.
    pub fn new(input: &str) -> (lexer: Lexer)
        requires
            input@.len() < usize::MAX,
        ensures
            lexer.wf(),
            lexer.source() == input@,
            lexer.offset() == 0,
    {
        let chars = chars_of(input);
        let first_is_break = chars.len() > 0 && chars[0] == '\n';
        let position = if first_is_break {
            Position { line: 2, column: 0 }
        } else {
            Position { line: 1, column: 1 }
        };
        proof {
            let s = chars@;
            assert(line_at(s, -1) == 1);
            assert(column_at(s, -1) == 0);
            assert(line_at(s, 0) == line_at(s, -1) + if 0 < s.len() && s[0] == '\n' {
                1int
            } else {
                0int
            });
        }
        Lexer { input: chars, cursor: 0, position }
    }

    /// The character behind the one at which the scanner stands, if any.
    pub fn peek(&self) -> (c: Option<char>)
        requires
            self.wf(),
        ensures
            c == if self.offset() + 1 < self.source().len() {
                Some(self.source()[self.offset() + 1])
            } else {
                None::<char>
            },
    {
        if self.cursor < self.input.len() && self.cursor + 1 < self.input.len() {
            Some(self.input[self.cursor + 1])
        } else {
            None
        }
    }

    /// Moves to the next character and counts its line and column.
    fn advance(&mut self)
        requires
            old(self).wf(),
            old(self).offset() < old(self).source().len(),
        ensures
            final(self).wf(),
            final(self).source() == old(self).source(),
            final(self).offset() == old(self).offset() + 1,
    {
        proof {
            lemma_position_bounds(self.input@, self.cursor as int);
            lemma_position_bounds(self.input@, self.cursor as int + 1);
        }
        self.cursor = self.cursor + 1;
        if self.cursor < self.input.len() && self.input[self.cursor] == '\n' {
            self.position.line = self.position.line + 1;
            self.position.column = 0;
        } else {
            self.position.column = self.position.column + 1;
        }
    }

    /// Passes over white space.
    fn skip_whitespace(&mut self)
        requires
            old(self).wf(),
        ensures
            final(self).wf(),
            final(self).source() == old(self).source(),
            final(self).offset() == skip_spaces(old(self).source(), old(self).offset()),
    {
        while self.cursor < self.input.len() && is_whitespace(self.input[self.cursor])
            invariant
                self.wf(),
                self.input@ == old(self).input@,
                skip_spaces(self.input@, self.cursor as int) == skip_spaces(
                    old(self).input@,
                    old(self).cursor as int,
                ),
            decreases self.input.len() - self.cursor,
        {
            self.advance();
        }
    }

    /// Passes over the rest of a line comment, its line break included.
    fn skip_line_comment(&mut self)
        requires
            old(self).wf(),
        ensures
            final(self).wf(),
            final(self).source() == old(self).source(),
            final(self).offset() == line_comment_end(old(self).source(), old(self).offset()),
    {
        while self.cursor < self.input.len()
            invariant
                self.wf(),
                self.input@ == old(self).input@,
                line_comment_end(self.input@, self.cursor as int) == line_comment_end(
                    old(self).input@,
                    old(self).cursor as int,
                ),
            decreases self.input.len() - self.cursor,
        {
            let c = self.input[self.cursor];
            self.advance();
            if c == '\n' {
                return ;
            }
        }
    }

    /// Passes over a block comment, standing at the `*` of its opening mark.
    /// Comments nest. Where the source ends inside the comment, the error
    /// names the line of the opening mark and the column of its `*` less two.
    fn skip_block_comment(&mut self) -> (r: Result<(), LexerError>)
        requires
            old(self).wf(),
            1 <= old(self).offset() < old(self).source().len(),
            old(self).source()[old(self).offset()] == '*',
            old(self).source()[old(self).offset() - 1] == '/',
        ensures
            final(self).wf(),
            final(self).source() == old(self).source(),
            match block_comment_end(old(self).source(), old(self).offset() + 1, 1) {
                Some(k) => r is Ok && final(self).offset() == k,
                None => r is Err && final(self).offset() == old(self).source().len()
                    && r->Err_0@ == unterminated_comment(
                    old(self).source(),
                    old(self).offset(),
                ).outcome->Err_0,
            },
    {
        let start_pos = self.position;
        proof {
            lemma_position_bounds(self.input@, self.cursor as int);
            lemma_position_bounds(self.input@, self.cursor as int - 1);
            lemma_position_bounds(self.input@, self.cursor as int - 2);
        }
        assert(start_pos.column >= 2);
        self.advance();
        let mut nesting_level: usize = 1;
        while self.cursor < self.input.len()
            invariant
                self.wf(),
                self.input@ == old(self).input@,
                1 <= nesting_level <= self.cursor,
                block_comment_end(self.input@, self.cursor as int, nesting_level as int)
                    == block_comment_end(old(self).input@, old(self).cursor as int + 1, 1),
            decreases self.input.len() - self.cursor,
        {
            let c = self.input[self.cursor];
            if c == '/' {
                self.advance();
                if self.cursor < self.input.len() && self.input[self.cursor] == '*' {
                    self.advance();
                    nesting_level = nesting_level + 1;
                }
            } else if c == '*' {
                self.advance();
                if self.cursor < self.input.len() && self.input[self.cursor] == '/' {
                    self.advance();
                    nesting_level = nesting_level - 1;
                    if nesting_level == 0 {
                        return Ok(());
                    }
                }
            } else {
                self.advance();
            }
        }
        Err(LexerError::UnterminatedBlockComment(start_pos.line, start_pos.column - 2))
    }

    /// Reads a keyword or an identifier.
    fn read_identifier(&mut self) -> (r: Result<TokenWithPosition, LexerError>)
        requires
            old(self).wf(),
        ensures
            final(self).wf(),
            final(self).source() == old(self).source(),
            final(self).offset() == word_end(old(self).source(), old(self).offset()),
            r matches Ok(t) && t.token@ == word_token(
                old(self).source().subrange(old(self).offset(), final(self).offset()),
            ) && t.position == old(self).place(),
    {
        let current_pos = self.position;
        let start = self.cursor;
        while self.cursor < self.input.len() && (is_identifier_start(self.input[self.cursor])
            || is_decimal_digit(self.input[self.cursor]))
            invariant
                self.wf(),
                self.input@ == old(self).input@,
                start <= self.cursor,
                word_end(self.input@, self.cursor as int) == word_end(
                    old(self).input@,
                    old(self).cursor as int,
                ),
            decreases self.input.len() - self.cursor,
        {
            self.advance();
        }
        let end = self.cursor;
        let token = if spells(&self.input, start, end, "var") {
            Token::Var
        } else if spells(&self.input, start, end, "fn") {
            Token::Fn
        } else if spells(&self.input, start, end, "if") {
            Token::If
        } else if spells(&self.input, start, end, "else") {
            Token::Else
        } else if spells(&self.input, start, end, "while") {
            Token::While
        } else if spells(&self.input, start, end, "for") {
            Token::For
        } else if spells(&self.input, start, end, "switch") {
            Token::Switch
        } else if spells(&self.input, start, end, "case") {
            Token::Case
        } else if spells(&self.input, start, end, "default") {
            Token::Default
        } else if spells(&self.input, start, end, "out") {
            Token::Out
        } else if spells(&self.input, start, end, "return") {
            Token::Return
        } else if spells(&self.input, start, end, "true") {
            Token::True
        } else if spells(&self.input, start, end, "false") {
            Token::False
        } else {
            Token::Identifier(string_of(&self.input, start, end))
        };
        Ok(TokenWithPosition { token, position: current_pos })
    }

    /// Reads a numeric literal: digits with at most one decimal point. A
    /// second point is an error that carries the text read so far, and so is
    /// a literal too large to hold.
    fn read_number(&mut self) -> (r: Result<TokenWithPosition, LexerError>)
        requires
            old(self).wf(),
            old(self).offset() < old(self).source().len(),
            is_digit(old(self).source()[old(self).offset()]),
        ensures
            final(self).wf(),
            final(self).source() == old(self).source(),
            final(self).offset() == scan_number(old(self).source(), old(self).offset()).end,
            match r {
                Ok(t) => scan_number(old(self).source(), old(self).offset()).outcome == Ok::<
                    TokenModel,
                    LexerErrorModel,
                >(t.token@) && t.position == old(self).place(),
                Err(e) => scan_number(old(self).source(), old(self).offset()).outcome == Err::<
                    TokenModel,
                    LexerErrorModel,
                >(e@),
            },
    {
        let start_pos = self.position;
        let start = self.cursor;
        let mut has_decimal = false;
        let ghost s = self.input@;
        let ghost point: int = -1;
        proof {
            lemma_position_bounds(s, start as int);
        }
        loop
            invariant
                self.wf(),
                self.input@ == s,
                s == old(self).input@,
                start == old(self).cursor,
                start <= self.cursor <= s.len(),
                start < s.len(),
                is_digit(s[start as int]),
                number_end(s, self.cursor as int, has_decimal) == number_end(
                    s,
                    start as int,
                    false,
                ),
                has_decimal ==> start < point < self.cursor && s[point] == '.',
                forall|k: int|
                    start <= k < self.cursor && !(has_decimal && k == point) ==> is_digit(
                        #[trigger] s[k],
                    ),
                start_pos == position_at(s, start as int),
                start_pos.line == line_at(s, start as int),
                start_pos.column == column_at(s, start as int),
            ensures
                start < self.cursor,
                number_end(s, start as int, false) == (self.cursor as int, false),
            decreases s.len() - self.cursor,
        {
            if self.cursor >= self.input.len() {
                break ;
            }
            let c = self.input[self.cursor];
            if is_decimal_digit(c) {
                self.advance();
            } else if c == '.' {
                if has_decimal {
                    let text = string_of(&self.input, start, self.cursor);
                    return Err(LexerError::InvalidNumber(text, start_pos.line, start_pos.column));
                }
                has_decimal = true;
                proof {
                    point = self.cursor as int;
                }
                self.advance();
            } else {
                break ;
            }
        }
        let end = self.cursor;
        proof {
            let text = s.subrange(start as int, end as int);
            lemma_dot_index(text);
            assert(text[0] == s[start as int]);
            assert(dot_index(text) > 0);
            if has_decimal {
                assert(text[point - start] == '.');
                assert(dot_index(text) == point - start) by {
                    if dot_index(text) < point - start {
                        let d = dot_index(text);
                        assert(text[d] == s[start + d]);
                        assert(is_digit(s[start + d]));
                    }
                }
            } else {
                assert(dot_index(text) == text.len()) by {
                    if dot_index(text) < text.len() {
                        let d = dot_index(text);
                        assert(text[d] == s[start + d]);
                        assert(is_digit(s[start + d]));
                    }
                }
            }
            assert forall|i: int| 0 <= i < text.len() && i != dot_index(text) implies is_digit(
                #[trigger] text[i],
            ) by {
                assert(text[i] == s[start + i]);
            }
            assert(is_literal(text));
        }
        match Number::from_literal(&self.input, start, end) {
            Some(n) => Ok(TokenWithPosition { token: Token::Number(n), position: start_pos }),
            None => {
                let text = string_of(&self.input, start, end);
                Err(LexerError::InvalidNumber(text, start_pos.line, start_pos.column))
            },
        }
    }

    /// Reads a string literal, standing at its opening quote. A backslash
    /// takes the next character with it: `n`, `t` and `r` give a line feed, a
    /// tab and a carriage return, any other character gives itself.
    fn read_string(&mut self) -> (r: Result<TokenWithPosition, LexerError>)
        requires
            old(self).wf(),
            old(self).offset() < old(self).source().len(),
            old(self).source()[old(self).offset()] == '"',
        ensures
            final(self).wf(),
            final(self).source() == old(self).source(),
            final(self).offset() == scan_string(old(self).source(), old(self).offset()).end,
            match r {
                Ok(t) => scan_string(old(self).source(), old(self).offset()).outcome == Ok::<
                    TokenModel,
                    LexerErrorModel,
                >(t.token@) && t.position == old(self).place(),
                Err(e) => scan_string(old(self).source(), old(self).offset()).outcome == Err::<
                    TokenModel,
                    LexerErrorModel,
                >(e@),
            },
    {
        let start_pos = self.position;
        let ghost s = self.input@;
        let ghost start = self.cursor as int;
        proof {
            lemma_position_bounds(s, start);
        }
        self.advance();
        let mut string = String::new();
        while self.cursor < self.input.len()
            invariant
                self.wf(),
                self.input@ == s,
                s == old(self).input@,
                start == old(self).cursor,
                string_end(s, self.cursor as int, string@) == string_end(
                    s,
                    start + 1,
                    Seq::empty(),
                ),
                start_pos == old(self).position,
                start_pos.line == line_at(s, start),
                start_pos.column == column_at(s, start),
            decreases s.len() - self.cursor,
        {
            let c = self.input[self.cursor];
            if c == '"' {
                self.advance();
                return Ok(TokenWithPosition { token: Token::String(string), position: start_pos });
            } else if c == '\\' {
                self.advance();
                if self.cursor < self.input.len() {
                    let next_char = self.input[self.cursor];
                    if next_char == 'n' {
                        string.push('\n');
                    } else if next_char == 't' {
                        string.push('\t');
                    } else if next_char == 'r' {
                        string.push('\r');
                    } else {
                        string.push(next_char);
                    }
                    self.advance();
                }
            } else {
                string.push(c);
                self.advance();
            }
        }
        Err(LexerError::UnterminatedString(start_pos.line, start_pos.column))
    }

    /// A token of `width` characters that starts where the scanner stands.
    fn take(&mut self, token: Token, width: usize) -> (r: Result<TokenWithPosition, LexerError>)
        requires
            old(self).wf(),
            1 <= width <= 2,
            old(self).offset() + width <= old(self).source().len(),
        ensures
            final(self).wf(),
            final(self).source() == old(self).source(),
            final(self).offset() == old(self).offset() + width,
            r matches Ok(t) && t.token == token && t.position == old(self).place(),
    {
        let position = self.position;
        self.advance();
        if width == 2 {
            self.advance();
        }
        Ok(TokenWithPosition { token, position })
    }

    /// Reads a mark that is one character, or two where `second` follows.
    fn take_pair(&mut self, second: char, double: Token, single: Token) -> (r: Result<
        TokenWithPosition,
        LexerError,
    >)
        requires
            old(self).wf(),
            old(self).offset() < old(self).source().len(),
        ensures
            final(self).wf(),
            final(self).source() == old(self).source(),
            followed_by(old(self).source(), old(self).offset(), second) ==> ({
                &&& final(self).offset() == old(self).offset() + 2
                &&& r matches Ok(t) && t.token == double && t.position == old(self).place()
            }),
            !followed_by(old(self).source(), old(self).offset(), second) ==> ({
                &&& final(self).offset() == old(self).offset() + 1
                &&& r matches Ok(t) && t.token == single && t.position == old(self).place()
            }),
    {
        let position = self.position;
        self.advance();
        if self.cursor < self.input.len() && self.input[self.cursor] == second {
            self.advance();
            Ok(TokenWithPosition { token: double, position })
        } else {
            Ok(TokenWithPosition { token: single, position })
        }
    }

    /// Reads `c c` as `double`; a single `c` is an invalid character.
    fn take_doubled(&mut self, c: char, double: Token) -> (r: Result<
        TokenWithPosition,
        LexerError,
    >)
        requires
            old(self).wf(),
            old(self).offset() < old(self).source().len(),
            old(self).source()[old(self).offset()] == c,
        ensures
            final(self).wf(),
            final(self).source() == old(self).source(),
            followed_by(old(self).source(), old(self).offset(), c) ==> ({
                &&& final(self).offset() == old(self).offset() + 2
                &&& r matches Ok(t) && t.token == double && t.position == old(self).place()
            }),
            !followed_by(old(self).source(), old(self).offset(), c) ==> ({
                &&& final(self).offset() == old(self).offset() + 1
                &&& r matches Err(e) && Err::<TokenModel, LexerErrorModel>(e@) == invalid_character(
                    old(self).source(),
                    old(self).offset(),
                    old(self).offset() + 1,
                ).outcome
            }),
    {
        let position = self.position;
        proof {
            lemma_position_bounds(self.input@, self.cursor as int);
        }
        self.advance();
        if self.cursor < self.input.len() && self.input[self.cursor] == c {
            self.advance();
            Ok(TokenWithPosition { token: double, position })
        } else {
            Err(LexerError::InvalidCharacter(c, position.line, position.column))
        }
    }

    /// The next token, or the lexical error that stands in its way. White
    /// space and comments are passed over first. At the end of the source
    /// the token is `EOF`, on every call.
    pub fn next_token(&mut self) -> (r: Result<TokenWithPosition, LexerError>)
        requires
            old(self).wf(),
        ensures
            final(self).wf(),
            final(self).source() == old(self).source(),
            final(self).offset() == scan(old(self).source(), old(self).offset()).end,
            match r {
                Ok(t) => scan(old(self).source(), old(self).offset()).outcome == Ok::<
                    TokenModel,
                    LexerErrorModel,
                >(t.token@) && t.position == position_at(
                    old(self).source(),
                    scan(old(self).source(), old(self).offset()).start,
                ),
                Err(e) => scan(old(self).source(), old(self).offset()).outcome == Err::<
                    TokenModel,
                    LexerErrorModel,
                >(e@),
            },
    {
        let ghost s = self.input@;
        loop
            invariant
                self.wf(),
                self.input@ == s,
                s == old(self).input@,
                scan(s, self.cursor as int) == scan(s, old(self).cursor as int),
            decreases s.len() - self.cursor,
        {
            let ghost before = self.cursor as int;
            self.skip_whitespace();
            proof {
                lemma_skip_spaces(s, before);
            }
            let current_pos = self.position;
            let ghost j = self.cursor as int;
            if self.cursor >= self.input.len() {
                return Ok(TokenWithPosition { token: Token::EOF, position: current_pos });
            }
            proof {
                lemma_position_bounds(s, j);
            }
            let c = self.input[self.cursor];
            if c == '/' {
                self.advance();
                if self.cursor < self.input.len() && self.input[self.cursor] == '/' {
                    self.advance();
                    self.skip_line_comment();
                    proof {
                        lemma_line_comment_end(s, j + 2);
                    }
                } else if self.cursor < self.input.len() && self.input[self.cursor] == '*' {
                    proof {
                        lemma_block_comment_end(s, j + 2, 1);
                    }
                    match self.skip_block_comment() {
                        Ok(()) => {},
                        Err(e) => {
                            return Err(e);
                        },
                    }
                } else {
                    return Ok(TokenWithPosition { token: Token::Divide, position: current_pos });
                }
            } else if is_identifier_start(c) {
                return self.read_identifier();
            } else if is_decimal_digit(c) {
                return self.read_number();
            } else if c == '"' {
                return self.read_string();
            } else if c == '+' {
                return self.take(Token::Plus, 1);
            } else if c == '-' {
                return self.take(Token::Minus, 1);
            } else if c == '*' {
                return self.take(Token::Multiply, 1);
            } else if c == '=' {
                return self.take_pair('=', Token::Equals, Token::Assign);
            } else if c == '!' {
                return self.take_pair('=', Token::NotEquals, Token::Not);
            } else if c == '>' {
                return self.take_pair('=', Token::GreaterEquals, Token::Greater);
            } else if c == '<' {
                return self.take_pair('=', Token::LessEquals, Token::Less);
            } else if c == '&' {
                return self.take_doubled('&', Token::And);
            } else if c == '|' {
                return self.take_doubled('|', Token::Or);
            } else if c == '(' {
                return self.take(Token::LeftParen, 1);
            } else if c == ')' {
                return self.take(Token::RightParen, 1);
            } else if c == '{' {
                return self.take(Token::LeftBrace, 1);
            } else if c == '}' {
                return self.take(Token::RightBrace, 1);
            } else if c == ',' {
                return self.take(Token::Comma, 1);
            } else if c == ':' {
                return self.take(Token::Colon, 1);
            } else if c == ';' {
                return self.take(Token::Semicolon, 1);
            } else {
                return Err(
                    LexerError::InvalidCharacter(c, current_pos.line, current_pos.column),
                );
            }
        }
    }
}

/// Scans `input` to its end, and gives the first lexical error, if there is
/// one.
pub fn first_lexical_error(input: &str) -> (r: Option<LexerError>)
    requires
        input@.len() < usize::MAX,
    ensures
        match r {
            Some(e) => scan_failure(input@, 0) == Some(e@),
            None => scan_failure(input@, 0) is None,
        },
{
    let mut lexer = Lexer::new(input);
    loop
        invariant
            lexer.wf(),
            lexer.source() == input@,
            scan_failure(input@, lexer.offset()) == scan_failure(input@, 0),
        decreases input@.len() - lexer.offset(),
    {
        proof {
            lexer.lemma_inside();
            lemma_scan_bounds(input@, lexer.offset());
        }
        match lexer.next_token() {
            Err(e) => {
                return Some(e);
            },
            Ok(t) => {
                if let Token::EOF = t.token {
                    return None;
                }
            },
        }
    }
}

} // verus!
