//! Comments are white space to the scanner: a text gives the same tokens
//! with one space in the place of each comment, and with every character of
//! every comment blanked out.

use vstd::prelude::*;
use crate::grammar::tokens_from;
use crate::lexer::{
    block_comment_end, followed_by, is_letter, is_space, is_word_char, lemma_block_comment_end,
    lemma_line_comment_end, lemma_number_end, lemma_scan_bounds, lemma_skip_spaces,
    lemma_string_end, lemma_word_end, line_comment_end, number_end, scan, skip_spaces,
    string_end, unescape, word_end, Scan,
};
use crate::number::is_digit;
use crate::types::TokenModel;

verus! {

/// Where the comment that starts at `j` ends, if one starts there and ends.
pub open spec fn comment_end(s: Seq<char>, j: int) -> Option<int> {
    if 0 <= j < s.len() && s[j] == '/' {
        if followed_by(s, j, '/') {
            Some(line_comment_end(s, j + 2))
        } else if followed_by(s, j, '*') {
            block_comment_end(s, j + 2, 1)
        } else {
            None
        }
    } else {
        None
    }
}

/// Whether the character at `x` belongs to a comment that the scanner passes
/// over on its way from `i`, token by token, up to the end of the text or to
/// the first lexical error.
pub open spec fn in_comment(s: Seq<char>, i: int, x: int) -> bool
    decreases s.len() - i,
{
    if i < 0 || i >= s.len() {
        false
    } else {
        let j = skip_spaces(s, i);
        match comment_end(s, j) {
            Some(k) => {
                proof {
                    lemma_skip_spaces(s, i);
                    lemma_comment_end(s, j);
                }
                (j <= x < k) || in_comment(s, k, x)
            },
            None => {
                proof {
                    lemma_skip_spaces(s, i);
                    lemma_scan_bounds(s, j);
                }
                match scan(s, j).outcome {
                    Ok(t) => t != TokenModel::EOF && in_comment(s, scan(s, j).end, x),
                    Err(_) => false,
                }
            },
        }
    }
}

/// The blank that takes the place of a character of a comment: a line break
/// stays, anything else becomes a space.
pub open spec fn blank(c: char) -> char {
    if c == '\n' {
        '\n'
    } else {
        ' '
    }
}

/// The text with every comment that the scanner passes over on its way from
/// `i` blanked out.
pub open spec fn blanked(s: Seq<char>, i: int) -> Seq<char> {
    Seq::new(
        s.len(),
        |x: int|
            if in_comment(s, i, x) {
                blank(s[x])
            } else {
                s[x]
            },
    )
}

/// Two texts of one length hold the same characters from `a` up to `b`.
pub open spec fn agree(s: Seq<char>, t: Seq<char>, a: int, b: int) -> bool {
    &&& s.len() == t.len()
    &&& forall|x: int| a <= x < b && 0 <= x < s.len() ==> #[trigger] s[x] == t[x]
}

/// Two scanning steps find the same token, or both an error, and leave the
/// scanner at the same place.
pub open spec fn same_step(a: Scan, b: Scan) -> bool {
    &&& a.end == b.end
    &&& match (a.outcome, b.outcome) {
        (Ok(x), Ok(y)) => x == y,
        (Err(_), Err(_)) => true,
        _ => false,
    }
}

/// What may stand in `t` at the place `e` where a scanning step of `s` ends:
/// the character of `s`, or a space where a comment starts there in `s`.
pub open spec fn alike_at(s: Seq<char>, t: Seq<char>, e: int) -> bool {
    0 <= e < s.len() ==> {
        ||| t[e] == s[e]
        ||| (s[e] == '/' && (followed_by(s, e, '/') || followed_by(s, e, '*')) && t[e] == ' ')
    }
}

/// A comment ends behind the place where it starts, inside the text.
pub proof fn lemma_comment_end(s: Seq<char>, j: int)
    requires
        0 <= j,
    ensures
        comment_end(s, j) matches Some(k) ==> j < k <= s.len(),
{
    if j < s.len() && s[j] == '/' {
        if followed_by(s, j, '/') {
            lemma_line_comment_end(s, j + 2);
        } else if followed_by(s, j, '*') {
            lemma_block_comment_end(s, j + 2, 1);
        }
    }
}

/// A scanning step reads no further than the place where it ends, and there
/// it only asks whether a token goes on: a text that agrees up to that place,
/// and holds a space there where a comment starts, gives the same step.
proof fn lemma_scan_local(s: Seq<char>, t: Seq<char>, i: int)
    requires
        0 <= i <= s.len(),
        agree(s, t, i, scan(s, i).end),
        alike_at(s, t, scan(s, i).end),
    ensures
        same_step(scan(s, i), scan(t, i)),
{
    lemma_scan_bounds(s, i);
    lemma_scan_shift(s, t, 0, i);
}

/// The tokens from `i` on depend on the text from `i` on alone.
pub proof fn lemma_tokens_local(s: Seq<char>, t: Seq<char>, i: int)
    requires
        0 <= i <= s.len(),
        agree(s, t, i, s.len() as int),
    ensures
        tokens_from(t, i) == tokens_from(s, i),
    decreases s.len() - i,
{
    lemma_scan_bounds(s, i);
    lemma_scan_local(s, t, i);
    match scan(s, i).outcome {
        Ok(token) => {
            if token != TokenModel::EOF {
                lemma_tokens_local(s, t, scan(s, i).end);
            }
        },
        Err(_) => {},
    }
}

/// A character of a comment stands at or behind the next place that holds no
/// white space, and at that place a comment starts.
proof fn lemma_in_comment_bounds(s: Seq<char>, i: int, x: int)
    requires
        0 <= i,
        in_comment(s, i, x),
    ensures
        skip_spaces(s, i) <= x < s.len(),
        x == skip_spaces(s, i) ==> s[x] == '/' && (followed_by(s, x, '/') || followed_by(
            s,
            x,
            '*',
        )),
    decreases s.len() - i,
{
    lemma_skip_spaces(s, i);
    let j = skip_spaces(s, i);
    match comment_end(s, j) {
        Some(k) => {
            lemma_comment_end(s, j);
            if !(j <= x < k) {
                lemma_skip_spaces(s, k);
                lemma_in_comment_bounds(s, k, x);
            }
        },
        None => {
            lemma_scan_bounds(s, j);
            lemma_skip_spaces(s, scan(s, j).end);
            lemma_in_comment_bounds(s, scan(s, j).end, x);
        },
    }
}

/// What passing over white space passes over is white space.
proof fn lemma_spaces_before(s: Seq<char>, i: int, x: int)
    requires
        0 <= i <= x < skip_spaces(s, i),
    ensures
        x < s.len(),
        is_space(s[x]),
    decreases s.len() - i,
{
    lemma_skip_spaces(s, i);
    if x > i {
        lemma_spaces_before(s, i + 1, x);
    }
}

/// Passing over white space from two places of one run of white space stops at
/// the same place.
proof fn lemma_skip_over_spaces(t: Seq<char>, a: int, b: int)
    requires
        0 <= a <= b <= t.len(),
        forall|x: int| a <= x < b ==> is_space(#[trigger] t[x]),
    ensures
        skip_spaces(t, a) == skip_spaces(t, b),
    decreases b - a,
{
    if a < b {
        assert(is_space(t[a]));
        lemma_skip_over_spaces(t, a + 1, b);
    }
}

/// Comments are transparent: the text in which every character of every
/// comment is replaced by a blank gives the same tokens as the text itself.
/// A comment is what the scanner passes over as one: `//` up to the line
/// break, or `/*` up to the `*/` that closes it, nested comments included.
pub proof fn blanking_comments_keeps_tokens(s: Seq<char>, i: int)
    requires
        0 <= i <= s.len(),
    ensures
        tokens_from(blanked(s, i), i) == tokens_from(s, i),
    decreases s.len() - i,
{
    let t = blanked(s, i);
    let n = s.len() as int;
    if i >= n {
        assert(t =~= s);
    } else {
        lemma_skip_spaces(s, i);
        let j = skip_spaces(s, i);
        lemma_skip_spaces(s, j);
        assert(scan(s, i) == scan(s, j));
        match comment_end(s, j) {
            Some(k) => {
                lemma_comment_end(s, j);
                blanking_comments_keeps_tokens(s, k);
                let u = blanked(s, k);
                assert(agree(u, t, k, n));
                lemma_tokens_local(u, t, k);
                assert forall|x: int| i <= x < k implies is_space(#[trigger] t[x]) by {
                    if x < j {
                        lemma_spaces_before(s, i, x);
                        if in_comment(s, k, x) {
                            lemma_skip_spaces(s, k);
                            lemma_in_comment_bounds(s, k, x);
                        }
                        assert(t[x] == s[x]);
                    } else {
                        assert(in_comment(s, i, x));
                        assert(t[x] == blank(s[x]));
                    }
                }
                lemma_skip_over_spaces(t, i, k);
                lemma_skip_spaces(t, i);
                lemma_skip_spaces(t, k);
                assert(scan(t, i) == scan(t, skip_spaces(t, i)));
                assert(scan(t, k) == scan(t, skip_spaces(t, k)));
                assert(scan(t, i) == scan(t, k));
                assert(tokens_from(t, i) == tokens_from(t, k));
                assert(scan(s, j) == scan(s, k));
                assert(tokens_from(s, i) == tokens_from(s, k));
            },
            None => {
                lemma_scan_bounds(s, j);
                let e = scan(s, j).end;
                match scan(s, j).outcome {
                    Ok(token) => {
                        if token != TokenModel::EOF {
                            blanking_comments_keeps_tokens(s, e);
                            assert(t =~= blanked(s, e));
                            assert(agree(s, t, i, e)) by {
                                assert forall|x: int|
                                    i <= x < e && 0 <= x < s.len() implies #[trigger] s[x]
                                    == t[x] by {
                                    if in_comment(s, e, x) {
                                        lemma_skip_spaces(s, e);
                                        lemma_in_comment_bounds(s, e, x);
                                    }
                                }
                            }
                            assert(alike_at(s, t, e)) by {
                                if e < n && in_comment(s, e, e) {
                                    lemma_skip_spaces(s, e);
                                    lemma_in_comment_bounds(s, e, e);
                                }
                            }
                            lemma_scan_local(s, t, i);
                        } else {
                            assert(t =~= s);
                        }
                    },
                    Err(_) => {
                        assert(t =~= s);
                    },
                }
            },
        }
    }
}

/// Comments are transparent for a whole text: see
/// `blanking_comments_keeps_tokens`.
pub proof fn comments_are_transparent(s: Seq<char>)
    ensures
        tokens_from(blanked(s, 0), 0) == tokens_from(s, 0),
{
    blanking_comments_keeps_tokens(s, 0);
}

/// The text `t` holds, `d` places further on, the characters that `s` holds
/// from `from` up to `to`.
pub open spec fn agree_shifted(s: Seq<char>, t: Seq<char>, d: int, from: int, to: int) -> bool {
    &&& from < to ==> 0 <= from && to <= s.len() && 0 <= from + d && to + d <= t.len()
    &&& forall|y: int| from <= y < to ==> #[trigger] s[y] == t[y + d]
}

/// What may stand in `t`, `d` places further on, at the place `e` where a
/// scanning step of `s` ends: both texts end there, or `t` holds the
/// character of `s`, or a space where a comment starts in `s`.
pub open spec fn ends_alike(s: Seq<char>, t: Seq<char>, d: int, e: int) -> bool {
    ||| e == s.len() && e + d == t.len()
    ||| {
        &&& 0 <= e < s.len()
        &&& 0 <= e + d < t.len()
        &&& {
            ||| t[e + d] == s[e]
            ||| (s[e] == '/' && (followed_by(s, e, '/') || followed_by(s, e, '*')) && t[e + d]
                == ' ')
        }
    }
}

/// Two scanning steps, the second `d` places further on, find the same
/// token, or both an error, and leave the scanner at matching places.
pub open spec fn same_step_shifted(a: Scan, b: Scan, d: int) -> bool {
    &&& b.end == a.end + d
    &&& match (a.outcome, b.outcome) {
        (Ok(x), Ok(y)) => x == y,
        (Err(_), Err(_)) => true,
        _ => false,
    }
}

/// Passing over white space reads no further than the place where it stops.
proof fn lemma_skip_spaces_shift(s: Seq<char>, t: Seq<char>, d: int, i: int)
    requires
        0 <= i <= s.len(),
        0 <= i + d <= t.len(),
        agree_shifted(s, t, d, i, skip_spaces(s, i)),
        ({
            let j = skip_spaces(s, i);
            ||| j == s.len() && j + d == t.len()
            ||| j < s.len() && 0 <= j + d < t.len() && !is_space(t[j + d])
        }),
    ensures
        skip_spaces(t, i + d) == skip_spaces(s, i) + d,
    decreases s.len() - i,
{
    lemma_skip_spaces(s, i);
    if i < s.len() && is_space(s[i]) {
        assert(s[i] == t[i + d]);
        lemma_skip_spaces_shift(s, t, d, i + 1);
    }
}

/// Reading a word reads no further than the place where it stops.
proof fn lemma_word_end_shift(s: Seq<char>, t: Seq<char>, d: int, i: int)
    requires
        0 <= i <= s.len(),
        0 <= i + d <= t.len(),
        agree_shifted(s, t, d, i, word_end(s, i)),
        ({
            let e = word_end(s, i);
            ||| e == s.len() && e + d == t.len()
            ||| e < s.len() && 0 <= e + d < t.len() && !is_word_char(t[e + d])
        }),
    ensures
        word_end(t, i + d) == word_end(s, i) + d,
    decreases s.len() - i,
{
    lemma_word_end(s, i);
    if i < s.len() && is_word_char(s[i]) {
        assert(s[i] == t[i + d]);
        lemma_word_end_shift(s, t, d, i + 1);
    }
}

/// Reading the digits of a number reads no further than the place where it
/// stops.
proof fn lemma_number_end_shift(s: Seq<char>, t: Seq<char>, d: int, i: int, seen_point: bool)
    requires
        0 <= i <= s.len(),
        0 <= i + d <= t.len(),
        agree_shifted(s, t, d, i, number_end(s, i, seen_point).0),
        ({
            let e = number_end(s, i, seen_point).0;
            ||| e == s.len() && e + d == t.len()
            ||| e < s.len() && 0 <= e + d < t.len() && (t[e + d] == s[e] || (!is_digit(s[e])
                && s[e] != '.' && !is_digit(t[e + d]) && t[e + d] != '.'))
        }),
    ensures
        number_end(t, i + d, seen_point) == (
            number_end(s, i, seen_point).0 + d,
            number_end(s, i, seen_point).1,
        ),
    decreases s.len() - i,
{
    lemma_number_end(s, i, seen_point);
    if i < s.len() {
        if is_digit(s[i]) {
            assert(s[i] == t[i + d]);
            lemma_number_end_shift(s, t, d, i + 1, seen_point);
        } else if s[i] == '.' && !seen_point {
            lemma_number_end(s, i + 1, true);
            assert(s[i] == t[i + d]);
            lemma_number_end_shift(s, t, d, i + 1, true);
        }
    }
}

/// What the string read in `s` is in a text `d` places further on.
pub open spec fn shifted_string(found: Option<(Seq<char>, int)>, d: int) -> Option<
    (Seq<char>, int),
> {
    match found {
        Some(f) => Some((f.0, f.1 + d)),
        None => None,
    }
}

/// Reading a string reads no further than its closing quote.
proof fn lemma_string_end_shift(s: Seq<char>, t: Seq<char>, d: int, i: int, text: Seq<char>)
    requires
        0 <= i <= s.len(),
        0 <= i + d <= t.len(),
        match string_end(s, i, text) {
            Some(found) => agree_shifted(s, t, d, i, found.1),
            None => agree_shifted(s, t, d, i, s.len() as int) && s.len() + d == t.len(),
        },
    ensures
        string_end(t, i + d, text) == shifted_string(string_end(s, i, text), d),
    decreases s.len() - i,
{
    lemma_string_end(s, i, text);
    if i < s.len() {
        assert(s[i] == t[i + d]);
        if s[i] == '"' {
        } else if s[i] == '\\' {
            if i + 1 < s.len() {
                lemma_string_end(s, i + 2, text.push(unescape(s[i + 1])));
                assert(s[i + 1] == t[i + 1 + d]);
                lemma_string_end_shift(s, t, d, i + 2, text.push(unescape(s[i + 1])));
            }
        } else {
            lemma_string_end_shift(s, t, d, i + 1, text.push(s[i]));
        }
    }
}

/// Reading a line comment reads no further than its line break.
proof fn lemma_line_comment_end_shift(s: Seq<char>, t: Seq<char>, d: int, i: int)
    requires
        0 <= i <= s.len(),
        0 <= i + d <= t.len(),
        agree_shifted(s, t, d, i, line_comment_end(s, i)),
        line_comment_end(s, i) == s.len() ==> s.len() + d == t.len(),
    ensures
        line_comment_end(t, i + d) == line_comment_end(s, i) + d,
    decreases s.len() - i,
{
    lemma_line_comment_end(s, i);
    if i < s.len() {
        lemma_line_comment_end(s, i + 1);
        assert(s[i] == t[i + d]);
        if s[i] != '\n' {
            lemma_line_comment_end_shift(s, t, d, i + 1);
        }
    }
}

/// Where the comment read in `s` ends in a text `d` places further on.
pub open spec fn shifted_end(found: Option<int>, d: int) -> Option<int> {
    match found {
        Some(k) => Some(k + d),
        None => None,
    }
}

/// Reading a block comment reads no further than the mark that closes it.
proof fn lemma_block_comment_end_shift(s: Seq<char>, t: Seq<char>, d: int, i: int, depth: int)
    requires
        0 <= i <= s.len(),
        0 <= i + d <= t.len(),
        match block_comment_end(s, i, depth) {
            Some(k) => agree_shifted(s, t, d, i, k),
            None => agree_shifted(s, t, d, i, s.len() as int) && s.len() + d == t.len(),
        },
    ensures
        block_comment_end(t, i + d, depth) == shifted_end(block_comment_end(s, i, depth), d),
    decreases s.len() - i,
{
    lemma_block_comment_end(s, i, depth);
    if i < s.len() {
        if i + 1 < s.len() {
            if s[i] == '/' {
                if s[i + 1] == '*' {
                    lemma_block_comment_end(s, i + 2, depth + 1);
                } else {
                    lemma_block_comment_end(s, i + 1, depth);
                }
            } else if s[i] == '*' {
                if s[i + 1] == '/' {
                    if depth > 1 {
                        lemma_block_comment_end(s, i + 2, depth - 1);
                    }
                } else {
                    lemma_block_comment_end(s, i + 1, depth);
                }
            } else {
                lemma_block_comment_end(s, i + 1, depth);
            }
            assert(s[i] == t[i + d]);
            if s[i] == '/' {
                assert(s[i + 1] == t[i + 1 + d]);
                if s[i + 1] == '*' {
                    lemma_block_comment_end_shift(s, t, d, i + 2, depth + 1);
                } else {
                    lemma_block_comment_end_shift(s, t, d, i + 1, depth);
                }
            } else if s[i] == '*' {
                assert(s[i + 1] == t[i + 1 + d]);
                if s[i + 1] == '/' {
                    if depth > 1 {
                        lemma_block_comment_end_shift(s, t, d, i + 2, depth - 1);
                    }
                } else {
                    lemma_block_comment_end_shift(s, t, d, i + 1, depth);
                }
            } else {
                lemma_block_comment_end_shift(s, t, d, i + 1, depth);
            }
        } else {
            assert(s[i] == t[i + d]);
            lemma_block_comment_end_shift(s, t, d, i + 1, depth);
        }
    }
}

/// A scanning step reads no further than the place where it ends, and there
/// it only asks whether a token goes on: a text that holds the same
/// characters up to that place, wherever in it they stand, and a space there
/// where a comment starts, gives the same step.
proof fn lemma_scan_shift(s: Seq<char>, t: Seq<char>, d: int, i: int)
    requires
        0 <= i <= s.len(),
        0 <= i + d <= t.len(),
        agree_shifted(s, t, d, i, scan(s, i).end),
        ends_alike(s, t, d, scan(s, i).end),
    ensures
        same_step_shifted(scan(s, i), scan(t, i + d), d),
    decreases s.len() - i,
{
    lemma_skip_spaces(s, i);
    let j = skip_spaces(s, i);
    let e = scan(s, i).end;
    lemma_skip_spaces(s, j);
    lemma_scan_bounds(s, j);
    assert(scan(s, i) == scan(s, j));
    assert(j <= e <= s.len());
    if j < s.len() {
        let c = s[j];
        if c == '/' {
            if followed_by(s, j, '/') {
                let k = line_comment_end(s, j + 2);
                lemma_line_comment_end(s, j + 2);
                lemma_scan_bounds(s, k);
                assert(s[j] == t[j + d]);
                assert(s[j + 1] == t[j + 1 + d]);
                lemma_skip_spaces_shift(s, t, d, i);
                lemma_line_comment_end_shift(s, t, d, j + 2);
                lemma_scan_shift(s, t, d, k);
            } else if followed_by(s, j, '*') {
                lemma_block_comment_end(s, j + 2, 1);
                match block_comment_end(s, j + 2, 1) {
                    Some(k) => {
                        lemma_scan_bounds(s, k);
                        assert(s[j] == t[j + d]);
                        assert(s[j + 1] == t[j + 1 + d]);
                        lemma_skip_spaces_shift(s, t, d, i);
                        lemma_block_comment_end_shift(s, t, d, j + 2, 1);
                        lemma_scan_shift(s, t, d, k);
                    },
                    None => {
                        assert(s[j] == t[j + d]);
                        assert(s[j + 1] == t[j + 1 + d]);
                        lemma_skip_spaces_shift(s, t, d, i);
                        lemma_block_comment_end_shift(s, t, d, j + 2, 1);
                    },
                }
            } else {
                assert(e == j + 1);
                assert(s[j] == t[j + d]);
                lemma_skip_spaces_shift(s, t, d, i);
            }
        } else if is_letter(c) {
            lemma_word_end(s, j);
            assert(s[j] == t[j + d]);
            lemma_skip_spaces_shift(s, t, d, i);
            lemma_word_end_shift(s, t, d, j);
            assert(t.subrange(j + d, e + d) =~= s.subrange(j, e)) by {
                assert forall|x: int| 0 <= x < e - j implies t.subrange(j + d, e + d)[x]
                    == s.subrange(j, e)[x] by {
                    assert(s[j + x] == t[j + x + d]);
                }
            }
        } else if is_digit(c) {
            lemma_number_end(s, j, false);
            assert(s[j] == t[j + d]);
            lemma_skip_spaces_shift(s, t, d, i);
            lemma_number_end_shift(s, t, d, j, false);
            assert(t.subrange(j + d, e + d) =~= s.subrange(j, e)) by {
                assert forall|x: int| 0 <= x < e - j implies t.subrange(j + d, e + d)[x]
                    == s.subrange(j, e)[x] by {
                    assert(s[j + x] == t[j + x + d]);
                }
            }
        } else if c == '"' {
            lemma_string_end(s, j + 1, Seq::empty());
            assert(s[j] == t[j + d]);
            lemma_skip_spaces_shift(s, t, d, i);
            lemma_string_end_shift(s, t, d, j + 1, Seq::empty());
        } else {
            assert(s[j] == t[j + d]);
            lemma_skip_spaces_shift(s, t, d, i);
            if j + 1 < e {
                assert(s[j + 1] == t[j + 1 + d]);
            }
        }
    } else {
        lemma_skip_spaces_shift(s, t, d, i);
    }
}

/// The tokens from a place on depend on the characters from that place on
/// alone, wherever in a text they stand.
pub proof fn lemma_tokens_shift(s: Seq<char>, t: Seq<char>, d: int, i: int)
    requires
        0 <= i <= s.len(),
        0 <= i + d <= t.len(),
        agree_shifted(s, t, d, i, s.len() as int),
        s.len() + d == t.len(),
    ensures
        tokens_from(t, i + d) == tokens_from(s, i),
    decreases s.len() - i,
{
    lemma_scan_bounds(s, i);
    lemma_scan_shift(s, t, d, i);
    match scan(s, i).outcome {
        Ok(token) => {
            if token != TokenModel::EOF {
                lemma_tokens_shift(s, t, d, scan(s, i).end);
            }
        },
        Err(_) => {},
    }
}

/// The text from `i` on with one space in the place of every comment that
/// the scanner passes over on its way, token by token, up to the end of the
/// text or to the first lexical error. What stands inside a string literal
/// is no comment and stays as it is.
pub open spec fn spaced(s: Seq<char>, i: int) -> Seq<char>
    decreases s.len() - i,
{
    if i < 0 || i >= s.len() {
        Seq::empty()
    } else {
        let j = skip_spaces(s, i);
        match comment_end(s, j) {
            Some(k) => {
                proof {
                    lemma_skip_spaces(s, i);
                    lemma_comment_end(s, j);
                }
                s.subrange(i, j).push(' ') + spaced(s, k)
            },
            None => {
                proof {
                    lemma_skip_spaces(s, i);
                    lemma_scan_bounds(s, j);
                }
                match scan(s, j).outcome {
                    Ok(t) => if t != TokenModel::EOF {
                        s.subrange(i, scan(s, j).end) + spaced(s, scan(s, j).end)
                    } else {
                        s.subrange(i, s.len() as int)
                    },
                    Err(_) => s.subrange(i, s.len() as int),
                }
            },
        }
    }
}

/// Where the text goes on, so does the text with its comments replaced, and
/// with the same character, or with the space that stands for a comment.
proof fn lemma_spaced_first(s: Seq<char>, e: int)
    requires
        0 <= e < s.len(),
    ensures
        spaced(s, e).len() >= 1,
        spaced(s, e)[0] == s[e] || (s[e] == '/' && (followed_by(s, e, '/') || followed_by(
            s,
            e,
            '*',
        )) && spaced(s, e)[0] == ' '),
{
    lemma_skip_spaces(s, e);
    let j = skip_spaces(s, e);
    match comment_end(s, j) {
        Some(k) => {
            lemma_comment_end(s, j);
            let front = s.subrange(e, j).push(' ');
            assert(spaced(s, e)[0] == front[0]);
            if j > e {
                assert(front[0] == s.subrange(e, j)[0]);
            }
        },
        None => {
            lemma_scan_bounds(s, j);
            match scan(s, j).outcome {
                Ok(t) => {
                    if t != TokenModel::EOF {
                        let front = s.subrange(e, scan(s, j).end);
                        assert(spaced(s, e)[0] == front[0]);
                    }
                },
                Err(_) => {},
            }
        },
    }
}

/// Behind a comment the tokens are those behind the one space that stands
/// for it.
proof fn lemma_spaced_comment(s: Seq<char>, i: int, k: int)
    requires
        0 <= i < s.len(),
        comment_end(s, skip_spaces(s, i)) == Some(k),
        tokens_from(spaced(s, k), 0) == tokens_from(s, k),
    ensures
        tokens_from(spaced(s, i), 0) == tokens_from(s, i),
{
    let u = spaced(s, i);
    lemma_skip_spaces(s, i);
    let j = skip_spaces(s, i);
    lemma_skip_spaces(s, j);
    lemma_comment_end(s, j);
    let w = spaced(s, k);
    let front = s.subrange(i, j).push(' ');
    let m = j - i + 1;
    assert(u == front + w);
    assert(front.len() == m);
    assert(agree_shifted(w, u, m, 0, w.len() as int)) by {
        assert forall|y: int| 0 <= y < w.len() implies #[trigger] w[y] == u[y + m] by {}
    }
    lemma_tokens_shift(w, u, m, 0);
    assert forall|x: int| 0 <= x < m implies is_space(#[trigger] u[x]) by {
        assert(u[x] == front[x]);
        if x < j - i {
            lemma_spaces_before(s, i, i + x);
            assert(front[x] == s[i + x]);
        } else {
            assert(front[x] == ' ');
            assert(is_space(' '));
        }
    }
    lemma_skip_over_spaces(u, 0, m);
    lemma_skip_spaces(u, 0);
    lemma_skip_spaces(u, m);
    assert(scan(u, 0) == scan(u, skip_spaces(u, 0)));
    assert(scan(u, m) == scan(u, skip_spaces(u, m)));
    assert(scan(u, 0) == scan(u, m));
    assert(tokens_from(u, 0) == tokens_from(u, m));
    assert(scan(s, i) == scan(s, j));
    assert(scan(s, j) == scan(s, k));
    assert(tokens_from(s, i) == tokens_from(s, k));
}

/// Behind a token the tokens are those of the text that follows it.
proof fn lemma_spaced_token(s: Seq<char>, i: int)
    requires
        0 <= i < s.len(),
        comment_end(s, skip_spaces(s, i)) is None,
        scan(s, skip_spaces(s, i)).outcome matches Ok(token) && token != TokenModel::EOF,
        tokens_from(spaced(s, scan(s, skip_spaces(s, i)).end), 0) == tokens_from(
            s,
            scan(s, skip_spaces(s, i)).end,
        ),
    ensures
        tokens_from(spaced(s, i), 0) == tokens_from(s, i),
{
    let u = spaced(s, i);
    let n = s.len() as int;
    lemma_skip_spaces(s, i);
    let j = skip_spaces(s, i);
    lemma_skip_spaces(s, j);
    lemma_scan_bounds(s, j);
    assert(scan(s, i) == scan(s, j));
    let e = scan(s, j).end;
    let w = spaced(s, e);
    let front = s.subrange(i, e);
    assert(u == front + w);
    assert(agree_shifted(s, u, -i, i, e)) by {
        assert forall|y: int| i <= y < e implies #[trigger] s[y] == u[y + (-i)] by {
            assert(u[y - i] == front[y - i]);
        }
    }
    assert(ends_alike(s, u, -i, e)) by {
        if e < n {
            lemma_spaced_first(s, e);
            assert(u[e - i] == w[0]);
        } else {
            assert(w.len() == 0);
        }
    }
    lemma_scan_shift(s, u, -i, i);
    assert(agree_shifted(w, u, e - i, 0, w.len() as int)) by {
        assert forall|y: int| 0 <= y < w.len() implies #[trigger] w[y] == u[y + (e - i)] by {}
    }
    lemma_tokens_shift(w, u, e - i, 0);
    assert(tokens_from(u, e - i) == tokens_from(s, e));
    assert(scan(u, 0).end == e - i);
    assert(tokens_from(u, 0) == tokens_from(s, i));
}

/// Where the scanner finds the end or an error next, the text is left as it
/// is, and so are its tokens.
proof fn lemma_spaced_rest(s: Seq<char>, i: int)
    requires
        0 <= i < s.len(),
        comment_end(s, skip_spaces(s, i)) is None,
        !(scan(s, skip_spaces(s, i)).outcome matches Ok(token) && token != TokenModel::EOF),
    ensures
        tokens_from(spaced(s, i), 0) == tokens_from(s, i),
{
    let u = spaced(s, i);
    let n = s.len() as int;
    assert(u == s.subrange(i, n));
    assert(agree_shifted(s, u, -i, i, n)) by {
        assert forall|y: int| i <= y < n implies #[trigger] s[y] == u[y + (-i)] by {}
    }
    lemma_tokens_shift(s, u, -i, i);
}

/// Comments are transparent: the text in which one space stands for each
/// comment gives the same tokens as the text itself, from every place at
/// which a scanning step starts. A comment is what the scanner passes over
/// as one: `//` up to and with the line break, or `/*` up to the `*/` that
/// closes it, nested comments included.
pub proof fn one_space_for_each_comment(s: Seq<char>, i: int)
    requires
        0 <= i <= s.len(),
    ensures
        tokens_from(spaced(s, i), 0) == tokens_from(s, i),
    decreases s.len() - i,
{
    let n = s.len() as int;
    if i >= n {
        let u = spaced(s, i);
        assert(u.len() == 0);
        assert(skip_spaces(u, 0) == 0);
        assert(skip_spaces(s, n) == n);
    } else {
        lemma_skip_spaces(s, i);
        let j = skip_spaces(s, i);
        match comment_end(s, j) {
            Some(k) => {
                lemma_comment_end(s, j);
                one_space_for_each_comment(s, k);
                lemma_spaced_comment(s, i, k);
            },
            None => {
                lemma_scan_bounds(s, j);
                let moves = match scan(s, j).outcome {
                    Ok(token) => token != TokenModel::EOF,
                    Err(_) => false,
                };
                if moves {
                    one_space_for_each_comment(s, scan(s, j).end);
                    lemma_spaced_token(s, i);
                } else {
                    lemma_spaced_rest(s, i);
                }
            },
        }
    }
}

/// Comments are transparent for a whole text: with one space in the place of
/// each comment it gives the same tokens. See `one_space_for_each_comment`.
pub proof fn comments_are_single_spaces(s: Seq<char>)
    ensures
        tokens_from(spaced(s, 0), 0) == tokens_from(s, 0),
{
    one_space_for_each_comment(s, 0);
}

} // verus!
