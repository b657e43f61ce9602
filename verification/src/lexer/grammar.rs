//! The lexical grammar, stated over character sequences.
//!
//! Everything here is ghost code: it says which tokens a text holds and
//! where, and the executable tokenizer is proved against it.

use vstd::prelude::*;
use crate::errors::{LexError, NumberFault};
use crate::lexer::chars::{
    digit_value, is_digit, is_identifier_part, is_identifier_start, is_number_body,
    unicode_whitespace,
};
use crate::lexer::tokens::{KindView, TokenView};

verus! {

/// Where a scan stands: the position of the next character and the text that
/// is still to be read.
pub ghost struct Cursor {
    pub row: nat,
    pub col: nat,
    pub text: Seq<char>,
}

/// The cursor at the start of `text`.
pub open spec fn start_of(text: Seq<char>) -> Cursor {
    Cursor { row: 0, col: 0, text }
}

/// The marker that opens a comment running to the end of its line.
pub open spec fn line_comment_open() -> Seq<char> {
    seq!['/', '/']
}

/// What ends a line comment.
pub open spec fn line_comment_close() -> Seq<char> {
    seq!['\n']
}

/// The marker that opens a block comment.
pub open spec fn block_comment_open() -> Seq<char> {
    seq!['/', '*']
}

/// The marker that closes a block comment.
pub open spec fn block_comment_close() -> Seq<char> {
    seq!['*', '/']
}

/// The position after the whitespace character `c` read at `(row, col)`: a
/// newline starts the next row, a tab is four columns wide, anything else one.
pub open spec fn position_after(row: nat, col: nat, c: char) -> (nat, nat) {
    if c == '\n' {
        (row + 1, 0)
    } else if c == '\t' {
        (row, col + 4)
    } else {
        (row, col + 1)
    }
}

/// The number of characters from the start of `text` up to and including the
/// first occurrence of `close`, or the whole length where `close` never
/// occurs.
pub open spec fn length_through(text: Seq<char>, close: Seq<char>) -> nat
    decreases text.len(),
{
    if text.len() == 0 {
        0
    } else if close.is_prefix_of(text) {
        close.len()
    } else {
        1 + length_through(text.drop_first(), close)
    }
}

/// The cursor after one step of skipping, or `None` where the text starts
/// with neither whitespace nor a comment. Only whitespace moves the position;
/// a comment is dropped together with what closes it.
pub open spec fn skip_step(cur: Cursor) -> Option<Cursor> {
    if cur.text.len() == 0 {
        None
    } else if unicode_whitespace(cur.text[0]) {
        let (row, col) = position_after(cur.row, cur.col, cur.text[0]);
        Some(Cursor { row, col, text: cur.text.drop_first() })
    } else if line_comment_open().is_prefix_of(cur.text) {
        Some(
            Cursor {
                text: cur.text.skip(length_through(cur.text, line_comment_close()) as int),
                ..cur
            },
        )
    } else if block_comment_open().is_prefix_of(cur.text) {
        Some(
            Cursor {
                text: cur.text.skip(length_through(cur.text, block_comment_close()) as int),
                ..cur
            },
        )
    } else {
        None
    }
}

/// The cursor after all whitespace and comments at the start of the text.
pub open spec fn skip_blank(cur: Cursor) -> Cursor
    decreases cur.text.len(),
    via skip_blank_decreases
{
    match skip_step(cur) {
        Some(next) => skip_blank(next),
        None => cur,
    }
}

#[via_fn]
proof fn skip_blank_decreases(cur: Cursor) {
    lemma_skip_step_shrinks(cur);
}

/// The token kind of a character that is a token by itself.
pub open spec fn symbol_kind(c: char) -> Option<KindView> {
    if c == '(' {
        Some(KindView::OpenParen)
    } else if c == ')' {
        Some(KindView::CloseParen)
    } else if c == '{' {
        Some(KindView::OpenBrace)
    } else if c == '}' {
        Some(KindView::CloseBrace)
    } else if c == '|' {
        Some(KindView::Bar)
    } else if c == ';' {
        Some(KindView::Semicolon)
    } else if c == ':' {
        Some(KindView::Colon)
    } else if c == ',' {
        Some(KindView::Comma)
    } else if c == '.' {
        Some(KindView::Dot)
    } else if c == '=' {
        Some(KindView::Equal)
    } else if c == '+' {
        Some(KindView::Plus)
    } else {
        None
    }
}

/// The length of the longest prefix of `text` made of digits, underscores
/// and, unless `seen_dot`, at most one dot.
pub open spec fn number_run_len(text: Seq<char>, seen_dot: bool) -> nat
    decreases text.len(),
{
    if text.len() == 0 {
        0
    } else if text[0] == '.' {
        if seen_dot {
            0
        } else {
            1 + number_run_len(text.drop_first(), true)
        }
    } else if is_number_body(text[0]) {
        1 + number_run_len(text.drop_first(), seen_dot)
    } else {
        0
    }
}

/// The characters of the numeric literal at the start of `text`.
pub open spec fn number_run(text: Seq<char>) -> Seq<char> {
    text.take(number_run_len(text, false) as int)
}

/// `run` without its grouping underscores.
pub open spec fn strip_underscores(run: Seq<char>) -> Seq<char> {
    run.filter(|c: char| c != '_')
}

/// Whether `text` holds a decimal digit.
pub open spec fn has_digit(text: Seq<char>) -> bool {
    exists|i: int| 0 <= i < text.len() && is_digit(#[trigger] text[i])
}

/// The number that the digits of `digits` write in base ten.
pub open spec fn decimal_value(digits: Seq<char>) -> nat
    decreases digits.len(),
{
    if digits.len() == 0 {
        0
    } else {
        decimal_value(digits.drop_last()) * 10 + digit_value(digits.last())
    }
}

/// The token that a numeric run stands for. With a dot it is a float, kept
/// as its text without underscores, provided that a digit is left; without
/// one it is an integer, provided that digits are left and their value fits
/// 32 signed bits.
pub open spec fn number_kind(run: Seq<char>) -> Result<KindView, LexError> {
    let text = strip_underscores(run);
    if run.contains('.') {
        if has_digit(run) {
            Ok(KindView::Float(text))
        } else {
            Err(LexError::NumberParseFailure(NumberFault::Invalid))
        }
    } else if text.len() == 0 {
        Err(LexError::NumberParseFailure(NumberFault::Empty))
    } else if decimal_value(text) <= i32::MAX {
        Ok(KindView::Integer(decimal_value(text) as int))
    } else {
        Err(LexError::NumberParseFailure(NumberFault::Overflow))
    }
}

/// The length of the longest prefix of `text` made of identifier characters.
pub open spec fn identifier_run_len(text: Seq<char>) -> nat
    decreases text.len(),
{
    if text.len() > 0 && is_identifier_part(text[0]) {
        1 + identifier_run_len(text.drop_first())
    } else {
        0
    }
}

/// The token kind of a word: a keyword where it is spelled exactly like one,
/// else an identifier.
pub open spec fn word_kind(word: Seq<char>) -> KindView {
    if word == seq!['f', 'n'] {
        KindView::Function
    } else if word == seq!['l', 'e', 't'] {
        KindView::Let
    } else {
        KindView::Identifier(word)
    }
}

/// The kind and length of the token at the start of `text`, which starts
/// with neither whitespace nor a comment. Symbols come first, then numbers,
/// then words; any other character is an error.
pub open spec fn token_at(text: Seq<char>) -> Result<(KindView, nat), LexError>
    recommends
        text.len() > 0,
{
    let c = text[0];
    if symbol_kind(c) is Some {
        Ok((symbol_kind(c)->0, 1))
    } else if is_digit(c) {
        match number_kind(number_run(text)) {
            Ok(kind) => Ok((kind, number_run(text).len())),
            Err(e) => Err(e),
        }
    } else if is_identifier_start(c) {
        let n = 1 + identifier_run_len(text.drop_first());
        Ok((word_kind(text.take(n as int)), n))
    } else {
        Err(LexError::UnknownCharacter(c))
    }
}

/// The next token from `cur` and the cursor behind it, `None` at the end of
/// the input, or the error that stops the scan.
pub open spec fn next_token(cur: Cursor) -> Result<Option<(TokenView, Cursor)>, LexError> {
    let at = skip_blank(cur);
    if at.text.len() == 0 {
        Ok(None)
    } else {
        match token_at(at.text) {
            Ok((kind, n)) => Ok(
                Some(
                    (
                        TokenView { kind, row: at.row, col: at.col },
                        Cursor { row: at.row, col: at.col + n, text: at.text.skip(n as int) },
                    ),
                ),
            ),
            Err(e) => Err(e),
        }
    }
}

/// All tokens from `cur` to the end of the input, or the first error.
pub open spec fn lex(cur: Cursor) -> Result<Seq<TokenView>, LexError>
    decreases cur.text.len(),
    via lex_decreases
{
    match next_token(cur) {
        Ok(None) => Ok(Seq::empty()),
        Ok(Some((token, rest))) => match lex(rest) {
            Ok(tokens) => Ok(seq![token] + tokens),
            Err(e) => Err(e),
        },
        Err(e) => Err(e),
    }
}

#[via_fn]
proof fn lex_decreases(cur: Cursor) {
    lemma_next_token_shrinks(cur);
}

/// `length_through` stays within the text, and takes at least one character
/// of a text that is not empty.
pub proof fn lemma_length_through_bounds(text: Seq<char>, close: Seq<char>)
    requires
        close.len() > 0,
    ensures
        length_through(text, close) <= text.len(),
        text.len() > 0 ==> length_through(text, close) >= 1,
    decreases text.len(),
{
    if text.len() > 0 && !close.is_prefix_of(text) {
        lemma_length_through_bounds(text.drop_first(), close);
    }
}

/// A step of skipping leaves less text than it found.
pub proof fn lemma_skip_step_shrinks(cur: Cursor)
    ensures
        skip_step(cur) matches Some(next) ==> next.text.len() < cur.text.len(),
{
    lemma_length_through_bounds(cur.text, line_comment_close());
    lemma_length_through_bounds(cur.text, block_comment_close());
}

/// Skipping never adds text, and stops where a further step finds nothing
/// to skip.
pub proof fn lemma_skip_blank_settles(cur: Cursor)
    ensures
        skip_blank(cur).text.len() <= cur.text.len(),
        skip_step(skip_blank(cur)) is None,
    decreases cur.text.len(),
{
    lemma_skip_step_shrinks(cur);
    if let Some(next) = skip_step(cur) {
        lemma_skip_blank_settles(next);
    }
}

/// A numeric run stays within the text.
pub proof fn lemma_number_run_bounds(text: Seq<char>, seen_dot: bool)
    ensures
        number_run_len(text, seen_dot) <= text.len(),
        text.len() > 0 && is_digit(text[0]) ==> number_run_len(text, seen_dot) >= 1,
    decreases text.len(),
{
    if text.len() > 0 {
        lemma_number_run_bounds(text.drop_first(), true);
        lemma_number_run_bounds(text.drop_first(), seen_dot);
    }
}

/// An identifier run stays within the text.
pub proof fn lemma_identifier_run_bounds(text: Seq<char>)
    ensures
        identifier_run_len(text) <= text.len(),
    decreases text.len(),
{
    if text.len() > 0 {
        lemma_identifier_run_bounds(text.drop_first());
    }
}

/// A token takes at least one character and no more than the text holds.
pub proof fn lemma_token_at_bounds(text: Seq<char>)
    requires
        text.len() > 0,
    ensures
        token_at(text) matches Ok((_, n)) ==> 1 <= n <= text.len(),
{
    lemma_number_run_bounds(text, false);
    lemma_identifier_run_bounds(text.drop_first());
}

/// Behind a token less text is left than before it.
pub proof fn lemma_next_token_shrinks(cur: Cursor)
    ensures
        next_token(cur) matches Ok(Some((_, rest))) ==> rest.text.len() < cur.text.len(),
{
    lemma_skip_blank_settles(cur);
    let at = skip_blank(cur);
    if at.text.len() > 0 {
        lemma_token_at_bounds(at.text);
    }
}

} // verus!
