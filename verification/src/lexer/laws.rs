//! What holds of the lexical grammar as a whole.

use vstd::prelude::*;
use crate::errors::{LexError, NumberFault};
use crate::lexer::chars::{is_digit, is_identifier_part, is_number_body, unicode_whitespace};
use crate::lexer::grammar::{
    block_comment_close, block_comment_open, has_digit, lemma_next_token_shrinks,
    lemma_skip_step_shrinks, lemma_token_at_bounds, length_through, lex, line_comment_close,
    line_comment_open, decimal_value, identifier_run_len, next_token, number_kind, number_run,
    number_run_len, position_after, skip_blank,
    skip_step, start_of, strip_underscores, word_kind, Cursor,
};
use crate::lexer::tokens::{KindView, TokenView};

verus! {

/// Whether `pattern` stands in `text` at index `at`.
pub open spec fn occurs_at(text: Seq<char>, pattern: Seq<char>, at: int) -> bool {
    &&& 0 <= at
    &&& at + pattern.len() <= text.len()
    &&& text.subrange(at, at + pattern.len()) == pattern
}

/// A comment from `open` to `close`: a text that starts with `open`, ends
/// with `close`, and holds `close` nowhere before its end.
pub open spec fn is_comment(text: Seq<char>, open: Seq<char>, close: Seq<char>) -> bool {
    &&& open.is_prefix_of(text)
    &&& occurs_at(text, close, text.len() - close.len())
    &&& forall|at: int| 0 <= at < text.len() - close.len() ==> !occurs_at(text, close, at)
}

/// A piece of text that the tokenizer passes over: one whitespace character,
/// a line comment with its newline, or a block comment.
pub open spec fn is_blank_piece(piece: Seq<char>) -> bool {
    ||| piece.len() == 1 && unicode_whitespace(piece[0])
    ||| is_comment(piece, line_comment_open(), line_comment_close())
    ||| is_comment(piece, block_comment_open(), block_comment_close())
}

/// The pieces one after another.
pub open spec fn joined(pieces: Seq<Seq<char>>) -> Seq<char>
    decreases pieces.len(),
{
    if pieces.len() == 0 {
        Seq::empty()
    } else {
        pieces[0] + joined(pieces.drop_first())
    }
}

/// A text that holds nothing but whitespace and comments: skipping them
/// leaves no character.
pub open spec fn only_blank(text: Seq<char>) -> bool {
    skip_blank(start_of(text)).text.len() == 0
}

/// In front of any text, a comment is as long as `length_through` says.
proof fn lemma_comment_length(piece: Seq<char>, rest: Seq<char>, open: Seq<char>, close: Seq<char>, from: int)
    requires
        close.len() > 0,
        is_comment(piece, open, close),
        0 <= from <= piece.len() - close.len(),
    ensures
        length_through((piece + rest).skip(from), close) == piece.len() - from,
    decreases piece.len() - from,
{
    let text = (piece + rest).skip(from);
    assert(text.subrange(0, close.len() as int) =~= piece.subrange(from, from + close.len()));
    if from < piece.len() - close.len() {
        assert(!occurs_at(piece, close, from));
        assert(text.drop_first() =~= (piece + rest).skip(from + 1));
        lemma_comment_length(piece, rest, open, close, from + 1);
    }
}

/// Skipping passes over any run of blank pieces, wherever it starts.
proof fn lemma_skip_blank_pieces(pieces: Seq<Seq<char>>, row: nat, col: nat)
    requires
        forall|i: int| 0 <= i < pieces.len() ==> is_blank_piece(#[trigger] pieces[i]),
        !unicode_whitespace('/'),
    ensures
        skip_blank(Cursor { row, col, text: joined(pieces) }).text.len() == 0,
    decreases pieces.len(),
{
    if pieces.len() > 0 {
        let piece = pieces[0];
        let rest = joined(pieces.drop_first());
        let cur = Cursor { row, col, text: piece + rest };
        assert(is_blank_piece(piece));
        assert forall|i: int| 0 <= i < pieces.drop_first().len() implies is_blank_piece(
            #[trigger] pieces.drop_first()[i],
        ) by {
            assert(pieces.drop_first()[i] == pieces[i + 1]);
        }
        if piece.len() == 1 && unicode_whitespace(piece[0]) {
            assert(cur.text.drop_first() =~= rest);
            let (next_row, next_col) = position_after(row, col, piece[0]);
            lemma_skip_blank_pieces(pieces.drop_first(), next_row, next_col);
        } else {
            let block = !is_comment(piece, line_comment_open(), line_comment_close());
            let open = if block {
                block_comment_open()
            } else {
                line_comment_open()
            };
            let close = if block {
                block_comment_close()
            } else {
                line_comment_close()
            };
            assert(is_comment(piece, open, close));
            assert(cur.text.subrange(0, 2) =~= piece.subrange(0, 2));
            assert(piece.subrange(0, 2)[0] == '/');
            assert(piece.subrange(0, 2)[1] == open[1]);
            assert(cur.text[0] == '/');
            if block {
                assert(cur.text.subrange(0, 2)[1] == '*');
                assert(!line_comment_open().is_prefix_of(cur.text));
            }
            lemma_comment_length(piece, rest, open, close, 0);
            assert((piece + rest).skip(0) =~= piece + rest);
            assert(cur.text.skip(piece.len() as int) =~= rest);
            lemma_skip_blank_pieces(pieces.drop_first(), row, col);
        }
    }
}

/// Whitespace and comments in any combination hold no token. The slash is
/// taken not to be whitespace, which the character tables do not say here.
pub proof fn lemma_blank_pieces_have_no_tokens(pieces: Seq<Seq<char>>)
    requires
        forall|i: int| 0 <= i < pieces.len() ==> is_blank_piece(#[trigger] pieces[i]),
        !unicode_whitespace('/'),
    ensures
        only_blank(joined(pieces)),
        lex(start_of(joined(pieces))) == Ok::<_, LexError>(Seq::<TokenView>::empty()),
{
    lemma_skip_blank_pieces(pieces, 0, 0);
    lemma_blank_text_has_no_tokens(joined(pieces));
}

/// A text that skipping consumes whole has no tokens, and a text without
/// tokens that lexes at all is such a text.
pub proof fn lemma_blank_text_has_no_tokens(text: Seq<char>)
    ensures
        only_blank(text) ==> lex(start_of(text)) == Ok::<_, LexError>(Seq::<TokenView>::empty()),
        lex(start_of(text)) == Ok::<_, LexError>(Seq::<TokenView>::empty()) ==> only_blank(text),
{
    let cur = start_of(text);
    lemma_next_token_shrinks(cur);
    if let Ok(Some((token, rest))) = next_token(cur) {
        if let Ok(tokens) = lex(rest) {
            assert((seq![token] + tokens).len() > 0);
        }
    }
}

/// A whitespace character in front of a text moves the position as
/// `position_after` says and is otherwise without effect: a newline starts
/// the next row at column 0, a tab adds four columns, any other one.
pub proof fn lemma_whitespace_moves_position(row: nat, col: nat, c: char, rest: Seq<char>)
    requires
        unicode_whitespace(c),
    ensures
        skip_blank(Cursor { row, col, text: seq![c] + rest }) == skip_blank(
            Cursor { row: position_after(row, col, c).0, col: position_after(row, col, c).1, text: rest },
        ),
        c == '\n' ==> position_after(row, col, c) == (row + 1, 0nat),
        c == '\t' ==> position_after(row, col, c) == (row, col + 4),
        c != '\n' && c != '\t' ==> position_after(row, col, c) == (row, col + 1),
{
    let cur = Cursor { row, col, text: seq![c] + rest };
    assert(cur.text.drop_first() =~= rest);
    assert(skip_step(cur) is Some);
}

/// Stripping the underscores of two texts in a row strips each.
proof fn lemma_strip_concat(left: Seq<char>, right: Seq<char>)
    ensures
        strip_underscores(left + right) == strip_underscores(left) + strip_underscores(right),
{
    Seq::filter_distributes_over_add(left, right, |c: char| c != '_');
}

/// An underscore anywhere in a numeric run changes neither the token's kind
/// nor its value: `1_000` is `1000`.
pub proof fn lemma_underscore_keeps_number(run: Seq<char>, at: int)
    requires
        0 <= at <= run.len(),
    ensures
        strip_underscores(run.insert(at, '_')) == strip_underscores(run),
        number_kind(run.insert(at, '_')) == number_kind(run),
{
    let wider = run.insert(at, '_');
    let left = run.take(at);
    let right = run.skip(at);
    assert(wider =~= left + seq!['_'] + right);
    assert(run =~= left + right);
    lemma_strip_concat(left + seq!['_'], right);
    lemma_strip_concat(left, seq!['_']);
    lemma_strip_concat(left, right);
    assert(strip_underscores(seq!['_']) =~= Seq::<char>::empty()) by {
        reveal_with_fuel(Seq::filter, 2);
    }
    assert(strip_underscores(left) + Seq::<char>::empty() =~= strip_underscores(left));
    assert forall|c: char| c != '_' implies wider.contains(c) == run.contains(c) by {
        if run.contains(c) {
            let i = choose|i: int| 0 <= i < run.len() && run[i] == c;
            if i < at {
                assert(wider[i] == c);
            } else {
                assert(wider[i + 1] == c);
            }
        }
        if wider.contains(c) {
            let i = choose|i: int| 0 <= i < wider.len() && wider[i] == c;
            if i < at {
                assert(run[i] == c);
            } else {
                assert(run[i - 1] == c);
            }
        }
    }
    if has_digit(run) {
        let i = choose|i: int| 0 <= i < run.len() && is_digit(run[i]);
        assert(wider.contains(run[i]));
        let j = choose|j: int| 0 <= j < wider.len() && wider[j] == run[i];
        assert(is_digit(wider[j]));
    }
    if has_digit(wider) {
        let i = choose|i: int| 0 <= i < wider.len() && is_digit(wider[i]);
        assert(run.contains(wider[i]));
        let j = choose|j: int| 0 <= j < run.len() && run[j] == wider[i];
        assert(is_digit(run[j]));
    }
}

/// A literal that starts with a digit fails in one way only: as an integer
/// that is too large. With a dot it always has a token.
pub proof fn lemma_number_fails_by_overflow_only(text: Seq<char>)
    requires
        text.len() > 0,
        is_digit(text[0]),
    ensures
        number_run(text).contains('.') ==> number_kind(number_run(text)) is Ok,
        number_kind(number_run(text)) matches Err(e) ==> e == LexError::NumberParseFailure(
            NumberFault::Overflow,
        ) && decimal_value(strip_underscores(number_run(text))) > i32::MAX,
{
    let run = number_run(text);
    lemma_number_run_is_maximal(text, false);
    assert(number_run_len(text, false) >= 1);
    assert(is_digit(run[0]));
    run.lemma_filter_contains(|c: char| c != '_', 0);
}

/// The number of dots in `text`.
pub open spec fn dot_count(text: Seq<char>) -> nat
    decreases text.len(),
{
    if text.len() == 0 {
        0
    } else {
        dot_count(text.drop_first()) + if text[0] == '.' {
            1nat
        } else {
            0nat
        }
    }
}

/// A numeric run never takes a second dot: it holds one dot at most, none
/// where one was seen before it, and a dot behind it is left in the text.
pub proof fn lemma_number_run_takes_one_dot(text: Seq<char>, seen_dot: bool)
    ensures
        number_run_len(text, seen_dot) <= text.len(),
        dot_count(text.take(number_run_len(text, seen_dot) as int)) <= if seen_dot {
            0nat
        } else {
            1nat
        },
    decreases text.len(),
{
    let n = number_run_len(text, seen_dot);
    if n > 0 {
        let rest = text.drop_first();
        let later = seen_dot || text[0] == '.';
        lemma_number_run_takes_one_dot(rest, later);
        assert(text.take(n as int).drop_first() =~= rest.take(n - 1));
    } else {
        assert(text.take(0).len() == 0);
    }
}

/// A numeric run is maximal: it is made of digits, underscores and dots
/// only, and the character behind it is none of them, unless it is the dot
/// that would be the second.
pub proof fn lemma_number_run_is_maximal(text: Seq<char>, seen_dot: bool)
    ensures
        number_run_len(text, seen_dot) <= text.len(),
        forall|i: int|
            0 <= i < number_run_len(text, seen_dot) ==> is_number_body(#[trigger] text[i])
                || text[i] == '.',
        number_run_len(text, seen_dot) < text.len() ==> {
            let behind = text[number_run_len(text, seen_dot) as int];
            &&& !is_number_body(behind)
            &&& behind == '.' ==> seen_dot || text.take(
                number_run_len(text, seen_dot) as int,
            ).contains('.')
        },
    decreases text.len(),
{
    let n = number_run_len(text, seen_dot);
    if n > 0 {
        let rest = text.drop_first();
        let later = seen_dot || text[0] == '.';
        lemma_number_run_is_maximal(rest, later);
        assert forall|i: int| 0 <= i < n implies is_number_body(#[trigger] text[i]) || text[i]
            == '.' by {
            if i > 0 {
                assert(text[i] == rest[i - 1]);
            }
        }
        if n < text.len() {
            assert(text[n as int] == rest[n - 1]);
            if rest[n - 1] == '.' && !seen_dot {
                if text[0] == '.' {
                    assert(text.take(n as int)[0] == '.');
                } else {
                    let run = rest.take(n - 1);
                    let at = choose|at: int| 0 <= at < run.len() && run[at] == '.';
                    assert(text.take(n as int)[at + 1] == '.');
                }
            }
        }
    }
}

/// An identifier run is maximal: it is made of identifier characters only,
/// and the character behind it is none.
pub proof fn lemma_identifier_run_is_maximal(text: Seq<char>)
    ensures
        identifier_run_len(text) <= text.len(),
        forall|i: int| 0 <= i < identifier_run_len(text) ==> is_identifier_part(#[trigger] text[i]),
        identifier_run_len(text) < text.len() ==> !is_identifier_part(
            text[identifier_run_len(text) as int],
        ),
    decreases text.len(),
{
    let n = identifier_run_len(text);
    if n > 0 {
        let rest = text.drop_first();
        lemma_identifier_run_is_maximal(rest);
        assert forall|i: int| 0 <= i < n implies is_identifier_part(#[trigger] text[i]) by {
            if i > 0 {
                assert(text[i] == rest[i - 1]);
            }
        }
        if n < text.len() {
            assert(text[n as int] == rest[n - 1]);
        }
    }
}

/// Keywords are matched exactly and with their case: only `fn` is the
/// function keyword and only `let` the let keyword; every other word is an
/// identifier of that very name.
pub proof fn lemma_keywords_are_exact(word: Seq<char>)
    ensures
        word_kind(word) is Function <==> word == seq!['f', 'n'],
        word_kind(word) is Let <==> word == seq!['l', 'e', 't'],
        word != seq!['f', 'n'] && word != seq!['l', 'e', 't'] ==> word_kind(word)
            == KindView::Identifier(word),
{
    assert(seq!['f', 'n'].len() != seq!['l', 'e', 't'].len());
}

/// Whether the position `(row, col)` comes before `(other_row, other_col)`
/// in reading order.
pub open spec fn comes_before(row: nat, col: nat, other_row: nat, other_col: nat) -> bool {
    row < other_row || (row == other_row && col < other_col)
}

/// Skipping never moves the position backwards.
pub proof fn lemma_skip_blank_moves_forward(cur: Cursor)
    ensures
        !comes_before(skip_blank(cur).row, skip_blank(cur).col, cur.row, cur.col),
    decreases cur.text.len(),
{
    lemma_skip_step_shrinks(cur);
    if let Some(next) = skip_step(cur) {
        lemma_skip_blank_moves_forward(next);
    }
}

/// Tokens come in reading order and do not overlap: none starts before the
/// cursor it was read from, and each starts at or behind the end of the one
/// before it.
pub proof fn lemma_tokens_in_reading_order(cur: Cursor)
    ensures
        lex(cur) matches Ok(tokens) ==> {
            &&& forall|i: int|
                0 <= i < tokens.len() ==> !comes_before(
                    (#[trigger] tokens[i]).row,
                    tokens[i].col,
                    cur.row,
                    cur.col,
                )
            &&& forall|i: int, j: int|
                0 <= i < j < tokens.len() ==> comes_before(
                    (#[trigger] tokens[i]).row,
                    tokens[i].col,
                    (#[trigger] tokens[j]).row,
                    tokens[j].col,
                )
        },
    decreases cur.text.len(),
{
    lemma_next_token_shrinks(cur);
    lemma_skip_blank_moves_forward(cur);
    if let Ok(Some((token, rest))) = next_token(cur) {
        lemma_token_at_bounds(skip_blank(cur).text);
        lemma_tokens_in_reading_order(rest);
        if let Ok(later) = lex(rest) {
            let tokens = seq![token] + later;
            assert forall|i: int| 0 <= i < tokens.len() implies !comes_before(
                (#[trigger] tokens[i]).row,
                tokens[i].col,
                cur.row,
                cur.col,
            ) by {
                if i > 0 {
                    assert(tokens[i] == later[i - 1]);
                }
            }
            assert forall|i: int, j: int| 0 <= i < j < tokens.len() implies comes_before(
                (#[trigger] tokens[i]).row,
                tokens[i].col,
                (#[trigger] tokens[j]).row,
                tokens[j].col,
            ) by {
                assert(tokens[j] == later[j - 1]);
                if i > 0 {
                    assert(tokens[i] == later[i - 1]);
                }
            }
        }
    }
}

} // verus!
