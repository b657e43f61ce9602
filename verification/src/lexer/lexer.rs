//! The tokenizer: a cursor over the source text that hands out one token at
//! a time.

use vstd::prelude::*;
use vstd::std_specs::iter::IteratorSpec;
use crate::errors::{LexError, NumberFault};
use crate::extensions::iter::IteratorExt;
use crate::lexer::chars::{
    check_digit, check_identifier_part, check_identifier_start, digit_of, digit_value, is_digit,
    unicode_whitespace,
};
use crate::lexer::grammar::{
    block_comment_close, decimal_value, has_digit, identifier_run_len, length_through,
    lemma_identifier_run_bounds, lemma_length_through_bounds, lemma_next_token_shrinks,
    lemma_number_run_bounds, lex, line_comment_close, next_token, number_kind, number_run,
    number_run_len, position_after, skip_blank, skip_step, start_of, strip_underscores,
    symbol_kind, word_kind, Cursor,
};
use crate::lexer::text::{drop_chars, first_char, starts_with_pair, take_chars};
use crate::lexer::tokens::{token_views, KindView, Token, TokenKind, TokenView};

verus! {

/// Stripping underscores goes character by character.
proof fn lemma_strip_push(run: Seq<char>, c: char)
    ensures
        strip_underscores(run.push(c)) == if c == '_' {
            strip_underscores(run)
        } else {
            strip_underscores(run).push(c)
        },
{
    reveal(Seq::filter);
    assert(run.push(c).drop_last() =~= run);
}

/// The value of a digit string grows with each digit that is added.
proof fn lemma_decimal_push(digits: Seq<char>, c: char)
    ensures
        decimal_value(digits.push(c)) == decimal_value(digits) * 10 + digit_value(c),
        decimal_value(digits.push(c)) >= decimal_value(digits),
{
    assert(digits.push(c).drop_last() =~= digits);
    assert(decimal_value(digits) * 10 >= decimal_value(digits)) by (nonlinear_arith);
}

/// The value with one more decimal digit behind it, as long as it fits 32
/// signed bits; `None` once it does not.
fn append_digit(value: Option<u32>, digit: u32) -> (longer: Option<u32>)
    requires
        digit <= 9,
        value matches Some(v) ==> v <= i32::MAX,
    ensures
        longer == match value {
            Some(v) if v * 10 + digit <= i32::MAX => Some((v * 10 + digit) as u32),
            _ => None,
        },
{
    match value {
        Some(v) => {
            let next: u64 = v as u64 * 10 + digit as u64;
            if next <= 2147483647 {
                Some(next as u32)
            } else {
                None
            }
        },
        None => None,
    }
}

/// Reads the numeric literal at the start of `data`: the longest run of
/// digits, underscores and at most one dot. The result is the literal's token
/// and the number of characters it takes up.
pub fn tokenize_number(data: &str) -> (res: Result<(TokenKind, usize), LexError>)
    requires
        data@.len() <= usize::MAX,
    ensures
        match res {
            Ok((kind, length)) => number_kind(number_run(data@)) == Ok::<_, LexError>(kind@)
                && length == number_run(data@).len(),
            Err(e) => number_kind(number_run(data@)) == Err::<KindView, _>(e),
        },
{
    broadcast use vstd::string::group_string_axioms;

    let is_dot = |c: &char| -> (b: bool)
        ensures
            b == (*c == '.'),
        { *c == '.' };
    let mut chars = data.chars().limit_count(is_dot, 1);
    let mut seen_dot = false;
    let mut seen_digit = false;
    let mut length: usize = 0;
    let mut text = String::new();
    let mut value: Option<u32> = Some(0);
    proof {
        assert(data@.take(0) =~= Seq::<char>::empty());
        assert(data@.skip(0) =~= data@);
        reveal(Seq::filter);
    }
    loop
        invariant_except_break
            chars.source().remaining() == data@.skip(length as int),
            chars.count() == if seen_dot { 1nat } else { 0nat },
        invariant
            data@.len() <= usize::MAX,
            length <= data@.len(),
            chars.source().obeys_prophetic_iter_laws(),
            chars.predicate() == is_dot,
            chars.limit() == 1,
            forall|c: &char, b: bool| call_ensures(is_dot, (c,), b) ==> b == (*c == '.'),
            forall|c: char| call_requires(is_dot, (&c,)),
            number_run_len(data@, false) == length + number_run_len(
                data@.skip(length as int),
                seen_dot,
            ),
            seen_dot == data@.take(length as int).contains('.'),
            seen_digit == has_digit(data@.take(length as int)),
            text@ == strip_underscores(data@.take(length as int)),
            !seen_dot ==> (text@.len() > 0 <==> seen_digit),
            value matches Some(v) ==> v <= i32::MAX,
            !seen_dot ==> match value {
                Some(v) => v == decimal_value(text@),
                None => decimal_value(text@) > i32::MAX,
            },
        ensures
            length == number_run_len(data@, false),
        decreases data@.len() - length,
    {
        let ghost rest = data@.skip(length as int);
        let ghost head = data@.take(length as int);
        match chars.next() {
            None => {
                break ;
            },
            Some(c) => {
                proof {
                    assert(rest.drop_first() =~= data@.skip(length + 1));
                    assert(data@.take(length + 1) =~= head.push(c));
                    lemma_strip_push(head, c);
                    lemma_decimal_push(text@, c);
                    lemma_contains_push(head, c);
                    lemma_has_digit_push(head, c);
                }
                if c == '.' {
                    // The adaptor has withheld a second dot already.
                    assert(!seen_dot);
                    seen_dot = true;
                    text.push(c);
                } else if check_digit(c) {
                    seen_digit = true;
                    let digit = digit_of(c);
                    value = append_digit(value, digit);
                    text.push(c);
                } else if c == '_' {
                } else {
                    break ;
                }
                length = length + 1;
            },
        }
    }
    proof {
        assert(number_run(data@) == data@.take(length as int));
    }
    if seen_dot {
        if seen_digit {
            Ok((TokenKind::Float(text), length))
        } else {
            Err(LexError::NumberParseFailure(NumberFault::Invalid))
        }
    } else if !seen_digit {
        Err(LexError::NumberParseFailure(NumberFault::Empty))
    } else {
        match value {
            Some(v) => Ok((TokenKind::Integer(v as i32), length)),
            None => Err(LexError::NumberParseFailure(NumberFault::Overflow)),
        }
    }
}

/// A pushed character is found in the sequence, and nothing else is new.
proof fn lemma_contains_push(s: Seq<char>, c: char)
    ensures
        s.push(c).contains('.') == (s.contains('.') || c == '.'),
{
    if s.contains('.') {
        let i = choose|i: int| 0 <= i < s.len() && s[i] == '.';
        assert(s.push(c)[i] == '.');
    }
    if c == '.' {
        assert(s.push(c)[s.len() as int] == '.');
    }
}

/// A pushed digit is found in the sequence, and nothing else is new.
proof fn lemma_has_digit_push(s: Seq<char>, c: char)
    ensures
        has_digit(s.push(c)) == (has_digit(s) || is_digit(c)),
{
    if has_digit(s) {
        let i = choose|i: int| 0 <= i < s.len() && is_digit(s[i]);
        assert(is_digit(s.push(c)[i]));
    }
    if is_digit(c) {
        assert(is_digit(s.push(c)[s.len() as int]));
    }
    if has_digit(s.push(c)) {
        let i = choose|i: int| 0 <= i < s.push(c).len() && is_digit(s.push(c)[i]);
        if i < s.len() {
            assert(is_digit(s[i]));
        }
    }
}

/// Reads the word at the start of `data`: the longest run of alphanumeric
/// characters and underscores. The result is the word and its length in
/// characters.
pub fn read_identifier_like<'a>(data: &'a str) -> (res: (&'a str, usize))
    requires
        data@.len() <= usize::MAX,
    ensures
        res.1 == identifier_run_len(data@),
        res.0@ == data@.take(res.1 as int),
{
    broadcast use vstd::string::group_string_axioms;

    let mut chars = data.chars();
    let mut length: usize = 0;
    proof {
        assert(data@.skip(0) =~= data@);
    }
    loop
        invariant_except_break
            chars.remaining() == data@.skip(length as int),
        invariant
            data@.len() <= usize::MAX,
            length <= data@.len(),
            identifier_run_len(data@) == length + identifier_run_len(data@.skip(length as int)),
        ensures
            length == identifier_run_len(data@),
        decreases data@.len() - length,
    {
        match chars.next() {
            Some(c) => {
                if !check_identifier_part(c) {
                    break ;
                }
                proof {
                    assert(data@.skip(length as int).drop_first() =~= data@.skip(length + 1));
                }
                length = length + 1;
            },
            None => {
                break ;
            },
        }
    }
    (take_chars(data, length), length)
}

/// Whether the two texts hold the same characters.
fn same_text(left: &str, right: &str) -> (same: bool)
    ensures
        same == (left@ == right@),
{
    broadcast use vstd::string::group_string_axioms;

    let mut a = left.chars();
    let mut b = right.chars();
    let ghost mut n: int = 0;
    proof {
        assert(left@.skip(0) =~= left@);
        assert(right@.skip(0) =~= right@);
    }
    loop
        invariant_except_break
            a.remaining() == left@.skip(n),
            b.remaining() == right@.skip(n),
        invariant
            0 <= n <= left@.len(),
            n <= right@.len(),
            left@.take(n) == right@.take(n),
        decreases left@.len() - n,
    {
        let x = a.next();
        let y = b.next();
        match (x, y) {
            (Some(c), Some(d)) => {
                if c != d {
                    proof {
                        assert(left@[n] != right@[n]);
                    }
                    return false;
                }
                proof {
                    assert(left@.skip(n).drop_first() =~= left@.skip(n + 1));
                    assert(right@.skip(n).drop_first() =~= right@.skip(n + 1));
                    assert(left@.take(n + 1) =~= left@.take(n).push(c));
                    assert(right@.take(n + 1) =~= right@.take(n).push(d));
                    n = n + 1;
                }
            },
            (None, None) => {
                proof {
                    assert(left@.take(n) =~= left@);
                    assert(right@.take(n) =~= right@);
                }
                return true;
            },
            _ => {
                return false;
            },
        }
    }
}

/// The token that a word stands for: the keyword spelled exactly like it, or
/// an identifier of that name.
pub fn keyword_or_identifier(word: &str) -> (kind: TokenKind)
    ensures
        kind@ == word_kind(word@),
{
    proof {
        reveal_strlit("fn");
        reveal_strlit("let");
        assert("fn"@ =~= seq!['f', 'n']);
        assert("let"@ =~= seq!['l', 'e', 't']);
    }
    if same_text(word, "fn") {
        TokenKind::Function
    } else if same_text(word, "let") {
        TokenKind::Let
    } else {
        TokenKind::Identifier(word.to_owned())
    }
}

/// The token that the single character `c` is, if it is one.
pub fn symbol_of(c: char) -> (kind: Option<TokenKind>)
    ensures
        match kind {
            Some(k) => symbol_kind(c) == Some(k@),
            None => symbol_kind(c) is None,
        },
{
    match c {
        '(' => Some(TokenKind::OpenParen),
        ')' => Some(TokenKind::CloseParen),
        '{' => Some(TokenKind::OpenBrace),
        '}' => Some(TokenKind::CloseBrace),
        '|' => Some(TokenKind::Bar),
        ';' => Some(TokenKind::Semicolon),
        ':' => Some(TokenKind::Colon),
        ',' => Some(TokenKind::Comma),
        '.' => Some(TokenKind::Dot),
        '=' => Some(TokenKind::Equal),
        '+' => Some(TokenKind::Plus),
        _ => None,
    }
}

/// The number of characters of `data` up to and including its first newline,
/// or all of them where it has none.
pub fn line_comment_length(data: &str) -> (length: usize)
    requires
        data@.len() <= usize::MAX,
    ensures
        length == length_through(data@, line_comment_close()),
{
    broadcast use vstd::string::group_string_axioms;

    let mut chars = data.chars();
    let mut length: usize = 0;
    proof {
        assert(data@.skip(0) =~= data@);
    }
    loop
        invariant_except_break
            chars.remaining() == data@.skip(length as int),
            length_through(data@, line_comment_close()) == length + length_through(
                data@.skip(length as int),
                line_comment_close(),
            ),
        invariant
            data@.len() <= usize::MAX,
            length <= data@.len(),
        ensures
            length == length_through(data@, line_comment_close()),
        decreases data@.len() - length,
    {
        let ghost rest = data@.skip(length as int);
        match chars.next() {
            Some(c) => {
                proof {
                    assert(rest.drop_first() =~= data@.skip(length + 1));
                    assert(rest.subrange(0, 1)[0] == c);
                    if c == '\n' {
                        assert(line_comment_close() =~= rest.subrange(0, 1));
                    }
                }
                length = length + 1;
                if c == '\n' {
                    break ;
                }
            },
            None => {
                break ;
            },
        }
    }
    length
}

/// The number of characters of `data` up to and including the first `*/`
/// in it, or all of them where it has none.
pub fn block_comment_length(data: &str) -> (length: usize)
    requires
        data@.len() <= usize::MAX,
    ensures
        length == length_through(data@, block_comment_close()),
{
    broadcast use vstd::string::group_string_axioms;

    let mut chars = data.chars();
    let mut previous = match chars.next() {
        Some(c) => c,
        None => {
            return 0;
        },
    };
    let mut length: usize = 1;
    proof {
        assert(data@.skip(0) =~= data@);
    }
    loop
        invariant_except_break
            chars.remaining() == data@.skip(length as int),
            previous == data@[length - 1],
            length_through(data@, block_comment_close()) == length - 1 + length_through(
                data@.skip(length - 1),
                block_comment_close(),
            ),
        invariant
            data@.len() <= usize::MAX,
            1 <= length <= data@.len(),
        ensures
            length == length_through(data@, block_comment_close()),
        decreases data@.len() - length,
    {
        let ghost rest = data@.skip(length - 1);
        proof {
            assert(rest.drop_first() =~= data@.skip(length as int));
        }
        match chars.next() {
            Some(c) => {
                proof {
                    assert(rest.subrange(0, 2)[0] == previous);
                    assert(rest.subrange(0, 2)[1] == c);
                    if previous == '*' && c == '/' {
                        assert(block_comment_close() =~= rest.subrange(0, 2));
                    }
                    assert(data@.skip(length as int).drop_first() =~= data@.skip(length + 1));
                }
                length = length + 1;
                if previous == '*' && c == '/' {
                    break ;
                }
                previous = c;
            },
            None => {
                proof {
                    assert(rest.len() == 1);
                    assert(length_through(rest.drop_first(), block_comment_close()) == 0);
                }
                break ;
            },
        }
    }
    length
}

/// The cursor of the tokenizer: the position of the next character and the
/// text that is still to be read.
pub struct Tokenizer<'a> {
    pub row: usize,
    pub col: usize,
    pub remaining_text: &'a str,
}

impl<'a> View for Tokenizer<'a> {
    type V = Cursor;

    open spec fn view(&self) -> Cursor {
        Cursor { row: self.row as nat, col: self.col as nat, text: self.remaining_text@ }
    }
}

impl<'a> From<&'a str> for Tokenizer<'a> {
    /// A tokenizer at the start of `value`, as `Tokenizer::new` gives it.
    fn from(value: &'a str) -> (tokenizer: Self) {
        Tokenizer { row: 0, col: 0, remaining_text: value }
    }
}

impl<'a> vstd::std_specs::convert::FromSpecImpl<&'a str> for Tokenizer<'a> {
    open spec fn obeys_from_spec() -> bool {
        true
    }

    open spec fn from_spec(value: &'a str) -> Self {
        Tokenizer { row: 0, col: 0, remaining_text: value }
    }
}

/// The position behind the whitespace character `c` read at `(row, col)`.
pub fn advance_position(row: usize, col: usize, c: char) -> (moved: (usize, usize))
    requires
        row < usize::MAX,
        col <= usize::MAX - 4,
    ensures
        (moved.0 as nat, moved.1 as nat) == position_after(row as nat, col as nat, c),
{
    if c == '\n' {
        (row + 1, 0)
    } else if c == '\t' {
        (row, col + 4)
    } else {
        (row, col + 1)
    }
}

impl Token {
    /// The token of the given kind at the tokenizer's position.
    pub fn new(kind: TokenKind, tokenizer: &Tokenizer) -> (token: Token)
        ensures
            token.kind == kind,
            token.row == tokenizer.row,
            token.col == tokenizer.col,
    {
        Token { kind, row: tokenizer.row, col: tokenizer.col }
    }
}

impl<'a> Tokenizer<'a> {
    /// Whether the position can be kept up to the end of the text: no row or
    /// column on the way exceeds what a `usize` holds.
    pub open spec fn wf(&self) -> bool {
        &&& self@.row + self@.text.len() <= usize::MAX
        &&& self@.col + 4 * self@.text.len() <= usize::MAX
    }

    /// A tokenizer at the start of `value`. It is well formed where four
    /// times the length of `value` fits a `usize`.
    pub fn new(value: &'a str) -> (tokenizer: Tokenizer<'a>)
        ensures
            tokenizer.row == 0,
            tokenizer.col == 0,
            tokenizer.remaining_text == value,
            tokenizer@ == start_of(value@),
    {
        Tokenizer { row: 0, col: 0, remaining_text: value }
    }

    /// Moves over the whitespace at the start of the text, keeping the
    /// position: a newline starts the next row, a tab is four columns wide,
    /// any other whitespace one.
    fn skip_whitespace(&mut self) -> (moved: bool)
        requires
            old(self).wf(),
        ensures
            final(self).wf(),
            skip_blank(final(self)@) == skip_blank(old(self)@),
            final(self)@.text.len() <= old(self)@.text.len(),
            moved == (final(self)@.text.len() < old(self)@.text.len()),
            final(self)@.text.len() > 0 ==> !unicode_whitespace(final(self)@.text[0]),
            !moved ==> final(self)@ == old(self)@,
    {
        broadcast use vstd::string::group_string_axioms;

        let data = self.remaining_text;
        let mut chars = data.chars();
        let mut count: usize = 0;
        proof {
            assert(data@.skip(0) =~= data@);
        }
        loop
            invariant_except_break
                chars.remaining() == data@.skip(count as int),
            invariant
                data@ == old(self)@.text,
                data@.len() <= usize::MAX,
                self.remaining_text == data,
                count <= data@.len(),
                self.row + (data@.len() - count) <= usize::MAX,
                self.col + 4 * (data@.len() - count) <= usize::MAX,
                count == 0 ==> self.row == old(self).row && self.col == old(self).col,
                skip_blank(
                    Cursor {
                        row: self.row as nat,
                        col: self.col as nat,
                        text: data@.skip(count as int),
                    },
                ) == skip_blank(old(self)@),
            ensures
                count < data@.len() ==> !unicode_whitespace(data@[count as int]),
            decreases data@.len() - count,
        {
            let ghost here = Cursor {
                row: self.row as nat,
                col: self.col as nat,
                text: data@.skip(count as int),
            };
            match chars.next() {
                Some(c) => {
                    if !c.is_whitespace() {
                        break ;
                    }
                    proof {
                        assert(here.text.drop_first() =~= data@.skip(count + 1));
                        assert(skip_step(here) is Some);
                    }
                    let (row, col) = advance_position(self.row, self.col, c);
                    self.row = row;
                    self.col = col;
                    count = count + 1;
                },
                None => {
                    break ;
                },
            }
        }
        self.remaining_text = drop_chars(data, count);
        count > 0
    }

    /// Moves over the comment at the start of the text, if there is one: a
    /// line comment with the newline that ends it, a block comment with its
    /// closing marker. The position stays as it is.
    fn skip_comment(&mut self) -> (moved: bool)
        requires
            old(self).wf(),
            old(self)@.text.len() > 0 ==> !unicode_whitespace(old(self)@.text[0]),
        ensures
            final(self).wf(),
            skip_blank(final(self)@) == skip_blank(old(self)@),
            moved ==> final(self)@.text.len() < old(self)@.text.len(),
            !moved ==> final(self)@ == old(self)@ && skip_step(old(self)@) is None,
    {
        let data = self.remaining_text;
        let length = if starts_with_pair(data, '/', '/') {
            line_comment_length(data)
        } else if starts_with_pair(data, '/', '*') {
            block_comment_length(data)
        } else {
            0
        };
        proof {
            lemma_length_through_bounds(data@, line_comment_close());
            lemma_length_through_bounds(data@, block_comment_close());
        }
        if length == 0 {
            return false;
        }
        self.remaining_text = drop_chars(data, length);
        true
    }

    /// Moves over all whitespace and comments at the start of the text.
    pub fn skip(&mut self)
        requires
            old(self).wf(),
        ensures
            final(self).wf(),
            final(self)@ == skip_blank(old(self)@),
    {
        loop
            invariant
                self.wf(),
                skip_blank(self@) == skip_blank(old(self)@),
            ensures
                self@ == skip_blank(old(self)@),
            decreases self@.text.len(),
        {
            let spaces = self.skip_whitespace();
            let comment = self.skip_comment();
            if !spaces && !comment {
                break ;
            }
        }
    }

    /// Moves over `amount` characters of one line.
    pub fn advance(&mut self, amount: usize)
        requires
            old(self).wf(),
            amount <= old(self)@.text.len(),
        ensures
            final(self).wf(),
            final(self)@ == (Cursor {
                row: old(self)@.row,
                col: old(self)@.col + amount as nat,
                text: old(self)@.text.skip(amount as int),
            }),
    {
        self.remaining_text = drop_chars(self.remaining_text, amount);
        self.col = self.col + amount;
    }

    /// Reads the next token: `None` at the end of the input, an error where
    /// the text holds no token. On a token the cursor stands behind it, else
    /// behind the whitespace and comments that were skipped.
    pub fn next(&mut self) -> (res: Result<Option<Token>, LexError>)
        requires
            old(self).wf(),
        ensures
            final(self).wf(),
            match res {
                Ok(Some(token)) => next_token(old(self)@) == Ok::<_, LexError>(
                    Some((token@, final(self)@)),
                ),
                Ok(None) => next_token(old(self)@) == Ok::<Option<(TokenView, Cursor)>, LexError>(
                    None,
                ) && final(self)@ == skip_blank(old(self)@),
                Err(e) => next_token(old(self)@) == Err::<Option<(TokenView, Cursor)>, _>(e)
                    && final(self)@ == skip_blank(old(self)@),
            },
    {
        self.skip();
        let next = match first_char(self.remaining_text) {
            Some(c) => c,
            None => {
                return Ok(None);
            },
        };
        proof {
            lemma_number_run_bounds(self@.text, false);
            lemma_identifier_run_bounds(self@.text.drop_first());
        }
        let (kind, size) = match symbol_of(next) {
            Some(kind) => (kind, 1),
            None => {
                if check_digit(next) {
                    match tokenize_number(self.remaining_text) {
                        Ok(found) => found,
                        Err(e) => {
                            return Err(e);
                        },
                    }
                } else if check_identifier_start(next) {
                    let (id, length) = read_identifier_like(self.remaining_text);
                    (keyword_or_identifier(id), length)
                } else {
                    return Err(LexError::UnknownCharacter(next));
                }
            },
        };
        let token = Token::new(kind, self);
        self.advance(size);
        Ok(Some(token))
    }
}

/// Splits `src` into its tokens, each with the position of its first
/// character. The whole text is read; the first error ends the scan and is
/// the result.
pub fn tokenize(src: &str) -> (res: Result<Vec<Token>, LexError>)
    requires
        4 * src@.len() <= usize::MAX,
    ensures
        match res {
            Ok(tokens) => lex(start_of(src@)) == Ok::<_, LexError>(token_views(tokens@)),
            Err(e) => lex(start_of(src@)) == Err::<Seq<TokenView>, _>(e),
        },
{
    let mut tokenizer = Tokenizer::from(src);
    let mut tokens: Vec<Token> = Vec::new();
    proof {
        assert(token_views(tokens@) =~= Seq::<TokenView>::empty());
    }
    loop
        invariant
            tokenizer.wf(),
            match lex(tokenizer@) {
                Ok(rest) => lex(start_of(src@)) == Ok::<_, LexError>(token_views(tokens@) + rest),
                Err(e) => lex(start_of(src@)) == Err::<Seq<TokenView>, _>(e),
            },
        decreases tokenizer@.text.len(),
    {
        let ghost before = tokenizer@;
        let ghost seen = token_views(tokens@);
        proof {
            lemma_next_token_shrinks(before);
        }
        match tokenizer.next() {
            Ok(Some(token)) => {
                tokens.push(token);
                proof {
                    assert(token_views(tokens@) =~= seen.push(token@));
                    if let Ok(rest) = lex(tokenizer@) {
                        assert(seen + (seq![token@] + rest) =~= seen.push(token@) + rest);
                    }
                }
            },
            Ok(None) => {
                proof {
                    assert(seen + Seq::<TokenView>::empty() =~= seen);
                }
                return Ok(tokens);
            },
            Err(e) => {
                return Err(e);
            },
        }
    }
}

} // verus!
