use paf::errors::{LexError, NumberFault};
use paf::lexer::chars::{check_digit, check_identifier_part, check_identifier_start, digit_of};
use paf::lexer::lexer::{
    advance_position, block_comment_length, keyword_or_identifier, line_comment_length, read_identifier_like,
    symbol_of, tokenize, tokenize_number, Tokenizer,
};
use paf::lexer::text::{drop_chars, first_char, starts_with_pair, take_chars};
use paf::lexer::tokens::{Token, TokenKind};

fn first_kind(src: &str) -> TokenKind {
    let mut tokenizer = Tokenizer::new(src);
    match tokenizer.next() {
        Ok(Some(token)) => token.kind,
        _ => panic!("Tokenizing got error"),
    }
}

fn float_value(kind: &TokenKind) -> f32 {
    match kind {
        TokenKind::Float(text) => text.parse().unwrap(),
        other => panic!("Got {:?}", other),
    }
}

fn identifier(name: &str) -> TokenKind {
    TokenKind::Identifier(name.to_string())
}

fn token(kind: TokenKind, row: usize, col: usize) -> Token {
    Token { kind, row, col }
}

#[test]
fn tokenize_open_brace() {
    assert_eq!(first_kind("{"), TokenKind::OpenBrace);
}

#[test]
fn tokenize_open_brace_with_trail() {
    assert_eq!(first_kind("}fdsfs"), TokenKind::CloseBrace);
}

#[test]
fn tokenize_function_keyword() {
    assert_eq!(first_kind("fn"), TokenKind::Function);
}

#[test]
fn tokenize_let_keyword() {
    assert_eq!(first_kind("let"), TokenKind::Let);
}

#[test]
fn tokenize_single_digit() {
    assert_eq!(first_kind("1"), TokenKind::Integer(1));
}

#[test]
fn tokenize_multiple_digits() {
    assert_eq!(first_kind("1234567890"), TokenKind::Integer(1_234_567_890));
}

#[test]
fn tokenize_integer_with_underscore() {
    assert_eq!(first_kind("1_000"), TokenKind::Integer(1000));
}

#[test]
fn tokenize_basic_float() {
    assert_eq!(float_value(&first_kind("1.2")), 1.2);
    assert_eq!(first_kind("1.2"), TokenKind::Float("1.2".to_string()));
}

#[test]
fn tokenize_float_with_underscore() {
    assert_eq!(float_value(&first_kind("1_000.2_000")), 1000.2);
    assert_eq!(first_kind("1_000.2_000"), TokenKind::Float("1000.2000".to_string()));
}

#[test]
fn tokenize_float_with_underscore_and_trailing() {
    assert_eq!(float_value(&first_kind("1_000.2_000_000")), 1000.2);
}

#[test]
fn tokenize_float_without_decimal() {
    assert_eq!(float_value(&first_kind("1.")), 1.0);
    assert_eq!(first_kind("1."), TokenKind::Float("1.".to_string()));
}

#[test]
fn tokenize_plus_expression() {
    let tokens = tokenize("2 + 5.5").unwrap();
    assert_eq!(tokens.len(), 3);
    assert_eq!(tokens[0], token(TokenKind::Integer(2), 0, 0));
    assert_eq!(tokens[1], token(TokenKind::Plus, 0, 2));
    assert_eq!(float_value(&tokens[2].kind), 5.5);
    assert_eq!(tokens[2], token(TokenKind::Float("5.5".to_string()), 0, 4));
}

#[test]
fn tokenize_function_declaration() {
    let tokens = tokenize("fn first(a: int, b: int) { a }").unwrap();
    assert_eq!(
        tokens,
        vec![
            token(TokenKind::Function, 0, 0),
            token(identifier("first"), 0, 3),
            token(TokenKind::OpenParen, 0, 8),
            token(identifier("a"), 0, 9),
            token(TokenKind::Colon, 0, 10),
            token(identifier("int"), 0, 12),
            token(TokenKind::Comma, 0, 15),
            token(identifier("b"), 0, 17),
            token(TokenKind::Colon, 0, 18),
            token(identifier("int"), 0, 20),
            token(TokenKind::CloseParen, 0, 23),
            token(TokenKind::OpenBrace, 0, 25),
            token(identifier("a"), 0, 27),
            token(TokenKind::CloseBrace, 0, 29),
        ]
    );
}

#[test]
fn empty_input_has_no_tokens() {
    assert_eq!(tokenize("").unwrap(), vec![]);
}

#[test]
fn whitespace_and_comments_have_no_tokens() {
    assert_eq!(tokenize("  \t\n  ").unwrap(), vec![]);
    assert_eq!(tokenize("// only a comment\n").unwrap(), vec![]);
    assert_eq!(tokenize("/* block */").unwrap(), vec![]);
    assert_eq!(tokenize(" /* a */ // b\n\t/* c\n d */ \n").unwrap(), vec![]);
    assert_eq!(tokenize("/* a *//* b */// c\n").unwrap(), vec![]);
}

#[test]
fn comment_without_end_runs_to_end_of_input() {
    assert_eq!(tokenize("// no newline").unwrap(), vec![]);
    assert_eq!(tokenize("/* never closed").unwrap(), vec![]);
    assert_eq!(tokenize("1 /* never closed").unwrap(), vec![token(TokenKind::Integer(1), 0, 0)]);
}

#[test]
fn block_comment_closes_at_first_marker() {
    let tokens = tokenize("/* a */ b /* c */").unwrap();
    assert_eq!(tokens, vec![token(identifier("b"), 0, 1)]);
    assert_eq!(tokenize("/* a */ b */"), Err(LexError::UnknownCharacter('*')));
    assert_eq!(tokenize("/*/ x").unwrap(), vec![token(identifier("x"), 0, 1)]);
}

#[test]
fn comments_do_not_move_the_position() {
    let tokens = tokenize("/* four */x").unwrap();
    assert_eq!(tokens, vec![token(identifier("x"), 0, 0)]);
    let tokens = tokenize("a // rest\nb").unwrap();
    assert_eq!(tokens, vec![token(identifier("a"), 0, 0), token(identifier("b"), 0, 2)]);
}

#[test]
fn newline_starts_next_row() {
    let tokens = tokenize("a\n  b\n\nc").unwrap();
    assert_eq!(
        tokens,
        vec![
            token(identifier("a"), 0, 0),
            token(identifier("b"), 1, 2),
            token(identifier("c"), 3, 0),
        ]
    );
}

#[test]
fn tab_is_four_columns() {
    let tokens = tokenize("\ta\t\tb").unwrap();
    assert_eq!(tokens, vec![token(identifier("a"), 0, 4), token(identifier("b"), 0, 13)]);
}

#[test]
fn second_dot_ends_the_number() {
    let tokens = tokenize("1.2.3").unwrap();
    assert_eq!(
        tokens,
        vec![
            token(TokenKind::Float("1.2".to_string()), 0, 0),
            token(TokenKind::Dot, 0, 3),
            token(TokenKind::Integer(3), 0, 4),
        ]
    );
    assert_eq!(float_value(&tokens[0].kind), 1.2);
}

#[test]
fn number_takes_its_underscores() {
    let tokens = tokenize("1_000 2").unwrap();
    assert_eq!(
        tokens,
        vec![token(TokenKind::Integer(1000), 0, 0), token(TokenKind::Integer(2), 0, 6)]
    );
    let tokens = tokenize("1__0_").unwrap();
    assert_eq!(tokens, vec![token(TokenKind::Integer(10), 0, 0)]);
}

#[test]
fn integer_limits() {
    assert_eq!(first_kind("2147483647"), TokenKind::Integer(2147483647));
    assert_eq!(first_kind("0000000000002147483647"), TokenKind::Integer(2147483647));
    assert_eq!(first_kind("0"), TokenKind::Integer(0));
    let overflow = Err(LexError::NumberParseFailure(NumberFault::Overflow));
    assert_eq!(tokenize("2147483648"), overflow);
    assert_eq!(tokenize("99999999999999999999999999"), overflow);
    assert_eq!(tokenize("a 4_294_967_296"), overflow);
    assert_eq!(tokenize("18446744073709551616"), overflow);
    assert_eq!(tokenize("4294967297"), overflow);
}

#[test]
fn long_float_keeps_its_text() {
    assert_eq!(
        first_kind("99999999999999999999999999.5"),
        TokenKind::Float("99999999999999999999999999.5".to_string())
    );
}

#[test]
fn tokenize_number_reads_the_run() {
    assert_eq!(tokenize_number("12ab"), Ok((TokenKind::Integer(12), 2)));
    assert_eq!(tokenize_number("1_2_.5_ x"), Ok((TokenKind::Float("12.5".to_string()), 7)));
    assert_eq!(tokenize_number("7.."), Ok((TokenKind::Float("7.".to_string()), 2)));
    assert_eq!(tokenize_number(".5"), Ok((TokenKind::Float(".5".to_string()), 2)));
    assert_eq!(tokenize_number("."), Err(LexError::NumberParseFailure(NumberFault::Invalid)));
    assert_eq!(tokenize_number("_._"), Err(LexError::NumberParseFailure(NumberFault::Invalid)));
    assert_eq!(tokenize_number("_"), Err(LexError::NumberParseFailure(NumberFault::Empty)));
    assert_eq!(tokenize_number(""), Err(LexError::NumberParseFailure(NumberFault::Empty)));
    assert_eq!(tokenize_number("x1"), Err(LexError::NumberParseFailure(NumberFault::Empty)));
    assert_eq!(
        tokenize_number("3_000_000_000"),
        Err(LexError::NumberParseFailure(NumberFault::Overflow))
    );
}

#[test]
fn keywords_are_exact() {
    assert_eq!(first_kind("fnx"), identifier("fnx"));
    assert_eq!(first_kind("Fn"), identifier("Fn"));
    assert_eq!(first_kind("LET"), identifier("LET"));
    assert_eq!(first_kind("lets"), identifier("lets"));
    assert_eq!(first_kind("f"), identifier("f"));
    assert_eq!(first_kind("le"), identifier("le"));
    assert_eq!(keyword_or_identifier("fn"), TokenKind::Function);
    assert_eq!(keyword_or_identifier("let"), TokenKind::Let);
    assert_eq!(keyword_or_identifier("nf"), identifier("nf"));
    assert_eq!(keyword_or_identifier(""), identifier(""));
}

#[test]
fn identifiers() {
    assert_eq!(first_kind("_x1 y"), identifier("_x1"));
    assert_eq!(first_kind("_"), identifier("_"));
    assert_eq!(first_kind("a_b2c"), identifier("a_b2c"));
    let tokens = tokenize("é1 ñ").unwrap();
    assert_eq!(tokens, vec![token(identifier("é1"), 0, 0), token(identifier("ñ"), 0, 3)]);
}

#[test]
fn read_identifier_like_reads_the_run() {
    assert_eq!(read_identifier_like("abc def"), ("abc", 3));
    assert_eq!(read_identifier_like("a1_b2("), ("a1_b2", 5));
    assert_eq!(read_identifier_like("1x"), ("1x", 2));
    assert_eq!(read_identifier_like("+x"), ("", 0));
    assert_eq!(read_identifier_like(""), ("", 0));
    assert_eq!(read_identifier_like("éa b"), ("éa", 2));
}

#[test]
fn unknown_character() {
    assert_eq!(tokenize("@"), Err(LexError::UnknownCharacter('@')));
    assert_eq!(tokenize("a @ b"), Err(LexError::UnknownCharacter('@')));
    assert_eq!(tokenize("a - b"), Err(LexError::UnknownCharacter('-')));
    assert_eq!(tokenize("/ 2"), Err(LexError::UnknownCharacter('/')));
    assert_eq!(tokenize("\"s\""), Err(LexError::UnknownCharacter('"')));
}

#[test]
fn symbols() {
    let tokens = tokenize("(){}|;:,.=+").unwrap();
    let kinds: Vec<TokenKind> = tokens.iter().map(|t| t.kind.clone()).collect();
    assert_eq!(
        kinds,
        vec![
            TokenKind::OpenParen,
            TokenKind::CloseParen,
            TokenKind::OpenBrace,
            TokenKind::CloseBrace,
            TokenKind::Bar,
            TokenKind::Semicolon,
            TokenKind::Colon,
            TokenKind::Comma,
            TokenKind::Dot,
            TokenKind::Equal,
            TokenKind::Plus,
        ]
    );
    for (i, t) in tokens.iter().enumerate() {
        assert_eq!((t.row, t.col), (0, i));
    }
    assert_eq!(symbol_of('+'), Some(TokenKind::Plus));
    assert_eq!(symbol_of('a'), None);
    assert_eq!(symbol_of('-'), None);
}

#[test]
fn leading_dot_is_a_symbol() {
    let tokens = tokenize(".5").unwrap();
    assert_eq!(tokens, vec![token(TokenKind::Dot, 0, 0), token(TokenKind::Integer(5), 0, 1)]);
}

#[test]
fn let_statement() {
    let tokens = tokenize("let x = 1_0 + y;\n").unwrap();
    assert_eq!(
        tokens,
        vec![
            token(TokenKind::Let, 0, 0),
            token(identifier("x"), 0, 4),
            token(TokenKind::Equal, 0, 6),
            token(TokenKind::Integer(10), 0, 8),
            token(TokenKind::Plus, 0, 12),
            token(identifier("y"), 0, 14),
            token(TokenKind::Semicolon, 0, 15),
        ]
    );
}

#[test]
fn tokenizer_starts_at_origin() {
    let tokenizer = Tokenizer::new("abc");
    assert_eq!((tokenizer.row, tokenizer.col, tokenizer.remaining_text), (0, 0, "abc"));
    let tokenizer = Tokenizer::from("abc");
    assert_eq!((tokenizer.row, tokenizer.col, tokenizer.remaining_text), (0, 0, "abc"));
}

#[test]
fn position_behind_whitespace() {
    assert_eq!(advance_position(2, 7, '\n'), (3, 0));
    assert_eq!(advance_position(2, 7, '\t'), (2, 11));
    assert_eq!(advance_position(2, 7, ' '), (2, 8));
    assert_eq!(advance_position(0, 0, '\r'), (0, 1));
}

#[test]
fn skip_moves_over_whitespace_and_comments() {
    let mut tokenizer = Tokenizer::new("  \n\t // c\n /* d */x y");
    tokenizer.skip();
    assert_eq!((tokenizer.row, tokenizer.col, tokenizer.remaining_text), (1, 6, "x y"));
    tokenizer.skip();
    assert_eq!((tokenizer.row, tokenizer.col, tokenizer.remaining_text), (1, 6, "x y"));
}

#[test]
fn advance_moves_along_the_line() {
    let mut tokenizer = Tokenizer::new("héllo world");
    tokenizer.advance(5);
    assert_eq!((tokenizer.row, tokenizer.col, tokenizer.remaining_text), (0, 5, " world"));
    tokenizer.advance(0);
    assert_eq!((tokenizer.row, tokenizer.col, tokenizer.remaining_text), (0, 5, " world"));
    tokenizer.advance(6);
    assert_eq!((tokenizer.row, tokenizer.col, tokenizer.remaining_text), (0, 11, ""));
}

#[test]
fn next_hands_out_tokens_then_none() {
    let mut tokenizer = Tokenizer::new(" a 1");
    assert_eq!(tokenizer.next(), Ok(Some(token(identifier("a"), 0, 1))));
    assert_eq!(tokenizer.remaining_text, " 1");
    assert_eq!(tokenizer.next(), Ok(Some(token(TokenKind::Integer(1), 0, 3))));
    assert_eq!(tokenizer.next(), Ok(None));
    assert_eq!(tokenizer.next(), Ok(None));
}

#[test]
fn next_stops_behind_the_blanks_on_error() {
    let mut tokenizer = Tokenizer::new("  #x");
    assert_eq!(tokenizer.next(), Err(LexError::UnknownCharacter('#')));
    assert_eq!((tokenizer.row, tokenizer.col, tokenizer.remaining_text), (0, 2, "#x"));
}

#[test]
fn token_new_takes_the_position() {
    let mut tokenizer = Tokenizer::new("\n  x");
    tokenizer.skip();
    assert_eq!(Token::new(TokenKind::Plus, &tokenizer), token(TokenKind::Plus, 1, 2));
}

#[test]
fn comment_lengths() {
    assert_eq!(line_comment_length("// a\nb"), 5);
    assert_eq!(line_comment_length("// a"), 4);
    assert_eq!(line_comment_length("\n"), 1);
    assert_eq!(line_comment_length(""), 0);
    assert_eq!(block_comment_length("/* a */ b"), 7);
    assert_eq!(block_comment_length("/* a * / b"), 10);
    assert_eq!(block_comment_length("/**/"), 4);
    assert_eq!(block_comment_length("/*/"), 3);
    assert_eq!(block_comment_length("*/"), 2);
    assert_eq!(block_comment_length("*"), 1);
    assert_eq!(block_comment_length(""), 0);
}

#[test]
fn character_classes() {
    assert!(check_digit('0') && check_digit('9') && !check_digit('a') && !check_digit('٣'));
    assert_eq!(digit_of('0'), 0);
    assert_eq!(digit_of('7'), 7);
    assert!(check_identifier_start('_') && check_identifier_start('x'));
    assert!(!check_identifier_start('1') && !check_identifier_start('٣'));
    assert!(check_identifier_part('1') && check_identifier_part('_') && !check_identifier_part('-'));
}

#[test]
fn text_by_characters() {
    assert_eq!(first_char("éa"), Some('é'));
    assert_eq!(first_char(""), None);
    assert!(starts_with_pair("//x", '/', '/'));
    assert!(!starts_with_pair("/x", '/', '/'));
    assert!(!starts_with_pair("/", '/', '/'));
    assert!(!starts_with_pair("x//", '/', '/'));
    assert_eq!(drop_chars("héllo", 2), "llo");
    assert_eq!(drop_chars("héllo", 5), "");
    assert_eq!(take_chars("héllo", 2), "hé");
    assert_eq!(take_chars("héllo", 0), "");
}
