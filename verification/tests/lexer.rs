//! The lexer on its own: classification, spans, and its refusal to fail.

use loxer::scanner::{scan_all, without_comments, Scanner, Token};

fn kinds(source: &str) -> Vec<Token> {
    scan_all(source.as_bytes()).into_iter().map(|t| t.value).collect()
}

#[test]
fn punctuation_tokens() {
    assert_eq!(
        kinds("(){},.-+;/*"),
        vec![
            Token::LeftParen,
            Token::RightParen,
            Token::LeftBrace,
            Token::RightBrace,
            Token::Comma,
            Token::Dot,
            Token::Minus,
            Token::Plus,
            Token::Semicolon,
            Token::Slash,
            Token::Star,
        ]
    );
}

#[test]
fn one_and_two_character_operators() {
    assert_eq!(
        kinds("!= ! == = <= < >= >"),
        vec![
            Token::BangEqual,
            Token::Bang,
            Token::EqualEqual,
            Token::Equal,
            Token::LessEqual,
            Token::Less,
            Token::GreaterEqual,
            Token::Greater,
        ]
    );
}

#[test]
fn keywords_and_identifiers() {
    assert_eq!(
        kinds("and class else false for fun if nil or print return super this true var while"),
        vec![
            Token::And,
            Token::Class,
            Token::Else,
            Token::False,
            Token::For,
            Token::Fun,
            Token::If,
            Token::Nil,
            Token::Or,
            Token::Print,
            Token::Return,
            Token::Super,
            Token::This,
            Token::True,
            Token::Var,
            Token::While,
        ]
    );
    assert_eq!(
        kinds("andx _tmp whiles x1"),
        vec![Token::Identifier, Token::Identifier, Token::Identifier, Token::Identifier]
    );
}

#[test]
fn comment_runs_to_end_of_line() {
    let tokens = scan_all(b"1 // two three\n2");
    let kinds: Vec<Token> = tokens.iter().map(|t| t.value).collect();
    assert_eq!(kinds, vec![Token::Number, Token::Comment, Token::Number]);
    assert_eq!(tokens[1].span.start, 2);
    assert_eq!(tokens[1].span.end, 14);
}

#[test]
fn comment_filter_drops_only_comments() {
    let tokens = without_comments(scan_all(b"1 // x\n+ 2"));
    let kinds: Vec<Token> = tokens.iter().map(|t| t.value).collect();
    assert_eq!(kinds, vec![Token::Number, Token::Plus, Token::Number]);
}

#[test]
fn single_slash_is_division() {
    assert_eq!(kinds("1/2"), vec![Token::Number, Token::Slash, Token::Number]);
}

#[test]
fn number_token_swallows_digits_and_dots() {
    let tokens = scan_all(b"12.5 1.2.3 7.");
    let kinds: Vec<Token> = tokens.iter().map(|t| t.value).collect();
    assert_eq!(kinds, vec![Token::Number, Token::Number, Token::Number]);
    assert_eq!((tokens[0].span.start, tokens[0].span.end), (0, 4));
    assert_eq!((tokens[1].span.start, tokens[1].span.end), (5, 10));
    assert_eq!((tokens[2].span.start, tokens[2].span.end), (11, 13));
}

#[test]
fn string_token_includes_both_quotes() {
    let tokens = scan_all(b"\"ab\"");
    assert_eq!(tokens.len(), 1);
    assert_eq!(tokens[0].value, Token::String);
    assert_eq!((tokens[0].span.start, tokens[0].span.end), (0, 4));
}

#[test]
fn unterminated_string_still_yields_a_string_token() {
    let tokens = scan_all(b"\"abc");
    assert_eq!(tokens.len(), 1);
    assert_eq!(tokens[0].value, Token::String);
    assert_eq!((tokens[0].span.start, tokens[0].span.end), (0, 4));
}

#[test]
fn string_token_may_span_lines() {
    let tokens = scan_all(b"\"a\nb\"");
    assert_eq!(tokens.len(), 1);
    assert_eq!(tokens[0].value, Token::String);
    assert_eq!((tokens[0].span.start, tokens[0].span.end), (0, 5));
}

#[test]
fn unknown_bytes_do_not_stop_the_scan() {
    assert_eq!(
        kinds("@ 1 # 2"),
        vec![Token::Unknown, Token::Number, Token::Unknown, Token::Number]
    );
}

#[test]
fn multi_byte_character_is_one_unknown_token() {
    let tokens = scan_all("é1".as_bytes());
    assert_eq!(tokens.len(), 2);
    assert_eq!(tokens[0].value, Token::Unknown);
    assert_eq!((tokens[0].span.start, tokens[0].span.end), (0, 2));
    assert_eq!(tokens[1].value, Token::Number);
}

#[test]
fn whitespace_only_input_yields_no_tokens() {
    assert_eq!(kinds("  \t\r\n "), Vec::new());
    assert_eq!(kinds(""), Vec::new());
}

#[test]
fn scanner_is_a_forward_only_cursor() {
    let source = b"1 + 2";
    let mut scanner = Scanner::new(source);
    let first = scanner.next().unwrap();
    assert_eq!(first.value, Token::Number);
    assert_eq!((first.span.start, first.span.end), (0, 1));
    let second = scanner.next().unwrap();
    assert_eq!(second.value, Token::Plus);
    let third = scanner.next().unwrap();
    assert_eq!(third.value, Token::Number);
    assert_eq!((third.span.start, third.span.end), (4, 5));
    assert!(scanner.next().is_none());
    assert!(scanner.next().is_none());
}
