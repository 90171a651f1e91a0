use ylc::errors::ErrorKind;
use ylc::lexer::{is_lexable, Keyword, Lexer, Token, TokenKind};

fn all_tokens(input: &str) -> Vec<Token> {
    let mut lexer = Lexer::new(input);
    let mut tokens = Vec::new();
    loop {
        let token = lexer.next_token().expect("a token");
        let done = token.kind == TokenKind::EOF;
        tokens.push(token);
        if done {
            return tokens;
        }
    }
}

fn kinds(input: &str) -> Vec<TokenKind> {
    all_tokens(input).into_iter().map(|token| token.kind).collect()
}

#[test]
fn words_numbers_and_the_end() {
    assert_eq!(
        kinds("the function numbered 12 is main_1"),
        vec![
            TokenKind::Keyword(Keyword::The),
            TokenKind::Keyword(Keyword::Fn),
            TokenKind::Keyword(Keyword::Numbered),
            TokenKind::Number(12),
            TokenKind::Keyword(Keyword::Is),
            TokenKind::Identifier("main_1".to_string()),
            TokenKind::EOF,
        ]
    );
}

#[test]
fn punctuation_is_spelled_as_words() {
    assert_eq!(
        kinds("left_brace right_brace left_parenthesis right_parenthesis left_bracket right_bracket plus minus times div mod semicolon comma"),
        vec![
            TokenKind::LBrace,
            TokenKind::RBrace,
            TokenKind::LParen,
            TokenKind::RParen,
            TokenKind::LBracket,
            TokenKind::RBracket,
            TokenKind::Plus,
            TokenKind::Minus,
            TokenKind::Mul,
            TokenKind::Div,
            TokenKind::Mod,
            TokenKind::Semicolon,
            TokenKind::Comma,
            TokenKind::EOF,
        ]
    );
}

#[test]
fn every_keyword_is_recognised() {
    let spelled = [
        ("function", Keyword::Fn),
        ("is", Keyword::Is),
        ("numbered", Keyword::Numbered),
        ("shall", Keyword::Shall),
        ("be", Keyword::Be),
        ("equal", Keyword::Equal),
        ("to", Keyword::To),
        ("integer_meaning_whole_in_latin_with_exactly_thirty_two_bits", Keyword::I32),
        ("return", Keyword::Return),
        ("in", Keyword::In),
        ("the", Keyword::The),
        ("case", Keyword::Case),
        ("that", Keyword::That),
        ("do", Keyword::Do),
        ("or", Keyword::Or),
        ("i", Keyword::I),
        ("am", Keyword::Am),
        ("declaring", Keyword::Declaring),
        ("a", Keyword::A),
        ("variable", Keyword::Variable),
        ("named", Keyword::Named),
        ("now", Keyword::Now),
        ("period", Keyword::Period),
        ("during", Keyword::During),
        ("not", Keyword::Not),
        ("zero", Keyword::Zero),
        ("invoke", Keyword::Invoke),
        ("and", Keyword::And),
        ("it", Keyword::It),
        ("take", Keyword::Take),
        ("parameters", Keyword::Parameters),
        ("pointing", Keyword::Pointing),
        ("at", Keyword::At),
        ("get", Keyword::Get),
        ("address", Keyword::Address),
        ("of", Keyword::Of),
        ("what", Keyword::What),
        ("array_start", Keyword::ArrayStart),
        ("array_end", Keyword::ArrayEnd),
    ];
    for (word, keyword) in spelled {
        assert_eq!(kinds(word), vec![TokenKind::Keyword(keyword), TokenKind::EOF], "{word}");
    }
}

#[test]
fn a_word_that_is_not_reserved_is_an_identifier() {
    assert_eq!(
        kinds("functions The _x x9 zero_"),
        vec![
            TokenKind::Identifier("functions".to_string()),
            TokenKind::Identifier("The".to_string()),
            TokenKind::Identifier("_x".to_string()),
            TokenKind::Identifier("x9".to_string()),
            TokenKind::Identifier("zero_".to_string()),
            TokenKind::EOF,
        ]
    );
}

#[test]
fn a_number_ends_where_its_digits_end() {
    assert_eq!(
        kinds("123abc 007 0"),
        vec![
            TokenKind::Number(123),
            TokenKind::Identifier("abc".to_string()),
            TokenKind::Number(7),
            TokenKind::Number(0),
            TokenKind::EOF,
        ]
    );
    assert_eq!(
        kinds("18446744073709551615"),
        vec![TokenKind::Number(u64::MAX), TokenKind::EOF]
    );
}

#[test]
fn lines_are_counted_from_one() {
    let tokens = all_tokens("the\nfunction\n\n  numbered\r\n7");
    let lines: Vec<usize> = tokens.iter().map(|token| token.line).collect();
    assert_eq!(lines, vec![1, 2, 4, 5, 5]);
}

#[test]
fn the_end_is_read_again_and_again() {
    let mut lexer = Lexer::new("a  \n ");
    assert_eq!(lexer.next_token().unwrap().kind, TokenKind::Keyword(Keyword::A));
    let first = lexer.next_token().unwrap();
    let second = lexer.next_token().unwrap();
    assert_eq!(first.kind, TokenKind::EOF);
    assert_eq!(second.kind, TokenKind::EOF);
    assert_eq!(first.line, 2);
    assert_eq!(second.line, 2);
}

#[test]
fn the_empty_text_is_at_its_end() {
    let mut lexer = Lexer::new("");
    let token = lexer.next_token().unwrap();
    assert_eq!(token.kind, TokenKind::EOF);
    assert_eq!(token.line, 1);
}

#[test]
fn a_null_character_ends_the_input() {
    assert_eq!(kinds("the\0function"), vec![TokenKind::Keyword(Keyword::The), TokenKind::EOF]);
}

#[test]
fn peek_does_not_pass_the_token() {
    let mut lexer = Lexer::new("shall be");
    assert_eq!(lexer.peek_token().unwrap().kind, TokenKind::Keyword(Keyword::Shall));
    assert_eq!(lexer.peek_token().unwrap().kind, TokenKind::Keyword(Keyword::Shall));
    assert_eq!(lexer.next_token().unwrap().kind, TokenKind::Keyword(Keyword::Shall));
    assert_eq!(lexer.peek_token().unwrap().kind, TokenKind::Keyword(Keyword::Be));
    assert_eq!(lexer.next_token().unwrap().kind, TokenKind::Keyword(Keyword::Be));
    assert_eq!(lexer.peek_token().unwrap().kind, TokenKind::EOF);
}

#[test]
fn a_character_of_no_word_is_an_error_on_its_line() {
    let mut lexer = Lexer::new("the\n  @ function");
    assert_eq!(lexer.next_token().unwrap().kind, TokenKind::Keyword(Keyword::The));
    let e = lexer.next_token().unwrap_err();
    assert_eq!(e.kind, ErrorKind::UnexpectedChar('@'));
    assert_eq!(e.line, 2);
    let again = lexer.next_token().unwrap_err();
    assert_eq!(again.kind, ErrorKind::UnexpectedChar('@'));
    let mut other = Lexer::new("a+b");
    assert_eq!(other.next_token().unwrap().kind, TokenKind::Keyword(Keyword::A));
    assert_eq!(other.next_token().unwrap_err().kind, ErrorKind::UnexpectedChar('+'));
}

#[test]
fn letters_and_white_space_beyond_ascii() {
    assert_eq!(
        kinds("h\u{e9}llo\u{a0}w\u{f6}rld"),
        vec![
            TokenKind::Identifier("h\u{e9}llo".to_string()),
            TokenKind::Identifier("w\u{f6}rld".to_string()),
            TokenKind::EOF,
        ]
    );
    let mut lexer = Lexer::new("\u{1f494}");
    assert_eq!(lexer.next_token().unwrap_err().kind, ErrorKind::UnexpectedChar('\u{1f494}'));
}

#[test]
fn tokenizing_twice_gives_the_same_tokens() {
    let input = "the function numbered 1 is\n main left_bracket 42 right_bracket";
    let first: Vec<(TokenKind, usize)> =
        all_tokens(input).into_iter().map(|t| (t.kind, t.line)).collect();
    let second: Vec<(TokenKind, usize)> =
        all_tokens(input).into_iter().map(|t| (t.kind, t.line)).collect();
    assert_eq!(first, second);
    assert_eq!(first.len(), 10);
}

#[test]
fn tokens_are_shown_as_they_are_written() {
    assert_eq!(TokenKind::Number(120).to_string(), "120");
    assert_eq!(TokenKind::Number(0).to_string(), "0");
    assert_eq!(TokenKind::Number(u64::MAX).to_string(), "18446744073709551615");
    assert_eq!(TokenKind::Identifier("some_name".to_string()).to_string(), "some_name");
    assert_eq!(TokenKind::Keyword(Keyword::Fn).to_string(), "function");
    assert_eq!(TokenKind::LParen.to_string(), "left_parenthesis");
    assert_eq!(TokenKind::Mul.to_string(), "times");
    assert_eq!(TokenKind::EOF.to_string(), "EOF");
    assert_eq!(
        Keyword::I32.to_string(),
        "integer meaning whole in latin with exactly thirty two bits"
    );
    assert_eq!(Keyword::ArrayStart.to_string(), "array_start");
    assert_eq!(Keyword::Period.to_string(), "period");
}

#[test]
fn kinds_are_compared_by_what_they_hold() {
    assert!(TokenKind::Number(3).same(&TokenKind::Number(3)));
    assert!(!TokenKind::Number(3).same(&TokenKind::Number(4)));
    assert!(TokenKind::Identifier("ab".to_string()).same(&TokenKind::Identifier("ab".to_string())));
    assert!(!TokenKind::Identifier("ab".to_string()).same(&TokenKind::Identifier("ba".to_string())));
    assert!(!TokenKind::Keyword(Keyword::Is).same(&TokenKind::Keyword(Keyword::It)));
    assert!(TokenKind::EOF.same(&TokenKind::EOF));
    assert!(!TokenKind::Plus.same(&TokenKind::Minus));
}

#[test]
fn numbers_must_fit_in_64_bits() {
    assert!(is_lexable("18446744073709551615"));
    assert!(!is_lexable("18446744073709551616"));
    assert!(!is_lexable("return 99999999999999999999 period"));
    assert!(is_lexable("return 00000000000000000000000001 period"));
    assert!(is_lexable("name_99999999999999999999"));
    assert!(!is_lexable("name_ 99999999999999999999"));
    assert!(!is_lexable("12 99999999999999999999 13"));
    assert!(is_lexable("12 @ 99999999999999999999"));
    assert!(is_lexable("12 \0 99999999999999999999"));
    assert!(!is_lexable("\n\t 18446744073709551616"));
    assert!(is_lexable(""));
    assert!(is_lexable("no digits at all"));
    assert!(is_lexable("12 34\n56"));
}

#[test]
fn tokens_before_a_number_that_is_too_large_are_read() {
    let mut lexer = Lexer::new("the function 99999999999999999999");
    assert_eq!(lexer.next_token().unwrap().kind, TokenKind::Keyword(Keyword::The));
    assert_eq!(lexer.next_token().unwrap().kind, TokenKind::Keyword(Keyword::Fn));
}
