use kingcobra::lexer::{is_letter, Lexer};
use kingcobra::token::Token;

#[test]
fn test_next_token() {
    let input = r#"let five = 5
let ten = 10

let add = fn(x, y):
    return x + y
done

let result = add(five, ten)

when 5 < 10:
    return true
otherwise:
    return false
done

10 == 10
10 != 9
"test string"
"#;

    let tests = vec![
        Token::Let,
        Token::Ident("five".to_string()),
        Token::Assign,
        Token::Int(5),
        Token::Let,
        Token::Ident("ten".to_string()),
        Token::Assign,
        Token::Int(10),
        Token::Let,
        Token::Ident("add".to_string()),
        Token::Assign,
        Token::Fn,
        Token::LParen,
        Token::Ident("x".to_string()),
        Token::Comma,
        Token::Ident("y".to_string()),
        Token::RParen,
        Token::Colon,
        Token::Return,
        Token::Ident("x".to_string()),
        Token::Plus,
        Token::Ident("y".to_string()),
        Token::Done,
        Token::Let,
        Token::Ident("result".to_string()),
        Token::Assign,
        Token::Ident("add".to_string()),
        Token::LParen,
        Token::Ident("five".to_string()),
        Token::Comma,
        Token::Ident("ten".to_string()),
        Token::RParen,
        Token::When,
        Token::Int(5),
        Token::Lt,
        Token::Int(10),
        Token::Colon,
        Token::Return,
        Token::True,
        Token::Otherwise,
        Token::Colon,
        Token::Return,
        Token::False,
        Token::Done,
        Token::Int(10),
        Token::Eq,
        Token::Int(10),
        Token::Int(10),
        Token::NotEq,
        Token::Int(9),
        Token::String("test string".to_string()),
        Token::Eof,
    ];

    let mut lexer = Lexer::new(input);

    for (i, expected_token) in tests.iter().enumerate() {
        let tok = lexer.next_token();
        assert_eq!(&tok, expected_token, "tests[{}] - token type wrong. expected={:?}, got={:?}", i, expected_token, tok);
    }
}

#[test]
fn test_illegal_characters() {
    // Testing that the lexer correctly identifies completely unknown characters
    let input = "@#$";
    let mut lexer = Lexer::new(input);

    assert_eq!(lexer.next_token(), Token::Illegal);
    assert_eq!(lexer.next_token(), Token::Illegal);
    assert_eq!(lexer.next_token(), Token::Illegal);
    assert_eq!(lexer.next_token(), Token::Eof);
}

#[test]
fn test_empty_input() {
    // Testing that the lexer correctly ignores pure whitespace and returns EOF
    let input = "    \n\t  ";
    let mut lexer = Lexer::new(input);
    assert_eq!(lexer.next_token(), Token::Eof);
}

#[test]
fn eof_stays_at_the_end() {
    let mut lexer = Lexer::new("x");
    assert_eq!(lexer.next_token(), Token::Ident("x".to_string()));
    assert_eq!(lexer.next_token(), Token::Eof);
    assert_eq!(lexer.next_token(), Token::Eof);
    assert_eq!(lexer.next_token(), Token::Eof);
}

#[test]
fn keywords_and_operators() {
    let mut lexer = Lexer::new("loop while import class new - * / > . [ ] { } ! _a1");
    let expected = vec![
        Token::Loop,
        Token::While,
        Token::Import,
        Token::Class,
        Token::New,
        Token::Minus,
        Token::Asterisk,
        Token::Slash,
        Token::Gt,
        Token::Dot,
        Token::LBracket,
        Token::RBracket,
        Token::LBrace,
        Token::RBrace,
        Token::Illegal,
        // digits do not continue an identifier
        Token::Ident("_a".to_string()),
        Token::Int(1),
        Token::Eof,
    ];
    for t in expected {
        assert_eq!(lexer.next_token(), t);
    }
}

#[test]
fn unterminated_string_runs_to_the_end() {
    let mut lexer = Lexer::new("\"abc");
    assert_eq!(lexer.next_token(), Token::String("abc".to_string()));
    assert_eq!(lexer.next_token(), Token::Eof);
}

#[test]
fn number_too_large_reads_as_zero() {
    let mut lexer = Lexer::new("99999999999999999999 12");
    assert_eq!(lexer.next_token(), Token::Int(0));
    assert_eq!(lexer.next_token(), Token::Int(12));
}

#[test]
fn line_and_column_follow_the_input() {
    let mut lexer = Lexer::new("a\nbc");
    assert_eq!(lexer.next_token(), Token::Ident("a".to_string()));
    assert_eq!(lexer.next_token(), Token::Ident("bc".to_string()));
    assert_eq!(lexer.line, 2);
}

#[test]
fn unicode_letters_make_identifiers() {
    let mut lexer = Lexer::new("café ñ");
    assert_eq!(lexer.next_token(), Token::Ident("café".to_string()));
    assert_eq!(lexer.next_token(), Token::Ident("ñ".to_string()));
    assert_eq!(lexer.next_token(), Token::Eof);
}

#[test]
fn eof_within_length_plus_one_calls() {
    let input = "a+b";
    let mut lexer = Lexer::new(input);
    let mut seen_eof = false;
    for _ in 0..(input.chars().count() + 1) {
        if lexer.next_token() == Token::Eof {
            seen_eof = true;
        }
    }
    assert!(seen_eof);
}

#[test]
fn ascii_letters_are_identifier_characters() {
    assert!(is_letter('a'));
    assert!(is_letter('Z'));
    assert!(is_letter('_'));
    assert!(!is_letter('1'));
    assert!(!is_letter(' '));
    assert!(is_letter('é'));
}
