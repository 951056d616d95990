use c4_rust::lexer::Lexer;
use c4_rust::token::TokenKind;

fn tokenize_kinds(input: &str) -> Vec<TokenKind> {
    let mut lexer = Lexer::new(input);
    let mut kinds = Vec::new();
    loop {
        let tok = lexer.next_token().expect("lexing failed");
        kinds.push(tok.kind.clone());
        if matches!(kinds.last().unwrap(), TokenKind::Eof) {
            break;
        }
    }
    kinds
}

#[test]
fn test_operators() {
    let input = "== != <= >= && || ++ -- = + - * / %";
    let expected = vec![
        TokenKind::Eq,
        TokenKind::Ne,
        TokenKind::Le,
        TokenKind::Ge,
        TokenKind::Lan,
        TokenKind::Lor,
        TokenKind::Inc,
        TokenKind::Dec,
        TokenKind::Assign,
        TokenKind::Add,
        TokenKind::Sub,
        TokenKind::Mul,
        TokenKind::Div,
        TokenKind::Mod,
        TokenKind::Eof,
    ];
    assert_eq!(tokenize_kinds(input), expected);
}

#[test]
fn test_string_literal() {
    let input = r#" "hello\nworld" "#;
    let expected = vec![
        TokenKind::Str("hello\nworld".to_string()),
        TokenKind::Eof,
    ];
    assert_eq!(tokenize_kinds(input), expected);
}

#[test]
fn test_char_literal() {
    let input = r#" 'a' '\n' "#;
    let expected = vec![
        TokenKind::CharLiteral('a'),
        TokenKind::CharLiteral('\n'),
        TokenKind::Eof,
    ];
    assert_eq!(tokenize_kinds(input), expected);
}

#[test]
fn test_skips_comments() {
    let input = r#"
        int main() { // this is a comment
            return 42; // another comment
        }
    "#;

    let expected = vec![
        TokenKind::Int,
        TokenKind::Id("main".to_string()),
        TokenKind::LParen,
        TokenKind::RParen,
        TokenKind::LBrace,
        TokenKind::Return,
        TokenKind::Num(42),
        TokenKind::Semicolon,
        TokenKind::RBrace,
        TokenKind::Eof,
    ];

    assert_eq!(tokenize_kinds(input), expected);
}

#[test]
fn test_line_numbers_advance() {
    let mut lexer = Lexer::new("1\n2\n\n3");
    let t1 = lexer.next_token().unwrap();
    let t2 = lexer.next_token().unwrap();
    let t3 = lexer.next_token().unwrap();
    assert_eq!(t1.line, 1);
    assert_eq!(t2.line, 2);
    assert_eq!(t3.line, 4);
}

#[test]
fn test_float_literal_carries_text() {
    let kinds = tokenize_kinds("3.14");
    assert_eq!(
        kinds,
        vec![TokenKind::Float("3.14".to_string()), TokenKind::Eof]
    );
}

#[test]
fn test_int_literal_too_large_is_lex_error() {
    let mut lexer = Lexer::new("99999999999999999999999999");
    assert!(lexer.next_token().is_err());
}

#[test]
fn test_unknown_characters_are_skipped() {
    let kinds = tokenize_kinds("@ 7 #");
    assert_eq!(kinds, vec![TokenKind::Num(7), TokenKind::Eof]);
}
