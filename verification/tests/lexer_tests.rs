use script_lexer::lexer::Lexer;
use script_lexer::token::{TokenType, TokenValue};

fn scan(input: &str) -> Vec<(TokenType, TokenValue)> {
    Lexer::new(input)
        .lex()
        .expect("the text holds no malformed numeral")
        .into_iter()
        .map(|token| (token.token_type, token.value))
        .collect()
}

fn plain(kind: TokenType) -> (TokenType, TokenValue) {
    (kind, TokenValue::Empty)
}

fn symbol(text: &str) -> (TokenType, TokenValue) {
    (TokenType::Symbol, TokenValue::String(String::from(text)))
}

fn comment(text: &str) -> (TokenType, TokenValue) {
    (TokenType::Comment, TokenValue::String(String::from(text)))
}

fn integer(value: i32) -> (TokenType, TokenValue) {
    (TokenType::Integer, TokenValue::Integer(value))
}

fn float(text: &str) -> (TokenType, TokenValue) {
    (TokenType::Float, TokenValue::Float(String::from(text)))
}

#[test]
fn lex_comment_line() {
    assert_eq!(scan("// comment"), vec![comment("comment")]);
}

#[test]
fn lex_comment_block() {
    assert_eq!(scan("/* comment */"), vec![comment("comment")]);
}

#[test]
fn lex_comment_block_multi() {
    assert_eq!(
        scan(
            "/*
comment on
multiple lines
*/"
        ),
        vec![comment("comment on\nmultiple lines")],
    );
}

#[test]
fn lex_cell_declaration() {
    assert_eq!(
        scan("new x = 5;"),
        vec![
            plain(TokenType::New),
            symbol("x"),
            plain(TokenType::Assign),
            integer(5),
            plain(TokenType::Semicolon),
        ],
    );
}

#[test]
fn lex_float_decl() {
    let tokens = scan("new Float:x = 5.5;");
    assert_eq!(
        tokens,
        vec![
            plain(TokenType::New),
            symbol("Float"),
            plain(TokenType::Colon),
            symbol("x"),
            plain(TokenType::Assign),
            float("5.5"),
            plain(TokenType::Semicolon),
        ],
        "float declaration"
    );
    match &tokens[5].1 {
        TokenValue::Float(text) => assert_eq!(text.parse::<f32>(), Ok(5.5)),
        other => panic!("expected a float, found {:?}", other),
    }
}

#[test]
fn lex_array_decl_autosize() {
    assert_eq!(
        scan("new x[] = {1, 2, 3};"),
        vec![
            plain(TokenType::New),
            symbol("x"),
            plain(TokenType::LeftSquare),
            plain(TokenType::RightSquare),
            plain(TokenType::Assign),
            plain(TokenType::LeftBrace),
            integer(1),
            plain(TokenType::Comma),
            integer(2),
            plain(TokenType::Comma),
            integer(3),
            plain(TokenType::RightBrace),
            plain(TokenType::Semicolon),
        ]
    );
}

#[test]
fn lex_array_decl() {
    assert_eq!(
        scan("new x[4] = {1, 2, 3};"),
        vec![
            plain(TokenType::New),
            symbol("x"),
            plain(TokenType::LeftSquare),
            integer(4),
            plain(TokenType::RightSquare),
            plain(TokenType::Assign),
            plain(TokenType::LeftBrace),
            integer(1),
            plain(TokenType::Comma),
            integer(2),
            plain(TokenType::Comma),
            integer(3),
            plain(TokenType::RightBrace),
            plain(TokenType::Semicolon),
        ],
        "array declaration specific size"
    );
}

#[test]
fn lex_basic_script() {
    assert_eq!(
        scan(
            "
// Comment
#include <a_samp>

main() {
    new a;
    if(a == 3) {
        a++;
    } else if(a != 3) {
        a--;
    } else {
        a = 0;
    }
}
"
        ),
        vec![
            comment("Comment"),
            plain(TokenType::Directive),
            symbol("include"),
            plain(TokenType::LowerThan),
            symbol("a_samp"),
            plain(TokenType::GreaterThan),
            symbol("main"),
            plain(TokenType::LeftBracket),
            plain(TokenType::RightBracket),
            plain(TokenType::LeftBrace),
            plain(TokenType::New),
            symbol("a"),
            plain(TokenType::Semicolon),
            plain(TokenType::If),
            plain(TokenType::LeftBracket),
            symbol("a"),
            plain(TokenType::Equal),
            integer(3),
            plain(TokenType::RightBracket),
            plain(TokenType::LeftBrace),
            symbol("a"),
            plain(TokenType::PlusPlus),
            plain(TokenType::Semicolon),
            plain(TokenType::RightBrace),
            plain(TokenType::Else),
            plain(TokenType::If),
            plain(TokenType::LeftBracket),
            symbol("a"),
            plain(TokenType::NotEqual),
            integer(3),
            plain(TokenType::RightBracket),
            plain(TokenType::LeftBrace),
            symbol("a"),
            plain(TokenType::MinusMinus),
            plain(TokenType::Semicolon),
            plain(TokenType::RightBrace),
            plain(TokenType::Else),
            plain(TokenType::LeftBrace),
            symbol("a"),
            plain(TokenType::Assign),
            integer(0),
            plain(TokenType::Semicolon),
            plain(TokenType::RightBrace),
            plain(TokenType::RightBrace),
        ]
    );
}
