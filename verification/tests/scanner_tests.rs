use script_lexer::lexer::Lexer;
use script_lexer::token::{LexError, Token, TokenType, TokenValue};

fn scan(input: &str) -> Vec<(TokenType, TokenValue)> {
    Lexer::new(input)
        .lex()
        .expect("the text holds no malformed numeral")
        .into_iter()
        .map(|token| (token.token_type, token.value))
        .collect()
}

fn kinds(input: &str) -> Vec<TokenType> {
    scan(input).into_iter().map(|(kind, _)| kind).collect()
}

fn plain(kind: TokenType) -> (TokenType, TokenValue) {
    (kind, TokenValue::Empty)
}

fn symbol(text: &str) -> (TokenType, TokenValue) {
    (TokenType::Symbol, TokenValue::String(String::from(text)))
}

fn comment(text: &str) -> (TokenType, TokenValue) {
    (TokenType::Comment, TokenValue::String(String::from(text)))
}

fn integer(value: i32) -> (TokenType, TokenValue) {
    (TokenType::Integer, TokenValue::Integer(value))
}

fn float(text: &str) -> (TokenType, TokenValue) {
    (TokenType::Float, TokenValue::Float(String::from(text)))
}

fn token(kind: TokenType, value: TokenValue, line: i32, column: i32, range: i32) -> Token {
    Token { token_type: kind, value, line, column, range }
}

fn marks() -> Vec<TokenType> {
    vec![
        TokenType::Equal,
        TokenType::Assign,
        TokenType::Plus,
        TokenType::PlusPlus,
        TokenType::PlusAssign,
        TokenType::Minus,
        TokenType::MinusMinus,
        TokenType::MinusAssign,
        TokenType::Asterisk,
        TokenType::AsteriskAssign,
        TokenType::Slash,
        TokenType::SlashAssign,
        TokenType::Percent,
        TokenType::PercentAssign,
        TokenType::And,
        TokenType::BitAnd,
        TokenType::BitAndAssign,
        TokenType::Or,
        TokenType::BitOr,
        TokenType::BitOrAssign,
        TokenType::BitXor,
        TokenType::BitXorAssign,
        TokenType::LowerThan,
        TokenType::LowerThanEqual,
        TokenType::BitLeft,
        TokenType::BitLeftAssign,
        TokenType::GreaterThan,
        TokenType::GreaterThanEqual,
        TokenType::BitRight,
        TokenType::BitRightAssign,
        TokenType::NotEqual,
        TokenType::Bang,
        TokenType::Colon,
        TokenType::Semicolon,
        TokenType::Comma,
        TokenType::LeftBrace,
        TokenType::RightBrace,
        TokenType::LeftBracket,
        TokenType::RightBracket,
        TokenType::LeftSquare,
        TokenType::RightSquare,
        TokenType::Elipsis,
        TokenType::Range,
        TokenType::Directive,
    ]
}

fn reserved() -> Vec<TokenType> {
    vec![
        TokenType::Const,
        TokenType::New,
        TokenType::Static,
        TokenType::Stock,
        TokenType::Forward,
        TokenType::Public,
        TokenType::Native,
        TokenType::Operator,
        TokenType::Char,
        TokenType::Enum,
        TokenType::State,
        TokenType::If,
        TokenType::Else,
        TokenType::Switch,
        TokenType::Case,
        TokenType::Default,
        TokenType::For,
        TokenType::While,
        TokenType::Do,
        TokenType::Break,
        TokenType::Continue,
        TokenType::Goto,
        TokenType::Return,
        TokenType::Sizeof,
        TokenType::Tagof,
        TokenType::Emit,
    ]
}

#[test]
fn empty_text_has_no_tokens() {
    assert_eq!(scan(""), vec![]);
    assert_eq!(scan("  \t\r\n  "), vec![]);
}

#[test]
fn shift_assign_is_one_token() {
    assert_eq!(scan("<<="), vec![plain(TokenType::BitLeftAssign)]);
    assert_eq!(scan(">>="), vec![plain(TokenType::BitRightAssign)]);
}

#[test]
fn the_longest_mark_wins() {
    assert_eq!(kinds("<< ="), vec![TokenType::BitLeft, TokenType::Assign]);
    assert_eq!(kinds("< <="), vec![TokenType::LowerThan, TokenType::LowerThanEqual]);
    assert_eq!(kinds("< < ="), vec![TokenType::LowerThan, TokenType::LowerThan, TokenType::Assign]);
    assert_eq!(kinds("<<<"), vec![TokenType::BitLeft, TokenType::LowerThan]);
    assert_eq!(kinds("<<=="), vec![TokenType::BitLeftAssign, TokenType::Assign]);
    assert_eq!(kinds("<=="), vec![TokenType::LowerThanEqual, TokenType::Assign]);
    assert_eq!(kinds("==="), vec![TokenType::Equal, TokenType::Assign]);
    assert_eq!(kinds("+++"), vec![TokenType::PlusPlus, TokenType::Plus]);
    assert_eq!(kinds("+=+"), vec![TokenType::PlusAssign, TokenType::Plus]);
    assert_eq!(kinds("---"), vec![TokenType::MinusMinus, TokenType::Minus]);
    assert_eq!(kinds("&&&"), vec![TokenType::And, TokenType::BitAnd]);
    assert_eq!(kinds("&&="), vec![TokenType::And, TokenType::Assign]);
    assert_eq!(kinds("|||"), vec![TokenType::Or, TokenType::BitOr]);
    assert_eq!(kinds(">>>="), vec![TokenType::BitRight, TokenType::GreaterThanEqual]);
    assert_eq!(kinds("!=="), vec![TokenType::NotEqual, TokenType::Assign]);
    assert_eq!(kinds("!!"), vec![TokenType::Bang, TokenType::Bang]);
    assert_eq!(kinds("*=*"), vec![TokenType::AsteriskAssign, TokenType::Asterisk]);
    assert_eq!(kinds("%=%"), vec![TokenType::PercentAssign, TokenType::Percent]);
    assert_eq!(kinds("^=^"), vec![TokenType::BitXorAssign, TokenType::BitXor]);
    assert_eq!(kinds("/=/"), vec![TokenType::SlashAssign, TokenType::Slash]);
}

#[test]
fn every_mark_scans_as_itself() {
    for kind in marks() {
        assert_eq!(scan(&kind.to_string()), vec![plain(kind)], "{:?}", kind);
    }
}

#[test]
fn every_mark_scans_as_itself_before_other_text() {
    for kind in marks() {
        let text = format!("{} x", kind.to_string());
        assert_eq!(scan(&text), vec![plain(kind), symbol("x")], "{:?}", kind);
        let text = format!("{}x", kind.to_string());
        assert_eq!(scan(&text), vec![plain(kind), symbol("x")], "{:?}", kind);
        let text = format!("{}5", kind.to_string());
        assert_eq!(scan(&text), vec![plain(kind), integer(5)], "{:?}", kind);
    }
}

#[test]
fn every_keyword_scans_as_itself() {
    for kind in reserved() {
        assert_eq!(scan(&kind.to_string()), vec![plain(kind)], "{:?}", kind);
    }
}

#[test]
fn a_keyword_carries_nothing() {
    let tokens = Lexer::new("  if").lex().unwrap();
    assert_eq!(tokens, vec![token(TokenType::If, TokenValue::Empty, 1, 3, 0)]);
}

#[test]
fn a_keyword_inside_an_identifier_is_no_keyword() {
    assert_eq!(scan("iff"), vec![symbol("iff")]);
    assert_eq!(scan("_if"), vec![symbol("_if")]);
    assert_eq!(scan("If"), vec![symbol("If")]);
    assert_eq!(scan("if_"), vec![symbol("if_")]);
    assert_eq!(scan("newnew"), vec![symbol("newnew")]);
    assert_eq!(scan("new new"), vec![plain(TokenType::New), plain(TokenType::New)]);
    assert_eq!(scan("_emit"), vec![symbol("_emit")]);
    assert_eq!(scan("__emit"), vec![plain(TokenType::Emit)]);
}

#[test]
fn dots_are_ranges_and_ellipses() {
    assert_eq!(scan("."), vec![plain(TokenType::Illegal)]);
    assert_eq!(scan(".."), vec![plain(TokenType::Range)]);
    assert_eq!(scan("..."), vec![plain(TokenType::Elipsis)]);
    assert_eq!(scan("...."), vec![plain(TokenType::Elipsis), plain(TokenType::Illegal)]);
    assert_eq!(scan("....."), vec![plain(TokenType::Elipsis), plain(TokenType::Range)]);
    assert_eq!(scan(". ."), vec![plain(TokenType::Illegal), plain(TokenType::Illegal)]);
    assert_eq!(scan(".. ."), vec![plain(TokenType::Range), plain(TokenType::Illegal)]);
    assert_eq!(scan("..x"), vec![plain(TokenType::Range), symbol("x")]);
    assert_eq!(scan(".x"), vec![plain(TokenType::Illegal), symbol("x")]);
    assert_eq!(scan("a..b"), vec![symbol("a"), plain(TokenType::Range), symbol("b")]);
}

#[test]
fn unknown_characters_are_illegal() {
    for text in ["@", "$", "\"", "'", "\\", "`", "~", "?", "\u{1f600}", "\u{0}"] {
        assert_eq!(scan(text), vec![plain(TokenType::Illegal)], "{:?}", text);
    }
    assert_eq!(
        scan("a @ b"),
        vec![symbol("a"), plain(TokenType::Illegal), symbol("b")]
    );
    assert_eq!(
        scan("\"hi\""),
        vec![plain(TokenType::Illegal), symbol("hi"), plain(TokenType::Illegal)]
    );
}

#[test]
fn an_illegal_character_is_consumed_alone() {
    let tokens = Lexer::new("@@x").lex().unwrap();
    assert_eq!(
        tokens,
        vec![
            token(TokenType::Illegal, TokenValue::Empty, 1, 1, 0),
            token(TokenType::Illegal, TokenValue::Empty, 1, 2, 0),
            token(TokenType::Symbol, TokenValue::String(String::from("x")), 1, 3, 1),
        ]
    );
}

#[test]
fn identifiers_are_runs_of_letters_and_underscores() {
    assert_eq!(scan("abc"), vec![symbol("abc")]);
    assert_eq!(scan("a_samp"), vec![symbol("a_samp")]);
    assert_eq!(scan("_"), vec![symbol("_")]);
    assert_eq!(scan("__x__"), vec![symbol("__x__")]);
    assert_eq!(scan("Float"), vec![symbol("Float")]);
    assert_eq!(scan("h\u{e9}llo"), vec![symbol("h\u{e9}llo")]);
    assert_eq!(scan("\u{4eac}"), vec![symbol("\u{4eac}")]);
    assert_eq!(scan("a b"), vec![symbol("a"), symbol("b")]);
    assert_eq!(scan("a-b"), vec![symbol("a"), plain(TokenType::Minus), symbol("b")]);
}

#[test]
fn a_digit_ends_an_identifier() {
    assert_eq!(scan("a1"), vec![symbol("a"), integer(1)]);
    assert_eq!(scan("x2y"), vec![symbol("x"), integer(2), symbol("y")]);
    assert_eq!(scan("new1"), vec![plain(TokenType::New), integer(1)]);
}

#[test]
fn an_underscore_after_digits_belongs_to_the_numeral() {
    assert_eq!(scan("1_a"), vec![integer(1), symbol("a")]);
    assert_eq!(scan("1a_"), vec![integer(1), symbol("a_")]);
}

#[test]
fn integers_have_their_value() {
    assert_eq!(scan("0"), vec![integer(0)]);
    assert_eq!(scan("5"), vec![integer(5)]);
    assert_eq!(scan("42"), vec![integer(42)]);
    assert_eq!(scan("007"), vec![integer(7)]);
    assert_eq!(scan("2147483647"), vec![integer(i32::MAX)]);
    assert_eq!(scan("1 2 3"), vec![integer(1), integer(2), integer(3)]);
    assert_eq!(scan("-5"), vec![plain(TokenType::Minus), integer(5)]);
}

#[test]
fn underscores_group_digits() {
    assert_eq!(scan("1_000"), vec![integer(1000)]);
    assert_eq!(scan("1_000_000"), vec![integer(1_000_000)]);
    assert_eq!(scan("1__0"), vec![integer(10)]);
    assert_eq!(scan("5_"), vec![integer(5)]);
    assert_eq!(scan("5_;"), vec![integer(5), plain(TokenType::Semicolon)]);
    assert_eq!(scan("1_0.5"), vec![float("10.5")]);
    assert_eq!(scan("1._5"), vec![float("1.5")]);
}

#[test]
fn floats_carry_their_text() {
    assert_eq!(scan("5.5"), vec![float("5.5")]);
    assert_eq!(scan("0.125"), vec![float("0.125")]);
    assert_eq!(scan("5."), vec![float("5.")]);
    assert_eq!(scan("5.50"), vec![float("5.50")]);
    assert_eq!(scan("3.14;"), vec![float("3.14"), plain(TokenType::Semicolon)]);
    assert_eq!(scan("1.5x"), vec![float("1.5"), symbol("x")]);
}

#[test]
fn the_text_of_a_float_is_a_float() {
    let floats =
        [("5.5", 5.5f32), ("0.125", 0.125), ("5.", 5.0), ("10.25", 10.25), ("1_0.5", 10.5)];
    for (text, value) in floats {
        match &scan(text)[0] {
            (TokenType::Float, TokenValue::Float(digits)) => {
                assert_eq!(digits.parse::<f32>(), Ok(value), "{}", text)
            }
            other => panic!("expected a float, found {:?}", other),
        }
    }
}

#[test]
fn a_point_without_a_digit_before_it_is_no_float() {
    assert_eq!(scan(".5"), vec![plain(TokenType::Illegal), integer(5)]);
}

#[test]
fn a_number_too_large_is_malformed() {
    assert_eq!(
        Lexer::new("2147483648").lex(),
        Err(LexError::MalformedNumeral { line: 1, column: 1 })
    );
    assert_eq!(
        Lexer::new("99999999999999999999").lex(),
        Err(LexError::MalformedNumeral { line: 1, column: 1 })
    );
}

#[test]
fn two_points_are_malformed() {
    assert_eq!(
        Lexer::new("1.2.3").lex(),
        Err(LexError::MalformedNumeral { line: 1, column: 1 })
    );
    assert_eq!(
        Lexer::new("1..5").lex(),
        Err(LexError::MalformedNumeral { line: 1, column: 1 })
    );
    assert_eq!(
        Lexer::new("x = 1..").lex(),
        Err(LexError::MalformedNumeral { line: 1, column: 5 })
    );
}

#[test]
fn a_digit_beyond_ascii_is_malformed() {
    assert_eq!(
        Lexer::new("\u{663}").lex(),
        Err(LexError::MalformedNumeral { line: 1, column: 1 })
    );
    assert_eq!(
        Lexer::new("1\u{663}").lex(),
        Err(LexError::MalformedNumeral { line: 1, column: 1 })
    );
    assert_eq!(
        Lexer::new("1.\u{be}").lex(),
        Err(LexError::MalformedNumeral { line: 1, column: 1 })
    );
}

#[test]
fn an_error_tells_where_the_numeral_starts() {
    assert_eq!(
        Lexer::new("new x;\n  y = 1.2.3;").lex(),
        Err(LexError::MalformedNumeral { line: 2, column: 7 })
    );
}

#[test]
fn a_malformed_numeral_is_consumed() {
    let mut lexer = Lexer::new("a 1.2.3 b");
    assert_eq!(lexer.next_token().map(|t| t.token_type), Ok(TokenType::Symbol));
    assert_eq!(
        lexer.next_token(),
        Err(LexError::MalformedNumeral { line: 1, column: 3 })
    );
    assert_eq!(
        lexer.next_token(),
        Ok(token(TokenType::Symbol, TokenValue::String(String::from("b")), 1, 9, 1))
    );
    assert_eq!(lexer.next_token().map(|t| t.token_type), Ok(TokenType::End));
}

#[test]
fn lex_stops_at_a_malformed_numeral() {
    let mut lexer = Lexer::new("a 1.2.3 b");
    assert_eq!(lexer.lex(), Err(LexError::MalformedNumeral { line: 1, column: 3 }));
    assert_eq!(lexer.lex().map(|tokens| tokens.len()), Ok(1));
}

#[test]
fn end_is_given_again_and_again() {
    let mut lexer = Lexer::new("x ");
    assert_eq!(lexer.next_token().map(|t| t.token_type), Ok(TokenType::Symbol));
    let end = token(TokenType::End, TokenValue::Empty, 1, 3, 0);
    for _ in 0..5 {
        assert_eq!(lexer.next_token(), Ok(end.clone()));
    }
    assert_eq!(lexer.lex(), Ok(vec![]));
    assert_eq!(lexer.next_token(), Ok(end));
}

#[test]
fn end_of_an_empty_text() {
    let mut lexer = Lexer::new("");
    assert_eq!(lexer.next_token(), Ok(token(TokenType::End, TokenValue::Empty, 1, 1, 0)));
    assert_eq!(lexer.next_token(), Ok(token(TokenType::End, TokenValue::Empty, 1, 1, 0)));
}

#[test]
fn lex_leaves_end_out() {
    let tokens = Lexer::new("a b").lex().unwrap();
    assert_eq!(tokens.len(), 2);
    assert!(tokens.iter().all(|t| t.token_type != TokenType::End));
}

#[test]
fn lex_gives_what_next_token_gives() {
    let text = "new Float:x = 5.5; // done\nif (x >= 1_0) { x <<= 2; } /* end */";
    let all = Lexer::new(text).lex().unwrap();
    let mut lexer = Lexer::new(text);
    let mut one_by_one = Vec::new();
    loop {
        let t = lexer.next_token().unwrap();
        if t.token_type == TokenType::End {
            break;
        }
        one_by_one.push(t);
    }
    assert_eq!(all, one_by_one);
    assert_eq!(all.len(), 21);
}

#[test]
fn a_line_comment_runs_to_the_end_of_the_line() {
    assert_eq!(scan("// comment"), vec![comment("comment")]);
    assert_eq!(scan("// comment\n"), vec![comment("comment")]);
    assert_eq!(scan("//comment"), vec![comment("comment")]);
    assert_eq!(scan("//   a  b  "), vec![comment("a  b  ")]);
    assert_eq!(scan("//"), vec![comment("")]);
    assert_eq!(scan("//\n"), vec![comment("")]);
    assert_eq!(scan("// a\nb"), vec![comment("a"), symbol("b")]);
    assert_eq!(scan("a // b\nc"), vec![symbol("a"), comment("b"), symbol("c")]);
    assert_eq!(scan("// a // b"), vec![comment("a // b")]);
    assert_eq!(scan("/// a"), vec![comment("/ a")]);
    assert_eq!(scan("// a /* b */"), vec![comment("a /* b */")]);
    assert_eq!(scan("// a\r\nb"), vec![comment("a\r"), symbol("b")]);
}

#[test]
fn a_block_comment_runs_to_its_closer() {
    assert_eq!(scan("/* comment */"), vec![comment("comment")]);
    assert_eq!(scan("/*comment*/"), vec![comment("comment")]);
    assert_eq!(scan("/**/"), vec![comment("")]);
    assert_eq!(scan("/* */"), vec![comment("")]);
    assert_eq!(scan("/* a*/"), vec![comment("a")]);
    assert_eq!(scan("/*a */"), vec![comment("a")]);
    assert_eq!(scan("/*  a  b  */"), vec![comment("a  b")]);
    assert_eq!(scan("/* a */ b"), vec![comment("a"), symbol("b")]);
    assert_eq!(scan("a/* b */c"), vec![symbol("a"), comment("b"), symbol("c")]);
    assert_eq!(scan("/* // a */"), vec![comment("// a")]);
    assert_eq!(scan("/***/"), vec![comment("*")]);
    assert_eq!(scan("/* a * / b */"), vec![comment("a * / b")]);
    assert_eq!(scan("/*\u{12a}\u{12f}*/"), vec![comment("\u{12a}\u{12f}")]);
}

#[test]
fn block_comments_do_not_nest() {
    assert_eq!(
        scan("/* a /* b */ c */"),
        vec![
            comment("a /* b"),
            symbol("c"),
            plain(TokenType::Asterisk),
            plain(TokenType::Slash),
        ]
    );
}

#[test]
fn an_open_block_comment_runs_to_the_end() {
    assert_eq!(scan("/* abc"), vec![comment("abc")]);
    assert_eq!(scan("/* abc "), vec![comment("abc ")]);
    assert_eq!(scan("/* a\nb\n"), vec![comment("a\nb\n")]);
    assert_eq!(scan("/*"), vec![comment("")]);
    assert_eq!(scan("/*/"), vec![comment("/")]);
    assert_eq!(scan("/* a *"), vec![comment("a *")]);
    assert_eq!(scan("x /* y"), vec![symbol("x"), comment("y")]);
}

#[test]
fn end_follows_an_open_comment() {
    let mut lexer = Lexer::new("/* abc");
    assert_eq!(
        lexer.next_token(),
        Ok(token(TokenType::Comment, TokenValue::String(String::from("abc")), 1, 1, 3))
    );
    assert_eq!(lexer.next_token().map(|t| t.token_type), Ok(TokenType::End));
}

#[test]
fn tokens_carry_where_they_start() {
    let tokens = Lexer::new("new x = 5;").lex().unwrap();
    assert_eq!(
        tokens,
        vec![
            token(TokenType::New, TokenValue::Empty, 1, 1, 0),
            token(TokenType::Symbol, TokenValue::String(String::from("x")), 1, 5, 1),
            token(TokenType::Assign, TokenValue::Empty, 1, 7, 0),
            token(TokenType::Integer, TokenValue::Integer(5), 1, 9, 1),
            token(TokenType::Semicolon, TokenValue::Empty, 1, 10, 0),
        ]
    );
}

#[test]
fn lines_count_from_one_and_columns_start_anew() {
    let tokens = Lexer::new("a\n  bb\n\n\tccc // d d\n/* e\n e */ 1_000 2.50").lex().unwrap();
    assert_eq!(
        tokens,
        vec![
            token(TokenType::Symbol, TokenValue::String(String::from("a")), 1, 1, 1),
            token(TokenType::Symbol, TokenValue::String(String::from("bb")), 2, 3, 2),
            token(TokenType::Symbol, TokenValue::String(String::from("ccc")), 4, 2, 3),
            token(TokenType::Comment, TokenValue::String(String::from("d d")), 4, 6, 3),
            token(TokenType::Comment, TokenValue::String(String::from("e\n e")), 5, 1, 4),
            token(TokenType::Integer, TokenValue::Integer(1000), 6, 7, 4),
            token(TokenType::Float, TokenValue::Float(String::from("2.50")), 6, 13, 4),
        ]
    );
}

#[test]
fn the_range_is_the_length_of_what_is_carried() {
    let tokens = Lexer::new("007 h\u{e9}llo <<= while 12.5").lex().unwrap();
    let ranges: Vec<i32> = tokens.iter().map(|t| t.range).collect();
    assert_eq!(ranges, vec![1, 5, 0, 0, 4]);
    for t in &tokens {
        assert_eq!(t.range as usize, t.value.len());
    }
}

#[test]
fn whitespace_of_any_kind_separates() {
    let expected: Vec<_> = "abcdefgh".chars().map(|c| symbol(&c.to_string())).collect();
    assert_eq!(scan("a\tb\rc\nd\u{b}e\u{c}f\u{a0}g\u{2003}h"), expected);
}

#[test]
fn a_carriage_return_does_not_start_a_line() {
    let tokens = Lexer::new("a\r\nb\rc").lex().unwrap();
    let places: Vec<(i32, i32)> = tokens.iter().map(|t| (t.line, t.column)).collect();
    assert_eq!(places, vec![(1, 1), (2, 1), (2, 3)]);
}

#[test]
fn literals_scan_back_to_themselves() {
    let text = "new Float:x = 5.5; y = 0042; z <<= 1_000; w = 2147483647; q = 7.";
    for (kind, value) in scan(text) {
        let written = match &value {
            TokenValue::String(s) => s.clone(),
            TokenValue::Integer(v) => v.to_string(),
            TokenValue::Float(s) => s.clone(),
            TokenValue::Empty => continue,
        };
        assert_eq!(scan(&written), vec![(kind, value)]);
    }
}

#[test]
fn integer_42_scans_to_42() {
    assert_eq!(scan("42"), vec![integer(42)]);
    assert_eq!(scan(&42.to_string()), vec![integer(42)]);
}

#[test]
fn a_directive_is_a_mark_and_a_symbol() {
    assert_eq!(
        scan("#include <a_samp>"),
        vec![
            plain(TokenType::Directive),
            symbol("include"),
            plain(TokenType::LowerThan),
            symbol("a_samp"),
            plain(TokenType::GreaterThan),
        ]
    );
}

#[test]
fn constructs_scan_as_they_do_alone() {
    let parts = [
        "// Comment\n",
        "#include <a_samp>\n",
        "main() {\n",
        "new a;\n",
        "if(a == 3) {\n",
        "a++;\n",
        "} else if(a != 3) {\n",
        "a--;\n",
        "} else {\n",
        "a = 0;\n",
        "}\n",
        "}\n",
    ];
    let mut expected = Vec::new();
    for part in parts {
        expected.extend(scan(part));
    }
    assert_eq!(scan(&parts.concat()), expected);
    assert_eq!(expected.len(), 44);
}

#[test]
fn tokens_come_in_the_order_of_the_text() {
    let text = "new a;\n  if (a <<= 2) { // x\n/* y\n z */ a = 5.5; }\n\n\treturn a..b;";
    let tokens = Lexer::new(text).lex().unwrap();
    assert_eq!(tokens.len(), 22);
    for pair in tokens.windows(2) {
        let earlier = (pair[0].line, pair[0].column);
        let later = (pair[1].line, pair[1].column);
        assert!(earlier < later, "{:?} {:?}", pair[0], pair[1]);
    }
}

#[test]
fn more_text_changes_at_most_the_last_token() {
    let texts =
        ["new x", "a <", "a <<", "x = 5", "x = 5.", "/* a", "// a", "a 1_", "a .", "a b c", ""];
    let more = ["", "=", "<", ".", "5", "x", " x", "*/", "\n", "_", "/", " */ y"];
    for a in texts {
        let short = match Lexer::new(a).lex() {
            Ok(tokens) => tokens,
            Err(_) => continue,
        };
        for b in more {
            let whole = format!("{}{}", a, b);
            let mut lexer = Lexer::new(&whole);
            for (i, expected) in short.iter().enumerate() {
                if i + 1 == short.len() {
                    break;
                }
                assert_eq!(lexer.next_token().as_ref(), Ok(expected), "{:?} {:?}", a, b);
            }
        }
    }
}

#[test]
fn a_token_that_ends_before_the_end_stays() {
    for b in ["", "=", "==", "x", "5", "*/", "\n", " "] {
        let whole = format!("<<= {}", b);
        let first = Lexer::new(&whole).next_token();
        assert_eq!(first, Ok(token(TokenType::BitLeftAssign, TokenValue::Empty, 1, 1, 0)));
        let whole = format!("// a\n{}", b);
        let first = Lexer::new(&whole).next_token();
        assert_eq!(
            first,
            Ok(token(TokenType::Comment, TokenValue::String(String::from("a")), 1, 1, 1))
        );
        let whole = format!("/* a */{}", b);
        let first = Lexer::new(&whole).next_token();
        assert_eq!(
            first,
            Ok(token(TokenType::Comment, TokenValue::String(String::from("a")), 1, 1, 1))
        );
    }
}

#[test]
fn a_token_depends_only_on_the_text_from_its_start() {
    let text = "new x = 5; /* c */ y <<= 1_0.5 // done";
    let chars: Vec<char> = text.chars().collect();
    let all = scan(text);
    let mut lexer = Lexer::new(text);
    let mut seen = 0;
    loop {
        lexer.skip_whitespace();
        let at = (lexer.column() - 1) as usize;
        let rest: String = chars[at..].iter().collect();
        let t = lexer.next_token().unwrap();
        if t.token_type == TokenType::End {
            break;
        }
        assert_eq!(scan(&rest)[0], (t.token_type, t.value));
        assert_eq!(scan(&rest), all[seen..].to_vec());
        seen += 1;
    }
    assert_eq!(seen, all.len());
}

#[test]
fn texts_compose_where_tokens_are_settled() {
    let firsts = ["new x; ", "// a\n", "/* a */", "a <<= 2 ", "", "  ", "if (x) { y = 5.5; }\n"];
    let seconds = ["", "=", "x", "5", ".5", "*/", "/* open", "new y = 1.2.3;", "else\n{ }"];
    for a in firsts {
        for b in seconds {
            let whole = format!("{}{}", a, b);
            let first = Lexer::new(a).lex().unwrap();
            let second = Lexer::new(b).lex();
            let both = Lexer::new(&whole).lex();
            assert_eq!(both.is_err(), second.is_err(), "{:?} {:?}", a, b);
            if let (Ok(both), Ok(second)) = (both, second) {
                let expected: Vec<(TokenType, TokenValue)> = first
                    .into_iter()
                    .chain(second)
                    .map(|t| (t.token_type, t.value))
                    .collect();
                let found: Vec<(TokenType, TokenValue)> =
                    both.into_iter().map(|t| (t.token_type, t.value)).collect();
                assert_eq!(found, expected, "{:?} {:?}", a, b);
            }
        }
    }
}
