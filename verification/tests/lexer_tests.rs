use sqlparse::lexer::lookup_identifier;
use sqlparse::lexer::Lexer;
use sqlparse::lexer::Token;
use sqlparse::lexer::TokenKind;

#[test]
fn next_token() {
    let input = "=+(){},;\n        SELECT UPDATE INSERT DELETE 12 23      1234\n\n        1 + 2 = 1000 1 > < !12 FROM TABLE into Where values != = abcd, 1122!";
    let mut lexer = Lexer::new(input);
    let tests = vec![
        Token { kind: TokenKind::Equals, literal: "=".to_string() },
        Token { kind: TokenKind::Plus, literal: "+".to_string() },
        Token { kind: TokenKind::LParen, literal: "(".to_string() },
        Token { kind: TokenKind::RParen, literal: ")".to_string() },
        Token { kind: TokenKind::LBrace, literal: "{".to_string() },
        Token { kind: TokenKind::RBrace, literal: "}".to_string() },
        Token { kind: TokenKind::Comma, literal: ",".to_string() },
        Token { kind: TokenKind::Semicolon, literal: ";".to_string() },
        Token { kind: TokenKind::Select, literal: "SELECT".to_string() },
        Token { kind: TokenKind::Update, literal: "UPDATE".to_string() },
        Token { kind: TokenKind::Insert, literal: "INSERT".to_string() },
        Token { kind: TokenKind::Delete, literal: "DELETE".to_string() },
        Token { kind: TokenKind::Int, literal: "12".to_string() },
        Token { kind: TokenKind::Int, literal: "23".to_string() },
        Token { kind: TokenKind::Int, literal: "1234".to_string() },
        Token { kind: TokenKind::Int, literal: "1".to_string() },
        Token { kind: TokenKind::Plus, literal: "+".to_string() },
        Token { kind: TokenKind::Int, literal: "2".to_string() },
        Token { kind: TokenKind::Equals, literal: "=".to_string() },
        Token { kind: TokenKind::Int, literal: "1000".to_string() },
        Token { kind: TokenKind::Int, literal: "1".to_string() },
        Token { kind: TokenKind::Gt, literal: ">".to_string() },
        Token { kind: TokenKind::Lt, literal: "<".to_string() },
        Token { kind: TokenKind::Bang, literal: "!".to_string() },
        Token { kind: TokenKind::Int, literal: "12".to_string() },
        Token { kind: TokenKind::From, literal: "FROM".to_string() },
        Token { kind: TokenKind::Table, literal: "TABLE".to_string() },
        Token { kind: TokenKind::Into, literal: "INTO".to_string() },
        Token { kind: TokenKind::Where, literal: "WHERE".to_string() },
        Token { kind: TokenKind::Values, literal: "VALUES".to_string() },
        Token { kind: TokenKind::NotEq, literal: "!=".to_string() },
        Token { kind: TokenKind::Equals, literal: "=".to_string() },
        Token { kind: TokenKind::Identifier, literal: "abcd".to_string() },
        Token { kind: TokenKind::Comma, literal: ",".to_string() },
        Token { kind: TokenKind::Int, literal: "1122".to_string() },
        Token { kind: TokenKind::Bang, literal: "!".to_string() },
    ];

    for test in tests {
        let token = lexer.next_token();
        assert_eq!(
            token.kind, test.kind,
            "failed kind check, found {:?}, expected {:?}",
            token.kind, test.kind
        );
        assert_eq!(
            token.literal, test.literal,
            "failed literal check, found {:?}, expected {:?}",
            token.literal, test.literal
        );
    }
}

#[test]
fn single_character_tokens() {
    let mut lexer = Lexer::new("=+(){},;");
    let expected = [
        (TokenKind::Equals, "="),
        (TokenKind::Plus, "+"),
        (TokenKind::LParen, "("),
        (TokenKind::RParen, ")"),
        (TokenKind::LBrace, "{"),
        (TokenKind::RBrace, "}"),
        (TokenKind::Comma, ","),
        (TokenKind::Semicolon, ";"),
    ];
    for (kind, literal) in expected {
        let token = lexer.next_token();
        assert_eq!(token.kind, kind);
        assert_eq!(token.literal, literal);
    }
    assert_eq!(lexer.next_token().kind, TokenKind::Eof);
}

#[test]
fn keyword_case_insensitive() {
    for input in ["select", "Select", "SELECT", "sElEcT"] {
        let mut lexer = Lexer::new(input);
        let token = lexer.next_token();
        assert_eq!(token.kind, TokenKind::Select);
        assert_eq!(token.literal, "SELECT");
    }
    let mut lexer = Lexer::new("abcd");
    let token = lexer.next_token();
    assert_eq!(token.kind, TokenKind::Identifier);
    assert_eq!(token.literal, "abcd");
}

#[test]
fn lookup_identifier_kinds() {
    assert_eq!(lookup_identifier("select"), TokenKind::Select);
    assert_eq!(lookup_identifier("Select"), TokenKind::Select);
    assert_eq!(lookup_identifier("SELECT"), TokenKind::Select);
    assert_eq!(lookup_identifier("from"), TokenKind::From);
    assert_eq!(lookup_identifier("values"), TokenKind::Values);
    assert_eq!(lookup_identifier("abcd"), TokenKind::Identifier);
    assert_eq!(lookup_identifier("selects"), TokenKind::Identifier);
}

#[test]
fn bang_equals_is_one_token() {
    let mut lexer = Lexer::new("!=");
    let token = lexer.next_token();
    assert_eq!(token.kind, TokenKind::NotEq);
    assert_eq!(token.literal, "!=");
    assert_eq!(lexer.next_token().kind, TokenKind::Eof);

    let mut lexer = Lexer::new("!12");
    let bang = lexer.next_token();
    assert_eq!(bang.kind, TokenKind::Bang);
    assert_eq!(bang.literal, "!");
    let number = lexer.next_token();
    assert_eq!(number.kind, TokenKind::Int);
    assert_eq!(number.literal, "12");
}

#[test]
fn eof_is_stable() {
    let mut lexer = Lexer::new("  ");
    for _ in 0..3 {
        let token = lexer.next_token();
        assert_eq!(token.kind, TokenKind::Eof);
        assert_eq!(token.literal, "\0");
    }
}

#[test]
fn illegal_character() {
    let mut lexer = Lexer::new("@");
    let token = lexer.next_token();
    assert_eq!(token.kind, TokenKind::Illegal);
    assert_eq!(token.literal, "");
}

#[test]
fn retokenizing_is_deterministic() {
    let input = "select name, age from employee; !12 != @ 99";
    let mut first = Lexer::new(input);
    let mut second = Lexer::new(input);
    for _ in 0..32 {
        let a = first.next_token();
        let b = second.next_token();
        assert_eq!(a.kind, b.kind);
        assert_eq!(a.literal, b.literal);
    }
}
