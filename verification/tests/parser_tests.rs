use sqlparse::ast::Expression;
use sqlparse::ast::Identifier;
use sqlparse::ast::IntLiteral;
use sqlparse::ast::Node;
use sqlparse::ast::Statement;
use sqlparse::lexer::Lexer;
use sqlparse::lexer::Token;
use sqlparse::lexer::TokenKind;
use sqlparse::parser::Parser;

fn parse(s: &str) -> Statement {
    let mut parser = Parser::new(Lexer::new(s));
    let statement = parser.parse_statement();
    assert!(parser.errors.is_empty());
    statement.unwrap()
}

fn assert_identifier(s: &str, expression: &Expression) {
    match expression {
        Expression::Identifier(Identifier { value, .. }) => assert_eq!(value, s),
        _ => panic!("{} is not an identifier", expression.to_text()),
    }
}

fn assert_token(token: &Token, kind: TokenKind, literal: &str) {
    assert_eq!(token.kind, kind);
    assert_eq!(token.literal, literal);
}

fn assert_select_statement(statement: &Statement, table_name: &str, attributes: &[&str]) {
    if let Statement::Select(s) = statement {
        assert_token(&s.token, TokenKind::Select, "SELECT");
        assert_identifier(table_name, &s.table_name);
        assert_eq!(s.expressions.len(), attributes.len());
        for (expect, got) in attributes.iter().zip(s.expressions.iter()) {
            assert_identifier(expect, got);
        }
    } else {
        panic!("{:?} is not a select statement", statement)
    }
}

#[test]
fn parse_select_statement() {
    struct Test<'a> {
        input: &'a str,
        table_name: &'a str,
        expressions: &'a [&'a str],
    }

    for t in &[
        Test {
            input: "select name, age, gender from employee",
            table_name: "employee",
            expressions: &["name", "age", "gender"],
        },
        Test { input: "select gender from foobar", table_name: "foobar", expressions: &["gender"] },
    ] {
        let statement = parse(t.input);
        println!("{}", statement.to_text());
        assert_select_statement(&statement, t.table_name, t.expressions);
    }
}

#[test]
fn parse_bad_select_statement() {
    for (input, expected_error) in &[
        ("select foo from", "expected Identifier, found Eof"),
        ("select blah", "expected From, found Eof"),
        ("select from bar", "expected Identifier, found From"),
    ] {
        let mut p = Parser::new(Lexer::new(input));
        let statement = p.parse_statement();
        assert!(statement.is_none());
        let error = &p.errors[0];
        assert_eq!(error, expected_error);
    }
}

#[test]
fn parse_stringify_select() {
    let statement = parse("select name, age, gender from employee");
    assert_eq!("SELECT name, age, gender FROM employee", statement.to_text());
}

#[test]
fn parse_identifier() {
    let statement = parse("somename;");
    match statement {
        Statement::Expr(es) => match es.expression {
            Expression::Identifier(id) => assert_eq!(id.value, "somename"),
            other => panic!("{} is not an identifier", other.to_text()),
        },
        other => panic!("{:?} is not an expression statement", other),
    }
}

#[test]
fn parse_int() {
    let statement = parse("1234");
    match statement {
        Statement::Expr(es) => match es.expression {
            Expression::Int(IntLiteral { value: 1234, .. }) => (),
            other => panic!("{} is not the int literal 1234", other.to_text()),
        },
        other => panic!("{:?} is not an expression statement", other),
    }
}

#[test]
fn parse_prefix_bang_int() {
    let statement = parse("!1");
    match statement {
        Statement::Expr(es) => match es.expression {
            Expression::Prefixed(p) => {
                assert_eq!(p.operator, "!");
                match *p.right {
                    Expression::Int(IntLiteral { value: 1, .. }) => (),
                    ref other => panic!("{} is not the int literal 1", other.to_text()),
                }
            },
            other => panic!("{} is not a prefix expression", other.to_text()),
        },
        other => panic!("{:?} is not an expression statement", other),
    }
}

#[test]
fn parse_prefix_minus_identifier() {
    let statement = parse("-foobar");
    match statement {
        Statement::Expr(es) => match es.expression {
            Expression::Prefixed(p) => {
                assert_eq!(p.operator, "-");
                assert_identifier("foobar", &p.right);
            },
            other => panic!("{} is not a prefix expression", other.to_text()),
        },
        other => panic!("{:?} is not an expression statement", other),
    }
}

#[test]
fn parse_int_overflow_fails_gracefully() {
    let mut p = Parser::new(Lexer::new("99999999999999999999"));
    let statement = p.parse_statement();
    assert!(statement.is_none());
    assert_eq!(p.errors[0], "invalid integer literal 99999999999999999999");
}

#[test]
fn parse_int_max_fits() {
    let statement = parse("9223372036854775807");
    match statement {
        Statement::Expr(es) => match es.expression {
            Expression::Int(il) => assert_eq!(il.value, i64::MAX),
            other => panic!("{} is not an int literal", other.to_text()),
        },
        other => panic!("{:?} is not an expression statement", other),
    }
}

#[test]
fn parse_without_rule_reports_error() {
    let mut p = Parser::new(Lexer::new("+"));
    let statement = p.parse_statement();
    assert!(statement.is_none());
    assert_eq!(p.errors[0], "no parse rule for Plus");
}

#[test]
fn stringify_prefix_expression() {
    assert_eq!(parse("!1").to_text(), "(!1)");
    assert_eq!(parse("-foobar").to_text(), "(-foobar)");
    assert_eq!(parse("1234").to_text(), "1234");
}

#[test]
fn stringify_negative_int_literal() {
    let expression = Expression::Int(IntLiteral {
        token: Token { kind: TokenKind::Int, literal: "5".to_string() },
        value: -5,
    });
    assert_eq!(expression.to_text(), "-5");
    let minimum = Expression::Int(IntLiteral {
        token: Token { kind: TokenKind::Int, literal: "0".to_string() },
        value: i64::MIN,
    });
    assert_eq!(minimum.to_text(), "-9223372036854775808");
}

#[test]
fn statement_token_literal() {
    let statement = parse("select name from employee");
    assert_eq!(statement.token_literal(), "SELECT");
    let statement = parse("somename;");
    assert_eq!(statement.token_literal(), "somename");
}
