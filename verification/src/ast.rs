//! The statement tree built by the parser: expressions, statements, their
//! mathematical views, and the canonical rendering back to source form.

use vstd::prelude::*;
use vstd::string::StringExecFns;

use crate::lexer::Token;

verus! {

/// Mathematical image of an `Expression`: names, values and operators
/// only, with no token bookkeeping.
pub enum SpecExpr {
    Ident(Seq<char>),
    Int(int),
    Prefix(Seq<char>, Box<SpecExpr>),
}

/// Mathematical image of a `Statement`.
pub enum SpecStatement {
    Select { columns: Seq<SpecExpr>, table: SpecExpr },
    Expr(SpecExpr),
}

/// A name used as an expression.
#[derive(Debug)]
pub struct Identifier {
    pub token: Token,
    pub value: String,
}

/// A 64-bit signed integer literal.
#[derive(Debug)]
pub struct IntLiteral {
    pub token: Token,
    pub value: i64,
}

/// A unary operator applied in front of an operand expression. The operand
/// is always present: parsing fails rather than building a hollow node.
#[derive(Debug)]
pub struct PrefixExpression {
    pub token: Token,
    pub operator: String,
    pub right: Box<Expression>,
}

/// An expression node.
#[derive(Debug)]
pub enum Expression {
    Identifier(Identifier),
    Int(IntLiteral),
    Prefixed(PrefixExpression),
}

pub open spec fn expr_view(e: Expression) -> SpecExpr
    decreases e,
{
    match e {
        Expression::Identifier(id) => SpecExpr::Ident(id.value@),
        Expression::Int(il) => SpecExpr::Int(il.value as int),
        Expression::Prefixed(p) => SpecExpr::Prefix(p.operator@, Box::new(expr_view(*p.right))),
    }
}

impl View for Expression {
    type V = SpecExpr;

    open spec fn view(&self) -> SpecExpr {
        expr_view(*self)
    }
}

pub open spec fn exprs_view(es: Seq<Expression>) -> Seq<SpecExpr> {
    es.map(|i: int, e: Expression| expr_view(e))
}

/// A `SELECT <columns> FROM <table>` statement. The column list is never
/// empty on a successfully parsed statement.
#[derive(Debug)]
pub struct SelectStatement {
    pub token: Token,
    pub table_name: Expression,
    pub expressions: Vec<Expression>,
}

/// A bare expression used as a whole statement.
#[derive(Debug)]
pub struct ExpressionStatement {
    pub token: Token,
    pub expression: Expression,
}

/// A statement node.
#[derive(Debug)]
pub enum Statement {
    Select(SelectStatement),
    Expr(ExpressionStatement),
}

impl View for Statement {
    type V = SpecStatement;

    open spec fn view(&self) -> SpecStatement {
        match self {
            Statement::Select(ss) => SpecStatement::Select {
                columns: exprs_view(ss.expressions@),
                table: expr_view(ss.table_name),
            },
            Statement::Expr(es) => SpecStatement::Expr(expr_view(es.expression)),
        }
    }
}

impl SelectStatement {
    pub fn new(token: Token, table_name: Expression, expressions: Vec<Expression>) -> (s:
        SelectStatement)
        ensures
            s.token == token,
            s.table_name == table_name,
            s.expressions == expressions,
    {
        SelectStatement { token, table_name, expressions }
    }
}

/// A node of the statement tree that remembers the token it began with.
pub trait Node {
    spec fn spec_token_literal(&self) -> Seq<char>;

    fn token_literal(&self) -> (r: String)
        ensures
            r@ == self.spec_token_literal(),
    ;
}

impl Node for Statement {
    open spec fn spec_token_literal(&self) -> Seq<char> {
        match self {
            Statement::Select(ss) => ss.token.literal@,
            Statement::Expr(es) => es.token.literal@,
        }
    }

    fn token_literal(&self) -> (r: String) {
        match self {
            Statement::Select(ss) => ss.token.literal.clone(),
            Statement::Expr(es) => es.token.literal.clone(),
        }
    }
}

/// The decimal digit character for `d` (`0 <= d <= 9`).
pub open spec fn digit_char_of(d: int) -> char {
    (48 + d) as char
}

/// The decimal digit characters of a non-negative number.
pub open spec fn dec_digits(n: int) -> Seq<char>
    decreases n,
        when n >= 0
{
    if n < 10 {
        seq![digit_char_of(n)]
    } else {
        dec_digits(n / 10).push(digit_char_of(n % 10))
    }
}

/// The canonical decimal text of an integer.
pub open spec fn int_text(n: int) -> Seq<char> {
    if n < 0 {
        seq!['-'] + dec_digits(-n)
    } else {
        dec_digits(n)
    }
}

/// The canonical source form of an expression.
pub open spec fn expr_text(e: Expression) -> Seq<char>
    decreases e,
{
    match e {
        Expression::Identifier(id) => id.value@,
        Expression::Int(il) => int_text(il.value as int),
        Expression::Prefixed(p) => "("@ + p.operator@ + expr_text(*p.right) + ")"@,
    }
}

/// Column expressions joined by a comma and a space, in original order.
pub open spec fn columns_text(es: Seq<Expression>) -> Seq<char>
    decreases es.len(),
{
    if es.len() == 0 {
        Seq::empty()
    } else if es.len() == 1 {
        expr_text(es[0])
    } else {
        columns_text(es.drop_last()) + ", "@ + expr_text(es.last())
    }
}

/// The canonical source form of a select statement:
/// `<keyword> <columns> FROM <table>`.
pub open spec fn select_text(ss: SelectStatement) -> Seq<char> {
    ss.token.literal@ + " "@ + columns_text(ss.expressions@) + " FROM "@ + expr_text(
        ss.table_name,
    )
}

/// The canonical source form of a statement.
pub open spec fn statement_text(s: Statement) -> Seq<char> {
    match s {
        Statement::Select(ss) => select_text(ss),
        Statement::Expr(es) => expr_text(es.expression),
    }
}

fn digit_str(d: u64) -> (r: &'static str)
    requires
        d < 10,
    ensures
        r@ == seq![digit_char_of(d as int)],
{
    let r: &'static str = if d == 0 {
        "0"
    } else if d == 1 {
        "1"
    } else if d == 2 {
        "2"
    } else if d == 3 {
        "3"
    } else if d == 4 {
        "4"
    } else if d == 5 {
        "5"
    } else if d == 6 {
        "6"
    } else if d == 7 {
        "7"
    } else if d == 8 {
        "8"
    } else {
        "9"
    };
    proof {
        reveal_strlit("0");
        reveal_strlit("1");
        reveal_strlit("2");
        reveal_strlit("3");
        reveal_strlit("4");
        reveal_strlit("5");
        reveal_strlit("6");
        reveal_strlit("7");
        reveal_strlit("8");
        reveal_strlit("9");
        assert(r@ =~= seq![digit_char_of(d as int)]);
    }
    r
}

fn dec_string(m: u64) -> (s: String)
    ensures
        s@ == dec_digits(m as int),
    decreases m,
{
    if m < 10 {
        String::from_str(digit_str(m))
    } else {
        let mut s = dec_string(m / 10);
        s.append(digit_str(m % 10));
        proof {
            assert(s@ =~= dec_digits(m as int));
        }
        s
    }
}

fn i64_text(v: i64) -> (s: String)
    ensures
        s@ == int_text(v as int),
{
    if v >= 0 {
        dec_string(v as u64)
    } else {
        let m128: i128 = -(v as i128);
        let mag = m128 as u64;
        proof {
            assert(mag as int == -(v as int));
        }
        let mut s = String::from_str("-");
        let d = dec_string(mag);
        s.append(d.as_str());
        proof {
            reveal_strlit("-");
            assert(s@ =~= int_text(v as int));
        }
        s
    }
}

impl Expression {
    /// Renders this expression in its canonical source form.
    pub fn to_text(&self) -> (r: String)
        ensures
            r@ == expr_text(*self),
        decreases *self,
    {
        match self {
            Expression::Identifier(id) => id.value.clone(),
            Expression::Int(il) => i64_text(il.value),
            Expression::Prefixed(p) => {
                let mut s = String::from_str("(");
                s.append(p.operator.as_str());
                let inner = p.right.to_text();
                s.append(inner.as_str());
                s.append(")");
                proof {
                    assert(s@ =~= expr_text(*self));
                }
                s
            },
        }
    }
}

impl SelectStatement {
    /// Renders this statement as `<keyword> <columns> FROM <table>`.
    pub fn to_text(&self) -> (r: String)
        ensures
            r@ == select_text(*self),
    {
        let ghost es = self.expressions@;
        let mut s = self.token.literal.clone();
        s.append(" ");
        let mut i: usize = 0;
        while i < self.expressions.len()
            invariant
                i <= es.len(),
                es == self.expressions@,
                s@ == self.token.literal@ + " "@ + columns_text(es.subrange(0, i as int)),
            decreases es.len() - i,
        {
            if i > 0 {
                s.append(", ");
            }
            let t = self.expressions[i].to_text();
            s.append(t.as_str());
            proof {
                let prev = es.subrange(0, i as int);
                let cur = es.subrange(0, i + 1);
                assert(cur.drop_last() =~= prev);
                assert(cur.last() == es[i as int]);
                assert(s@ =~= self.token.literal@ + " "@ + columns_text(cur));
            }
            i += 1;
        }
        proof {
            assert(es.subrange(0, es.len() as int) =~= es);
        }
        s.append(" FROM ");
        let t = self.table_name.to_text();
        s.append(t.as_str());
        proof {
            assert(s@ =~= select_text(*self));
        }
        s
    }
}

impl Statement {
    /// Renders this statement in its canonical source form.
    pub fn to_text(&self) -> (r: String)
        ensures
            r@ == statement_text(*self),
    {
        match self {
            Statement::Select(ss) => ss.to_text(),
            Statement::Expr(es) => es.expression.to_text(),
        }
    }
}

} // verus!
