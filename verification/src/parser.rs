//! The parser: consumes the token stream two tokens at a time (current and
//! one-ahead lookahead) and builds a statement tree, accumulating a list of
//! human-readable error messages on mismatches. `spec_parse_statement` is
//! the mathematical model of a parse; `Parser::parse_statement` returns
//! exactly what it prescribes.

use vstd::prelude::*;
use vstd::string::StringExecFns;

use crate::ast::ExpressionStatement;
use crate::ast::Expression;
use crate::ast::Identifier;
use crate::ast::IntLiteral;
use crate::ast::PrefixExpression;
use crate::ast::SelectStatement;
use crate::ast::SpecExpr;
use crate::ast::SpecStatement;
use crate::ast::Statement;
use crate::ast::exprs_view;
use crate::lexer::Lexer;
use crate::lexer::SpecToken;
use crate::lexer::Token;
use crate::lexer::TokenKind;
use crate::lexer::digit_char;
use crate::lexer::is_digit_char;
use crate::lexer::token_or_eof;

verus! {

/// Binding strength of expression-operator positions, weakest first. Only
/// `Lowest` and `Prefix` are exercised by the current grammar; the middle
/// rungs are the ladder an infix extension would hang its rules on.
#[derive(Copy, Clone, Debug, PartialEq, Eq, Structural)]
pub enum Precedence {
    Lowest,
    Equals,
    LessGreater,
    Sum,
    Product,
    Prefix,
}

/// The name of a token kind as it appears in error messages.
pub open spec fn kind_name(k: TokenKind) -> Seq<char> {
    match k {
        TokenKind::Illegal => "Illegal"@,
        TokenKind::Eof => "Eof"@,
        TokenKind::Identifier => "Identifier"@,
        TokenKind::Int => "Int"@,
        TokenKind::Equals => "Equals"@,
        TokenKind::NotEq => "NotEq"@,
        TokenKind::Plus => "Plus"@,
        TokenKind::Minus => "Minus"@,
        TokenKind::Bang => "Bang"@,
        TokenKind::Asterisk => "Asterisk"@,
        TokenKind::Slash => "Slash"@,
        TokenKind::Lt => "Lt"@,
        TokenKind::Gt => "Gt"@,
        TokenKind::Comma => "Comma"@,
        TokenKind::Semicolon => "Semicolon"@,
        TokenKind::LParen => "LParen"@,
        TokenKind::RParen => "RParen"@,
        TokenKind::LBrace => "LBrace"@,
        TokenKind::RBrace => "RBrace"@,
        TokenKind::Select => "Select"@,
        TokenKind::Update => "Update"@,
        TokenKind::Insert => "Insert"@,
        TokenKind::Delete => "Delete"@,
        TokenKind::From => "From"@,
        TokenKind::Table => "Table"@,
        TokenKind::Where => "Where"@,
        TokenKind::Values => "Values"@,
        TokenKind::Into => "Into"@,
    }
}

/// The message recorded when the parser expected one token kind at the
/// lookahead position and found another.
pub open spec fn expect_msg(want: TokenKind, found: TokenKind) -> Seq<char> {
    "expected "@ + kind_name(want) + ", found "@ + kind_name(found)
}

/// The message recorded when no expression rule exists for a token kind.
pub open spec fn no_rule_msg(found: TokenKind) -> Seq<char> {
    "no parse rule for "@ + kind_name(found)
}

/// The message recorded when an integer literal does not fit a 64-bit
/// signed value.
pub open spec fn int_err_msg(lit: Seq<char>) -> Seq<char> {
    "invalid integer literal "@ + lit
}

fn kind_name_str(k: TokenKind) -> (r: &'static str)
    ensures
        r@ == kind_name(k),
{
    match k {
        TokenKind::Illegal => "Illegal",
        TokenKind::Eof => "Eof",
        TokenKind::Identifier => "Identifier",
        TokenKind::Int => "Int",
        TokenKind::Equals => "Equals",
        TokenKind::NotEq => "NotEq",
        TokenKind::Plus => "Plus",
        TokenKind::Minus => "Minus",
        TokenKind::Bang => "Bang",
        TokenKind::Asterisk => "Asterisk",
        TokenKind::Slash => "Slash",
        TokenKind::Lt => "Lt",
        TokenKind::Gt => "Gt",
        TokenKind::Comma => "Comma",
        TokenKind::Semicolon => "Semicolon",
        TokenKind::LParen => "LParen",
        TokenKind::RParen => "RParen",
        TokenKind::LBrace => "LBrace",
        TokenKind::RBrace => "RBrace",
        TokenKind::Select => "Select",
        TokenKind::Update => "Update",
        TokenKind::Insert => "Insert",
        TokenKind::Delete => "Delete",
        TokenKind::From => "From",
        TokenKind::Table => "Table",
        TokenKind::Where => "Where",
        TokenKind::Values => "Values",
        TokenKind::Into => "Into",
    }
}

fn expect_error(want: TokenKind, found: TokenKind) -> (r: String)
    ensures
        r@ == expect_msg(want, found),
{
    let mut s = String::from_str("expected ");
    s.append(kind_name_str(want));
    s.append(", found ");
    s.append(kind_name_str(found));
    proof {
        assert(s@ =~= expect_msg(want, found));
    }
    s
}

fn no_rule_error(found: TokenKind) -> (r: String)
    ensures
        r@ == no_rule_msg(found),
{
    let mut s = String::from_str("no parse rule for ");
    s.append(kind_name_str(found));
    proof {
        assert(s@ =~= no_rule_msg(found));
    }
    s
}

fn int_error(lit: &String) -> (r: String)
    ensures
        r@ == int_err_msg(lit@),
{
    let mut s = String::from_str("invalid integer literal ");
    s.append(lit.as_str());
    proof {
        assert(s@ =~= int_err_msg(lit@));
    }
    s
}

/// Numeric value of a decimal digit string.
pub open spec fn digits_val(s: Seq<char>) -> int
    decreases s.len(),
{
    if s.len() == 0 {
        0
    } else {
        digits_val(s.drop_last()) * 10 + (s.last() as u32 - 48)
    }
}

/// A token literal that denotes a 64-bit signed integer: a non-empty run
/// of decimal digits whose value fits.
pub open spec fn is_int_literal(s: Seq<char>) -> bool {
    &&& s.len() > 0
    &&& forall|k: int| 0 <= k < s.len() ==> is_digit_char(#[trigger] s[k])
    &&& digits_val(s) <= i64::MAX
}

proof fn lemma_digits_val_nonneg(s: Seq<char>)
    requires
        forall|k: int| 0 <= k < s.len() ==> is_digit_char(#[trigger] s[k]),
    ensures
        digits_val(s) >= 0,
    decreases s.len(),
{
    if s.len() > 0 {
        lemma_digits_val_nonneg(s.drop_last());
    }
}

proof fn lemma_digits_val_prefix(s: Seq<char>, j: int)
    requires
        forall|k: int| 0 <= k < s.len() ==> is_digit_char(#[trigger] s[k]),
        0 <= j <= s.len(),
    ensures
        digits_val(s.subrange(0, j)) <= digits_val(s),
    decreases s.len() - j,
{
    if j < s.len() {
        assert(s.subrange(0, j + 1).drop_last() =~= s.subrange(0, j));
        assert(forall|k: int|
            0 <= k < s.subrange(0, j).len() ==> is_digit_char(#[trigger] s.subrange(0, j)[k]));
        lemma_digits_val_nonneg(s.subrange(0, j));
        assert(digits_val(s.subrange(0, j + 1)) == digits_val(s.subrange(0, j)) * 10 + (s[j]
            as u32 - 48));
        lemma_digits_val_prefix(s, j + 1);
    } else {
        assert(s.subrange(0, j) =~= s);
    }
}

/// Converts a token literal to a 64-bit signed value, failing gracefully
/// on anything that is not a digit run or does not fit.
fn parse_i64_digits(lit: &String) -> (r: Option<i64>)
    ensures
        r is Some <==> is_int_literal(lit@),
        r matches Some(v) ==> v as int == digits_val(lit@),
{
    let s = lit.as_str();
    let n = s.unicode_len();
    if n == 0 {
        return None;
    }
    let mut acc: i64 = 0;
    let mut i: usize = 0;
    while i < n
        invariant
            s@ == lit@,
            0 < n == lit@.len(),
            i <= n,
            forall|k: int| 0 <= k < i ==> is_digit_char(#[trigger] lit@[k]),
            acc as int == digits_val(lit@.subrange(0, i as int)),
            acc >= 0,
        decreases n - i,
    {
        let c = s.get_char(i);
        if !digit_char(c) {
            return None;
        }
        let d = (c as u32 - 48) as i64;
        if acc > (i64::MAX - d) / 10 {
            proof {
                assert(acc * 10 + d > i64::MAX);
                assert(lit@.subrange(0, i + 1).drop_last() =~= lit@.subrange(0, i as int));
                assert(digits_val(lit@.subrange(0, i + 1)) == acc * 10 + d);
                if forall|k: int| 0 <= k < lit@.len() ==> is_digit_char(#[trigger] lit@[k]) {
                    lemma_digits_val_prefix(lit@, i + 1);
                }
            }
            return None;
        }
        proof {
            assert(acc * 10 <= i64::MAX - d);
            assert(lit@.subrange(0, i + 1).drop_last() =~= lit@.subrange(0, i as int));
        }
        acc = acc * 10 + d;
        i += 1;
    }
    proof {
        assert(lit@.subrange(0, n as int) =~= lit@);
    }
    Some(acc)
}

/// What one expression parse yields at cursor position `i` of the token
/// stream `ts`: the expression if a rule matched, the position of the last
/// token it consumed, and the error messages it appends. The precedence
/// threshold is the hook for infix continuation, which the current grammar
/// leaves unpopulated.
pub open spec fn spec_parse_expression(ts: Seq<SpecToken>, i: int, min_prec: Precedence) -> (
    Option<SpecExpr>,
    int,
    Seq<Seq<char>>,
)
    decreases ts.len() - i,
        when 0 <= i
{
    let c = token_or_eof(ts, i);
    if c.kind == TokenKind::Identifier {
        (Some(SpecExpr::Ident(c.literal)), i, Seq::empty())
    } else if c.kind == TokenKind::Int {
        if is_int_literal(c.literal) {
            (Some(SpecExpr::Int(digits_val(c.literal))), i, Seq::empty())
        } else {
            (None, i, seq![int_err_msg(c.literal)])
        }
    } else if c.kind == TokenKind::Bang || c.kind == TokenKind::Minus {
        let r = spec_parse_expression(ts, i + 1, Precedence::Prefix);
        (
            match r.0 {
                Some(e) => Some(SpecExpr::Prefix(c.literal, Box::new(e))),
                None => None,
            },
            r.1,
            r.2,
        )
    } else {
        (None, i, seq![no_rule_msg(c.kind)])
    }
}

/// What the generic expression-statement rule yields.
pub open spec fn spec_parse_expression_statement(ts: Seq<SpecToken>, i: int) -> (
    Option<SpecStatement>,
    int,
    Seq<Seq<char>>,
)
{
    let r = spec_parse_expression(ts, i, Precedence::Lowest);
    (
        match r.0 {
            Some(e) => Some(SpecStatement::Expr(e)),
            None => None,
        },
        r.1,
        r.2,
    )
}

/// Continues a column list after the identifier at position `p`: as long
/// as a comma follows, another identifier is required.
pub open spec fn spec_more_columns(ts: Seq<SpecToken>, p: int, acc: Seq<SpecExpr>) -> (
    Option<Seq<SpecExpr>>,
    int,
    Seq<Seq<char>>,
)
    decreases ts.len() - p,
        when 0 <= p
{
    if token_or_eof(ts, p + 1).kind == TokenKind::Comma {
        if token_or_eof(ts, p + 2).kind == TokenKind::Identifier {
            spec_more_columns(
                ts,
                p + 2,
                acc.push(SpecExpr::Ident(token_or_eof(ts, p + 2).literal)),
            )
        } else {
            (
                None,
                p + 1,
                seq![expect_msg(TokenKind::Identifier, token_or_eof(ts, p + 2).kind)],
            )
        }
    } else {
        (Some(acc), p, Seq::empty())
    }
}

/// What the column-list rule yields: at least one identifier is required,
/// then comma-separated identifiers as long as commas follow.
pub open spec fn spec_parse_expression_list(ts: Seq<SpecToken>, i: int) -> (
    Option<Seq<SpecExpr>>,
    int,
    Seq<Seq<char>>,
)
{
    if token_or_eof(ts, i + 1).kind == TokenKind::Identifier {
        spec_more_columns(ts, i + 1, seq![SpecExpr::Ident(token_or_eof(ts, i + 1).literal)])
    } else {
        (None, i, seq![expect_msg(TokenKind::Identifier, token_or_eof(ts, i + 1).kind)])
    }
}

/// What the SELECT rule yields at a Select token: a non-empty column
/// list, the FROM keyword, then the table name.
pub open spec fn spec_parse_select(ts: Seq<SpecToken>, i: int) -> (
    Option<SpecStatement>,
    int,
    Seq<Seq<char>>,
)
{
    let cols = spec_parse_expression_list(ts, i);
    match cols.0 {
        None => (None, cols.1, cols.2),
        Some(cs) => {
            let p = cols.1;
            if token_or_eof(ts, p + 1).kind != TokenKind::From {
                (
                    None,
                    p,
                    cols.2 + seq![expect_msg(TokenKind::From, token_or_eof(ts, p + 1).kind)],
                )
            } else if token_or_eof(ts, p + 2).kind != TokenKind::Identifier {
                (
                    None,
                    p + 1,
                    cols.2 + seq![
                        expect_msg(TokenKind::Identifier, token_or_eof(ts, p + 2).kind),
                    ],
                )
            } else {
                (
                    Some(
                        SpecStatement::Select {
                            columns: cs,
                            table: SpecExpr::Ident(token_or_eof(ts, p + 2).literal),
                        },
                    ),
                    p + 2,
                    cols.2,
                )
            }
        },
    }
}

proof fn lemma_more_columns_grows(ts: Seq<SpecToken>, p: int, acc: Seq<SpecExpr>)
    requires
        0 <= p,
    ensures
        spec_more_columns(ts, p, acc).0 matches Some(cs) ==> cs.len() >= acc.len(),
    decreases ts.len() - p,
{
    if token_or_eof(ts, p + 1).kind == TokenKind::Comma && token_or_eof(ts, p + 2).kind
        == TokenKind::Identifier {
        lemma_more_columns_grows(
            ts,
            p + 2,
            acc.push(SpecExpr::Ident(token_or_eof(ts, p + 2).literal)),
        );
    }
}

/// A successfully parsed SELECT statement never has an empty column list.
pub proof fn lemma_select_columns_nonempty(ts: Seq<SpecToken>, i: int)
    requires
        0 <= i,
    ensures
        spec_parse_select(ts, i).0 matches Some(SpecStatement::Select { columns, table }) ==>
            columns.len() >= 1,
{
    if token_or_eof(ts, i + 1).kind == TokenKind::Identifier {
        lemma_more_columns_grows(
            ts,
            i + 1,
            seq![SpecExpr::Ident(token_or_eof(ts, i + 1).literal)],
        );
    }
}

/// What one whole statement parse yields: the SELECT rule at a Select
/// token, the generic expression-statement rule everywhere else.
pub open spec fn spec_parse_statement(ts: Seq<SpecToken>, i: int) -> (
    Option<SpecStatement>,
    int,
    Seq<Seq<char>>,
)
{
    if token_or_eof(ts, i).kind == TokenKind::Select {
        spec_parse_select(ts, i)
    } else {
        spec_parse_expression_statement(ts, i)
    }
}

/// A single-statement parser over a lexer-backed two-token lookahead
/// window. `tokens()` is the full token sequence of the input and
/// `cursor()` the position of the current token within it; `errors` holds
/// the messages accumulated over the parser's lifetime, oldest first.
pub struct Parser {
    lexer: Lexer,
    current_token: Token,
    peek_token: Token,
    pub errors: Vec<String>,
    toks: Ghost<Seq<SpecToken>>,
    idx: Ghost<int>,
}

impl Parser {
    /// The token sequence this parser is reading.
    pub closed spec fn tokens(&self) -> Seq<SpecToken> {
        self.toks@
    }

    /// The position of the current token within `tokens()`.
    pub closed spec fn cursor(&self) -> int {
        self.idx@
    }

    /// The accumulated error messages.
    pub closed spec fn errs(&self) -> Seq<Seq<char>> {
        self.errors@.map(|i: int, e: String| e@)
    }

    pub closed spec fn wf(&self) -> bool {
        &&& self.lexer.wf()
        &&& 0 <= self.idx@
        &&& self.current_token@ == token_or_eof(self.toks@, self.idx@)
        &&& self.peek_token@ == token_or_eof(self.toks@, self.idx@ + 1)
        &&& forall|k: int|
            0 <= k ==> token_or_eof(self.lexer@, k) == token_or_eof(
                self.toks@,
                self.idx@ + 2 + k,
            )
    }

    pub fn new(lexer: Lexer) -> (p: Parser)
        requires
            lexer.wf(),
        ensures
            p.wf(),
            p.tokens() == lexer@,
            p.cursor() == 0,
            p.errs() == Seq::<Seq<char>>::empty(),
    {
        let ghost toks0 = lexer@;
        let mut lexer = lexer;
        let current_token = lexer.next_token();
        let peek_token = lexer.next_token();
        let p = Parser {
            lexer,
            current_token,
            peek_token,
            errors: Vec::new(),
            toks: Ghost(toks0),
            idx: Ghost(0),
        };
        proof {
            assert(p.errs() =~= Seq::<Seq<char>>::empty());
        }
        p
    }

    fn next_token(&mut self)
        requires
            old(self).wf(),
        ensures
            final(self).wf(),
            final(self).tokens() == old(self).tokens(),
            final(self).cursor() == old(self).cursor() + 1,
            final(self).errors == old(self).errors,
    {
        self.current_token = self.peek_token.clone();
        self.peek_token = self.lexer.next_token();
        proof {
            self.idx@ = self.idx@ + 1;
        }
    }

    fn current_token_is(&self, kind: TokenKind) -> (b: bool)
        requires
            self.wf(),
        ensures
            b == (token_or_eof(self.tokens(), self.cursor()).kind == kind),
    {
        self.current_token.kind == kind
    }

    fn peek_token_is(&self, kind: TokenKind) -> (b: bool)
        requires
            self.wf(),
        ensures
            b == (token_or_eof(self.tokens(), self.cursor() + 1).kind == kind),
    {
        self.peek_token.kind == kind
    }

    fn expect_peek(&mut self, kind: TokenKind) -> (b: bool)
        requires
            old(self).wf(),
        ensures
            final(self).wf(),
            final(self).tokens() == old(self).tokens(),
            b == (token_or_eof(old(self).tokens(), old(self).cursor() + 1).kind == kind),
            b ==> final(self).cursor() == old(self).cursor() + 1 && final(self).errors == old(self).errors,
            !b ==> final(self).cursor() == old(self).cursor() && final(self).errs() == old(self).errs().push(
                expect_msg(kind, token_or_eof(old(self).tokens(), old(self).cursor() + 1).kind),
            ),
    {
        if self.peek_token_is(kind) {
            self.next_token();
            true
        } else {
            let msg = expect_error(kind, self.peek_token.kind);
            self.errors.push(msg);
            proof {
                assert(self.errs() =~= old(self).errs().push(
                    expect_msg(
                        kind,
                        token_or_eof(old(self).tokens(), old(self).cursor() + 1).kind,
                    ),
                ));
            }
            false
        }
    }

    fn parse_identifier(&self) -> (e: Expression)
        requires
            self.wf(),
        ensures
            e@ == SpecExpr::Ident(token_or_eof(self.tokens(), self.cursor()).literal),
            e matches Expression::Identifier(id) && id.token@ == token_or_eof(
                self.tokens(),
                self.cursor(),
            ),
    {
        Expression::Identifier(
            Identifier {
                token: self.current_token.clone(),
                value: self.current_token.literal.clone(),
            },
        )
    }

    fn parse_integer_literal(&mut self) -> (r: Option<Expression>)
        requires
            old(self).wf(),
        ensures
            final(self).wf(),
            final(self).tokens() == old(self).tokens(),
            final(self).cursor() == old(self).cursor(),
            ({
                let cur = token_or_eof(old(self).tokens(), old(self).cursor());
                &&& (r is Some <==> is_int_literal(cur.literal))
                &&& (r matches Some(e) ==> e@ == SpecExpr::Int(digits_val(cur.literal))
                    && final(self).errors == old(self).errors && (e matches Expression::Int(il)
                    && il.token@ == cur))
                &&& (r is None ==> final(self).errs() == old(self).errs().push(
                    int_err_msg(cur.literal),
                ))
            }),
    {
        match parse_i64_digits(&self.current_token.literal) {
            Some(v) => Some(
                Expression::Int(IntLiteral { token: self.current_token.clone(), value: v }),
            ),
            None => {
                let msg = int_error(&self.current_token.literal);
                self.errors.push(msg);
                proof {
                    assert(self.errs() =~= old(self).errs().push(
                        int_err_msg(token_or_eof(old(self).tokens(), old(self).cursor()).literal),
                    ));
                }
                None
            },
        }
    }

    /// Parses one expression at the given minimum binding strength. The
    /// prefix rules live in the match arms below; infix continuation is
    /// the unpopulated extension point of the precedence ladder.
    fn parse_expression(&mut self, precedence: Precedence) -> (r: Option<Expression>)
        requires
            old(self).wf(),
        ensures
            final(self).wf(),
            final(self).tokens() == old(self).tokens(),
            ({
                let res = spec_parse_expression(
                    old(self).tokens(),
                    old(self).cursor(),
                    precedence,
                );
                &&& (r is Some <==> res.0 is Some)
                &&& (r matches Some(e) ==> (res.0 matches Some(se) && e@ == se) && final(self).cursor() == res.1)
                &&& final(self).errs() == old(self).errs() + res.2
            }),
        decreases old(self).tokens().len() - old(self).cursor(),
    {
        let kind = self.current_token.kind;
        if kind == TokenKind::Identifier {
            let e = self.parse_identifier();
            proof {
                assert(self.errs() =~= old(self).errs() + Seq::<Seq<char>>::empty());
            }
            Some(e)
        } else if kind == TokenKind::Int {
            let r = self.parse_integer_literal();
            proof {
                let res = spec_parse_expression(
                    old(self).tokens(),
                    old(self).cursor(),
                    precedence,
                );
                assert(self.errs() =~= old(self).errs() + res.2);
            }
            r
        } else if kind == TokenKind::Bang || kind == TokenKind::Minus {
            let token = self.current_token.clone();
            let operator = self.current_token.literal.clone();
            self.next_token();
            let inner = self.parse_expression(Precedence::Prefix);
            match inner {
                Some(e) => Some(
                    Expression::Prefixed(
                        PrefixExpression { token, operator, right: Box::new(e) },
                    ),
                ),
                None => None,
            }
        } else {
            let msg = no_rule_error(self.current_token.kind);
            self.errors.push(msg);
            proof {
                let res = spec_parse_expression(
                    old(self).tokens(),
                    old(self).cursor(),
                    precedence,
                );
                assert(self.errs() =~= old(self).errs() + res.2);
            }
            None
        }
    }

    fn parse_expression_statement(&mut self) -> (r: Option<Statement>)
        requires
            old(self).wf(),
        ensures
            final(self).wf(),
            final(self).tokens() == old(self).tokens(),
            ({
                let res = spec_parse_expression_statement(old(self).tokens(), old(self).cursor());
                &&& (r is Some <==> res.0 is Some)
                &&& (r matches Some(st) ==> (res.0 matches Some(ss) && st@ == ss) && final(self).cursor() == res.1 && (st matches Statement::Expr(es) && es.token@
                    == token_or_eof(old(self).tokens(), old(self).cursor())))
                &&& final(self).errs() == old(self).errs() + res.2
            }),
    {
        let token = self.current_token.clone();
        match self.parse_expression(Precedence::Lowest) {
            Some(expression) => Some(Statement::Expr(ExpressionStatement { token, expression })),
            None => None,
        }
    }

    fn parse_expression_list(&mut self) -> (r: Option<Vec<Expression>>)
        requires
            old(self).wf(),
        ensures
            final(self).wf(),
            final(self).tokens() == old(self).tokens(),
            ({
                let res = spec_parse_expression_list(old(self).tokens(), old(self).cursor());
                &&& (r is Some <==> res.0 is Some)
                &&& (r matches Some(v) ==> (res.0 matches Some(cs) && exprs_view(v@) == cs)
                    && final(self).cursor() == res.1 && final(self).errors == old(self).errors)
                &&& final(self).errs() == old(self).errs() + res.2
            }),
    {
        let ghost ts = old(self).tokens();
        let ghost i0 = old(self).cursor();
        let mut expressions: Vec<Expression> = Vec::new();
        if !self.expect_peek(TokenKind::Identifier) {
            proof {
                let res = spec_parse_expression_list(ts, i0);
                assert(self.errs() =~= old(self).errs() + res.2);
            }
            return None;
        }
        let identifier = self.parse_identifier();
        expressions.push(identifier);
        proof {
            assert(exprs_view(expressions@) =~= seq![
                SpecExpr::Ident(token_or_eof(ts, i0 + 1).literal),
            ]);
        }
        while self.peek_token_is(TokenKind::Comma)
            invariant
                ts == old(self).tokens(),
                i0 == old(self).cursor(),
                self.wf(),
                self.tokens() == ts,
                self.errors == old(self).errors,
                spec_more_columns(ts, self.cursor(), exprs_view(expressions@))
                    == spec_parse_expression_list(ts, i0),
            decreases ts.len() - self.cursor(),
        {
            let ghost p = self.cursor();
            let ghost acc = exprs_view(expressions@);
            self.next_token();
            if !self.expect_peek(TokenKind::Identifier) {
                proof {
                    let res = spec_parse_expression_list(ts, i0);
                    assert(self.errs() =~= old(self).errs() + res.2);
                }
                return None;
            }
            let e = self.parse_identifier();
            expressions.push(e);
            proof {
                assert(exprs_view(expressions@) =~= acc.push(
                    SpecExpr::Ident(token_or_eof(ts, p + 2).literal),
                ));
            }
        }
        proof {
            let res = spec_parse_expression_list(ts, i0);
            assert(res.0 == Some(exprs_view(expressions@)));
            assert(self.errs() =~= old(self).errs() + res.2);
        }
        Some(expressions)
    }

    fn parse_table_name(&mut self) -> (r: Option<Expression>)
        requires
            old(self).wf(),
        ensures
            final(self).wf(),
            final(self).tokens() == old(self).tokens(),
            ({
                let peeked = token_or_eof(old(self).tokens(), old(self).cursor() + 1);
                &&& (r is Some <==> peeked.kind == TokenKind::Identifier)
                &&& (r matches Some(e) ==> e@ == SpecExpr::Ident(peeked.literal) && final(self).cursor() == old(self).cursor() + 1 && final(self).errors == old(self).errors)
                &&& (r is None ==> final(self).cursor() == old(self).cursor() && final(self).errs() == old(self).errs().push(
                    expect_msg(TokenKind::Identifier, peeked.kind),
                ))
            }),
    {
        if !self.expect_peek(TokenKind::Identifier) {
            return None;
        }
        Some(self.parse_identifier())
    }

    fn parse_select_statement(&mut self) -> (r: Option<Statement>)
        requires
            old(self).wf(),
        ensures
            final(self).wf(),
            final(self).tokens() == old(self).tokens(),
            ({
                let res = spec_parse_select(old(self).tokens(), old(self).cursor());
                &&& (r is Some <==> res.0 is Some)
                &&& (r matches Some(st) ==> (res.0 matches Some(ss) && st@ == ss) && final(self).cursor() == res.1 && (st matches Statement::Select(sel) && sel.token@
                    == token_or_eof(old(self).tokens(), old(self).cursor())))
                &&& final(self).errs() == old(self).errs() + res.2
            }),
    {
        let ghost ts = old(self).tokens();
        let ghost i0 = old(self).cursor();
        let token = self.current_token.clone();
        let expressions = match self.parse_expression_list() {
            Some(es) => es,
            None => {
                return None;
            },
        };
        if !self.expect_peek(TokenKind::From) {
            proof {
                let res = spec_parse_select(ts, i0);
                assert(self.errs() =~= old(self).errs() + res.2);
            }
            return None;
        }
        let table_name = match self.parse_table_name() {
            Some(t) => t,
            None => {
                proof {
                    let res = spec_parse_select(ts, i0);
                    assert(self.errs() =~= old(self).errs() + res.2);
                }
                return None;
            },
        };
        Some(Statement::Select(SelectStatement::new(token, table_name, expressions)))
    }

    /// Parses one whole statement: the SELECT rule when the current token
    /// is the SELECT keyword, the generic expression-statement rule for
    /// everything else. Returns nothing and appends a descriptive message
    /// to `errors` on any mismatch; after a failure the parser's position
    /// is unspecified and it should not be reused without a fresh start.
    pub fn parse_statement(&mut self) -> (r: Option<Statement>)
        requires
            old(self).wf(),
        ensures
            final(self).wf(),
            final(self).tokens() == old(self).tokens(),
            ({
                let res = spec_parse_statement(old(self).tokens(), old(self).cursor());
                &&& (r is Some <==> res.0 is Some)
                &&& (r matches Some(st) ==> (res.0 matches Some(ss) && st@ == ss) && final(self).cursor() == res.1)
                &&& final(self).errs() == old(self).errs() + res.2
            }),
            r matches Some(Statement::Select(sel)) ==> sel.token@ == token_or_eof(
                old(self).tokens(),
                old(self).cursor(),
            ),
            r matches Some(Statement::Expr(es)) ==> es.token@ == token_or_eof(
                old(self).tokens(),
                old(self).cursor(),
            ),
    {
        if self.current_token_is(TokenKind::Select) {
            self.parse_select_statement()
        } else {
            self.parse_expression_statement()
        }
    }
}

} // verus!
