//! The tokenizer: scans raw input text into a forward-only sequence of
//! typed tokens. `tokens_from` is the mathematical model of the scan; the
//! `Lexer` type produces exactly that sequence, one token per call.

use vstd::prelude::*;
use vstd::string::StrSliceExecFns;
use vstd::string::StringExecFns;

verus! {

/// The closed set of token kinds the tokenizer can emit.
#[derive(Copy, Clone, Debug, PartialEq, Eq, Hash, Structural)]
pub enum TokenKind {
    Illegal,
    Eof,
    Identifier,
    Int,
    Equals,
    NotEq,
    Plus,
    Minus,
    Bang,
    Asterisk,
    Slash,
    Lt,
    Gt,
    Comma,
    Semicolon,
    LParen,
    RParen,
    LBrace,
    RBrace,
    Select,
    Update,
    Insert,
    Delete,
    From,
    Table,
    Where,
    Values,
    Into,
}

/// One lexical unit: a kind plus the literal text it was scanned from.
#[derive(Debug)]
pub struct Token {
    pub kind: TokenKind,
    pub literal: String,
}

/// The mathematical image of a `Token`: its kind and literal characters.
pub struct SpecToken {
    pub kind: TokenKind,
    pub literal: Seq<char>,
}

impl View for Token {
    type V = SpecToken;

    open spec fn view(&self) -> SpecToken {
        SpecToken { kind: self.kind, literal: self.literal@ }
    }
}

impl Clone for Token {
    fn clone(&self) -> (r: Self)
        ensures
            r == *self,
    {
        Token { kind: self.kind, literal: self.literal.clone() }
    }
}

/// Whitespace characters skipped between tokens.
pub open spec fn is_ws_char(c: char) -> bool {
    c == ' ' || c == '\t' || c == '\n' || c == '\r' || c == '\u{b}' || c == '\u{c}'
}

/// Letters, which may begin an identifier or keyword.
pub open spec fn is_letter_char(c: char) -> bool {
    ('a' <= c && c <= 'z') || ('A' <= c && c <= 'Z')
}

/// Decimal digits.
pub open spec fn is_digit_char(c: char) -> bool {
    '0' <= c && c <= '9'
}

/// Characters that may continue an identifier run.
pub open spec fn is_word_char(c: char) -> bool {
    is_letter_char(c) || is_digit_char(c)
}

/// Upper-case image of a single character (letters only; all else fixed).
pub open spec fn upper_char(c: char) -> char {
    if 'a' <= c && c <= 'z' {
        ((c as u32) - 32) as char
    } else {
        c
    }
}

/// Upper-case image of a character sequence.
pub open spec fn upper(s: Seq<char>) -> Seq<char> {
    s.map(|i: int, c: char| upper_char(c))
}

fn ws_char(c: char) -> (r: bool)
    ensures
        r == is_ws_char(c),
{
    c == ' ' || c == '\t' || c == '\n' || c == '\r' || c == '\u{b}' || c == '\u{c}'
}

fn letter_char(c: char) -> (r: bool)
    ensures
        r == is_letter_char(c),
{
    ('a' <= c && c <= 'z') || ('A' <= c && c <= 'Z')
}

pub(crate) fn digit_char(c: char) -> (r: bool)
    ensures
        r == is_digit_char(c),
{
    '0' <= c && c <= '9'
}

fn word_char(c: char) -> (r: bool)
    ensures
        r == is_word_char(c),
{
    letter_char(c) || digit_char(c)
}

fn to_upper_char(c: char) -> (r: char)
    ensures
        r == upper_char(c),
{
    if 'a' <= c && c <= 'z' {
        (((c as u32) - 32) as u8) as char
    } else {
        c
    }
}

/// The keyword kind whose canonical spelling is `up`, if any; `Identifier`
/// for every other word. `up` is compared as already upper-cased text.
pub open spec fn kw_kind(up: Seq<char>) -> TokenKind {
    if up == "SELECT"@ {
        TokenKind::Select
    } else if up == "INSERT"@ {
        TokenKind::Insert
    } else if up == "UPDATE"@ {
        TokenKind::Update
    } else if up == "DELETE"@ {
        TokenKind::Delete
    } else if up == "FROM"@ {
        TokenKind::From
    } else if up == "TABLE"@ {
        TokenKind::Table
    } else if up == "WHERE"@ {
        TokenKind::Where
    } else if up == "VALUES"@ {
        TokenKind::Values
    } else if up == "INTO"@ {
        TokenKind::Into
    } else {
        TokenKind::Identifier
    }
}

/// True when the characters `v[start..end]`, upper-cased, spell `kw`.
fn upper_matches(v: &Vec<char>, start: usize, end: usize, kw: &str) -> (b: bool)
    requires
        start <= end <= v@.len(),
    ensures
        b == (upper(v@.subrange(start as int, end as int)) == kw@),
{
    let ghost word = upper(v@.subrange(start as int, end as int));
    let n = kw.unicode_len();
    if end - start != n {
        assert(word.len() != kw@.len());
        return false;
    }
    let mut i: usize = 0;
    while i < n
        invariant
            start <= end <= v@.len(),
            end - start == n,
            n == kw@.len(),
            i <= n,
            word == upper(v@.subrange(start as int, end as int)),
            forall|j: int| 0 <= j < i ==> word[j] == kw@[j],
        decreases n - i,
    {
        if to_upper_char(v[start + i]) != kw.get_char(i) {
            assert(word[i as int] != kw@[i as int]);
            return false;
        }
        assert(word[i as int] == kw@[i as int]);
        i += 1;
    }
    proof {
        assert(word =~= kw@);
    }
    true
}

fn kw_from_chars(v: &Vec<char>, start: usize, end: usize) -> (k: TokenKind)
    requires
        start <= end <= v@.len(),
    ensures
        k == kw_kind(upper(v@.subrange(start as int, end as int))),
{
    if upper_matches(v, start, end, "SELECT") {
        TokenKind::Select
    } else if upper_matches(v, start, end, "INSERT") {
        TokenKind::Insert
    } else if upper_matches(v, start, end, "UPDATE") {
        TokenKind::Update
    } else if upper_matches(v, start, end, "DELETE") {
        TokenKind::Delete
    } else if upper_matches(v, start, end, "FROM") {
        TokenKind::From
    } else if upper_matches(v, start, end, "TABLE") {
        TokenKind::Table
    } else if upper_matches(v, start, end, "WHERE") {
        TokenKind::Where
    } else if upper_matches(v, start, end, "VALUES") {
        TokenKind::Values
    } else if upper_matches(v, start, end, "INTO") {
        TokenKind::Into
    } else {
        TokenKind::Identifier
    }
}

/// Looks a word up case-insensitively against the fixed keyword set.
pub fn lookup_identifier(s: &str) -> (k: TokenKind)
    ensures
        k == kw_kind(upper(s@)),
{
    let n = s.unicode_len();
    let mut v: Vec<char> = Vec::new();
    let mut i: usize = 0;
    while i < n
        invariant
            i <= n,
            n == s@.len(),
            v@ == s@.subrange(0, i as int),
        decreases n - i,
    {
        v.push(s.get_char(i));
        assert(v@ =~= s@.subrange(0, i + 1));
        i += 1;
    }
    proof {
        assert(v@ =~= s@);
    }
    let k = kw_from_chars(&v, 0, v.len());
    proof {
        assert(v@.subrange(0, v@.len() as int) =~= s@);
    }
    k
}

/// First position at or after `i` holding a non-whitespace character.
pub open spec fn skip_ws(s: Seq<char>, i: int) -> int
    decreases s.len() - i,
        when 0 <= i <= s.len()
{
    if i == s.len() {
        i
    } else if is_ws_char(s[i]) {
        skip_ws(s, i + 1)
    } else {
        i
    }
}

/// First position at or after `i` holding a non-word character.
pub open spec fn word_end(s: Seq<char>, i: int) -> int
    decreases s.len() - i,
        when 0 <= i <= s.len()
{
    if i == s.len() {
        i
    } else if is_word_char(s[i]) {
        word_end(s, i + 1)
    } else {
        i
    }
}

/// First position at or after `i` holding a non-digit character.
pub open spec fn number_end(s: Seq<char>, i: int) -> int
    decreases s.len() - i,
        when 0 <= i <= s.len()
{
    if i == s.len() {
        i
    } else if is_digit_char(s[i]) {
        number_end(s, i + 1)
    } else {
        i
    }
}

pub proof fn lemma_skip_ws(s: Seq<char>, i: int)
    requires
        0 <= i <= s.len(),
    ensures
        i <= skip_ws(s, i) <= s.len(),
        skip_ws(s, i) < s.len() ==> !is_ws_char(s[skip_ws(s, i)]),
        skip_ws(s, skip_ws(s, i)) == skip_ws(s, i),
    decreases s.len() - i,
{
    if i < s.len() && is_ws_char(s[i]) {
        lemma_skip_ws(s, i + 1);
    }
}

pub proof fn lemma_word_end(s: Seq<char>, i: int)
    requires
        0 <= i <= s.len(),
    ensures
        i <= word_end(s, i) <= s.len(),
        i < s.len() && is_word_char(s[i]) ==> word_end(s, i) > i,
    decreases s.len() - i,
{
    if i < s.len() && is_word_char(s[i]) {
        lemma_word_end(s, i + 1);
    }
}

pub proof fn lemma_number_end(s: Seq<char>, i: int)
    requires
        0 <= i <= s.len(),
    ensures
        i <= number_end(s, i) <= s.len(),
        i < s.len() && is_digit_char(s[i]) ==> number_end(s, i) > i,
    decreases s.len() - i,
{
    if i < s.len() && is_digit_char(s[i]) {
        lemma_number_end(s, i + 1);
    }
}

/// The stable token returned once the input is exhausted.
pub open spec fn eof_token() -> SpecToken {
    SpecToken { kind: TokenKind::Eof, literal: "\0"@ }
}

/// True when position `j` is past the scannable text: past the end, or at
/// the sentinel null character, which ends the scan like exhaustion does.
pub open spec fn at_end(s: Seq<char>, j: int) -> bool {
    j >= s.len() || s[j] == '\0'
}

/// The token scanned at non-whitespace position `j`, with the position
/// just past it. Only meaningful when `0 <= j < s.len()` and not `at_end`.
pub open spec fn scan_at(s: Seq<char>, j: int) -> (SpecToken, int) {
    let c = s[j];
    if c == '=' {
        (SpecToken { kind: TokenKind::Equals, literal: "="@ }, j + 1)
    } else if c == ';' {
        (SpecToken { kind: TokenKind::Semicolon, literal: ";"@ }, j + 1)
    } else if c == ',' {
        (SpecToken { kind: TokenKind::Comma, literal: ","@ }, j + 1)
    } else if c == '(' {
        (SpecToken { kind: TokenKind::LParen, literal: "("@ }, j + 1)
    } else if c == ')' {
        (SpecToken { kind: TokenKind::RParen, literal: ")"@ }, j + 1)
    } else if c == '{' {
        (SpecToken { kind: TokenKind::LBrace, literal: "{"@ }, j + 1)
    } else if c == '}' {
        (SpecToken { kind: TokenKind::RBrace, literal: "}"@ }, j + 1)
    } else if c == '+' {
        (SpecToken { kind: TokenKind::Plus, literal: "+"@ }, j + 1)
    } else if c == '-' {
        (SpecToken { kind: TokenKind::Minus, literal: "-"@ }, j + 1)
    } else if c == '!' {
        if j + 1 < s.len() && s[j + 1] == '=' {
            (SpecToken { kind: TokenKind::NotEq, literal: "!="@ }, j + 2)
        } else {
            (SpecToken { kind: TokenKind::Bang, literal: "!"@ }, j + 1)
        }
    } else if c == '*' {
        (SpecToken { kind: TokenKind::Asterisk, literal: "*"@ }, j + 1)
    } else if c == '/' {
        (SpecToken { kind: TokenKind::Slash, literal: "/"@ }, j + 1)
    } else if c == '<' {
        (SpecToken { kind: TokenKind::Lt, literal: "<"@ }, j + 1)
    } else if c == '>' {
        (SpecToken { kind: TokenKind::Gt, literal: ">"@ }, j + 1)
    } else if is_letter_char(c) {
        let e = word_end(s, j);
        let word = s.subrange(j, e);
        let k = kw_kind(upper(word));
        (
            SpecToken {
                kind: k,
                literal: if k == TokenKind::Identifier {
                    word
                } else {
                    upper(word)
                },
            },
            e,
        )
    } else if is_digit_char(c) {
        (SpecToken { kind: TokenKind::Int, literal: s.subrange(j, number_end(s, j)) }, number_end(s, j))
    } else {
        (SpecToken { kind: TokenKind::Illegal, literal: ""@ }, j + 1)
    }
}

/// The whole token sequence scanned from position `i` on, ending with the
/// single end-of-input token.
pub open spec fn tokens_from(s: Seq<char>, i: int) -> Seq<SpecToken>
    decreases s.len() - i,
        when 0 <= i <= s.len()
{
    let j = skip_ws(s, i);
    if at_end(s, j) {
        seq![eof_token()]
    } else {
        proof {
            lemma_skip_ws(s, i);
            lemma_word_end(s, j);
            lemma_number_end(s, j);
        }
        seq![scan_at(s, j).0] + tokens_from(s, scan_at(s, j).1)
    }
}

/// The token sequence of a whole input text.
pub open spec fn spec_tokens(s: Seq<char>) -> Seq<SpecToken> {
    tokens_from(s, 0)
}

/// Reading a token stream past its end yields the end-of-input token,
/// mirroring the tokenizer's stable behaviour at exhaustion.
pub open spec fn token_or_eof(ts: Seq<SpecToken>, i: int) -> SpecToken {
    if 0 <= i < ts.len() {
        ts[i]
    } else {
        eof_token()
    }
}

/// Tokenization is deterministic: the token sequence is a pure function of
/// the input text alone, so any two scans of the same text agree, whatever
/// instance produced them and in whatever order the calls were made.
pub proof fn lemma_tokens_deterministic(s: Seq<char>, t1: Seq<SpecToken>, t2: Seq<SpecToken>)
    requires
        t1 == spec_tokens(s),
        t2 == spec_tokens(s),
    ensures
        t1 == t2,
{
}

/// The end-of-input token closes every token sequence and appears there
/// exactly once, as its last element.
pub proof fn lemma_eof_exactly_once(s: Seq<char>, i: int)
    requires
        0 <= i <= s.len(),
    ensures
        tokens_from(s, i).len() >= 1,
        tokens_from(s, i).last() == eof_token(),
        forall|k: int|
            0 <= k < tokens_from(s, i).len() - 1 ==> (#[trigger] tokens_from(s, i)[k]).kind
                != TokenKind::Eof,
    decreases s.len() - i,
{
    let j = skip_ws(s, i);
    lemma_skip_ws(s, i);
    if !at_end(s, j) {
        lemma_word_end(s, j);
        lemma_number_end(s, j);
        lemma_eof_exactly_once(s, scan_at(s, j).1);
        let ts = tokens_from(s, i);
        let rest = tokens_from(s, scan_at(s, j).1);
        assert(ts == seq![scan_at(s, j).0] + rest);
        assert(scan_at(s, j).0.kind != TokenKind::Eof);
        assert(ts.last() == rest.last());
        assert forall|k: int| 0 <= k < ts.len() - 1 implies (#[trigger] ts[k]).kind
            != TokenKind::Eof by {
            if k >= 1 {
                assert(ts[k] == rest[k - 1]);
            }
        }
    }
}

/// Keyword tokens always carry their canonical upper-case spelling.
pub open spec fn keyword_literal_canonical(t: SpecToken) -> bool {
    &&& t.kind == TokenKind::Select ==> t.literal == "SELECT"@
    &&& t.kind == TokenKind::Insert ==> t.literal == "INSERT"@
    &&& t.kind == TokenKind::Update ==> t.literal == "UPDATE"@
    &&& t.kind == TokenKind::Delete ==> t.literal == "DELETE"@
    &&& t.kind == TokenKind::From ==> t.literal == "FROM"@
    &&& t.kind == TokenKind::Table ==> t.literal == "TABLE"@
    &&& t.kind == TokenKind::Where ==> t.literal == "WHERE"@
    &&& t.kind == TokenKind::Values ==> t.literal == "VALUES"@
    &&& t.kind == TokenKind::Into ==> t.literal == "INTO"@
}

/// Every token of a scanned sequence obeys the keyword-literal invariant:
/// a keyword is normalized to upper case however the input spelled it.
pub proof fn lemma_keyword_literals_canonical(s: Seq<char>, i: int)
    requires
        0 <= i <= s.len(),
    ensures
        forall|k: int|
            0 <= k < tokens_from(s, i).len() ==> keyword_literal_canonical(
                #[trigger] tokens_from(s, i)[k],
            ),
    decreases s.len() - i,
{
    let j = skip_ws(s, i);
    lemma_skip_ws(s, i);
    if !at_end(s, j) {
        lemma_word_end(s, j);
        lemma_number_end(s, j);
        lemma_keyword_literals_canonical(s, scan_at(s, j).1);
        let ts = tokens_from(s, i);
        let rest = tokens_from(s, scan_at(s, j).1);
        assert(ts == seq![scan_at(s, j).0] + rest);
        assert(keyword_literal_canonical(scan_at(s, j).0));
        assert forall|k: int| 0 <= k < ts.len() implies keyword_literal_canonical(
            #[trigger] ts[k],
        ) by {
            if k >= 1 {
                assert(ts[k] == rest[k - 1]);
            }
        }
    }
}

/// A forward-only cursor over one input text. Its view is the sequence of
/// tokens still to be produced, always ending with the end-of-input token.
pub struct Lexer {
    input: String,
    chars: Vec<char>,
    pos: usize,
}

impl View for Lexer {
    type V = Seq<SpecToken>;

    closed spec fn view(&self) -> Seq<SpecToken> {
        tokens_from(self.chars@, self.pos as int)
    }
}

impl Lexer {
    pub closed spec fn wf(&self) -> bool {
        &&& self.pos <= self.chars@.len()
        &&& self.input@ == self.chars@
    }

    pub fn new(input: &str) -> (l: Lexer)
        ensures
            l.wf(),
            l@ == spec_tokens(input@),
    {
        let n = input.unicode_len();
        let mut chars: Vec<char> = Vec::new();
        let mut i: usize = 0;
        while i < n
            invariant
                i <= n,
                n == input@.len(),
                chars@ == input@.subrange(0, i as int),
            decreases n - i,
        {
            chars.push(input.get_char(i));
            assert(chars@ =~= input@.subrange(0, i + 1));
            i += 1;
        }
        proof {
            assert(chars@ =~= input@);
        }
        Lexer { input: String::from_str(input), chars, pos: 0 }
    }

    fn eat_ws(&mut self)
        requires
            old(self).wf(),
        ensures
            final(self).wf(),
            final(self).chars == old(self).chars,
            final(self).input == old(self).input,
            final(self).pos as int == skip_ws(old(self).chars@, old(self).pos as int),
    {
        while self.pos < self.chars.len() && ws_char(self.chars[self.pos])
            invariant
                self.wf(),
                self.chars == old(self).chars,
                self.input == old(self).input,
                skip_ws(self.chars@, self.pos as int) == skip_ws(
                    old(self).chars@,
                    old(self).pos as int,
                ),
            decreases self.chars@.len() - self.pos,
        {
            self.pos += 1;
        }
    }

    fn read_identifier(&mut self) -> (lit: String)
        requires
            old(self).wf(),
            old(self).pos < old(self).chars@.len(),
            is_word_char(old(self).chars@[old(self).pos as int]),
        ensures
            final(self).wf(),
            final(self).chars == old(self).chars,
            final(self).input == old(self).input,
            final(self).pos as int == word_end(old(self).chars@, old(self).pos as int),
            lit@ == old(self).chars@.subrange(old(self).pos as int, final(self).pos as int),
    {
        let start = self.pos;
        while self.pos < self.chars.len() && word_char(self.chars[self.pos])
            invariant
                self.wf(),
                self.chars == old(self).chars,
                self.input == old(self).input,
                start <= self.pos,
                word_end(self.chars@, self.pos as int) == word_end(self.chars@, start as int),
            decreases self.chars@.len() - self.pos,
        {
            self.pos += 1;
        }
        let sub = self.input.as_str().substring_char(start, self.pos);
        String::from_str(sub)
    }

    fn read_number(&mut self) -> (lit: String)
        requires
            old(self).wf(),
            old(self).pos < old(self).chars@.len(),
            is_digit_char(old(self).chars@[old(self).pos as int]),
        ensures
            final(self).wf(),
            final(self).chars == old(self).chars,
            final(self).input == old(self).input,
            final(self).pos as int == number_end(old(self).chars@, old(self).pos as int),
            lit@ == old(self).chars@.subrange(old(self).pos as int, final(self).pos as int),
    {
        let start = self.pos;
        while self.pos < self.chars.len() && digit_char(self.chars[self.pos])
            invariant
                self.wf(),
                self.chars == old(self).chars,
                self.input == old(self).input,
                start <= self.pos,
                number_end(self.chars@, self.pos as int) == number_end(self.chars@, start as int),
            decreases self.chars@.len() - self.pos,
        {
            self.pos += 1;
        }
        let sub = self.input.as_str().substring_char(start, self.pos);
        String::from_str(sub)
    }

    /// Produces the next token and advances past it. Once the end of the
    /// input is reached, every further call returns the end-of-input token.
    pub fn next_token(&mut self) -> (t: Token)
        requires
            old(self).wf(),
        ensures
            final(self).wf(),
            t@ == token_or_eof(old(self)@, 0),
            forall|k: int|
                0 <= k ==> token_or_eof(final(self)@, k) == token_or_eof(old(self)@, k + 1),
    {
        proof {
            lemma_skip_ws(self.chars@, self.pos as int);
        }
        let ghost s = self.chars@;
        let ghost p0 = self.pos as int;
        self.eat_ws();
        let ghost j = self.pos as int;
        if self.pos >= self.chars.len() {
            let t = Token { kind: TokenKind::Eof, literal: String::from_str("\0") };
            proof {
                assert(old(self)@ == seq![eof_token()]);
                assert(self@ == seq![eof_token()]);
                assert(t@ == eof_token());
            }
            return t;
        }
        let c = self.chars[self.pos];
        if c == '\0' {
            let t = Token { kind: TokenKind::Eof, literal: String::from_str("\0") };
            proof {
                assert(old(self)@ == seq![eof_token()]);
                assert(self@ == seq![eof_token()]);
                assert(t@ == eof_token());
            }
            return t;
        }
        let t: Token;
        if c == '=' {
            self.pos += 1;
            t = Token { kind: TokenKind::Equals, literal: String::from_str("=") };
        } else if c == ';' {
            self.pos += 1;
            t = Token { kind: TokenKind::Semicolon, literal: String::from_str(";") };
        } else if c == ',' {
            self.pos += 1;
            t = Token { kind: TokenKind::Comma, literal: String::from_str(",") };
        } else if c == '(' {
            self.pos += 1;
            t = Token { kind: TokenKind::LParen, literal: String::from_str("(") };
        } else if c == ')' {
            self.pos += 1;
            t = Token { kind: TokenKind::RParen, literal: String::from_str(")") };
        } else if c == '{' {
            self.pos += 1;
            t = Token { kind: TokenKind::LBrace, literal: String::from_str("{") };
        } else if c == '}' {
            self.pos += 1;
            t = Token { kind: TokenKind::RBrace, literal: String::from_str("}") };
        } else if c == '+' {
            self.pos += 1;
            t = Token { kind: TokenKind::Plus, literal: String::from_str("+") };
        } else if c == '-' {
            self.pos += 1;
            t = Token { kind: TokenKind::Minus, literal: String::from_str("-") };
        } else if c == '!' {
            if self.pos + 1 < self.chars.len() && self.chars[self.pos + 1] == '=' {
                self.pos += 2;
                t = Token { kind: TokenKind::NotEq, literal: String::from_str("!=") };
            } else {
                self.pos += 1;
                t = Token { kind: TokenKind::Bang, literal: String::from_str("!") };
            }
        } else if c == '*' {
            self.pos += 1;
            t = Token { kind: TokenKind::Asterisk, literal: String::from_str("*") };
        } else if c == '/' {
            self.pos += 1;
            t = Token { kind: TokenKind::Slash, literal: String::from_str("/") };
        } else if c == '<' {
            self.pos += 1;
            t = Token { kind: TokenKind::Lt, literal: String::from_str("<") };
        } else if c == '>' {
            self.pos += 1;
            t = Token { kind: TokenKind::Gt, literal: String::from_str(">") };
        } else if letter_char(c) {
            let start = self.pos;
            let lit = self.read_identifier();
            proof {
                lemma_word_end(s, start as int);
            }
            let k = kw_from_chars(&self.chars, start, self.pos);
            let literal = match k {
                TokenKind::Select => String::from_str("SELECT"),
                TokenKind::Insert => String::from_str("INSERT"),
                TokenKind::Update => String::from_str("UPDATE"),
                TokenKind::Delete => String::from_str("DELETE"),
                TokenKind::From => String::from_str("FROM"),
                TokenKind::Table => String::from_str("TABLE"),
                TokenKind::Where => String::from_str("WHERE"),
                TokenKind::Values => String::from_str("VALUES"),
                TokenKind::Into => String::from_str("INTO"),
                _ => lit,
            };
            t = Token { kind: k, literal };
        } else if digit_char(c) {
            let lit = self.read_number();
            t = Token { kind: TokenKind::Int, literal: lit };
        } else {
            self.pos += 1;
            t = Token { kind: TokenKind::Illegal, literal: String::from_str("") };
        }
        proof {
            assert(!at_end(s, j));
            assert(t@ == scan_at(s, j).0);
            assert(self.pos as int == scan_at(s, j).1);
            assert(old(self)@ == seq![t@] + self@);
            assert forall|k: int| 0 <= k implies token_or_eof(self@, k) == token_or_eof(
                old(self)@,
                k + 1,
            ) by {
                if k + 1 < old(self)@.len() {
                    assert(old(self)@[k + 1] == self@[k]);
                }
            }
            assert(t@ == token_or_eof(old(self)@, 0));
        }
        t
    }
}

} // verus!
