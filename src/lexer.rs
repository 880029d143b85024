use vstd::prelude::*;
use vstd::string::*;
use vstd::std_specs::iter::*;
use crate::error::{Diagnostic, Error};

verus! {

/// The kind of a token, with the payload of literals.
#[derive(Debug, Clone, PartialEq)]
pub enum TokenKind {
    Plus,
    Minus,
    Asterisk,
    Slash,
    Percent,
    Hat,
    LeftParen,
    RightParen,
    Exclamation,
    Equals,
    NotEquals,
    Greater,
    Less,
    GreaterEq,
    LessEq,
    /// A numeric literal, as the bit pattern of its binary64 value.
    Number(u64),
    /// A string literal's characters, between the quotes.
    String(String),
    True,
    False,
    Nil,
    Not,
    EOI,
    Comment,
}

/// A token kind as the lexer decides it: a number's value is left out, a string's text
/// is kept as characters.
pub ghost enum Lexeme {
    Plus,
    Minus,
    Asterisk,
    Slash,
    Percent,
    Hat,
    LeftParen,
    RightParen,
    Exclamation,
    Equals,
    NotEquals,
    Greater,
    Less,
    GreaterEq,
    LessEq,
    Number(u64),
    Text(Seq<char>),
    True,
    False,
    Nil,
    Not,
    EOI,
    Comment,
}

impl TokenKind {
    pub open spec fn lexeme(self) -> Lexeme {
        match self {
            TokenKind::Plus => Lexeme::Plus,
            TokenKind::Minus => Lexeme::Minus,
            TokenKind::Asterisk => Lexeme::Asterisk,
            TokenKind::Slash => Lexeme::Slash,
            TokenKind::Percent => Lexeme::Percent,
            TokenKind::Hat => Lexeme::Hat,
            TokenKind::LeftParen => Lexeme::LeftParen,
            TokenKind::RightParen => Lexeme::RightParen,
            TokenKind::Exclamation => Lexeme::Exclamation,
            TokenKind::Equals => Lexeme::Equals,
            TokenKind::NotEquals => Lexeme::NotEquals,
            TokenKind::Greater => Lexeme::Greater,
            TokenKind::Less => Lexeme::Less,
            TokenKind::GreaterEq => Lexeme::GreaterEq,
            TokenKind::LessEq => Lexeme::LessEq,
            TokenKind::Number(b) => Lexeme::Number(b),
            TokenKind::String(s) => Lexeme::Text(s@),
            TokenKind::True => Lexeme::True,
            TokenKind::False => Lexeme::False,
            TokenKind::Nil => Lexeme::Nil,
            TokenKind::Not => Lexeme::Not,
            TokenKind::EOI => Lexeme::EOI,
            TokenKind::Comment => Lexeme::Comment,
        }
    }
}

/// A token: its kind, the character offset where it starts, its length in characters,
/// and the line and column where it starts.
#[derive(Debug, Clone, PartialEq)]
pub struct Token {
    pub kind: TokenKind,
    pub start: usize,
    pub len: usize,
    pub line: usize,
    pub col: usize,
}

impl TokenKind {
    /// How diagnostics name a kind.
    pub open spec fn spec_name(self) -> Seq<char> {
        match self {
            TokenKind::Number(_) => "number"@,
            TokenKind::String(_) => "string"@,
            TokenKind::Comment => "comment"@,
            TokenKind::Plus => "'+'"@,
            TokenKind::Minus => "'-'"@,
            TokenKind::Asterisk => "'*'"@,
            TokenKind::Slash => "'/'"@,
            TokenKind::Percent => "'%'"@,
            TokenKind::Hat => "'^'"@,
            TokenKind::LeftParen => "'('"@,
            TokenKind::RightParen => "')'"@,
            TokenKind::Exclamation => "'!'"@,
            TokenKind::Greater => "'>'"@,
            TokenKind::Less => "'<'"@,
            TokenKind::GreaterEq => "'>='"@,
            TokenKind::LessEq => "'<='"@,
            TokenKind::Equals => "'=='"@,
            TokenKind::NotEquals => "'!='"@,
            TokenKind::True => "'true'"@,
            TokenKind::False => "'false'"@,
            TokenKind::Nil => "'nil'"@,
            TokenKind::Not => "'not'"@,
            TokenKind::EOI => "end of input"@,
        }
    }

    /// How diagnostics name the kind.
    pub fn name(&self) -> (r: &'static str)
        ensures
            r@ == self.spec_name(),
    {
        match self {
            TokenKind::Number(_) => "number",
            TokenKind::String(_) => "string",
            TokenKind::Comment => "comment",
            TokenKind::Plus => "'+'",
            TokenKind::Minus => "'-'",
            TokenKind::Asterisk => "'*'",
            TokenKind::Slash => "'/'",
            TokenKind::Percent => "'%'",
            TokenKind::Hat => "'^'",
            TokenKind::LeftParen => "'('",
            TokenKind::RightParen => "')'",
            TokenKind::Exclamation => "'!'",
            TokenKind::Greater => "'>'",
            TokenKind::Less => "'<'",
            TokenKind::GreaterEq => "'>='",
            TokenKind::LessEq => "'<='",
            TokenKind::Equals => "'=='",
            TokenKind::NotEquals => "'!='",
            TokenKind::True => "'true'",
            TokenKind::False => "'false'",
            TokenKind::Nil => "'nil'",
            TokenKind::Not => "'not'",
            TokenKind::EOI => "end of input",
        }
    }

    pub(crate) fn duplicate(&self) -> (r: TokenKind)
        ensures
            r == *self,
    {
        match self {
            TokenKind::Plus => TokenKind::Plus,
            TokenKind::Minus => TokenKind::Minus,
            TokenKind::Asterisk => TokenKind::Asterisk,
            TokenKind::Slash => TokenKind::Slash,
            TokenKind::Percent => TokenKind::Percent,
            TokenKind::Hat => TokenKind::Hat,
            TokenKind::LeftParen => TokenKind::LeftParen,
            TokenKind::RightParen => TokenKind::RightParen,
            TokenKind::Exclamation => TokenKind::Exclamation,
            TokenKind::Equals => TokenKind::Equals,
            TokenKind::NotEquals => TokenKind::NotEquals,
            TokenKind::Greater => TokenKind::Greater,
            TokenKind::Less => TokenKind::Less,
            TokenKind::GreaterEq => TokenKind::GreaterEq,
            TokenKind::LessEq => TokenKind::LessEq,
            TokenKind::Number(b) => TokenKind::Number(*b),
            TokenKind::String(s) => TokenKind::String(s.clone()),
            TokenKind::True => TokenKind::True,
            TokenKind::False => TokenKind::False,
            TokenKind::Nil => TokenKind::Nil,
            TokenKind::Not => TokenKind::Not,
            TokenKind::EOI => TokenKind::EOI,
            TokenKind::Comment => TokenKind::Comment,
        }
    }
}

impl Token {
    pub(crate) fn duplicate(&self) -> (r: Token)
        ensures
            r == *self,
    {
        Token {
            kind: self.kind.duplicate(),
            start: self.start,
            len: self.len,
            line: self.line,
            col: self.col,
        }
    }
}

pub ghost struct TokenView {
    pub lexeme: Lexeme,
    pub start: int,
    pub len: int,
    pub line: int,
    pub col: int,
}

impl View for Token {
    type V = TokenView;

    open spec fn view(&self) -> TokenView {
        TokenView {
            lexeme: self.kind.lexeme(),
            start: self.start as int,
            len: self.len as int,
            line: self.line as int,
            col: self.col as int,
        }
    }
}

/// The views of a sequence of tokens.
pub open spec fn views_of(tokens: Seq<Token>) -> Seq<TokenView> {
    tokens.map_values(|t: Token| t@)
}

/// Where the scan stands: the character offset, and the line and column there.
pub ghost struct Cursor {
    pub ptr: int,
    pub line: int,
    pub col: int,
}

pub open spec fn is_digit(c: char) -> bool {
    '0' <= c && c <= '9'
}

pub open spec fn is_lower(c: char) -> bool {
    'a' <= c && c <= 'z'
}

/// The end of the run of digits that starts at `i`.
pub open spec fn digits_end(s: Seq<char>, i: int) -> int
    decreases s.len() - i,
{
    if 0 <= i < s.len() && is_digit(s[i]) {
        digits_end(s, i + 1)
    } else {
        i
    }
}

proof fn lemma_digits_end_bounds(s: Seq<char>, i: int)
    requires
        0 <= i <= s.len(),
    ensures
        i <= digits_end(s, i) <= s.len(),
    decreases s.len() - i,
{
    if i < s.len() && is_digit(s[i]) {
        lemma_digits_end_bounds(s, i + 1);
    }
}

/// The end of the run of lower-case letters that starts at `i`.
pub open spec fn lower_end(s: Seq<char>, i: int) -> int
    decreases s.len() - i,
{
    if 0 <= i < s.len() && is_lower(s[i]) {
        lower_end(s, i + 1)
    } else {
        i
    }
}

/// The first newline at or after `i`, or the end of the input.
pub open spec fn line_end(s: Seq<char>, i: int) -> int
    decreases s.len() - i,
{
    if 0 <= i < s.len() && s[i] != '\n' {
        line_end(s, i + 1)
    } else {
        i
    }
}

/// The first `*/` at or after `i`, by the offset of its `*`.
pub open spec fn block_close(s: Seq<char>, i: int) -> Option<int>
    decreases s.len() - i,
{
    if i < 0 || i + 1 >= s.len() {
        None
    } else if s[i] == '*' && s[i + 1] == '/' {
        Some(i)
    } else {
        block_close(s, i + 1)
    }
}

/// The first quote at or after `i` that no backslash precedes.
pub open spec fn string_close(s: Seq<char>, i: int) -> Option<int>
    decreases s.len() - i,
{
    if i < 1 || i >= s.len() {
        None
    } else if s[i] == '"' && s[i - 1] != '\\' {
        Some(i)
    } else {
        string_close(s, i + 1)
    }
}

/// Line and column after stepping over `s[from..to]` from `(line, col)`. After a newline
/// the next character stands in column 2.
pub open spec fn walk(s: Seq<char>, from: int, to: int, line: int, col: int) -> (int, int)
    decreases to - from,
{
    if to <= from {
        (line, col)
    } else {
        let lc = walk(s, from, to - 1, line, col);
        if s[to - 1] == '\n' {
            (lc.0 + 1, 2)
        } else {
            (lc.0, lc.1 + 1)
        }
    }
}

/// The keyword spelt by `s[p..e]`, if any.
pub open spec fn keyword(s: Seq<char>, p: int, e: int) -> Option<Lexeme> {
    if e - p == 4 && s[p] == 't' && s[p + 1] == 'r' && s[p + 2] == 'u' && s[p + 3] == 'e' {
        Some(Lexeme::True)
    } else if e - p == 5 && s[p] == 'f' && s[p + 1] == 'a' && s[p + 2] == 'l' && s[p + 3]
        == 's' && s[p + 4] == 'e' {
        Some(Lexeme::False)
    } else if e - p == 3 && s[p] == 'n' && s[p + 1] == 'i' && s[p + 2] == 'l' {
        Some(Lexeme::Nil)
    } else if e - p == 3 && s[p] == 'n' && s[p + 1] == 'o' && s[p + 2] == 't' {
        Some(Lexeme::Not)
    } else {
        None
    }
}

pub open spec fn token_at(lexeme: Lexeme, start: int, len: int, c: Cursor) -> TokenView {
    TokenView { lexeme, start, len, line: c.line, col: c.col }
}

/// One step of the scan at `c`, which stands on a character: the cursor after it and the
/// token it makes, if any.
pub open spec fn scan_step(s: Seq<char>, c: Cursor, num: spec_fn(Seq<char>) -> u64) -> Result<(Cursor, Option<TokenView>), Diagnostic> {
    let p = c.ptr;
    let ch = s[p];
    let eq_next = p + 1 < s.len() && s[p + 1] == '=';
    let one = Cursor { ptr: p + 1, line: c.line, col: c.col + 1 };
    let two = Cursor { ptr: p + 2, line: c.line, col: c.col + 2 };
    if ch == '+' {
        Ok((one, Some(token_at(Lexeme::Plus, p, 1, c))))
    } else if ch == '-' {
        Ok((one, Some(token_at(Lexeme::Minus, p, 1, c))))
    } else if ch == '*' {
        Ok((one, Some(token_at(Lexeme::Asterisk, p, 1, c))))
    } else if ch == '%' {
        Ok((one, Some(token_at(Lexeme::Percent, p, 1, c))))
    } else if ch == '^' {
        Ok((one, Some(token_at(Lexeme::Hat, p, 1, c))))
    } else if ch == '(' {
        Ok((one, Some(token_at(Lexeme::LeftParen, p, 1, c))))
    } else if ch == ')' {
        Ok((one, Some(token_at(Lexeme::RightParen, p, 1, c))))
    } else if ch == '=' {
        if eq_next {
            Ok((two, Some(token_at(Lexeme::Equals, p, 2, c))))
        } else {
            Err(Diagnostic::UnexpectedCharacter(ch, c.line, c.col, 1))
        }
    } else if ch == '>' {
        if eq_next {
            Ok((two, Some(token_at(Lexeme::GreaterEq, p, 2, c))))
        } else {
            Ok((one, Some(token_at(Lexeme::Greater, p, 1, c))))
        }
    } else if ch == '<' {
        if eq_next {
            Ok((two, Some(token_at(Lexeme::LessEq, p, 2, c))))
        } else {
            Ok((one, Some(token_at(Lexeme::Less, p, 1, c))))
        }
    } else if ch == '!' {
        if eq_next {
            Ok((two, Some(token_at(Lexeme::NotEquals, p, 2, c))))
        } else {
            Ok((one, Some(token_at(Lexeme::Exclamation, p, 1, c))))
        }
    } else if ch == '/' {
        if p + 1 < s.len() && s[p + 1] == '/' {
            // A line comment runs to the newline, which the scan then steps over.
            let e = line_end(s, p + 2);
            let tok = token_at(Lexeme::Comment, p, e - p, c);
            if e < s.len() {
                Ok((Cursor { ptr: e + 1, line: c.line + 1, col: 2 }, Some(tok)))
            } else {
                Ok((Cursor { ptr: e + 1, line: c.line, col: c.col + (e - p) + 1 }, Some(tok)))
            }
        } else if p + 1 < s.len() && s[p + 1] == '*' {
            match block_close(s, p + 2) {
                None => Err(Diagnostic::UnexpectedEOI("Unterminated comment"@)),
                Some(k) => {
                    let lc = walk(s, p, k + 2, c.line, c.col);
                    Ok(
                        (
                            Cursor { ptr: k + 2, line: lc.0, col: lc.1 },
                            Some(token_at(Lexeme::Comment, p, k + 2 - p, c)),
                        ),
                    )
                },
            }
        } else {
            Ok((one, Some(token_at(Lexeme::Slash, p, 1, c))))
        }
    } else if is_lower(ch) {
        let e = lower_end(s, p);
        match keyword(s, p, e) {
            Some(k) => Ok(
                (Cursor { ptr: e, line: c.line, col: c.col + (e - p) }, Some(token_at(k, p, e - p, c))),
            ),
            None => Err(Diagnostic::UnexpectedCharacter(ch, c.line, c.col, 1)),
        }
    } else if is_digit(ch) {
        let e1 = digits_end(s, p);
        let e = if e1 < s.len() && s[e1] == '.' {
            digits_end(s, e1 + 1)
        } else {
            e1
        };
        Ok(
            (
                Cursor { ptr: e, line: c.line, col: c.col + (e - p) },
                Some(token_at(Lexeme::Number(num(s.subrange(p, e))), p, e - p, c)),
            ),
        )
    } else if ch == '"' {
        match string_close(s, p + 1) {
            None => Err(Diagnostic::UnexpectedEOI("Unterminated string"@)),
            Some(k) => {
                let lc = walk(s, p, k + 1, c.line, c.col);
                Ok(
                    (
                        Cursor { ptr: k + 1, line: lc.0, col: lc.1 },
                        Some(token_at(Lexeme::Text(s.subrange(p + 1, k)), p, k + 1 - p, c)),
                    ),
                )
            },
        }
    } else if ch == ' ' || ch == '\t' {
        Ok((one, None))
    } else if ch == '\n' {
        Ok((Cursor { ptr: p + 1, line: c.line + 1, col: 2 }, None))
    } else {
        Err(Diagnostic::UnexpectedCharacter(ch, c.line, c.col, 1))
    }
}

pub open spec fn optional(t: Option<TokenView>) -> Seq<TokenView> {
    match t {
        Some(x) => seq![x],
        None => seq![],
    }
}

/// The tokens of `s` from cursor `c` on, after those in `acc`; the end of input token
/// closes them.
pub open spec fn lex_from(s: Seq<char>, c: Cursor, acc: Seq<TokenView>, num: spec_fn(Seq<char>) -> u64) -> Result<Seq<TokenView>, Diagnostic>
    decreases s.len() + 2 - c.ptr,
{
    if c.ptr >= s.len() {
        Ok(acc.push(token_at(Lexeme::EOI, c.ptr, 0, c)))
    } else {
        match scan_step(s, c, num) {
            Err(e) => Err(e),
            Ok(r) => if c.ptr < r.0.ptr <= s.len() + 1 {
                lex_from(s, r.0, acc + optional(r.1), num)
            } else {
                Err(stalled())
            },
        }
    }
}

/// Never produced: a scan step always moves on (see `lemma_step_advances`).
pub open spec fn stalled() -> Diagnostic {
    Diagnostic::UnexpectedEOI(Seq::empty())
}

/// The tokens that the scan of `s` from `c` holds where it stops: those of `lex_from` on
/// success, and on an error those made before the failing step.
pub open spec fn scanned(s: Seq<char>, c: Cursor, acc: Seq<TokenView>, num: spec_fn(Seq<char>) -> u64) -> Seq<TokenView>
    decreases s.len() + 2 - c.ptr,
{
    if c.ptr >= s.len() {
        acc.push(token_at(Lexeme::EOI, c.ptr, 0, c))
    } else {
        match scan_step(s, c, num) {
            Err(_) => acc,
            Ok(r) => if c.ptr < r.0.ptr <= s.len() + 1 {
                scanned(s, r.0, acc + optional(r.1), num)
            } else {
                acc
            },
        }
    }
}

/// The token stream of a whole source text, where `num` gives the value of a numeral.
pub open spec fn lex(s: Seq<char>, num: spec_fn(Seq<char>) -> u64) -> Result<Seq<TokenView>, Diagnostic> {
    lex_from(s, Cursor { ptr: 0, line: 1, col: 1 }, seq![], num)
}

/// The numeral reader `read` is a function of the numeral's text, and `num` names it.
pub open spec fn reads_as<G: Fn(String) -> u64>(read: G, num: spec_fn(Seq<char>) -> u64) -> bool {
    forall|t: String, v: u64| read.ensures((t,), v) ==> v == num(t@)
}

proof fn lemma_lower_end_bounds(s: Seq<char>, i: int)
    requires
        0 <= i <= s.len(),
    ensures
        i <= lower_end(s, i) <= s.len(),
    decreases s.len() - i,
{
    if i < s.len() && is_lower(s[i]) {
        lemma_lower_end_bounds(s, i + 1);
    }
}

proof fn lemma_string_close(s: Seq<char>, i: int)
    requires
        1 <= i,
    ensures
        string_close(s, i) matches Some(k) ==> i <= k < s.len(),
    decreases s.len() - i,
{
    if i < s.len() && !(s[i] == '"' && s[i - 1] != '\\') {
        lemma_string_close(s, i + 1);
    }
}

/// Each step of the scan moves forward, at most one place past the end of the input, so
/// the scan never stalls.
pub proof fn lemma_step_advances(s: Seq<char>, c: Cursor, num: spec_fn(Seq<char>) -> u64)
    requires
        0 <= c.ptr < s.len(),
        scan_step(s, c, num) is Ok,
    ensures
        c.ptr < scan_step(s, c, num)->Ok_0.0.ptr <= s.len() + 1,
{
    let p = c.ptr;
    if p + 2 <= s.len() {
        lemma_line_end(s, p + 2);
    }
    lemma_block_close(s, p + 2);
    lemma_lower_end_bounds(s, p);
    lemma_digits_end_bounds(s, p);
    lemma_digits_end_bounds(s, p + 1);
    if digits_end(s, p) < s.len() {
        lemma_digits_end_bounds(s, digits_end(s, p) + 1);
    }
    lemma_string_close(s, p + 1);
}

/// A comment token's span holds its whole text and nothing more: `//` and the rest of
/// the line but the newline, or `/*` up to and with the first `*/`.
pub open spec fn comment_span(s: Seq<char>, t: TokenView) -> bool {
    let (a, b) = (t.start, t.start + t.len);
    &&& 0 <= a && a + 2 <= b <= s.len()
    &&& s[a] == '/'
    &&& {
        ||| s[a + 1] == '/' && (forall|j: int| a <= j < b ==> s[j] != '\n') && (b == s.len()
            || s[b] == '\n')
        ||| s[a + 1] == '*' && a + 4 <= b && s[b - 2] == '*' && s[b - 1] == '/' && (forall|j: int|
            a + 2 <= j < b - 2 ==> !(#[trigger] s[j] == '*' && s[j + 1] == '/'))
    }
}

/// What holds of every token stream: one end of input token closes it, and every comment
/// token spans its comment.
pub open spec fn well_shaped(s: Seq<char>, ts: Seq<TokenView>) -> bool {
    &&& ts.len() > 0
    &&& ts.last().lexeme is EOI
    &&& forall|i: int| 0 <= i < ts.len() - 1 ==> !(#[trigger] ts[i].lexeme is EOI)
    &&& forall|i: int| 0 <= i < ts.len() && #[trigger] ts[i].lexeme is Comment ==> comment_span(s, ts[i])
}

/// A token the scan makes before the end: never the end of input token, and a comment
/// spans its comment.
pub open spec fn token_ok(s: Seq<char>, t: TokenView) -> bool {
    !(t.lexeme is EOI) && (t.lexeme is Comment ==> comment_span(s, t))
}

/// `b` is `a` followed by tokens the scan may make before the end.
pub open spec fn extends_well(s: Seq<char>, a: Seq<TokenView>, b: Seq<TokenView>) -> bool {
    &&& a.len() <= b.len()
    &&& b.subrange(0, a.len() as int) == a
    &&& forall|i: int| a.len() <= i < b.len() ==> token_ok(s, #[trigger] b[i])
}

proof fn lemma_extends_refl(s: Seq<char>, a: Seq<TokenView>)
    ensures
        extends_well(s, a, a),
{
    assert(a.subrange(0, a.len() as int) =~= a);
}

proof fn lemma_extends_push(s: Seq<char>, a: Seq<TokenView>, t: TokenView)
    requires
        token_ok(s, t),
    ensures
        extends_well(s, a, a.push(t)),
{
    assert(a.push(t).subrange(0, a.len() as int) =~= a);
}

proof fn lemma_extends_trans(s: Seq<char>, a: Seq<TokenView>, b: Seq<TokenView>, c: Seq<TokenView>)
    requires
        extends_well(s, a, b),
        extends_well(s, b, c),
    ensures
        extends_well(s, a, c),
{
    assert(c.subrange(0, a.len() as int) =~= c.subrange(0, b.len() as int).subrange(0, a.len() as int));
    assert forall|i: int| a.len() <= i < c.len() implies token_ok(s, #[trigger] c[i]) by {
        if i < b.len() {
            assert(c[i] == c.subrange(0, b.len() as int)[i]);
        }
    }
}

proof fn lemma_line_end(s: Seq<char>, i: int)
    requires
        0 <= i <= s.len(),
    ensures
        i <= line_end(s, i) <= s.len(),
        forall|j: int| i <= j < line_end(s, i) ==> s[j] != '\n',
        line_end(s, i) < s.len() ==> s[line_end(s, i)] == '\n',
    decreases s.len() - i,
{
    if i < s.len() && s[i] != '\n' {
        lemma_line_end(s, i + 1);
    }
}

proof fn lemma_block_close(s: Seq<char>, i: int)
    requires
        0 <= i,
    ensures
        block_close(s, i) matches Some(k) ==> i <= k && k + 1 < s.len() && s[k] == '*' && s[k + 1] == '/'
            && forall|j: int| i <= j < k ==> !(#[trigger] s[j] == '*' && s[j + 1] == '/'),
    decreases s.len() - i,
{
    if !(i + 1 >= s.len()) && !(s[i] == '*' && s[i + 1] == '/') {
        lemma_block_close(s, i + 1);
    }
}

proof fn lemma_step_token(s: Seq<char>, c: Cursor, num: spec_fn(Seq<char>) -> u64)
    requires
        0 <= c.ptr < s.len(),
        scan_step(s, c, num) is Ok,
    ensures
        scan_step(s, c, num)->Ok_0.1 matches Some(t) ==> !(t.lexeme is EOI) && (t.lexeme is Comment
            ==> comment_span(s, t)),
{
    let p = c.ptr;
    if s[p] == '/' && p + 1 < s.len() {
        lemma_line_end(s, p + 2);
        lemma_block_close(s, p + 2);
    }
}

proof fn lemma_lex_from_shape(s: Seq<char>, c: Cursor, acc: Seq<TokenView>, num: spec_fn(Seq<char>) -> u64)
    requires
        0 <= c.ptr,
        lex_from(s, c, acc, num) is Ok,
        forall|i: int| 0 <= i < acc.len() ==> !(#[trigger] acc[i].lexeme is EOI),
        forall|i: int| 0 <= i < acc.len() && #[trigger] acc[i].lexeme is Comment ==> comment_span(s, acc[i]),
    ensures
        well_shaped(s, lex_from(s, c, acc, num)->Ok_0),
    decreases s.len() + 2 - c.ptr,
{
    if c.ptr >= s.len() {
        let ts = acc.push(token_at(Lexeme::EOI, c.ptr, 0, c));
        assert forall|i: int| 0 <= i < ts.len() - 1 implies !(#[trigger] ts[i].lexeme is EOI) by {
            assert(ts[i] == acc[i]);
        }
        assert forall|i: int| 0 <= i < ts.len() && #[trigger] ts[i].lexeme is Comment implies comment_span(s, ts[i]) by {
            if i < acc.len() {
                assert(ts[i] == acc[i]);
            }
        }
    } else {
        let r = scan_step(s, c, num)->Ok_0;
        lemma_step_token(s, c, num);
        let acc2 = acc + optional(r.1);
        assert forall|i: int| 0 <= i < acc2.len() implies !(#[trigger] acc2[i].lexeme is EOI) && (
        acc2[i].lexeme is Comment ==> comment_span(s, acc2[i])) by {
            if i < acc.len() {
                assert(acc2[i] == acc[i]);
            }
        }
        lemma_lex_from_shape(s, r.0, acc2, num);
    }
}

/// Every token stream that the lexer makes ends with exactly one end of input token, and
/// each comment token's span covers exactly the comment's characters in the source.
pub proof fn lemma_lex_well_shaped(s: Seq<char>, num: spec_fn(Seq<char>) -> u64)
    requires
        lex(s, num) is Ok,
    ensures
        well_shaped(s, lex(s, num)->Ok_0),
{
    lemma_lex_from_shape(s, Cursor { ptr: 0, line: 1, col: 1 }, seq![], num);
}

/// Turns a source text into tokens.
pub struct Lexer {
    chars: Vec<char>,
    source: String,
    pub tokens: Vec<Token>,
    ptr: usize,
    line: usize,
    col: usize,
}

/// The characters of a text, one by one.
pub(crate) fn chars_of(src: &str) -> (r: Vec<char>)
    ensures
        r@ == src@,
{
    let mut chars: Vec<char> = Vec::new();
    for c in it: src.chars()
        invariant
            chars@ == it.seq().subrange(0, it.index() as int),
    {
        chars.push(c);
        assert(chars@ =~= it.seq().subrange(0, it.index() + 1));
    }
    assert(chars@ =~= src@);
    chars
}

fn is_digit_char(c: char) -> (r: bool)
    ensures
        r == is_digit(c),
{
    '0' <= c && c <= '9'
}

fn is_lower_char(c: char) -> (r: bool)
    ensures
        r == is_lower(c),
{
    'a' <= c && c <= 'z'
}

impl Lexer {
    /// The source text, as characters.
    pub closed spec fn input(&self) -> Seq<char> {
        self.chars@
    }

    /// Where the scan stands.
    pub closed spec fn cursor(&self) -> Cursor {
        Cursor { ptr: self.ptr as int, line: self.line as int, col: self.col as int }
    }

    pub closed spec fn wf(&self) -> bool {
        &&& self.source@ == self.chars@
        &&& self.chars@.len() + 3 < usize::MAX
        &&& self.ptr <= self.chars@.len() + 1
        &&& 1 <= self.line <= self.ptr + 1
        &&& 1 <= self.col <= self.ptr + 1
    }

    pub closed spec fn token_views(&self) -> Seq<TokenView> {
        self.tokens@.map_values(|t: Token| t@)
    }

    /// A lexer at the start of `src`, with no tokens yet.
    pub fn new(src: &str) -> (r: Lexer)
        requires
            src@.len() + 3 < usize::MAX,
        ensures
            r.wf(),
            r.input() == src@,
            r.cursor() == (Cursor { ptr: 0, line: 1, col: 1 }),
            r.token_views() == Seq::<TokenView>::empty(),
    {
        let chars = chars_of(src);
        let r = Lexer { chars, source: src.to_owned(), tokens: Vec::new(), ptr: 0, line: 1, col: 1 };
        assert(r.token_views() =~= Seq::<TokenView>::empty());
        r
    }

    /// Scans the rest of the input and appends its tokens, closed by the end of input
    /// token. Stops at the first character that starts no token, or at a string or block
    /// comment that is not closed, keeping the tokens made before it. `read` turns each
    /// numeral into its number; where it is a function `num` of the numeral's text, the
    /// tokens are exactly those of the model with `num`.
    pub fn run<G: Fn(String) -> u64>(&mut self, read: &G) -> (r: Result<(), Error>)
        requires
            old(self).wf(),
            forall|t: String| read.requires((t,)),
        ensures
            final(self).wf(),
            final(self).input() == old(self).input(),
            r is Err ==> extends_well(old(self).input(), old(self).token_views(), final(self).token_views()),
            r is Ok ==> {
                let (a, b) = (old(self).token_views(), final(self).token_views());
                &&& a.len() < b.len()
                &&& b.subrange(0, a.len() as int) == a
                &&& well_shaped(old(self).input(), b.subrange(a.len() as int, b.len() as int))
            },
            forall|num: spec_fn(Seq<char>) -> u64|
                reads_as(*read, num) ==> {
                    &&& final(self).token_views() == scanned(
                        old(self).input(),
                        old(self).cursor(),
                        old(self).token_views(),
                        num,
                    )
                    &&& match #[trigger] lex_from(old(self).input(), old(self).cursor(), old(self).token_views(), num) {
                        Ok(ts) => r is Ok && final(self).token_views() == ts,
                        Err(e) => r is Err && r->Err_0@ == e,
                    }
                },
    {
        proof {
            lemma_extends_refl(self.input(), self.token_views());
        }
        while self.ptr < self.chars.len()
            invariant
                self.wf(),
                self.input() == old(self).input(),
                extends_well(old(self).input(), old(self).token_views(), self.token_views()),
                forall|t: String| read.requires((t,)),
                forall|num: spec_fn(Seq<char>) -> u64|
                    reads_as(*read, num) ==> {
                        &&& lex_from(self.input(), self.cursor(), self.token_views(), num)
                            == #[trigger] lex_from(old(self).input(), old(self).cursor(), old(self).token_views(), num)
                        &&& scanned(self.input(), self.cursor(), self.token_views(), num)
                            == scanned(old(self).input(), old(self).cursor(), old(self).token_views(), num)
                    },
            decreases self.chars@.len() + 2 - self.ptr,
        {
            let ghost before = *self;
            let step = self.scan_one(read);
            proof {
                lemma_extends_trans(self.input(), old(self).token_views(), before.token_views(), self.token_views());
            }
            match step {
                Err(e) => {
                    proof {
                        assert forall|num: spec_fn(Seq<char>) -> u64| reads_as(*read, num) implies {
                            &&& #[trigger] lex_from(old(self).input(), old(self).cursor(), old(self).token_views(), num)
                                == Err::<Seq<TokenView>, Diagnostic>(e@)
                            &&& scanned(old(self).input(), old(self).cursor(), old(self).token_views(), num)
                                == self.token_views()
                        } by {
                            assert(Self::stepped(before, *self, step, num));
                            assert(lex_from(before.input(), before.cursor(), before.token_views(), num)
                                == lex_from(old(self).input(), old(self).cursor(), old(self).token_views(), num));
                        }
                    }
                    return Err(e);
                },
                Ok(()) => {
                    proof {
                        assert forall|num: spec_fn(Seq<char>) -> u64| reads_as(*read, num) implies {
                            &&& #[trigger] lex_from(old(self).input(), old(self).cursor(), old(self).token_views(), num)
                                == lex_from(self.input(), self.cursor(), self.token_views(), num)
                            &&& scanned(old(self).input(), old(self).cursor(), old(self).token_views(), num)
                                == scanned(self.input(), self.cursor(), self.token_views(), num)
                        } by {
                            assert(Self::stepped(before, *self, step, num));
                            assert(lex_from(before.input(), before.cursor(), before.token_views(), num)
                                == lex_from(old(self).input(), old(self).cursor(), old(self).token_views(), num));
                        }
                    }
                },
            }
        }
        let ghost before = *self;
        let (start, line, col) = (self.ptr, self.line, self.col);
        self.push_token(TokenKind::EOI, start, 0, line, col);
        proof {
            let (a, v, b) = (old(self).token_views(), before.token_views(), self.token_views());
            assert(b == v.push(Token { kind: TokenKind::EOI, start, len: 0, line, col }@));
            assert(b.subrange(0, a.len() as int) =~= v.subrange(0, a.len() as int));
            let tail = b.subrange(a.len() as int, b.len() as int);
            assert forall|i: int| 0 <= i < tail.len() - 1 implies !(#[trigger] tail[i].lexeme is EOI) && (
            tail[i].lexeme is Comment ==> comment_span(self.input(), tail[i])) by {
                assert(tail[i] == b[a.len() + i]);
                assert(b[a.len() + i] == v[a.len() + i]);
                assert(token_ok(self.input(), v[a.len() + i]));
            }
            assert forall|i: int| 0 <= i < tail.len() && #[trigger] tail[i].lexeme is Comment implies comment_span(
                self.input(),
                tail[i],
            ) by {
                if i < tail.len() - 1 {
                    assert(tail[i] == b[a.len() + i]);
                    assert(b[a.len() + i] == v[a.len() + i]);
                    assert(token_ok(self.input(), v[a.len() + i]));
                }
            }
            assert(well_shaped(self.input(), tail));
        }
        proof {
            assert forall|num: spec_fn(Seq<char>) -> u64| reads_as(*read, num) implies {
                &&& #[trigger] lex_from(old(self).input(), old(self).cursor(), old(self).token_views(), num)
                    == Ok::<Seq<TokenView>, Diagnostic>(self.token_views())
                &&& scanned(old(self).input(), old(self).cursor(), old(self).token_views(), num) == self.token_views()
            } by {
                assert(lex_from(before.input(), before.cursor(), before.token_views(), num)
                    == lex_from(old(self).input(), old(self).cursor(), old(self).token_views(), num));
            }
        }
        Ok(())
    }

    /// Hands over the tokens.
    pub fn into_tokens(self) -> (r: Vec<Token>)
        ensures
            views_of(r@) == self.token_views(),
    {
        self.tokens
    }

    fn push_token(&mut self, kind: TokenKind, start: usize, len: usize, line: usize, col: usize)
        ensures
            final(self).tokens@ == old(self).tokens@.push(Token { kind, start, len, line, col }),
            final(self).token_views() == old(self).token_views().push(
                Token { kind, start, len, line, col }@,
            ),
            final(self).token_views() == old(self).token_views() + optional(
                Some(Token { kind, start, len, line, col }@),
            ),
            final(self).chars == old(self).chars,
            final(self).source == old(self).source,
            final(self).ptr == old(self).ptr,
            final(self).line == old(self).line,
            final(self).col == old(self).col,
            token_ok(old(self).input(), Token { kind, start, len, line, col }@) ==> extends_well(
                old(self).input(),
                old(self).token_views(),
                final(self).token_views(),
            ),
    {
        proof {
            if token_ok(self.input(), Token { kind, start, len, line, col }@) {
                lemma_extends_push(self.input(), self.token_views(), Token { kind, start, len, line, col }@);
            }
        }
        self.tokens.push(Token { kind, start, len, line, col });
        assert(self.token_views() =~= old(self).token_views().push(
            Token { kind, start, len, line, col }@,
        ));
        assert(self.token_views() =~= old(self).token_views() + optional(
            Some(Token { kind, start, len, line, col }@),
        ));
    }

    fn digits_end(&self, i: usize) -> (e: usize)
        requires
            i <= self.chars@.len(),
        ensures
            e == digits_end(self.chars@, i as int),
            i <= e <= self.chars@.len(),
    {
        let mut j = i;
        while j < self.chars.len() && is_digit_char(self.chars[j])
            invariant
                i <= j <= self.chars@.len(),
                digits_end(self.chars@, j as int) == digits_end(self.chars@, i as int),
            decreases self.chars@.len() - j,
        {
            j = j + 1;
        }
        j
    }

    fn lower_end(&self, i: usize) -> (e: usize)
        requires
            i <= self.chars@.len(),
        ensures
            e == lower_end(self.chars@, i as int),
            i <= e <= self.chars@.len(),
    {
        let mut j = i;
        while j < self.chars.len() && is_lower_char(self.chars[j])
            invariant
                i <= j <= self.chars@.len(),
                lower_end(self.chars@, j as int) == lower_end(self.chars@, i as int),
            decreases self.chars@.len() - j,
        {
            j = j + 1;
        }
        j
    }

    fn line_end(&self, i: usize) -> (e: usize)
        requires
            i <= self.chars@.len(),
        ensures
            e == line_end(self.chars@, i as int),
            i <= e <= self.chars@.len(),
    {
        let mut j = i;
        while j < self.chars.len() && self.chars[j] != '\n'
            invariant
                i <= j <= self.chars@.len(),
                line_end(self.chars@, j as int) == line_end(self.chars@, i as int),
            decreases self.chars@.len() - j,
        {
            j = j + 1;
        }
        j
    }

    fn block_close(&self, i: usize) -> (r: Option<usize>)
        requires
            self.wf(),
            i <= self.chars@.len(),
        ensures
            match block_close(self.chars@, i as int) {
                Some(k) => r == Some(k as usize) && i <= k && k + 1 < self.chars@.len(),
                None => r is None,
            },
    {
        let mut j = i;
        while j + 1 < self.chars.len()
            invariant
                self.wf(),
                i <= j <= self.chars@.len(),
                block_close(self.chars@, j as int) == block_close(self.chars@, i as int),
            decreases self.chars@.len() - j,
        {
            if self.chars[j] == '*' && self.chars[j + 1] == '/' {
                return Some(j);
            }
            j = j + 1;
        }
        None
    }

    fn string_close(&self, i: usize) -> (r: Option<usize>)
        requires
            1 <= i <= self.chars@.len(),
        ensures
            match string_close(self.chars@, i as int) {
                Some(k) => r == Some(k as usize) && i <= k < self.chars@.len(),
                None => r is None,
            },
    {
        let mut j = i;
        while j < self.chars.len()
            invariant
                1 <= i <= j <= self.chars@.len(),
                string_close(self.chars@, j as int) == string_close(self.chars@, i as int),
            decreases self.chars@.len() - j,
        {
            if self.chars[j] == '"' && self.chars[j - 1] != '\\' {
                return Some(j);
            }
            j = j + 1;
        }
        None
    }

    fn walk(&self, from: usize, to: usize, line: usize, col: usize) -> (r: (usize, usize))
        requires
            self.wf(),
            from <= to <= self.chars@.len(),
            1 <= line <= from + 1,
            1 <= col <= from + 1,
        ensures
            (r.0 as int, r.1 as int) == walk(self.chars@, from as int, to as int, line as int, col as int),
            1 <= r.0 <= to + 1,
            1 <= r.1 <= to + 1,
    {
        let mut i = from;
        let mut l = line;
        let mut c = col;
        while i < to
            invariant
                self.wf(),
                from <= i <= to <= self.chars@.len(),
                1 <= l <= i + 1,
                1 <= c <= i + 1,
                (l as int, c as int) == walk(self.chars@, from as int, i as int, line as int, col as int),
            decreases to - i,
        {
            if self.chars[i] == '\n' {
                l = l + 1;
                c = 2;
            } else {
                c = c + 1;
            }
            i = i + 1;
        }
        (l, c)
    }

    fn keyword(&self, p: usize, e: usize) -> (r: Option<TokenKind>)
        requires
            p <= e <= self.chars@.len(),
        ensures
            match keyword(self.chars@, p as int, e as int) {
                Some(k) => r is Some && r.unwrap().lexeme() == k,
                None => r is None,
            },
    {
        let s = &self.chars;
        if e - p == 4 && s[p] == 't' && s[p + 1] == 'r' && s[p + 2] == 'u' && s[p + 3] == 'e' {
            Some(TokenKind::True)
        } else if e - p == 5 && s[p] == 'f' && s[p + 1] == 'a' && s[p + 2] == 'l' && s[p + 3]
            == 's' && s[p + 4] == 'e' {
            Some(TokenKind::False)
        } else if e - p == 3 && s[p] == 'n' && s[p + 1] == 'i' && s[p + 2] == 'l' {
            Some(TokenKind::Nil)
        } else if e - p == 3 && s[p] == 'n' && s[p + 1] == 'o' && s[p + 2] == 't' {
            Some(TokenKind::Not)
        } else {
            None
        }
    }

    /// Emits a token of `n` characters at the cursor and steps over them on one line.
    fn simple(&mut self, kind: TokenKind, n: usize)
        requires
            old(self).wf(),
            1 <= n <= 2,
            old(self).ptr + n <= old(self).chars@.len(),
            !(kind is EOI) && !(kind is Comment),
        ensures
            extends_well(old(self).input(), old(self).token_views(), final(self).token_views()),
            final(self).wf(),
            final(self).chars == old(self).chars,
            final(self).cursor() == (Cursor {
                ptr: old(self).ptr + n,
                line: old(self).line as int,
                col: old(self).col + n,
            }),
            final(self).token_views() == old(self).token_views() + optional(
                Some(token_at(kind.lexeme(), old(self).ptr as int, n as int, old(self).cursor())),
            ),
    {
        let (p, line, col) = (self.ptr, self.line, self.col);
        self.push_token(kind, p, n, line, col);
        self.ptr = p + n;
        self.col = col + n;
    }

    /// `new` is `old` after one step of the scan, which returned `r`.
    spec fn stepped(old: Lexer, new: Lexer, r: Result<(), Error>, num: spec_fn(Seq<char>) -> u64) -> bool {
        &&& new.wf()
        &&& new.chars == old.chars
        &&& match scan_step(old.input(), old.cursor(), num) {
            Ok(st) => {
                &&& r is Ok
                &&& new.cursor() == st.0
                &&& new.ptr > old.ptr
                &&& new.token_views() == old.token_views() + optional(st.1)
            },
            Err(e) => r is Err && r->Err_0@ == e && new.token_views() == old.token_views(),
        }
    }

    /// An operator of one or two characters.
    fn scan_symbol<G: Fn(String) -> u64>(&mut self, read: &G) -> (r: Result<(), Error>)
        requires
            old(self).wf(),
            old(self).ptr < old(self).chars@.len(),
            ({
                let ch = old(self).chars@[old(self).ptr as int];
                ch == '+' || ch == '-' || ch == '*' || ch == '%' || ch == '^' || ch == '('
                    || ch == ')' || ch == '=' || ch == '>' || ch == '<' || ch == '!'
            }),
        ensures
            final(self).wf(),
            final(self).chars == old(self).chars,
            r is Ok ==> final(self).ptr > old(self).ptr,
            extends_well(old(self).input(), old(self).token_views(), final(self).token_views()),
            forall|num: spec_fn(Seq<char>) -> u64|
                reads_as(*read, num) ==> #[trigger] Self::stepped(*old(self), *final(self), r, num),
    {
        proof {
            lemma_extends_refl(self.input(), self.token_views());
        }
        let n = self.chars.len();
        let p = self.ptr;
        let ch = self.chars[p];
        let eq_next = p + 1 < n && self.chars[p + 1] == '=';
        if ch == '+' {
            self.simple(TokenKind::Plus, 1);
        } else if ch == '-' {
            self.simple(TokenKind::Minus, 1);
        } else if ch == '*' {
            self.simple(TokenKind::Asterisk, 1);
        } else if ch == '%' {
            self.simple(TokenKind::Percent, 1);
        } else if ch == '^' {
            self.simple(TokenKind::Hat, 1);
        } else if ch == '(' {
            self.simple(TokenKind::LeftParen, 1);
        } else if ch == ')' {
            self.simple(TokenKind::RightParen, 1);
        } else if ch == '=' {
            if eq_next {
                self.simple(TokenKind::Equals, 2);
            } else {
                return Err(Error::UnexpectedCharacter(ch, self.line, self.col, 1));
            }
        } else if ch == '>' {
            if eq_next {
                self.simple(TokenKind::GreaterEq, 2);
            } else {
                self.simple(TokenKind::Greater, 1);
            }
        } else if ch == '<' {
            if eq_next {
                self.simple(TokenKind::LessEq, 2);
            } else {
                self.simple(TokenKind::Less, 1);
            }
        } else if eq_next {
            self.simple(TokenKind::NotEquals, 2);
        } else {
            self.simple(TokenKind::Exclamation, 1);
        }
        Ok(())
    }

    /// A slash, or a comment that starts with one.
    fn scan_slash<G: Fn(String) -> u64>(&mut self, read: &G) -> (r: Result<(), Error>)
        requires
            old(self).wf(),
            old(self).ptr < old(self).chars@.len(),
            old(self).chars@[old(self).ptr as int] == '/',
        ensures
            final(self).wf(),
            final(self).chars == old(self).chars,
            r is Ok ==> final(self).ptr > old(self).ptr,
            extends_well(old(self).input(), old(self).token_views(), final(self).token_views()),
            forall|num: spec_fn(Seq<char>) -> u64|
                reads_as(*read, num) ==> #[trigger] Self::stepped(*old(self), *final(self), r, num),
    {
        proof {
            lemma_extends_refl(self.input(), self.token_views());
        }
        let n = self.chars.len();
        let p = self.ptr;
        let line = self.line;
        let col = self.col;
        proof {
            if p + 2 <= n {
                lemma_line_end(self.chars@, p + 2);
            }
            lemma_block_close(self.chars@, p + 2);
        }
        if p + 1 < n && self.chars[p + 1] == '/' {
            let e = self.line_end(p + 2);
            self.push_token(TokenKind::Comment, p, e - p, line, col);
            self.ptr = e + 1;
            if e < n {
                self.line = line + 1;
                self.col = 2;
            } else {
                self.col = col + (e - p) + 1;
            }
        } else if p + 1 < n && self.chars[p + 1] == '*' {
            match self.block_close(p + 2) {
                None => {
                    return Err(Error::UnexpectedEOI("Unterminated comment".to_owned()));
                },
                Some(k) => {
                    let (l2, c2) = self.walk(p, k + 2, line, col);
                    self.push_token(TokenKind::Comment, p, k + 2 - p, line, col);
                    self.ptr = k + 2;
                    self.line = l2;
                    self.col = c2;
                },
            }
        } else {
            self.simple(TokenKind::Slash, 1);
        }
        Ok(())
    }

    /// A keyword; any other word is refused at its first letter.
    fn scan_word<G: Fn(String) -> u64>(&mut self, read: &G) -> (r: Result<(), Error>)
        requires
            old(self).wf(),
            old(self).ptr < old(self).chars@.len(),
            is_lower(old(self).chars@[old(self).ptr as int]),
        ensures
            final(self).wf(),
            final(self).chars == old(self).chars,
            r is Ok ==> final(self).ptr > old(self).ptr,
            extends_well(old(self).input(), old(self).token_views(), final(self).token_views()),
            forall|num: spec_fn(Seq<char>) -> u64|
                reads_as(*read, num) ==> #[trigger] Self::stepped(*old(self), *final(self), r, num),
    {
        proof {
            lemma_extends_refl(self.input(), self.token_views());
        }
        let p = self.ptr;
        let line = self.line;
        let col = self.col;
        let e = self.lower_end(p);
        match self.keyword(p, e) {
            Some(kind) => {
                self.push_token(kind, p, e - p, line, col);
                self.ptr = e;
                self.col = col + (e - p);
                Ok(())
            },
            None => Err(Error::UnexpectedCharacter(self.chars[p], line, col, 1)),
        }
    }

    /// A numeral: digits, then perhaps a point and more digits.
    fn scan_number<G: Fn(String) -> u64>(&mut self, read: &G) -> (r: Result<(), Error>)
        requires
            old(self).wf(),
            forall|t: String| read.requires((t,)),
            old(self).ptr < old(self).chars@.len(),
            is_digit(old(self).chars@[old(self).ptr as int]),
        ensures
            final(self).wf(),
            final(self).chars == old(self).chars,
            r is Ok ==> final(self).ptr > old(self).ptr,
            extends_well(old(self).input(), old(self).token_views(), final(self).token_views()),
            forall|num: spec_fn(Seq<char>) -> u64|
                reads_as(*read, num) ==> #[trigger] Self::stepped(*old(self), *final(self), r, num),
    {
        proof {
            lemma_extends_refl(self.input(), self.token_views());
        }
        let n = self.chars.len();
        let p = self.ptr;
        let line = self.line;
        let col = self.col;
        let e1 = self.digits_end(p);
        proof {
            lemma_digits_end_bounds(self.chars@, p + 1);
        }
        let e = if e1 < n && self.chars[e1] == '.' {
            self.digits_end(e1 + 1)
        } else {
            e1
        };
        let text = self.source.as_str().substring_char(p, e).to_owned();
        let ghost numeral = text;
        let bits = read(text);
        assert(numeral@ == self.chars@.subrange(p as int, e as int));
        self.push_token(TokenKind::Number(bits), p, e - p, line, col);
        self.ptr = e;
        self.col = col + (e - p);
        Ok(())
    }

    /// A string literal, which may span lines.
    fn scan_string<G: Fn(String) -> u64>(&mut self, read: &G) -> (r: Result<(), Error>)
        requires
            old(self).wf(),
            old(self).ptr < old(self).chars@.len(),
            old(self).chars@[old(self).ptr as int] == '"',
        ensures
            final(self).wf(),
            final(self).chars == old(self).chars,
            r is Ok ==> final(self).ptr > old(self).ptr,
            extends_well(old(self).input(), old(self).token_views(), final(self).token_views()),
            forall|num: spec_fn(Seq<char>) -> u64|
                reads_as(*read, num) ==> #[trigger] Self::stepped(*old(self), *final(self), r, num),
    {
        proof {
            lemma_extends_refl(self.input(), self.token_views());
        }
        let p = self.ptr;
        let line = self.line;
        let col = self.col;
        match self.string_close(p + 1) {
            None => Err(Error::UnexpectedEOI("Unterminated string".to_owned())),
            Some(k) => {
                let (l2, c2) = self.walk(p, k + 1, line, col);
                let text = self.source.as_str().substring_char(p + 1, k).to_owned();
                self.push_token(TokenKind::String(text), p, k + 1 - p, line, col);
                self.ptr = k + 1;
                self.line = l2;
                self.col = c2;
                Ok(())
            },
        }
    }

    /// One step of the scan, at a character of the input.
    fn scan_one<G: Fn(String) -> u64>(&mut self, read: &G) -> (r: Result<(), Error>)
        requires
            old(self).wf(),
            forall|t: String| read.requires((t,)),
            old(self).ptr < old(self).chars@.len(),
        ensures
            final(self).wf(),
            final(self).chars == old(self).chars,
            r is Ok ==> final(self).ptr > old(self).ptr,
            extends_well(old(self).input(), old(self).token_views(), final(self).token_views()),
            forall|num: spec_fn(Seq<char>) -> u64|
                reads_as(*read, num) ==> #[trigger] Self::stepped(*old(self), *final(self), r, num),
    {
        proof {
            lemma_extends_refl(self.input(), self.token_views());
        }
        let ghost views = self.token_views();
        let p = self.ptr;
        let ch = self.chars[p];
        if ch == '+' || ch == '-' || ch == '*' || ch == '%' || ch == '^' || ch == '(' || ch == ')'
            || ch == '=' || ch == '>' || ch == '<' || ch == '!' {
            self.scan_symbol(read)
        } else if ch == '/' {
            self.scan_slash(read)
        } else if is_lower_char(ch) {
            self.scan_word(read)
        } else if is_digit_char(ch) {
            self.scan_number(read)
        } else if ch == '"' {
            self.scan_string(read)
        } else if ch == ' ' || ch == '\t' {
            self.ptr = p + 1;
            self.col = self.col + 1;
            assert(self.token_views() =~= views + optional(None));
            Ok(())
        } else if ch == '\n' {
            self.ptr = p + 1;
            self.line = self.line + 1;
            self.col = 2;
            assert(self.token_views() =~= views + optional(None));
            Ok(())
        } else {
            Err(Error::UnexpectedCharacter(ch, self.line, self.col, 1))
        }
    }
}

} // verus!
