//! The ApexLang lexer: source text to tokens, each with the line and
//! column where it starts.

use vstd::prelude::*;
use crate::apexlang::error::ApexError;
use crate::text::{chars_of, decimal, push_char, string_of, append_decimal};

verus! {

/// Whether `char::is_alphanumeric` holds of a character (Unicode's
/// Alphabetic or Numeric property).
pub uninterp spec fn char_is_alphanumeric(c: char) -> bool;

/// Whether a character is an ASCII letter or digit.
pub open spec fn ascii_alnum(c: char) -> bool {
    ('a' <= c <= 'z') || ('A' <= c <= 'Z') || ('0' <= c <= '9')
}

/// Whether a character is alphanumeric: for ASCII characters the letters
/// and digits, for others as Unicode's Alphabetic and Numeric properties
/// say.
pub open spec fn alphanumeric(c: char) -> bool {
    if c <= '\u{7f}' {
        ascii_alnum(c)
    } else {
        char_is_alphanumeric(c)
    }
}

/// std's `char::is_alphanumeric`. Its result is named; for ASCII
/// characters it holds exactly of letters and digits, as the Unicode
/// properties it follows say. Nothing is said of other characters.
#[verifier::external_body]
fn is_alphanumeric(c: char) -> (b: bool)
    ensures
        b == char_is_alphanumeric(c),
        c <= '\u{7f}' ==> (b == ascii_alnum(c)),
        b == alphanumeric(c),
{
    c.is_alphanumeric()
}

/// Decimal digits without their leading zeros; a run of zeros is "0".
pub open spec fn decimal_normal(s: Seq<char>) -> Seq<char>
    decreases s.len(),
{
    if s.len() > 1 && s[0] == '0' {
        decimal_normal(s.drop_first())
    } else {
        s
    }
}

/// Whether text is one or more ASCII decimal digits.
pub open spec fn is_digit_run(s: Seq<char>) -> bool {
    s.len() > 0 && forall|i: int| 0 <= i < s.len() ==> '0' <= #[trigger] s[i] <= '9'
}

/// num_bigint's `BigInt::parse_bytes` in base 10, followed by its decimal
/// rendering (`Display`). On text of ASCII decimal digits the parse
/// succeeds (every byte is a digit of the radix) and the rendering is the
/// number's decimal text: the digits without leading zeros, or "0". Of
/// other text nothing is said.
#[verifier::external_body]
fn bigint_normal_text(digits: &str) -> (r: Option<String>)
    ensures
        is_digit_run(digits@) ==> r is Some,
        r matches Some(t) ==> (is_digit_run(digits@) ==> t@ == decimal_normal(digits@)),
{
    num_bigint::BigInt::parse_bytes(digits.as_bytes(), 10).map(|b| b.to_string())
}

/// The kinds of token.
#[derive(Debug, Clone)]
pub enum TokenKind {
    Fn,
    Return,
    Let,
    Var,
    Import,
    As,
    True,
    False,
    Identifier(String),
    /// An integer literal, by the decimal text of its value.
    Integer(String),
    /// A number literal with a fraction, by the text it was written with.
    Number(String),
    StringLiteral(String),
    LParen,
    RParen,
    LBrace,
    RBrace,
    Comma,
    Semicolon,
    Dot,
    Plus,
    Minus,
    Star,
    Slash,
    Percent,
    Bang,
    Equal,
    EqualEqual,
    BangEqual,
    Less,
    LessEqual,
    Greater,
    GreaterEqual,
    AndAnd,
    OrOr,
    Eof,
}

/// A token kind, with the text it carries by its characters.
pub enum Kind {
    Fn,
    Return,
    Let,
    Var,
    Import,
    As,
    True,
    False,
    Identifier(Seq<char>),
    Integer(Seq<char>),
    Number(Seq<char>),
    StringLiteral(Seq<char>),
    LParen,
    RParen,
    LBrace,
    RBrace,
    Comma,
    Semicolon,
    Dot,
    Plus,
    Minus,
    Star,
    Slash,
    Percent,
    Bang,
    Equal,
    EqualEqual,
    BangEqual,
    Less,
    LessEqual,
    Greater,
    GreaterEqual,
    AndAnd,
    OrOr,
    Eof,
}

impl View for TokenKind {
    type V = Kind;

    open spec fn view(&self) -> Kind {
        match self {
            TokenKind::Fn => Kind::Fn,
            TokenKind::Return => Kind::Return,
            TokenKind::Let => Kind::Let,
            TokenKind::Var => Kind::Var,
            TokenKind::Import => Kind::Import,
            TokenKind::As => Kind::As,
            TokenKind::True => Kind::True,
            TokenKind::False => Kind::False,
            TokenKind::Identifier(s) => Kind::Identifier(s@),
            TokenKind::Integer(s) => Kind::Integer(s@),
            TokenKind::Number(s) => Kind::Number(s@),
            TokenKind::StringLiteral(s) => Kind::StringLiteral(s@),
            TokenKind::LParen => Kind::LParen,
            TokenKind::RParen => Kind::RParen,
            TokenKind::LBrace => Kind::LBrace,
            TokenKind::RBrace => Kind::RBrace,
            TokenKind::Comma => Kind::Comma,
            TokenKind::Semicolon => Kind::Semicolon,
            TokenKind::Dot => Kind::Dot,
            TokenKind::Plus => Kind::Plus,
            TokenKind::Minus => Kind::Minus,
            TokenKind::Star => Kind::Star,
            TokenKind::Slash => Kind::Slash,
            TokenKind::Percent => Kind::Percent,
            TokenKind::Bang => Kind::Bang,
            TokenKind::Equal => Kind::Equal,
            TokenKind::EqualEqual => Kind::EqualEqual,
            TokenKind::BangEqual => Kind::BangEqual,
            TokenKind::Less => Kind::Less,
            TokenKind::LessEqual => Kind::LessEqual,
            TokenKind::Greater => Kind::Greater,
            TokenKind::GreaterEqual => Kind::GreaterEqual,
            TokenKind::AndAnd => Kind::AndAnd,
            TokenKind::OrOr => Kind::OrOr,
            TokenKind::Eof => Kind::Eof,
        }
    }
}

/// A token: its kind, its text, and the line and column where it starts.
#[derive(Debug, Clone)]
pub struct Token {
    pub kind: TokenKind,
    pub lexeme: String,
    pub line: usize,
    pub column: usize,
}

/// A token by its values.
pub struct Tok {
    pub kind: Kind,
    pub lexeme: Seq<char>,
    pub line: nat,
    pub column: nat,
}

impl View for Token {
    type V = Tok;

    open spec fn view(&self) -> Tok {
        Tok { kind: self.kind@, lexeme: self.lexeme@, line: self.line as nat, column: self.column as nat }
    }
}

/// What the lexer does at a position: skip to another position, emit a
/// token and go on from another position, or stop with an error message.
pub enum Step {
    Skip { next: nat, line: nat, column: nat },
    Emit { tok: Tok, next: nat, line: nat, column: nat },
    Fail { message: Seq<char> },
}

/// Whether a character can start an identifier.
pub open spec fn ident_start(c: char) -> bool {
    ('a' <= c <= 'z') || ('A' <= c <= 'Z') || c == '_'
}

/// Whether a character can continue an identifier.
pub open spec fn ident_continue(c: char) -> bool {
    alphanumeric(c) || c == '_'
}

/// The end of the run of identifier characters that starts at `i`.
pub open spec fn ident_end(c: Seq<char>, i: int) -> int
    decreases c.len() - i,
{
    if i >= c.len() || i < 0 || !ident_continue(c[i]) {
        i
    } else {
        ident_end(c, i + 1)
    }
}

/// The keyword an identifier spells, or an identifier.
pub open spec fn keyword_or_ident(s: Seq<char>) -> Kind {
    if s == "fn"@ {
        Kind::Fn
    } else if s == "return"@ {
        Kind::Return
    } else if s == "let"@ {
        Kind::Let
    } else if s == "var"@ {
        Kind::Var
    } else if s == "import"@ {
        Kind::Import
    } else if s == "as"@ {
        Kind::As
    } else if s == "true"@ {
        Kind::True
    } else if s == "false"@ {
        Kind::False
    } else {
        Kind::Identifier(s)
    }
}

/// The end of a number that starts at `i`: digits, with at most one '.'
/// among them (`dot` tells whether one has been seen).
pub open spec fn number_end(c: Seq<char>, i: int, dot: bool) -> int
    decreases c.len() - i,
{
    if i >= c.len() || i < 0 {
        i
    } else if '0' <= c[i] <= '9' {
        number_end(c, i + 1, dot)
    } else if c[i] == '.' && !dot {
        number_end(c, i + 1, true)
    } else {
        i
    }
}

/// Whether text holds a '.'.
pub open spec fn has_dot(s: Seq<char>) -> bool {
    exists|i: int| 0 <= i < s.len() && #[trigger] s[i] == '.'
}

/// The character an escape letter stands for.
pub open spec fn escape_char(e: char) -> Option<char> {
    if e == '"' {
        Some('"')
    } else if e == '\\' {
        Some('\\')
    } else if e == 'n' {
        Some('\n')
    } else if e == 't' {
        Some('\t')
    } else if e == 'r' {
        Some('\r')
    } else if e == '0' {
        Some('\0')
    } else {
        None
    }
}

/// " at line L, column C"
pub open spec fn at_text(line: nat, column: nat) -> Seq<char> {
    " at line "@ + decimal(line) + ", column "@ + decimal(column)
}

/// The message of a string literal with no closing quote.
pub open spec fn unterminated(line: nat, column: nat) -> Seq<char> {
    "Unterminated string literal"@ + at_text(line, column)
}

/// The message of a character the lexer does not know.
pub open spec fn unexpected(ch: char, line: nat, column: nat) -> Seq<char> {
    "Unexpected character '"@ + seq![ch] + "'"@ + at_text(line, column)
}

/// The result of scanning the body of a string literal.
pub enum StrScan {
    Done { value: Seq<char>, next: nat, column: nat },
    Fail { message: Seq<char> },
}

/// Scans a string literal body from `i` (after the opening quote), with the
/// value so far, the current column, and the line and column where the
/// literal starts.
pub open spec fn scan_string(
    c: Seq<char>,
    i: int,
    value: Seq<char>,
    column: nat,
    line: nat,
    start_col: nat,
) -> StrScan
    decreases c.len() - i,
{
    if i < 0 || i >= c.len() {
        StrScan::Fail { message: unterminated(line, start_col) }
    } else if c[i] == '"' {
        StrScan::Done { value, next: (i + 1) as nat, column: column + 1 }
    } else if c[i] == '\\' {
        if i + 1 >= c.len() {
            StrScan::Fail { message: unterminated(line, start_col) }
        } else {
            match escape_char(c[i + 1]) {
                Some(t) => scan_string(c, i + 2, value.push(t), column + 2, line, start_col),
                None => StrScan::Fail {
                    message: "Unsupported escape '\\"@ + seq![c[i + 1]] + "'"@ + at_text(
                        line,
                        column,
                    ),
                },
            }
        }
    } else if c[i] == '\n' {
        StrScan::Fail { message: unterminated(line, start_col) }
    } else {
        scan_string(c, i + 1, value.push(c[i]), column + 1, line, start_col)
    }
}

/// A token of one character's text.
pub open spec fn single(k: Kind, ch: char, line: nat, column: nat) -> Tok {
    Tok { kind: k, lexeme: seq![ch], line, column }
}

/// An operator of one character, or of two when the next one is `second`.
pub open spec fn one_or_two(
    c: Seq<char>,
    i: int,
    line: nat,
    column: nat,
    second: char,
    one: Kind,
    two: Kind,
) -> Step {
    if i + 1 < c.len() && c[i + 1] == second {
        Step::Emit {
            tok: Tok { kind: two, lexeme: seq![c[i], second], line, column },
            next: (i + 2) as nat,
            line,
            column: column + 2,
        }
    } else {
        Step::Emit { tok: single(one, c[i], line, column), next: (i + 1) as nat, line, column: column + 1 }
    }
}

/// An operator of two equal characters; one alone is an error.
pub open spec fn doubled(c: Seq<char>, i: int, line: nat, column: nat, two: Kind) -> Step {
    if i + 1 < c.len() && c[i + 1] == c[i] {
        Step::Emit {
            tok: Tok { kind: two, lexeme: seq![c[i], c[i]], line, column },
            next: (i + 2) as nat,
            line,
            column: column + 2,
        }
    } else {
        Step::Fail { message: unexpected(c[i], line, column) }
    }
}

/// The end of a comment that starts at `i`: the next newline, or the end.
pub open spec fn comment_end(c: Seq<char>, i: int) -> int
    decreases c.len() - i,
{
    if i >= c.len() || i < 0 || c[i] == '\n' {
        i
    } else {
        comment_end(c, i + 1)
    }
}

/// What the lexer does at position `i` of `c` (which must hold a
/// character), at the given line and column.
pub open spec fn step(c: Seq<char>, i: int, line: nat, column: nat) -> Step {
    let ch = c[i];
    if ch == ' ' || ch == '\t' || ch == '\r' {
        Step::Skip { next: (i + 1) as nat, line, column: column + 1 }
    } else if ch == '\n' {
        Step::Skip { next: (i + 1) as nat, line: line + 1, column: 1 }
    } else if ident_start(ch) {
        let j = ident_end(c, i);
        let text = c.subrange(i, j);
        Step::Emit {
            tok: Tok { kind: keyword_or_ident(text), lexeme: text, line, column },
            next: j as nat,
            line,
            column: (column + (j - i)) as nat,
        }
    } else if '0' <= ch <= '9' {
        let j = number_end(c, i, false);
        let text = c.subrange(i, j);
        let kind = if has_dot(text) {
            Kind::Number(text)
        } else {
            Kind::Integer(decimal_normal(text))
        };
        Step::Emit {
            tok: Tok { kind, lexeme: text, line, column },
            next: j as nat,
            line,
            column: (column + (j - i)) as nat,
        }
    } else if ch == '"' {
        match scan_string(c, i + 1, Seq::empty(), column + 1, line, column) {
            StrScan::Done { value, next, column: col } => Step::Emit {
                tok: Tok { kind: Kind::StringLiteral(value), lexeme: value, line, column },
                next,
                line,
                column: col,
            },
            StrScan::Fail { message } => Step::Fail { message },
        }
    } else if ch == '/' && i + 1 < c.len() && c[i + 1] == '/' {
        let j = comment_end(c, i + 2);
        Step::Skip { next: j as nat, line, column: (column + (j - i)) as nat }
    } else if ch == '!' {
        one_or_two(c, i, line, column, '=', Kind::Bang, Kind::BangEqual)
    } else if ch == '=' {
        one_or_two(c, i, line, column, '=', Kind::Equal, Kind::EqualEqual)
    } else if ch == '<' {
        one_or_two(c, i, line, column, '=', Kind::Less, Kind::LessEqual)
    } else if ch == '>' {
        one_or_two(c, i, line, column, '=', Kind::Greater, Kind::GreaterEqual)
    } else if ch == '&' {
        doubled(c, i, line, column, Kind::AndAnd)
    } else if ch == '|' {
        doubled(c, i, line, column, Kind::OrOr)
    } else {
        match single_kind(ch) {
            Some(k) => Step::Emit {
                tok: single(k, ch, line, column),
                next: (i + 1) as nat,
                line,
                column: column + 1,
            },
            None => Step::Fail { message: unexpected(ch, line, column) },
        }
    }
}

/// The token kind of a character that is a token alone.
pub open spec fn single_kind(ch: char) -> Option<Kind> {
    if ch == '(' {
        Some(Kind::LParen)
    } else if ch == ')' {
        Some(Kind::RParen)
    } else if ch == '{' {
        Some(Kind::LBrace)
    } else if ch == '}' {
        Some(Kind::RBrace)
    } else if ch == ';' {
        Some(Kind::Semicolon)
    } else if ch == ',' {
        Some(Kind::Comma)
    } else if ch == '.' {
        Some(Kind::Dot)
    } else if ch == '+' {
        Some(Kind::Plus)
    } else if ch == '-' {
        Some(Kind::Minus)
    } else if ch == '*' {
        Some(Kind::Star)
    } else if ch == '/' {
        Some(Kind::Slash)
    } else if ch == '%' {
        Some(Kind::Percent)
    } else {
        None
    }
}

/// The tokens of `c` from position `i` on, the last being the end-of-file
/// token at the line and column where the text ends; or the message of the
/// first error.
pub open spec fn lex_from(c: Seq<char>, i: nat, line: nat, column: nat) -> Result<Seq<Tok>, Seq<char>>
    decreases c.len() - i,
{
    if i >= c.len() {
        Ok(seq![Tok { kind: Kind::Eof, lexeme: Seq::empty(), line, column }])
    } else {
        match step(c, i as int, line, column) {
            Step::Skip { next, line: l, column: col } => if i < next <= c.len() {
                lex_from(c, next, l, col)
            } else {
                Err(Seq::empty())
            },
            Step::Emit { tok, next, line: l, column: col } => if i < next <= c.len() {
                match lex_from(c, next, l, col) {
                    Ok(rest) => Ok(seq![tok] + rest),
                    Err(m) => Err(m),
                }
            } else {
                Err(Seq::empty())
            },
            Step::Fail { message } => Err(message),
        }
    }
}

/// The tokens of a source text, or the message of its first error.
pub open spec fn lex_spec(source: Seq<char>) -> Result<Seq<Tok>, Seq<char>> {
    lex_from(source, 0, 1, 1)
}

/// Tokens put in front of the outcome of lexing the rest.
pub open spec fn prepend(ts: Seq<Tok>, r: Result<Seq<Tok>, Seq<char>>) -> Result<Seq<Tok>, Seq<char>> {
    match r {
        Ok(rest) => Ok(ts + rest),
        Err(m) => Err(m),
    }
}

/// The values of tokens.
pub open spec fn toks(v: Seq<Token>) -> Seq<Tok> {
    v.map_values(|t: Token| t@)
}

/// What the lexer does at a position, with real strings.
pub enum StepOut {
    Skip { next: usize, line: usize, column: usize },
    Emit { tok: Token, next: usize, line: usize, column: usize },
    Fail { message: String },
}

pub open spec fn step_out_view(s: StepOut) -> Step {
    match s {
        StepOut::Skip { next, line, column } => Step::Skip {
            next: next as nat,
            line: line as nat,
            column: column as nat,
        },
        StepOut::Emit { tok, next, line, column } => Step::Emit {
            tok: tok@,
            next: next as nat,
            line: line as nat,
            column: column as nat,
        },
        StepOut::Fail { message } => Step::Fail { message: message@ },
    }
}

/// Appends " at line L, column C".
pub(crate) fn append_at(s: &mut String, line: usize, column: usize)
    ensures
        final(s)@ == old(s)@ + at_text(line as nat, column as nat),
{
    s.append(" at line ");
    append_decimal(s, line as u64);
    s.append(", column ");
    append_decimal(s, column as u64);
    assert(final(s)@ =~= old(s)@ + at_text(line as nat, column as nat));
}

fn unterminated_message(line: usize, column: usize) -> (s: String)
    ensures
        s@ == unterminated(line as nat, column as nat),
{
    let mut s = String::from_str("Unterminated string literal");
    append_at(&mut s, line, column);
    s
}

fn unexpected_message(ch: char, line: usize, column: usize) -> (s: String)
    ensures
        s@ == unexpected(ch, line as nat, column as nat),
{
    let mut s = String::from_str("Unexpected character '");
    push_char(&mut s, ch);
    s.append("'");
    append_at(&mut s, line, column);
    assert(s@ =~= unexpected(ch, line as nat, column as nat));
    s
}

proof fn lemma_ident_end(c: Seq<char>, i: int)
    requires
        0 <= i <= c.len(),
    ensures
        i <= ident_end(c, i) <= c.len(),
    decreases c.len() - i,
{
    if i < c.len() && ident_continue(c[i]) {
        lemma_ident_end(c, i + 1);
    }
}

/// The end of the identifier that starts at `i`.
fn scan_ident(c: &Vec<char>, i: usize) -> (j: usize)
    requires
        i < c@.len(),
        ident_start(c@[i as int]),
    ensures
        j == ident_end(c@, i as int),
        i < j <= c@.len(),
{
    let mut j = i;
    while j < c.len() && (is_alphanumeric(c[j]) || c[j] == '_')
        invariant
            i <= j <= c@.len(),
            ident_end(c@, i as int) == ident_end(c@, j as int),
            j == i ==> ident_start(c@[i as int]),
        decreases c@.len() - j,
    {
        j = j + 1;
    }
    if j == i {
        let ch = c[i];
        assert(ch <= '\u{7f}');
        let b = is_alphanumeric(ch);
        assert(false);
    }
    j
}

/// The kind of a word: a keyword or an identifier.
fn word_kind(text: &Vec<char>, from: usize, to: usize) -> (k: TokenKind)
    requires
        from <= to <= text@.len(),
    ensures
        k@ == keyword_or_ident(text@.subrange(from as int, to as int)),
{
    let w = string_of(text, from, to);
    let v = chars_of(w.as_str());
    if eq_text(&v, "fn") {
        TokenKind::Fn
    } else if eq_text(&v, "return") {
        TokenKind::Return
    } else if eq_text(&v, "let") {
        TokenKind::Let
    } else if eq_text(&v, "var") {
        TokenKind::Var
    } else if eq_text(&v, "import") {
        TokenKind::Import
    } else if eq_text(&v, "as") {
        TokenKind::As
    } else if eq_text(&v, "true") {
        TokenKind::True
    } else if eq_text(&v, "false") {
        TokenKind::False
    } else {
        TokenKind::Identifier(w)
    }
}

fn eq_text(x: &Vec<char>, lit: &str) -> (b: bool)
    ensures
        b == (x@ == lit@),
{
    let y = chars_of(lit);
    crate::text::chars_equal(x, &y)
}

proof fn lemma_number_end(c: Seq<char>, i: int, dot: bool)
    requires
        0 <= i <= c.len(),
    ensures
        i <= number_end(c, i, dot) <= c.len(),
        !dot ==> (has_dot(c.subrange(i, number_end(c, i, dot))) ==> true),
    decreases c.len() - i,
{
    if i < c.len() {
        if '0' <= c[i] <= '9' {
            lemma_number_end(c, i + 1, dot);
        } else if c[i] == '.' && !dot {
            lemma_number_end(c, i + 1, true);
        }
    }
}

/// The end of the number that starts at `i`, and whether it has a '.'.
fn scan_number(c: &Vec<char>, i: usize) -> (r: (usize, bool))
    requires
        i < c@.len(),
        '0' <= c@[i as int] <= '9',
    ensures
        r.0 == number_end(c@, i as int, false),
        i < r.0 <= c@.len(),
        r.1 == has_dot(c@.subrange(i as int, r.0 as int)),
        forall|k: int| i <= k < r.0 ==> ('0' <= #[trigger] c@[k] <= '9') || c@[k] == '.',
{
    let mut j = i;
    let mut dot = false;
    while j < c.len() && (('0' <= c[j] && c[j] <= '9') || (c[j] == '.' && !dot))
        invariant
            i <= j <= c@.len(),
            number_end(c@, i as int, false) == number_end(c@, j as int, dot),
            dot == has_dot(c@.subrange(i as int, j as int)),
            j == i ==> '0' <= c@[i as int] <= '9',
            forall|k: int| i <= k < j ==> ('0' <= #[trigger] c@[k] <= '9') || c@[k] == '.',
        decreases c@.len() - j,
    {
        let ch = c[j];
        proof {
            let a = c@.subrange(i as int, j as int);
            let b = c@.subrange(i as int, j + 1);
            assert(a =~= b.drop_last());
            if has_dot(a) {
                let k = choose|k: int| 0 <= k < a.len() && #[trigger] a[k] == '.';
                assert(b[k] == '.');
            }
            if has_dot(b) && ch != '.' {
                let k = choose|k: int| 0 <= k < b.len() && #[trigger] b[k] == '.';
                assert(k < a.len());
                assert(a[k] == '.');
            }
            if ch == '.' {
                assert(b[j - i] == '.');
            }
        }
        if ch == '.' {
            dot = true;
        }
        j = j + 1;
    }
    (j, dot)
}

/// Scans the body of a string literal whose quote is at `i`.
fn scan_string_body(c: &Vec<char>, i: usize, line: usize, column: usize) -> (r: Result<
    (String, usize, usize),
    String,
>)
    requires
        i < c@.len(),
        c@.len() < usize::MAX,
        column <= i + 1,
    ensures
        match scan_string(c@, i + 1, Seq::empty(), (column + 1) as nat, line as nat, column as nat) {
            StrScan::Done { value, next, column: col } => r matches Ok(t) && t.0@ == value && t.1
                == next && t.2 == col && i < t.1 <= c@.len() && t.2 <= t.1 + 1,
            StrScan::Fail { message } => r matches Err(m) && m@ == message,
        },
{
    let mut j = i + 1;
    let mut col = column + 1;
    let mut value = String::new();
    while j < c.len()
        invariant
            i < j <= c@.len(),
            c@.len() < usize::MAX,
            col == column + (j - i),
            column <= i + 1,
            scan_string(c@, i + 1, Seq::empty(), (column + 1) as nat, line as nat, column as nat)
                == scan_string(c@, j as int, value@, col as nat, line as nat, column as nat),
        decreases c@.len() - j,
    {
        let ch = c[j];
        if ch == '"' {
            return Ok((value, j + 1, col + 1));
        } else if ch == '\\' {
            if j + 1 >= c.len() {
                return Err(unterminated_message(line, column));
            }
            let e = c[j + 1];
            let t = if e == '"' {
                '"'
            } else if e == '\\' {
                '\\'
            } else if e == 'n' {
                '\n'
            } else if e == 't' {
                '\t'
            } else if e == 'r' {
                '\r'
            } else if e == '0' {
                '\0'
            } else {
                let mut m = String::from_str("Unsupported escape '\\");
                push_char(&mut m, e);
                m.append("'");
                append_at(&mut m, line, col);
                assert(m@ =~= "Unsupported escape '\\"@ + seq![e] + "'"@ + at_text(line as nat, col as nat));
                return Err(m);
            };
            push_char(&mut value, t);
            j = j + 2;
            col = col + 2;
        } else if ch == '\n' {
            return Err(unterminated_message(line, column));
        } else {
            push_char(&mut value, ch);
            j = j + 1;
            col = col + 1;
        }
    }
    Err(unterminated_message(line, column))
}

/// The end of the comment whose text starts at `i`.
fn scan_comment(c: &Vec<char>, i: usize) -> (j: usize)
    requires
        i <= c@.len(),
    ensures
        j == comment_end(c@, i as int),
        i <= j <= c@.len(),
{
    let mut j = i;
    while j < c.len() && c[j] != '\n'
        invariant
            i <= j <= c@.len(),
            comment_end(c@, i as int) == comment_end(c@, j as int),
        decreases c@.len() - j,
    {
        j = j + 1;
    }
    j
}

fn simple(kind: TokenKind, ch: char, line: usize, column: usize) -> (t: Token)
    ensures
        t@ == single(kind@, ch, line as nat, column as nat),
{
    let mut lexeme = String::new();
    push_char(&mut lexeme, ch);
    Token { kind, lexeme, line, column }
}

fn two_chars(kind: TokenKind, a: char, b: char, line: usize, column: usize) -> (t: Token)
    ensures
        t@ == (Tok { kind: kind@, lexeme: seq![a, b], line: line as nat, column: column as nat }),
{
    let mut lexeme = String::new();
    push_char(&mut lexeme, a);
    push_char(&mut lexeme, b);
    assert(lexeme@ =~= seq![a, b]);
    Token { kind, lexeme, line, column }
}

/// What the lexer does at position `i`.
fn lex_step(c: &Vec<char>, i: usize, line: usize, column: usize) -> (r: StepOut)
    requires
        i < c@.len(),
        c@.len() < usize::MAX,
        column <= i + 1,
        line <= i + 1,
    ensures
        step_out_view(r) == step(c@, i as int, line as nat, column as nat),
        match r {
            StepOut::Skip { next, line: l, column: col } => i < next <= c@.len() && col <= next + 1
                && l <= next + 1,
            StepOut::Emit { next, line: l, column: col, .. } => i < next <= c@.len() && col <= next
                + 1 && l <= next + 1,
            StepOut::Fail { .. } => true,
        },
{
    let ch = c[i];
    if ch == ' ' || ch == '\t' || ch == '\r' {
        StepOut::Skip { next: i + 1, line, column: column + 1 }
    } else if ch == '\n' {
        StepOut::Skip { next: i + 1, line: line + 1, column: 1 }
    } else if ('a' <= ch && ch <= 'z') || ('A' <= ch && ch <= 'Z') || ch == '_' {
        let j = scan_ident(c, i);
        let kind = word_kind(c, i, j);
        let lexeme = string_of(c, i, j);
        StepOut::Emit { tok: Token { kind, lexeme, line, column }, next: j, line, column: column + (j - i) }
    } else if '0' <= ch && ch <= '9' {
        let (j, dot) = scan_number(c, i);
        let text = string_of(c, i, j);
        let kind = if dot {
            TokenKind::Number(string_of(c, i, j))
        } else {
            proof {
                assert forall|k: int| 0 <= k < text@.len() implies '0' <= #[trigger] text@[k] <= '9' by {
                    let ch2 = c@[i + k];
                    assert(text@[k] == ch2);
                    assert(('0' <= c@[i + k] <= '9') || c@[i + k] == '.');
                    if !('0' <= ch2 <= '9') {
                        assert(c@.subrange(i as int, j as int)[k] == '.');
                    }
                }
            }
            match bigint_normal_text(text.as_str()) {
                Some(t) => TokenKind::Integer(t),
                None => TokenKind::Integer(String::new()),
            }
        };
        StepOut::Emit { tok: Token { kind, lexeme: text, line, column }, next: j, line, column: column + (j - i) }
    } else if ch == '"' {
        match scan_string_body(c, i, line, column) {
            Ok((value, next, col)) => {
                let lexeme = value.clone();
                StepOut::Emit {
                    tok: Token { kind: TokenKind::StringLiteral(value), lexeme, line, column },
                    next,
                    line,
                    column: col,
                }
            },
            Err(message) => StepOut::Fail { message },
        }
    } else if ch == '/' && i + 1 < c.len() && c[i + 1] == '/' {
        let j = scan_comment(c, i + 2);
        StepOut::Skip { next: j, line, column: column + (j - i) }
    } else if ch == '!' || ch == '=' || ch == '<' || ch == '>' {
        let (one, two) = if ch == '!' {
            (TokenKind::Bang, TokenKind::BangEqual)
        } else if ch == '=' {
            (TokenKind::Equal, TokenKind::EqualEqual)
        } else if ch == '<' {
            (TokenKind::Less, TokenKind::LessEqual)
        } else {
            (TokenKind::Greater, TokenKind::GreaterEqual)
        };
        if i + 1 < c.len() && c[i + 1] == '=' {
            StepOut::Emit { tok: two_chars(two, ch, '=', line, column), next: i + 2, line, column: column + 2 }
        } else {
            StepOut::Emit { tok: simple(one, ch, line, column), next: i + 1, line, column: column + 1 }
        }
    } else if ch == '&' || ch == '|' {
        let two = if ch == '&' {
            TokenKind::AndAnd
        } else {
            TokenKind::OrOr
        };
        if i + 1 < c.len() && c[i + 1] == ch {
            StepOut::Emit { tok: two_chars(two, ch, ch, line, column), next: i + 2, line, column: column + 2 }
        } else {
            StepOut::Fail { message: unexpected_message(ch, line, column) }
        }
    } else {
        let k = if ch == '(' {
            Some(TokenKind::LParen)
        } else if ch == ')' {
            Some(TokenKind::RParen)
        } else if ch == '{' {
            Some(TokenKind::LBrace)
        } else if ch == '}' {
            Some(TokenKind::RBrace)
        } else if ch == ';' {
            Some(TokenKind::Semicolon)
        } else if ch == ',' {
            Some(TokenKind::Comma)
        } else if ch == '.' {
            Some(TokenKind::Dot)
        } else if ch == '+' {
            Some(TokenKind::Plus)
        } else if ch == '-' {
            Some(TokenKind::Minus)
        } else if ch == '*' {
            Some(TokenKind::Star)
        } else if ch == '/' {
            Some(TokenKind::Slash)
        } else if ch == '%' {
            Some(TokenKind::Percent)
        } else {
            None
        };
        match k {
            Some(kind) => StepOut::Emit { tok: simple(kind, ch, line, column), next: i + 1, line, column: column + 1 },
            None => StepOut::Fail { message: unexpected_message(ch, line, column) },
        }
    }
}

/// Turn source text into tokens, the last being the end-of-file token; or
/// the error at the first character that no token can start with
pub fn lex(source: &str) -> (r: Result<Vec<Token>, ApexError>)
    requires
        source@.len() < usize::MAX,
    ensures
        match lex_spec(source@) {
            Ok(ts) => r matches Ok(v) && toks(v@) == ts,
            Err(m) => r matches Err(e) && e@ == m,
        },
{
    let c = chars_of(source);
    let mut tokens: Vec<Token> = Vec::new();
    let mut i: usize = 0;
    let mut line: usize = 1;
    let mut column: usize = 1;
    while i < c.len()
        invariant
            c@ == source@,
            c@.len() < usize::MAX,
            i <= c@.len(),
            column <= i + 1,
            line <= i + 1,
            lex_spec(c@) == prepend(toks(tokens@), lex_from(c@, i as nat, line as nat, column as nat)),
        decreases c@.len() - i,
    {
        match lex_step(&c, i, line, column) {
            StepOut::Skip { next, line: l, column: col } => {
                i = next;
                line = l;
                column = col;
            },
            StepOut::Emit { tok, next, line: l, column: col } => {
                let ghost before = toks(tokens@);
                proof {
                    let rest = lex_from(c@, next as nat, l as nat, col as nat);
                    assert(toks(tokens@.push(tok)) =~= before.push(tok@));
                    match rest {
                        Ok(r) => {
                            assert(before + (seq![tok@] + r) =~= before.push(tok@) + r);
                        },
                        Err(_) => {},
                    }
                }
                tokens.push(tok);
                i = next;
                line = l;
                column = col;
            },
            StepOut::Fail { message } => {
                return Err(ApexError::new(message));
            },
        }
    }
    let ghost before = toks(tokens@);
    tokens.push(Token { kind: TokenKind::Eof, lexeme: String::new(), line, column });
    proof {
        assert(toks(tokens@) =~= before + seq![Tok { kind: Kind::Eof, lexeme: Seq::empty(), line: line as nat, column: column as nat }]);
    }
    Ok(tokens)
}

} // verus!
