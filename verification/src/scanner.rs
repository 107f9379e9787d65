//! The scanner: turns source text into tokens.
//!
//! What the scanner computes is stated by [`scan_step`] (one token, or one
//! skipped piece of text, or one error, starting at a position) and
//! [`scan_from`] (all of them from a position to the end).
use vstd::prelude::*;

use crate::diagnostics::{DiagnosticPhase, Diagnostics, SpecDiagnostic};
use crate::text::{chars_of, push_char, string_of_range};
use crate::token::{SpecToken, SpecValue, Token, TokenType, Value};

verus! {

// ---------------------------------------------------------------------------
// Specification
// ---------------------------------------------------------------------------

pub open spec fn is_digit(c: char) -> bool {
    '0' <= c && c <= '9'
}

pub open spec fn is_alpha_spec(c: char) -> bool {
    ('a' <= c && c <= 'z') || ('A' <= c && c <= 'Z') || c == '_'
}

pub open spec fn is_alnum_spec(c: char) -> bool {
    is_alpha_spec(c) || is_digit(c)
}

/// The character at `i`, or `'\0'` past the end.
pub open spec fn char_at(src: Seq<char>, i: int) -> char {
    if 0 <= i < src.len() {
        src[i]
    } else {
        '\0'
    }
}

/// The end of the run of digits that starts at `i`.
pub open spec fn digits_end(src: Seq<char>, i: int) -> int
    decreases src.len() - i,
{
    if 0 <= i < src.len() && is_digit(src[i]) {
        digits_end(src, i + 1)
    } else {
        i
    }
}

/// The end of the run of letters, digits and underscores that starts at `i`.
pub open spec fn word_end(src: Seq<char>, i: int) -> int
    decreases src.len() - i,
{
    if 0 <= i < src.len() && is_alnum_spec(src[i]) {
        word_end(src, i + 1)
    } else {
        i
    }
}

/// The position of the first newline at or after `i`, or the end.
pub open spec fn comment_end(src: Seq<char>, i: int) -> int
    decreases src.len() - i,
{
    if 0 <= i < src.len() && src[i] != '\n' {
        comment_end(src, i + 1)
    } else {
        i
    }
}

/// The decimal value of a run of digits.
pub open spec fn decimal_value(s: Seq<char>) -> int
    decreases s.len(),
{
    if s.len() == 0 {
        0
    } else {
        decimal_value(s.drop_last()) * 10 + (s.last() as int - '0' as int)
    }
}

/// The characters that the escape `\e` stands for in a string literal.
pub open spec fn escape_chars(e: char) -> Seq<char> {
    if e == 'n' {
        seq!['\n']
    } else if e == 't' {
        seq!['\t']
    } else if e == 'r' {
        seq!['\r']
    } else if e == '\\' {
        seq!['\\']
    } else if e == '"' {
        seq!['"']
    } else if e == '\'' {
        seq!['\'']
    } else {
        seq!['\\', e]
    }
}

/// The body of a string literal from `i` up to its closing `delim`: where the
/// body stops, the line reached, and the characters it stands for.
pub open spec fn string_body(src: Seq<char>, i: int, delim: char, line: nat, acc: Seq<char>) -> (
    int,
    nat,
    Seq<char>,
)
    decreases src.len() - i,
{
    if i < 0 || i >= src.len() || src[i] == delim {
        (i, line, acc)
    } else {
        let line2 = if src[i] == '\n' {
            line + 1
        } else {
            line
        };
        if src[i] == '\\' {
            if i + 1 >= src.len() {
                (i + 1, line2, acc)
            } else {
                string_body(src, i + 2, delim, line2, acc + escape_chars(src[i + 1]))
            }
        } else {
            string_body(src, i + 1, delim, line2, acc.push(src[i]))
        }
    }
}

/// The keyword that `text` spells, if any.
pub open spec fn keyword_of(text: Seq<char>) -> Option<TokenType> {
    if text == seq!['a', 'n', 'd'] {
        Some(TokenType::And)
    } else if text == seq!['c', 'l', 'a', 's', 's'] {
        Some(TokenType::Class)
    } else if text == seq!['e', 'l', 's', 'e'] {
        Some(TokenType::Else)
    } else if text == seq!['e', 'x', 't', 'e', 'r', 'n'] {
        Some(TokenType::Extern)
    } else if text == seq!['f', 'a', 'l', 's', 'e'] {
        Some(TokenType::False)
    } else if text == seq!['f', 'n'] {
        Some(TokenType::Fn)
    } else if text == seq!['f', 'o', 'r'] {
        Some(TokenType::For)
    } else if text == seq!['i', 'f'] {
        Some(TokenType::If)
    } else if text == seq!['i', 'n', 'c', 'l', 'u', 'd', 'e'] {
        Some(TokenType::Include)
    } else if text == seq!['n', 'u', 'l', 'l'] {
        Some(TokenType::Null)
    } else if text == seq!['o', 'r'] {
        Some(TokenType::Or)
    } else if text == seq!['n', 'e', 'w'] {
        Some(TokenType::New)
    } else if text == seq!['d', 'e', 'l', 'e', 't', 'e'] {
        Some(TokenType::Delete)
    } else if text == seq!['r', 'e', 't', 'u', 'r', 'n'] {
        Some(TokenType::Return)
    } else if text == seq!['s', 't', 'r', 'u', 'c', 't'] {
        Some(TokenType::Struct)
    } else if text == seq!['s', 'u', 'p', 'e', 'r'] {
        Some(TokenType::Super)
    } else if text == seq!['t', 'h', 'i', 's'] {
        Some(TokenType::This)
    } else if text == seq!['t', 'r', 'u', 'e'] {
        Some(TokenType::True)
    } else if text == seq!['l', 'e', 't'] {
        Some(TokenType::Let)
    } else if text == seq!['w', 'h', 'i', 'l', 'e'] {
        Some(TokenType::While)
    } else {
        None
    }
}

/// The token kind of a character that is a token by itself.
pub open spec fn single_char_token(c: char) -> Option<TokenType> {
    if c == '(' {
        Some(TokenType::LeftParen)
    } else if c == ')' {
        Some(TokenType::RightParen)
    } else if c == '{' {
        Some(TokenType::LeftBrace)
    } else if c == '}' {
        Some(TokenType::RightBrace)
    } else if c == '[' {
        Some(TokenType::LeftBracket)
    } else if c == ']' {
        Some(TokenType::RightBracket)
    } else if c == ',' {
        Some(TokenType::Comma)
    } else if c == '.' {
        Some(TokenType::Dot)
    } else if c == '-' {
        Some(TokenType::Minus)
    } else if c == '+' {
        Some(TokenType::Plus)
    } else if c == ';' {
        Some(TokenType::Semicolon)
    } else if c == ':' {
        Some(TokenType::Colon)
    } else if c == '*' {
        Some(TokenType::Star)
    } else if c == '@' {
        Some(TokenType::At)
    } else {
        None
    }
}

/// For `!`, `=`, `<` and `>`: the kind alone and the kind followed by `=`.
pub open spec fn one_or_two_char_token(c: char) -> Option<(TokenType, TokenType)> {
    if c == '!' {
        Some((TokenType::Bang, TokenType::BangEqual))
    } else if c == '=' {
        Some((TokenType::Equal, TokenType::EqualEqual))
    } else if c == '<' {
        Some((TokenType::Less, TokenType::LessEqual))
    } else if c == '>' {
        Some((TokenType::Greater, TokenType::GreaterEqual))
    } else {
        None
    }
}

/// The errors that the scanner reports.
#[derive(Debug, Clone, Copy, PartialEq, Eq, Structural)]
pub enum ScanError {
    UnexpectedCharacter,
    UnterminatedString,
    IntegerTooLarge,
}

/// The message that reports a scan error.
pub open spec fn scan_error_text(kind: ScanError) -> Seq<char> {
    match kind {
        ScanError::UnexpectedCharacter => "Unexpected character."@,
        ScanError::UnterminatedString => "Unterminated string."@,
        ScanError::IntegerTooLarge => "Numeric literal is too large for a 64-bit integer."@,
    }
}

/// The diagnostics that report scan errors found in the source named `name`.
pub open spec fn scan_diagnostics(name: Seq<char>, errs: Seq<(nat, ScanError)>) -> Seq<SpecDiagnostic> {
    errs.map_values(|e: (nat, ScanError)| SpecDiagnostic {
        phase: DiagnosticPhase::Scan,
        file: name,
        line: Some(e.0),
        message: scan_error_text(e.1),
    })
}

/// What one step of the scanner does from position `start` on line `line`.
pub struct ScanStep {
    pub next: int,
    pub line: nat,
    pub token: Option<SpecToken>,
    pub error: Option<ScanError>,
}

pub open spec fn tok(src: Seq<char>, start: int, end: int, tt: TokenType, lit: SpecValue, line: nat) -> Option<SpecToken> {
    Some(SpecToken { token_type: tt, lexeme: src.subrange(start, end), literal: lit, line })
}

/// One step of the scanner at `start` (which is inside the source).
pub open spec fn scan_step(src: Seq<char>, start: int, line: nat) -> ScanStep {
    let c = src[start];
    if single_char_token(c) is Some {
        ScanStep { next: start + 1, line, token: tok(src, start, start + 1, single_char_token(c)->0, SpecValue::Null, line), error: None }
    } else if one_or_two_char_token(c) is Some {
        let (one, two) = one_or_two_char_token(c)->0;
        if start + 1 < src.len() && src[start + 1] == '=' {
            ScanStep { next: start + 2, line, token: tok(src, start, start + 2, two, SpecValue::Null, line), error: None }
        } else {
            ScanStep { next: start + 1, line, token: tok(src, start, start + 1, one, SpecValue::Null, line), error: None }
        }
    } else if c == '/' {
        if start + 1 < src.len() && src[start + 1] == '/' {
            ScanStep { next: comment_end(src, start + 2), line, token: None, error: None }
        } else {
            ScanStep { next: start + 1, line, token: tok(src, start, start + 1, TokenType::Slash, SpecValue::Null, line), error: None }
        }
    } else if c == '"' || c == '\'' {
        let (end, line2, body) = string_body(src, start + 1, c, line, Seq::empty());
        if end >= src.len() {
            ScanStep { next: end, line: line2, token: None, error: Some(ScanError::UnterminatedString) }
        } else {
            ScanStep { next: end + 1, line: line2, token: tok(src, start, end + 1, TokenType::Str, SpecValue::Str(body), line2), error: None }
        }
    } else if c == ' ' || c == '\r' || c == '\t' {
        ScanStep { next: start + 1, line, token: None, error: None }
    } else if c == '\n' {
        ScanStep { next: start + 1, line: line + 1, token: None, error: None }
    } else if is_digit(c) {
        let int_end = digits_end(src, start + 1);
        if char_at(src, int_end) == '.' && is_digit(char_at(src, int_end + 1)) {
            let end = digits_end(src, int_end + 1);
            ScanStep { next: end, line, token: tok(src, start, end, TokenType::Float, SpecValue::Float(src.subrange(start, end)), line), error: None }
        } else {
            let v = decimal_value(src.subrange(start, int_end));
            if v <= i64::MAX {
                ScanStep { next: int_end, line, token: tok(src, start, int_end, TokenType::Int, SpecValue::Int(v as i64), line), error: None }
            } else {
                ScanStep { next: int_end, line, token: None, error: Some(ScanError::IntegerTooLarge) }
            }
        }
    } else if is_alpha_spec(c) {
        let end = word_end(src, start + 1);
        let text = src.subrange(start, end);
        let tt = match keyword_of(text) {
            Some(k) => k,
            None => TokenType::Identifier,
        };
        ScanStep { next: end, line, token: tok(src, start, end, tt, SpecValue::Null, line), error: None }
    } else {
        ScanStep { next: start + 1, line, token: None, error: Some(ScanError::UnexpectedCharacter) }
    }
}

pub open spec fn opt_seq<A>(o: Option<A>) -> Seq<A> {
    match o {
        Some(a) => seq![a],
        None => Seq::empty(),
    }
}

pub open spec fn push_opt<A>(s: Seq<A>, o: Option<A>) -> Seq<A> {
    match o {
        Some(a) => s.push(a),
        None => s,
    }
}

/// The result of scanning from `pos` on line `line` to the end of the source:
/// the tokens, the errors (each with the line on which it was reported), and
/// the line reached at the end.
pub open spec fn scan_from(src: Seq<char>, pos: int, line: nat) -> (Seq<SpecToken>, Seq<(nat, ScanError)>, nat)
    decreases src.len() - pos,
{
    if pos < 0 || pos >= src.len() {
        (Seq::empty(), Seq::empty(), line)
    } else {
        let step = scan_step(src, pos, line);
        if step.next <= pos || step.next > src.len() {
            (Seq::empty(), Seq::empty(), line)
        } else {
            let rest = scan_from(src, step.next, step.line);
            (
                opt_seq(step.token) + rest.0,
                opt_seq(match step.error { Some(e) => Some((step.line, e)), None => None }) + rest.1,
                rest.2,
            )
        }
    }
}

/// The end-of-file token on line `line`.
pub open spec fn eof_token(line: nat) -> SpecToken {
    SpecToken { token_type: TokenType::EofToken, lexeme: Seq::empty(), literal: SpecValue::Null, line }
}

/// The tokens of a whole source text, ending with the end-of-file token.
pub open spec fn spec_tokens(src: Seq<char>) -> Seq<SpecToken> {
    let r = scan_from(src, 0, 1);
    r.0.push(eof_token(r.2))
}

/// The errors found in a whole source text, with their lines.
pub open spec fn spec_scan_errors(src: Seq<char>) -> Seq<(nat, ScanError)> {
    scan_from(src, 0, 1).1
}

} // verus!

verus! {

// ---------------------------------------------------------------------------
// Facts about the specification
// ---------------------------------------------------------------------------

proof fn lemma_digits_end(src: Seq<char>, i: int)
    requires
        0 <= i <= src.len(),
    ensures
        i <= digits_end(src, i) <= src.len(),
        forall|k: int| i <= k < digits_end(src, i) ==> is_digit(#[trigger] src[k]),
        digits_end(src, i) < src.len() ==> !is_digit(src[digits_end(src, i)]),
    decreases src.len() - i,
{
    if i < src.len() && is_digit(src[i]) {
        lemma_digits_end(src, i + 1);
    }
}

proof fn lemma_word_end(src: Seq<char>, i: int)
    requires
        0 <= i <= src.len(),
    ensures
        i <= word_end(src, i) <= src.len(),
        word_end(src, i) < src.len() ==> !is_alnum_spec(src[word_end(src, i)]),
    decreases src.len() - i,
{
    if i < src.len() && is_alnum_spec(src[i]) {
        lemma_word_end(src, i + 1);
    }
}

proof fn lemma_comment_end(src: Seq<char>, i: int)
    requires
        0 <= i <= src.len(),
    ensures
        i <= comment_end(src, i) <= src.len(),
    decreases src.len() - i,
{
    if i < src.len() && src[i] != '\n' {
        lemma_comment_end(src, i + 1);
    }
}

proof fn lemma_string_body(src: Seq<char>, i: int, delim: char, line: nat, acc: Seq<char>)
    requires
        0 <= i <= src.len(),
    ensures
        i <= string_body(src, i, delim, line, acc).0 <= src.len(),
        line <= string_body(src, i, delim, line, acc).1 <= line + (string_body(src, i, delim, line, acc).0 - i),
    decreases src.len() - i,
{
    if i < src.len() && src[i] != delim {
        let line2 = if src[i] == '\n' { line + 1 } else { line };
        if src[i] == '\\' {
            if i + 1 < src.len() {
                lemma_string_body(src, i + 2, delim, line2, acc + escape_chars(src[i + 1]));
            }
        } else {
            lemma_string_body(src, i + 1, delim, line2, acc.push(src[i]));
        }
    }
}

/// Each step moves forward, stays inside the source, and counts at most one
/// line per character it passes.
proof fn lemma_scan_step(src: Seq<char>, start: int, line: nat)
    requires
        0 <= start < src.len(),
    ensures
        start < scan_step(src, start, line).next <= src.len(),
        line <= scan_step(src, start, line).line <= line + (scan_step(src, start, line).next - start),
{
    let c = src[start];
    lemma_digits_end(src, start + 1);
    lemma_word_end(src, start + 1);
    lemma_comment_end(src, if start + 2 <= src.len() { start + 2 } else { src.len() as int });
    lemma_string_body(src, start + 1, c, line, Seq::empty());
    let int_end = digits_end(src, start + 1);
    if int_end + 1 <= src.len() {
        lemma_digits_end(src, int_end + 1);
    }
}

/// One step of scanning (`scan_token`) adds at most one token after those
/// scanned before it, and at most one error: the tokens and errors from
/// `pos` on are those of the step followed by those of scanning on from
/// where the step ended.
pub proof fn lemma_scan_from_unfold(src: Seq<char>, pos: int, line: nat)
    requires
        0 <= pos < src.len(),
    ensures
        ({
            let step = scan_step(src, pos, line);
            let rest = scan_from(src, step.next, step.line);
            scan_from(src, pos, line) == (
                opt_seq(step.token) + rest.0,
                opt_seq(match step.error { Some(e) => Some((step.line, e)), None => None }) + rest.1,
                rest.2,
            )
        }),
{
    lemma_scan_step(src, pos, line);
}

// ---------------------------------------------------------------------------
// Implementation
// ---------------------------------------------------------------------------

pub fn is_alpha(c: char) -> (r: bool)
    ensures
        r == is_alpha_spec(c),
{
    ('a' <= c && c <= 'z') || ('A' <= c && c <= 'Z') || c == '_'
}

pub fn is_alpha_numeric(c: char) -> (r: bool)
    ensures
        r == is_alnum_spec(c),
{
    is_alpha(c) || ('0' <= c && c <= '9')
}

fn is_ascii_digit(c: char) -> (r: bool)
    ensures
        r == is_digit(c),
{
    '0' <= c && c <= '9'
}

/// Whether `src[from..to]` spells `word`.
fn range_is(src: &Vec<char>, from: usize, to: usize, word: &[char]) -> (r: bool)
    requires
        from <= to <= src@.len(),
    ensures
        r == (src@.subrange(from as int, to as int) == word@),
{
    if to - from != word.len() {
        return false;
    }
    let mut i: usize = 0;
    while i < word.len()
        invariant
            from <= to <= src@.len(),
            to - from == word@.len(),
            i <= word@.len(),
            forall|k: int| 0 <= k < i ==> src@[from + k] == word@[k],
        decreases word@.len() - i,
    {
        if src[from + i] != word[i] {
            assert(src@.subrange(from as int, to as int)[i as int] != word@[i as int]);
            return false;
        }
        i = i + 1;
    }
    assert(src@.subrange(from as int, to as int) =~= word@);
    true
}

/// The keyword that `src[from..to]` spells, if any.
fn keyword_type(src: &Vec<char>, from: usize, to: usize) -> (r: Option<TokenType>)
    requires
        from <= to <= src@.len(),
    ensures
        r == keyword_of(src@.subrange(from as int, to as int)),
{
    let ghost t = src@.subrange(from as int, to as int);
    if range_is(src, from, to, &['a', 'n', 'd']) {
        assert(t == seq!['a', 'n', 'd']);
        Some(TokenType::And)
    } else if range_is(src, from, to, &['c', 'l', 'a', 's', 's']) {
        Some(TokenType::Class)
    } else if range_is(src, from, to, &['e', 'l', 's', 'e']) {
        Some(TokenType::Else)
    } else if range_is(src, from, to, &['e', 'x', 't', 'e', 'r', 'n']) {
        Some(TokenType::Extern)
    } else if range_is(src, from, to, &['f', 'a', 'l', 's', 'e']) {
        Some(TokenType::False)
    } else if range_is(src, from, to, &['f', 'n']) {
        Some(TokenType::Fn)
    } else if range_is(src, from, to, &['f', 'o', 'r']) {
        Some(TokenType::For)
    } else if range_is(src, from, to, &['i', 'f']) {
        Some(TokenType::If)
    } else if range_is(src, from, to, &['i', 'n', 'c', 'l', 'u', 'd', 'e']) {
        Some(TokenType::Include)
    } else if range_is(src, from, to, &['n', 'u', 'l', 'l']) {
        Some(TokenType::Null)
    } else if range_is(src, from, to, &['o', 'r']) {
        Some(TokenType::Or)
    } else if range_is(src, from, to, &['n', 'e', 'w']) {
        Some(TokenType::New)
    } else if range_is(src, from, to, &['d', 'e', 'l', 'e', 't', 'e']) {
        Some(TokenType::Delete)
    } else if range_is(src, from, to, &['r', 'e', 't', 'u', 'r', 'n']) {
        Some(TokenType::Return)
    } else if range_is(src, from, to, &['s', 't', 'r', 'u', 'c', 't']) {
        Some(TokenType::Struct)
    } else if range_is(src, from, to, &['s', 'u', 'p', 'e', 'r']) {
        Some(TokenType::Super)
    } else if range_is(src, from, to, &['t', 'h', 'i', 's']) {
        Some(TokenType::This)
    } else if range_is(src, from, to, &['t', 'r', 'u', 'e']) {
        Some(TokenType::True)
    } else if range_is(src, from, to, &['l', 'e', 't']) {
        Some(TokenType::Let)
    } else if range_is(src, from, to, &['w', 'h', 'i', 'l', 'e']) {
        Some(TokenType::While)
    } else {
        None
    }
}

} // verus!

verus! {

/// Turns a source text into tokens.
pub struct Scanner {
    source: Vec<char>,
    tokens: Vec<Token>,
    errors: Vec<(usize, ScanError)>,
    start: usize,
    current: usize,
    line: usize,
    source_name: String,
    pub had_error: bool,
}

pub open spec fn tokens_view(ts: Seq<Token>) -> Seq<SpecToken> {
    ts.map_values(|t: Token| t@)
}

pub open spec fn errors_view(es: Seq<(usize, ScanError)>) -> Seq<(nat, ScanError)> {
    es.map_values(|e: (usize, ScanError)| (e.0 as nat, e.1))
}

impl Scanner {
    /// The source text being scanned.
    pub closed spec fn source_view(&self) -> Seq<char> {
        self.source@
    }

    /// The name under which diagnostics report the source.
    pub closed spec fn name_view(&self) -> Seq<char> {
        self.source_name@
    }

    /// A scanner that has not scanned anything yet.
    /// Whether a scan error was found.
    pub closed spec fn error_flag(&self) -> bool {
        self.had_error
    }

    pub closed spec fn is_fresh(&self) -> bool {
        &&& self.tokens@.len() == 0
        &&& self.errors@.len() == 0
        &&& self.start == 0
        &&& self.current == 0
        &&& self.line == 1
        &&& !self.had_error
        &&& self.source@.len() < usize::MAX
    }

    closed spec fn wf(&self) -> bool {
        &&& self.source@.len() < usize::MAX
        &&& self.start <= self.current <= self.source@.len()
        &&& 1 <= self.line <= self.current + 1
        &&& self.had_error == (self.errors@.len() > 0)
    }

    closed spec fn toks(&self) -> Seq<SpecToken> {
        tokens_view(self.tokens@)
    }

    closed spec fn errs(&self) -> Seq<(nat, ScanError)> {
        errors_view(self.errors@)
    }

    /// A scanner for `source`, reported as `<input>` in diagnostics.
    pub fn new(source: &str) -> (s: Scanner)
        requires
            source@.len() < usize::MAX,
        ensures
            s.source_view() == source@,
            s.is_fresh(),
            !s.error_flag(),
    {
        Self::new_with_source(source, "<input>")
    }

    /// A scanner for `source`, reported as `source_name` in diagnostics.
    pub fn new_with_source(source: &str, source_name: &str) -> (s: Scanner)
        requires
            source@.len() < usize::MAX,
        ensures
            s.source_view() == source@,
            s.name_view() == source_name@,
            s.is_fresh(),
    {
        Scanner {
            source: chars_of(source),
            tokens: Vec::new(),
            errors: Vec::new(),
            start: 0,
            current: 0,
            line: 1,
            source_name: source_name.to_string(),
            had_error: false,
        }
    }

    fn is_at_end(&self) -> (r: bool)
        requires
            self.current <= self.source@.len(),
        ensures
            r == (self.current == self.source@.len()),
    {
        self.current >= self.source.len()
    }

    fn advance(&mut self) -> (c: char)
        requires
            old(self).current < old(self).source@.len(),
            old(self).source@.len() < usize::MAX,
        ensures
            c == old(self).source@[old(self).current as int],
            *final(self) == (Scanner { current: (old(self).current + 1) as usize, ..*old(self) }),
    {
        let c = self.source[self.current];
        self.current = self.current + 1;
        c
    }

    fn match_char(&mut self, expected: char) -> (r: bool)
        requires
            old(self).current <= old(self).source@.len(),
            old(self).source@.len() < usize::MAX,
        ensures
            r == (old(self).current < old(self).source@.len() && old(self).source@[old(self).current as int] == expected),
            *final(self) == (if r {
                Scanner { current: (old(self).current + 1) as usize, ..*old(self) }
            } else {
                *old(self)
            }),
    {
        if self.is_at_end() {
            return false;
        }
        if self.source[self.current] != expected {
            return false;
        }
        self.current = self.current + 1;
        true
    }

    fn peek(&self) -> (c: char)
        requires
            self.current <= self.source@.len(),
        ensures
            c == char_at(self.source@, self.current as int),
    {
        if self.is_at_end() {
            '\0'
        } else {
            self.source[self.current]
        }
    }

    fn peek_next(&self) -> (c: char)
        requires
            self.current <= self.source@.len(),
            self.source@.len() < usize::MAX,
        ensures
            c == char_at(self.source@, self.current + 1),
    {
        if self.current + 1 >= self.source.len() {
            '\0'
        } else {
            self.source[self.current + 1]
        }
    }

    fn add_token(&mut self, token_type: TokenType)
        requires
            old(self).start <= old(self).current <= old(self).source@.len(),
        ensures
            final(self).toks() == old(self).toks().push(SpecToken {
                token_type,
                lexeme: old(self).source@.subrange(old(self).start as int, old(self).current as int),
                literal: SpecValue::Null,
                line: old(self).line as nat,
            }),
            final(self).source == old(self).source,
            final(self).source_name == old(self).source_name,
            final(self).errors == old(self).errors,
            final(self).start == old(self).start,
            final(self).current == old(self).current,
            final(self).line == old(self).line,
            final(self).had_error == old(self).had_error,
    {
        self.add_token_lit(token_type, Value::Null);
    }

    fn add_token_lit(&mut self, token_type: TokenType, literal: Value)
        requires
            old(self).start <= old(self).current <= old(self).source@.len(),
        ensures
            final(self).toks() == old(self).toks().push(SpecToken {
                token_type,
                lexeme: old(self).source@.subrange(old(self).start as int, old(self).current as int),
                literal: literal@,
                line: old(self).line as nat,
            }),
            final(self).source == old(self).source,
            final(self).source_name == old(self).source_name,
            final(self).errors == old(self).errors,
            final(self).start == old(self).start,
            final(self).current == old(self).current,
            final(self).line == old(self).line,
            final(self).had_error == old(self).had_error,
    {
        let text = string_of_range(&self.source, self.start, self.current);
        let t = Token::new(token_type, text, literal, self.line);
        self.tokens.push(t);
        proof {
            assert(tokens_view(self.tokens@) =~= tokens_view(old(self).tokens@).push(t@));
        }
    }

    fn error(&mut self, kind: ScanError)
        ensures
            final(self).errs() == old(self).errs().push((old(self).line as nat, kind)),
            final(self).errors@.len() == old(self).errors@.len() + 1,
            final(self).had_error,
            final(self).source == old(self).source,
            final(self).source_name == old(self).source_name,
            final(self).tokens == old(self).tokens,
            final(self).start == old(self).start,
            final(self).current == old(self).current,
            final(self).line == old(self).line,
    {
        self.errors.push((self.line, kind));
        self.had_error = true;
        proof {
            assert(errors_view(self.errors@) =~= errors_view(old(self).errors@).push((old(self).line as nat, kind)));
        }
    }
}

} // verus!

verus! {

impl Scanner {
    /// `new` is `old` after the step `step`.
    closed spec fn step_applied(old: &Scanner, new: &Scanner, step: ScanStep) -> bool {
        &&& new.source == old.source
        &&& new.source_name == old.source_name
        &&& new.start == old.start
        &&& new.current as int == step.next
        &&& new.line as nat == step.line
        &&& new.toks() == push_opt(old.toks(), step.token)
        &&& new.errs() == push_opt(
            old.errs(),
            match step.error {
                Some(e) => Some((step.line, e)),
                None => None,
            },
        )
        &&& new.had_error == (old.had_error || step.error is Some)
    }

    fn string(&mut self, delim: char)
        requires
            old(self).wf(),
            old(self).current == old(self).start + 1,
            old(self).source@[old(self).start as int] == delim,
            delim == '"' || delim == '\'',
        ensures
            Self::step_applied(old(self), final(self), scan_step(old(self).source@, old(self).start as int, old(self).line as nat)),
            final(self).wf(),
    {
        let ghost src = self.source@;
        let ghost c0 = self.current as int;
        let ghost l0 = self.line as nat;
        let mut value = String::new();
        proof {
            lemma_string_body(src, c0, delim, l0, Seq::empty());
        }
        while self.peek() != delim && !self.is_at_end()
            invariant
                self.wf(),
                self.source@ == src,
                self.source == old(self).source,
                self.source_name == old(self).source_name,
                self.start == old(self).start,
                self.toks() == old(self).toks(),
                self.errs() == old(self).errs(),
                self.had_error == old(self).had_error,
                c0 <= self.current,
                string_body(src, c0, delim, l0, Seq::empty()) == string_body(src, self.current as int, delim, self.line as nat, value@),
            decreases src.len() - self.current,
        {
            if self.peek() == '\n' {
                self.line = self.line + 1;
            }
            if self.peek() == '\\' {
                self.advance();
                if !self.is_at_end() {
                    let e = self.peek();
                    let ghost before = value@;
                    if e == 'n' {
                        push_char(&mut value, '\n');
                    } else if e == 't' {
                        push_char(&mut value, '\t');
                    } else if e == 'r' {
                        push_char(&mut value, '\r');
                    } else if e == '\\' {
                        push_char(&mut value, '\\');
                    } else if e == '"' {
                        push_char(&mut value, '"');
                    } else if e == '\'' {
                        push_char(&mut value, '\'');
                    } else {
                        push_char(&mut value, '\\');
                        push_char(&mut value, e);
                    }
                    proof {
                        assert(value@ =~= before + escape_chars(e));
                    }
                    self.advance();
                }
            } else {
                let c = self.peek();
                push_char(&mut value, c);
                self.advance();
            }
        }
        let ghost end = self.current as int;
        let ghost line2 = self.line as nat;
        proof {
            assert(string_body(src, end, delim, line2, value@) == (end, line2, value@));
            assert(string_body(src, c0, delim, l0, Seq::empty()) == (end, line2, value@));
            assert(single_char_token(delim) is None);
            assert(one_or_two_char_token(delim) is None);
        }
        if self.is_at_end() {
            let ghost before = self.errs();
            self.error(ScanError::UnterminatedString);
            proof {
                assert(self.errs() =~= before + seq![(line2, ScanError::UnterminatedString)]);
                assert(self.toks() =~= old(self).toks() + Seq::<SpecToken>::empty());
            }
            return;
        }
        self.advance();
        let ghost before = self.toks();
        let ghost v = value@;
        self.add_token_lit(TokenType::Str, Value::Str(value));
        proof {
            let t = SpecToken {
                token_type: TokenType::Str,
                lexeme: src.subrange(self.start as int, end + 1),
                literal: SpecValue::Str(v),
                line: line2,
            };
            assert(self.toks() =~= before + seq![t]);
            assert(self.errs() =~= old(self).errs() + Seq::<(nat, ScanError)>::empty());
            let st = scan_step(src, self.start as int, l0);
            assert(src[self.start as int] == delim);
            assert(st.next == end + 1);
            assert(st.line == line2);
            assert(st.token == Some(t));
            assert(st.error is None);
        }
    }
}

} // verus!

verus! {

impl Scanner {
    fn number(&mut self)
        requires
            old(self).wf(),
            old(self).current == old(self).start + 1,
            is_digit(old(self).source@[old(self).start as int]),
        ensures
            Self::step_applied(old(self), final(self), scan_step(old(self).source@, old(self).start as int, old(self).line as nat)),
            final(self).wf(),
    {
        let ghost src = self.source@;
        let ghost start = self.start as int;
        proof {
            lemma_digits_end(src, start + 1);
        }
        while is_ascii_digit(self.peek())
            invariant
                self.wf(),
                self.source@ == src,
                *self == (Scanner { current: self.current, ..*old(self) }),
                start + 1 <= self.current,
                digits_end(src, start + 1) == digits_end(src, self.current as int),
            decreases src.len() - self.current,
        {
            self.advance();
        }
        let ghost int_end = self.current as int;
        proof {
            lemma_digits_end(src, int_end);
            lemma_digits_end(src, start + 1);
            assert(single_char_token(src[start]) is None);
            assert(one_or_two_char_token(src[start]) is None);
        }
        if self.peek() == '.' && is_ascii_digit(self.peek_next()) {
            self.advance();
            proof {
                lemma_digits_end(src, self.current as int);
            }
            while is_ascii_digit(self.peek())
                invariant
                    self.wf(),
                    self.source@ == src,
                    *self == (Scanner { current: self.current, ..*old(self) }),
                    int_end + 1 <= self.current,
                    digits_end(src, int_end + 1) == digits_end(src, self.current as int),
                decreases src.len() - self.current,
            {
                self.advance();
            }
            let text = string_of_range(&self.source, self.start, self.current);
            let ghost tv = text@;
            let ghost before = self.toks();
            self.add_token_lit(TokenType::Float, Value::Float(text));
            proof {
                let t = SpecToken {
                    token_type: TokenType::Float,
                    lexeme: src.subrange(start, self.current as int),
                    literal: SpecValue::Float(tv),
                    line: self.line as nat,
                };
                assert(self.toks() =~= before + seq![t]);
                assert(self.errs() =~= old(self).errs() + Seq::<(nat, ScanError)>::empty());
            }
            return;
        }
        // An integer literal: its decimal value, unless it does not fit.
        let mut value: i64 = 0;
        let mut overflow = false;
        let mut i = self.start;
        while i < self.current
            invariant
                self.source@ == src,
                start <= i,
                i <= self.current,
                self.current == int_end,
                int_end <= src.len(),
                self.start == start,
                forall|k: int| start <= k < int_end ==> is_digit(#[trigger] src[k]),
                !overflow ==> value == decimal_value(src.subrange(start, i as int)),
                overflow ==> decimal_value(src.subrange(start, i as int)) > i64::MAX,
                decimal_value(src.subrange(start, i as int)) >= 0,
            decreases self.current - i,
        {
            let c = self.source[i];
            let d = (c as u32 - '0' as u32) as i64;
            proof {
                assert(src.subrange(start, i + 1).drop_last() =~= src.subrange(start, i as int));
                assert(src.subrange(start, i + 1).last() == c);
            }
            if !overflow {
                if value <= (i64::MAX - d) / 10 {
                    value = value * 10 + d;
                } else {
                    overflow = true;
                }
            }
            i = i + 1;
        }
        if overflow {
            self.error(ScanError::IntegerTooLarge);
            proof {
                assert(self.toks() =~= old(self).toks() + Seq::<SpecToken>::empty());
                assert(self.errs() =~= old(self).errs() + seq![(self.line as nat, ScanError::IntegerTooLarge)]);
            }
        } else {
            let ghost before = self.toks();
            self.add_token_lit(TokenType::Int, Value::Int(value));
            proof {
                let t = SpecToken {
                    token_type: TokenType::Int,
                    lexeme: src.subrange(start, int_end),
                    literal: SpecValue::Int(value),
                    line: self.line as nat,
                };
                assert(self.toks() =~= before + seq![t]);
                assert(self.errs() =~= old(self).errs() + Seq::<(nat, ScanError)>::empty());
            }
        }
    }

    fn identifier(&mut self)
        requires
            old(self).wf(),
            old(self).current == old(self).start + 1,
            is_alpha_spec(old(self).source@[old(self).start as int]),
        ensures
            Self::step_applied(old(self), final(self), scan_step(old(self).source@, old(self).start as int, old(self).line as nat)),
            final(self).wf(),
    {
        let ghost src = self.source@;
        let ghost start = self.start as int;
        proof {
            lemma_word_end(src, start + 1);
        }
        while is_alpha_numeric(self.peek())
            invariant
                self.wf(),
                self.source@ == src,
                *self == (Scanner { current: self.current, ..*old(self) }),
                start + 1 <= self.current,
                word_end(src, start + 1) == word_end(src, self.current as int),
            decreases src.len() - self.current,
        {
            self.advance();
        }
        proof {
            lemma_word_end(src, self.current as int);
            assert(single_char_token(src[start]) is None);
            assert(one_or_two_char_token(src[start]) is None);
        }
        let token_type = match keyword_type(&self.source, self.start, self.current) {
            Some(k) => k,
            None => TokenType::Identifier,
        };
        let ghost before = self.toks();
        self.add_token(token_type);
        proof {
            let t = SpecToken {
                token_type,
                lexeme: src.subrange(start, self.current as int),
                literal: SpecValue::Null,
                line: self.line as nat,
            };
            assert(self.toks() =~= before + seq![t]);
            assert(self.errs() =~= old(self).errs() + Seq::<(nat, ScanError)>::empty());
        }
    }
}

} // verus!

verus! {

impl Scanner {
    fn scan_token(&mut self)
        requires
            old(self).wf(),
            old(self).start == old(self).current,
            old(self).current < old(self).source@.len(),
        ensures
            Self::step_applied(old(self), final(self), scan_step(old(self).source@, old(self).start as int, old(self).line as nat)),
            final(self).wf(),
    {
        let ghost src = self.source@;
        let ghost start = self.start as int;
        let c = self.advance();
        if c == '(' {
            self.add_token(TokenType::LeftParen);
        } else if c == ')' {
            self.add_token(TokenType::RightParen);
        } else if c == '{' {
            self.add_token(TokenType::LeftBrace);
        } else if c == '}' {
            self.add_token(TokenType::RightBrace);
        } else if c == '[' {
            self.add_token(TokenType::LeftBracket);
        } else if c == ']' {
            self.add_token(TokenType::RightBracket);
        } else if c == ',' {
            self.add_token(TokenType::Comma);
        } else if c == '.' {
            self.add_token(TokenType::Dot);
        } else if c == '-' {
            self.add_token(TokenType::Minus);
        } else if c == '+' {
            self.add_token(TokenType::Plus);
        } else if c == ';' {
            self.add_token(TokenType::Semicolon);
        } else if c == ':' {
            self.add_token(TokenType::Colon);
        } else if c == '*' {
            self.add_token(TokenType::Star);
        } else if c == '@' {
            self.add_token(TokenType::At);
        } else if c == '!' {
            let tt = if self.match_char('=') {
                TokenType::BangEqual
            } else {
                TokenType::Bang
            };
            self.add_token(tt);
        } else if c == '=' {
            let tt = if self.match_char('=') {
                TokenType::EqualEqual
            } else {
                TokenType::Equal
            };
            self.add_token(tt);
        } else if c == '<' {
            let tt = if self.match_char('=') {
                TokenType::LessEqual
            } else {
                TokenType::Less
            };
            self.add_token(tt);
        } else if c == '>' {
            let tt = if self.match_char('=') {
                TokenType::GreaterEqual
            } else {
                TokenType::Greater
            };
            self.add_token(tt);
        } else if c == '/' {
            if self.match_char('/') {
                proof {
                    lemma_comment_end(src, self.current as int);
                }
                while self.peek() != '\n' && !self.is_at_end()
                    invariant
                        self.wf(),
                        self.source@ == src,
                        *self == (Scanner { current: self.current, ..*old(self) }),
                        start + 2 <= self.current,
                        comment_end(src, start + 2) == comment_end(src, self.current as int),
                    decreases src.len() - self.current,
                {
                    self.advance();
                }
            } else {
                self.add_token(TokenType::Slash);
            }
        } else if c == '"' {
            self.string('"');
        } else if c == '\'' {
            self.string('\'');
        } else if c == ' ' || c == '\r' || c == '\t' {
        } else if c == '\n' {
            self.line = self.line + 1;
        } else if is_ascii_digit(c) {
            self.number();
        } else if is_alpha(c) {
            self.identifier();
        } else {
            self.error(ScanError::UnexpectedCharacter);
        }
    }

    /// Scans the whole source. The tokens end with the end-of-file token;
    /// the flag says whether any error was found.
    pub fn scan_tokens(self) -> (r: (Vec<Token>, bool))
        requires
            self.is_fresh(),
        ensures
            tokens_view(r.0@) == spec_tokens(self.source_view()),
            r.1 == (spec_scan_errors(self.source_view()).len() > 0),
    {
        let (tokens, had_error, _errors) = self.scan_all();
        (tokens, had_error)
    }

    /// Scans the whole source, and reports each error as a diagnostic of the
    /// scan phase.
    pub fn scan_tokens_with_diagnostics(self) -> (r: (Vec<Token>, bool, Diagnostics))
        requires
            self.is_fresh(),
        ensures
            tokens_view(r.0@) == spec_tokens(self.source_view()),
            r.1 == (spec_scan_errors(self.source_view()).len() > 0),
            r.2@ == scan_diagnostics(self.name_view(), spec_scan_errors(self.source_view())),
    {
        let name = self.source_name.clone();
        let (tokens, had_error, errors) = self.scan_all();
        let mut diags = Diagnostics::new();
        let mut i: usize = 0;
        while i < errors.len()
            invariant
                i <= errors@.len(),
                diags@ == scan_diagnostics(name@, errors_view(errors@).take(i as int)),
            decreases errors@.len() - i,
        {
            let (line, kind) = errors[i];
            diags.emit_line(DiagnosticPhase::Scan, name.as_str(), line, scan_error_message(kind));
            proof {
                assert(errors_view(errors@).take(i + 1).drop_last() =~= errors_view(errors@).take(i as int));
            }
            i = i + 1;
        }
        proof {
            assert(errors_view(errors@).take(errors@.len() as int) =~= errors_view(errors@));
        }
        (tokens, had_error, diags)
    }

    fn scan_all(self) -> (r: (Vec<Token>, bool, Vec<(usize, ScanError)>))
        requires
            self.is_fresh(),
        ensures
            tokens_view(r.0@) == spec_tokens(self.source_view()),
            r.1 == (spec_scan_errors(self.source_view()).len() > 0),
            errors_view(r.2@) == spec_scan_errors(self.source_view()),
    {
        let mut this = self;
        this.scan_loop();
        (this.tokens, this.had_error, this.errors)
    }

    fn scan_loop(&mut self)
        requires
            old(self).is_fresh(),
        ensures
            tokens_view(final(self).tokens@) == spec_tokens(old(self).source@),
            final(self).had_error == (spec_scan_errors(old(self).source@).len() > 0),
            errors_view(final(self).errors@) == spec_scan_errors(old(self).source@),
    {
        let ghost src = self.source@;
        proof {
            assert(self.toks() =~= Seq::<SpecToken>::empty());
            assert(self.errs() =~= Seq::<(nat, ScanError)>::empty());
            let r = scan_from(src, 0, 1);
            assert(r.0 =~= Seq::<SpecToken>::empty() + r.0);
            assert(r.1 =~= Seq::<(nat, ScanError)>::empty() + r.1);
        }
        while !self.is_at_end()
            invariant
                self.wf(),
                self.source@ == src,
                ({
                    let whole = scan_from(src, 0, 1);
                    let rest = scan_from(src, self.current as int, self.line as nat);
                    &&& whole.0 == self.toks() + rest.0
                    &&& whole.1 == self.errs() + rest.1
                    &&& whole.2 == rest.2
                }),
            decreases src.len() - self.current,
        {
            self.start = self.current;
            let ghost b_cur = self.current;
            let ghost b_line = self.line;
            let ghost b_toks = self.toks();
            let ghost b_errs = self.errs();
            proof {
                lemma_scan_from_unfold(src, self.current as int, self.line as nat);
                lemma_scan_step(src, self.current as int, self.line as nat);
            }
            self.scan_token();
            proof {
                let step = scan_step(src, b_cur as int, b_line as nat);
                let rest = scan_from(src, step.next, step.line);
                let e = match step.error {
                    Some(e) => Some((step.line, e)),
                    None => None,
                };
                assert(push_opt(b_toks, step.token) + rest.0 =~= b_toks + (opt_seq(step.token) + rest.0));
                assert(push_opt(b_errs, e) + rest.1 =~= b_errs + (opt_seq(e) + rest.1));
            }
        }
        proof {
            let rest = scan_from(src, self.current as int, self.line as nat);
            assert(self.toks() + rest.0 =~= self.toks());
            assert(self.errs() + rest.1 =~= self.errs());
            assert(self.had_error == (spec_scan_errors(src).len() > 0));
        }
        let eof = Token::new(TokenType::EofToken, String::new(), Value::Null, self.line);
        let ghost before = self.toks();
        self.tokens.push(eof);
        proof {
            assert(tokens_view(self.tokens@) =~= before.push(eof@));
        }
    }
}

/// The message of a scan error.
pub fn scan_error_message(kind: ScanError) -> (m: &'static str)
    ensures
        m@ == scan_error_text(kind),
{
    match kind {
        ScanError::UnexpectedCharacter => "Unexpected character.",
        ScanError::UnterminatedString => "Unterminated string.",
        ScanError::IntegerTooLarge => "Numeric literal is too large for a 64-bit integer.",
    }
}

} // verus!

verus! {

/// The tokens of a source end with the end-of-file token.
pub proof fn lemma_tokens_end_with_eof(ts: Seq<Token>, src: Seq<char>)
    requires
        tokens_view(ts) == spec_tokens(src),
    ensures
        ts.len() > 0,
        ts.last().token_type == TokenType::EofToken,
{
    let sv = tokens_view(ts);
    assert(sv.len() == spec_tokens(src).len());
    assert(sv.len() == ts.len());
    assert(sv[sv.len() - 1] == ts[ts.len() - 1]@);
}

} // verus!

verus! {

/// Scanning one token (`scan_token`) moves forward, stays inside the
/// source, and never goes back a line.
pub proof fn law_scan_token_moves_forward(src: Seq<char>, start: int, line: nat)
    requires
        0 <= start < src.len(),
    ensures
        start < scan_step(src, start, line).next <= src.len(),
        line <= scan_step(src, start, line).line,
{
    lemma_scan_step(src, start, line);
}

/// A word (`identifier`) is scanned whole: the token's text is the word up
/// to the first character that is not a letter, digit or underscore; it is
/// a keyword where the word is one, and an identifier otherwise; it stays on
/// its line and reports nothing.
pub proof fn law_identifier_word(src: Seq<char>, start: int, line: nat)
    requires
        0 <= start < src.len(),
        is_alpha_spec(src[start]),
    ensures
        ({
            let end = word_end(src, start + 1);
            let text = src.subrange(start, end);
            let step = scan_step(src, start, line);
            &&& step.next == end
            &&& step.line == line
            &&& step.error is None
            &&& step.token == Some(
                SpecToken {
                    token_type: match keyword_of(text) {
                        Some(k) => k,
                        None => TokenType::Identifier,
                    },
                    lexeme: text,
                    literal: SpecValue::Null,
                    line,
                },
            )
        }),
{
}

/// A scan error does not stop the scan: where a step reports an error, it
/// adds no token, the error is recorded with its line, and the tokens and
/// errors after it are those of scanning on from where the step ended.
pub proof fn law_scan_error_continues(src: Seq<char>, pos: int, line: nat)
    requires
        0 <= pos < src.len(),
        scan_step(src, pos, line).error is Some,
    ensures
        ({
            let step = scan_step(src, pos, line);
            let rest = scan_from(src, step.next, step.line);
            &&& step.token is None
            &&& scan_from(src, pos, line).0 == rest.0
            &&& scan_from(src, pos, line).1 == seq![(step.line, step.error->0)] + rest.1
        }),
{
    lemma_scan_from_unfold(src, pos, line);
    let step = scan_step(src, pos, line);
    let rest = scan_from(src, step.next, step.line);
    assert(opt_seq(step.token) + rest.0 =~= rest.0);
}

/// The tokens scanned from `pos` on line `line`: none is an end-of-file
/// token, their lines never go down, start at `line` or later and reach no
/// further than the line the scan ends on.
proof fn lemma_scan_from_lines(src: Seq<char>, pos: int, line: nat)
    ensures
        ({
            let r = scan_from(src, pos, line);
            &&& line <= r.2
            &&& forall|i: int| 0 <= i < r.0.len() ==> (#[trigger] r.0[i]).token_type != TokenType::EofToken
            &&& forall|i: int| 0 <= i < r.0.len() ==> line <= (#[trigger] r.0[i]).line <= r.2
            &&& forall|i: int, j: int| 0 <= i <= j < r.0.len() ==> (#[trigger] r.0[i]).line <= (#[trigger] r.0[j]).line
        }),
    decreases src.len() - pos,
{
    if 0 <= pos < src.len() {
        lemma_scan_step(src, pos, line);
        let step = scan_step(src, pos, line);
        lemma_scan_from_lines(src, step.next, step.line);
        lemma_scan_from_unfold(src, pos, line);
        let rest = scan_from(src, step.next, step.line);
        let all = scan_from(src, pos, line).0;
        match step.token {
            Some(t) => {
                assert(t.line == step.line);
                assert(t.token_type != TokenType::EofToken);
                assert(all == seq![t] + rest.0);
                assert forall|i: int| 0 <= i < all.len() implies (#[trigger] all[i]).token_type != TokenType::EofToken
                    && line <= all[i].line <= rest.2 by {
                    if i > 0 {
                        assert(all[i] == rest.0[i - 1]);
                    }
                }
                assert forall|i: int, j: int| 0 <= i <= j < all.len() implies (#[trigger] all[i]).line <= (
                #[trigger] all[j]).line by {
                    if i > 0 {
                        assert(all[i] == rest.0[i - 1]);
                    }
                    if j > 0 {
                        assert(all[j] == rest.0[j - 1]);
                    }
                }
            },
            None => {
                assert(all =~= rest.0);
            },
        }
    }
}

/// Scanning ends with exactly one end-of-file token, the last one, with no
/// text and no value; the lines of the tokens never go down, and the
/// end-of-file token is on the last line reached.
pub proof fn law_tokens_end_with_one_eof(src: Seq<char>)
    ensures
        ({
            let ts = spec_tokens(src);
            &&& ts.len() > 0
            &&& ts.last() == eof_token(scan_from(src, 0, 1).2)
            &&& ts.last().lexeme.len() == 0
            &&& ts.last().literal == SpecValue::Null
            &&& forall|i: int| 0 <= i < ts.len() - 1 ==> (#[trigger] ts[i]).token_type != TokenType::EofToken
            &&& forall|i: int, j: int| 0 <= i <= j < ts.len() ==> (#[trigger] ts[i]).line <= (#[trigger] ts[j]).line
        }),
{
    lemma_scan_from_lines(src, 0, 1);
    let r = scan_from(src, 0, 1);
    let ts = spec_tokens(src);
    assert forall|i: int| 0 <= i < ts.len() - 1 implies (#[trigger] ts[i]).token_type != TokenType::EofToken by {
        assert(ts[i] == r.0[i]);
    }
    assert forall|i: int, j: int| 0 <= i <= j < ts.len() implies (#[trigger] ts[i]).line <= (#[trigger] ts[j]).line by {
        if j < ts.len() - 1 {
            assert(ts[i] == r.0[i]);
            assert(ts[j] == r.0[j]);
        } else if i < ts.len() - 1 {
            assert(ts[i] == r.0[i]);
        }
    }
}

} // verus!

verus! {

/// The number of newlines in `src` from `a` up to, not including, `b`.
pub open spec fn newlines(src: Seq<char>, a: int, b: int) -> nat
    decreases b - a,
{
    if a >= b {
        0
    } else {
        newlines(src, a, b - 1) + if src[b - 1] == '\n' { 1nat } else { 0nat }
    }
}

/// No backslash stands right before a newline (an escape in a string
/// literal would swallow the newline).
pub open spec fn no_escaped_newline(src: Seq<char>) -> bool {
    forall|i: int| 0 <= i < src.len() - 1 ==> !(#[trigger] src[i] == '\\' && src[i + 1] == '\n')
}

proof fn lemma_newlines_split(src: Seq<char>, a: int, b: int, c: int)
    requires
        a <= b <= c,
    ensures
        newlines(src, a, c) == newlines(src, a, b) + newlines(src, b, c),
    decreases c - b,
{
    if b < c {
        lemma_newlines_split(src, a, b, c - 1);
    }
}

proof fn lemma_newlines_one(src: Seq<char>, i: int)
    ensures
        newlines(src, i, i) == 0,
        newlines(src, i, i + 1) == if src[i] == '\n' { 1nat } else { 0nat },
{
    assert(newlines(src, i, i) == 0);
}

proof fn lemma_no_newlines(src: Seq<char>, a: int, b: int)
    requires
        forall|k: int| a <= k < b ==> #[trigger] src[k] != '\n',
    ensures
        newlines(src, a, b) == 0,
    decreases b - a,
{
    if a < b {
        lemma_no_newlines(src, a, b - 1);
    }
}

proof fn lemma_comment_has_no_newline(src: Seq<char>, i: int)
    requires
        0 <= i <= src.len(),
    ensures
        i <= comment_end(src, i) <= src.len(),
        newlines(src, i, comment_end(src, i)) == 0,
    decreases src.len() - i,
{
    lemma_comment_end(src, i);
    lemma_newlines_one(src, i);
    if i < src.len() && src[i] != '\n' {
        lemma_comment_has_no_newline(src, i + 1);
        lemma_newlines_split(src, i, i + 1, comment_end(src, i + 1));
    }
}

proof fn lemma_word_has_no_newline(src: Seq<char>, i: int)
    requires
        0 <= i <= src.len(),
    ensures
        i <= word_end(src, i) <= src.len(),
        newlines(src, i, word_end(src, i)) == 0,
    decreases src.len() - i,
{
    lemma_word_end(src, i);
    lemma_newlines_one(src, i);
    if i < src.len() && is_alnum_spec(src[i]) {
        lemma_word_has_no_newline(src, i + 1);
        lemma_newlines_split(src, i, i + 1, word_end(src, i + 1));
    }
}

proof fn lemma_string_lines(src: Seq<char>, i: int, delim: char, line: nat, acc: Seq<char>)
    requires
        0 <= i <= src.len(),
        no_escaped_newline(src),
    ensures
        string_body(src, i, delim, line, acc).1 == line + newlines(src, i, string_body(src, i, delim, line, acc).0),
        string_body(src, i, delim, line, acc).0 < src.len() ==> src[string_body(src, i, delim, line, acc).0] == delim,
    decreases src.len() - i,
{
    lemma_string_body(src, i, delim, line, acc);
    lemma_newlines_one(src, i);
    if i < src.len() && src[i] != delim {
        let line2 = if src[i] == '\n' { line + 1 } else { line };
        if src[i] == '\\' {
            if i + 1 < src.len() {
                assert(src[i + 1] != '\n');
                lemma_newlines_one(src, i + 1);
                lemma_newlines_split(src, i, i + 1, i + 2);
                let acc2 = acc + escape_chars(src[i + 1]);
                lemma_string_lines(src, i + 2, delim, line2, acc2);
                lemma_string_body(src, i + 2, delim, line2, acc2);
                lemma_newlines_split(src, i, i + 2, string_body(src, i + 2, delim, line2, acc2).0);
            }
        } else {
            let acc2 = acc.push(src[i]);
            lemma_string_lines(src, i + 1, delim, line2, acc2);
            lemma_string_body(src, i + 1, delim, line2, acc2);
            lemma_newlines_split(src, i, i + 1, string_body(src, i + 1, delim, line2, acc2).0);
        }
    }
}

proof fn lemma_step_lines(src: Seq<char>, start: int, line: nat)
    requires
        0 <= start < src.len(),
        no_escaped_newline(src),
    ensures
        start < scan_step(src, start, line).next <= src.len(),
        scan_step(src, start, line).line == line + newlines(src, start, scan_step(src, start, line).next),
{
    lemma_scan_step(src, start, line);
    let c = src[start];
    let step = scan_step(src, start, line);
    lemma_newlines_one(src, start);
    lemma_newlines_split(src, start, start + 1, step.next);
    if single_char_token(c) is Some {
        assert(c != '\n');
        assert(step.line == line + newlines(src, start, step.next));
    } else if one_or_two_char_token(c) is Some {
        assert(c != '\n');
        if step.next == start + 2 {
            lemma_newlines_one(src, start + 1);
            assert(src[start + 1] == '=');
            assert(newlines(src, start + 1, start + 2) == 0);
            assert(step.line == line + newlines(src, start, step.next));
        } else {
            assert(step.line == line + newlines(src, start, step.next));
        }
    } else if c == '/' {
        if start + 1 < src.len() && src[start + 1] == '/' {
            lemma_newlines_one(src, start + 1);
            lemma_comment_has_no_newline(src, start + 2);
            lemma_newlines_split(src, start + 1, start + 2, step.next);
            assert(step.line == line + newlines(src, start, step.next));
        } else {
            assert(step.line == line + newlines(src, start, step.next));
        }
    } else if c == '"' || c == '\'' {
        lemma_string_lines(src, start + 1, c, line, Seq::empty());
        lemma_string_body(src, start + 1, c, line, Seq::empty());
        let end = string_body(src, start + 1, c, line, Seq::empty()).0;
        if end < src.len() {
            assert(src[end] == c);
            lemma_newlines_one(src, end);
            lemma_newlines_split(src, start + 1, end, end + 1);
            assert(step.line == line + newlines(src, start, step.next));
        } else {
            assert(step.line == line + newlines(src, start, step.next));
        }
    } else if c == ' ' || c == '\r' || c == '\t' || c == '\n' {
        assert(step.line == line + newlines(src, start, step.next));
    } else if is_digit(c) {
        lemma_digits_end(src, start + 1);
        let int_end = digits_end(src, start + 1);
        if char_at(src, int_end) == '.' && is_digit(char_at(src, int_end + 1)) {
            lemma_digits_end(src, int_end + 1);
        }
        lemma_no_newlines(src, start + 1, step.next);
        assert(step.line == line + newlines(src, start, step.next));
    } else if is_alpha_spec(c) {
        lemma_word_has_no_newline(src, start + 1);
        assert(step.line == line + newlines(src, start, step.next));
    } else {
        assert(c != '\n');
        assert(step.line == line + newlines(src, start, step.next));
    }
}

proof fn lemma_scan_lines(src: Seq<char>, pos: int, line: nat)
    requires
        0 <= pos <= src.len(),
        no_escaped_newline(src),
    ensures
        scan_from(src, pos, line).2 == line + newlines(src, pos, src.len() as int),
    decreases src.len() - pos,
{
    if pos < src.len() {
        lemma_scan_from_unfold(src, pos, line);
        lemma_step_lines(src, pos, line);
        let step = scan_step(src, pos, line);
        lemma_scan_lines(src, step.next, step.line);
        lemma_newlines_split(src, pos, step.next, src.len() as int);
    } else {
        assert(newlines(src, pos, src.len() as int) == 0);
    }
}

/// The end-of-file token stands on the line after the last newline: line
/// one plus the number of newlines in the source, where no backslash stands
/// right before a newline.
pub proof fn law_eof_line_counts_newlines(src: Seq<char>)
    requires
        no_escaped_newline(src),
    ensures
        spec_tokens(src).last().line == 1 + newlines(src, 0, src.len() as int),
{
    lemma_scan_lines(src, 0, 1);
}

/// Whether a token, whitespace, a newline, a comment or a string can start
/// with `c`: a character of punctuation or an operator, a quote, a digit, a
/// letter or underscore, a space, tab, carriage return or newline.
pub open spec fn starts_lexeme(c: char) -> bool {
    ||| single_char_token(c) is Some
    ||| one_or_two_char_token(c) is Some
    ||| c == '/' || c == '"' || c == '\''
    ||| c == ' ' || c == '\r' || c == '\t' || c == '\n'
    ||| is_digit(c)
    ||| is_alpha_spec(c)
}

/// A step of the scanner reports an error in three cases only: a character
/// that starts no lexeme; a string literal that the source ends inside; an
/// integer literal above the largest 64-bit integer. Any other step reports
/// nothing.
pub proof fn law_scan_errors(src: Seq<char>, start: int, line: nat)
    requires
        0 <= start < src.len(),
    ensures
        ({
            let c = src[start];
            let step = scan_step(src, start, line);
            let int_end = digits_end(src, start + 1);
            &&& step.error == Some(ScanError::UnexpectedCharacter) <==> !starts_lexeme(c)
            &&& step.error == Some(ScanError::UnterminatedString) <==> ((c == '"' || c == '\'') && string_body(
                src,
                start + 1,
                c,
                line,
                Seq::empty(),
            ).0 >= src.len())
            &&& step.error == Some(ScanError::IntegerTooLarge) <==> (is_digit(c) && !(char_at(src, int_end) == '.'
                && is_digit(char_at(src, int_end + 1))) && decimal_value(src.subrange(start, int_end)) > i64::MAX)
        }),
{
}

/// Each escape that a string literal knows stands for exactly one
/// character, never a backslash but for the escaped backslash itself: `\n`,
/// `\t` and `\r` for the control characters, `\\` for a backslash, and
/// `\"` and `\'` for the quote itself; any other escape keeps its backslash.
pub proof fn law_escapes(e: char)
    ensures
        (e == 'n' || e == 't' || e == 'r' || e == '\\' || e == '"' || e == '\'') ==> escape_chars(e).len() == 1,
        (e == '\\' || e == '"' || e == '\'') ==> escape_chars(e) == seq![e],
        e == 'n' ==> escape_chars(e) == seq!['\n'],
        e == 't' ==> escape_chars(e) == seq!['\t'],
        e == 'r' ==> escape_chars(e) == seq!['\r'],
        !(e == 'n' || e == 't' || e == 'r' || e == '\\' || e == '"' || e == '\'') ==> escape_chars(e) == seq!['\\', e],
{
}

/// Inside a string literal, a backslash before the quote that delimits the
/// literal does not end it: the literal goes on, with the quote itself in
/// its text and no backslash.
pub proof fn law_escaped_quote(src: Seq<char>, i: int, delim: char, line: nat, acc: Seq<char>)
    requires
        0 <= i,
        i + 1 < src.len(),
        delim == '"' || delim == '\'',
        src[i] == '\\',
        src[i + 1] == delim,
    ensures
        string_body(src, i, delim, line, acc) == string_body(src, i + 2, delim, line, acc.push(delim)),
{
    assert(acc + escape_chars(delim) =~= acc.push(delim));
}

} // verus!
