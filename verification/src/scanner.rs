//! The scanner: source text to tokens, in one pass from left to right.
use crate::number::{all_digits, digit, is_digit, is_numeral};
use crate::text::{chars_of, decimal, decimal_chars, push_text, string_of};
use crate::token::{
    keyword_type, paired_type, symbol_type, token_views, well_formed, Token, TokenType, TokenView,
};
use vstd::prelude::*;

verus! {

/// Whether a character has the Unicode property Alphabetic.
pub uninterp spec fn alphabetic(c: char) -> bool;

/// Whether a character is alphabetic or numeric, as Unicode has it.
pub uninterp spec fn alphanumeric(c: char) -> bool;

/// `char::is_alphabetic` of std: whether the character has the Unicode
/// property Alphabetic.
#[verifier::external_body]
fn is_alphabetic(c: char) -> (r: bool)
    ensures
        r == alphabetic(c),
{
    c.is_alphabetic()
}

/// `char::is_alphanumeric` of std: whether the character is alphabetic or
/// numeric, as Unicode has it.
#[verifier::external_body]
fn is_alphanumeric(c: char) -> (r: bool)
    ensures
        r == alphanumeric(c),
{
    c.is_alphanumeric()
}

/// What the scanner could not read.
#[derive(Clone, Copy, Debug, PartialEq, Eq, Structural)]
pub enum ScanError {
    /// A character that begins no token.
    UnexpectedCharacter { character: char, line: usize },
    /// A string literal without its closing quote.
    UnterminatedString { line: usize },
}

/// The report of a scan error.
pub open spec fn scan_error_text(e: ScanError) -> Seq<char> {
    match e {
        ScanError::UnexpectedCharacter { character, line } => "Error could not parse token "@
            + seq![character] + ", [line "@ + decimal(line as nat) + "]"@,
        ScanError::UnterminatedString { line } => "Error found unterminated string on [line "@
            + decimal(line as nat) + "]"@,
    }
}

impl ScanError {
    /// The report of the error.
    pub fn to_string(&self) -> (r: String)
        ensures
            r@ == scan_error_text(*self),
    {
        let mut out: Vec<char> = Vec::new();
        match self {
            ScanError::UnexpectedCharacter { character, line } => {
                push_text(&mut out, "Error could not parse token ");
                out.push(*character);
                push_text(&mut out, ", [line ");
                let mut digits = decimal_chars(*line);
                out.append(&mut digits);
                push_text(&mut out, "]");
                assert(out@ =~= scan_error_text(*self));
            },
            ScanError::UnterminatedString { line } => {
                push_text(&mut out, "Error found unterminated string on [line ");
                let mut digits = decimal_chars(*line);
                out.append(&mut digits);
                push_text(&mut out, "]");
            },
        }
        string_of(out.as_slice())
    }

    /// The line on which the error was met.
    pub fn line(&self) -> (r: usize)
        ensures
            r == match *self {
                ScanError::UnexpectedCharacter { character, line } => line,
                ScanError::UnterminatedString { line } => line,
            },
    {
        match self {
            ScanError::UnexpectedCharacter { character, line } => *line,
            ScanError::UnterminatedString { line } => *line,
        }
    }
}

/// The first index at or after `from` whose character is not a digit, or the
/// length of the source.
pub open spec fn digits_end(src: Seq<char>, from: int) -> int
    decreases src.len() - from,
{
    if from < 0 || from >= src.len() || !is_digit(src[from]) {
        from
    } else {
        digits_end(src, from + 1)
    }
}

/// The first index at or after `from` whose character is not alphanumeric, or
/// the length of the source.
pub open spec fn word_end(src: Seq<char>, from: int) -> int
    decreases src.len() - from,
{
    if from < 0 || from >= src.len() || !alphanumeric(src[from]) {
        from
    } else {
        word_end(src, from + 1)
    }
}

/// The first index at or after `from` at which `c` stands, or the length of
/// the source.
pub open spec fn next_of(src: Seq<char>, c: char, from: int) -> int
    decreases src.len() - from,
{
    if from < 0 || from >= src.len() || src[from] == c {
        from
    } else {
        next_of(src, c, from + 1)
    }
}

/// The number of line feeds from `from` up to `to`.
pub open spec fn line_feeds(src: Seq<char>, from: int, to: int) -> nat
    decreases to - from,
{
    if from < 0 || from >= to || to > src.len() {
        0
    } else if src[to - 1] == '\n' {
        line_feeds(src, from, to - 1) + 1
    } else {
        line_feeds(src, from, to - 1)
    }
}

/// Where the number that begins before `from` ends: after the digits that
/// follow and, where a point and a digit come next, after the digits behind
/// the point.
pub open spec fn number_end(src: Seq<char>, from: int) -> int {
    let whole = digits_end(src, from);
    if whole + 1 < src.len() && src[whole] == '.' && is_digit(src[whole + 1]) {
        digits_end(src, whole + 1)
    } else {
        whole
    }
}

/// A token with the place in the source that it was read from.
pub struct Lexeme {
    pub token: TokenView,
    pub start: int,
    pub end: int,
}

/// What one step of the scanner finds.
pub enum Found {
    Token(TokenView),
    Error(ScanError),
    Nothing,
}

/// One step of the scanner: what it finds, where it stops, and the line it
/// is on then.
pub struct Step {
    pub found: Found,
    pub end: int,
    pub line: nat,
}

/// The token of category `kind` that spans the source from `start` to `end`.
pub open spec fn spanning(
    src: Seq<char>,
    kind: TokenType,
    start: int,
    end: int,
    literal: Option<Seq<char>>,
    line: nat,
) -> Found {
    Found::Token(TokenView { kind, lexeme: src.subrange(start, end), literal, line })
}

/// The step for a word: a keyword, or an identifier with its name as payload.
pub open spec fn word_step(src: Seq<char>, pos: int, line: nat) -> Step {
    let end = word_end(src, pos + 1);
    let text = src.subrange(pos, end);
    Step {
        found: match keyword_type(text) {
            Some(kind) => spanning(src, kind, pos, end, None, line),
            None => spanning(src, TokenType::IDENTIFIER, pos, end, Some(text), line),
        },
        end,
        line,
    }
}

/// The step for a number: the matched text is lexeme and payload.
pub open spec fn number_step(src: Seq<char>, pos: int, line: nat) -> Step {
    let end = number_end(src, pos + 1);
    Step {
        found: spanning(src, TokenType::NUMBER, pos, end, Some(src.subrange(pos, end)), line),
        end,
        line,
    }
}

/// The step for a string: up to the closing quote, the payload being what
/// stands between the quotes; an error where the source ends first. Line
/// feeds inside the string count.
pub open spec fn string_step(src: Seq<char>, pos: int, line: nat) -> Step {
    let close = next_of(src, '"', pos + 1);
    let last = (line + line_feeds(src, pos + 1, close)) as nat;
    if close < src.len() {
        Step {
            found: spanning(
                src,
                TokenType::STRING,
                pos,
                close + 1,
                Some(src.subrange(pos + 1, close)),
                last,
            ),
            end: close + 1,
            line: last,
        }
    } else {
        Step {
            found: Found::Error(ScanError::UnterminatedString { line: last as usize }),
            end: src.len() as int,
            line: last,
        }
    }
}

/// The step for a character of the symbol table.
pub open spec fn symbol_step(src: Seq<char>, pos: int, line: nat, kind: TokenType) -> Step {
    if paired_type(kind) is Some {
        if pos + 1 < src.len() && src[pos + 1] == '=' {
            Step {
                found: spanning(src, paired_type(kind)->0, pos, pos + 2, None, line),
                end: pos + 2,
                line,
            }
        } else {
            Step { found: spanning(src, kind, pos, pos + 1, None, line), end: pos + 1, line }
        }
    } else {
        match kind {
            TokenType::SPACE | TokenType::SLASHRETURN | TokenType::TAB => Step {
                found: Found::Nothing,
                end: pos + 1,
                line,
            },
            TokenType::NEWLINE => Step { found: Found::Nothing, end: pos + 1, line: line + 1 },
            TokenType::SLASH => if pos + 1 < src.len() && src[pos + 1] == '/' {
                Step { found: Found::Nothing, end: next_of(src, '\n', pos + 2), line }
            } else {
                Step { found: spanning(src, kind, pos, pos + 1, None, line), end: pos + 1, line }
            },
            TokenType::QUOTESTRING => string_step(src, pos, line),
            _ => Step { found: spanning(src, kind, pos, pos + 1, None, line), end: pos + 1, line },
        }
    }
}

/// The step of the scanner at `pos`, which lies inside the source: a number
/// at a digit; at a character of the symbol table what that character
/// begins; a word at a letter; an error at any other character.
pub open spec fn step_at(src: Seq<char>, pos: int, line: nat) -> Step {
    let c = src[pos];
    if is_digit(c) {
        number_step(src, pos, line)
    } else {
        match symbol_type(c) {
            Some(kind) => symbol_step(src, pos, line, kind),
            None => if alphabetic(c) {
                word_step(src, pos, line)
            } else {
                Step {
                    found: Found::Error(
                        ScanError::UnexpectedCharacter { character: c, line: line as usize },
                    ),
                    end: pos + 1,
                    line,
                }
            },
        }
    }
}

/// The token that marks the end of the source.
pub open spec fn end_token(line: nat) -> TokenView {
    TokenView { kind: TokenType::EOF, lexeme: Seq::empty(), literal: None, line }
}

/// What scanning gives: the tokens with their places, the errors, and the
/// line on which the scanner stopped.
pub struct Scan {
    pub lexemes: Seq<Lexeme>,
    pub errors: Seq<ScanError>,
    pub line: nat,
}

/// The lexemes that a step adds.
pub open spec fn step_lexemes(step: Step, pos: int) -> Seq<Lexeme> {
    match step.found {
        Found::Token(token) => seq![Lexeme { token, start: pos, end: step.end }],
        _ => Seq::empty(),
    }
}

/// The errors that a step adds.
pub open spec fn step_errors(step: Step) -> Seq<ScanError> {
    match step.found {
        Found::Error(error) => seq![error],
        _ => Seq::empty(),
    }
}

/// A run of digits ends inside the source, holds digits only, and no digit
/// follows it.
pub proof fn lemma_digits_end(src: Seq<char>, from: int)
    requires
        0 <= from <= src.len(),
    ensures
        from <= digits_end(src, from) <= src.len(),
        all_digits(src.subrange(from, digits_end(src, from))),
        digits_end(src, from) < src.len() ==> !is_digit(src[digits_end(src, from)]),
    decreases src.len() - from,
{
    if from < src.len() && is_digit(src[from]) {
        lemma_digits_end(src, from + 1);
        let end = digits_end(src, from);
        assert forall|i: int| 0 <= i < end - from implies is_digit(
            #[trigger] src.subrange(from, end)[i],
        ) by {
            if i > 0 {
                assert(src.subrange(from, end)[i] == src.subrange(from + 1, end)[i - 1]);
            }
        }
    }
}

/// A word ends inside the source.
pub proof fn lemma_word_end(src: Seq<char>, from: int)
    requires
        0 <= from <= src.len(),
    ensures
        from <= word_end(src, from) <= src.len(),
    decreases src.len() - from,
{
    if from < src.len() && alphanumeric(src[from]) {
        lemma_word_end(src, from + 1);
    }
}

/// The next place of a character lies inside the source, or at its end
/// where there is none.
pub proof fn lemma_next_of(src: Seq<char>, c: char, from: int)
    requires
        0 <= from <= src.len(),
    ensures
        from <= next_of(src, c, from) <= src.len(),
        next_of(src, c, from) < src.len() ==> src[next_of(src, c, from)] == c,
    decreases src.len() - from,
{
    if from < src.len() && src[from] != c {
        lemma_next_of(src, c, from + 1);
    }
}

/// Every step moves forward and stays inside the source.
pub proof fn lemma_step_advances(src: Seq<char>, pos: int, line: nat)
    requires
        0 <= pos < src.len(),
    ensures
        pos < step_at(src, pos, line).end <= src.len(),
        line <= step_at(src, pos, line).line,
{
    lemma_word_end(src, pos + 1);
    lemma_digits_end(src, pos + 1);
    let whole = digits_end(src, pos + 1);
    if whole + 1 < src.len() {
        lemma_digits_end(src, whole + 1);
    }
    lemma_next_of(src, '"', pos + 1);
    if pos + 1 < src.len() {
        lemma_next_of(src, '\n', pos + 2);
    }
}

/// The scan of the source from `pos` on, the scanner being on `line`.
pub open spec fn scan_from(src: Seq<char>, pos: int, line: nat) -> Scan
    decreases src.len() - pos,
{
    if pos < 0 || pos >= src.len() {
        Scan { lexemes: Seq::empty(), errors: Seq::empty(), line }
    } else {
        let step = step_at(src, pos, line);
        proof {
            lemma_step_advances(src, pos, line);
        }
        let rest = scan_from(src, step.end, step.line);
        Scan {
            lexemes: step_lexemes(step, pos) + rest.lexemes,
            errors: step_errors(step) + rest.errors,
            line: rest.line,
        }
    }
}

/// The scan of a whole source: its tokens in order, ended by the end token.
pub open spec fn scan_of(src: Seq<char>) -> Scan {
    let body = scan_from(src, 0, 0);
    Scan {
        lexemes: body.lexemes.push(
            Lexeme {
                token: end_token(body.line),
                start: src.len() as int,
                end: src.len() as int,
            },
        ),
        errors: body.errors,
        line: body.line,
    }
}

/// The next character to read, or NUL at the end of the source.
pub open spec fn next_char(state: ScannerView) -> char {
    if state.position < state.source.len() {
        state.source[state.position]
    } else {
        '\0'
    }
}

/// Whether the next character to read is the expected one.
pub open spec fn next_is(state: ScannerView, expected: char) -> bool {
    state.position < state.source.len() && state.source[state.position] == expected
}

/// The state after `count` more characters were read, nothing else changed.
pub open spec fn past(state: ScannerView, count: int) -> ScannerView {
    ScannerView { position: state.position + count, ..state }
}

/// The state after a step: what the step found is added, and the scanner
/// stands where the step stopped.
pub open spec fn after_step(state: ScannerView, step: Step) -> ScannerView {
    ScannerView {
        source: state.source,
        tokens: state.tokens + tokens_of(step_lexemes(step, state.start)),
        errors: state.errors + step_errors(step),
        start: state.start,
        position: step.end,
        line: step.line,
    }
}

/// The state after the rest of the source was read: the tokens and errors of
/// the rest are added, and the end token closes the tokens.
pub open spec fn finished(state: ScannerView) -> ScannerView {
    let rest = scan_from(state.source, state.position, state.line);
    ScannerView {
        source: state.source,
        tokens: (state.tokens + tokens_of(rest.lexemes)).push(end_token(rest.line)),
        errors: state.errors + rest.errors,
        start: state.source.len() as int,
        position: state.source.len() as int,
        line: rest.line,
    }
}

/// The tokens of lexemes put together are the tokens of each, put together.
pub proof fn lemma_tokens_of_sum(a: Seq<Lexeme>, b: Seq<Lexeme>)
    ensures
        tokens_of(a + b) == tokens_of(a) + tokens_of(b),
{
    assert(tokens_of(a + b) =~= tokens_of(a) + tokens_of(b));
}

/// Whether lexemes lie in the source from `from` on, one after the other, on
/// lines from `line` on that never go back, each a non-empty piece of the
/// source that is its token's lexeme, and each token well formed.
pub open spec fn in_order(src: Seq<char>, lexemes: Seq<Lexeme>, from: int, line: nat) -> bool {
    &&& forall|i: int|
        0 <= i < lexemes.len() ==> {
            let x = #[trigger] lexemes[i];
            &&& from <= x.start < x.end <= src.len()
            &&& x.token.lexeme == src.subrange(x.start, x.end)
            &&& line <= x.token.line
            &&& well_formed(x.token)
        }
    &&& forall|i: int, j: int|
        0 <= i < j < lexemes.len() ==> (#[trigger] lexemes[i]).end <= (#[trigger] lexemes[j]).start
            && lexemes[i].token.line <= lexemes[j].token.line
}

/// The text of a number token is a number literal.
proof fn lemma_number_is_numeral(src: Seq<char>, pos: int)
    requires
        0 <= pos < src.len(),
        is_digit(src[pos]),
    ensures
        is_numeral(src.subrange(pos, number_end(src, pos + 1))),
        pos < number_end(src, pos + 1) <= src.len(),
{
    lemma_digits_end(src, pos + 1);
    let whole = digits_end(src, pos + 1);
    let end = number_end(src, pos + 1);
    let text = src.subrange(pos, end);
    assert forall|i: int| 0 <= i < whole - pos implies is_digit(#[trigger] src[pos + i]) by {
        if i > 0 {
            assert(src[pos + i] == src.subrange(pos + 1, whole)[i - 1]);
        }
    }
    if whole + 1 < src.len() && src[whole] == '.' && is_digit(src[whole + 1]) {
        lemma_digits_end(src, whole + 1);
        let k = whole - pos;
        assert(end > whole + 1);
        assert forall|i: int| 0 <= i < text.take(k).len() implies is_digit(
            #[trigger] text.take(k)[i],
        ) by {
            assert(text.take(k)[i] == src[pos + i]);
        }
        assert forall|i: int| 0 <= i < text.skip(k + 1).len() implies is_digit(
            #[trigger] text.skip(k + 1)[i],
        ) by {
            assert(text.skip(k + 1)[i] == src.subrange(whole + 1, end)[i]);
        }
        assert(text[k] == '.');
    } else {
        assert forall|i: int| 0 <= i < text.len() implies is_digit(#[trigger] text[i]) by {
            assert(text[i] == src[pos + i]);
        }
    }
}

/// What a step finds lies in the source where the step was made, and is well
/// formed.
proof fn lemma_step_in_order(src: Seq<char>, pos: int, line: nat)
    requires
        0 <= pos < src.len(),
    ensures
        in_order(src, step_lexemes(step_at(src, pos, line), pos), pos, line),
        forall|i: int|
            0 <= i < step_lexemes(step_at(src, pos, line), pos).len() ==> (
            #[trigger] step_lexemes(step_at(src, pos, line), pos)[i]).token.line <= step_at(
                src,
                pos,
                line,
            ).line && step_lexemes(step_at(src, pos, line), pos)[i].end == step_at(
                src,
                pos,
                line,
            ).end,
{
    lemma_step_advances(src, pos, line);
    if is_digit(src[pos]) {
        lemma_number_is_numeral(src, pos);
    }
}

/// The lexemes of a scan lie in the source in the order in which they were
/// read.
pub proof fn lemma_scan_in_order(src: Seq<char>, pos: int, line: nat)
    requires
        0 <= pos <= src.len(),
    ensures
        in_order(src, scan_from(src, pos, line).lexemes, pos, line),
        line <= scan_from(src, pos, line).line,
        forall|i: int|
            0 <= i < scan_from(src, pos, line).lexemes.len() ==> (#[trigger] scan_from(
                src,
                pos,
                line,
            ).lexemes[i]).token.line <= scan_from(src, pos, line).line,
    decreases src.len() - pos,
{
    if pos < src.len() {
        let step = step_at(src, pos, line);
        lemma_step_advances(src, pos, line);
        lemma_step_in_order(src, pos, line);
        lemma_scan_in_order(src, step.end, step.line);
        let first = step_lexemes(step, pos);
        let rest = scan_from(src, step.end, step.line).lexemes;
        let all = scan_from(src, pos, line).lexemes;
        assert(all == first + rest);
        assert forall|i: int| 0 <= i < all.len() implies {
            let x = #[trigger] all[i];
            &&& pos <= x.start < x.end <= src.len()
            &&& x.token.lexeme == src.subrange(x.start, x.end)
            &&& line <= x.token.line
            &&& well_formed(x.token)
            &&& x.token.line <= scan_from(src, pos, line).line
        } by {
            if i < first.len() {
                assert(all[i] == first[i]);
            } else {
                assert(all[i] == rest[i - first.len()]);
            }
        }
        assert forall|i: int, j: int| 0 <= i < j < all.len() implies (#[trigger] all[i]).end <= (
        #[trigger] all[j]).start && all[i].token.line <= all[j].token.line by {
            if i < first.len() {
                assert(all[i] == first[i]);
                assert(all[j] == rest[j - first.len()]);
            } else {
                assert(all[i] == rest[i - first.len()]);
                assert(all[j] == rest[j - first.len()]);
            }
        }
    }
}

/// The tokens of a source stand in the order of the source: each lexeme but
/// the last is a non-empty piece of the source and ends before the next one
/// begins, line numbers never go back, every token is well formed, and the
/// last token, and only it, is the end token that the scanner adds.
pub proof fn lemma_tokens_follow_source(src: Seq<char>)
    ensures
        scan_of(src).lexemes.len() >= 1,
        scan_of(src).lexemes.last().token == end_token(scan_of(src).line),
        in_order(src, scan_of(src).lexemes.drop_last(), 0, 0),
        forall|i: int|
            0 <= i < scan_of(src).lexemes.len() ==> well_formed(
                (#[trigger] scan_of(src).lexemes[i]).token,
            ),
        forall|i: int, j: int|
            0 <= i < j < scan_of(src).lexemes.len() ==> (#[trigger] scan_of(src).lexemes[i]).end
                <= (#[trigger] scan_of(src).lexemes[j]).start && scan_of(
                src,
            ).lexemes[i].token.line <= scan_of(src).lexemes[j].token.line,
{
    lemma_scan_in_order(src, 0, 0);
    let body = scan_from(src, 0, 0).lexemes;
    let all = scan_of(src).lexemes;
    assert(all.drop_last() =~= body);
    assert forall|i: int| 0 <= i < all.len() implies well_formed((#[trigger] all[i]).token) by {
        if i < body.len() {
            assert(all[i] == body[i]);
        }
    }
    assert forall|i: int, j: int| 0 <= i < j < all.len() implies (#[trigger] all[i]).end <= (
    #[trigger] all[j]).start && all[i].token.line <= all[j].token.line by {
        assert(all[i] == body[i]);
        if j < body.len() {
            assert(all[j] == body[j]);
        }
    }
}

/// The characters of a text.
fn text_chars(text: &String) -> (r: Vec<char>)
    ensures
        r@ == text@,
{
    chars_of(text.as_str())
}

/// The tokens of lexemes.
pub open spec fn tokens_of(lexemes: Seq<Lexeme>) -> Seq<TokenView> {
    Seq::new(lexemes.len(), |i: int| lexemes[i].token)
}

/// Reads a source text into tokens.
pub struct Scanner {
    code: Vec<char>,
    tokens: Vec<Token>,
    errors: Vec<ScanError>,
    start: usize,
    current: usize,
    line: usize,
}

/// The state of a scanner as plain data.
pub struct ScannerView {
    /// The source text.
    pub source: Seq<char>,
    /// The tokens read so far.
    pub tokens: Seq<TokenView>,
    /// The errors met so far.
    pub errors: Seq<ScanError>,
    /// Where the lexeme that is being read begins.
    pub start: int,
    /// The next character to read.
    pub position: int,
    /// The line of the next character, counted from 0.
    pub line: nat,
}

impl View for Scanner {
    type V = ScannerView;

    closed spec fn view(&self) -> ScannerView {
        ScannerView {
            source: self.code@,
            tokens: token_views(self.tokens@),
            errors: self.errors@,
            start: self.start as int,
            position: self.current as int,
            line: self.line as nat,
        }
    }
}

impl Scanner {
    /// The scanner's cursors lie inside the source, in order, and no more
    /// lines were counted than characters read.
    pub closed spec fn consistent(&self) -> bool {
        self.start <= self.current <= self.code.len() && self.line <= self.current
    }

    /// What consistency says of the state.
    pub proof fn lemma_consistent(&self)
        requires
            self.consistent(),
        ensures
            0 <= self@.start <= self@.position <= self@.source.len(),
            self@.line <= self@.position,
    {
    }

    /// A scanner at the beginning of `code`, on line 0.
    pub fn new(code: String) -> (r: Scanner)
        ensures
            r.consistent(),
            r@ == (ScannerView {
                source: code@,
                tokens: Seq::empty(),
                errors: Seq::empty(),
                start: 0,
                position: 0,
                line: 0,
            }),
    {
        let r = Scanner {
            code: chars_of(code.as_str()),
            tokens: Vec::new(),
            errors: Vec::new(),
            start: 0,
            current: 0,
            line: 0,
        };
        assert(token_views(r.tokens@) =~= Seq::<TokenView>::empty());
        r
    }

    /// The tokens read so far.
    pub fn tokens(&self) -> (r: &Vec<Token>)
        ensures
            token_views(r@) == self@.tokens,
    {
        &self.tokens
    }

    /// The errors met so far.
    pub fn errors(&self) -> (r: &Vec<ScanError>)
        ensures
            r@ == self@.errors,
    {
        &self.errors
    }

    /// The tokens and the errors, handed over.
    pub fn into_parts(self) -> (r: (Vec<Token>, Vec<ScanError>))
        ensures
            token_views(r.0@) == self@.tokens,
            r.1@ == self@.errors,
    {
        (self.tokens, self.errors)
    }

    /// Whether any error was met.
    pub fn had_error(&self) -> (r: bool)
        ensures
            r == (self@.errors.len() > 0),
    {
        self.errors.len() > 0
    }

    /// Whether the whole source was read.
    pub fn is_at_end(&self) -> (r: bool)
        ensures
            r == (self@.position >= self@.source.len()),
    {
        self.current >= self.code.len()
    }

    /// The character at index `n` of the source.
    fn char_at(&self, n: usize) -> (r: char)
        requires
            n < self@.source.len(),
        ensures
            r == self@.source[n as int],
    {
        self.code[n]
    }

    /// The next character, or NUL at the end of the source.
    fn peek(&self) -> (r: char)
        requires
            self.consistent(),
        ensures
            r == next_char(self@),
    {
        if self.is_at_end() {
            return '\0';
        }
        self.char_at(self.current)
    }

    /// The character after the next, or NUL where the source ends before it.
    fn peek_next(&self) -> (r: char)
        requires
            self.consistent(),
        ensures
            r == if self@.position + 1 < self@.source.len() {
                self@.source[self@.position + 1]
            } else {
                '\0'
            },
    {
        if self.is_at_end() || self.current + 1 >= self.code.len() {
            return '\0';
        }
        self.char_at(self.current + 1)
    }

    /// Reads the next character. At the end of the source it reads nothing
    /// and returns NUL.
    fn advance(&mut self) -> (r: char)
        requires
            old(self).consistent(),
        ensures
            final(self).consistent(),
            r == next_char(old(self)@),
            final(self)@ == if old(self)@.position < old(self)@.source.len() {
                past(old(self)@, 1)
            } else {
                old(self)@
            },
    {
        if self.is_at_end() {
            return '\0';
        }
        let c = self.code[self.current];
        self.current += 1;
        c
    }

    /// Reads the next character if it is the expected one.
    fn match_token_and_advance(&mut self, expected: char) -> (r: bool)
        requires
            old(self).consistent(),
        ensures
            final(self).consistent(),
            r == next_is(old(self)@, expected),
            final(self)@ == if r {
                past(old(self)@, 1)
            } else {
                old(self)@
            },
    {
        if self.is_at_end() {
            return false;
        }
        if self.char_at(self.current) != expected {
            return false;
        }
        self.current = self.current + 1;
        true
    }

    /// Chooses between a one-character token and the two-character token
    /// that it begins: the second, its last character read, where the
    /// expected character follows; else the first.
    fn match_double(
        &mut self,
        expected: char,
        one_char_token: TokenType,
        two_char_token: TokenType,
    ) -> (r: TokenType)
        requires
            old(self).consistent(),
        ensures
            final(self).consistent(),
            r == if next_is(old(self)@, expected) {
                two_char_token
            } else {
                one_char_token
            },
            final(self)@ == if next_is(old(self)@, expected) {
                past(old(self)@, 1)
            } else {
                old(self)@
            },
    {
        if self.match_token_and_advance(expected) {
            two_char_token
        } else {
            one_char_token
        }
    }

    /// Adds the token of the given category whose lexeme was just read.
    fn add_token(&mut self, token_type: TokenType)
        requires
            old(self).consistent(),
        ensures
            final(self).consistent(),
            final(self)@ == (ScannerView {
                tokens: old(self)@.tokens.push(
                    TokenView {
                        kind: token_type,
                        lexeme: old(self)@.source.subrange(old(self)@.start, old(self)@.position),
                        literal: None,
                        line: old(self)@.line,
                    },
                ),
                ..old(self)@
            }),
    {
        self.add_token_with_literal(token_type, None)
    }

    /// Adds the token of the given category whose lexeme was just read, with
    /// its payload.
    fn add_token_with_literal(&mut self, token_type: TokenType, literal: Option<String>)
        requires
            old(self).consistent(),
        ensures
            final(self).consistent(),
            final(self)@ == (ScannerView {
                tokens: old(self)@.tokens.push(
                    TokenView {
                        kind: token_type,
                        lexeme: old(self)@.source.subrange(old(self)@.start, old(self)@.position),
                        literal: crate::token::text_view(literal),
                        line: old(self)@.line,
                    },
                ),
                ..old(self)@
            }),
    {
        let lexeme = self.slice(self.start, self.current);
        let token = Token::new(token_type, lexeme, literal, self.line);
        self.tokens.push(token);
        assert(token_views(self.tokens@) =~= token_views(old(self).tokens@).push(token@));
    }

    /// Reads the rest of a word whose first character was just read, and adds
    /// its token.
    fn identifier(&mut self)
        requires
            old(self).consistent(),
            old(self)@.position == old(self)@.start + 1,
        ensures
            final(self).consistent(),
            final(self)@ == after_step(
                old(self)@,
                word_step(old(self)@.source, old(self)@.start, old(self)@.line),
            ),
    {
        while !self.is_at_end() && is_alphanumeric(self.peek())
            invariant
                self.consistent(),
                self@ == (ScannerView { position: self@.position, ..old(self)@ }),
                old(self)@.start < self@.position <= self@.source.len(),
                word_end(self@.source, old(self)@.start + 1) == word_end(
                    self@.source,
                    self@.position,
                ),
            decreases self@.source.len() - self@.position,
        {
            self.advance();
        }
        let ghost src = self@.source;
        let ghost begin = self@.start;
        let text = self.slice(self.start, self.current);
        let kind = TokenType::keyword(text_chars(&text).as_slice());
        match kind {
            Some(found) => self.add_token(found),
            None => self.add_token_with_literal(TokenType::IDENTIFIER, Some(text)),
        }
        proof {
            let step = word_step(src, begin, old(self)@.line);
            assert(old(self)@.tokens + tokens_of(step_lexemes(step, begin)) =~= self@.tokens);
            assert(old(self)@.errors + step_errors(step) =~= self@.errors);
        }
    }

    /// Reads the rest of a number whose first digit was just read, and adds
    /// its token.
    fn number(&mut self)
        requires
            old(self).consistent(),
            old(self)@.position == old(self)@.start + 1,
        ensures
            final(self).consistent(),
            final(self)@ == after_step(
                old(self)@,
                number_step(old(self)@.source, old(self)@.start, old(self)@.line),
            ),
    {
        self.digits();
        if self.peek() == '.' && digit(self.peek_next()) {
            self.advance();
            self.digits();
        }
        let ghost src = self@.source;
        let ghost begin = self@.start;
        let text = self.slice(self.start, self.current);
        self.add_token_with_literal(TokenType::NUMBER, Some(text));
        proof {
            let step = number_step(src, begin, old(self)@.line);
            assert(old(self)@.tokens + tokens_of(step_lexemes(step, begin)) =~= self@.tokens);
            assert(old(self)@.errors + step_errors(step) =~= self@.errors);
        }
    }

    /// Reads digits as long as digits follow.
    fn digits(&mut self)
        requires
            old(self).consistent(),
        ensures
            final(self).consistent(),
            final(self)@ == (ScannerView {
                position: digits_end(old(self)@.source, old(self)@.position),
                ..old(self)@
            }),
    {
        while digit(self.peek())
            invariant
                self.consistent(),
                self@ == (ScannerView { position: self@.position, ..old(self)@ }),
                old(self)@.position <= self@.position,
                digits_end(self@.source, old(self)@.position) == digits_end(
                    self@.source,
                    self@.position,
                ),
            decreases self@.source.len() - self@.position,
        {
            self.advance();
        }
    }

    /// Reads a string literal whose opening quote was just read, and adds its
    /// token; records an error where the closing quote is missing.
    fn string(&mut self)
        requires
            old(self).consistent(),
            old(self)@.position == old(self)@.start + 1,
        ensures
            final(self).consistent(),
            final(self)@ == after_step(
                old(self)@,
                string_step(old(self)@.source, old(self)@.start, old(self)@.line),
            ),
    {
        let ghost src = self@.source;
        let ghost begin = self@.start;
        while self.peek() != '"' && !self.is_at_end()
            invariant
                self.consistent(),
                self@ == (ScannerView {
                    position: self@.position,
                    line: self@.line,
                    ..old(self)@
                }),
                src == self@.source,
                begin == self@.start,
                begin + 1 <= self@.position <= src.len(),
                next_of(src, '"', begin + 1) == next_of(src, '"', self@.position),
                self@.line == old(self)@.line + line_feeds(src, begin + 1, self@.position),
            decreases src.len() - self@.position,
        {
            let c = self.advance();
            if c == '\n' {
                self.line = self.line + 1;
            }
        }
        if self.is_at_end() {
            self.errors.push(ScanError::UnterminatedString { line: self.line });
        } else {
            self.advance();
            let text = self.slice(self.start + 1, self.current - 1);
            self.add_token_with_literal(TokenType::STRING, Some(text));
        }
        proof {
            let step = string_step(src, begin, old(self)@.line);
            assert(old(self)@.tokens + tokens_of(step_lexemes(step, begin)) =~= self@.tokens);
            assert(old(self)@.errors + step_errors(step) =~= self@.errors);
        }
    }

    /// Reads one token, or what stands in place of one: white space, a
    /// comment, or a character that begins no token, which is recorded as an
    /// error. At the end of the source it adds the end token.
    pub fn scan_token(&mut self)
        requires
            old(self).consistent(),
        ensures
            final(self).consistent(),
            old(self)@.position < old(self)@.source.len() ==> final(self)@ == after_step(
                (ScannerView { start: old(self)@.position, ..old(self)@ }),
                step_at(old(self)@.source, old(self)@.position, old(self)@.line),
            ),
            old(self)@.position >= old(self)@.source.len() ==> final(self)@ == (ScannerView {
                start: old(self)@.position,
                tokens: old(self)@.tokens.push(end_token(old(self)@.line)),
                ..old(self)@
            }),
    {
        self.start = self.current;
        let ghost src = self@.source;
        let ghost pos = self@.position;
        let ghost before = self@;
        if self.is_at_end() {
            self.add_token(TokenType::EOF);
            assert(src.subrange(pos, pos) =~= Seq::<char>::empty());
            return ;
        }
        let c = self.advance();
        if digit(c) {
            self.number();
            return ;
        }
        let ghost step = step_at(src, pos, before.line);
        match TokenType::from_symbol(c) {
            Some(token_type) => {
                match token_type.paired() {
                    Some(two_char_token) => {
                        let token_to_add = self.match_double('=', token_type, two_char_token);
                        self.add_token(token_to_add);
                    },
                    None => match token_type {
                        TokenType::SPACE | TokenType::SLASHRETURN | TokenType::TAB => {},
                        TokenType::NEWLINE => {
                            self.line = self.line + 1;
                        },
                        TokenType::SLASH => {
                            if self.match_token_and_advance('/') {
                                while self.peek() != '\n' && !self.is_at_end()
                                    invariant
                                        self.consistent(),
                                        self@ == (ScannerView {
                                            position: self@.position,
                                            ..before
                                        }),
                                        before.source == src,
                                        pos + 2 <= self@.position <= src.len(),
                                        next_of(src, '\n', pos + 2) == next_of(
                                            src,
                                            '\n',
                                            self@.position,
                                        ),
                                    decreases src.len() - self@.position,
                                {
                                    self.advance();
                                }
                            } else {
                                self.add_token(token_type);
                            }
                        },
                        TokenType::QUOTESTRING => {
                            self.string();
                            return ;
                        },
                        _ => {
                            self.add_token(token_type);
                        },
                    },
                }
            },
            None => {
                if is_alphabetic(c) {
                    self.identifier();
                    return ;
                }
                self.errors.push(ScanError::UnexpectedCharacter { character: c, line: self.line });
            },
        }
        proof {
            assert(before.tokens + tokens_of(step_lexemes(step, pos)) =~= self@.tokens);
            assert(before.errors + step_errors(step) =~= self@.errors);
        }
    }

    /// Reads the rest of the source, and ends the tokens with the end token.
    pub fn scan_tokens(&mut self)
        requires
            old(self).consistent(),
        ensures
            final(self).consistent(),
            final(self)@ == finished(old(self)@),
    {
        let ghost src = self@.source;
        let ghost all = scan_from(src, self@.position, self@.line);
        assert(self@.tokens + tokens_of(all.lexemes) =~= old(self)@.tokens + tokens_of(
            all.lexemes,
        ));
        while !self.is_at_end()
            invariant
                self.consistent(),
                self@.source == src,
                0 <= self@.position <= src.len(),
                self@.tokens + tokens_of(scan_from(src, self@.position, self@.line).lexemes)
                    == old(self)@.tokens + tokens_of(all.lexemes),
                self@.errors + scan_from(src, self@.position, self@.line).errors
                    == old(self)@.errors + all.errors,
                scan_from(src, self@.position, self@.line).line == all.line,
            decreases src.len() - self@.position,
        {
            let ghost here = self@;
            proof {
                lemma_step_advances(src, here.position, here.line);
            }
            self.scan_token();
            proof {
                let step = step_at(src, here.position, here.line);
                let rest = scan_from(src, step.end, step.line);
                lemma_tokens_of_sum(step_lexemes(step, here.position), rest.lexemes);
                assert(self@.tokens + tokens_of(rest.lexemes) =~= here.tokens + tokens_of(
                    step_lexemes(step, here.position) + rest.lexemes,
                ));
                assert(self@.errors + rest.errors =~= here.errors + (step_errors(step)
                    + rest.errors));
            }
        }
        proof {
            self.lemma_consistent();
            assert(tokens_of(Seq::<Lexeme>::empty()) =~= Seq::<TokenView>::empty());
            assert(self@.tokens =~= old(self)@.tokens + tokens_of(all.lexemes));
            assert(self@.errors =~= old(self)@.errors + all.errors);
        }
        self.scan_token();
    }

    /// The text of the source from `from` up to `to`.
    fn slice(&self, from: usize, to: usize) -> (r: String)
        requires
            from <= to <= self@.source.len(),
        ensures
            r@ == self@.source.subrange(from as int, to as int),
    {
        let part = vstd::slice::slice_subrange(self.code.as_slice(), from, to);
        string_of(part)
    }
}

} // verus!
