use vstd::prelude::*;

use crate::tokens::{keyword_of, KindModel, Token, TokenModel, TokenType};

verus! {

broadcast use vstd::string::group_string_axioms;

/// What `char::is_alphabetic` says of a character: whether it has the
/// Unicode `Alphabetic` property.
pub uninterp spec fn alphabetic(c: char) -> bool;

/// Relies on `char::is_alphabetic`: the answer depends on the character
/// alone, and among ASCII characters exactly the letters are alphabetic.
#[verifier::external_body]
fn is_alphabetic(c: char) -> (r: bool)
    ensures
        r == alphabetic(c),
        (c as u32) < 128 ==> (r == (('a' <= c && c <= 'z') || ('A' <= c && c <= 'Z'))),
{
    c.is_alphabetic()
}

/// Relies on `String::push`: appends one character.
#[verifier::external_body]
fn push_char(s: &mut String, c: char)
    ensures
        final(s)@ == old(s)@.push(c),
{
    s.push(c)
}

// ---------------------------------------------------------------------------
// The lexical rules, stated over the source as a sequence of characters.
// ---------------------------------------------------------------------------

pub open spec fn is_digit_char(c: char) -> bool {
    '0' <= c && c <= '9'
}

/// A letter: among ASCII characters `a` to `z` and `A` to `Z`, beyond ASCII
/// whatever Unicode calls alphabetic.
pub open spec fn is_letter(c: char) -> bool {
    if (c as u32) < 128 {
        ('a' <= c && c <= 'z') || ('A' <= c && c <= 'Z')
    } else {
        alphabetic(c)
    }
}

/// A character that begins an identifier or keyword.
pub open spec fn starts_identifier(c: char) -> bool {
    is_letter(c) || c == '_'
}

/// A character that continues an identifier or keyword.
pub open spec fn continues_identifier(c: char) -> bool {
    is_letter(c) || is_digit_char(c)
}

/// The first index at or after `i` whose character fails `p`, or the length
/// of `s` where there is none.
pub open spec fn run_end(s: Seq<char>, i: int, p: spec_fn(char) -> bool) -> int
    decreases s.len() - i,
{
    if 0 <= i < s.len() && p(s[i]) {
        run_end(s, i + 1, p)
    } else {
        i
    }
}

pub open spec fn digits_end(s: Seq<char>, i: int) -> int {
    run_end(s, i, |c: char| is_digit_char(c))
}

pub open spec fn identifier_end(s: Seq<char>, i: int) -> int {
    run_end(s, i, |c: char| continues_identifier(c))
}

/// Where a line comment whose text starts at `i` stops: at the next newline,
/// which it leaves in place, or at the end of the source.
pub open spec fn comment_end(s: Seq<char>, i: int) -> int {
    run_end(s, i, |c: char| c != '\n')
}

/// The index of the first `"` at or after `i`, or the length of `s`.
pub open spec fn quote_end(s: Seq<char>, i: int) -> int {
    run_end(s, i, |c: char| c != '"')
}

/// Where a number literal starting at `i` ends: a run of digits, then a
/// fraction only where a `.` is followed by at least one digit.
pub open spec fn number_end(s: Seq<char>, i: int) -> int {
    let j = digits_end(s, i + 1);
    if j + 1 < s.len() && s[j] == '.' && is_digit_char(s[j + 1]) {
        digits_end(s, j + 1)
    } else {
        j
    }
}

/// The number of newlines among the first `b` characters of `s`.
pub open spec fn newlines_before(s: Seq<char>, b: int) -> nat
    decreases b,
{
    if b <= 0 {
        0
    } else {
        newlines_before(s, b - 1) + if s[b - 1] == '\n' {
            1nat
        } else {
            0nat
        }
    }
}

/// The 1-based line on which the character at index `i` stands.
pub open spec fn line_at(s: Seq<char>, i: int) -> nat {
    1 + newlines_before(s, i)
}

pub open spec fn next_is(s: Seq<char>, i: int, c: char) -> bool {
    i + 1 < s.len() && s[i + 1] == c
}

pub open spec fn punctuation_kind(c: char) -> Option<TokenType> {
    if c == '(' {
        Some(TokenType::LeftParen)
    } else if c == ')' {
        Some(TokenType::RightParen)
    } else if c == '{' {
        Some(TokenType::LeftBrace)
    } else if c == '}' {
        Some(TokenType::RightBrace)
    } else if c == ',' {
        Some(TokenType::Comma)
    } else if c == '.' {
        Some(TokenType::Dot)
    } else if c == '-' {
        Some(TokenType::Minus)
    } else if c == '+' {
        Some(TokenType::Plus)
    } else if c == ';' {
        Some(TokenType::Semicolon)
    } else if c == '*' {
        Some(TokenType::Star)
    } else {
        None
    }
}

pub open spec fn is_operator_start(c: char) -> bool {
    c == '!' || c == '=' || c == '<' || c == '>'
}

/// The kind of an operator that starts with `c`, with or without a
/// following `=`.
pub open spec fn operator_kind(c: char, with_equal: bool) -> TokenType {
    if c == '!' {
        if with_equal { TokenType::BangEqual } else { TokenType::Bang }
    } else if c == '=' {
        if with_equal { TokenType::EqualEqual } else { TokenType::Equal }
    } else if c == '<' {
        if with_equal { TokenType::LessEqual } else { TokenType::Less }
    } else {
        if with_equal { TokenType::GreaterEqual } else { TokenType::Greater }
    }
}

/// The index just past the lexeme that starts at `i`.
pub open spec fn lexeme_end(s: Seq<char>, i: int) -> int {
    let c = s[i];
    if punctuation_kind(c) is Some {
        i + 1
    } else if is_operator_start(c) {
        if next_is(s, i, '=') { i + 2 } else { i + 1 }
    } else if c == '/' {
        if next_is(s, i, '/') { comment_end(s, i + 2) } else { i + 1 }
    } else if c == '"' {
        let q = quote_end(s, i + 1);
        if q < s.len() { q + 1 } else { q }
    } else if c == ' ' || c == '\r' || c == '\t' || c == '\n' {
        i + 1
    } else if is_digit_char(c) {
        number_end(s, i)
    } else if starts_identifier(c) {
        identifier_end(s, i + 1)
    } else {
        i + 1
    }
}

/// What one lexeme gives: nothing, a token of a kind, or a diagnostic.
pub enum Lexed {
    Skip,
    Token(KindModel),
    Error(ScannerError),
}

/// What the lexeme that starts at `i` gives.
pub open spec fn lexeme_outcome(s: Seq<char>, i: int) -> Lexed {
    let c = s[i];
    let e = lexeme_end(s, i);
    if punctuation_kind(c) is Some {
        Lexed::Token(KindModel::Plain(punctuation_kind(c)->0))
    } else if is_operator_start(c) {
        Lexed::Token(KindModel::Plain(operator_kind(c, next_is(s, i, '='))))
    } else if c == '/' {
        if next_is(s, i, '/') {
            Lexed::Skip
        } else {
            Lexed::Token(KindModel::Plain(TokenType::Slash))
        }
    } else if c == '"' {
        if quote_end(s, i + 1) < s.len() {
            Lexed::Token(KindModel::Str(s.subrange(i + 1, e - 1)))
        } else {
            Lexed::Error(ScannerError::UnterminatedString(line_at(s, i) as usize))
        }
    } else if c == ' ' || c == '\r' || c == '\t' || c == '\n' {
        Lexed::Skip
    } else if is_digit_char(c) {
        Lexed::Token(KindModel::Number(s.subrange(i, e)))
    } else if starts_identifier(c) {
        let text = s.subrange(i, e);
        match keyword_of(text) {
            Some(k) => Lexed::Token(KindModel::Plain(k)),
            None => Lexed::Token(KindModel::Identifier(text)),
        }
    } else {
        Lexed::Error(ScannerError::UnrecognizedChar(c, line_at(s, i) as usize))
    }
}

/// The tokens and the diagnostics of the source from index `i` on, the
/// end-of-input marker not included.
pub open spec fn scan_from(s: Seq<char>, i: int) -> (Seq<TokenModel>, Seq<ScannerError>)
    decreases s.len() - i,
{
    if 0 <= i < s.len() && i < lexeme_end(s, i) <= s.len() {
        let e = lexeme_end(s, i);
        let rest = scan_from(s, e);
        match lexeme_outcome(s, i) {
            Lexed::Token(k) => (
                seq![TokenModel { kind: k, lexeme: Some(s.subrange(i, e)), line: line_at(s, i) }]
                    + rest.0,
                rest.1,
            ),
            Lexed::Error(d) => (rest.0, seq![d] + rest.1),
            Lexed::Skip => rest,
        }
    } else {
        (seq![], seq![])
    }
}

/// The end-of-input marker of `s`.
pub open spec fn end_marker(s: Seq<char>) -> TokenModel {
    TokenModel { kind: KindModel::Plain(TokenType::Eof), lexeme: None, line: line_at(s, s.len() as int) }
}

/// The tokens of the source from index `i` on, closed by the end-of-input marker.
pub open spec fn tokens_from(s: Seq<char>, i: int) -> Seq<TokenModel> {
    scan_from(s, i).0.push(end_marker(s))
}

/// All tokens of the source `s`.
pub open spec fn scanned(s: Seq<char>) -> Seq<TokenModel> {
    tokens_from(s, 0)
}

// ---------------------------------------------------------------------------
// Lemmas on the rules.
// ---------------------------------------------------------------------------

proof fn lemma_run_end(s: Seq<char>, i: int, p: spec_fn(char) -> bool)
    requires
        0 <= i <= s.len(),
    ensures
        i <= run_end(s, i, p) <= s.len(),
        forall|k: int| i <= k < run_end(s, i, p) ==> p(#[trigger] s[k]),
        run_end(s, i, p) < s.len() ==> !p(s[run_end(s, i, p)]),
    decreases s.len() - i,
{
    if i < s.len() && p(s[i]) {
        lemma_run_end(s, i + 1, p);
    }
}

proof fn lemma_newlines_bound(s: Seq<char>, b: int)
    requires
        0 <= b,
    ensures
        newlines_before(s, b) <= b,
    decreases b,
{
    if b > 0 {
        lemma_newlines_bound(s, b - 1);
    }
}

/// A lexeme is never empty and never runs past the end.
pub proof fn lemma_lexeme_end(s: Seq<char>, i: int)
    requires
        0 <= i < s.len(),
    ensures
        i < lexeme_end(s, i) <= s.len(),
{
    let c = s[i];
    if c == '/' && next_is(s, i, '/') {
        lemma_run_end(s, i + 2, |c: char| c != '\n');
    } else if c == '"' {
        lemma_run_end(s, i + 1, |c: char| c != '"');
    } else if is_digit_char(c) {
        lemma_run_end(s, i + 1, |c: char| is_digit_char(c));
        let j = digits_end(s, i + 1);
        if j + 1 < s.len() && s[j] == '.' && is_digit_char(s[j + 1]) {
            lemma_run_end(s, j + 1, |c: char| is_digit_char(c));
        }
    } else if starts_identifier(c) {
        lemma_run_end(s, i + 1, |c: char| continues_identifier(c));
    }
}
// ---------------------------------------------------------------------------
// The scanner.
// ---------------------------------------------------------------------------

/// A diagnostic found while scanning; neither stops the pass.
#[derive(Debug, Clone, Copy, PartialEq, Eq, Structural)]
pub enum ScannerError {
    /// A character that no rule accepts, with the line it stands on.
    UnrecognizedChar(char, usize),
    /// A string literal that the source ends inside of, with the line on
    /// which it was opened.
    UnterminatedString(usize),
}

/// What one scanning step gives to the driving loop.
enum ScanningResult {
    Skip,
    NewLine,
    Token(TokenType),
    Error(ScannerError),
}

impl ScanningResult {
    spec fn outcome(&self) -> Lexed {
        match self {
            ScanningResult::Skip => Lexed::Skip,
            ScanningResult::NewLine => Lexed::Skip,
            ScanningResult::Token(k) => Lexed::Token(k@),
            ScanningResult::Error(e) => Lexed::Error(*e),
        }
    }
}

/// A single forward pass over one source text.
pub struct Scanner {
    chars: Vec<char>,
    start: usize,
    current: usize,
    line: usize,
    errors: Vec<ScannerError>,
}

impl Scanner {
    /// The source text, as characters.
    pub closed spec fn source(&self) -> Seq<char> {
        self.chars@
    }

    /// The index of the next character to be consumed.
    pub closed spec fn position(&self) -> int {
        self.current as int
    }

    /// The diagnostics recorded so far.
    pub closed spec fn diagnostics(&self) -> Seq<ScannerError> {
        self.errors@
    }

    /// The cursor lies within the source, and the line counter holds the
    /// line of the next character.
    pub closed spec fn wf(&self) -> bool {
        &&& self.start <= self.current <= self.chars.len()
        &&& self.chars.len() < usize::MAX
        &&& self.line == line_at(self.chars@, self.current as int)
    }

    /// A scanner at the start of `source`.
    pub fn new(source: &str) -> (r: Scanner)
        requires
            source@.len() < usize::MAX,
        ensures
            r.wf(),
            r.source() == source@,
            r.position() == 0,
            r.diagnostics() == Seq::<ScannerError>::empty(),
    {
        let mut chars: Vec<char> = Vec::new();
        for c in it: source.chars()
            invariant
                chars@ == it.seq().take(it.index() as int),
        {
            chars.push(c);
        }
        assert(chars@ =~= source@);
        Scanner { chars, start: 0, current: 0, line: 1, errors: Vec::new() }
    }

    /// The diagnostics recorded so far, in the order of their lexemes.
    pub fn errors(&self) -> (r: &Vec<ScannerError>)
        ensures
            r@ == self.diagnostics(),
    {
        &self.errors
    }
}

impl Scanner {
    /// `self` differs from `other` at most in its cursor and line counter.
    spec fn same_source_as(&self, other: &Scanner) -> bool {
        &&& self.chars == other.chars
        &&& self.start == other.start
        &&& self.errors == other.errors
    }

    fn is_at_end(&self) -> (r: bool)
        ensures
            r == (self.current >= self.chars.len()),
    {
        self.current >= self.chars.len()
    }

    fn advance(&mut self) -> (c: char)
        requires
            old(self).current < old(self).chars.len(),
        ensures
            final(self).same_source_as(old(self)),
            final(self).current == old(self).current + 1,
            final(self).line == old(self).line,
            c == old(self).chars@[old(self).current as int],
    {
        let c = self.chars[self.current];
        self.current = self.current + 1;
        c
    }

    fn match_char(&mut self, expected: char) -> (r: bool)
        requires
            old(self).wf(),
        ensures
            final(self).same_source_as(old(self)),
            final(self).line == old(self).line,
            r == (old(self).current < old(self).chars.len() && old(self).chars@[old(
                self,
            ).current as int] == expected),
            final(self).current == old(self).current + if r {
                1int
            } else {
                0int
            },
    {
        if self.is_at_end() {
            return false;
        }
        if self.chars[self.current] != expected {
            return false;
        }
        self.current = self.current + 1;
        true
    }

    fn peek(&self) -> (c: char)
        ensures
            c == if self.current < self.chars.len() {
                self.chars@[self.current as int]
            } else {
                '\0'
            },
    {
        if self.is_at_end() {
            return '\0';
        }
        self.chars[self.current]
    }

    fn peek_next(&self) -> (c: char)
        requires
            self.current < usize::MAX,
        ensures
            c == if self.current + 1 < self.chars.len() {
                self.chars@[self.current + 1]
            } else {
                '\0'
            },
    {
        if self.current + 1 >= self.chars.len() {
            return '\0';
        }
        self.chars[self.current + 1]
    }

    fn is_digit(c: char) -> (r: bool)
        ensures
            r == is_digit_char(c),
    {
        '0' <= c && c <= '9'
    }

    fn is_alpha(c: char) -> (r: bool)
        ensures
            r == is_letter(c),
    {
        is_alphabetic(c)
    }

    fn is_alphanumeric(c: char) -> (r: bool)
        ensures
            r == continues_identifier(c),
    {
        is_alphabetic(c) || Self::is_digit(c)
    }

    /// The source text between `from` and `to`.
    fn text(&self, from: usize, to: usize) -> (r: String)
        requires
            from <= to <= self.chars.len(),
        ensures
            r@ == self.chars@.subrange(from as int, to as int),
    {
        let mut r = String::new();
        let mut i: usize = from;
        while i < to
            invariant
                from <= i <= to <= self.chars.len(),
                r@ == self.chars@.subrange(from as int, i as int),
            decreases to - i,
        {
            push_char(&mut r, self.chars[i]);
            i = i + 1;
            assert(r@ =~= self.chars@.subrange(from as int, i as int));
        }
        r
    }

    /// After a `/`: skips a line comment, or gives the division operator.
    fn get_comments(&mut self) -> (r: ScanningResult)
        requires
            old(self).wf(),
            old(self).current == old(self).start + 1,
            old(self).chars@[old(self).start as int] == '/',
        ensures
            final(self).wf(),
            final(self).same_source_as(old(self)),
            final(self).current == lexeme_end(old(self).chars@, old(self).start as int),
            r.outcome() == lexeme_outcome(old(self).chars@, old(self).start as int),
            !(r is NewLine),
    {
        let ghost s = self.chars@;
        let ghost i = self.start as int;
        if self.match_char('/') {
            proof {
                lemma_run_end(s, i + 2, |c: char| c != '\n');
            }
            while !self.is_at_end() && self.peek() != '\n'
                invariant
                    self.wf(),
                    self.same_source_as(old(self)),
                    self.chars@ == s,
                    i + 2 <= self.current,
                    comment_end(s, i + 2) == comment_end(s, self.current as int),
                decreases self.chars.len() - self.current,
            {
                self.advance();
            }
            ScanningResult::Skip
        } else {
            ScanningResult::Token(TokenType::Slash)
        }
    }

    /// After a `"`: the string literal up to the closing quote, its text
    /// kept verbatim, or a diagnostic where the source ends first.
    fn get_string_token(&mut self) -> (r: ScanningResult)
        requires
            old(self).wf(),
            old(self).current == old(self).start + 1,
            old(self).chars@[old(self).start as int] == '"',
        ensures
            final(self).wf(),
            final(self).same_source_as(old(self)),
            final(self).current == lexeme_end(old(self).chars@, old(self).start as int),
            r.outcome() == lexeme_outcome(old(self).chars@, old(self).start as int),
            !(r is NewLine),
    {
        let ghost s = self.chars@;
        let ghost i = self.start as int;
        let opening_line = self.line;
        while !self.is_at_end() && self.peek() != '"'
            invariant
                self.wf(),
                self.same_source_as(old(self)),
                self.chars@ == s,
                i + 1 <= self.current,
                quote_end(s, i + 1) == quote_end(s, self.current as int),
            decreases self.chars.len() - self.current,
        {
            proof {
                lemma_newlines_bound(s, self.current as int);
            }
            if self.peek() == '\n' {
                self.line = self.line + 1;
            }
            self.advance();
        }
        if self.is_at_end() {
            return ScanningResult::Error(ScannerError::UnterminatedString(opening_line));
        }
        let close = self.current;
        self.advance();
        let value = self.text(self.start + 1, close);
        ScanningResult::Token(TokenType::String(value))
    }

    /// After a digit: the rest of a number literal.
    fn number(&mut self) -> (r: TokenType)
        requires
            old(self).wf(),
            old(self).current == old(self).start + 1,
            is_digit_char(old(self).chars@[old(self).start as int]),
        ensures
            final(self).wf(),
            final(self).same_source_as(old(self)),
            final(self).current == number_end(old(self).chars@, old(self).start as int),
            r@ == KindModel::Number(
                old(self).chars@.subrange(old(self).start as int, final(self).current as int),
            ),
    {
        let ghost s = self.chars@;
        let ghost i = self.start as int;
        while Self::is_digit(self.peek())
            invariant
                self.wf(),
                self.same_source_as(old(self)),
                self.chars@ == s,
                i + 1 <= self.current,
                digits_end(s, i + 1) == digits_end(s, self.current as int),
            decreases self.chars.len() - self.current,
        {
            self.advance();
        }
        let ghost j = self.current as int;
        if self.peek() == '.' && Self::is_digit(self.peek_next()) {
            self.advance();
            while Self::is_digit(self.peek())
                invariant
                    self.wf(),
                    self.same_source_as(old(self)),
                    self.chars@ == s,
                    j + 1 <= self.current,
                    digits_end(s, j + 1) == digits_end(s, self.current as int),
                decreases self.chars.len() - self.current,
            {
                self.advance();
            }
        }
        let text = self.text(self.start, self.current);
        TokenType::Number(text)
    }

    /// After a character that starts an identifier: the rest of it, and the
    /// keyword that it spells, if any.
    fn identifier(&mut self) -> (r: TokenType)
        requires
            old(self).wf(),
            old(self).current == old(self).start + 1,
            starts_identifier(old(self).chars@[old(self).start as int]),
        ensures
            final(self).wf(),
            final(self).same_source_as(old(self)),
            final(self).current == identifier_end(old(self).chars@, old(self).start + 1),
            r@ == (match keyword_of(
                old(self).chars@.subrange(old(self).start as int, final(self).current as int),
            ) {
                Some(k) => KindModel::Plain(k),
                None => KindModel::Identifier(
                    old(self).chars@.subrange(old(self).start as int, final(self).current as int),
                ),
            }),
    {
        let ghost s = self.chars@;
        let ghost i = self.start as int;
        while !self.is_at_end() && Self::is_alphanumeric(self.peek())
            invariant
                self.wf(),
                self.same_source_as(old(self)),
                self.chars@ == s,
                i + 1 <= self.current,
                identifier_end(s, i + 1) == identifier_end(s, self.current as int),
            decreases self.chars.len() - self.current,
        {
            self.advance();
        }
        let text = self.text(self.start, self.current);
        match TokenType::keyword(text.as_str()) {
            Some(k) => k,
            None => TokenType::Identifier(text),
        }
    }

    /// Consumes one lexeme and says what it gives.
    fn scan_token(&mut self) -> (r: ScanningResult)
        requires
            old(self).wf(),
            old(self).current == old(self).start,
            old(self).current < old(self).chars.len(),
        ensures
            final(self).same_source_as(old(self)),
            final(self).current == lexeme_end(old(self).chars@, old(self).start as int),
            r.outcome() == lexeme_outcome(old(self).chars@, old(self).start as int),
            (r is NewLine) == (old(self).chars@[old(self).start as int] == '\n'),
            r is NewLine ==> final(self).line == old(self).line,
            !(r is NewLine) ==> final(self).wf(),
    {
        let c = self.advance();
        assert(c == '\n' || self.wf());
        match c {
            '(' => ScanningResult::Token(TokenType::LeftParen),
            ')' => ScanningResult::Token(TokenType::RightParen),
            '{' => ScanningResult::Token(TokenType::LeftBrace),
            '}' => ScanningResult::Token(TokenType::RightBrace),
            ',' => ScanningResult::Token(TokenType::Comma),
            '.' => ScanningResult::Token(TokenType::Dot),
            '-' => ScanningResult::Token(TokenType::Minus),
            '+' => ScanningResult::Token(TokenType::Plus),
            ';' => ScanningResult::Token(TokenType::Semicolon),
            '*' => ScanningResult::Token(TokenType::Star),
            '!' => {
                if self.match_char('=') {
                    ScanningResult::Token(TokenType::BangEqual)
                } else {
                    ScanningResult::Token(TokenType::Bang)
                }
            },
            '=' => {
                if self.match_char('=') {
                    ScanningResult::Token(TokenType::EqualEqual)
                } else {
                    ScanningResult::Token(TokenType::Equal)
                }
            },
            '<' => {
                if self.match_char('=') {
                    ScanningResult::Token(TokenType::LessEqual)
                } else {
                    ScanningResult::Token(TokenType::Less)
                }
            },
            '>' => {
                if self.match_char('=') {
                    ScanningResult::Token(TokenType::GreaterEqual)
                } else {
                    ScanningResult::Token(TokenType::Greater)
                }
            },
            '/' => self.get_comments(),
            '"' => self.get_string_token(),
            ' ' | '\r' | '\t' => ScanningResult::Skip,
            '\n' => ScanningResult::NewLine,
            _ => {
                if Self::is_digit(c) {
                    ScanningResult::Token(self.number())
                } else if Self::is_alpha(c) || c == '_' {
                    ScanningResult::Token(self.identifier())
                } else {
                    ScanningResult::Error(ScannerError::UnrecognizedChar(c, self.line))
                }
            },
        }
    }

    /// Appends the token of the lexeme between `start` and `current`.
    fn add_token(&self, token_type: TokenType, line: usize, tokens: &mut Vec<Token>)
        requires
            self.start <= self.current <= self.chars.len(),
        ensures
            final(tokens)@.len() == old(tokens)@.len() + 1,
            forall|k: int| 0 <= k < old(tokens)@.len() ==> final(tokens)@[k] == old(tokens)@[k],
            final(tokens)@.last()@ == (TokenModel {
                kind: token_type@,
                lexeme: Some(self.chars@.subrange(self.start as int, self.current as int)),
                line: line as nat,
            }),
    {
        let text = self.text(self.start, self.current);
        tokens.push(Token::new(token_type, Some(text), line));
    }

    /// Scans the rest of the source: every token from the cursor on, closed
    /// by the end-of-input marker. Diagnostics are recorded on the way, and
    /// the pass goes on after each of them.
    pub fn scan_tokens(&mut self) -> (r: Vec<Token>)
        requires
            old(self).wf(),
        ensures
            final(self).wf(),
            final(self).source() == old(self).source(),
            final(self).position() == old(self).source().len(),
            models(r@) == tokens_from(old(self).source(), old(self).position()),
            final(self).diagnostics() == old(self).diagnostics() + scan_from(
                old(self).source(),
                old(self).position(),
            ).1,
    {
        let ghost s = self.chars@;
        let ghost i0 = self.current as int;
        let ghost e0 = self.errors@;
        let mut tokens: Vec<Token> = Vec::new();
        assert(models(tokens@) =~= Seq::<TokenModel>::empty());
        assert(scan_from(s, i0).0 =~= Seq::<TokenModel>::empty() + scan_from(s, i0).0);
        while !self.is_at_end()
            invariant
                self.wf(),
                self.chars@ == s,
                i0 <= self.current,
                models(tokens@) + scan_from(s, self.current as int).0 == scan_from(s, i0).0,
                self.errors@ + scan_from(s, self.current as int).1 == e0 + scan_from(s, i0).1,
            decreases self.chars.len() - self.current,
        {
            self.start = self.current;
            let line = self.line;
            let ghost i = self.current as int;
            let ghost done = models(tokens@);
            let ghost errs = self.errors@;
            proof {
                lemma_lexeme_end(s, i);
                lemma_newlines_bound(s, i + 1);
            }
            let ghost rest = scan_from(s, lexeme_end(s, i));
            match self.scan_token() {
                ScanningResult::Token(kind) => {
                    let ghost tm = TokenModel {
                        kind: kind@,
                        lexeme: Some(s.subrange(i, lexeme_end(s, i))),
                        line: line_at(s, i),
                    };
                    self.add_token(kind, line, &mut tokens);
                    assert(models(tokens@) =~= done.push(tm));
                    assert(done.push(tm) + rest.0 =~= done + (seq![tm] + rest.0));
                },
                ScanningResult::Error(error) => {
                    self.errors.push(error);
                    assert(errs.push(error) + rest.1 =~= errs + (seq![error] + rest.1));
                },
                ScanningResult::NewLine => {
                    self.line = self.line + 1;
                },
                ScanningResult::Skip => {},
            }
        }
        let ghost done = models(tokens@);
        tokens.push(Token::new(TokenType::Eof, None, self.line));
        assert(models(tokens@) =~= done.push(end_marker(s)));
        assert(done =~= done + scan_from(s, self.current as int).0);
        assert(self.errors@ =~= self.errors@ + scan_from(s, self.current as int).1);
        tokens
    }
}

/// The mathematical values of a sequence of tokens.
pub open spec fn models(v: Seq<Token>) -> Seq<TokenModel> {
    v.map_values(|t: Token| t@)
}

// ---------------------------------------------------------------------------
// Laws of the token stream.
// ---------------------------------------------------------------------------

proof fn lemma_no_end_marker_inside(s: Seq<char>, i: int)
    ensures
        forall|k: int|
            0 <= k < scan_from(s, i).0.len() ==> #[trigger] scan_from(s, i).0[k].kind
                != KindModel::Plain(TokenType::Eof),
    decreases s.len() - i,
{
    if 0 <= i < s.len() && i < lexeme_end(s, i) <= s.len() {
        let e = lexeme_end(s, i);
        lemma_no_end_marker_inside(s, e);
        let rest = scan_from(s, e);
        if let Lexed::Token(kind) = lexeme_outcome(s, i) {
            let tm = TokenModel { kind, lexeme: Some(s.subrange(i, e)), line: line_at(s, i) };
            assert(kind != KindModel::Plain(TokenType::Eof));
            assert forall|k: int| 0 <= k < scan_from(s, i).0.len() implies #[trigger] scan_from(
                s,
                i,
            ).0[k].kind != KindModel::Plain(TokenType::Eof) by {
                if k > 0 {
                    assert(scan_from(s, i).0[k] == rest.0[k - 1]);
                }
            }
        }
    }
}

/// Whatever the source, its token sequence ends with the end-of-input
/// marker, and that marker occurs nowhere else in it.
pub proof fn lemma_end_marker_once(s: Seq<char>)
    ensures
        scanned(s).len() >= 1,
        scanned(s).last() == end_marker(s),
        scanned(s).last().kind == KindModel::Plain(TokenType::Eof),
        forall|k: int|
            0 <= k < scanned(s).len() - 1 ==> #[trigger] scanned(s)[k].kind != KindModel::Plain(
                TokenType::Eof,
            ),
{
    lemma_no_end_marker_inside(s, 0);
    assert forall|k: int| 0 <= k < scanned(s).len() - 1 implies #[trigger] scanned(s)[k].kind
        != KindModel::Plain(TokenType::Eof) by {
        assert(scanned(s)[k] == scan_from(s, 0).0[k]);
    }
}

/// A single punctuation character scans to one token of its kind, whose
/// lexeme is that character, followed by the end-of-input marker.
pub proof fn lemma_single_punctuation(c: char)
    requires
        c == '(' || c == ')' || c == '{' || c == '}' || c == ',' || c == '.' || c == '+' || c
            == ';' || c == '*',
    ensures
        punctuation_kind(c) is Some,
        scanned(seq![c]) == seq![
            TokenModel {
                kind: KindModel::Plain(punctuation_kind(c)->0),
                lexeme: Some(seq![c]),
                line: 1,
            },
            TokenModel { kind: KindModel::Plain(TokenType::Eof), lexeme: None, line: 1 },
        ],
{
    let s = seq![c];
    assert(lexeme_end(s, 0) == 1);
    assert(scan_from(s, 1) == (Seq::<TokenModel>::empty(), Seq::<ScannerError>::empty()));
    assert(s.subrange(0, 1) =~= s);
    assert(s[0] == c);
    assert(newlines_before(s, 0) == 0);
    assert(newlines_before(s, 1) == 0);
    assert(scanned(s) =~= seq![
        TokenModel {
            kind: KindModel::Plain(punctuation_kind(c)->0),
            lexeme: Some(seq![c]),
            line: 1,
        },
        TokenModel { kind: KindModel::Plain(TokenType::Eof), lexeme: None, line: 1 },
    ]);
}

/// An operator character followed by `=` scans to one two-character token;
/// alone it scans to the one-character token. Either is followed by the
/// end-of-input marker.
pub proof fn lemma_operator(c: char)
    requires
        c == '!' || c == '=' || c == '<' || c == '>',
    ensures
        scanned(seq![c, '=']) == seq![
            TokenModel {
                kind: KindModel::Plain(operator_kind(c, true)),
                lexeme: Some(seq![c, '=']),
                line: 1,
            },
            TokenModel { kind: KindModel::Plain(TokenType::Eof), lexeme: None, line: 1 },
        ],
        scanned(seq![c]) == seq![
            TokenModel {
                kind: KindModel::Plain(operator_kind(c, false)),
                lexeme: Some(seq![c]),
                line: 1,
            },
            TokenModel { kind: KindModel::Plain(TokenType::Eof), lexeme: None, line: 1 },
        ],
{
    let s = seq![c, '='];
    assert(lexeme_end(s, 0) == 2);
    assert(scan_from(s, 2) == (Seq::<TokenModel>::empty(), Seq::<ScannerError>::empty()));
    assert(s.subrange(0, 2) =~= s);
    assert(s[0] == c && s[1] == '=');
    assert(newlines_before(s, 0) == 0);
    assert(newlines_before(s, 1) == 0);
    assert(newlines_before(s, 2) == 0);
    assert(scanned(s) =~= seq![
        TokenModel {
            kind: KindModel::Plain(operator_kind(c, true)),
            lexeme: Some(seq![c, '=']),
            line: 1,
        },
        TokenModel { kind: KindModel::Plain(TokenType::Eof), lexeme: None, line: 1 },
    ]);
    let t = seq![c];
    assert(lexeme_end(t, 0) == 1);
    assert(scan_from(t, 1) == (Seq::<TokenModel>::empty(), Seq::<ScannerError>::empty()));
    assert(t.subrange(0, 1) =~= t);
    assert(t[0] == c);
    assert(newlines_before(t, 0) == 0);
    assert(newlines_before(t, 1) == 0);
    assert(scanned(t) =~= seq![
        TokenModel {
            kind: KindModel::Plain(operator_kind(c, false)),
            lexeme: Some(seq![c]),
            line: 1,
        },
        TokenModel { kind: KindModel::Plain(TokenType::Eof), lexeme: None, line: 1 },
    ]);
}

} // verus!
