//! Lexical scanner: turns source text into a stream of classified tokens,
//! each tagged with the exact span of characters it consumed.
//!
//! Scanning policy, tried in priority order at each position:
//! 1. a run of decimal digits becomes a `Number` token; its value is the
//!    decimal value of the run, saturating at `isize::MAX`;
//! 2. a character that starts an identifier (alphabetic or `_`) begins a run
//!    that extends to the next whitespace character, classified as the
//!    `return` keyword or as an `Identifier`;
//! 3. a whitespace character begins a maximal whitespace run, which becomes
//!    `Eof` when it reaches the end of the input and `Whitespace` otherwise;
//! 4. any other character is consumed alone and mapped through a fixed
//!    single-character table; unmapped characters become `Invalid`.
//!
//! The lexer never fails: unrecognized input becomes `Invalid` tokens.
//! Offsets count characters of the input.

use vstd::prelude::*;
use vstd::string::StrSliceExecFns;

verus! {

/// The classification of one lexical unit.
#[derive(Clone, Copy, Debug, PartialEq, Eq, Structural)]
pub enum TokenKind {
    // literals
    Number(isize),
    // operators
    Plus,
    Minus,
    Asterisk,
    Slash,
    // separators
    Semicolon,
    OpenParen,
    CloseParen,
    // keywords
    Return,
    // other
    Invalid,
    Unknown,
    Identifier,
    Whitespace,
    Eof,
}

/// A half-open character-offset range of the input together with the exact
/// substring it covers.
#[derive(Debug)]
pub struct TextSpan {
    pub start: usize,
    pub end: usize,
    pub literal: String,
}

/// A classified lexical unit: a kind and the span it was read from.
#[derive(Debug)]
pub struct Token {
    pub kind: TokenKind,
    pub span: TextSpan,
}

/// Mathematical model of a `TextSpan`.
pub struct SpanModel {
    pub start: int,
    pub end: int,
    pub literal: Seq<char>,
}

/// Mathematical model of a `Token`.
pub struct TokenModel {
    pub kind: TokenKind,
    pub span: SpanModel,
}

impl View for TextSpan {
    type V = SpanModel;

    open spec fn view(&self) -> SpanModel {
        SpanModel { start: self.start as int, end: self.end as int, literal: self.literal@ }
    }
}

impl View for Token {
    type V = TokenModel;

    open spec fn view(&self) -> TokenModel {
        TokenModel { kind: self.kind, span: self.span@ }
    }
}

impl Clone for TextSpan {
    fn clone(&self) -> (other: Self)
        ensures
            other == *self,
    {
        TextSpan { start: self.start, end: self.end, literal: self.literal.clone() }
    }
}

impl Clone for Token {
    fn clone(&self) -> (other: Self)
        ensures
            other == *self,
    {
        Token { kind: self.kind, span: self.span.clone() }
    }
}

/// Every character is a Unicode scalar value, so casting through `u32`
/// preserves its code point.
pub proof fn lemma_char_value(c: char)
    ensures
        0 <= c as int <= 0x10FFFF,
        (c as u32) as int == c as int,
{
}

/// A decimal digit, `'0'` through `'9'`.
pub open spec fn is_digit_char(c: char) -> bool {
    48 <= c as int <= 57
}

/// The numeric value of a decimal digit.
pub open spec fn digit_value(c: char) -> int {
    c as int - 48
}

/// A character with the Unicode `White_Space` property. That property holds
/// of exactly these twenty-five code points.
pub open spec fn is_whitespace_char_spec(c: char) -> bool {
    let u = c as int;
    ||| 9 <= u <= 13  // tab, line feed, vertical tab, form feed, carriage return
    ||| u == 32  // space
    ||| u == 133  // next line
    ||| u == 160  // no-break space
    ||| u == 5760  // ogham space mark
    ||| 8192 <= u <= 8202  // en quad through hair space
    ||| u == 8232  // line separator
    ||| u == 8233  // paragraph separator
    ||| u == 8239  // narrow no-break space
    ||| u == 8287  // medium mathematical space
    ||| u == 12288  // ideographic space
}

/// A character with the Unicode `Alphabetic` property, as `char::is_alphabetic`
/// reports it.
pub uninterp spec fn unicode_alphabetic(c: char) -> bool;

/// A character that starts an identifier: alphabetic or an underscore.
/// No `White_Space` character is `Alphabetic`, so the alphabetic disjunct
/// excludes whitespace.
pub open spec fn is_identifier_start_char(c: char) -> bool {
    ||| (unicode_alphabetic(c) && !is_whitespace_char_spec(c))
    ||| c == '_'
}

/// Whether a character has the Unicode `White_Space` property.
pub fn is_whitespace_char(c: char) -> (result: bool)
    ensures
        result == is_whitespace_char_spec(c),
{
    let u = c as u32;
    (9 <= u && u <= 13) || u == 32 || u == 133 || u == 160 || u == 5760 || (8192 <= u && u
        <= 8202) || u == 8232 || u == 8233 || u == 8239 || u == 8287 || u == 12288
}

/// Relies on `char::is_alphabetic`: true exactly for characters with the
/// Unicode `Alphabetic` property, a function of the character alone. No
/// character with the `White_Space` property is `Alphabetic`.
#[verifier::external_body]
fn is_alphabetic_char(c: char) -> (result: bool)
    ensures
        result == unicode_alphabetic(c),
        is_whitespace_char_spec(c) ==> !result,
{
    c.is_alphabetic()
}

/// The first position at or after `i` that does not hold a decimal digit.
pub open spec fn digit_run_end(s: Seq<char>, i: int) -> int
    decreases s.len() - i,
{
    if i < 0 || i >= s.len() {
        i
    } else if is_digit_char(s[i]) {
        digit_run_end(s, i + 1)
    } else {
        i
    }
}

/// The first position at or after `i` that holds a whitespace character.
pub open spec fn non_whitespace_run_end(s: Seq<char>, i: int) -> int
    decreases s.len() - i,
{
    if i < 0 || i >= s.len() {
        i
    } else if !is_whitespace_char_spec(s[i]) {
        non_whitespace_run_end(s, i + 1)
    } else {
        i
    }
}

/// The first position at or after `i` that does not hold a whitespace
/// character.
pub open spec fn whitespace_run_end(s: Seq<char>, i: int) -> int
    decreases s.len() - i,
{
    if i < 0 || i >= s.len() {
        i
    } else if is_whitespace_char_spec(s[i]) {
        whitespace_run_end(s, i + 1)
    } else {
        i
    }
}

/// The value of a digit sequence read in base ten.
pub open spec fn decimal_value(s: Seq<char>) -> int
    decreases s.len(),
{
    if s.len() == 0 {
        0
    } else {
        decimal_value(s.drop_last()) * 10 + digit_value(s.last())
    }
}

/// Saturates a value at `isize::MAX`, the overflow policy of number literals.
pub open spec fn saturate_isize(v: int) -> int {
    if v > isize::MAX as int {
        isize::MAX as int
    } else {
        v
    }
}

/// The single-character symbol table; characters outside it are `Invalid`.
pub open spec fn symbol_kind(c: char) -> TokenKind {
    if c == ';' {
        TokenKind::Semicolon
    } else if c == '+' {
        TokenKind::Plus
    } else if c == '-' {
        TokenKind::Minus
    } else if c == '*' {
        TokenKind::Asterisk
    } else if c == '/' {
        TokenKind::Slash
    } else if c == '(' {
        TokenKind::OpenParen
    } else if c == ')' {
        TokenKind::CloseParen
    } else {
        TokenKind::Invalid
    }
}

/// Classifies an identifier literal: the keyword `return`, or `Identifier`.
pub open spec fn identifier_kind(literal: Seq<char>) -> TokenKind {
    if literal == "return"@ {
        TokenKind::Return
    } else {
        TokenKind::Identifier
    }
}

/// What the scanner produces at position `pos` of input `s`: the kind of the
/// next token and the position just past it, or nothing when the input is
/// exhausted.
pub open spec fn next_token_at(s: Seq<char>, pos: int) -> Option<(TokenKind, int)> {
    if pos < 0 || pos >= s.len() {
        None
    } else {
        let c = s[pos];
        if is_digit_char(c) {
            let run_end = digit_run_end(s, pos);
            Some(
                (
                    TokenKind::Number(
                        saturate_isize(decimal_value(s.subrange(pos, run_end))) as isize,
                    ),
                    run_end,
                ),
            )
        } else if is_identifier_start_char(c) {
            let run_end = non_whitespace_run_end(s, pos + 1);
            Some((identifier_kind(s.subrange(pos, run_end)), run_end))
        } else if is_whitespace_char_spec(c) {
            let run_end = whitespace_run_end(s, pos + 1);
            Some(
                (
                    if run_end == s.len() {
                        TokenKind::Eof
                    } else {
                        TokenKind::Whitespace
                    },
                    run_end,
                ),
            )
        } else {
            Some((symbol_kind(c), pos + 1))
        }
    }
}

impl TextSpan {
    /// A span is well formed when its bounds are ordered and its literal has
    /// exactly one character per covered offset.
    pub open spec fn wf(&self) -> bool {
        self.start <= self.end && self.literal@.len() == self.end - self.start
    }

    pub fn new(start: usize, end: usize, literal: String) -> (span: Self)
        requires
            start <= end,
            literal@.len() == end - start,
        ensures
            span@ == (SpanModel { start: start as int, end: end as int, literal: literal@ }),
            span.wf(),
    {
        Self { start, end, literal }
    }

    /// The number of characters the span covers.
    pub fn length(&self) -> (n: usize)
        requires
            self.start <= self.end,
        ensures
            n == self@.end - self@.start,
    {
        self.end - self.start
    }
}

impl Token {
    pub fn new(kind: TokenKind, span: TextSpan) -> (token: Self)
        ensures
            token.kind == kind,
            token.span == span,
    {
        Self { kind, span }
    }
}

pub proof fn lemma_digit_run_end(s: Seq<char>, i: int)
    requires
        0 <= i <= s.len(),
    ensures
        i <= digit_run_end(s, i) <= s.len(),
        forall|j: int| i <= j < digit_run_end(s, i) ==> is_digit_char(#[trigger] s[j]),
        digit_run_end(s, i) < s.len() ==> !is_digit_char(s[digit_run_end(s, i)]),
    decreases s.len() - i,
{
    if i < s.len() && is_digit_char(s[i]) {
        lemma_digit_run_end(s, i + 1);
    }
}

pub proof fn lemma_non_whitespace_run_end(s: Seq<char>, i: int)
    requires
        0 <= i <= s.len(),
    ensures
        i <= non_whitespace_run_end(s, i) <= s.len(),
        forall|j: int|
            i <= j < non_whitespace_run_end(s, i) ==> !is_whitespace_char_spec(#[trigger] s[j]),
        non_whitespace_run_end(s, i) < s.len() ==> is_whitespace_char_spec(
            s[non_whitespace_run_end(s, i)],
        ),
    decreases s.len() - i,
{
    if i < s.len() && !is_whitespace_char_spec(s[i]) {
        lemma_non_whitespace_run_end(s, i + 1);
    }
}

pub proof fn lemma_whitespace_run_end(s: Seq<char>, i: int)
    requires
        0 <= i <= s.len(),
    ensures
        i <= whitespace_run_end(s, i) <= s.len(),
        forall|j: int| i <= j < whitespace_run_end(s, i) ==> is_whitespace_char_spec(#[trigger] s[j]),
        whitespace_run_end(s, i) < s.len() ==> !is_whitespace_char_spec(s[whitespace_run_end(s, i)]),
    decreases s.len() - i,
{
    if i < s.len() && is_whitespace_char_spec(s[i]) {
        lemma_whitespace_run_end(s, i + 1);
    }
}

/// The stateful scanner: the input text, its length in characters, and the
/// cursor position, all counted in characters.
pub struct Lexer {
    input: String,
    length: usize,
    current_position: usize,
}

impl Lexer {
    /// The cursor stays inside the input and `length` caches its character
    /// count.
    pub closed spec fn wf(&self) -> bool {
        self.length == self.input@.len() && self.current_position <= self.length
    }

    /// The characters of the input text.
    pub closed spec fn text(&self) -> Seq<char> {
        self.input@
    }

    /// The current cursor position.
    pub closed spec fn position(&self) -> int {
        self.current_position as int
    }

    pub fn new(input: &String) -> (lexer: Self)
        ensures
            lexer.wf(),
            lexer.text() == input@,
            lexer.position() == 0,
    {
        let length = input.as_str().unicode_len();
        Self { input: input.clone(), length, current_position: 0 }
    }

    fn peek(&self) -> (result: Option<char>)
        requires
            self.wf(),
        ensures
            result == (if self.position() < self.text().len() {
                Some(self.text()[self.position()])
            } else {
                None::<char>
            }),
    {
        if self.current_position < self.length {
            Some(self.input.as_str().get_char(self.current_position))
        } else {
            None
        }
    }

    fn consume(&mut self) -> (result: Option<char>)
        requires
            old(self).wf(),
        ensures
            final(self).wf(),
            final(self).input == old(self).input,
            old(self).position() < old(self).text().len() ==> {
                &&& result == Some(old(self).text()[old(self).position()])
                &&& final(self).position() == old(self).position() + 1
            },
            old(self).position() >= old(self).text().len() ==> {
                &&& result is None
                &&& final(self).position() == old(self).position()
            },
    {
        if self.current_position < self.length {
            let c = self.input.as_str().get_char(self.current_position);
            self.current_position = self.current_position + 1;
            Some(c)
        } else {
            None
        }
    }

    /// Whether the character under the cursor starts an identifier.
    fn is_identifier_start(&self) -> (result: bool)
        requires
            self.wf(),
        ensures
            result == (self.position() < self.text().len() && is_identifier_start_char(
                self.text()[self.position()],
            )),
    {
        match self.peek() {
            Some(c) => is_alphabetic_char(c) || c == '_',
            None => false,
        }
    }

    /// Consumes a run of decimal digits, accumulating its value in base ten
    /// and saturating at `isize::MAX`.
    #[verifier::loop_isolation(false)]
    fn consume_number(&mut self) -> (number: isize)
        requires
            old(self).wf(),
        ensures
            final(self).wf(),
            final(self).input == old(self).input,
            final(self).position() == digit_run_end(old(self).text(), old(self).position()),
            number as int == saturate_isize(
                decimal_value(old(self).text().subrange(old(self).position(), final(self).position())),
            ),
    {
        let ghost s = self.input@;
        let ghost start = self.current_position as int;
        let mut number: isize = 0;
        proof {
            assert(s.subrange(start, start) =~= Seq::<char>::empty());
        }
        loop
            invariant
                self.wf(),
                self.input == old(self).input,
                start <= self.position() <= s.len(),
                digit_run_end(s, start) == digit_run_end(s, self.position()),
                number >= 0,
                number as int == saturate_isize(decimal_value(s.subrange(start, self.position()))),
            decreases s.len() - self.position(),
        {
            let c = match self.peek() {
                Some(c) => c,
                None => { break ; },
            };
            let u = c as u32;
            if !(48 <= u && u <= 57) {
                break ;
            }
            let ghost pos = self.position();
            let digit: isize = (u - 48) as isize;
            proof {
                lemma_char_value(c);
                let prefix = s.subrange(start, pos);
                let extended = s.subrange(start, pos + 1);
                assert(extended.drop_last() =~= prefix);
                assert(extended.last() == s[pos]);
                assert(decimal_value(extended) == decimal_value(prefix) * 10 + digit_value(s[pos]));
                vstd::arithmetic::div_mod::lemma_fundamental_div_mod(
                    isize::MAX as int - digit,
                    10,
                );
                if decimal_value(prefix) > isize::MAX as int {
                    assert(decimal_value(prefix) * 10 >= (isize::MAX as int + 1) * 10) by (nonlinear_arith)
                        requires decimal_value(prefix) >= isize::MAX as int + 1;
                }
            }
            if number > (isize::MAX - digit) / 10 {
                number = isize::MAX;
            } else {
                number = number * 10 + digit;
            }
            self.consume();
            proof {
                assert(is_digit_char(s[pos]));
            }
        }
        proof {
            lemma_digit_run_end(s, self.position());
        }
        number
    }

    /// Consumes an identifier run: the starting character and everything up
    /// to the next whitespace character.
    #[verifier::loop_isolation(false)]
    fn consume_identifier(&mut self) -> (identifier: String)
        requires
            old(self).wf(),
            old(self).position() < old(self).text().len(),
        ensures
            final(self).wf(),
            final(self).input == old(self).input,
            final(self).position() == non_whitespace_run_end(
                old(self).text(),
                old(self).position() + 1,
            ),
            identifier@ == old(self).text().subrange(old(self).position(), final(self).position()),
    {
        let ghost s = self.input@;
        let start = self.current_position;
        self.current_position = self.current_position + 1;
        loop
            invariant
                self.wf(),
                self.input == old(self).input,
                start + 1 <= self.position() <= s.len(),
                non_whitespace_run_end(s, start as int + 1) == non_whitespace_run_end(
                    s,
                    self.position(),
                ),
            decreases s.len() - self.position(),
        {
            let c = match self.peek() {
                Some(c) => c,
                None => { break ; },
            };
            if is_whitespace_char(c) {
                break ;
            }
            self.current_position = self.current_position + 1;
        }
        self.input.as_str().substring_char(start, self.current_position).to_owned()
    }

    /// Consumes a maximal whitespace run; the token is `Eof` when the run
    /// reaches the end of the input, `Whitespace` otherwise.
    #[verifier::loop_isolation(false)]
    fn consume_whitespace(&mut self) -> (kind: TokenKind)
        requires
            old(self).wf(),
            old(self).position() < old(self).text().len(),
            is_whitespace_char_spec(old(self).text()[old(self).position()]),
        ensures
            final(self).wf(),
            final(self).input == old(self).input,
            final(self).position() == whitespace_run_end(old(self).text(), old(self).position() + 1),
            kind == (if final(self).position() == old(self).text().len() {
                TokenKind::Eof
            } else {
                TokenKind::Whitespace
            }),
    {
        let ghost s = self.input@;
        let ghost start = self.current_position as int;
        self.current_position = self.current_position + 1;
        loop
            invariant
                self.wf(),
                self.input == old(self).input,
                start + 1 <= self.position() <= s.len(),
                whitespace_run_end(s, start + 1) == whitespace_run_end(s, self.position()),
            decreases s.len() - self.position(),
        {
            let c = match self.peek() {
                Some(c) => c,
                None => { break ; },
            };
            if !is_whitespace_char(c) {
                break ;
            }
            self.current_position = self.current_position + 1;
        }
        if self.current_position == self.length {
            TokenKind::Eof
        } else {
            TokenKind::Whitespace
        }
    }

    /// Consumes exactly one character and maps it through the symbol table.
    fn consume_symbol(&mut self) -> (kind: TokenKind)
        requires
            old(self).wf(),
            old(self).position() < old(self).text().len(),
        ensures
            final(self).wf(),
            final(self).input == old(self).input,
            final(self).position() == old(self).position() + 1,
            kind == symbol_kind(old(self).text()[old(self).position()]),
    {
        let c = self.input.as_str().get_char(self.current_position);
        self.current_position = self.current_position + 1;
        match c {
            ';' => TokenKind::Semicolon,
            '+' => TokenKind::Plus,
            '-' => TokenKind::Minus,
            '*' => TokenKind::Asterisk,
            '/' => TokenKind::Slash,
            '(' => TokenKind::OpenParen,
            ')' => TokenKind::CloseParen,
            _ => TokenKind::Invalid,
        }
    }

    /// Classifies an identifier literal: the keyword `return`, or anything
    /// else as `Identifier`.
    fn get_identifier_kind(identifier: &String) -> (kind: TokenKind)
        ensures
            kind == identifier_kind(identifier@),
    {
        let keyword = "return".to_owned();
        if identifier.eq(&keyword) {
            TokenKind::Return
        } else {
            TokenKind::Identifier
        }
    }

    /// Produces the next token, or nothing exactly when the input is
    /// exhausted. The token's span covers exactly the characters consumed
    /// for it, and its literal is that exact substring of the input.
    pub fn next_token(&mut self) -> (result: Option<Token>)
        requires
            old(self).wf(),
        ensures
            final(self).wf(),
            final(self).text() == old(self).text(),
            match next_token_at(old(self).text(), old(self).position()) {
                None => {
                    &&& result is None
                    &&& final(self).position() == old(self).position()
                },
                Some((kind, run_end)) => {
                    &&& result matches Some(t)
                    &&& t.kind == kind
                    &&& t.span.start == old(self).position()
                    &&& t.span.end == run_end
                    &&& t.span.literal@ == old(self).text().subrange(old(self).position(), run_end)
                    &&& t.span.wf()
                    &&& final(self).position() == run_end
                },
            },
    {
        let ghost s = self.input@;
        let start = self.current_position;
        if start >= self.length {
            return None;
        }
        let c = self.input.as_str().get_char(start);
        let u = c as u32;
        let kind: TokenKind;
        if 48 <= u && u <= 57 {
            let value = self.consume_number();
            kind = TokenKind::Number(value);
            proof {
                lemma_digit_run_end(s, start as int);
            }
        } else if self.is_identifier_start() {
            let identifier = self.consume_identifier();
            kind = Lexer::get_identifier_kind(&identifier);
            proof {
                lemma_non_whitespace_run_end(s, start as int + 1);
            }
        } else if is_whitespace_char(c) {
            kind = self.consume_whitespace();
            proof {
                lemma_whitespace_run_end(s, start as int + 1);
            }
        } else {
            kind = self.consume_symbol();
        }
        let end = self.current_position;
        let literal = self.input.as_str().substring_char(start, end).to_owned();
        let span = TextSpan::new(start, end, literal);
        Some(Token::new(kind, span))
    }
}

/// The models of a token sequence.
pub open spec fn token_models(tokens: Seq<Token>) -> Seq<TokenModel> {
    tokens.map_values(|t: Token| t@)
}

/// One token agrees with the scanner at its start position: the scanner
/// yields its kind and its end, and its literal is the exact input substring
/// its span covers.
pub open spec fn token_at_ok(s: Seq<char>, t: TokenModel) -> bool {
    &&& next_token_at(s, t.span.start) == Some((t.kind, t.span.end))
    &&& t.span.literal == s.subrange(t.span.start, t.span.end)
}

/// The tokens tile the input from `start` to its end: the first token starts
/// at `start`, each token starts where the one before it ended, each agrees
/// with the scanner, and the last one ends at the end of the input.
pub open spec fn lexes_from(s: Seq<char>, start: int, toks: Seq<TokenModel>) -> bool {
    &&& (toks.len() == 0 <==> start == s.len())
    &&& toks.len() > 0 ==> toks[0].span.start == start
    &&& forall|i: int| 0 <= i < toks.len() ==> token_at_ok(s, #[trigger] toks[i])
    &&& forall|i: int| 1 <= i < toks.len() ==> (#[trigger] toks[i]).span.start == toks[i - 1].span.end
    &&& toks.len() > 0 ==> toks[toks.len() - 1].span.end == s.len()
}

/// The tokens are exactly the lexing of the whole input.
pub open spec fn lexes(s: Seq<char>, toks: Seq<TokenModel>) -> bool {
    lexes_from(s, 0, toks)
}

impl Lexer {
    /// Drains `next_token` until the input is exhausted and collects the
    /// produced tokens, which tile the remaining input.
    #[verifier::loop_isolation(false)]
    pub fn tokenize(&mut self) -> (tokens: Vec<Token>)
        requires
            old(self).wf(),
        ensures
            final(self).wf(),
            final(self).text() == old(self).text(),
            final(self).position() == old(self).text().len(),
            lexes_from(old(self).text(), old(self).position(), token_models(tokens@)),
    {
        let ghost s = self.text();
        let ghost start = self.position();
        let mut tokens: Vec<Token> = Vec::new();
        loop
            invariant
                self.wf(),
                self.text() == s,
                start <= self.position() <= s.len(),
                token_models(tokens@).len() == 0 ==> self.position() == start,
                token_models(tokens@).len() > 0 ==> token_models(tokens@)[0].span.start == start,
                token_models(tokens@).len() > 0 ==> token_models(
                    tokens@,
                )[token_models(tokens@).len() - 1].span.end == self.position(),
                forall|i: int|
                    0 <= i < token_models(tokens@).len() ==> token_at_ok(
                        s,
                        #[trigger] token_models(tokens@)[i],
                    ),
                forall|i: int|
                    1 <= i < token_models(tokens@).len() ==> (#[trigger] token_models(
                        tokens@,
                    )[i]).span.start == token_models(tokens@)[i - 1].span.end,
            decreases s.len() - self.position(),
        {
            let ghost position_before = self.position();
            let token = match self.next_token() {
                Some(token) => token,
                None => { break ; },
            };
            proof {
                if is_digit_char(s[position_before]) {
                    lemma_digit_run_end(s, position_before);
                }
                lemma_non_whitespace_run_end(s, position_before + 1);
                lemma_whitespace_run_end(s, position_before + 1);
                assert(token_models(tokens@.push(token)) =~= token_models(tokens@).push(token@));
            }
            tokens.push(token);
        }
        tokens
    }
}

/// A sequence of digits has a non-negative decimal value.
pub proof fn lemma_decimal_value_nonneg(s: Seq<char>)
    requires
        forall|i: int| 0 <= i < s.len() ==> is_digit_char(#[trigger] s[i]),
    ensures
        decimal_value(s) >= 0,
    decreases s.len(),
{
    if s.len() > 0 {
        lemma_decimal_value_nonneg(s.drop_last());
        assert(decimal_value(s.drop_last()) * 10 >= 0) by (nonlinear_arith)
            requires
                decimal_value(s.drop_last()) >= 0,
        ;
    }
}

/// Law: lexing the decimal representation of a non-negative integer yields
/// exactly one `Number` token whose span literal is the whole input and whose
/// value is that integer whenever it fits in an `isize`; a larger value
/// saturates at `isize::MAX`.
pub proof fn lemma_lex_decimal(s: Seq<char>, toks: Seq<TokenModel>)
    requires
        lexes(s, toks),
        s.len() > 0,
        forall|i: int| 0 <= i < s.len() ==> is_digit_char(#[trigger] s[i]),
    ensures
        toks.len() == 1,
        toks[0].span.start == 0,
        toks[0].span.end == s.len(),
        toks[0].span.literal == s,
        toks[0].kind == TokenKind::Number(saturate_isize(decimal_value(s)) as isize),
        decimal_value(s) <= isize::MAX as int ==> toks[0].kind == TokenKind::Number(
            decimal_value(s) as isize,
        ),
{
    assert(toks.len() > 0);
    let t0 = toks[0];
    assert(token_at_ok(s, t0));
    assert(t0.span.start == 0);
    assert(is_digit_char(s[0]));
    lemma_digit_run_end(s, 0);
    let run_end = digit_run_end(s, 0);
    assert(run_end == s.len());
    assert(s.subrange(0, s.len() as int) =~= s);
    assert(t0.span.end == s.len());
    assert(t0.span.literal == s);
    lemma_decimal_value_nonneg(s);
    if toks.len() >= 2 {
        assert(token_at_ok(s, toks[1]));
        assert(toks[1].span.start == t0.span.end);
        assert(next_token_at(s, s.len() as int) is None);
        assert(false);
    }
}

/// A maximal whitespace run, known by its bounds, is what the scanner finds.
pub proof fn lemma_whitespace_run_end_is(s: Seq<char>, i: int, e: int)
    requires
        0 <= i <= e <= s.len(),
        forall|j: int| i <= j < e ==> is_whitespace_char_spec(#[trigger] s[j]),
        e < s.len() ==> !is_whitespace_char_spec(s[e]),
    ensures
        whitespace_run_end(s, i) == e,
    decreases e - i,
{
    if i < e {
        lemma_whitespace_run_end_is(s, i + 1, e);
    }
}

/// Law: at a maximal whitespace run that does not reach the end of the input,
/// the scanner yields a single `Whitespace` token covering exactly the run;
/// when the run reaches the end of the input it yields `Eof` instead.
pub proof fn lemma_whitespace_run(s: Seq<char>, pos: int, e: int)
    requires
        0 <= pos < e <= s.len(),
        forall|j: int| pos <= j < e ==> is_whitespace_char_spec(#[trigger] s[j]),
        e < s.len() ==> !is_whitespace_char_spec(s[e]),
    ensures
        next_token_at(s, pos) == Some(
            (
                if e == s.len() {
                    TokenKind::Eof
                } else {
                    TokenKind::Whitespace
                },
                e,
            ),
        ),
{
    assert(is_whitespace_char_spec(s[pos]));
    assert(!is_digit_char(s[pos]));
    assert(s[pos] != '_');
    assert(!is_identifier_start_char(s[pos]));
    lemma_whitespace_run_end_is(s, pos + 1, e);
}

/// Law: lexing input that is purely whitespace yields a single token covering
/// the whole input; because the run reaches the end of the input, that token
/// is `Eof`.
pub proof fn lemma_lex_whitespace(s: Seq<char>, toks: Seq<TokenModel>)
    requires
        lexes(s, toks),
        s.len() > 0,
        forall|i: int| 0 <= i < s.len() ==> is_whitespace_char_spec(#[trigger] s[i]),
    ensures
        toks.len() == 1,
        toks[0].span.start == 0,
        toks[0].span.end == s.len(),
        toks[0].span.literal == s,
        toks[0].kind == TokenKind::Eof,
{
    assert(toks.len() > 0);
    let t0 = toks[0];
    assert(token_at_ok(s, t0));
    lemma_whitespace_run(s, 0, s.len() as int);
    assert(s.subrange(0, s.len() as int) =~= s);
    if toks.len() >= 2 {
        assert(token_at_ok(s, toks[1]));
        assert(toks[1].span.start == t0.span.end);
        assert(next_token_at(s, s.len() as int) is None);
        assert(false);
    }
}

} // verus!
