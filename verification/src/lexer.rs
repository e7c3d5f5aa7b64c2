//! Lexer: turns source text into a token stream.
//!
//! The whole tokenisation is specified by [`spec_tokenize`], a mathematical
//! function over the character sequence of the source, and
//! [`Lexer::tokenize`] is proved to return exactly that token stream.
//! Spans carry byte offsets into the UTF-8 source, and 1-based line and
//! column numbers counted in characters.

use vstd::prelude::*;

use vstd::utf8::{char_is_scalar, encode_scalar, encode_utf8};

use crate::error::{lex_unexpected_char, msg_unexpected_char, LexerError, SpecError};
use crate::token::{DirectiveName, LimitWord, Span, Token, TokenKind};

verus! {

// ---------------------------------------------------------------------------
// Character classes
// ---------------------------------------------------------------------------

/// Lower-case ASCII letter.
pub open spec fn is_lower(c: char) -> bool {
    97 <= c as u32 <= 122
}

/// Upper-case ASCII letter.
pub open spec fn is_upper(c: char) -> bool {
    65 <= c as u32 <= 90
}

/// ASCII decimal digit.
pub open spec fn is_digit(c: char) -> bool {
    48 <= c as u32 <= 57
}

/// Space or tab.
pub open spec fn is_blank(c: char) -> bool {
    c == ' ' || c == '\t'
}

/// A character that may continue a directive word: an upper-case letter
/// or an underscore.
pub open spec fn is_word_char(c: char) -> bool {
    is_upper(c) || c == '_'
}

/// Line-ending character.
pub open spec fn is_line_end(c: char) -> bool {
    c == '\n' || c == '\r'
}

// ---------------------------------------------------------------------------
// Byte offsets of character positions
// ---------------------------------------------------------------------------

/// The byte offset of character `i` in the UTF-8 encoding of `cs`.
pub open spec fn byte_offset(cs: Seq<char>, i: int) -> int {
    encode_utf8(cs.take(i)).len() as int
}

/// UTF-8 encoding distributes over concatenation.
proof fn lemma_encode_utf8_append(a: Seq<char>, b: Seq<char>)
    ensures
        encode_utf8(a + b) == encode_utf8(a) + encode_utf8(b),
    decreases a.len(),
{
    if a.len() == 0 {
        assert(a + b =~= b);
        assert(encode_utf8(a) + encode_utf8(b) =~= encode_utf8(b));
    } else {
        assert((a + b).drop_first() =~= a.drop_first() + b);
        assert((a + b)[0] == a[0]);
        lemma_encode_utf8_append(a.drop_first(), b);
        assert(encode_utf8(a + b) =~= encode_utf8(a) + encode_utf8(b));
    }
}

/// Stepping one character forward adds that character's encoding length.
proof fn lemma_byte_offset_step(cs: Seq<char>, i: int)
    requires
        0 <= i < cs.len(),
    ensures
        byte_offset(cs, i + 1) == byte_offset(cs, i) + encode_scalar(cs[i] as u32).len(),
{
    assert(cs.take(i + 1) =~= cs.take(i) + seq![cs[i]]);
    lemma_encode_utf8_append(cs.take(i), seq![cs[i]]);
    let single = seq![cs[i]];
    assert(single.len() == 1 && single[0] == cs[i]);
    assert(single.drop_first() =~= Seq::<char>::empty());
    assert(encode_utf8(Seq::<char>::empty()) =~= Seq::<u8>::empty());
    assert(encode_utf8(single) =~= encode_scalar(cs[i] as u32) + Seq::<u8>::empty());
    assert(encode_scalar(cs[i] as u32) + Seq::<u8>::empty() =~= encode_scalar(cs[i] as u32));
}

/// Byte offsets are monotone in the character index.
proof fn lemma_byte_offset_mono(cs: Seq<char>, i: int, j: int)
    requires
        0 <= i <= j <= cs.len(),
    ensures
        byte_offset(cs, i) <= byte_offset(cs, j),
    decreases j - i,
{
    if i < j {
        lemma_byte_offset_step(cs, j - 1);
        lemma_byte_offset_mono(cs, i, j - 1);
    }
}

/// The UTF-8 length of one character, between 1 and 4 bytes.
fn utf8_len(c: char) -> (n: usize)
    ensures
        n == encode_scalar(c as u32).len(),
        1 <= n <= 4,
{
    proof {
        char_is_scalar(c);
    }
    let v = c as u32;
    if v <= 0x7F {
        1
    } else if v <= 0x7FF {
        2
    } else if v <= 0xFFFF {
        3
    } else {
        4
    }
}

/// Extracts the characters of `s` together with the byte offset of every
/// character position (`offsets` has one more entry than `chars`; its last
/// entry is the byte length of `s`).
fn chars_of(s: &str) -> (r: (Vec<char>, Vec<usize>))
    ensures
        r.0@ == s@,
        r.1@.len() == s@.len() + 1,
        forall|k: int| 0 <= k <= s@.len() ==> r.1@[k] == byte_offset(s@, k),
{
    let bytes = s.as_bytes();
    let total: usize = bytes.len();
    proof {
        broadcast use vstd::slice::axiom_spec_len;

        assert(s@.take(s@.len() as int) =~= s@);
        assert(byte_offset(s@, s@.len() as int) == total);
    }
    let n: usize = s.unicode_len();
    let mut chars: Vec<char> = Vec::new();
    let mut offsets: Vec<usize> = Vec::new();
    offsets.push(0);
    proof {
        assert(s@.take(0) =~= Seq::<char>::empty());
    }
    let mut i: usize = 0;
    while i < n
        invariant
            n == s@.len(),
            total == byte_offset(s@, n as int),
            i <= n,
            chars@ =~= s@.take(i as int),
            offsets@.len() == i + 1,
            forall|k: int| 0 <= k <= i ==> offsets@[k] == byte_offset(s@, k),
        decreases n - i,
    {
        let c = s.get_char(i);
        let w = utf8_len(c);
        proof {
            lemma_byte_offset_step(s@, i as int);
            lemma_byte_offset_mono(s@, i + 1, n as int);
        }
        let prev = offsets[i];
        offsets.push(prev + w);
        chars.push(c);
        proof {
            assert(chars@ =~= s@.take(i + 1));
        }
        i = i + 1;
    }
    proof {
        assert(chars@ =~= s@);
    }
    (chars, offsets)
}

// ---------------------------------------------------------------------------
// Runs and scanning helpers
// ---------------------------------------------------------------------------

/// The first index at or after `i` whose character ends the line
/// (or `cs.len()` if none does).
pub open spec fn end_of_comment(cs: Seq<char>, i: int) -> int
    decreases cs.len() - i,
{
    if i < 0 || i >= cs.len() {
        cs.len() as int
    } else if is_line_end(cs[i]) {
        i
    } else {
        end_of_comment(cs, i + 1)
    }
}

proof fn lemma_end_of_comment_bounds(cs: Seq<char>, i: int)
    requires
        0 <= i <= cs.len(),
    ensures
        i <= end_of_comment(cs, i) <= cs.len(),
    decreases cs.len() - i,
{
    if i < cs.len() && !is_line_end(cs[i]) {
        lemma_end_of_comment_bounds(cs, i + 1);
    }
}

/// The first index at or after `i` whose character fails `p`-style runs:
/// here specialised to blank runs.
pub open spec fn end_of_blanks(cs: Seq<char>, i: int) -> int
    decreases cs.len() - i,
{
    if i < 0 || i >= cs.len() {
        cs.len() as int
    } else if is_blank(cs[i]) {
        end_of_blanks(cs, i + 1)
    } else {
        i
    }
}

proof fn lemma_end_of_blanks_bounds(cs: Seq<char>, i: int)
    requires
        0 <= i <= cs.len(),
    ensures
        i <= end_of_blanks(cs, i) <= cs.len(),
    decreases cs.len() - i,
{
    if i < cs.len() && is_blank(cs[i]) {
        lemma_end_of_blanks_bounds(cs, i + 1);
    }
}

/// End of a run of upper-case letters and underscores.
pub open spec fn end_of_word(cs: Seq<char>, i: int) -> int
    decreases cs.len() - i,
{
    if i < 0 || i >= cs.len() {
        cs.len() as int
    } else if is_word_char(cs[i]) {
        end_of_word(cs, i + 1)
    } else {
        i
    }
}

proof fn lemma_end_of_word_bounds(cs: Seq<char>, i: int)
    requires
        0 <= i <= cs.len(),
    ensures
        i <= end_of_word(cs, i) <= cs.len(),
    decreases cs.len() - i,
{
    if i < cs.len() && is_word_char(cs[i]) {
        lemma_end_of_word_bounds(cs, i + 1);
    }
}

/// End of a run of decimal digits.
pub open spec fn end_of_digits(cs: Seq<char>, i: int) -> int
    decreases cs.len() - i,
{
    if i < 0 || i >= cs.len() {
        cs.len() as int
    } else if is_digit(cs[i]) {
        end_of_digits(cs, i + 1)
    } else {
        i
    }
}

proof fn lemma_end_of_digits_bounds(cs: Seq<char>, i: int)
    requires
        0 <= i <= cs.len(),
    ensures
        i <= end_of_digits(cs, i) <= cs.len(),
    decreases cs.len() - i,
{
    if i < cs.len() && is_digit(cs[i]) {
        lemma_end_of_digits_bounds(cs, i + 1);
    }
}

/// Every character of a digit run is a digit.
proof fn lemma_end_of_digits_run(cs: Seq<char>, i: int)
    requires
        0 <= i <= cs.len(),
    ensures
        forall|m: int| i <= m < end_of_digits(cs, i) ==> is_digit(cs[m]),
    decreases cs.len() - i,
{
    if i < cs.len() && is_digit(cs[i]) {
        lemma_end_of_digits_run(cs, i + 1);
    }
}

// ---------------------------------------------------------------------------
// Numeral values (saturating at `u32::MAX`)
// ---------------------------------------------------------------------------

/// One step of the saturating decimal fold.
pub open spec fn sat_step(n: u32, d: u32) -> u32 {
    if n > 429496729 {
        4294967295u32
    } else if n * 10 > 4294967295 - d {
        4294967295u32
    } else {
        (n * 10 + d) as u32
    }
}

/// The numeric value of the digit run `cs[from..to]`, folded left to
/// right, saturating at `u32::MAX`.
pub open spec fn digits_value(cs: Seq<char>, from: int, to: int) -> u32
    decreases to - from,
{
    if to <= from {
        0u32
    } else {
        sat_step(digits_value(cs, from, to - 1), (cs[to - 1] as u32 - 48) as u32)
    }
}

/// The `i32` a `Number` token carries for an unsigned numeral value:
/// saturated at `i32::MAX`.
pub open spec fn number_token_value(v: u32) -> i32 {
    if v > 2147483647 {
        2147483647i32
    } else {
        v as i32
    }
}

// ---------------------------------------------------------------------------
// Directive words
// ---------------------------------------------------------------------------

/// Classifies a directive-name word.
pub open spec fn classify_directive(w: Seq<char>) -> DirectiveName {
    if w == "MAX_STEP"@ {
        DirectiveName::MaxStep
    } else if w == "MAX_DEPTH"@ {
        DirectiveName::MaxDepth
    } else if w == "MAX_MEMORY"@ {
        DirectiveName::MaxMemory
    } else if w == "ON_LIMIT"@ {
        DirectiveName::OnLimit
    } else {
        DirectiveName::Unknown
    }
}

/// Classifies a directive-value word.
pub open spec fn classify_limit_word(w: Seq<char>) -> LimitWord {
    if w == "ERROR"@ {
        LimitWord::Error
    } else if w == "TRUNCATE"@ {
        LimitWord::Truncate
    } else {
        LimitWord::Other
    }
}

/// Whether a character may continue a directive word.
fn is_word_char_exec(c: char) -> (r: bool)
    ensures
        r == is_word_char(c),
{
    let u = c as u32;
    (65 <= u && u <= 90) || c == '_'
}

/// Whether a character is an ASCII digit.
fn is_digit_exec(c: char) -> (r: bool)
    ensures
        r == is_digit(c),
{
    let u = c as u32;
    48 <= u && u <= 57
}

/// Whether `cs[from..to]` spells exactly the word `w`.
fn word_is(cs: &Vec<char>, from: usize, to: usize, w: &str) -> (r: bool)
    requires
        from <= to <= cs@.len(),
    ensures
        r == (cs@.subrange(from as int, to as int) == w@),
{
    let wn = w.unicode_len();
    if to - from != wn {
        proof {
            assert(cs@.subrange(from as int, to as int).len() != w@.len());
        }
        return false;
    }
    let mut k: usize = 0;
    while k < wn
        invariant
            from <= to <= cs@.len(),
            to - from == wn,
            wn == w@.len(),
            k <= wn,
            forall|m: int| 0 <= m < k ==> cs@[from + m] == w@[m],
        decreases wn - k,
    {
        let a = cs[from + k];
        let b = w.get_char(k);
        if a != b {
            proof {
                assert(cs@.subrange(from as int, to as int)[k as int] != w@[k as int]);
            }
            return false;
        }
        k = k + 1;
    }
    proof {
        assert(cs@.subrange(from as int, to as int) =~= w@);
    }
    true
}

// ---------------------------------------------------------------------------
// The lexer state machine, as a mathematical function
// ---------------------------------------------------------------------------

/// The lexer's cursor state between tokens.
pub struct LexState {
    /// Index of the next character.
    pub i: int,
    /// Current line (1-based).
    pub line: int,
    /// Current column (1-based, counted in characters).
    pub col: int,
    /// Whether no token-forming character has been seen on this line yet.
    pub at_line_start: bool,
    /// Whether the current line started with a directive name.
    pub in_directive: bool,
}

/// The state at the very start of the input.
pub open spec fn init_lex_state() -> LexState {
    LexState { i: 0, line: 1, col: 1, at_line_start: true, in_directive: false }
}

/// Where the cursor stands after skipping a comment that starts at `i`:
/// `#` or `//` comments run to the end of the line; anything else leaves
/// the cursor in place.
pub open spec fn after_comment(cs: Seq<char>, i: int) -> int {
    if 0 <= i < cs.len() && cs[i] == '#' {
        end_of_comment(cs, i)
    } else if 0 <= i && i + 1 < cs.len() && cs[i] == '/' && cs[i + 1] == '/' {
        end_of_comment(cs, i)
    } else {
        i
    }
}

proof fn lemma_after_comment_bounds(cs: Seq<char>, i: int)
    requires
        0 <= i <= cs.len(),
    ensures
        i <= after_comment(cs, i) <= cs.len(),
{
    if i < cs.len() && (cs[i] == '#' || (i + 1 < cs.len() && cs[i] == '/' && cs[i + 1] == '/')) {
        lemma_end_of_comment_bounds(cs, i);
    }
}

/// A span in `Span`'s field types, from spec-level integers.
pub open spec fn mk_span(start: int, end: int, line: int, col: int) -> Span {
    Span { start: start as usize, end: end as usize, line: line as usize, column: col as usize }
}

/// The token whose text runs from character `j` to `k`.
pub open spec fn tok(kind: TokenKind, cs: Seq<char>, j: int, k: int, line: int, col: int) -> Token {
    Token { kind: kind, span: mk_span(byte_offset(cs, j), byte_offset(cs, k), line, col) }
}

/// One step of the lexer: the next token and the state after it, or the
/// unexpected-character error.  This function is the specification that
/// [`Lexer::next_token`] is proved to implement exactly.
pub open spec fn spec_next_token(cs: Seq<char>, st: LexState) -> Result<(Token, LexState), SpecError> {
    let j = after_comment(cs, st.i);
    let col = st.col + (j - st.i);
    let line = st.line;
    if j >= cs.len() {
        let n = cs.len() as int;
        Ok((tok(TokenKind::Eof, cs, n, n, line, col),
            LexState { i: n, line: line, col: col, at_line_start: st.at_line_start, in_directive: st.in_directive }))
    } else {
        let c = cs[j];
        if is_blank(c) {
            let k = end_of_blanks(cs, j + 1);
            Ok((tok(TokenKind::Space, cs, j, k, line, col),
                LexState { i: k, line: line, col: col + (k - j), at_line_start: st.at_line_start, in_directive: st.in_directive }))
        } else if c == '\n' {
            Ok((tok(TokenKind::Newline, cs, j, j + 1, line, col),
                LexState { i: j + 1, line: line + 1, col: 1, at_line_start: true, in_directive: false }))
        } else if c == '\r' {
            let k = if j + 1 < cs.len() && cs[j + 1] == '\n' { j + 2 } else { j + 1 };
            Ok((tok(TokenKind::Newline, cs, j, k, line, col),
                LexState { i: k, line: line + 1, col: 1, at_line_start: true, in_directive: false }))
        } else if c == 's' {
            lex_single(TokenKind::Straight, cs, st, j, line, col)
        } else if c == 'r' {
            lex_single(TokenKind::Right, cs, st, j, line, col)
        } else if c == 'l' {
            lex_single(TokenKind::Left, cs, st, j, line, col)
        } else if c == ':' {
            lex_single(TokenKind::Colon, cs, st, j, line, col)
        } else if c == '(' {
            lex_single(TokenKind::LParen, cs, st, j, line, col)
        } else if c == ')' {
            lex_single(TokenKind::RParen, cs, st, j, line, col)
        } else if c == ',' {
            lex_single(TokenKind::Comma, cs, st, j, line, col)
        } else if c == '+' {
            lex_single(TokenKind::Plus, cs, st, j, line, col)
        } else if c == '-' {
            lex_single(TokenKind::Minus, cs, st, j, line, col)
        } else if c == '=' {
            lex_single(TokenKind::Equals, cs, st, j, line, col)
        } else if is_lower(c) {
            lex_single(TokenKind::Ident(c), cs, st, j, line, col)
        } else if is_upper(c) {
            let k = end_of_word(cs, j + 1);
            if st.at_line_start && k - j >= 2 {
                Ok((tok(TokenKind::Directive(classify_directive(cs.subrange(j, k))), cs, j, k, line, col),
                    LexState { i: k, line: line, col: col + (k - j), at_line_start: false, in_directive: true }))
            } else if st.in_directive {
                Ok((tok(TokenKind::DirectiveValue(classify_limit_word(cs.subrange(j, k))), cs, j, k, line, col),
                    LexState { i: k, line: line, col: col + (k - j), at_line_start: false, in_directive: st.in_directive }))
            } else {
                lex_single(TokenKind::Param(c), cs, st, j, line, col)
            }
        } else if is_digit(c) {
            let k = end_of_digits(cs, j + 1);
            let v = digits_value(cs, j, k);
            let kind = if st.at_line_start {
                TokenKind::AgentId(v)
            } else {
                TokenKind::Number(number_token_value(v))
            };
            Ok((tok(kind, cs, j, k, line, col),
                LexState { i: k, line: line, col: col + (k - j), at_line_start: false, in_directive: st.in_directive }))
        } else {
            Err(SpecError { msg: msg_unexpected_char(c), line: line, col: col })
        }
    }
}

/// A one-character token at `j` and the state after it.
pub open spec fn lex_single(kind: TokenKind, cs: Seq<char>, st: LexState, j: int, line: int, col: int) -> Result<(Token, LexState), SpecError> {
    Ok((tok(kind, cs, j, j + 1, line, col),
        LexState { i: j + 1, line: line, col: col + 1, at_line_start: false, in_directive: st.in_directive }))
}

/// The next token always stands at or after the cursor, and all tokens
/// but `Eof` consume at least one character.
proof fn lemma_next_token_progress(cs: Seq<char>, st: LexState)
    requires
        0 <= st.i <= cs.len(),
    ensures
        match spec_next_token(cs, st) {
            Ok((t, st2)) => {
                &&& st.i <= st2.i <= cs.len()
                &&& (!(t.kind is Eof) ==> st2.i > st.i)
                &&& (t.kind is Eof ==> st2.i == cs.len())
            },
            Err(_) => true,
        },
{
    lemma_after_comment_bounds(cs, st.i);
    let j = after_comment(cs, st.i);
    if j < cs.len() {
        let c = cs[j];
        lemma_end_of_blanks_bounds(cs, j + 1);
        lemma_end_of_word_bounds(cs, j + 1);
        lemma_end_of_digits_bounds(cs, j + 1);
    }
}

/// Concatenates a prefix onto a tokenisation result.
pub open spec fn with_prefix(pre: Seq<Token>, r: Result<Seq<Token>, SpecError>) -> Result<Seq<Token>, SpecError> {
    match r {
        Ok(v) => Ok(pre + v),
        Err(e) => Err(e),
    }
}

/// The whole token stream from state `st` on: tokens up to and including
/// the final `Eof`, or the first lexical error.
pub open spec fn spec_tokenize_from(cs: Seq<char>, st: LexState) -> Result<Seq<Token>, SpecError>
    decreases cs.len() - st.i,
{
    match spec_next_token(cs, st) {
        Err(e) => Err(e),
        Ok((t, st2)) => {
            if t.kind is Eof {
                Ok(seq![t])
            } else if st.i < st2.i <= cs.len() {
                with_prefix(seq![t], spec_tokenize_from(cs, st2))
            } else {
                // unreachable: every non-Eof token consumes characters
                Ok(seq![t])
            }
        },
    }
}

/// The token stream of a whole source text: the specification of
/// [`Lexer::tokenize`] (and the input to the parser's specification).
pub open spec fn spec_tokenize(cs: Seq<char>) -> Result<Seq<Token>, SpecError> {
    spec_tokenize_from(cs, init_lex_state())
}

// ---------------------------------------------------------------------------
// The executable lexer
// ---------------------------------------------------------------------------

/// Lexer over a source text.
pub struct Lexer {
    /// The characters of the source.
    chars: Vec<char>,
    /// Byte offset of each character position (one more entry than `chars`).
    bytepos: Vec<usize>,
    /// Index of the next character.
    i: usize,
    /// Current line (1-based).
    line: usize,
    /// Current column (1-based).
    col: usize,
    /// Whether no token-forming character has been seen on this line yet.
    at_line_start: bool,
    /// Whether the current line started with a directive name.
    in_directive: bool,
}

impl Lexer {
    /// The characters this lexer reads.
    pub closed spec fn src(&self) -> Seq<char> {
        self.chars@
    }

    /// The current cursor state.
    pub closed spec fn st(&self) -> LexState {
        LexState {
            i: self.i as int,
            line: self.line as int,
            col: self.col as int,
            at_line_start: self.at_line_start,
            in_directive: self.in_directive,
        }
    }

    /// Well-formedness: byte positions match the characters, the cursor
    /// is in bounds, and line/column stay within the consumed prefix.
    pub closed spec fn wf(&self) -> bool {
        &&& self.chars@.len() < usize::MAX
        &&& self.bytepos@.len() == self.chars@.len() + 1
        &&& forall|k: int| 0 <= k <= self.chars@.len() ==> self.bytepos@[k] == byte_offset(self.chars@, k)
        &&& self.i <= self.chars@.len()
        &&& 1 <= self.line <= self.i + 1
        &&& 1 <= self.col <= self.i + 1
    }

    /// Creates a lexer for the given input, positioned at its start.
    pub fn new(input: &str) -> (r: Lexer)
        ensures
            r.wf(),
            r.src() == input@,
            r.st() == init_lex_state(),
    {
        let (chars, bytepos) = chars_of(input);
        let b = bytepos.len();
        proof {
            assert(b == input@.len() + 1);
            assert(input@.len() < usize::MAX);
        }
        Lexer { chars, bytepos, i: 0, line: 1, col: 1, at_line_start: true, in_directive: false }
    }

    /// Reads the byte offset of character position `k`.
    fn byte_at(&self, k: usize) -> (r: usize)
        requires
            self.wf(),
            k <= self.chars@.len(),
        ensures
            r == byte_offset(self.chars@, k as int),
    {
        self.bytepos[k]
    }

    /// Skips a `#` or `//` comment, if one starts at the cursor.
    fn skip_comment(&mut self)
        requires
            old(self).wf(),
        ensures
            final(self).wf(),
            final(self).chars == old(self).chars,
            final(self).bytepos == old(self).bytepos,
            final(self).i == after_comment(old(self).chars@, old(self).st().i),
            final(self).line == old(self).line,
            final(self).col == old(self).st().col + (final(self).i - old(self).st().i),
            final(self).at_line_start == old(self).at_line_start,
            final(self).in_directive == old(self).in_directive,
    {
        let ghost cs = self.chars@;
        let n = self.chars.len();
        let is_comment: bool = if self.i < n && self.chars[self.i] == '#' {
            true
        } else if self.i + 1 < n && self.chars[self.i] == '/' && self.chars[self.i + 1] == '/' {
            true
        } else {
            false
        };
        if !is_comment {
            return ;
        }
        proof {
            lemma_end_of_comment_bounds(cs, self.i as int);
        }
        let ghost dst = end_of_comment(cs, self.i as int);
        while self.i < n && !(self.chars[self.i] == '\n' || self.chars[self.i] == '\r')
            invariant
                self.wf(),
                n == self.chars@.len(),
                cs == self.chars@,
                self.bytepos == old(self).bytepos,
                self.chars == old(self).chars,
                old(self).st().i <= self.i <= n,
                dst == end_of_comment(cs, self.i as int),
                dst == end_of_comment(cs, old(self).st().i),
                self.line == old(self).line,
                self.col == old(self).st().col + (self.i - old(self).st().i),
                self.at_line_start == old(self).at_line_start,
                self.in_directive == old(self).in_directive,
            decreases n - self.i,
        {
            self.i = self.i + 1;
            self.col = self.col + 1;
        }
        proof {
            assert(self.i as int == dst);
        }
    }

    /// Produces the next token, or the unexpected-character error.
    /// Implements exactly one step of [`spec_next_token`].
    pub fn next_token(&mut self) -> (r: Result<Token, LexerError>)
        requires
            old(self).wf(),
        ensures
            final(self).wf(),
            final(self).src() == old(self).src(),
            match r {
                Ok(t) => spec_next_token(old(self).src(), old(self).st()) == Ok::<_, SpecError>((t, final(self).st())),
                Err(e) => spec_next_token(old(self).src(), old(self).st()) == Err::<(Token, LexState), _>(e@),
            },
    {
        let ghost cs = self.chars@;
        let ghost st0 = self.st();
        self.skip_comment();
        let n = self.chars.len();
        let j = self.i;
        let line = self.line;
        let col = self.col;
        if j >= n {
            let b = self.byte_at(n);
            return Ok(Token { kind: TokenKind::Eof, span: Span { start: b, end: b, line, column: col } });
        }
        let c = self.chars[j];
        let v = c as u32;
        if c == ' ' || c == '\t' {
            let k = self.scan_blanks(j + 1);
            self.i = k;
            self.col = col + (k - j);
            let sp = Span { start: self.byte_at(j), end: self.byte_at(k), line, column: col };
            Ok(Token { kind: TokenKind::Space, span: sp })
        } else if c == '\n' {
            self.i = j + 1;
            self.line = line + 1;
            self.col = 1;
            self.at_line_start = true;
            self.in_directive = false;
            let sp = Span { start: self.byte_at(j), end: self.byte_at(j + 1), line, column: col };
            Ok(Token { kind: TokenKind::Newline, span: sp })
        } else if c == '\r' {
            let k = if j + 1 < n && self.chars[j + 1] == '\n' { j + 2 } else { j + 1 };
            self.i = k;
            self.line = line + 1;
            self.col = 1;
            self.at_line_start = true;
            self.in_directive = false;
            let sp = Span { start: self.byte_at(j), end: self.byte_at(k), line, column: col };
            Ok(Token { kind: TokenKind::Newline, span: sp })
        } else if c == 's' {
            Ok(self.take_single(TokenKind::Straight, j, line, col))
        } else if c == 'r' {
            Ok(self.take_single(TokenKind::Right, j, line, col))
        } else if c == 'l' {
            Ok(self.take_single(TokenKind::Left, j, line, col))
        } else if c == ':' {
            Ok(self.take_single(TokenKind::Colon, j, line, col))
        } else if c == '(' {
            Ok(self.take_single(TokenKind::LParen, j, line, col))
        } else if c == ')' {
            Ok(self.take_single(TokenKind::RParen, j, line, col))
        } else if c == ',' {
            Ok(self.take_single(TokenKind::Comma, j, line, col))
        } else if c == '+' {
            Ok(self.take_single(TokenKind::Plus, j, line, col))
        } else if c == '-' {
            Ok(self.take_single(TokenKind::Minus, j, line, col))
        } else if c == '=' {
            Ok(self.take_single(TokenKind::Equals, j, line, col))
        } else if 97 <= v && v <= 122 {
            Ok(self.take_single(TokenKind::Ident(c), j, line, col))
        } else if 65 <= v && v <= 90 {
            let k = self.scan_word(j + 1);
            if self.at_line_start && k - j >= 2 {
                let name = self.classify_directive_exec(j, k);
                self.i = k;
                self.col = col + (k - j);
                self.at_line_start = false;
                self.in_directive = true;
                let sp = Span { start: self.byte_at(j), end: self.byte_at(k), line, column: col };
                Ok(Token { kind: TokenKind::Directive(name), span: sp })
            } else if self.in_directive {
                let word = self.classify_limit_word_exec(j, k);
                self.i = k;
                self.col = col + (k - j);
                self.at_line_start = false;
                let sp = Span { start: self.byte_at(j), end: self.byte_at(k), line, column: col };
                Ok(Token { kind: TokenKind::DirectiveValue(word), span: sp })
            } else {
                Ok(self.take_single(TokenKind::Param(c), j, line, col))
            }
        } else if 48 <= v && v <= 57 {
            let k = self.scan_digits(j + 1);
            proof {
                lemma_end_of_digits_run(cs, j + 1);
                assert(is_digit(cs[j as int]));
            }
            let value = self.digits_value_exec(j, k);
            let kind = if self.at_line_start {
                TokenKind::AgentId(value)
            } else {
                let num: i32 = if value > 2147483647u32 { 2147483647i32 } else { value as i32 };
                TokenKind::Number(num)
            };
            self.i = k;
            self.col = col + (k - j);
            self.at_line_start = false;
            let sp = Span { start: self.byte_at(j), end: self.byte_at(k), line, column: col };
            Ok(Token { kind, span: sp })
        } else {
            Err(lex_unexpected_char(c, line, col))
        }
    }

    /// Consumes the single character at `j` and builds its token.
    fn take_single(&mut self, kind: TokenKind, j: usize, line: usize, col: usize) -> (t: Token)
        requires
            old(self).wf(),
            j == old(self).st().i,
            j < old(self).chars@.len(),
            line == old(self).line,
            col == old(self).col,
        ensures
            final(self).wf(),
            final(self).chars == old(self).chars,
            final(self).bytepos == old(self).bytepos,
            Ok::<_, SpecError>((t, final(self).st())) == lex_single(kind, old(self).chars@, old(self).st(), j as int, line as int, col as int),
    {
        self.i = j + 1;
        self.col = col + 1;
        self.at_line_start = false;
        Token {
            kind,
            span: Span { start: self.byte_at(j), end: self.byte_at(j + 1), line, column: col },
        }
    }

    /// Scans to the end of a blank run starting at `from`.
    fn scan_blanks(&self, from: usize) -> (k: usize)
        requires
            self.wf(),
            from <= self.chars@.len(),
        ensures
            k == end_of_blanks(self.chars@, from as int),
            from <= k <= self.chars@.len(),
    {
        let ghost cs = self.chars@;
        proof {
            lemma_end_of_blanks_bounds(cs, from as int);
        }
        let n = self.chars.len();
        let mut k = from;
        while k < n && (self.chars[k] == ' ' || self.chars[k] == '\t')
            invariant
                self.wf(),
                cs == self.chars@,
                n == cs.len(),
                from <= k <= n,
                end_of_blanks(cs, from as int) == end_of_blanks(cs, k as int),
            decreases n - k,
        {
            k = k + 1;
        }
        proof {
            lemma_end_of_blanks_bounds(cs, k as int);
        }
        k
    }

    /// Scans to the end of an upper-case/underscore word starting at `from`.
    fn scan_word(&self, from: usize) -> (k: usize)
        requires
            self.wf(),
            from <= self.chars@.len(),
        ensures
            k == end_of_word(self.chars@, from as int),
            from <= k <= self.chars@.len(),
    {
        let ghost cs = self.chars@;
        let n = self.chars.len();
        let mut k = from;
        while k < n && is_word_char_exec(self.chars[k])
            invariant
                self.wf(),
                cs == self.chars@,
                n == cs.len(),
                from <= k <= n,
                end_of_word(cs, from as int) == end_of_word(cs, k as int),
            decreases n - k,
        {
            k = k + 1;
        }
        k
    }

    /// Scans to the end of a digit run starting at `from`.
    fn scan_digits(&self, from: usize) -> (k: usize)
        requires
            self.wf(),
            from <= self.chars@.len(),
        ensures
            k == end_of_digits(self.chars@, from as int),
            from <= k <= self.chars@.len(),
    {
        let ghost cs = self.chars@;
        let n = self.chars.len();
        let mut k = from;
        while k < n && is_digit_exec(self.chars[k])
            invariant
                self.wf(),
                cs == self.chars@,
                n == cs.len(),
                from <= k <= n,
                end_of_digits(cs, from as int) == end_of_digits(cs, k as int),
            decreases n - k,
        {
            k = k + 1;
        }
        k
    }

    /// The saturating value of the digit run `[from, to)`.
    fn digits_value_exec(&self, from: usize, to: usize) -> (v: u32)
        requires
            self.wf(),
            from <= to <= self.chars@.len(),
            forall|m: int| from <= m < to ==> is_digit(self.chars@[m]),
        ensures
            v == digits_value(self.chars@, from as int, to as int),
    {
        let ghost cs = self.chars@;
        let mut v: u32 = 0;
        let mut k = from;
        while k < to
            invariant
                self.wf(),
                cs == self.chars@,
                from <= k <= to <= cs.len(),
                forall|m: int| from <= m < to ==> is_digit(cs[m]),
                v == digits_value(cs, from as int, k as int),
            decreases to - k,
        {
            let d = (self.chars[k] as u32) - 48;
            v = if v > 429496729 {
                4294967295u32
            } else if v * 10 > 4294967295u32 - d {
                4294967295u32
            } else {
                v * 10 + d
            };
            k = k + 1;
        }
        v
    }

    /// Classifies the directive name spelled at `[from, to)`.
    fn classify_directive_exec(&self, from: usize, to: usize) -> (r: DirectiveName)
        requires
            self.wf(),
            from <= to <= self.chars@.len(),
        ensures
            r == classify_directive(self.chars@.subrange(from as int, to as int)),
    {
        if word_is(&self.chars, from, to, "MAX_STEP") {
            DirectiveName::MaxStep
        } else if word_is(&self.chars, from, to, "MAX_DEPTH") {
            DirectiveName::MaxDepth
        } else if word_is(&self.chars, from, to, "MAX_MEMORY") {
            DirectiveName::MaxMemory
        } else if word_is(&self.chars, from, to, "ON_LIMIT") {
            DirectiveName::OnLimit
        } else {
            DirectiveName::Unknown
        }
    }

    /// Classifies the directive value spelled at `[from, to)`.
    fn classify_limit_word_exec(&self, from: usize, to: usize) -> (r: LimitWord)
        requires
            self.wf(),
            from <= to <= self.chars@.len(),
        ensures
            r == classify_limit_word(self.chars@.subrange(from as int, to as int)),
    {
        if word_is(&self.chars, from, to, "ERROR") {
            LimitWord::Error
        } else if word_is(&self.chars, from, to, "TRUNCATE") {
            LimitWord::Truncate
        } else {
            LimitWord::Other
        }
    }

    /// Tokenizes the remaining input, ending with the `Eof` token, or
    /// stops at the first lexical error.  Implements [`spec_tokenize_from`].
    pub fn tokenize(&mut self) -> (r: Result<Vec<Token>, LexerError>)
        requires
            old(self).wf(),
        ensures
            final(self).wf(),
            r matches Ok(v) ==> spec_tokenize_from(old(self).src(), old(self).st())
                == Ok::<_, SpecError>(v@),
            r matches Err(e) ==> spec_tokenize_from(old(self).src(), old(self).st())
                == Err::<Seq<Token>, _>(e@),
    {
        let ghost cs = self.chars@;
        let ghost st0 = self.st();
        let mut tokens: Vec<Token> = Vec::new();
        let mut done = false;
        proof {
            match spec_tokenize_from(cs, st0) {
                Ok(v) => {
                    assert(Seq::<Token>::empty() + v =~= v);
                },
                Err(_) => {},
            }
            assert(spec_tokenize_from(cs, st0) == with_prefix(
                Seq::<Token>::empty(),
                spec_tokenize_from(cs, st0),
            ));
        }
        while !done
            invariant
                self.wf(),
                cs == self.chars@,
                cs == old(self).src(),
                st0 == old(self).st(),
                !done ==> spec_tokenize_from(cs, st0) == with_prefix(
                    tokens@,
                    spec_tokenize_from(cs, self.st()),
                ),
                done ==> spec_tokenize_from(cs, st0) == Ok::<_, SpecError>(tokens@),
            decreases cs.len() - self.st().i + (if done { 0int } else { 1int }),
        {
            let ghost st_before = self.st();
            let ghost pre = tokens@;
            proof {
                lemma_next_token_progress(cs, st_before);
            }
            match self.next_token() {
                Ok(t) => {
                    let is_eof = matches!(t.kind, TokenKind::Eof);
                    tokens.push(t);
                    if is_eof {
                        done = true;
                    }
                    proof {
                        let stp = self.st();
                        if is_eof {
                            assert(spec_tokenize_from(cs, st_before) == Ok::<_, SpecError>(seq![t]));
                            assert(pre + seq![t] =~= tokens@);
                        } else {
                            assert(spec_tokenize_from(cs, st_before) == with_prefix(
                                seq![t],
                                spec_tokenize_from(cs, stp),
                            ));
                            match spec_tokenize_from(cs, stp) {
                                Ok(v) => {
                                    assert(pre + (seq![t] + v) =~= tokens@ + v);
                                },
                                Err(_) => {},
                            }
                        }
                    }
                },
                Err(e) => {
                    proof {
                        assert(spec_tokenize_from(cs, st_before) == Err::<Seq<Token>, _>(e@));
                        assert(spec_tokenize_from(cs, st0) == with_prefix(
                            pre,
                            spec_tokenize_from(cs, st_before),
                        ));
                        assert(spec_tokenize_from(cs, st0) == Err::<Seq<Token>, _>(e@));
                    }
                    return Err(e);
                },
            }
        }
        Ok(tokens)
    }
}

} // verus!
