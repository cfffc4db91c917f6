//! A streaming lexer for the C subset that classic bytebeat uses.
//!
//! It tracks lines and columns, reads one token per call and never fails:
//! what it cannot read becomes a [`Token::LexError`] with the offending span.
use vstd::prelude::*;

use super::chars::{
    char_digit_value, char_is_decimal_digit, char_is_hex_digit, char_is_space, digit_value,
    is_decimal_digit, is_hex_digit, is_space,
};
use super::{LexErrorKind, NumberErrorKind, Operator, Span, Spanned, Token};

verus! {

/// Where a lexer stands in its source: the index of the next character, and
/// the line and column that character is on.
pub struct LexState {
    pub pos: nat,
    pub line: nat,
    pub col: nat,
}

/// One token as read at a fixed position: what it is, how many characters it
/// takes, and whether it is a number that was cut down to `i32::MAX`.
pub struct Scan {
    pub token: Token,
    pub len: nat,
    pub saturated: bool,
}

/// The result of reading one token from a state.
pub struct LexStep {
    pub token: Spanned<Token>,
    pub next: LexState,
    pub saturated: bool,
}

/// The state before the first character: line zero, column zero.
pub open spec fn start_state() -> LexState {
    LexState { pos: 0, line: 0, col: 0 }
}

/// The state after passing over the character `c`: a line feed opens a new
/// line, a carriage return leaves the column alone, anything else is one
/// column wide.
pub open spec fn step_over(st: LexState, c: char) -> LexState {
    if c == '\n' {
        LexState { pos: st.pos + 1, line: st.line + 1, col: 0 }
    } else if c == '\r' {
        LexState { pos: st.pos + 1, line: st.line, col: st.col }
    } else {
        LexState { pos: st.pos + 1, line: st.line, col: st.col + 1 }
    }
}

/// The state after the whitespace that starts at `st`.
pub open spec fn skip_blank(src: Seq<char>, st: LexState) -> LexState
    decreases src.len() - st.pos,
{
    if st.pos < src.len() && is_space(src[st.pos as int]) {
        skip_blank(src, step_over(st, src[st.pos as int]))
    } else {
        st
    }
}

/// The character at index `p`, if the source is that long.
pub open spec fn char_at(src: Seq<char>, p: int) -> Option<char> {
    if 0 <= p < src.len() {
        Some(src[p])
    } else {
        None
    }
}

/// Whether `c` goes on a run of digits: of hexadecimal digits if `hex`, of
/// decimal digits otherwise.
pub open spec fn in_run(c: char, hex: bool) -> bool {
    if hex {
        is_hex_digit(c)
    } else {
        is_decimal_digit(c)
    }
}

fn char_in_run(c: char, hex: bool) -> (b: bool)
    ensures
        b == in_run(c, hex),
{
    if hex {
        char_is_hex_digit(c)
    } else {
        char_is_decimal_digit(c)
    }
}

/// How many digits follow each other from index `p` on: hexadecimal digits
/// if `hex`, decimal digits otherwise.
pub open spec fn digit_run(src: Seq<char>, p: int, hex: bool) -> nat
    decreases src.len() - p,
{
    if 0 <= p < src.len() && in_run(src[p], hex) {
        1 + digit_run(src, p + 1, hex)
    } else {
        0
    }
}

/// Whether every digit exists in the base.
pub open spec fn digits_valid(ds: Seq<char>, base: int) -> bool {
    forall|i: int| 0 <= i < ds.len() ==> digit_value(#[trigger] ds[i]) < base
}

/// The number that the digits write in the base, most significant first.
pub open spec fn digits_number(ds: Seq<char>, base: int) -> int
    decreases ds.len(),
{
    if ds.len() == 0 {
        0
    } else {
        digits_number(ds.drop_last(), base) * base + digit_value(ds.last())
    }
}

/// The token for a digit sequence: an error where it is empty or holds a
/// digit the base lacks, else its number, cut down to `i32::MAX`.
pub open spec fn number_token(ds: Seq<char>, base: int) -> Token {
    if ds.len() == 0 {
        Token::LexError(LexErrorKind::ImproperNumber(base as u32, NumberErrorKind::Empty))
    } else if !digits_valid(ds, base) {
        Token::LexError(LexErrorKind::ImproperNumber(base as u32, NumberErrorKind::InvalidDigit))
    } else if digits_number(ds, base) > i32::MAX {
        Token::Number(i32::MAX)
    } else {
        Token::Number(digits_number(ds, base) as i32)
    }
}

/// A number literal at `p`: `prefix` characters of base marker, then the
/// digits.
pub open spec fn scan_radix(src: Seq<char>, p: int, prefix: nat, base: int) -> Scan {
    let run = digit_run(src, p + prefix, base == 16);
    let ds = src.subrange(p + prefix, p + prefix + run);
    Scan {
        token: number_token(ds, base),
        len: prefix + run,
        saturated: ds.len() > 0 && digits_valid(ds, base) && digits_number(ds, base) > i32::MAX,
    }
}

/// A number literal at `p`, where a decimal digit stands. `0x` opens base 16,
/// `0b` base 2, `0` before a digit base 8; a lone `0` is zero; any other
/// digit opens base 10.
pub open spec fn scan_number(src: Seq<char>, p: int) -> Scan {
    let n = char_at(src, p + 1);
    if src[p] != '0' {
        scan_radix(src, p, 0, 10)
    } else if n == Some('x') {
        scan_radix(src, p, 2, 16)
    } else if n == Some('b') {
        scan_radix(src, p, 2, 2)
    } else if n is Some && is_decimal_digit(n->0) {
        scan_radix(src, p, 1, 8)
    } else {
        Scan { token: Token::Number(0), len: 1, saturated: false }
    }
}

/// An operator of `len` characters.
pub open spec fn scan_op(op: Operator, len: nat) -> Scan {
    Scan { token: Token::Op(op), len, saturated: false }
}

/// The token that starts at index `p`, where a character other than
/// whitespace stands. Operators of two characters win over their first
/// character alone.
pub open spec fn scan(src: Seq<char>, p: int) -> Scan {
    let c = src[p];
    let n = char_at(src, p + 1);
    if c == '+' {
        scan_op(Operator::Plus, 1)
    } else if c == '-' {
        scan_op(Operator::Minus, 1)
    } else if c == '/' {
        scan_op(Operator::Div, 1)
    } else if c == '*' {
        scan_op(Operator::Mul, 1)
    } else if c == '%' {
        scan_op(Operator::Mod, 1)
    } else if c == '&' {
        if n == Some('&') {
            scan_op(Operator::LogAnd, 2)
        } else {
            scan_op(Operator::And, 1)
        }
    } else if c == '|' {
        if n == Some('|') {
            scan_op(Operator::LogOr, 2)
        } else {
            scan_op(Operator::Or, 1)
        }
    } else if c == '^' {
        scan_op(Operator::BitXor, 1)
    } else if c == '~' {
        scan_op(Operator::BitNot, 1)
    } else if c == '!' {
        if n == Some('=') {
            scan_op(Operator::Ne, 2)
        } else {
            scan_op(Operator::LogNot, 1)
        }
    } else if c == '=' {
        if n == Some('=') {
            scan_op(Operator::Eq, 2)
        } else {
            Scan { token: Token::LexError(LexErrorKind::SolitaryEquals), len: 1, saturated: false }
        }
    } else if c == '?' {
        scan_op(Operator::Question, 1)
    } else if c == ':' {
        scan_op(Operator::Colon, 1)
    } else if c == '(' {
        scan_op(Operator::Lparen, 1)
    } else if c == ')' {
        scan_op(Operator::Rparen, 1)
    } else if c == '<' {
        if n == Some('<') {
            scan_op(Operator::Lsh, 2)
        } else if n == Some('=') {
            scan_op(Operator::Le, 2)
        } else {
            scan_op(Operator::Lt, 1)
        }
    } else if c == '>' {
        if n == Some('>') {
            scan_op(Operator::Rsh, 2)
        } else if n == Some('=') {
            scan_op(Operator::Ge, 2)
        } else {
            scan_op(Operator::Gt, 1)
        }
    } else if is_decimal_digit(c) {
        scan_number(src, p)
    } else if c == 't' {
        Scan { token: Token::Variable, len: 1, saturated: false }
    } else {
        Scan { token: Token::LexError(LexErrorKind::UnexpectedChar(c)), len: 1, saturated: false }
    }
}

/// Reads one token from `st`: skips whitespace, then scans. At the end of
/// the source the token is `Eof`, one column wide where the source ends, and
/// the state stays there.
pub open spec fn lex_step(src: Seq<char>, st: LexState) -> LexStep {
    let s = skip_blank(src, st);
    if s.pos >= src.len() {
        LexStep {
            token: Spanned {
                node: Token::Eof,
                span: Span { line: s.line as usize, start: s.col as usize, end: s.col as usize },
            },
            next: s,
            saturated: false,
        }
    } else {
        let sc = scan(src, s.pos as int);
        LexStep {
            token: Spanned {
                node: sc.token,
                span: Span {
                    line: s.line as usize,
                    start: s.col as usize,
                    end: (s.col + sc.len - 1) as usize,
                },
            },
            next: LexState { pos: s.pos + sc.len, line: s.line, col: s.col + sc.len },
            saturated: sc.saturated,
        }
    }
}

/// Whitespace alone is skipped to its end.
pub proof fn lemma_skip_blank_all(src: Seq<char>, st: LexState)
    requires
        st.pos <= src.len(),
        forall|i: int| st.pos <= i < src.len() ==> is_space(#[trigger] src[i]),
    ensures
        skip_blank(src, st).pos == src.len(),
    decreases src.len() - st.pos,
{
    if st.pos < src.len() {
        lemma_skip_blank_all(src, step_over(st, src[st.pos as int]));
    }
}

/// A state that can arise while reading `src`: inside the source, with line
/// and column counted from characters already passed.
pub open spec fn state_fits(src: Seq<char>, st: LexState) -> bool {
    st.pos <= src.len() && st.line + st.col <= st.pos
}

/// Compares two places in reading order: first by line, then by column.
pub open spec fn place_le(line_a: int, col_a: int, line_b: int, col_b: int) -> bool {
    line_a < line_b || (line_a == line_b && col_a <= col_b)
}

/// Skipping whitespace stays inside the source, never moves back, ends
/// before a character that is no whitespace, and skips nothing more when
/// done again.
pub proof fn lemma_skip_blank(src: Seq<char>, st: LexState)
    requires
        state_fits(src, st),
    ensures
        state_fits(src, skip_blank(src, st)),
        skip_blank(src, st).pos >= st.pos,
        place_le(
            st.line as int,
            st.col as int,
            skip_blank(src, st).line as int,
            skip_blank(src, st).col as int,
        ),
        skip_blank(src, st).pos < src.len() ==> !is_space(src[skip_blank(src, st).pos as int]),
        skip_blank(src, skip_blank(src, st)) == skip_blank(src, st),
    decreases src.len() - st.pos,
{
    if st.pos < src.len() && is_space(src[st.pos as int]) {
        lemma_skip_blank(src, step_over(st, src[st.pos as int]));
    }
}

/// A run of digits ends inside the source.
pub proof fn lemma_digit_run_bound(src: Seq<char>, p: int, hex: bool)
    requires
        0 <= p <= src.len(),
    ensures
        p + digit_run(src, p, hex) <= src.len(),
    decreases src.len() - p,
{
    if p < src.len() && in_run(src[p], hex) {
        lemma_digit_run_bound(src, p + 1, hex);
    }
}

/// A token is at least one character long and ends inside the source.
pub proof fn lemma_scan_len(src: Seq<char>, p: int)
    requires
        0 <= p < src.len(),
    ensures
        1 <= scan(src, p).len,
        p + scan(src, p).len <= src.len(),
{
    let c = src[p];
    if is_decimal_digit(c) {
        lemma_digit_run_bound(src, p, false);
        lemma_digit_run_bound(src, p + 1, false);
        if p + 2 <= src.len() {
            lemma_digit_run_bound(src, p + 2, false);
            lemma_digit_run_bound(src, p + 2, true);
        }
    }
}

/// Reading a token keeps the state inside the source and never moves back.
/// A token other than `Eof` moves the state forward.
pub proof fn lemma_lex_step(src: Seq<char>, st: LexState)
    requires
        state_fits(src, st),
        src.len() <= usize::MAX,
    ensures
        state_fits(src, lex_step(src, st).next),
        lex_step(src, st).next.pos >= st.pos,
        !(lex_step(src, st).token.node is Eof) ==> lex_step(src, st).next.pos > st.pos,
        lex_step(src, st).token.node is Eof ==> lex_step(src, lex_step(src, st).next) == lex_step(
            src,
            st,
        ),
        lex_step(src, st).token.span.start <= lex_step(src, st).token.span.end,
        place_le(
            st.line as int,
            st.col as int,
            lex_step(src, st).token.span.line as int,
            lex_step(src, st).token.span.start as int,
        ),
        place_le(
            lex_step(src, st).token.span.line as int,
            lex_step(src, st).token.span.start as int,
            lex_step(src, st).next.line as int,
            lex_step(src, st).next.col as int,
        ),
{
    lemma_skip_blank(src, st);
    let s = skip_blank(src, st);
    if s.pos < src.len() {
        lemma_scan_len(src, s.pos as int);
        lemma_scan_not_eof(src, s.pos as int);
    }
}

/// No token read from a character is the end of input.
pub proof fn lemma_scan_not_eof(src: Seq<char>, p: int)
    ensures
        !(scan(src, p).token is Eof),
{
}

/// Consecutive tokens never go backwards: the span of the token read second
/// starts at or after the start of the token read first.
pub proof fn lemma_spans_monotone(src: Seq<char>, st: LexState)
    requires
        state_fits(src, st),
        src.len() <= usize::MAX,
    ensures
        ({
            let first = lex_step(src, st);
            let second = lex_step(src, first.next);
            place_le(
                first.token.span.line as int,
                first.token.span.start as int,
                second.token.span.line as int,
                second.token.span.start as int,
            )
        }),
{
    lemma_lex_step(src, st);
    lemma_lex_step(src, lex_step(src, st).next);
}

/// Reads a source token by token, keeping count of lines and columns and
/// of the number literals it had to cut down.
pub struct Lexer {
    chars: Vec<char>,
    pos: usize,
    line: usize,
    col: usize,
    saturated: Vec<Span>,
}

impl Lexer {
    /// The lexer stands inside its source, and its line and column count
    /// characters that it has passed.
    pub closed spec fn wf(&self) -> bool {
        self.pos <= self.chars.len() && self.line + self.col <= self.pos
    }

    /// A well-formed lexer holds a state that fits its source.
    pub proof fn lemma_wf_fits(&self)
        requires
            self.wf(),
        ensures
            state_fits(self.source(), self.state()),
            self.source().len() <= usize::MAX,
    {
    }

    /// The text that is being read.
    pub closed spec fn source(&self) -> Seq<char> {
        self.chars@
    }

    /// Where the lexer stands.
    pub closed spec fn state(&self) -> LexState {
        LexState { pos: self.pos as nat, line: self.line as nat, col: self.col as nat }
    }

    /// The spans of the number literals read so far that were too large and
    /// were cut down to `i32::MAX`.
    pub closed spec fn saturated_spans(&self) -> Seq<Span> {
        self.saturated@
    }

    /// A lexer at the start of `input`.
    pub fn new(input: &str) -> (lexer: Lexer)
        ensures
            lexer.wf(),
            input@.len() <= usize::MAX,
            lexer.source() == input@,
            lexer.state() == start_state(),
            lexer.saturated_spans() == Seq::<Span>::empty(),
    {
        let mut chars: Vec<char> = Vec::new();
        for c in it: input.chars()
            invariant
                chars@ == it.history(),
        {
            chars.push(c);
        }
        assert(chars@.len() == chars.len());
        Lexer { chars, pos: 0, line: 0, col: 0, saturated: Vec::new() }
    }

    /// The spans of the number literals read so far that saturated.
    pub fn saturated(&self) -> (spans: &Vec<Span>)
        ensures
            spans@ == self.saturated_spans(),
    {
        &self.saturated
    }

    /// Ends the lexing and gives the spans of the number literals that
    /// saturated.
    pub fn into_saturated(self) -> (spans: Vec<Span>)
        ensures
            spans@ == self.saturated_spans(),
    {
        self.saturated
    }

    /// The character `ahead` places after the next one, if the source is
    /// that long.
    fn peek(&self, ahead: usize) -> (c: Option<char>)
        requires
            self.wf(),
            ahead <= 2,
        ensures
            c == char_at(self.source(), self.state().pos + ahead),
    {
        if ahead < self.chars.len() - self.pos {
            Some(self.chars[self.pos + ahead])
        } else {
            None
        }
    }

    /// Passes over one character and counts it.
    fn bump(&mut self) -> (c: Option<char>)
        requires
            old(self).wf(),
        ensures
            final(self).wf(),
            final(self).source() == old(self).source(),
            final(self).saturated_spans() == old(self).saturated_spans(),
            c == char_at(old(self).source(), old(self).state().pos as int),
            c is Some ==> final(self).state() == step_over(old(self).state(), c->0),
            c is None ==> final(self).state() == old(self).state(),
    {
        if self.pos < self.chars.len() {
            let c = self.chars[self.pos];
            self.pos += 1;
            if c == '\n' {
                self.line += 1;
                self.col = 0;
            } else if c != '\r' {
                self.col += 1;
            }
            Some(c)
        } else {
            None
        }
    }

    fn skip_whitespace(&mut self)
        requires
            old(self).wf(),
        ensures
            final(self).wf(),
            final(self).source() == old(self).source(),
            final(self).saturated_spans() == old(self).saturated_spans(),
            final(self).state() == skip_blank(old(self).source(), old(self).state()),
    {
        while self.pos < self.chars.len() && char_is_space(self.chars[self.pos])
            invariant
                self.wf(),
                self.source() == old(self).source(),
                self.saturated_spans() == old(self).saturated_spans(),
                skip_blank(self.source(), self.state()) == skip_blank(
                    old(self).source(),
                    old(self).state(),
                ),
            decreases self.chars.len() - self.pos,
        {
            self.bump();
        }
    }

    /// Reads the digits of a literal whose base marker, `prefix` characters
    /// long, starts where the lexer stands.
    fn lex_radix(&mut self, prefix: usize, base: u32) -> (r: (Token, bool))
        requires
            old(self).wf(),
            prefix <= 2,
            base == 2 || base == 8 || base == 10 || base == 16,
            old(self).state().pos + prefix <= old(self).source().len(),
            forall|i: int|
                old(self).state().pos <= i < old(self).state().pos + prefix ==> !is_space(
                    #[trigger] old(self).source()[i],
                ),
        ensures
            final(self).wf(),
            final(self).source() == old(self).source(),
            final(self).saturated_spans() == old(self).saturated_spans(),
            ({
                let sc = scan_radix(
                    old(self).source(),
                    old(self).state().pos as int,
                    prefix as nat,
                    base as int,
                );
                &&& r.0 == sc.token
                &&& r.1 == sc.saturated
                &&& final(self).state() == LexState {
                    pos: old(self).state().pos + sc.len,
                    line: old(self).state().line,
                    col: old(self).state().col + sc.len,
                }
            }),
    {
        let hex = base == 16;
        let start: usize = self.pos + prefix;
        self.pos = start;
        self.col = self.col + prefix;
        let mut acc: u32 = 0;
        let mut over = false;
        let mut valid = true;
        let ghost src = self.chars@;
        proof {
            assert(src.subrange(start as int, start as int) =~= Seq::<char>::empty());
        }
        while self.pos < self.chars.len() && char_in_run(self.chars[self.pos], hex)
            invariant
                src == self.chars@,
                hex == (base == 16),
                base == 2 || base == 8 || base == 10 || base == 16,
                start <= self.pos <= self.chars.len(),
                self.line + self.col <= self.pos,
                self.line == old(self).line,
                self.col == old(self).col + prefix + (self.pos - start),
                self.saturated_spans() == old(self).saturated_spans(),
                digit_run(src, start as int, hex) == (self.pos - start) + digit_run(
                    src,
                    self.pos as int,
                    hex,
                ),
                valid == digits_valid(src.subrange(start as int, self.pos as int), base as int),
                over == (digits_number(src.subrange(start as int, self.pos as int), base as int)
                    > i32::MAX),
                !over ==> acc == digits_number(
                    src.subrange(start as int, self.pos as int),
                    base as int,
                ),
                acc <= i32::MAX,
                digits_number(src.subrange(start as int, self.pos as int), base as int) >= 0,
            decreases self.chars.len() - self.pos,
        {
            let c = self.chars[self.pos];
            let d = char_digit_value(c);
            let ghost before = src.subrange(start as int, self.pos as int);
            let ghost after = src.subrange(start as int, self.pos + 1);
            proof {
                assert(after.drop_last() =~= before);
                assert(after.last() == c);
                assert(digits_number(after, base as int) == digits_number(before, base as int)
                    * base + d);
                lemma_digit_run_unfold(src, start as int, self.pos as int, hex);
                assert(digits_valid(after, base as int) == (digits_valid(before, base as int) && d
                    < base)) by {
                    if digits_valid(after, base as int) {
                        assert forall|i: int| 0 <= i < before.len() implies digit_value(
                            #[trigger] before[i],
                        ) < base by {
                            assert(before[i] == after[i]);
                        }
                        assert(after[after.len() - 1] == c);
                    }
                    if digits_valid(before, base as int) && d < base {
                        assert forall|i: int| 0 <= i < after.len() implies digit_value(
                            #[trigger] after[i],
                        ) < base by {
                            if i < before.len() {
                                assert(before[i] == after[i]);
                            }
                        }
                    }
                }
                let v = digits_number(before, base as int);
                assert(v > i32::MAX ==> v * base + d > i32::MAX) by (nonlinear_arith)
                    requires
                        base >= 2,
                        d >= 0,
                        v >= 0,
                ;
                assert(v * base + d >= 0) by (nonlinear_arith)
                    requires
                        base >= 2,
                        d >= 0,
                        v >= 0,
                ;
            }
            valid = valid && d < base;
            if !over {
                proof {
                    assert(acc * base <= 0x7fff_ffff * 16) by (nonlinear_arith)
                        requires
                            acc <= 0x7fff_ffff,
                            base <= 16,
                    ;
                }
                let wide: u64 = (acc as u64) * (base as u64) + (d as u64);
                proof {
                    assert(wide == digits_number(after, base as int));
                }
                if wide > 0x7fff_ffff {
                    over = true;
                    acc = 0x7fff_ffff;
                } else {
                    acc = wide as u32;
                }
            }
            self.pos += 1;
            self.col += 1;
        }
        proof {
            assert(digit_run(src, self.pos as int, hex) == 0);
        }
        if self.pos == start {
            (Token::LexError(LexErrorKind::ImproperNumber(base, NumberErrorKind::Empty)), false)
        } else if !valid {
            (
                Token::LexError(LexErrorKind::ImproperNumber(base, NumberErrorKind::InvalidDigit)),
                false,
            )
        } else if over {
            (Token::Number(i32::MAX), true)
        } else {
            (Token::Number(acc as i32), false)
        }
    }

    /// Reads a number literal; a decimal digit stands where the lexer
    /// stands.
    fn lex_number(&mut self) -> (r: (Token, bool))
        requires
            old(self).wf(),
            old(self).state().pos < old(self).source().len(),
            is_decimal_digit(old(self).source()[old(self).state().pos as int]),
        ensures
            final(self).wf(),
            final(self).source() == old(self).source(),
            final(self).saturated_spans() == old(self).saturated_spans(),
            ({
                let sc = scan_number(old(self).source(), old(self).state().pos as int);
                &&& r.0 == sc.token
                &&& r.1 == sc.saturated
                &&& final(self).state() == LexState {
                    pos: old(self).state().pos + sc.len,
                    line: old(self).state().line,
                    col: old(self).state().col + sc.len,
                }
            }),
    {
        let c = self.chars[self.pos];
        let n = self.peek(1);
        if c != '0' {
            self.lex_radix(0, 10)
        } else if n == Some('x') {
            self.lex_radix(2, 16)
        } else if n == Some('b') {
            self.lex_radix(2, 2)
        } else if n.is_some() && char_is_decimal_digit(n.unwrap()) {
            self.lex_radix(1, 8)
        } else {
            self.pos += 1;
            self.col += 1;
            (Token::Number(0), false)
        }
    }

    /// Passes over the `len` characters of an operator.
    fn take(&mut self, len: usize)
        requires
            old(self).wf(),
            1 <= len <= 2,
            old(self).state().pos + len <= old(self).source().len(),
        ensures
            final(self).wf(),
            final(self).source() == old(self).source(),
            final(self).saturated_spans() == old(self).saturated_spans(),
            final(self).state() == (LexState {
                pos: old(self).state().pos + len as nat,
                line: old(self).state().line,
                col: old(self).state().col + len as nat,
            }),
    {
        self.pos += len;
        self.col += len;
    }

    /// Reads the next token. It always returns: what cannot be read comes
    /// back as an error token, and at the end of the source every call gives
    /// `Eof`.
    pub fn next(&mut self) -> (token: Spanned<Token>)
        requires
            old(self).wf(),
        ensures
            final(self).wf(),
            final(self).source() == old(self).source(),
            token == lex_step(old(self).source(), old(self).state()).token,
            final(self).state() == lex_step(old(self).source(), old(self).state()).next,
            final(self).saturated_spans() == if lex_step(
                old(self).source(),
                old(self).state(),
            ).saturated {
                old(self).saturated_spans().push(token.span)
            } else {
                old(self).saturated_spans()
            },
            // a token other than `Eof` consumes input
            !(token.node is Eof) ==> final(self).state().pos > old(self).state().pos,
            // the token starts at or after the place the lexer stood at
            place_le(
                old(self).state().line as int,
                old(self).state().col as int,
                token.span.line as int,
                token.span.start as int,
            ),
            // and the lexer now stands at or after the token's start
            place_le(
                token.span.line as int,
                token.span.start as int,
                final(self).state().line as int,
                final(self).state().col as int,
            ),
    {
        proof {
            lemma_lex_step(self.source(), self.state());
            lemma_skip_blank(self.source(), self.state());
        }
        self.skip_whitespace();
        let line = self.line;
        let start = self.col;
        if self.pos >= self.chars.len() {
            return Spanned::new(Token::Eof, Span::new(line, start, start));
        }
        proof {
            lemma_scan_len(self.source(), self.pos as int);
        }
        let c = self.chars[self.pos];
        let n = self.peek(1);
        let mut saturated = false;
        let node = match c {
            '+' => {
                self.take(1);
                Token::Op(Operator::Plus)
            },
            '-' => {
                self.take(1);
                Token::Op(Operator::Minus)
            },
            '/' => {
                self.take(1);
                Token::Op(Operator::Div)
            },
            '*' => {
                self.take(1);
                Token::Op(Operator::Mul)
            },
            '%' => {
                self.take(1);
                Token::Op(Operator::Mod)
            },
            '&' => {
                if n == Some('&') {
                    self.take(2);
                    Token::Op(Operator::LogAnd)
                } else {
                    self.take(1);
                    Token::Op(Operator::And)
                }
            },
            '|' => {
                if n == Some('|') {
                    self.take(2);
                    Token::Op(Operator::LogOr)
                } else {
                    self.take(1);
                    Token::Op(Operator::Or)
                }
            },
            '^' => {
                self.take(1);
                Token::Op(Operator::BitXor)
            },
            '~' => {
                self.take(1);
                Token::Op(Operator::BitNot)
            },
            '!' => {
                if n == Some('=') {
                    self.take(2);
                    Token::Op(Operator::Ne)
                } else {
                    self.take(1);
                    Token::Op(Operator::LogNot)
                }
            },
            '=' => {
                if n == Some('=') {
                    self.take(2);
                    Token::Op(Operator::Eq)
                } else {
                    self.take(1);
                    Token::LexError(LexErrorKind::SolitaryEquals)
                }
            },
            '?' => {
                self.take(1);
                Token::Op(Operator::Question)
            },
            ':' => {
                self.take(1);
                Token::Op(Operator::Colon)
            },
            '(' => {
                self.take(1);
                Token::Op(Operator::Lparen)
            },
            ')' => {
                self.take(1);
                Token::Op(Operator::Rparen)
            },
            '<' => {
                if n == Some('<') {
                    self.take(2);
                    Token::Op(Operator::Lsh)
                } else if n == Some('=') {
                    self.take(2);
                    Token::Op(Operator::Le)
                } else {
                    self.take(1);
                    Token::Op(Operator::Lt)
                }
            },
            '>' => {
                if n == Some('>') {
                    self.take(2);
                    Token::Op(Operator::Rsh)
                } else if n == Some('=') {
                    self.take(2);
                    Token::Op(Operator::Ge)
                } else {
                    self.take(1);
                    Token::Op(Operator::Gt)
                }
            },
            't' => {
                self.take(1);
                Token::Variable
            },
            _ => {
                if char_is_decimal_digit(c) {
                    let r = self.lex_number();
                    saturated = r.1;
                    r.0
                } else {
                    self.take(1);
                    Token::LexError(LexErrorKind::UnexpectedChar(c))
                }
            },
        };
        let span = Span::new(line, start, self.col - 1);
        if saturated {
            self.saturated.push(span);
        }
        Spanned::new(node, span)
    }
}

/// A digit at `p` is one more in the run that starts at `start`.
proof fn lemma_digit_run_unfold(src: Seq<char>, start: int, p: int, hex: bool)
    requires
        0 <= start <= p < src.len(),
        in_run(src[p], hex),
    ensures
        digit_run(src, p, hex) == 1 + digit_run(src, p + 1, hex),
{
}

} // verus!
