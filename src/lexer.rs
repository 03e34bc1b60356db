//! The indentation-aware lexer: it turns source text into tokens one call at
//! a time, turning the leading spaces of each line into `Indent` and `Dedent`
//! tokens.
use crate::text::{
    chars_of, digit_test, digits_value, ident_char_test, ident_start_test, is_digit,
    is_ident_char, is_ident_start, is_white_space, lemma_digits_value_prefix, push_char,
    white_space_test,
};
use crate::token::{kind_view, Lexeme, Span, Tok, Token, TokenKind};
use vstd::prelude::*;

verus! {

#[derive(Clone, Copy, Debug, PartialEq, Eq, Structural)]
pub enum LexerError {
    UnexpectedCharacter { character: char, span: Span },
    InvalidNumber { span: Span },
    UnterminatedString { span: Span },
    IndentationError { span: Span },
    InvalidEscapeSequence { character: char, span: Span },
}

/// The state of a lexer as a mathematical value.
pub ghost struct LexState {
    pub input: Seq<char>,
    pub pos: int,
    pub line_start: bool,
    /// Widths of the open blocks, the base level first.
    pub stack: Seq<usize>,
    /// Widths of dedents already decided but not yet handed out; the next
    /// one is the last.
    pub pending: Seq<usize>,
    pub pending_span: Span,
}

/// The outcome of one step: the next state, and the token or the failure.
pub type Step = (LexState, Result<Lexeme, LexerError>);

pub open spec fn is_break(c: char) -> bool {
    c == '\n' || c == '\r'
}

/// The first position at or after `i` that does not hold a space.
pub open spec fn spaces_end(input: Seq<char>, i: int) -> int
    decreases input.len() - i,
{
    if 0 <= i < input.len() && input[i] == ' ' {
        spaces_end(input, i + 1)
    } else {
        i
    }
}

/// The first position at or after `i` that holds a line break, or the end.
pub open spec fn line_end(input: Seq<char>, i: int) -> int
    decreases input.len() - i,
{
    if 0 <= i < input.len() && !is_break(input[i]) {
        line_end(input, i + 1)
    } else {
        i
    }
}

/// The position after the line break at `i`; `\r\n` counts as one break.
pub open spec fn after_break(input: Seq<char>, i: int) -> int {
    if input[i] == '\r' && i + 1 < input.len() && input[i + 1] == '\n' {
        i + 2
    } else {
        i + 1
    }
}

/// The end of the run of digits that starts at `i`.
pub open spec fn digits_end(input: Seq<char>, i: int) -> int
    decreases input.len() - i,
{
    if 0 <= i < input.len() && is_digit(input[i]) {
        digits_end(input, i + 1)
    } else {
        i
    }
}

/// The end of the run of identifier characters that starts at `i`.
pub open spec fn ident_end(input: Seq<char>, i: int) -> int
    decreases input.len() - i,
{
    if 0 <= i < input.len() && is_ident_char(input[i]) {
        ident_end(input, i + 1)
    } else {
        i
    }
}

pub proof fn lemma_scan_ends(input: Seq<char>, i: int)
    requires
        0 <= i <= input.len(),
    ensures
        i <= spaces_end(input, i) <= input.len(),
        i <= line_end(input, i) <= input.len(),
        i <= digits_end(input, i) <= input.len(),
        i <= ident_end(input, i) <= input.len(),
        spaces_end(input, i) < input.len() ==> input[spaces_end(input, i)] != ' ',
        line_end(input, i) < input.len() ==> is_break(input[line_end(input, i)]),
        forall|k: int| i <= k < digits_end(input, i) ==> is_digit(#[trigger] input[k]),
        forall|k: int| i <= k < ident_end(input, i) ==> is_ident_char(#[trigger] input[k]),
    decreases input.len() - i,
{
    if i < input.len() {
        lemma_scan_ends(input, i + 1);
    }
}

/// The character that an escape sequence `\c` stands for.
pub open spec fn escaped(c: char) -> Option<char> {
    if c == 'n' {
        Some('\n')
    } else if c == 'r' {
        Some('\r')
    } else if c == 't' {
        Some('\t')
    } else if c == '\\' {
        Some('\\')
    } else if c == '"' {
        Some('"')
    } else {
        None
    }
}

/// The rest of a string literal that opened at `start`, from position `i`:
/// its unescaped content up to the closing quote and the position after
/// that quote, or the failure.
pub open spec fn string_rest(input: Seq<char>, start: int, i: int) -> Result<
    (Seq<char>, int),
    LexerError,
>
    decreases input.len() - i,
{
    if i < 0 || i >= input.len() {
        Err(
            LexerError::UnterminatedString {
                span: Span { start: start as usize, end: input.len() as usize },
            },
        )
    } else if input[i] == '"' {
        Ok((Seq::empty(), i + 1))
    } else if is_break(input[i]) {
        Err(LexerError::UnterminatedString { span: Span { start: start as usize, end: i as usize } })
    } else if input[i] == '\\' {
        if i + 1 >= input.len() {
            Err(
                LexerError::UnterminatedString {
                    span: Span { start: start as usize, end: (i + 1) as usize },
                },
            )
        } else {
            match escaped(input[i + 1]) {
                None => Err(
                    LexerError::InvalidEscapeSequence {
                        character: input[i + 1],
                        span: Span { start: i as usize, end: (i + 2) as usize },
                    },
                ),
                Some(c) => match string_rest(input, start, i + 2) {
                    Ok((s, e)) => Ok((seq![c] + s, e)),
                    Err(x) => Err(x),
                },
            }
        }
    } else {
        match string_rest(input, start, i + 1) {
            Ok((s, e)) => Ok((seq![input[i]] + s, e)),
            Err(x) => Err(x),
        }
    }
}

/// How many levels of `stack` stay open for a line of width `w`: those from
/// the bottom up to the last one not wider than `w`.
pub open spec fn levels_kept(stack: Seq<usize>, w: int) -> nat
    decreases stack.len(),
{
    if stack.len() > 0 && stack.last() > w {
        levels_kept(stack.drop_last(), w)
    } else {
        stack.len()
    }
}

pub open spec fn token_at(kind: TokenKind, start: int, end: int) -> Lexeme {
    Lexeme { kind: kind_view(kind), span: Span { start: start as usize, end: end as usize } }
}

pub open spec fn single_char_kind(c: char) -> Option<TokenKind> {
    if c == '+' {
        Some(TokenKind::Plus)
    } else if c == '-' {
        Some(TokenKind::Minus)
    } else if c == '*' {
        Some(TokenKind::Asterisk)
    } else if c == '/' {
        Some(TokenKind::Slash)
    } else if c == '(' {
        Some(TokenKind::LeftParen)
    } else if c == ')' {
        Some(TokenKind::RightParen)
    } else if c == '[' {
        Some(TokenKind::LeftBracket)
    } else if c == ']' {
        Some(TokenKind::RightBracket)
    } else if c == '{' {
        Some(TokenKind::LeftCurlyBracket)
    } else if c == '}' {
        Some(TokenKind::RightCurlyBracket)
    } else if c == ';' {
        Some(TokenKind::Semicolon)
    } else if c == ':' {
        Some(TokenKind::Colon)
    } else if c == ',' {
        Some(TokenKind::Comma)
    } else if c == '!' {
        Some(TokenKind::Not)
    } else {
        None
    }
}

/// For `=`, `>` and `<`: the kind alone and the kind when `=` follows.
pub open spec fn comparison_kinds(c: char) -> Option<(TokenKind, TokenKind)> {
    if c == '=' {
        Some((TokenKind::Equals, TokenKind::DoubleEquals))
    } else if c == '>' {
        Some((TokenKind::GreaterThan, TokenKind::GreaterThanEquals))
    } else if c == '<' {
        Some((TokenKind::LessThan, TokenKind::LessThanEquals))
    } else {
        None
    }
}

pub open spec fn at(s: LexState, p: int) -> LexState {
    LexState { pos: p, ..s }
}

pub open spec fn emit(s: LexState, p: int, kind: TokenKind, start: int, end: int) -> Step {
    (LexState { pos: p, ..s }, Ok(token_at(kind, start, end)))
}

pub open spec fn fail(s: LexState, e: LexerError) -> Step {
    (s, Err(e))
}

/// Scans a token that starts with character `c` at `s.pos`, away from the
/// start of a line.
pub open spec fn scan_symbol(s: LexState, c: char) -> Step {
    let input = s.input;
    let p = s.pos;
    let next_is = |d: char| p + 1 < input.len() && input[p + 1] == d;
    if single_char_kind(c) is Some {
        emit(s, p + 1, single_char_kind(c)->0, p, p + 1)
    } else if comparison_kinds(c) is Some {
        let (alone, with_eq) = comparison_kinds(c)->0;
        if next_is('=') {
            emit(s, p + 2, with_eq, p, p + 2)
        } else {
            emit(s, p + 1, alone, p, p + 1)
        }
    } else if c == '&' || c == '|' {
        if next_is(c) {
            emit(s, p + 2, if c == '&' { TokenKind::And } else { TokenKind::Or }, p, p + 2)
        } else {
            fail(
                s,
                LexerError::UnexpectedCharacter {
                    character: c,
                    span: Span { start: p as usize, end: (p + 1) as usize },
                },
            )
        }
    } else if is_digit(c) {
        let e = digits_end(input, p);
        let v = digits_value(input.subrange(p, e));
        if v > i64::MAX {
            fail(s, LexerError::InvalidNumber { span: Span { start: p as usize, end: e as usize } })
        } else {
            emit(s, e, TokenKind::Number(v as i64), p, e)
        }
    } else if is_ident_start(c) {
        let e = ident_end(input, p);
        (
            LexState { pos: e, ..s },
            Ok(
                Lexeme {
                    kind: Tok::Identifier(input.subrange(p, e)),
                    span: Span { start: p as usize, end: e as usize },
                },
            ),
        )
    } else if c == '"' {
        match string_rest(input, p, p + 1) {
            Ok((text, e)) => (
                LexState { pos: e, ..s },
                Ok(
                    Lexeme {
                        kind: Tok::String(text),
                        span: Span { start: p as usize, end: e as usize },
                    },
                ),
            ),
            Err(x) => fail(s, x),
        }
    } else {
        fail(
            s,
            LexerError::UnexpectedCharacter {
                character: c,
                span: Span { start: p as usize, end: (p + 1) as usize },
            },
        )
    }
}

/// The indentation decision for a line whose content starts at `e`, with
/// `w` leading spaces; `s` is already past the spaces.
pub open spec fn indentation(s: LexState, start: int, e: int, w: int) -> Option<Step> {
    let top = s.stack.last();
    if w > top {
        Some(
            (
                LexState { stack: s.stack.push(w as usize), ..s },
                Ok(token_at(TokenKind::Indent(w as usize), start, e)),
            ),
        )
    } else if w < top {
        let n = levels_kept(s.stack, w) as int;
        if n == 0 || s.stack[n - 1] != w {
            Some(
                fail(
                    s,
                    LexerError::IndentationError {
                        span: Span { start: start as usize, end: e as usize },
                    },
                ),
            )
        } else {
            Some(
                (
                    LexState {
                        stack: s.stack.subrange(0, n),
                        pending: s.stack.subrange(n, s.stack.len() - 1),
                        pending_span: Span { start: start as usize, end: e as usize },
                        ..s
                    },
                    Ok(token_at(TokenKind::Dedent(top), start, e)),
                ),
            )
        }
    } else {
        None
    }
}

/// Scans from `s` with no dedent pending: skips blank and comment-only
/// lines and whitespace, handles indentation at the start of a line, and
/// returns the next token.
pub open spec fn scan(s: LexState) -> Step
    decreases s.input.len() - s.pos, if s.line_start {
        1int
    } else {
        0int
    },
{
    let input = s.input;
    let p = s.pos;
    if p < 0 || p > input.len() {
        fail(s, LexerError::UnexpectedCharacter { character: ' ', span: Span { start: 0, end: 0 } })
    } else if s.line_start && p < input.len() {
        proof {
            lemma_scan_ends(input, p);
        }
        let e = spaces_end(input, p);
        if e >= input.len() || input[e] == '#' || is_break(input[e]) {
            proof {
                lemma_scan_ends(input, e);
            }
            let b = line_end(input, e);
            let next = if b < input.len() {
                after_break(input, b)
            } else {
                b
            };
            scan(LexState { pos: next, ..s })
        } else {
            let s1 = LexState { pos: e, line_start: false, ..s };
            match indentation(s1, p, e, e - p) {
                Some(step) => step,
                None => scan(s1),
            }
        }
    } else if p == input.len() {
        if s.stack.len() > 1 {
            (
                LexState { stack: s.stack.drop_last(), ..s },
                Ok(token_at(TokenKind::Dedent(s.stack.last()), p, p)),
            )
        } else {
            emit(s, p, TokenKind::Eof, p, p)
        }
    } else {
        let c = input[p];
        if is_break(c) {
            let q = after_break(input, p);
            (LexState { pos: q, line_start: true, ..s }, Ok(token_at(TokenKind::Newline, p, q)))
        } else if is_white_space(c) {
            scan(at(s, p + 1))
        } else if c == '#' {
            proof {
                lemma_scan_ends(input, p + 1);
            }
            scan(at(s, line_end(input, p + 1)))
        } else {
            scan_symbol(s, c)
        }
    }
}

/// One call of `next_token`: a pending dedent first, else a scan.
pub open spec fn lex_step(s: LexState) -> Step {
    if s.pending.len() > 0 {
        (
            LexState { pending: s.pending.drop_last(), ..s },
            Ok(
                Lexeme {
                    kind: Tok::Other(TokenKind::Dedent(s.pending.last())),
                    span: s.pending_span,
                },
            ),
        )
    } else {
        scan(s)
    }
}

/// The state a lexer starts in.
pub open spec fn initial_state(input: Seq<char>) -> LexState {
    LexState {
        input,
        pos: 0,
        line_start: true,
        stack: seq![0usize],
        pending: Seq::empty(),
        pending_span: Span { start: 0, end: 0 },
    }
}

/// A state that lexing can reach: the base level at the bottom of the
/// stack, widths strictly increasing upward, and the position in the input.
pub open spec fn lex_wf(s: LexState) -> bool {
    &&& s.stack.len() >= 1
    &&& s.stack[0] == 0
    &&& forall|i: int, j: int| 0 <= i < j < s.stack.len() ==> s.stack[i] < s.stack[j]
    &&& 0 <= s.pos <= s.input.len()
    &&& s.input.len() <= usize::MAX
}

} // verus!

verus! {

/// A pull-based lexer over one source text.
pub struct Lexer {
    input: Vec<char>,
    position: usize,
    line_start: bool,
    indent_stack: Vec<usize>,
    pending: Vec<usize>,
    pending_span: Span,
    source: String,
}

impl View for Lexer {
    type V = LexState;

    closed spec fn view(&self) -> LexState {
        LexState {
            input: self.input@,
            pos: self.position as int,
            line_start: self.line_start,
            stack: self.indent_stack@,
            pending: self.pending@,
            pending_span: self.pending_span,
        }
    }
}

fn escape_of(c: char) -> (r: Option<char>)
    ensures
        r == escaped(c),
{
    if c == 'n' {
        Some('\n')
    } else if c == 'r' {
        Some('\r')
    } else if c == 't' {
        Some('\t')
    } else if c == '\\' {
        Some('\\')
    } else if c == '"' {
        Some('"')
    } else {
        None
    }
}

fn single_char_of(c: char) -> (r: Option<TokenKind>)
    ensures
        r == single_char_kind(c),
{
    if c == '+' {
        Some(TokenKind::Plus)
    } else if c == '-' {
        Some(TokenKind::Minus)
    } else if c == '*' {
        Some(TokenKind::Asterisk)
    } else if c == '/' {
        Some(TokenKind::Slash)
    } else if c == '(' {
        Some(TokenKind::LeftParen)
    } else if c == ')' {
        Some(TokenKind::RightParen)
    } else if c == '[' {
        Some(TokenKind::LeftBracket)
    } else if c == ']' {
        Some(TokenKind::RightBracket)
    } else if c == '{' {
        Some(TokenKind::LeftCurlyBracket)
    } else if c == '}' {
        Some(TokenKind::RightCurlyBracket)
    } else if c == ';' {
        Some(TokenKind::Semicolon)
    } else if c == ':' {
        Some(TokenKind::Colon)
    } else if c == ',' {
        Some(TokenKind::Comma)
    } else if c == '!' {
        Some(TokenKind::Not)
    } else {
        None
    }
}

fn comparison_of(c: char) -> (r: Option<(TokenKind, TokenKind)>)
    ensures
        r == comparison_kinds(c),
{
    if c == '=' {
        Some((TokenKind::Equals, TokenKind::DoubleEquals))
    } else if c == '>' {
        Some((TokenKind::GreaterThan, TokenKind::GreaterThanEquals))
    } else if c == '<' {
        Some((TokenKind::LessThan, TokenKind::LessThanEquals))
    } else {
        None
    }
}

/// The result of a step as the lexer reports it, as a mathematical value.
pub open spec fn step_result(r: Result<Token, LexerError>) -> Result<Lexeme, LexerError> {
    match r {
        Ok(t) => Ok(t@),
        Err(e) => Err(e),
    }
}

impl Lexer {
    pub closed spec fn source(&self) -> String {
        self.source
    }

    pub fn new(input: &str) -> (r: Lexer)
        ensures
            r@ == initial_state(input@),
            lex_wf(r@),
            r.source()@ == input@,
    {
        let mut stack: Vec<usize> = Vec::new();
        stack.push(0);
        let chars = chars_of(input);
        let _len = chars.len();
        Lexer {
            input: chars,
            position: 0,
            line_start: true,
            indent_stack: stack,
            pending: Vec::new(),
            pending_span: Span { start: 0, end: 0 },
            source: String::from_str(input),
        }
    }

    /// The source text given to `new`.
    pub fn source_text(&self) -> (r: &String)
        ensures
            r@ == self.source()@,
    {
        &self.source
    }

    fn spaces_from(&self, i: usize) -> (e: usize)
        requires
            i <= self.input.len(),
        ensures
            e == spaces_end(self.input@, i as int),
    {
        proof {
            lemma_scan_ends(self.input@, i as int);
        }
        let mut k = i;
        while k < self.input.len() && self.input[k] == ' '
            invariant
                i <= k <= self.input.len(),
                spaces_end(self.input@, k as int) == spaces_end(self.input@, i as int),
            decreases self.input.len() - k,
        {
            k = k + 1;
        }
        k
    }

    fn line_end_from(&self, i: usize) -> (e: usize)
        requires
            i <= self.input.len(),
        ensures
            e == line_end(self.input@, i as int),
    {
        let mut k = i;
        while k < self.input.len() && self.input[k] != '\n' && self.input[k] != '\r'
            invariant
                i <= k <= self.input.len(),
                line_end(self.input@, k as int) == line_end(self.input@, i as int),
            decreases self.input.len() - k,
        {
            k = k + 1;
        }
        k
    }

    fn break_end(&self, i: usize) -> (e: usize)
        requires
            i < self.input.len(),
        ensures
            e == after_break(self.input@, i as int),
    {
        if self.input[i] == '\r' && i + 1 < self.input.len() && self.input[i + 1] == '\n' {
            i + 2
        } else {
            i + 1
        }
    }

    #[verifier::loop_isolation(false)]
    /// Scans a number literal at the current position.
    fn read_number(&mut self) -> (r: Result<Token, LexerError>)
        requires
            lex_wf(old(self)@),
            old(self).position < old(self).input.len(),
            is_digit(old(self).input@[old(self).position as int]),
        ensures
            lex_wf(final(self)@),
            final(self).input@ == old(self).input@,
            step_result(r) == scan_symbol(old(self)@, old(self).input@[old(self).position as int]).1,
            r is Ok ==> final(self)@ == scan_symbol(
                old(self)@,
                old(self).input@[old(self).position as int],
            ).0,
    {
        let ghost input = self.input@;
        let start = self.position;
        proof {
            lemma_scan_ends(input, start as int);
        }
        let mut e = start;
        while e < self.input.len() && digit_test(self.input[e])
            invariant
                start <= e <= self.input.len(),
                self.input@ == input,
                self@ == old(self)@,
                digits_end(input, e as int) == digits_end(input, start as int),
            decreases self.input.len() - e,
        {
            e = e + 1;
        }
        let ghost digits = input.subrange(start as int, e as int);
        let mut v: i64 = 0;
        let mut k = start;
        proof {
            assert(input.subrange(start as int, start as int) =~= Seq::<char>::empty());
        }
        while k < e
            invariant
                start <= k <= e,
                e == digits_end(input, start as int),
                self.input@ == input,
                e <= input.len(),
                digits == input.subrange(start as int, e as int),
                forall|j: int| start <= j < e ==> is_digit(#[trigger] input[j]),
                v as int == digits_value(input.subrange(start as int, k as int)),
                0 <= v,
                self@ == old(self)@,
                lex_wf(old(self)@),
                start == old(self).position,
            decreases e - k,
        {
            let c = self.input[k];
            let d = (c as u32 - '0' as u32) as i64;
            let next: i128 = v as i128 * 10 + d as i128;
            proof {
                let t = input.subrange(start as int, k + 1);
                assert(t.drop_last() =~= input.subrange(start as int, k as int));
                assert(t.last() == c);
                assert(next == digits_value(t));
            }
            if next > i64::MAX as i128 {
                proof {
                    lemma_digits_value_prefix(digits, k + 1 - start);
                    assert(digits.subrange(0, k + 1 - start) =~= input.subrange(
                        start as int,
                        k + 1,
                    ));
                }
                self.position = e;
                return Err(LexerError::InvalidNumber { span: Span { start, end: e } });
            }
            v = next as i64;
            k = k + 1;
        }
        self.position = e;
        Ok(Token::new(TokenKind::Number(v), start, e))
    }

    #[verifier::loop_isolation(false)]
    /// Scans an identifier at the current position.
    fn read_identifier(&mut self) -> (r: Result<Token, LexerError>)
        requires
            lex_wf(old(self)@),
            old(self).position < old(self).input.len(),
            is_ident_start(old(self).input@[old(self).position as int]),
        ensures
            lex_wf(final(self)@),
            final(self).input@ == old(self).input@,
            step_result(r) == scan_symbol(old(self)@, old(self).input@[old(self).position as int]).1,
            final(self)@ == scan_symbol(old(self)@, old(self).input@[old(self).position as int]).0,
    {
        let ghost input = self.input@;
        let start = self.position;
        proof {
            lemma_scan_ends(input, start as int);
        }
        let mut text = String::new();
        let mut e = start;
        proof {
            assert(input.subrange(start as int, start as int) =~= Seq::<char>::empty());
        }
        while e < self.input.len() && ident_char_test(self.input[e])
            invariant
                start <= e <= self.input.len(),
                self.input@ == input,
                ident_end(input, e as int) == ident_end(input, start as int),
                text@ == input.subrange(start as int, e as int),
            decreases self.input.len() - e,
        {
            push_char(&mut text, self.input[e]);
            proof {
                assert(text@ =~= input.subrange(start as int, e + 1));
            }
            e = e + 1;
        }
        self.position = e;
        Ok(Token::new(TokenKind::Identifier(text), start, e))
    }

    #[verifier::loop_isolation(false)]
    /// Scans a string literal whose opening quote is at the current position.
    fn read_string(&mut self) -> (r: Result<Token, LexerError>)
        requires
            lex_wf(old(self)@),
            old(self).position < old(self).input.len(),
            old(self).input@[old(self).position as int] == '"',
        ensures
            lex_wf(final(self)@),
            final(self).input@ == old(self).input@,
            step_result(r) == scan_symbol(old(self)@, '"').1,
            r is Ok ==> final(self)@ == scan_symbol(old(self)@, '"').0,
    {
        let ghost input = self.input@;
        let n = self.input.len();
        let start = self.position;
        let ghost whole = string_rest(input, start as int, start + 1);
        let mut text = String::new();
        let mut i = start + 1;
        loop
            invariant
                start < i <= n + 1,
                n == input.len(),
                self.input@ == input,
                self@ == old(self)@,
                whole == string_rest(input, start as int, start + 1),
                whole == match string_rest(input, start as int, i as int) {
                    Ok((s, e)) => Ok((text@ + s, e)),
                    Err(x) => Err(x),
                },
            decreases n + 1 - i,
        {
            if i >= n {
                return Err(LexerError::UnterminatedString { span: Span { start, end: n } });
            }
            let c = self.input[i];
            if c == '"' {
                proof {
                    assert(text@ + Seq::<char>::empty() =~= text@);
                }
                self.position = i + 1;
                return Ok(Token::new(TokenKind::String(text), start, i + 1));
            }
            if c == '\n' || c == '\r' {
                return Err(LexerError::UnterminatedString { span: Span { start, end: i } });
            }
            if c == '\\' {
                if i + 1 >= n {
                    return Err(LexerError::UnterminatedString { span: Span { start, end: i + 1 } });
                }
                let d = self.input[i + 1];
                match escape_of(d) {
                    None => {
                        return Err(
                            LexerError::InvalidEscapeSequence {
                                character: d,
                                span: Span { start: i, end: i + 2 },
                            },
                        );
                    },
                    Some(x) => {
                        let ghost before = text@;
                        push_char(&mut text, x);
                        proof {
                            match string_rest(input, start as int, i + 2) {
                                Ok((s, e)) => {
                                    assert(before + (seq![x] + s) =~= text@ + s);
                                },
                                Err(_) => {},
                            }
                        }
                        i = i + 2;
                    },
                }
            } else {
                let ghost before = text@;
                push_char(&mut text, c);
                proof {
                    match string_rest(input, start as int, i + 1) {
                        Ok((s, e)) => {
                            assert(before + (seq![c] + s) =~= text@ + s);
                        },
                        Err(_) => {},
                    }
                }
                i = i + 1;
            }
        }
    }
}

impl Lexer {
    /// Scans the token that starts with `c`, the character at the current
    /// position, away from the start of a line.
    fn read_operator(&mut self, c: char) -> (r: Result<Token, LexerError>)
        requires
            lex_wf(old(self)@),
            old(self).position < old(self).input.len(),
            old(self).input@[old(self).position as int] == c,
        ensures
            lex_wf(final(self)@),
            final(self).input@ == old(self).input@,
            step_result(r) == scan_symbol(old(self)@, c).1,
            r is Ok ==> final(self)@ == scan_symbol(old(self)@, c).0,
    {
        let p = self.position;
        let n = self.input.len();
        if let Some(kind) = single_char_of(c) {
            self.position = p + 1;
            return Ok(Token::new(kind, p, p + 1));
        }
        if let Some((alone, with_eq)) = comparison_of(c) {
            if p + 1 < n && self.input[p + 1] == '=' {
                self.position = p + 2;
                return Ok(Token::new(with_eq, p, p + 2));
            } else {
                self.position = p + 1;
                return Ok(Token::new(alone, p, p + 1));
            }
        }
        if c == '&' || c == '|' {
            if p + 1 < n && self.input[p + 1] == c {
                self.position = p + 2;
                let kind = if c == '&' {
                    TokenKind::And
                } else {
                    TokenKind::Or
                };
                return Ok(Token::new(kind, p, p + 2));
            } else {
                return Err(
                    LexerError::UnexpectedCharacter { character: c, span: Span { start: p, end: p + 1 } },
                );
            }
        }
        if digit_test(c) {
            return self.read_number();
        }
        if ident_start_test(c) {
            return self.read_identifier();
        }
        if c == '"' {
            return self.read_string();
        }
        Err(LexerError::UnexpectedCharacter { character: c, span: Span { start: p, end: p + 1 } })
    }

    /// The next token, or the failure that stops lexing. A dedent decided
    /// earlier comes first; after the end of the input every open block gets
    /// its `Dedent`, and then `Eof` comes on every call.
    #[verifier::rlimit(60)]
    pub fn next_token(&mut self) -> (r: Result<Token, LexerError>)
        requires
            lex_wf(old(self)@),
        ensures
            lex_wf(final(self)@),
            final(self)@.input == old(self)@.input,
            step_result(r) == lex_step(old(self)@).1,
            r is Ok ==> final(self)@ == lex_step(old(self)@).0,
    {
        if self.pending.len() > 0 {
            let w = self.pending.pop().unwrap();
            return Ok(Token::new(TokenKind::Dedent(w), self.pending_span.start, self.pending_span.end));
        }
        let ghost target = scan(self@);
        loop
            invariant
                lex_wf(self@),
                self.input@ == old(self).input@,
                self.pending@ == old(self).pending@,
                self.pending.len() == 0,
                lex_step(old(self)@) == target,
                scan(self@) == target,
            decreases self.input.len() - self.position, if self.line_start {
                1int
            } else {
                0int
            },
        {
            let n = self.input.len();
            let p = self.position;
            if self.line_start && p < n {
                let e = self.spaces_from(p);
                proof {
                    lemma_scan_ends(self.input@, p as int);
                }
                if e >= n || self.input[e] == '#' || self.input[e] == '\n' || self.input[e] == '\r' {
                    proof {
                        lemma_scan_ends(self.input@, e as int);
                    }
                    let b = self.line_end_from(e);
                    let next = if b < n {
                        self.break_end(b)
                    } else {
                        b
                    };
                    self.position = next;
                    continue;
                }
                self.line_start = false;
                self.position = e;
                let w = e - p;
                let top = self.indent_stack[self.indent_stack.len() - 1];
                if w > top {
                    self.indent_stack.push(w);
                    proof {
                        assert forall|i: int, j: int|
                            0 <= i < j < self.indent_stack@.len() implies self.indent_stack@[i]
                            < self.indent_stack@[j] by {
                            if j == self.indent_stack@.len() - 1 && i < j {
                                assert(self.indent_stack@[i] <= top);
                            }
                        }
                    }
                    return Ok(Token::new(TokenKind::Indent(w), p, e));
                }
                if w < top {
                    let len = self.indent_stack.len();
                    let mut k = len;
                    proof {
                        assert(self.indent_stack@.subrange(0, len as int) =~= self.indent_stack@);
                    }
                    while k > 0 && self.indent_stack[k - 1] > w
                        invariant
                            k <= len,
                            len == self.indent_stack.len(),
                            levels_kept(self.indent_stack@.subrange(0, k as int), w as int)
                                == levels_kept(self.indent_stack@, w as int),
                        decreases k,
                    {
                        proof {
                            assert(self.indent_stack@.subrange(0, k as int).drop_last()
                                =~= self.indent_stack@.subrange(0, k - 1));
                        }
                        k = k - 1;
                    }
                    proof {
                        assert(self.indent_stack@.subrange(0, len as int) =~= self.indent_stack@);
                    }
                    if k == 0 || self.indent_stack[k - 1] != w {
                        return Err(LexerError::IndentationError { span: Span { start: p, end: e } });
                    }
                    let mut pend: Vec<usize> = Vec::new();
                    let mut j = k;
                    while j < len - 1
                        invariant
                            k <= j <= len - 1,
                            len == self.indent_stack.len(),
                            pend@ == self.indent_stack@.subrange(k as int, j as int),
                        decreases len - 1 - j,
                    {
                        pend.push(self.indent_stack[j]);
                        proof {
                            assert(pend@ =~= self.indent_stack@.subrange(k as int, j + 1));
                        }
                        j = j + 1;
                    }
                    self.pending = pend;
                    self.pending_span = Span { start: p, end: e };
                    self.indent_stack.truncate(k);
                    return Ok(Token::new(TokenKind::Dedent(top), p, e));
                }
                continue;
            }
            if p == n {
                if self.indent_stack.len() > 1 {
                    let w = self.indent_stack.pop().unwrap();
                    return Ok(Token::new(TokenKind::Dedent(w), p, p));
                }
                return Ok(Token::new(TokenKind::Eof, p, p));
            }
            let c = self.input[p];
            if c == '\n' || c == '\r' {
                let q = self.break_end(p);
                self.position = q;
                self.line_start = true;
                return Ok(Token::new(TokenKind::Newline, p, q));
            }
            if white_space_test(c) {
                self.position = p + 1;
                continue;
            }
            if c == '#' {
                proof {
                    lemma_scan_ends(self.input@, p + 1);
                }
                self.position = self.line_end_from(p + 1);
                continue;
            }
            return self.read_operator(c);
        }
    }
}

/// How many blocks are open in a state: those on the stack above the base
/// level and those whose dedent is still pending.
pub open spec fn open_blocks(s: LexState) -> int {
    s.stack.len() - 1 + s.pending.len()
}

pub open spec fn is_indent(t: Lexeme) -> bool {
    t.kind is Other && t.kind->Other_0 is Indent
}

pub open spec fn is_dedent(t: Lexeme) -> bool {
    t.kind is Other && t.kind->Other_0 is Dedent
}

pub open spec fn is_eof(t: Lexeme) -> bool {
    t.kind == Tok::Other(TokenKind::Eof)
}

/// The number of `Indent` tokens in `ts`.
pub open spec fn indent_count(ts: Seq<Lexeme>) -> int
    decreases ts.len(),
{
    if ts.len() == 0 {
        0
    } else {
        (if is_indent(ts[0]) {
            1int
        } else {
            0
        }) + indent_count(ts.drop_first())
    }
}

/// The number of `Dedent` tokens in `ts`.
pub open spec fn dedent_count(ts: Seq<Lexeme>) -> int
    decreases ts.len(),
{
    if ts.len() == 0 {
        0
    } else {
        (if is_dedent(ts[0]) {
            1int
        } else {
            0
        }) + dedent_count(ts.drop_first())
    }
}

/// `n` calls of `next_token` from `s`, up to the first failure: the state
/// reached, the tokens handed out in order, and the failure, if any.
pub open spec fn lex_run(s: LexState, n: nat) -> (LexState, Seq<Lexeme>, Option<LexerError>)
    decreases n,
{
    if n == 0 {
        (s, Seq::empty(), None)
    } else {
        match lex_step(s) {
            (s1, Ok(t)) => {
                let (s2, ts, e) = lex_run(s1, (n - 1) as nat);
                (s2, seq![t] + ts, e)
            },
            (s1, Err(e)) => (s1, Seq::empty(), Some(e)),
        }
    }
}

proof fn lemma_string_rest_end(input: Seq<char>, start: int, i: int)
    requires
        0 <= i,
    ensures
        string_rest(input, start, i) is Ok ==> i < string_rest(input, start, i)->Ok_0.1
            <= input.len(),
    decreases input.len() - i,
{
    if 0 <= i < input.len() && input[i] != '"' && !is_break(input[i]) {
        if input[i] == '\\' {
            if i + 1 < input.len() {
                lemma_string_rest_end(input, start, i + 2);
            }
        } else {
            lemma_string_rest_end(input, start, i + 1);
        }
    }
}

proof fn lemma_levels_kept(stack: Seq<usize>, w: int)
    ensures
        levels_kept(stack, w) <= stack.len(),
    decreases stack.len(),
{
    if stack.len() > 0 && stack.last() > w {
        lemma_levels_kept(stack.drop_last(), w);
    }
}

/// A scan from a reachable state with nothing pending reaches a reachable
/// state, and the token it hands out opens or closes exactly the blocks by
/// which the count of open blocks changes; `Eof` comes only when no block is
/// open.
proof fn lemma_scan_blocks(s: LexState)
    requires
        lex_wf(s),
        s.pending.len() == 0,
        scan(s).1 is Ok,
    ensures
        lex_wf(scan(s).0),
        open_blocks(scan(s).0) == open_blocks(s) + (if is_indent(scan(s).1->Ok_0) {
            1int
        } else if is_dedent(scan(s).1->Ok_0) {
            -1int
        } else {
            0int
        }),
        is_eof(scan(s).1->Ok_0) ==> scan(s).0.stack.len() == 1 && scan(s).0.pending.len() == 0,
    decreases s.input.len() - s.pos, if s.line_start {
        1int
    } else {
        0int
    },
{
    let input = s.input;
    let p = s.pos;
    if s.line_start && p < input.len() {
        lemma_scan_ends(input, p);
        let e = spaces_end(input, p);
        if e >= input.len() || input[e] == '#' || is_break(input[e]) {
            lemma_scan_ends(input, e);
            let b = line_end(input, e);
            let next = if b < input.len() {
                after_break(input, b)
            } else {
                b
            };
            lemma_scan_blocks(LexState { pos: next, ..s });
        } else {
            let s1 = LexState { pos: e, line_start: false, ..s };
            let w = e - p;
            let top = s.stack.last();
            if w > top {
                let st = s.stack.push(w as usize);
                assert forall|i: int, j: int| 0 <= i < j < st.len() implies st[i] < st[j] by {
                    if j == st.len() - 1 {
                        assert(s.stack[i] <= top);
                    }
                }
            } else if w < top {
                lemma_levels_kept(s.stack, w);
            } else {
                lemma_scan_blocks(s1);
            }
        }
    } else if p == input.len() {
    } else {
        let c = input[p];
        if is_break(c) {
        } else if is_white_space(c) {
            lemma_scan_blocks(at(s, p + 1));
        } else if c == '#' {
            lemma_scan_ends(input, p + 1);
            lemma_scan_blocks(at(s, line_end(input, p + 1)));
        } else {
            lemma_scan_ends(input, p);
            lemma_string_rest_end(input, p, p + 1);
        }
    }
}

proof fn lemma_step_blocks(s: LexState)
    requires
        lex_wf(s),
        lex_step(s).1 is Ok,
    ensures
        lex_wf(lex_step(s).0),
        open_blocks(lex_step(s).0) == open_blocks(s) + (if is_indent(lex_step(s).1->Ok_0) {
            1int
        } else if is_dedent(lex_step(s).1->Ok_0) {
            -1int
        } else {
            0int
        }),
        is_eof(lex_step(s).1->Ok_0) ==> lex_step(s).0.stack.len() == 1 && lex_step(s).0.pending.len()
            == 0,
{
    if s.pending.len() == 0 {
        lemma_scan_blocks(s);
    }
}

proof fn lemma_run_blocks(s: LexState, n: nat)
    requires
        lex_wf(s),
        lex_run(s, n).2 is None,
    ensures
        lex_wf(lex_run(s, n).0),
        indent_count(lex_run(s, n).1) - dedent_count(lex_run(s, n).1) == open_blocks(
            lex_run(s, n).0,
        ) - open_blocks(s),
        lex_run(s, n).1.len() > 0 && is_eof(lex_run(s, n).1.last()) ==> lex_run(s, n).0.stack.len()
            == 1 && lex_run(s, n).0.pending.len() == 0,
    decreases n,
{
    if n > 0 {
        let (s1, r) = lex_step(s);
        lemma_step_blocks(s);
        lemma_run_blocks(s1, (n - 1) as nat);
        let (s2, ts, e) = lex_run(s1, (n - 1) as nat);
        let all = seq![r->Ok_0] + ts;
        assert(all.drop_first() =~= ts);
        if ts.len() == 0 && is_eof(r->Ok_0) {
            assert(lex_run(s1, 0).0 == s1);
        }
        if ts.len() > 0 {
            assert(all.last() == ts.last());
        }
    }
}

/// Lexing a whole source up to its `Eof` without failure hands out as many
/// `Indent` tokens as `Dedent` tokens, the dedents flushed at the end of the
/// input included, and leaves only the base level on the indent stack.
pub proof fn law_indents_balance(input: Seq<char>, n: nat)
    requires
        input.len() <= usize::MAX,
        lex_run(initial_state(input), n).2 is None,
        lex_run(initial_state(input), n).1.len() > 0,
        is_eof(lex_run(initial_state(input), n).1.last()),
    ensures
        indent_count(lex_run(initial_state(input), n).1) == dedent_count(
            lex_run(initial_state(input), n).1,
        ),
        lex_run(initial_state(input), n).0.stack == seq![0usize],
{
    let s0 = initial_state(input);
    lemma_run_blocks(s0, n);
    let f = lex_run(s0, n).0;
    assert(f.stack =~= seq![0usize]);
}

/// `a` is strictly below `b` in the order in which lexing makes progress:
/// less input left, or as much but past the start of a line, or fewer
/// pending dedents, or fewer open levels.
pub open spec fn lex_below(a: LexState, b: LexState) -> bool {
    let ra = a.input.len() - a.pos;
    let rb = b.input.len() - b.pos;
    let la: int = if a.line_start {
        1
    } else {
        0
    };
    let lb: int = if b.line_start {
        1
    } else {
        0
    };
    ||| ra < rb
    ||| ra == rb && la < lb
    ||| ra == rb && la == lb && a.pending.len() < b.pending.len()
    ||| ra == rb && la == lb && a.pending.len() == b.pending.len() && a.stack.len() < b.stack.len()
}

pub open spec fn lex_same_rank(a: LexState, b: LexState) -> bool {
    &&& a.input.len() - a.pos == b.input.len() - b.pos
    &&& a.line_start == b.line_start
    &&& a.pending.len() == b.pending.len()
    &&& a.stack.len() == b.stack.len()
}

proof fn lemma_scan_progress(s: LexState)
    requires
        lex_wf(s),
        s.pending.len() == 0,
        scan(s).1 is Ok,
    ensures
        scan(s).0.input == s.input,
        is_eof(scan(s).1->Ok_0) ==> lex_below(scan(s).0, s) || lex_same_rank(scan(s).0, s),
        !is_eof(scan(s).1->Ok_0) ==> lex_below(scan(s).0, s),
    decreases s.input.len() - s.pos, if s.line_start {
        1int
    } else {
        0int
    },
{
    let input = s.input;
    let p = s.pos;
    if s.line_start && p < input.len() {
        lemma_scan_ends(input, p);
        let e = spaces_end(input, p);
        if e >= input.len() || input[e] == '#' || is_break(input[e]) {
            lemma_scan_ends(input, e);
            let b = line_end(input, e);
            let next = if b < input.len() {
                after_break(input, b)
            } else {
                b
            };
            lemma_scan_progress(LexState { pos: next, ..s });
        } else {
            let s1 = LexState { pos: e, line_start: false, ..s };
            if e - p == s.stack.last() {
                lemma_scan_progress(s1);
            }
        }
    } else if p == input.len() {
    } else {
        let c = input[p];
        if is_break(c) {
        } else if is_white_space(c) {
            lemma_scan_progress(at(s, p + 1));
        } else if c == '#' {
            lemma_scan_ends(input, p + 1);
            lemma_scan_progress(at(s, line_end(input, p + 1)));
        } else {
            lemma_scan_ends(input, p + 1);
            lemma_string_rest_end(input, p, p + 1);
        }
    }
}

/// Each call of `next_token` that hands out a token other than `Eof` moves
/// the lexer strictly down the progress order; `Eof` never moves it up.
pub proof fn lemma_step_progress(s: LexState)
    requires
        lex_wf(s),
        lex_step(s).1 is Ok,
    ensures
        lex_step(s).0.input == s.input,
        lex_wf(lex_step(s).0),
        is_eof(lex_step(s).1->Ok_0) ==> lex_below(lex_step(s).0, s) || lex_same_rank(
            lex_step(s).0,
            s,
        ),
        !is_eof(lex_step(s).1->Ok_0) ==> lex_below(lex_step(s).0, s),
{
    lemma_step_blocks(s);
    if s.pending.len() == 0 {
        lemma_scan_progress(s);
    }
}

proof fn lemma_scan_eof(s: LexState)
    requires
        lex_wf(s),
        scan(s).1 is Ok,
        is_eof(scan(s).1->Ok_0),
    ensures
        scan(s).0 == (LexState { pos: s.input.len() as int, line_start: scan(s).0.line_start, ..s }),
        s.stack.len() == 1,
        scan(s).1 == Ok::<Lexeme, LexerError>(
            token_at(TokenKind::Eof, s.input.len() as int, s.input.len() as int),
        ),
    decreases s.input.len() - s.pos, if s.line_start {
        1int
    } else {
        0int
    },
{
    let input = s.input;
    let p = s.pos;
    if s.line_start && p < input.len() {
        lemma_scan_ends(input, p);
        let e = spaces_end(input, p);
        if e >= input.len() || input[e] == '#' || is_break(input[e]) {
            lemma_scan_ends(input, e);
            let b = line_end(input, e);
            let next = if b < input.len() {
                after_break(input, b)
            } else {
                b
            };
            lemma_scan_eof(LexState { pos: next, ..s });
        } else {
            let s1 = LexState { pos: e, line_start: false, ..s };
            if e - p == s.stack.last() {
                lemma_scan_eof(s1);
            }
        }
    } else if p < input.len() {
        let c = input[p];
        if is_white_space(c) && !is_break(c) {
            lemma_scan_eof(at(s, p + 1));
        } else if c == '#' {
            lemma_scan_ends(input, p + 1);
            lemma_scan_eof(at(s, line_end(input, p + 1)));
        }
    }
}

/// Once `next_token` has handed out `Eof`, every later call hands out the
/// same `Eof` again and leaves the lexer as it is.
pub proof fn law_eof_repeats(s: LexState)
    requires
        lex_wf(s),
        lex_step(s).1 is Ok,
        is_eof(lex_step(s).1->Ok_0),
    ensures
        lex_step(lex_step(s).0) == lex_step(s),
{
    lemma_scan_eof(s);
    let s2 = lex_step(s).0;
    assert(at(s2, s2.input.len() as int) == s2);
}

} // verus!
