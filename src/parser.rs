//! The recursive-descent parser: it pulls tokens from a lexer one at a time
//! and builds statements and expressions, using the lexer's `Indent` and
//! `Dedent` tokens to delimit blocks.
use crate::ast::{
    expr_view, exprs_view, stmt_view, stmts_view, BinaryOperator, Expr, Expression, Program,
    Statement, Stmt,
};
use crate::lexer::{
    is_dedent, is_eof, lemma_step_progress, lex_step, lex_wf, LexState, Lexer, LexerError,
};
use crate::token::{kind_view, Lexeme, Span, Tok, Token, TokenKind};
use vstd::prelude::*;
use vstd::string::*;

verus! {

/// What stood where a parse rule needed something else.
#[derive(Clone, Debug, PartialEq)]
pub enum Found {
    Token(TokenKind),
    /// The lexer failed while producing the next token.
    LexerFailure(LexerError),
}

#[derive(Clone, Debug, PartialEq)]
pub enum ParserError {
    UnexpectedToken { expected: String, found: Found, span: Span },
    MissingToken { expected: String, span: Span },
    UnexpectedEOF { span: Span },
}

pub ghost enum FoundView {
    Token(Tok),
    LexerFailure(LexerError),
}

/// A parse failure as a mathematical value.
pub ghost enum ParseFault {
    UnexpectedToken(Seq<char>, FoundView, Span),
    MissingToken(Seq<char>, Span),
    UnexpectedEOF(Span),
}

impl View for ParserError {
    type V = ParseFault;

    open spec fn view(&self) -> ParseFault {
        match self {
            ParserError::UnexpectedToken { expected, found, span } => ParseFault::UnexpectedToken(
                expected@,
                match found {
                    Found::Token(k) => FoundView::Token(kind_view(*k)),
                    Found::LexerFailure(e) => FoundView::LexerFailure(*e),
                },
                *span,
            ),
            ParserError::MissingToken { expected, span } => ParseFault::MissingToken(
                expected@,
                *span,
            ),
            ParserError::UnexpectedEOF { span } => ParseFault::UnexpectedEOF(*span),
        }
    }
}

/// The state of a parser as a mathematical value: the lexer, the current
/// token, and the widths of the blocks that the tokens read so far opened.
pub ghost struct ParseState {
    pub lex: LexState,
    pub cur: Lexeme,
    pub levels: Seq<usize>,
}

pub type Parsed<T> = (ParseState, Result<T, ParseFault>);

// The progress order of parse states: the lexer's order, then whether the
// current token is `Eof`. Every token the parser consumes moves it down.
pub open spec fn rank_input(ps: ParseState) -> nat {
    if ps.lex.pos <= ps.lex.input.len() {
        (ps.lex.input.len() - ps.lex.pos) as nat
    } else {
        0
    }
}

pub open spec fn rank_line(ps: ParseState) -> nat {
    if ps.lex.line_start {
        1
    } else {
        0
    }
}

pub open spec fn rank_pending(ps: ParseState) -> nat {
    ps.lex.pending.len()
}

pub open spec fn rank_stack(ps: ParseState) -> nat {
    ps.lex.stack.len()
}

pub open spec fn rank_token(ps: ParseState) -> nat {
    if is_eof(ps.cur) {
        0
    } else {
        1
    }
}

pub open spec fn same_rank(a: ParseState, b: ParseState) -> bool {
    &&& rank_input(a) == rank_input(b)
    &&& rank_line(a) == rank_line(b)
    &&& rank_pending(a) == rank_pending(b)
    &&& rank_stack(a) == rank_stack(b)
    &&& rank_token(a) == rank_token(b)
}

/// `a` is strictly further on than `b`.
pub open spec fn below(a: ParseState, b: ParseState) -> bool {
    ||| rank_input(a) < rank_input(b)
    ||| rank_input(a) == rank_input(b) && rank_line(a) < rank_line(b)
    ||| rank_input(a) == rank_input(b) && rank_line(a) == rank_line(b) && rank_pending(a)
        < rank_pending(b)
    ||| rank_input(a) == rank_input(b) && rank_line(a) == rank_line(b) && rank_pending(a)
        == rank_pending(b) && rank_stack(a) < rank_stack(b)
    ||| rank_input(a) == rank_input(b) && rank_line(a) == rank_line(b) && rank_pending(a)
        == rank_pending(b) && rank_stack(a) == rank_stack(b) && rank_token(a) < rank_token(b)
}

pub open spec fn not_above(a: ParseState, b: ParseState) -> bool {
    below(a, b) || same_rank(a, b)
}

/// The failure a rule reports when it cannot go on. Each rule consumes a
/// token before it recurses, so no parse reaches it (`Parser::parse_program`
/// never fails with a `MissingToken`); it only makes the definitions below
/// well founded.
pub open spec fn no_progress() -> ParseFault {
    ParseFault::MissingToken(Seq::empty(), Span { start: 0, end: 0 })
}

pub open spec fn lexer_error_span(e: LexerError) -> Span {
    match e {
        LexerError::UnexpectedCharacter { span, .. } => span,
        LexerError::InvalidNumber { span } => span,
        LexerError::UnterminatedString { span } => span,
        LexerError::IndentationError { span } => span,
        LexerError::InvalidEscapeSequence { span, .. } => span,
    }
}

/// Consumes the current token and reads the next one; a lexer failure
/// becomes an `UnexpectedToken` that carries it.
pub open spec fn advance(ps: ParseState) -> Parsed<()> {
    match lex_step(ps.lex) {
        (l, Ok(t)) => (ParseState { lex: l, cur: t, levels: ps.levels }, Ok(())),
        (_, Err(e)) => (
            ps,
            Err(
                ParseFault::UnexpectedToken(
                    "any token"@,
                    FoundView::LexerFailure(e),
                    lexer_error_span(e),
                ),
            ),
        ),
    }
}

pub open spec fn cur_is(ps: ParseState, k: TokenKind) -> bool {
    ps.cur.kind == Tok::Other(k)
}

pub open spec fn cur_is_word(ps: ParseState, w: Seq<char>) -> bool {
    ps.cur.kind == Tok::Identifier(w)
}

/// The failure for a current token that does not fit: `UnexpectedEOF` at
/// the end of the input, else `UnexpectedToken`.
pub open spec fn unexpected(ps: ParseState, expected: Seq<char>) -> ParseFault {
    if is_eof(ps.cur) {
        ParseFault::UnexpectedEOF(ps.cur.span)
    } else {
        ParseFault::UnexpectedToken(expected, FoundView::Token(ps.cur.kind), ps.cur.span)
    }
}

/// Consumes a token of kind `k`, or fails.
pub open spec fn expect(ps: ParseState, k: TokenKind, expected: Seq<char>) -> Parsed<()> {
    if cur_is(ps, k) {
        advance(ps)
    } else {
        (ps, Err(unexpected(ps, expected)))
    }
}

/// The operator that a token stands for at a precedence level: 3 for
/// comparisons, 2 for `+ -`, 1 for `* /`.
pub open spec fn level_operator(level: nat, t: Tok) -> Option<BinaryOperator> {
    if level == 3 {
        if t == Tok::Other(TokenKind::GreaterThan) {
            Some(BinaryOperator::GreaterThan)
        } else if t == Tok::Other(TokenKind::GreaterThanEquals) {
            Some(BinaryOperator::GreaterThanEquals)
        } else if t == Tok::Other(TokenKind::LessThan) {
            Some(BinaryOperator::LessThan)
        } else if t == Tok::Other(TokenKind::LessThanEquals) {
            Some(BinaryOperator::LessThanEquals)
        } else if t == Tok::Other(TokenKind::DoubleEquals) {
            Some(BinaryOperator::Equals)
        } else {
            None
        }
    } else if level == 2 {
        if t == Tok::Other(TokenKind::Plus) {
            Some(BinaryOperator::Add)
        } else if t == Tok::Other(TokenKind::Minus) {
            Some(BinaryOperator::Subtract)
        } else {
            None
        }
    } else if level == 1 {
        if t == Tok::Other(TokenKind::Asterisk) {
            Some(BinaryOperator::Multiply)
        } else if t == Tok::Other(TokenKind::Slash) {
            Some(BinaryOperator::Divide)
        } else {
            None
        }
    } else {
        None
    }
}

/// An expression at precedence `level` (0: a primary), left-associative.
pub open spec fn parse_level(ps: ParseState, level: nat) -> Parsed<Expr>
    decreases rank_input(ps), rank_line(ps), rank_pending(ps), rank_stack(ps), rank_token(ps),
        2 * level + 1,
{
    if level == 0 {
        parse_primary(ps)
    } else {
        let (ps1, r) = parse_level(ps, (level - 1) as nat);
        match r {
            Err(e) => (ps1, Err(e)),
            Ok(left) => if not_above(ps1, ps) {
                parse_level_rest(ps1, level, left)
            } else {
                (ps1, Err(no_progress()))
            },
        }
    }
}

/// The operators of `level` and their right operands that follow `left`.
pub open spec fn parse_level_rest(ps: ParseState, level: nat, left: Expr) -> Parsed<Expr>
    decreases rank_input(ps), rank_line(ps), rank_pending(ps), rank_stack(ps), rank_token(ps),
        2 * level,
{
    match level_operator(level, ps.cur.kind) {
        None => (ps, Ok(left)),
        Some(op) => {
            let (ps1, r1) = advance(ps);
            if r1 is Err {
                (ps1, Err(r1->Err_0))
            } else if !below(ps1, ps) || level == 0 {
                (ps1, Err(no_progress()))
            } else {
                let (ps2, r2) = parse_level(ps1, (level - 1) as nat);
                match r2 {
                    Err(e) => (ps2, Err(e)),
                    Ok(right) => if below(ps2, ps) {
                        parse_level_rest(
                            ps2,
                            level,
                            Expr::BinaryOp(Box::new(left), op, Box::new(right)),
                        )
                    } else {
                        (ps2, Err(no_progress()))
                    },
                }
            }
        },
    }
}

/// A number, a string, a variable, a call `name(args)`, or an expression in
/// parentheses.
pub open spec fn parse_primary(ps: ParseState) -> Parsed<Expr>
    decreases rank_input(ps), rank_line(ps), rank_pending(ps), rank_stack(ps), rank_token(ps),
        0int,
{
    let (ps1, r1) = advance(ps);
    match ps.cur.kind {
        Tok::Other(TokenKind::Number(n)) => (ps1, if r1 is Err {
            Err(r1->Err_0)
        } else {
            Ok(Expr::Number(n))
        }),
        Tok::String(s) => (ps1, if r1 is Err {
            Err(r1->Err_0)
        } else {
            Ok(Expr::String(s))
        }),
        Tok::Identifier(name) => if r1 is Err {
            (ps1, Err(r1->Err_0))
        } else if !cur_is(ps1, TokenKind::LeftParen) {
            (ps1, Ok(Expr::Identifier(name)))
        } else {
            let (ps2, r2) = advance(ps1);
            if r2 is Err {
                (ps2, Err(r2->Err_0))
            } else if !below(ps2, ps) {
                (ps2, Err(no_progress()))
            } else {
                let (ps3, r3) = parse_arguments(ps2);
                match r3 {
                    Err(e) => (ps3, Err(e)),
                    Ok(args) => {
                        let (ps4, r4) = expect(ps3, TokenKind::RightParen, ")"@);
                        (ps4, if r4 is Err {
                            Err(r4->Err_0)
                        } else {
                            Ok(Expr::FunctionCall(name, args))
                        })
                    },
                }
            }
        },
        Tok::Other(TokenKind::LeftParen) => if r1 is Err {
            (ps1, Err(r1->Err_0))
        } else if !below(ps1, ps) {
            (ps1, Err(no_progress()))
        } else {
            let (ps2, r2) = parse_level(ps1, 3);
            match r2 {
                Err(e) => (ps2, Err(e)),
                Ok(e) => {
                    let (ps3, r3) = expect(ps2, TokenKind::RightParen, ")"@);
                    (ps3, if r3 is Err {
                        Err(r3->Err_0)
                    } else {
                        Ok(e)
                    })
                },
            }
        },
        _ => (ps, Err(unexpected(ps, "expression"@))),
    }
}

/// The arguments of a call after its `(`: none when `)` follows, else
/// expressions separated by commas.
pub open spec fn parse_arguments(ps: ParseState) -> Parsed<Seq<Expr>>
    decreases rank_input(ps), rank_line(ps), rank_pending(ps), rank_stack(ps), rank_token(ps),
        9int,
{
    if cur_is(ps, TokenKind::RightParen) {
        (ps, Ok(Seq::empty()))
    } else {
        let (ps1, r1) = parse_level(ps, 3);
        match r1 {
            Err(e) => (ps1, Err(e)),
            Ok(e) => if not_above(ps1, ps) {
                parse_more_arguments(ps1, seq![e])
            } else {
                (ps1, Err(no_progress()))
            },
        }
    }
}

pub open spec fn parse_more_arguments(ps: ParseState, acc: Seq<Expr>) -> Parsed<Seq<Expr>>
    decreases rank_input(ps), rank_line(ps), rank_pending(ps), rank_stack(ps), rank_token(ps),
        8int,
{
    if !cur_is(ps, TokenKind::Comma) {
        (ps, Ok(acc))
    } else {
        let (ps1, r1) = advance(ps);
        if r1 is Err {
            (ps1, Err(r1->Err_0))
        } else if !below(ps1, ps) {
            (ps1, Err(no_progress()))
        } else {
            let (ps2, r2) = parse_level(ps1, 3);
            match r2 {
                Err(e) => (ps2, Err(e)),
                Ok(e) => if below(ps2, ps) {
                    parse_more_arguments(ps2, acc.push(e))
                } else {
                    (ps2, Err(no_progress()))
                },
            }
        }
    }
}

/// The depth of nesting that the tokens read so far have opened.
pub open spec fn depth(ps: ParseState) -> int {
    ps.levels.len() - 1
}

pub open spec fn with_levels(ps: ParseState, levels: Seq<usize>) -> ParseState {
    ParseState { levels, ..ps }
}

/// The levels after a `Dedent`: the innermost one closes, the base stays.
pub open spec fn close_level(levels: Seq<usize>) -> Seq<usize> {
    if levels.len() > 1 {
        levels.drop_last()
    } else {
        levels
    }
}

/// Statements up to the end of the input or of the enclosing block, after
/// those in `acc`. `Newline`, `Indent` and `Dedent` tokens between
/// statements are consumed and tracked. In a block (`in_block`) of depth
/// `d`, a `Dedent` that would drop below `d`, and an `else` at depth `d`,
/// end it without being consumed.
pub open spec fn parse_statements(ps: ParseState, d: int, in_block: bool, acc: Seq<Stmt>) -> Parsed<
    Seq<Stmt>,
>
    decreases rank_input(ps), rank_line(ps), rank_pending(ps), rank_stack(ps), rank_token(ps),
        30int,
{
    match ps.cur.kind {
        Tok::Other(TokenKind::Eof) => (ps, Ok(acc)),
        Tok::Other(TokenKind::Newline) => {
            let (ps1, r1) = advance(ps);
            if r1 is Err {
                (ps1, Err(r1->Err_0))
            } else if !below(ps1, ps) {
                (ps1, Err(no_progress()))
            } else {
                parse_statements(ps1, d, in_block, acc)
            }
        },
        Tok::Other(TokenKind::Indent(w)) => {
            let (ps1, r1) = advance(ps);
            if r1 is Err {
                (ps1, Err(r1->Err_0))
            } else if !below(ps1, ps) {
                (ps1, Err(no_progress()))
            } else {
                parse_statements(with_levels(ps1, ps1.levels.push(w)), d, in_block, acc)
            }
        },
        Tok::Other(TokenKind::Dedent(_)) => if in_block && depth(ps) - 1 < d {
            (ps, Ok(acc))
        } else {
            let (ps1, r1) = advance(ps);
            if r1 is Err {
                (ps1, Err(r1->Err_0))
            } else if !below(ps1, ps) {
                (ps1, Err(no_progress()))
            } else {
                parse_statements(with_levels(ps1, close_level(ps1.levels)), d, in_block, acc)
            }
        },
        _ => if in_block && depth(ps) == d && cur_is_word(ps, "else"@) {
            (ps, Ok(acc))
        } else {
            let (ps1, r1) = parse_statement(ps);
            match r1 {
                Err(e) => (ps1, Err(e)),
                Ok(st) => if below(ps1, ps) {
                    parse_statements(ps1, d, in_block, acc.push(st))
                } else {
                    (ps1, Err(no_progress()))
                },
            }
        },
    }
}

/// A block after the header of an `if`, `else`, `for` or `while`: line
/// breaks are skipped, an `Indent` opens a deeper level, and the block holds
/// the statements at that depth.
pub open spec fn parse_block(ps: ParseState) -> Parsed<Stmt>
    decreases rank_input(ps), rank_line(ps), rank_pending(ps), rank_stack(ps), rank_token(ps),
        40int,
{
    match ps.cur.kind {
        Tok::Other(TokenKind::Newline) => {
            let (ps1, r1) = advance(ps);
            if r1 is Err {
                (ps1, Err(r1->Err_0))
            } else if !below(ps1, ps) {
                (ps1, Err(no_progress()))
            } else {
                parse_block(ps1)
            }
        },
        Tok::Other(TokenKind::Indent(w)) => {
            let (ps1, r1) = advance(ps);
            if r1 is Err {
                (ps1, Err(r1->Err_0))
            } else if !below(ps1, ps) {
                (ps1, Err(no_progress()))
            } else {
                parse_block_body(with_levels(ps1, ps1.levels.push(w)))
            }
        },
        _ => parse_block_body(ps),
    }
}

pub open spec fn parse_block_body(ps: ParseState) -> Parsed<Stmt>
    decreases rank_input(ps), rank_line(ps), rank_pending(ps), rank_stack(ps), rank_token(ps),
        39int,
{
    let (ps1, r1) = parse_statements(ps, depth(ps), true, Seq::empty());
    match r1 {
        Err(e) => (ps1, Err(e)),
        Ok(ss) => (ps1, Ok(Stmt::Block(ss, ps.levels.last()))),
    }
}

/// One statement: `if`, `for`, `while`, `print(...)`, or an assignment.
pub open spec fn parse_statement(ps: ParseState) -> Parsed<Stmt>
    decreases rank_input(ps), rank_line(ps), rank_pending(ps), rank_stack(ps), rank_token(ps),
        20int,
{
    match ps.cur.kind {
        Tok::Identifier(w) => if w == "if"@ {
            parse_if(ps)
        } else if w == "for"@ {
            parse_for(ps)
        } else if w == "while"@ {
            parse_while(ps)
        } else if w == "print"@ {
            parse_print(ps)
        } else {
            parse_assignment(ps, w)
        },
        _ => (ps, Err(unexpected(ps, "statement"@))),
    }
}

pub open spec fn unsupported_call_text() -> Seq<char> {
    "= (only print can be called as a statement)"@
}

/// `name = expression`, with `name` the current identifier.
pub open spec fn parse_assignment(ps: ParseState, name: Seq<char>) -> Parsed<Stmt>
    decreases rank_input(ps), rank_line(ps), rank_pending(ps), rank_stack(ps), rank_token(ps),
        19int,
{
    let (ps1, r1) = advance(ps);
    if r1 is Err {
        (ps1, Err(r1->Err_0))
    } else if cur_is(ps1, TokenKind::Equals) {
        let (ps2, r2) = advance(ps1);
        if r2 is Err {
            (ps2, Err(r2->Err_0))
        } else if !below(ps2, ps) {
            (ps2, Err(no_progress()))
        } else {
            let (ps3, r3) = parse_level(ps2, 3);
            match r3 {
                Err(e) => (ps3, Err(e)),
                Ok(e) => (ps3, Ok(Stmt::Assignment(name, e))),
            }
        }
    } else if cur_is(ps1, TokenKind::LeftParen) {
        (
            ps1,
            Err(
                ParseFault::UnexpectedToken(
                    unsupported_call_text(),
                    FoundView::Token(ps1.cur.kind),
                    ps1.cur.span,
                ),
            ),
        )
    } else {
        (ps1, Err(unexpected(ps1, "= or ("@)))
    }
}

/// `while condition` and a block.
pub open spec fn parse_while(ps: ParseState) -> Parsed<Stmt>
    decreases rank_input(ps), rank_line(ps), rank_pending(ps), rank_stack(ps), rank_token(ps),
        19int,
{
    let (ps1, r1) = advance(ps);
    if r1 is Err {
        (ps1, Err(r1->Err_0))
    } else if !below(ps1, ps) {
        (ps1, Err(no_progress()))
    } else {
        let (ps2, r2) = parse_level(ps1, 3);
        match r2 {
            Err(e) => (ps2, Err(e)),
            Ok(c) => if !below(ps2, ps) {
                (ps2, Err(no_progress()))
            } else {
                let (ps3, r3) = parse_block(ps2);
                match r3 {
                    Err(e) => (ps3, Err(e)),
                    Ok(b) => (ps3, Ok(Stmt::While(c, Box::new(b)))),
                }
            },
        }
    }
}

/// `for variable = start to end` and a block.
pub open spec fn parse_for(ps: ParseState) -> Parsed<Stmt>
    decreases rank_input(ps), rank_line(ps), rank_pending(ps), rank_stack(ps), rank_token(ps),
        19int,
{
    let (ps1, r1) = advance(ps);
    if r1 is Err {
        (ps1, Err(r1->Err_0))
    } else if !(ps1.cur.kind is Identifier) {
        (ps1, Err(unexpected(ps1, "identifier"@)))
    } else {
        let v = ps1.cur.kind->Identifier_0;
        let (ps2, r2) = advance(ps1);
        if r2 is Err {
            (ps2, Err(r2->Err_0))
        } else {
            let (ps3, r3) = expect(ps2, TokenKind::Equals, "="@);
            if r3 is Err {
                (ps3, Err(r3->Err_0))
            } else if !below(ps3, ps) {
                (ps3, Err(no_progress()))
            } else {
                let (ps4, r4) = parse_level(ps3, 3);
                match r4 {
                    Err(e) => (ps4, Err(e)),
                    Ok(lo) => if !cur_is_word(ps4, "to"@) {
                        (ps4, Err(unexpected(ps4, "to"@)))
                    } else {
                        let (ps5, r5) = advance(ps4);
                        if r5 is Err {
                            (ps5, Err(r5->Err_0))
                        } else if !below(ps5, ps) {
                            (ps5, Err(no_progress()))
                        } else {
                            let (ps6, r6) = parse_level(ps5, 3);
                            match r6 {
                                Err(e) => (ps6, Err(e)),
                                Ok(hi) => if !below(ps6, ps) {
                                    (ps6, Err(no_progress()))
                                } else {
                                    let (ps7, r7) = parse_block(ps6);
                                    match r7 {
                                        Err(e) => (ps7, Err(e)),
                                        Ok(b) => (ps7, Ok(Stmt::ForLoop(v, lo, hi, Box::new(b)))),
                                    }
                                },
                            }
                        }
                    },
                }
            }
        }
    }
}

/// `print(arguments)`.
pub open spec fn parse_print(ps: ParseState) -> Parsed<Stmt>
    decreases rank_input(ps), rank_line(ps), rank_pending(ps), rank_stack(ps), rank_token(ps),
        19int,
{
    let (ps1, r1) = advance(ps);
    if r1 is Err {
        (ps1, Err(r1->Err_0))
    } else {
        let (ps2, r2) = expect(ps1, TokenKind::LeftParen, "("@);
        if r2 is Err {
            (ps2, Err(r2->Err_0))
        } else if !below(ps2, ps) {
            (ps2, Err(no_progress()))
        } else {
            let (ps3, r3) = parse_arguments(ps2);
            match r3 {
                Err(e) => (ps3, Err(e)),
                Ok(args) => {
                    let (ps4, r4) = expect(ps3, TokenKind::RightParen, ")"@);
                    (ps4, if r4 is Err {
                        Err(r4->Err_0)
                    } else {
                        Ok(Stmt::FunctionCall("print"@, args))
                    })
                },
            }
        }
    }
}

/// After the then-block of an `if` at depth `h`: the `Dedent` that returns
/// to depth `h` is consumed, so that an `else` on the `if`'s own line level
/// can follow.
pub open spec fn close_to(ps: ParseState, h: int) -> Parsed<()> {
    if is_dedent(ps.cur) && depth(ps) - 1 == h {
        let (ps1, r1) = advance(ps);
        if r1 is Err {
            (ps1, Err(r1->Err_0))
        } else {
            (with_levels(ps1, close_level(ps1.levels)), Ok(()))
        }
    } else {
        (ps, Ok(()))
    }
}

/// `if condition`, a block, and optionally `else` and a block.
pub open spec fn parse_if(ps: ParseState) -> Parsed<Stmt>
    decreases rank_input(ps), rank_line(ps), rank_pending(ps), rank_stack(ps), rank_token(ps),
        19int,
{
    let (ps1, r1) = advance(ps);
    if r1 is Err {
        (ps1, Err(r1->Err_0))
    } else if !below(ps1, ps) {
        (ps1, Err(no_progress()))
    } else {
        let (ps2, r2) = parse_level(ps1, 3);
        match r2 {
            Err(e) => (ps2, Err(e)),
            Ok(c) => if !below(ps2, ps) {
                (ps2, Err(no_progress()))
            } else {
                let (ps3, r3) = parse_block(ps2);
                match r3 {
                    Err(e) => (ps3, Err(e)),
                    Ok(t) => {
                        let (ps4, r4) = close_to(ps3, depth(ps));
                        if r4 is Err {
                            (ps4, Err(r4->Err_0))
                        } else if !cur_is_word(ps4, "else"@) {
                            (ps4, Ok(Stmt::If(c, Box::new(t), None)))
                        } else {
                            let (ps5, r5) = advance(ps4);
                            if r5 is Err {
                                (ps5, Err(r5->Err_0))
                            } else if !below(ps5, ps) {
                                (ps5, Err(no_progress()))
                            } else {
                                let (ps6, r6) = parse_block(ps5);
                                match r6 {
                                    Err(e) => (ps6, Err(e)),
                                    Ok(b) => (
                                        ps6,
                                        Ok(Stmt::If(c, Box::new(t), Some(Box::new(b)))),
                                    ),
                                }
                            }
                        }
                    },
                }
            },
        }
    }
}

/// A whole program: statements up to `Eof`.
pub open spec fn parse_program(ps: ParseState) -> Parsed<Seq<Stmt>> {
    parse_statements(ps, 0, false, Seq::empty())
}

/// A parser state that parsing can reach.
pub open spec fn parse_wf(ps: ParseState) -> bool {
    &&& lex_wf(ps.lex)
    &&& ps.levels.len() >= 1
}

/// The exec result `r` and state `new` are those that the rule gives.
pub open spec fn agrees<T>(new: ParseState, r: Result<T, ParseFault>, s: Parsed<T>) -> bool {
    match r {
        Ok(x) => s.1 == Ok::<T, ParseFault>(x) && new == s.0,
        Err(e) => s.1 == Err::<T, ParseFault>(e),
    }
}

pub open spec fn expr_result(r: Result<Expression, ParserError>) -> Result<Expr, ParseFault> {
    match r {
        Ok(e) => Ok(expr_view(e)),
        Err(x) => Err(x@),
    }
}

pub open spec fn args_result(r: Result<Vec<Expression>, ParserError>) -> Result<Seq<Expr>, ParseFault> {
    match r {
        Ok(v) => Ok(exprs_view(v@)),
        Err(x) => Err(x@),
    }
}

pub open spec fn stmt_result(r: Result<Statement, ParserError>) -> Result<Stmt, ParseFault> {
    match r {
        Ok(s) => Ok(stmt_view(s)),
        Err(x) => Err(x@),
    }
}

pub open spec fn stmts_result(r: Result<Vec<Statement>, ParserError>) -> Result<Seq<Stmt>, ParseFault> {
    match r {
        Ok(v) => Ok(stmts_view(v@)),
        Err(x) => Err(x@),
    }
}

pub open spec fn unit_result(r: Result<Token, ParserError>) -> Result<(), ParseFault> {
    match r {
        Ok(_) => Ok(()),
        Err(x) => Err(x@),
    }
}

pub open spec fn program_result(r: Result<Program, ParserError>) -> Result<Seq<Stmt>, ParseFault> {
    match r {
        Ok(p) => Ok(p@),
        Err(x) => Err(x@),
    }
}

proof fn lemma_order(a: ParseState, b: ParseState, c: ParseState)
    ensures
        below(a, b) && not_above(b, c) ==> below(a, c),
        not_above(a, b) && below(b, c) ==> below(a, c),
        not_above(a, b) && not_above(b, c) ==> not_above(a, c),
{
}

fn lexer_error_span_of(e: LexerError) -> (r: Span)
    ensures
        r == lexer_error_span(e),
{
    match e {
        LexerError::UnexpectedCharacter { span, .. } => span,
        LexerError::InvalidNumber { span } => span,
        LexerError::UnterminatedString { span } => span,
        LexerError::IndentationError { span } => span,
        LexerError::InvalidEscapeSequence { span, .. } => span,
    }
}

fn operator_at(level: u8, k: &TokenKind) -> (r: Option<BinaryOperator>)
    ensures
        r == level_operator(level as nat, kind_view(*k)),
{
    if level == 3 {
        match k {
            TokenKind::GreaterThan => Some(BinaryOperator::GreaterThan),
            TokenKind::GreaterThanEquals => Some(BinaryOperator::GreaterThanEquals),
            TokenKind::LessThan => Some(BinaryOperator::LessThan),
            TokenKind::LessThanEquals => Some(BinaryOperator::LessThanEquals),
            TokenKind::DoubleEquals => Some(BinaryOperator::Equals),
            _ => None,
        }
    } else if level == 2 {
        match k {
            TokenKind::Plus => Some(BinaryOperator::Add),
            TokenKind::Minus => Some(BinaryOperator::Subtract),
            _ => None,
        }
    } else if level == 1 {
        match k {
            TokenKind::Asterisk => Some(BinaryOperator::Multiply),
            TokenKind::Slash => Some(BinaryOperator::Divide),
            _ => None,
        }
    } else {
        None
    }
}

/// A recursive-descent parser that owns the lexer it reads from.
pub struct Parser {
    lexer: Lexer,
    current: Token,
    levels: Vec<usize>,
    source: String,
}

impl View for Parser {
    type V = ParseState;

    closed spec fn view(&self) -> ParseState {
        ParseState { lex: self.lexer@, cur: self.current@, levels: self.levels@ }
    }
}

impl Parser {
    pub closed spec fn wf(&self) -> bool {
        parse_wf(self@)
    }

    pub closed spec fn source(&self) -> String {
        self.source
    }

    /// A parser over `lexer`, positioned on its first token; `source` is the
    /// program text, kept for diagnostics.
    pub fn new(lexer: Lexer, source: String) -> (r: Result<Parser, ParserError>)
        requires
            lex_wf(lexer@),
        ensures
            match r {
                Ok(p) => {
                    &&& p.wf()
                    &&& lex_step(lexer@).1 is Ok
                    &&& p@ == (ParseState {
                        lex: lex_step(lexer@).0,
                        cur: lex_step(lexer@).1->Ok_0,
                        levels: seq![0usize],
                    })
                    &&& p.source()@ == source@
                },
                Err(e) => {
                    &&& lex_step(lexer@).1 is Err
                    &&& e@ == ParseFault::UnexpectedToken(
                        "any token"@,
                        FoundView::LexerFailure(lex_step(lexer@).1->Err_0),
                        lexer_error_span(lex_step(lexer@).1->Err_0),
                    )
                },
            },
    {
        let mut lexer = lexer;
        match lexer.next_token() {
            Ok(t) => {
                let mut levels: Vec<usize> = Vec::new();
                levels.push(0);
                proof {
                    assert(levels@ =~= seq![0usize]);
                }
                Ok(Parser { lexer, current: t, levels, source })
            },
            Err(e) => Err(
                ParserError::UnexpectedToken {
                    expected: String::from_str("any token"),
                    found: Found::LexerFailure(e),
                    span: lexer_error_span_of(e),
                },
            ),
        }
    }

    /// The program text given to `new`.
    pub fn source_text(&self) -> (r: &String)
        ensures
            r@ == self.source()@,
    {
        &self.source
    }

    /// Consumes the current token, returning it, and reads the next one.
    fn advance(&mut self) -> (r: Result<Token, ParserError>)
        requires
            old(self).wf(),
        ensures
            final(self).wf(),
            r is Err ==> !(r->Err_0 is MissingToken),
            agrees(final(self)@, unit_result(r), advance(old(self)@)),
            r is Ok ==> r->Ok_0@ == old(self)@.cur && not_above(final(self)@, old(self)@) && (
            !is_eof(old(self)@.cur) ==> below(final(self)@, old(self)@)),
    {
        let ghost before = self.lexer@;
        match self.lexer.next_token() {
            Ok(t) => {
                proof {
                    lemma_step_progress(before);
                }
                let mut t = t;
                core::mem::swap(&mut self.current, &mut t);
                Ok(t)
            },
            Err(e) => Err(
                ParserError::UnexpectedToken {
                    expected: String::from_str("any token"),
                    found: Found::LexerFailure(e),
                    span: lexer_error_span_of(e),
                },
            ),
        }
    }

    fn current_is_eof(&self) -> (r: bool)
        ensures
            r == is_eof(self@.cur),
    {
        matches!(self.current.kind(), TokenKind::Eof)
    }

    fn current_word_is(&self, w: &str) -> (r: bool)
        ensures
            r == cur_is_word(self@, w@),
    {
        match self.current.kind() {
            TokenKind::Identifier(name) => *name == String::from_str(w),
            _ => false,
        }
    }

    /// The failure for a current token that does not fit.
    fn unexpected(&mut self, expected: &str) -> (e: ParserError)
        requires
            old(self).wf(),
        ensures
            final(self).wf(),
            e@ == unexpected(old(self)@, expected@),
    {
        let span = self.current.span();
        if self.current_is_eof() {
            ParserError::UnexpectedEOF { span }
        } else {
            let mut t = Token::new(TokenKind::Eof, span.start, span.end);
            core::mem::swap(&mut self.current, &mut t);
            ParserError::UnexpectedToken {
                expected: String::from_str(expected),
                found: Found::Token(t.into_kind()),
                span,
            }
        }
    }
}

impl Parser {
    /// Consumes the current token if it is of kind `k` (`=`, `(` or `)`),
    /// or fails.
    fn expect_token(&mut self, k: TokenKind, expected: &str) -> (r: Result<Token, ParserError>)
        requires
            old(self).wf(),
            k == TokenKind::Equals || k == TokenKind::LeftParen || k == TokenKind::RightParen,
        ensures
            final(self).wf(),
            r is Err ==> !(r->Err_0 is MissingToken),
            agrees(final(self)@, unit_result(r), expect(old(self)@, k, expected@)),
            r is Ok ==> below(final(self)@, old(self)@),
    {
        let matches = match k {
            TokenKind::Equals => matches!(self.current.kind(), TokenKind::Equals),
            TokenKind::LeftParen => matches!(self.current.kind(), TokenKind::LeftParen),
            _ => matches!(self.current.kind(), TokenKind::RightParen),
        };
        if matches {
            self.advance()
        } else {
            Err(self.unexpected(expected))
        }
    }

    /// An expression at precedence `level` (3: comparisons, 2: `+ -`,
    /// 1: `* /`, 0: a primary).
    fn parse_level(&mut self, level: u8) -> (r: Result<Expression, ParserError>)
        requires
            old(self).wf(),
            level <= 3,
        ensures
            final(self).wf(),
            r is Err ==> !(r->Err_0 is MissingToken),
            agrees(final(self)@, expr_result(r), parse_level(old(self)@, level as nat)),
            r is Ok ==> below(final(self)@, old(self)@),
        decreases rank_input(self@), rank_line(self@), rank_pending(self@), rank_stack(self@),
            rank_token(self@), 2 * level + 1,
    {
        if level == 0 {
            return self.parse_primary();
        }
        let left = match self.parse_level(level - 1) {
            Ok(e) => e,
            Err(e) => {
                return Err(e);
            },
        };
        let ghost mid = self@;
        let r = self.parse_level_rest(level, left);
        proof {
            if r is Ok {
                lemma_order(self@, mid, old(self)@);
            }
        }
        r
    }

    /// Binary operators of `level` and their right operands after `left`.
    fn parse_level_rest(&mut self, level: u8, left: Expression) -> (r: Result<Expression, ParserError>)
        requires
            old(self).wf(),
            1 <= level <= 3,
        ensures
            final(self).wf(),
            r is Err ==> !(r->Err_0 is MissingToken),
            agrees(
                final(self)@,
                expr_result(r),
                parse_level_rest(old(self)@, level as nat, expr_view(left)),
            ),
            r is Ok ==> not_above(final(self)@, old(self)@),
        decreases rank_input(self@), rank_line(self@), rank_pending(self@), rank_stack(self@),
            rank_token(self@), 2 * level,
    {
        let op = match operator_at(level, self.current.kind()) {
            None => {
                return Ok(left);
            },
            Some(op) => op,
        };
        match self.advance() {
            Ok(_) => {},
            Err(e) => {
                return Err(e);
            },
        }
        let ghost s1 = self@;
        let right = match self.parse_level(level - 1) {
            Ok(e) => e,
            Err(e) => {
                return Err(e);
            },
        };
        proof {
            lemma_order(self@, s1, old(self)@);
        }
        let ghost s2 = self@;
        let combined = Expression::BinaryOp {
            left: Box::new(left),
            operator: op,
            right: Box::new(right),
        };
        let r = self.parse_level_rest(level, combined);
        proof {
            if r is Ok {
                lemma_order(self@, s2, old(self)@);
            }
        }
        r
    }

    /// A number, a string, a variable, a call `name(args)`, or an expression
    /// in parentheses.
    fn parse_primary(&mut self) -> (r: Result<Expression, ParserError>)
        requires
            old(self).wf(),
        ensures
            final(self).wf(),
            r is Err ==> !(r->Err_0 is MissingToken),
            agrees(final(self)@, expr_result(r), parse_primary(old(self)@)),
            r is Ok ==> below(final(self)@, old(self)@),
        decreases rank_input(self@), rank_line(self@), rank_pending(self@), rank_stack(self@),
            rank_token(self@), 0int,
    {
        match self.current.kind() {
            TokenKind::Number(n) => {
                let n = *n;
                match self.advance() {
                    Ok(_) => Ok(Expression::Number(n)),
                    Err(e) => Err(e),
                }
            },
            TokenKind::String(_) => {
                match self.advance() {
                    Ok(t) => Ok(Expression::String(t.into_text())),
                    Err(e) => Err(e),
                }
            },
            TokenKind::Identifier(_) => {
                let name = match self.advance() {
                    Ok(t) => t.into_text(),
                    Err(e) => {
                        return Err(e);
                    },
                };
                if !matches!(self.current.kind(), TokenKind::LeftParen) {
                    return Ok(Expression::Identifier(name));
                }
                let ghost s1 = self@;
                match self.advance() {
                    Ok(_) => {},
                    Err(e) => {
                        return Err(e);
                    },
                }
                proof {
                    lemma_order(self@, s1, old(self)@);
                }
                let ghost s2 = self@;
                let arguments = match self.parse_arguments() {
                    Ok(a) => a,
                    Err(e) => {
                        return Err(e);
                    },
                };
                let ghost s3 = self@;
                match self.expect_token(TokenKind::RightParen, ")") {
                    Ok(_) => {},
                    Err(e) => {
                        return Err(e);
                    },
                }
                proof {
                    lemma_order(s3, s2, old(self)@);
                    lemma_order(self@, s3, old(self)@);
                }
                let ghost av = arguments@;
                let ghost nv = name@;
                let r = Expression::FunctionCall { name, arguments };
                proof {
                    assert(expr_view(r)->FunctionCall_1 =~= exprs_view(av));
                    assert(expr_view(r) == Expr::FunctionCall(nv, exprs_view(av)));
                }
                Ok(r)
            },
            TokenKind::LeftParen => {
                match self.advance() {
                    Ok(_) => {},
                    Err(e) => {
                        return Err(e);
                    },
                }
                let ghost s1 = self@;
                let e = match self.parse_level(3) {
                    Ok(e) => e,
                    Err(e) => {
                        return Err(e);
                    },
                };
                let ghost s2 = self@;
                match self.expect_token(TokenKind::RightParen, ")") {
                    Ok(_) => {},
                    Err(x) => {
                        return Err(x);
                    },
                }
                proof {
                    lemma_order(s2, s1, old(self)@);
                    lemma_order(self@, s2, old(self)@);
                }
                Ok(e)
            },
            _ => Err(self.unexpected("expression")),
        }
    }

    /// The arguments of a call after its `(`.
    fn parse_arguments(&mut self) -> (r: Result<Vec<Expression>, ParserError>)
        requires
            old(self).wf(),
        ensures
            final(self).wf(),
            r is Err ==> !(r->Err_0 is MissingToken),
            agrees(final(self)@, args_result(r), parse_arguments(old(self)@)),
            r is Ok ==> not_above(final(self)@, old(self)@),
        decreases rank_input(self@), rank_line(self@), rank_pending(self@), rank_stack(self@),
            rank_token(self@), 9int,
    {
        let mut args: Vec<Expression> = Vec::new();
        if matches!(self.current.kind(), TokenKind::RightParen) {
            proof {
                assert(exprs_view(args@) =~= Seq::<Expr>::empty());
            }
            return Ok(args);
        }
        let e = match self.parse_level(3) {
            Ok(e) => e,
            Err(x) => {
                return Err(x);
            },
        };
        args.push(e);
        proof {
            assert(exprs_view(args@) =~= seq![expr_view(e)]);
        }
        let ghost s1 = self@;
        let r = self.parse_more_arguments(args);
        proof {
            if r is Ok {
                lemma_order(self@, s1, old(self)@);
            }
        }
        r
    }

    /// Further arguments, each after a comma, following those in `args`.
    fn parse_more_arguments(&mut self, args: Vec<Expression>) -> (r: Result<Vec<Expression>, ParserError>)
        requires
            old(self).wf(),
        ensures
            final(self).wf(),
            r is Err ==> !(r->Err_0 is MissingToken),
            agrees(
                final(self)@,
                args_result(r),
                parse_more_arguments(old(self)@, exprs_view(args@)),
            ),
            r is Ok ==> not_above(final(self)@, old(self)@),
        decreases rank_input(self@), rank_line(self@), rank_pending(self@), rank_stack(self@),
            rank_token(self@), 8int,
    {
        if !matches!(self.current.kind(), TokenKind::Comma) {
            return Ok(args);
        }
        match self.advance() {
            Ok(_) => {},
            Err(e) => {
                return Err(e);
            },
        }
        let ghost s1 = self@;
        let e = match self.parse_level(3) {
            Ok(e) => e,
            Err(x) => {
                return Err(x);
            },
        };
        proof {
            lemma_order(self@, s1, old(self)@);
        }
        let mut args = args;
        let ghost before = args@;
        args.push(e);
        proof {
            assert(exprs_view(args@) =~= exprs_view(before).push(expr_view(e)));
        }
        let ghost s2 = self@;
        let r = self.parse_more_arguments(args);
        proof {
            if r is Ok {
                lemma_order(self@, s2, old(self)@);
            }
        }
        r
    }
}

impl Parser {
    /// Statements up to the end of the input or of the enclosing block of
    /// depth `d`; see the rule of the same name.
    fn parse_statements(&mut self, d: usize, in_block: bool) -> (r: Result<Vec<Statement>, ParserError>)
        requires
            old(self).wf(),
            d < usize::MAX,
        ensures
            final(self).wf(),
            r is Err ==> !(r->Err_0 is MissingToken),
            agrees(
                final(self)@,
                stmts_result(r),
                parse_statements(old(self)@, d as int, in_block, Seq::empty()),
            ),
            r is Ok ==> not_above(final(self)@, old(self)@),
        decreases rank_input(self@), rank_line(self@), rank_pending(self@), rank_stack(self@),
            rank_token(self@), 30int,
    {
        let mut acc: Vec<Statement> = Vec::new();
        proof {
            assert(stmts_view(acc@) =~= Seq::<Stmt>::empty());
        }
        loop
            invariant
                self.wf(),
                d < usize::MAX,
                not_above(self@, old(self)@),
                parse_statements(self@, d as int, in_block, stmts_view(acc@)) == parse_statements(
                    old(self)@,
                    d as int,
                    in_block,
                    Seq::empty(),
                ),
            decreases rank_input(self@), rank_line(self@), rank_pending(self@), rank_stack(self@),
                rank_token(self@),
        {
            let ghost s0 = self@;
            match self.current.kind() {
                TokenKind::Eof => {
                    return Ok(acc);
                },
                TokenKind::Newline => {
                    match self.advance() {
                        Ok(_) => {},
                        Err(e) => {
                            return Err(e);
                        },
                    }
                },
                TokenKind::Indent(w) => {
                    let w = *w;
                    match self.advance() {
                        Ok(_) => {},
                        Err(e) => {
                            return Err(e);
                        },
                    }
                    self.levels.push(w);
                },
                TokenKind::Dedent(_) => {
                    if in_block && self.levels.len() <= d + 1 {
                        return Ok(acc);
                    }
                    match self.advance() {
                        Ok(_) => {},
                        Err(e) => {
                            return Err(e);
                        },
                    }
                    if self.levels.len() > 1 {
                        self.levels.pop();
                    }
                },
                _ => {
                    if in_block && self.levels.len() - 1 == d && self.current_word_is("else") {
                        return Ok(acc);
                    }
                    let st = match self.parse_statement() {
                        Ok(st) => st,
                        Err(e) => {
                            return Err(e);
                        },
                    };
                    let ghost before = acc@;
                    acc.push(st);
                    proof {
                        assert(stmts_view(acc@) =~= stmts_view(before).push(stmt_view(st)));
                    }
                },
            }
            proof {
                lemma_order(self@, s0, old(self)@);
            }
        }
    }

    /// A block after the header of an `if`, `else`, `for` or `while`.
    fn parse_block(&mut self) -> (r: Result<Statement, ParserError>)
        requires
            old(self).wf(),
        ensures
            final(self).wf(),
            r is Err ==> !(r->Err_0 is MissingToken),
            agrees(final(self)@, stmt_result(r), parse_block(old(self)@)),
            r is Ok ==> not_above(final(self)@, old(self)@),
        decreases rank_input(self@), rank_line(self@), rank_pending(self@), rank_stack(self@),
            rank_token(self@), 40int,
    {
        match self.current.kind() {
            TokenKind::Newline => {
                match self.advance() {
                    Ok(_) => {},
                    Err(e) => {
                        return Err(e);
                    },
                }
                let ghost s1 = self@;
                let r = self.parse_block();
                proof {
                    if r is Ok {
                        lemma_order(self@, s1, old(self)@);
                    }
                }
                r
            },
            TokenKind::Indent(w) => {
                let w = *w;
                match self.advance() {
                    Ok(_) => {},
                    Err(e) => {
                        return Err(e);
                    },
                }
                self.levels.push(w);
                let ghost s1 = self@;
                let r = self.parse_block_body();
                proof {
                    if r is Ok {
                        lemma_order(self@, s1, old(self)@);
                    }
                }
                r
            },
            _ => self.parse_block_body(),
        }
    }

    fn parse_block_body(&mut self) -> (r: Result<Statement, ParserError>)
        requires
            old(self).wf(),
        ensures
            final(self).wf(),
            r is Err ==> !(r->Err_0 is MissingToken),
            agrees(final(self)@, stmt_result(r), parse_block_body(old(self)@)),
            r is Ok ==> not_above(final(self)@, old(self)@),
        decreases rank_input(self@), rank_line(self@), rank_pending(self@), rank_stack(self@),
            rank_token(self@), 39int,
    {
        let d = self.levels.len() - 1;
        let width = self.levels[d];
        let statements = match self.parse_statements(d, true) {
            Ok(v) => v,
            Err(e) => {
                return Err(e);
            },
        };
        let ghost sv = statements@;
        let r = Statement::Block { statements, indentation: width };
        proof {
            assert(stmt_view(r)->Block_0 =~= stmts_view(sv));
        }
        Ok(r)
    }

    /// One statement: `if`, `for`, `while`, `print(...)`, or an assignment.
    fn parse_statement(&mut self) -> (r: Result<Statement, ParserError>)
        requires
            old(self).wf(),
        ensures
            final(self).wf(),
            r is Err ==> !(r->Err_0 is MissingToken),
            agrees(final(self)@, stmt_result(r), parse_statement(old(self)@)),
            r is Ok ==> below(final(self)@, old(self)@),
        decreases rank_input(self@), rank_line(self@), rank_pending(self@), rank_stack(self@),
            rank_token(self@), 20int,
    {
        if !matches!(self.current.kind(), TokenKind::Identifier(_)) {
            return Err(self.unexpected("statement"));
        }
        if self.current_word_is("if") {
            self.parse_if()
        } else if self.current_word_is("for") {
            self.parse_for()
        } else if self.current_word_is("while") {
            self.parse_while()
        } else if self.current_word_is("print") {
            self.parse_print()
        } else {
            self.parse_assignment()
        }
    }

    /// `name = expression`.
    fn parse_assignment(&mut self) -> (r: Result<Statement, ParserError>)
        requires
            old(self).wf(),
            old(self)@.cur.kind is Identifier,
        ensures
            final(self).wf(),
            r is Err ==> !(r->Err_0 is MissingToken),
            agrees(
                final(self)@,
                stmt_result(r),
                parse_assignment(old(self)@, old(self)@.cur.kind->Identifier_0),
            ),
            r is Ok ==> below(final(self)@, old(self)@),
        decreases rank_input(self@), rank_line(self@), rank_pending(self@), rank_stack(self@),
            rank_token(self@), 19int,
    {
        let identifier = match self.advance() {
            Ok(t) => t.into_text(),
            Err(e) => {
                return Err(e);
            },
        };
        if matches!(self.current.kind(), TokenKind::Equals) {
            let ghost s1 = self@;
            match self.advance() {
                Ok(_) => {},
                Err(e) => {
                    return Err(e);
                },
            }
            proof {
                lemma_order(self@, s1, old(self)@);
            }
            let ghost s2 = self@;
            let e = match self.parse_level(3) {
                Ok(e) => e,
                Err(x) => {
                    return Err(x);
                },
            };
            proof {
                lemma_order(self@, s2, old(self)@);
            }
            Ok(Statement::Assignment { identifier, expression: Box::new(e) })
        } else if matches!(self.current.kind(), TokenKind::LeftParen) {
            Err(
                ParserError::UnexpectedToken {
                    expected: String::from_str("= (only print can be called as a statement)"),
                    found: Found::Token(TokenKind::LeftParen),
                    span: self.current.span(),
                },
            )
        } else {
            Err(self.unexpected("= or ("))
        }
    }

    /// `while condition` and a block.
    fn parse_while(&mut self) -> (r: Result<Statement, ParserError>)
        requires
            old(self).wf(),
            !is_eof(old(self)@.cur),
        ensures
            final(self).wf(),
            r is Err ==> !(r->Err_0 is MissingToken),
            agrees(final(self)@, stmt_result(r), parse_while(old(self)@)),
            r is Ok ==> below(final(self)@, old(self)@),
        decreases rank_input(self@), rank_line(self@), rank_pending(self@), rank_stack(self@),
            rank_token(self@), 19int,
    {
        match self.advance() {
            Ok(_) => {},
            Err(e) => {
                return Err(e);
            },
        }
        let ghost s1 = self@;
        let condition = match self.parse_level(3) {
            Ok(e) => e,
            Err(x) => {
                return Err(x);
            },
        };
        proof {
            lemma_order(self@, s1, old(self)@);
        }
        let ghost s2 = self@;
        let body = match self.parse_block() {
            Ok(b) => b,
            Err(x) => {
                return Err(x);
            },
        };
        proof {
            lemma_order(self@, s2, old(self)@);
        }
        Ok(Statement::While { condition: Box::new(condition), body: Box::new(body) })
    }

    /// `for variable = start to end` and a block.
    fn parse_for(&mut self) -> (r: Result<Statement, ParserError>)
        requires
            old(self).wf(),
            !is_eof(old(self)@.cur),
        ensures
            final(self).wf(),
            r is Err ==> !(r->Err_0 is MissingToken),
            agrees(final(self)@, stmt_result(r), parse_for(old(self)@)),
            r is Ok ==> below(final(self)@, old(self)@),
        decreases rank_input(self@), rank_line(self@), rank_pending(self@), rank_stack(self@),
            rank_token(self@), 19int,
    {
        match self.advance() {
            Ok(_) => {},
            Err(e) => {
                return Err(e);
            },
        }
        let ghost s1 = self@;
        if !matches!(self.current.kind(), TokenKind::Identifier(_)) {
            return Err(self.unexpected("identifier"));
        }
        let variable = match self.advance() {
            Ok(t) => t.into_text(),
            Err(e) => {
                return Err(e);
            },
        };
        let ghost s2 = self@;
        match self.expect_token(TokenKind::Equals, "=") {
            Ok(_) => {},
            Err(e) => {
                return Err(e);
            },
        }
        proof {
            lemma_order(s2, s1, old(self)@);
            lemma_order(self@, s2, old(self)@);
        }
        let ghost s3 = self@;
        let start_value = match self.parse_level(3) {
            Ok(e) => e,
            Err(x) => {
                return Err(x);
            },
        };
        if !self.current_word_is("to") {
            return Err(self.unexpected("to"));
        }
        let ghost s4 = self@;
        match self.advance() {
            Ok(_) => {},
            Err(e) => {
                return Err(e);
            },
        }
        proof {
            lemma_order(s4, s3, old(self)@);
            lemma_order(self@, s4, old(self)@);
        }
        let ghost s5 = self@;
        let end_value = match self.parse_level(3) {
            Ok(e) => e,
            Err(x) => {
                return Err(x);
            },
        };
        proof {
            lemma_order(self@, s5, old(self)@);
        }
        let ghost s6 = self@;
        let body = match self.parse_block() {
            Ok(b) => b,
            Err(x) => {
                return Err(x);
            },
        };
        proof {
            lemma_order(self@, s6, old(self)@);
        }
        Ok(
            Statement::ForLoop {
                variable,
                start_value: Box::new(start_value),
                end_value: Box::new(end_value),
                body: Box::new(body),
            },
        )
    }

    /// `print(arguments)`.
    fn parse_print(&mut self) -> (r: Result<Statement, ParserError>)
        requires
            old(self).wf(),
            old(self)@.cur.kind == Tok::Identifier("print"@),
        ensures
            final(self).wf(),
            r is Err ==> !(r->Err_0 is MissingToken),
            agrees(final(self)@, stmt_result(r), parse_print(old(self)@)),
            r is Ok ==> below(final(self)@, old(self)@),
        decreases rank_input(self@), rank_line(self@), rank_pending(self@), rank_stack(self@),
            rank_token(self@), 19int,
    {
        let name = match self.advance() {
            Ok(t) => t.into_text(),
            Err(e) => {
                return Err(e);
            },
        };
        let ghost s1 = self@;
        match self.expect_token(TokenKind::LeftParen, "(") {
            Ok(_) => {},
            Err(e) => {
                return Err(e);
            },
        }
        proof {
            lemma_order(self@, s1, old(self)@);
        }
        let ghost s2 = self@;
        let arguments = match self.parse_arguments() {
            Ok(a) => a,
            Err(e) => {
                return Err(e);
            },
        };
        let ghost s3 = self@;
        match self.expect_token(TokenKind::RightParen, ")") {
            Ok(_) => {},
            Err(e) => {
                return Err(e);
            },
        }
        proof {
            lemma_order(s3, s2, old(self)@);
            lemma_order(self@, s3, old(self)@);
        }
        let ghost av = arguments@;
        let r = Statement::FunctionCall { name, arguments };
        proof {
            assert(stmt_view(r) == Stmt::FunctionCall("print"@, exprs_view(av)));
        }
        Ok(r)
    }

    /// Consumes the `Dedent` that returns to depth `h`, if it comes next.
    fn close_to(&mut self, h: usize) -> (r: Result<(), ParserError>)
        requires
            old(self).wf(),
        ensures
            final(self).wf(),
            match r {
                Ok(_) => close_to(old(self)@, h as int).1 is Ok && final(self)@ == close_to(
                    old(self)@,
                    h as int,
                ).0,
                Err(e) => close_to(old(self)@, h as int).1 == Err::<(), ParseFault>(e@),
            },
            r is Ok ==> not_above(final(self)@, old(self)@),
    {
        if matches!(self.current.kind(), TokenKind::Dedent(_)) && self.levels.len() >= 2
            && self.levels.len() - 2 == h {
            match self.advance() {
                Ok(_) => {},
                Err(e) => {
                    return Err(e);
                },
            }
            self.levels.pop();
        }
        Ok(())
    }

    /// `if condition`, a block, and optionally `else` and a block.
    fn parse_if(&mut self) -> (r: Result<Statement, ParserError>)
        requires
            old(self).wf(),
            !is_eof(old(self)@.cur),
        ensures
            final(self).wf(),
            r is Err ==> !(r->Err_0 is MissingToken),
            agrees(final(self)@, stmt_result(r), parse_if(old(self)@)),
            r is Ok ==> below(final(self)@, old(self)@),
        decreases rank_input(self@), rank_line(self@), rank_pending(self@), rank_stack(self@),
            rank_token(self@), 19int,
    {
        let h = self.levels.len() - 1;
        match self.advance() {
            Ok(_) => {},
            Err(e) => {
                return Err(e);
            },
        }
        let ghost s1 = self@;
        let condition = match self.parse_level(3) {
            Ok(e) => e,
            Err(x) => {
                return Err(x);
            },
        };
        proof {
            lemma_order(self@, s1, old(self)@);
        }
        let ghost s2 = self@;
        let then_branch = match self.parse_block() {
            Ok(b) => b,
            Err(x) => {
                return Err(x);
            },
        };
        proof {
            lemma_order(self@, s2, old(self)@);
        }
        let ghost s3 = self@;
        match self.close_to(h) {
            Ok(()) => {},
            Err(e) => {
                return Err(e);
            },
        }
        proof {
            lemma_order(self@, s3, old(self)@);
        }
        if !self.current_word_is("else") {
            return Ok(
                Statement::If {
                    condition: Box::new(condition),
                    then_branch: Box::new(then_branch),
                    else_branch: None,
                },
            );
        }
        let ghost s4 = self@;
        match self.advance() {
            Ok(_) => {},
            Err(e) => {
                return Err(e);
            },
        }
        proof {
            lemma_order(self@, s4, old(self)@);
        }
        let ghost s5 = self@;
        let else_branch = match self.parse_block() {
            Ok(b) => b,
            Err(x) => {
                return Err(x);
            },
        };
        proof {
            lemma_order(self@, s5, old(self)@);
        }
        Ok(
            Statement::If {
                condition: Box::new(condition),
                then_branch: Box::new(then_branch),
                else_branch: Some(Box::new(else_branch)),
            },
        )
    }

    /// Parses the whole program, up to `Eof`; the first failure ends it.
    pub fn parse_program(&mut self) -> (r: Result<Program, ParserError>)
        requires
            old(self).wf(),
        ensures
            final(self).wf(),
            r is Err ==> !(r->Err_0 is MissingToken),
            agrees(final(self)@, program_result(r), parse_program(old(self)@)),
    {
        match self.parse_statements(0, false) {
            Ok(statements) => Ok(Program { statements }),
            Err(e) => Err(e),
        }
    }
}

} // verus!
