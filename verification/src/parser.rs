//! Recursive-descent parser: token stream to `Program`.
//!
//! The grammar, the limit-configuration rules, the definition-time
//! parameter type inference, and every diagnostic are specified by the
//! `spec_parse_*` functions over the token sequence; [`Parser::parse_program`]
//! is proved to return exactly what [`spec_parse_program`] says.

use vstd::prelude::*;

use crate::ast::{
    Agent, Arg, DEFAULT_MAX_DEPTH, DEFAULT_MAX_MEMORY, DEFAULT_MAX_STEP, Definition, Directive,
    DirectiveValue, Expr, FuncDef, LimitConfig, MacroDef, NumAtom, NumOp, OnLimitBehavior, ParamType,
    Primitive, Program, SpecAgent, SpecArg, SpecDefinition, SpecExpr, SpecFuncDef, SpecMacroDef,
    SpecProgram, spec_expr_span, view_args, view_arg, view_exprs, view_expr, view_defs, view_agents,
};
use crate::error::{
    plain_parse_error, quoted, unexpected_token_error, ParseError, SpecError, SpecParseError,
};
use crate::lexer::{spec_tokenize, Lexer};
use crate::text::{dec_i64, dec_of_int};
use crate::token::{desc_of, DirectiveName, LimitWord, Span, Token, TokenKind};

verus! {

// ---------------------------------------------------------------------------
// Positions in the token stream
// ---------------------------------------------------------------------------

/// The token kind at position `p`, or `Eof` past the end.
pub open spec fn kind_at(ts: Seq<Token>, p: int) -> TokenKind {
    if 0 <= p < ts.len() {
        ts[p].kind
    } else {
        TokenKind::Eof
    }
}

/// The span at position `p`; past the end, the last token's span.
pub open spec fn span_at(ts: Seq<Token>, p: int) -> Span {
    if 0 <= p < ts.len() {
        ts[p].span
    } else if ts.len() > 0 {
        ts[ts.len() - 1].span
    } else {
        Span { start: 0, end: 0, line: 1, column: 1 }
    }
}

/// A span from the start of `a` to the end of `b`.
pub open spec fn merge_spans(a: Span, b: Span) -> Span {
    Span { start: a.start, end: b.end, line: a.line, column: a.column }
}

/// First position at or after `p` that is not a `Newline`.
pub open spec fn skip_newlines(ts: Seq<Token>, p: int) -> int
    decreases ts.len() - p,
{
    if 0 <= p < ts.len() && kind_at(ts, p) is Newline {
        skip_newlines(ts, p + 1)
    } else {
        p
    }
}

/// First position at or after `p` that is not a `Space`.
pub open spec fn skip_space(ts: Seq<Token>, p: int) -> int
    decreases ts.len() - p,
{
    if 0 <= p < ts.len() && kind_at(ts, p) is Space {
        skip_space(ts, p + 1)
    } else {
        p
    }
}

/// First position at or after `p` that is neither `Space` nor `Newline`.
pub open spec fn skip_ws(ts: Seq<Token>, p: int) -> int
    decreases ts.len() - p,
{
    if 0 <= p < ts.len() && (kind_at(ts, p) is Space || kind_at(ts, p) is Newline) {
        skip_ws(ts, p + 1)
    } else {
        p
    }
}

proof fn lemma_skip_newlines_bounds(ts: Seq<Token>, p: int)
    requires
        0 <= p <= ts.len(),
    ensures
        p <= skip_newlines(ts, p) <= ts.len(),
    decreases ts.len() - p,
{
    if p < ts.len() && kind_at(ts, p) is Newline {
        lemma_skip_newlines_bounds(ts, p + 1);
    }
}

proof fn lemma_skip_space_bounds(ts: Seq<Token>, p: int)
    requires
        0 <= p <= ts.len(),
    ensures
        p <= skip_space(ts, p) <= ts.len(),
    decreases ts.len() - p,
{
    if p < ts.len() && kind_at(ts, p) is Space {
        lemma_skip_space_bounds(ts, p + 1);
    }
}

proof fn lemma_skip_ws_bounds(ts: Seq<Token>, p: int)
    requires
        0 <= p <= ts.len(),
    ensures
        p <= skip_ws(ts, p) <= ts.len(),
    decreases ts.len() - p,
{
    if p < ts.len() && (kind_at(ts, p) is Space || kind_at(ts, p) is Newline) {
        lemma_skip_ws_bounds(ts, p + 1);
    }
}

/// The error used in spec branches that no run can reach (a sub-parse
/// returning an out-of-range position).
pub open spec fn unreachable_parse_error(ts: Seq<Token>, p: int) -> SpecParseError {
    plain_parse_error(Seq::<char>::empty(), span_at(ts, p))
}

// ---------------------------------------------------------------------------
// Directive messages
// ---------------------------------------------------------------------------

/// Message for a `MAX_STEP` value outside `1..=10_000_000`.
pub open spec fn msg_max_step_range(n: int) -> Seq<char> {
    "MAX_STEP value "@ + dec_of_int(n) + " out of range (1..10000000) (E009)"@
}

/// Message for a `MAX_STEP` directive with a non-numeric value.
pub open spec fn msg_max_step_type() -> Seq<char> {
    "MAX_STEP requires a numeric value (E009)"@
}

/// Message for a `MAX_DEPTH` value outside `1..=10_000`.
pub open spec fn msg_max_depth_range(n: int) -> Seq<char> {
    "MAX_DEPTH value "@ + dec_of_int(n) + " out of range (1..10000) (E009)"@
}

/// Message for a `MAX_DEPTH` directive with a non-numeric value.
pub open spec fn msg_max_depth_type() -> Seq<char> {
    "MAX_DEPTH requires a numeric value (E009)"@
}

/// Message for a `MAX_MEMORY` value outside `1..=10_000_000`.
pub open spec fn msg_max_memory_range(n: int) -> Seq<char> {
    "MAX_MEMORY value "@ + dec_of_int(n) + " out of range (1..10000000) (E009)"@
}

/// Message for a `MAX_MEMORY` directive with a non-numeric value.
pub open spec fn msg_max_memory_type() -> Seq<char> {
    "MAX_MEMORY requires a numeric value (E009)"@
}

/// Message for an `ON_LIMIT` word other than `ERROR`/`TRUNCATE`.
pub open spec fn msg_on_limit_invalid() -> Seq<char> {
    "ON_LIMIT value invalid, expected ERROR or TRUNCATE (E009)"@
}

/// Message for an `ON_LIMIT` directive with a numeric value.
pub open spec fn msg_on_limit_type() -> Seq<char> {
    "ON_LIMIT requires ERROR or TRUNCATE (E009)"@
}

/// Message for a directive name that is not recognised.
pub open spec fn msg_unknown_directive() -> Seq<char> {
    "Unknown directive (E009)"@
}

/// Message for a parameter used both as a command sequence and in a
/// numeric expression.
pub open spec fn msg_param_type_conflict(c: char) -> Seq<char> {
    "Parameter"@ + quoted(c) + " used as both command sequence and integer (E010)"@
}

// ---------------------------------------------------------------------------
// Directives and the limit configuration
// ---------------------------------------------------------------------------

/// Parses a directive value: a number, or a word such as `ERROR`.
pub open spec fn spec_parse_directive_value(ts: Seq<Token>, p: int) -> Result<(DirectiveValue, int), SpecParseError> {
    match kind_at(ts, p) {
        TokenKind::Number(n) => Ok((DirectiveValue::Number(n as i64), p + 1)),
        TokenKind::DirectiveValue(w) => Ok((DirectiveValue::Word(w), p + 1)),
        k => Err(unexpected_token_error("number or ERROR/TRUNCATE"@, desc_of(k), span_at(ts, p))),
    }
}

/// Parses the directive block at the start of the program: repeated lines
/// `NAME = VALUE`, with blank lines allowed between them.
pub open spec fn spec_parse_directives(ts: Seq<Token>, p: int) -> Result<(Seq<Directive>, int), SpecParseError>
    decreases ts.len() - p,
{
    let q = skip_newlines(ts, p);
    match kind_at(ts, q) {
        TokenKind::Directive(name) => {
            let start = span_at(ts, q);
            if !(kind_at(ts, q + 1) is Equals) {
                Err(unexpected_token_error("'='"@, desc_of(kind_at(ts, q + 1)), span_at(ts, q + 1)))
            } else {
                match spec_parse_directive_value(ts, q + 2) {
                    Err(e) => Err(e),
                    Ok((value, p2)) => {
                        let end = span_at(ts, p2);
                        let d = Directive { name: name, value: value, span: merge_spans(start, end) };
                        if kind_at(ts, p2) is Newline || kind_at(ts, p2) is Eof {
                            if p < p2 <= ts.len() {
                                match spec_parse_directives(ts, p2) {
                                    Ok((rest, p3)) => Ok((seq![d] + rest, p3)),
                                    Err(e) => Err(e),
                                }
                            } else {
                                Err(unreachable_parse_error(ts, p2))
                            }
                        } else {
                            Err(unexpected_token_error(
                                "newline or end of input"@,
                                desc_of(kind_at(ts, p2)),
                                span_at(ts, p2),
                            ))
                        }
                    },
                }
            }
        },
        _ => Ok((Seq::<Directive>::empty(), q)),
    }
}

/// Applies one directive to the limit configuration, validating its
/// value range and type.
pub open spec fn spec_apply_directive(c: LimitConfig, d: Directive) -> Result<LimitConfig, SpecParseError> {
    match d.name {
        DirectiveName::MaxStep => match d.value {
            DirectiveValue::Number(n) => if 1 <= n <= 10000000 {
                Ok(LimitConfig { max_step: n as usize, ..c })
            } else {
                Err(plain_parse_error(msg_max_step_range(n as int), d.span))
            },
            DirectiveValue::Word(_) => Err(plain_parse_error(msg_max_step_type(), d.span)),
        },
        DirectiveName::MaxDepth => match d.value {
            DirectiveValue::Number(n) => if 1 <= n <= 10000 {
                Ok(LimitConfig { max_depth: n as usize, ..c })
            } else {
                Err(plain_parse_error(msg_max_depth_range(n as int), d.span))
            },
            DirectiveValue::Word(_) => Err(plain_parse_error(msg_max_depth_type(), d.span)),
        },
        DirectiveName::MaxMemory => match d.value {
            DirectiveValue::Number(n) => if 1 <= n <= 10000000 {
                Ok(LimitConfig { max_memory: n as usize, ..c })
            } else {
                Err(plain_parse_error(msg_max_memory_range(n as int), d.span))
            },
            DirectiveValue::Word(_) => Err(plain_parse_error(msg_max_memory_type(), d.span)),
        },
        DirectiveName::OnLimit => match d.value {
            DirectiveValue::Word(w) => match w {
                LimitWord::Error => Ok(LimitConfig { on_limit: OnLimitBehavior::Error, ..c }),
                LimitWord::Truncate => Ok(LimitConfig { on_limit: OnLimitBehavior::Truncate, ..c }),
                LimitWord::Other => Err(plain_parse_error(msg_on_limit_invalid(), d.span)),
            },
            DirectiveValue::Number(_) => Err(plain_parse_error(msg_on_limit_type(), d.span)),
        },
        DirectiveName::Unknown => Err(plain_parse_error(msg_unknown_directive(), d.span)),
    }
}

/// Folds the directive list into a limit configuration, starting from
/// the defaults; the first invalid directive aborts.
pub open spec fn spec_build_limit_config(ds: Seq<Directive>) -> Result<LimitConfig, SpecParseError>
    decreases ds.len(),
{
    if ds.len() == 0 {
        Ok(LimitConfig {
            max_step: DEFAULT_MAX_STEP,
            max_depth: DEFAULT_MAX_DEPTH,
            max_memory: DEFAULT_MAX_MEMORY,
            on_limit: OnLimitBehavior::Error,
        })
    } else {
        match spec_build_limit_config(ds.drop_last()) {
            Ok(c) => spec_apply_directive(c, ds.last()),
            Err(e) => Err(e),
        }
    }
}

// ---------------------------------------------------------------------------
// Parameter type inference (definition time)
// ---------------------------------------------------------------------------

/// Whether parameter `c` occurs as a bare term in `e`.
pub open spec fn bare_use(e: SpecExpr, c: char) -> bool
    decreases e,
{
    match e {
        SpecExpr::Primitive(_, _) => false,
        SpecExpr::Param(p, _) => p == c,
        SpecExpr::FuncCall { args, .. } => bare_use_args(args, c),
        SpecExpr::Sequence(es) => bare_use_seq(es, c),
    }
}

/// Whether parameter `c` occurs as a bare term in any of `es`.
pub open spec fn bare_use_seq(es: Seq<SpecExpr>, c: char) -> bool
    decreases es,
{
    if es.len() == 0 {
        false
    } else {
        bare_use_seq(es.drop_last(), c) || bare_use(es.last(), c)
    }
}

/// Whether parameter `c` occurs as a bare term in any of `args`.
/// An argument that is exactly a bare parameter reference is neutral:
/// at a call it passes the binding through unchanged, whatever its type.
pub open spec fn bare_use_args(args: Seq<SpecArg>, c: char) -> bool
    decreases args,
{
    if args.len() == 0 {
        false
    } else {
        bare_use_args(args.drop_last(), c) || arg_bare_use(args.last(), c)
    }
}

/// Whether parameter `c` occurs as a bare term inside one argument.
pub open spec fn arg_bare_use(a: SpecArg, c: char) -> bool
    decreases a,
{
    match a {
        SpecArg::Command(e) => if e is Param {
            false
        } else {
            bare_use(e, c)
        },
        SpecArg::Number(_, _) => false,
        SpecArg::NumExpr { .. } => false,
    }
}

/// Whether parameter `c` occurs inside a numeric expression in `e`.
pub open spec fn num_use(e: SpecExpr, c: char) -> bool
    decreases e,
{
    match e {
        SpecExpr::Primitive(_, _) => false,
        SpecExpr::Param(_, _) => false,
        SpecExpr::FuncCall { args, .. } => num_use_args(args, c),
        SpecExpr::Sequence(es) => num_use_seq(es, c),
    }
}

/// Whether parameter `c` occurs inside a numeric expression in any of `es`.
pub open spec fn num_use_seq(es: Seq<SpecExpr>, c: char) -> bool
    decreases es,
{
    if es.len() == 0 {
        false
    } else {
        num_use_seq(es.drop_last(), c) || num_use(es.last(), c)
    }
}

/// Whether parameter `c` occurs inside a numeric expression in any of `args`.
pub open spec fn num_use_args(args: Seq<SpecArg>, c: char) -> bool
    decreases args,
{
    if args.len() == 0 {
        false
    } else {
        num_use_args(args.drop_last(), c) || arg_num_use(args.last(), c)
    }
}

/// Whether parameter `c` occurs inside a numeric expression in one argument.
pub open spec fn arg_num_use(a: SpecArg, c: char) -> bool
    decreases a,
{
    match a {
        SpecArg::Command(e) => num_use(e, c),
        SpecArg::Number(_, _) => false,
        SpecArg::NumExpr { first, rest, .. } => first == NumAtom::Param(c) || num_atom_use(
            rest,
            c,
        ),
    }
}

/// Whether parameter `c` occurs as an atom of `rest`.
pub open spec fn num_atom_use(rest: Seq<(NumOp, NumAtom)>, c: char) -> bool
    decreases rest,
{
    if rest.len() == 0 {
        false
    } else {
        num_atom_use(rest.drop_last(), c) || rest.last().1 == NumAtom::Param(c)
    }
}

/// Whether a parameter is used in both roles: fatal at definition time.
pub open spec fn param_conflict(body: SpecExpr, c: char) -> bool {
    bare_use(body, c) && num_use(body, c)
}

/// The index of the first parameter used in both roles, or `-1`.
pub open spec fn first_conflict(params: Seq<char>, body: SpecExpr, i: int) -> int
    decreases params.len() - i,
{
    if i < 0 || i >= params.len() {
        -1
    } else if param_conflict(body, params[i]) {
        i
    } else {
        first_conflict(params, body, i + 1)
    }
}

/// The inferred type of one parameter: `Int` when it occurs in a numeric
/// expression, `CmdSeq` otherwise.
pub open spec fn inferred_type(body: SpecExpr, c: char) -> ParamType {
    if num_use(body, c) {
        ParamType::Int
    } else {
        ParamType::CmdSeq
    }
}

/// The inferred types of all parameters, parallel to `params`.
pub open spec fn inferred_types(params: Seq<char>, body: SpecExpr) -> Seq<ParamType> {
    Seq::new(params.len(), |i: int| inferred_type(body, params[i]))
}

/// `first_conflict` yields `-1` or an index into the parameter list.
proof fn lemma_first_conflict_range(params: Seq<char>, body: SpecExpr, i: int)
    requires
        0 <= i,
    ensures
        first_conflict(params, body, i) == -1 || i <= first_conflict(params, body, i)
            < params.len(),
    decreases params.len() - i,
{
    if i < params.len() && !param_conflict(body, params[i]) {
        lemma_first_conflict_range(params, body, i + 1);
    }
}

/// If the conflict scan from `j` finds nothing, no parameter from `j`
/// on is used in both roles.
proof fn lemma_no_conflict_from(params: Seq<char>, body: SpecExpr, j: int)
    requires
        0 <= j,
        first_conflict(params, body, j) == -1,
    ensures
        forall|i: int| j <= i < params.len() ==> !param_conflict(body, #[trigger] params[i]),
    decreases params.len() - j,
{
    if j < params.len() {
        lemma_no_conflict_from(params, body, j + 1);
    }
}

/// Law: type-conflict rejection.  A function definition that parses
/// successfully has no parameter that is used both as a bare term and
/// inside a numeric expression: such a parameter is a definition-time
/// error, so no expansion ever sees a conflicting definition.
pub proof fn lemma_type_conflict_rejected(ts: Seq<Token>, p: int, fd: SpecFuncDef, p2: int)
    requires
        spec_parse_function_def(ts, p) == Ok::<_, SpecParseError>((fd, p2)),
    ensures
        forall|i: int| 0 <= i < fd.params.len() ==> !param_conflict(fd.body, #[trigger] fd.params[i]),
{
    match kind_at(ts, p) {
        TokenKind::Ident(_) => {
            let params_r: Result<(Seq<char>, int), SpecParseError> = if kind_at(ts, p + 2) is RParen {
                Ok((Seq::<char>::empty(), p + 2))
            } else if p + 2 <= ts.len() {
                spec_params_loop(ts, p + 2)
            } else {
                Err(unreachable_parse_error(ts, p))
            };
            match params_r {
                Ok((params, q)) => {
                    if p < q + 2 <= ts.len() {
                        match spec_parse_body(ts, q + 2) {
                            Ok((body, _)) => {
                                lemma_first_conflict_range(params, body, 0);
                                if first_conflict(params, body, 0) == -1 {
                                    lemma_no_conflict_from(params, body, 0);
                                }
                            },
                            Err(_) => {},
                        }
                    }
                },
                Err(_) => {},
            }
        },
        _ => {},
    }
}

// ---------------------------------------------------------------------------
// Expressions
// ---------------------------------------------------------------------------

/// Collapses a list of terms: none is the empty sequence, one is the
/// term itself, more make a sequence node.
pub open spec fn collapse_terms(terms: Seq<SpecExpr>) -> SpecExpr {
    if terms.len() == 0 {
        SpecExpr::Sequence(Seq::<SpecExpr>::empty())
    } else if terms.len() == 1 {
        terms[0]
    } else {
        SpecExpr::Sequence(terms)
    }
}

/// Whether the definition-shaped pattern `'(' PARAM (',' PARAM)* ')' ':'`
/// (with at most 20 tokens of lookahead) continues at offset `pos` from `p`.
pub open spec fn fd_scan(ts: Seq<Token>, p: int, pos: int) -> bool
    decreases 21 - pos,
{
    if pos > 20 {
        false
    } else {
        match kind_at(ts, p + pos) {
            TokenKind::Param(_) => fd_scan(ts, p, pos + 1),
            TokenKind::Comma => fd_scan(ts, p, pos + 1),
            TokenKind::RParen => kind_at(ts, p + pos + 1) is Colon,
            _ => false,
        }
    }
}

/// Whether a function definition (not a call) starts at `p`:
/// `IDENT '(' PARAM (',' PARAM)* ')' ':'`.
pub open spec fn spec_is_function_definition(ts: Seq<Token>, p: int) -> bool {
    kind_at(ts, p + 1) is LParen && fd_scan(ts, p, 2)
}

/// Parses one term: a primitive command, a parameter reference, a call
/// (a bare identifier is a zero-argument call), or a parenthesised group.
pub open spec fn spec_parse_term(ts: Seq<Token>, p: int) -> Result<(SpecExpr, int), SpecParseError>
    decreases ts.len() - p, 3int,
{
    let span = span_at(ts, p);
    match kind_at(ts, p) {
        TokenKind::Straight => Ok((SpecExpr::Primitive(Primitive::Straight, span), p + 1)),
        TokenKind::Right => Ok((SpecExpr::Primitive(Primitive::Right, span), p + 1)),
        TokenKind::Left => Ok((SpecExpr::Primitive(Primitive::Left, span), p + 1)),
        TokenKind::Ident(name) => if kind_at(ts, p + 1) is LParen {
            spec_parse_function_call(ts, p)
        } else {
            Ok((SpecExpr::FuncCall { name: name, args: Seq::<SpecArg>::empty(), span: span }, p + 1))
        },
        TokenKind::Param(name) => Ok((SpecExpr::Param(name, span), p + 1)),
        TokenKind::LParen => if p + 1 <= ts.len() {
            match spec_parse_expression_until(ts, p + 1) {
                Ok((e, p2)) => if kind_at(ts, p2) is RParen {
                    Ok((e, p2 + 1))
                } else {
                    Err(unexpected_token_error("')'"@, desc_of(kind_at(ts, p2)), span_at(ts, p2)))
                },
                Err(e) => Err(e),
            }
        } else {
            Err(unreachable_parse_error(ts, p))
        },
        k => Err(unexpected_token_error("'s', 'r', 'l', identifier, or '('"@, desc_of(k), span)),
    }
}

/// Parses a call `name '(' args ')'` starting at the identifier.
pub open spec fn spec_parse_function_call(ts: Seq<Token>, p: int) -> Result<(SpecExpr, int), SpecParseError>
    decreases ts.len() - p, 2int,
{
    match kind_at(ts, p) {
        TokenKind::Ident(name) => {
            let start = span_at(ts, p);
            if !(kind_at(ts, p + 1) is LParen) {
                Err(unexpected_token_error("'('"@, desc_of(kind_at(ts, p + 1)), span_at(ts, p + 1)))
            } else if p + 2 <= ts.len() {
                match spec_parse_function_args(ts, p + 2) {
                    Ok((args, p2)) => {
                        let end = span_at(ts, p2);
                        if kind_at(ts, p2) is RParen {
                            Ok((SpecExpr::FuncCall { name: name, args: args, span: merge_spans(start, end) }, p2 + 1))
                        } else {
                            Err(unexpected_token_error("')'"@, desc_of(kind_at(ts, p2)), span_at(ts, p2)))
                        }
                    },
                    Err(e) => Err(e),
                }
            } else {
                Err(unreachable_parse_error(ts, p))
            }
        },
        _ => Err(unreachable_parse_error(ts, p)),
    }
}

/// Parses a comma-separated argument list (possibly empty).
pub open spec fn spec_parse_function_args(ts: Seq<Token>, p: int) -> Result<(Seq<SpecArg>, int), SpecParseError>
    decreases ts.len() - p, 8int,
{
    if kind_at(ts, p) is RParen {
        Ok((Seq::<SpecArg>::empty(), p))
    } else {
        spec_parse_args_loop(ts, p)
    }
}

/// Parses one or more arguments separated by commas.
pub open spec fn spec_parse_args_loop(ts: Seq<Token>, p: int) -> Result<(Seq<SpecArg>, int), SpecParseError>
    decreases ts.len() - p, 7int,
{
    match spec_parse_function_arg(ts, p) {
        Err(e) => Err(e),
        Ok((a, p2)) => if kind_at(ts, p2) is Comma {
            if p < p2 + 1 <= ts.len() {
                match spec_parse_args_loop(ts, p2 + 1) {
                    Ok((rest, p3)) => Ok((seq![a] + rest, p3)),
                    Err(e) => Err(e),
                }
            } else {
                Err(unreachable_parse_error(ts, p2))
            }
        } else {
            Ok((seq![a], p2))
        },
    }
}

/// Parses one argument: a (possibly signed) number, a numeric
/// expression, a bare parameter, or a command expression.
pub open spec fn spec_parse_function_arg(ts: Seq<Token>, p: int) -> Result<(SpecArg, int), SpecParseError>
    decreases ts.len() - p, 6int,
{
    let span = span_at(ts, p);
    match kind_at(ts, p) {
        TokenKind::Minus => match kind_at(ts, p + 1) {
            TokenKind::Number(n) => {
                let nspan = span_at(ts, p + 1);
                let v = if n > 0 {
                    (-n) as i32
                } else {
                    n
                };
                if kind_at(ts, p + 2) is Plus || kind_at(ts, p + 2) is Minus {
                    spec_parse_numexpr(ts, p + 2, NumAtom::Number(v), span)
                } else {
                    Ok((SpecArg::Number(v, merge_spans(span, nspan)), p + 2))
                }
            },
            k => Err(unexpected_token_error("number after '-'"@, desc_of(k), span_at(ts, p + 1))),
        },
        TokenKind::Number(n) => if kind_at(ts, p + 1) is Plus || kind_at(ts, p + 1) is Minus {
            spec_parse_numexpr(ts, p + 1, NumAtom::Number(n), span)
        } else {
            Ok((SpecArg::Number(n, span), p + 1))
        },
        TokenKind::Param(c) => if kind_at(ts, p + 1) is Plus || kind_at(ts, p + 1) is Minus {
            spec_parse_numexpr(ts, p + 1, NumAtom::Param(c), span)
        } else {
            match spec_parse_arg_expression(ts, p) {
                Ok((e, p2)) => Ok((SpecArg::Command(e), p2)),
                Err(e) => Err(e),
            }
        },
        _ => match spec_parse_arg_expression(ts, p) {
            Ok((e, p2)) => Ok((SpecArg::Command(e), p2)),
            Err(e) => Err(e),
        },
    }
}

/// Parses the `(op atom)+` tail of a numeric expression that starts at
/// the first operator (position `p`), producing the whole argument.
pub open spec fn spec_parse_numexpr(ts: Seq<Token>, p: int, first: NumAtom, start: Span) -> Result<(SpecArg, int), SpecParseError>
    decreases ts.len() - p, 5int,
{
    match spec_numexpr_rest(ts, p, start) {
        Ok((rest, end, p2)) => Ok((SpecArg::NumExpr { first: first, rest: rest, span: merge_spans(start, end) }, p2)),
        Err(e) => Err(e),
    }
}

/// Collects `(op atom)` steps while an operator follows; `prev` is the
/// span of the last atom seen so far.
pub open spec fn spec_numexpr_rest(ts: Seq<Token>, p: int, prev: Span) -> Result<(Seq<(NumOp, NumAtom)>, Span, int), SpecParseError>
    decreases ts.len() - p, 4int,
{
    let k = kind_at(ts, p);
    if k is Plus || k is Minus {
        let op = if k is Plus {
            NumOp::Add
        } else {
            NumOp::Sub
        };
        let atom = match kind_at(ts, p + 1) {
            TokenKind::Number(n) => Some(NumAtom::Number(n)),
            TokenKind::Param(c) => Some(NumAtom::Param(c)),
            _ => None,
        };
        match atom {
            Some(a) => {
                let aspan = span_at(ts, p + 1);
                if p + 2 <= ts.len() {
                    match spec_numexpr_rest(ts, p + 2, aspan) {
                        Ok((rest, end, p3)) => Ok((seq![(op, a)] + rest, end, p3)),
                        Err(e) => Err(e),
                    }
                } else {
                    Err(unreachable_parse_error(ts, p))
                }
            },
            None => Err(unexpected_token_error(
                "number or parameter"@,
                desc_of(kind_at(ts, p + 1)),
                span_at(ts, p + 1),
            )),
        }
    } else {
        Ok((Seq::<(NumOp, NumAtom)>::empty(), prev, p))
    }
}

/// Collects the terms of a command-expression argument, which runs to
/// the next `,`, `)`, or end of line.
pub open spec fn spec_arg_expr_loop(ts: Seq<Token>, p: int) -> Result<(Seq<SpecExpr>, int), SpecParseError>
    decreases ts.len() - p, 4int,
{
    let k = kind_at(ts, p);
    if k is RParen || k is Comma || k is Newline || k is Eof {
        Ok((Seq::<SpecExpr>::empty(), p))
    } else {
        match spec_parse_term(ts, p) {
            Ok((t, p2)) => if p < p2 <= ts.len() {
                match spec_arg_expr_loop(ts, p2) {
                    Ok((rest, p3)) => Ok((seq![t] + rest, p3)),
                    Err(e) => Err(e),
                }
            } else {
                Err(unreachable_parse_error(ts, p2))
            },
            Err(e) => Err(e),
        }
    }
}

/// Parses a command-expression argument.
pub open spec fn spec_parse_arg_expression(ts: Seq<Token>, p: int) -> Result<(SpecExpr, int), SpecParseError>
    decreases ts.len() - p, 5int,
{
    match spec_arg_expr_loop(ts, p) {
        Ok((terms, p2)) => Ok((collapse_terms(terms), p2)),
        Err(e) => Err(e),
    }
}

/// Collects the terms of a parenthesised group, which runs to the
/// closing `)` or end of line, skipping spaces between terms.
pub open spec fn spec_until_loop(ts: Seq<Token>, p: int) -> Result<(Seq<SpecExpr>, int), SpecParseError>
    decreases ts.len() - p, 4int,
{
    let k = kind_at(ts, p);
    if k is RParen || k is Newline || k is Eof {
        Ok((Seq::<SpecExpr>::empty(), p))
    } else {
        let q = skip_space(ts, p);
        let kq = kind_at(ts, q);
        if kq is RParen || kq is Newline || kq is Eof {
            Ok((Seq::<SpecExpr>::empty(), q))
        } else if p <= q <= ts.len() {
            match spec_parse_term(ts, q) {
                Ok((t, p2)) => if q < p2 <= ts.len() {
                    match spec_until_loop(ts, p2) {
                        Ok((rest, p3)) => Ok((seq![t] + rest, p3)),
                        Err(e) => Err(e),
                    }
                } else {
                    Err(unreachable_parse_error(ts, p2))
                },
                Err(e) => Err(e),
            }
        } else {
            Err(unreachable_parse_error(ts, p))
        }
    }
}

/// Parses the inside of a parenthesised group.
pub open spec fn spec_parse_expression_until(ts: Seq<Token>, p: int) -> Result<(SpecExpr, int), SpecParseError>
    decreases ts.len() - p, 5int,
{
    match spec_until_loop(ts, p) {
        Ok((terms, p2)) => Ok((collapse_terms(terms), p2)),
        Err(e) => Err(e),
    }
}

// ---------------------------------------------------------------------------
// Definitions
// ---------------------------------------------------------------------------

/// Collects the terms of a definition body, which ends at a space, the
/// end of the line, or the start of another definition.
pub open spec fn spec_body_loop(ts: Seq<Token>, p: int) -> Result<(Seq<SpecExpr>, int), SpecParseError>
    decreases ts.len() - p, 4int,
{
    let k = kind_at(ts, p);
    if k is Newline || k is Eof || k is Space {
        Ok((Seq::<SpecExpr>::empty(), p))
    } else if (k matches TokenKind::Ident(_)) && (kind_at(ts, p + 1) is Colon
        || spec_is_function_definition(ts, p)) {
        Ok((Seq::<SpecExpr>::empty(), p))
    } else {
        match spec_parse_term(ts, p) {
            Ok((t, p2)) => if p < p2 <= ts.len() {
                match spec_body_loop(ts, p2) {
                    Ok((rest, p3)) => Ok((seq![t] + rest, p3)),
                    Err(e) => Err(e),
                }
            } else {
                Err(unreachable_parse_error(ts, p2))
            },
            Err(e) => Err(e),
        }
    }
}

/// Parses a definition body.
pub open spec fn spec_parse_body(ts: Seq<Token>, p: int) -> Result<(SpecExpr, int), SpecParseError>
    decreases ts.len() - p, 5int,
{
    match spec_body_loop(ts, p) {
        Ok((terms, p2)) => Ok((collapse_terms(terms), p2)),
        Err(e) => Err(e),
    }
}

/// Parses a macro definition `name ':' body` starting at the identifier.
pub open spec fn spec_parse_macro_def(ts: Seq<Token>, p: int) -> Result<(SpecMacroDef, int), SpecParseError>
    decreases ts.len() - p, 6int,
{
    match kind_at(ts, p) {
        TokenKind::Ident(name) => {
            let start = span_at(ts, p);
            if !(kind_at(ts, p + 1) is Colon) {
                Err(unexpected_token_error("':'"@, desc_of(kind_at(ts, p + 1)), span_at(ts, p + 1)))
            } else if p + 2 <= ts.len() {
                match spec_parse_body(ts, p + 2) {
                    Ok((body, p2)) => Ok((SpecMacroDef {
                        name: name,
                        body: body,
                        span: Span {
                            start: start.start,
                            end: spec_expr_span(body).end,
                            line: start.line,
                            column: start.column,
                        },
                    }, p2)),
                    Err(e) => Err(e),
                }
            } else {
                Err(unreachable_parse_error(ts, p))
            }
        },
        _ => Err(unreachable_parse_error(ts, p)),
    }
}

/// Parses the parameter list `PARAM (',' PARAM)*`.
pub open spec fn spec_params_loop(ts: Seq<Token>, p: int) -> Result<(Seq<char>, int), SpecParseError>
    decreases ts.len() - p,
{
    match kind_at(ts, p) {
        TokenKind::Param(c) => if kind_at(ts, p + 1) is Comma {
            if p + 2 <= ts.len() {
                match spec_params_loop(ts, p + 2) {
                    Ok((rest, p2)) => Ok((seq![c] + rest, p2)),
                    Err(e) => Err(e),
                }
            } else {
                Err(unreachable_parse_error(ts, p))
            }
        } else {
            Ok((seq![c], p + 1))
        },
        k => Err(unexpected_token_error(
            "parameter (uppercase letter)"@,
            desc_of(k),
            span_at(ts, p),
        )),
    }
}

/// Parses a function definition `name '(' params ')' ':' body` starting
/// at the identifier, and infers each parameter's type from its role in
/// the body; a parameter used in both roles is fatal.
pub open spec fn spec_parse_function_def(ts: Seq<Token>, p: int) -> Result<(SpecFuncDef, int), SpecParseError>
    decreases ts.len() - p, 6int,
{
    match kind_at(ts, p) {
        TokenKind::Ident(name) => {
            let start = span_at(ts, p);
            if !(kind_at(ts, p + 1) is LParen) {
                Err(unexpected_token_error("'('"@, desc_of(kind_at(ts, p + 1)), span_at(ts, p + 1)))
            } else {
                let params_r: Result<(Seq<char>, int), SpecParseError> = if kind_at(ts, p + 2) is RParen {
                    Ok((Seq::<char>::empty(), p + 2))
                } else if p + 2 <= ts.len() {
                    spec_params_loop(ts, p + 2)
                } else {
                    Err(unreachable_parse_error(ts, p))
                };
                match params_r {
                    Err(e) => Err(e),
                    Ok((params, p2)) => if !(kind_at(ts, p2) is RParen) {
                        Err(unexpected_token_error("')'"@, desc_of(kind_at(ts, p2)), span_at(ts, p2)))
                    } else if !(kind_at(ts, p2 + 1) is Colon) {
                        Err(unexpected_token_error(
                            "':'"@,
                            desc_of(kind_at(ts, p2 + 1)),
                            span_at(ts, p2 + 1),
                        ))
                    } else if p < p2 + 2 <= ts.len() {
                        match spec_parse_body(ts, p2 + 2) {
                            Ok((body, p3)) => {
                                let ci = first_conflict(params, body, 0);
                                if ci >= 0 {
                                    Err(plain_parse_error(
                                        msg_param_type_conflict(params[ci]),
                                        start,
                                    ))
                                } else {
                                    Ok((SpecFuncDef {
                                        name: name,
                                        params: params,
                                        param_types: inferred_types(params, body),
                                        body: body,
                                        span: Span {
                                            start: start.start,
                                            end: spec_expr_span(body).end,
                                            line: start.line,
                                            column: start.column,
                                        },
                                    }, p3))
                                }
                            },
                            Err(e) => Err(e),
                        }
                    } else {
                        Err(unreachable_parse_error(ts, p2))
                    },
                }
            }
        },
        _ => Err(unreachable_parse_error(ts, p)),
    }
}

/// Tries to parse a definition at `p`; `None` leaves the position
/// unchanged (the tokens form a term or a call instead).
pub open spec fn spec_try_parse_definition(ts: Seq<Token>, p: int) -> Result<(Option<SpecDefinition>, int), SpecParseError>
    decreases ts.len() - p, 7int,
{
    match kind_at(ts, p) {
        TokenKind::Ident(_) => {
            if kind_at(ts, p + 1) is Colon {
                match spec_parse_macro_def(ts, p) {
                    Ok((m, p2)) => Ok((Some(SpecDefinition::Macro(m)), p2)),
                    Err(e) => Err(e),
                }
            } else if kind_at(ts, p + 1) is LParen && spec_is_function_definition(ts, p) {
                match spec_parse_function_def(ts, p) {
                    Ok((f, p2)) => Ok((Some(SpecDefinition::Function(f)), p2)),
                    Err(e) => Err(e),
                }
            } else {
                Ok((None, p))
            }
        },
        _ => Ok((None, p)),
    }
}

// ---------------------------------------------------------------------------
// Statement lists, agents, and the whole program
// ---------------------------------------------------------------------------

/// Collects definitions and root-expression terms until the next agent
/// header or the end of input, skipping whitespace and newlines.
pub open spec fn spec_stmt_loop(ts: Seq<Token>, p: int) -> Result<((Seq<SpecDefinition>, Seq<SpecExpr>), int), SpecParseError>
    decreases ts.len() - p, 8int,
{
    let q = skip_ws(ts, p);
    if kind_at(ts, q) is Eof || (kind_at(ts, q) matches TokenKind::AgentId(_)) {
        Ok(((Seq::<SpecDefinition>::empty(), Seq::<SpecExpr>::empty()), q))
    } else if p <= q <= ts.len() {
        match spec_try_parse_definition(ts, q) {
            Err(e) => Err(e),
            Ok((Some(d), p2)) => if q < p2 <= ts.len() {
                match spec_stmt_loop(ts, p2) {
                    Ok(((defs, terms), p3)) => Ok(((seq![d] + defs, terms), p3)),
                    Err(e) => Err(e),
                }
            } else {
                Err(unreachable_parse_error(ts, p2))
            },
            Ok((None, _)) => match spec_parse_term(ts, q) {
                Ok((t, p2)) => if q < p2 <= ts.len() {
                    match spec_stmt_loop(ts, p2) {
                        Ok(((defs, terms), p3)) => Ok(((defs, seq![t] + terms), p3)),
                        Err(e) => Err(e),
                    }
                } else {
                    Err(unreachable_parse_error(ts, p2))
                },
                Err(e) => Err(e),
            },
        }
    } else {
        Err(unreachable_parse_error(ts, p))
    }
}

/// Parses a statement list: the definitions and the collapsed root
/// expression.
pub open spec fn spec_parse_statement_list(ts: Seq<Token>, p: int) -> Result<((Seq<SpecDefinition>, SpecExpr), int), SpecParseError>
    decreases ts.len() - p, 9int,
{
    match spec_stmt_loop(ts, p) {
        Ok(((defs, terms), p2)) => Ok(((defs, collapse_terms(terms)), p2)),
        Err(e) => Err(e),
    }
}

/// Parses one agent block `id ':' statement-list`, which runs to the
/// next agent header or the end of input.
pub open spec fn spec_parse_agent(ts: Seq<Token>, p: int) -> Result<(SpecAgent, int), SpecParseError>
    decreases ts.len() - p, 10int,
{
    match kind_at(ts, p) {
        TokenKind::AgentId(id) => {
            let start = span_at(ts, p);
            if !(kind_at(ts, p + 1) is Colon) {
                Err(unexpected_token_error("':'"@, desc_of(kind_at(ts, p + 1)), span_at(ts, p + 1)))
            } else {
                let q = skip_space(ts, p + 2);
                if p < q <= ts.len() {
                    match spec_parse_statement_list(ts, q) {
                        Ok(((defs, expr), p2)) => Ok((SpecAgent {
                            id: id,
                            definitions: defs,
                            expression: expr,
                            span: merge_spans(start, span_at(ts, p2)),
                        }, p2)),
                        Err(e) => Err(e),
                    }
                } else {
                    Err(unreachable_parse_error(ts, p))
                }
            }
        },
        k => Err(unexpected_token_error("agent ID"@, desc_of(k), span_at(ts, p))),
    }
}

/// Parses agent blocks until the end of input.
pub open spec fn spec_agents_loop(ts: Seq<Token>, p: int) -> Result<(Seq<SpecAgent>, int), SpecParseError>
    decreases ts.len() - p, 11int,
{
    if kind_at(ts, p) is Eof {
        Ok((Seq::<SpecAgent>::empty(), p))
    } else {
        match spec_parse_agent(ts, p) {
            Ok((a, p2)) => {
                let q = skip_newlines(ts, p2);
                if p < q <= ts.len() {
                    match spec_agents_loop(ts, q) {
                        Ok((rest, p3)) => Ok((seq![a] + rest, p3)),
                        Err(e) => Err(e),
                    }
                } else {
                    Err(unreachable_parse_error(ts, p2))
                }
            },
            Err(e) => Err(e),
        }
    }
}

/// Parses a whole program: the directive block and its limit
/// configuration, then either explicit agent blocks or one implicit
/// agent `0`.  This is the specification of [`Parser::parse_program`].
pub open spec fn spec_parse_program(ts: Seq<Token>) -> Result<SpecProgram, SpecParseError> {
    let p1 = skip_newlines(ts, 0);
    if !(0 <= p1 <= ts.len()) {
        Err(unreachable_parse_error(ts, 0))
    } else {
        match spec_parse_directives(ts, p1) {
            Err(e) => Err(e),
            Ok((ds, p2)) => match spec_build_limit_config(ds) {
                Err(e) => Err(e),
                Ok(limits) => {
                    let p3 = skip_newlines(ts, p2);
                    if !(0 <= p3 <= ts.len()) {
                        Err(unreachable_parse_error(ts, p2))
                    } else if kind_at(ts, p3) is Eof {
                        Ok(SpecProgram { directives: ds, limits: limits, agents: Seq::<SpecAgent>::empty() })
                    } else if kind_at(ts, p3) matches TokenKind::AgentId(_) {
                        match spec_agents_loop(ts, p3) {
                            Ok((agents, _)) => Ok(SpecProgram { directives: ds, limits: limits, agents: agents }),
                            Err(e) => Err(e),
                        }
                    } else {
                        let start = span_at(ts, p3);
                        match spec_parse_statement_list(ts, p3) {
                            Ok(((defs, expr), p4)) => Ok(SpecProgram {
                                directives: ds,
                                limits: limits,
                                agents: seq![SpecAgent {
                                    id: 0,
                                    definitions: defs,
                                    expression: expr,
                                    span: merge_spans(start, span_at(ts, p4)),
                                }],
                            }),
                            Err(e) => Err(e),
                        }
                    }
                },
            },
        }
    }
}

// ---------------------------------------------------------------------------
// The executable parser
// ---------------------------------------------------------------------------

/// The view of a lexer error when the parser reports it.
pub open spec fn lex_to_parse_error(e: SpecError) -> SpecParseError {
    SpecParseError { msg: e.msg, line: e.line, col: e.col, expected: None, found: None }
}

/// Recursive-descent parser over the token stream of one source text.
pub struct Parser {
    /// The token stream, ending with `Eof`.
    tokens: Vec<Token>,
    /// Index of the next token.
    i: usize,
}

impl Parser {
    /// The tokens this parser reads.
    pub closed spec fn toks(&self) -> Seq<Token> {
        self.tokens@
    }

    /// The current position.
    pub closed spec fn pos(&self) -> int {
        self.i as int
    }

    /// Well-formedness: the position is in bounds.
    pub closed spec fn wf(&self) -> bool {
        self.i <= self.tokens@.len()
    }

    /// Creates a parser for the given input by tokenizing it; a lexical
    /// error is reported as a parse error at its position.
    pub fn new(input: &str) -> (r: Result<Parser, ParseError>)
        ensures
            r matches Ok(p) ==> {
                &&& p.wf()
                &&& p.pos() == 0
                &&& spec_tokenize(input@) == Ok::<_, SpecError>(p.toks())
            },
            r matches Err(e) ==> (spec_tokenize(input@) matches Err(le) && e@ == lex_to_parse_error(
                le,
            )),
    {
        let mut lx = Lexer::new(input);
        match lx.tokenize() {
            Ok(ts) => Ok(Parser { tokens: ts, i: 0 }),
            Err(e) => {
                let sp = Span { start: 0, end: 0, line: e.line, column: e.column };
                Err(ParseError::new_owned(e.message, sp))
            },
        }
    }

    /// The token kind `off` tokens ahead (`Eof` past the end).
    fn peek_kind(&self, off: usize) -> (k: TokenKind)
        requires
            self.wf(),
        ensures
            k == kind_at(self.toks(), self.pos() + off),
    {
        let n = self.tokens.len();
        if off < n - self.i {
            self.tokens[self.i + off].kind
        } else {
            TokenKind::Eof
        }
    }

    /// The span `off` tokens ahead (the last token's past the end).
    fn span_of(&self, off: usize) -> (s: Span)
        requires
            self.wf(),
        ensures
            s == span_at(self.toks(), self.pos() + off),
    {
        let n = self.tokens.len();
        if off < n - self.i {
            self.tokens[self.i + off].span
        } else if n > 0 {
            self.tokens[n - 1].span
        } else {
            Span { start: 0, end: 0, line: 1, column: 1 }
        }
    }

    /// Advances by `n` tokens.
    fn bump(&mut self, n: usize)
        requires
            old(self).wf(),
            old(self).pos() + n <= old(self).toks().len(),
        ensures
            final(self).wf(),
            final(self).toks() == old(self).toks(),
            final(self).pos() == old(self).pos() + n,
    {
        let len = self.tokens.len();
        proof {
            assert(self.i + n <= len);
        }
        self.i = self.i + n;
    }

    /// Skips `Newline` tokens.
    fn do_skip_newlines(&mut self)
        requires
            old(self).wf(),
        ensures
            final(self).wf(),
            final(self).toks() == old(self).toks(),
            final(self).pos() == skip_newlines(old(self).toks(), old(self).pos()),
    {
        let ghost ts = self.tokens@;
        let ghost p0 = self.pos();
        let mut go = true;
        while go
            invariant
                self.wf(),
                self.toks() == ts,
                ts == old(self).toks(),
                p0 == old(self).pos(),
                skip_newlines(ts, p0) == skip_newlines(ts, self.pos()),
                !go ==> self.pos() == skip_newlines(ts, p0),
            decreases ts.len() - self.pos() + (if go { 1int } else { 0int }),
        {
            if matches!(self.peek_kind(0), TokenKind::Newline) {
                self.bump(1);
            } else {
                go = false;
            }
        }
    }

    /// Skips `Space` tokens.
    fn do_skip_space(&mut self)
        requires
            old(self).wf(),
        ensures
            final(self).wf(),
            final(self).toks() == old(self).toks(),
            final(self).pos() == skip_space(old(self).toks(), old(self).pos()),
    {
        let ghost ts = self.tokens@;
        let ghost p0 = self.pos();
        let mut go = true;
        while go
            invariant
                self.wf(),
                self.toks() == ts,
                ts == old(self).toks(),
                p0 == old(self).pos(),
                skip_space(ts, p0) == skip_space(ts, self.pos()),
                !go ==> self.pos() == skip_space(ts, p0),
            decreases ts.len() - self.pos() + (if go { 1int } else { 0int }),
        {
            if matches!(self.peek_kind(0), TokenKind::Space) {
                self.bump(1);
            } else {
                go = false;
            }
        }
    }

    /// Skips `Space` and `Newline` tokens.
    fn do_skip_ws(&mut self)
        requires
            old(self).wf(),
        ensures
            final(self).wf(),
            final(self).toks() == old(self).toks(),
            final(self).pos() == skip_ws(old(self).toks(), old(self).pos()),
    {
        let ghost ts = self.tokens@;
        let ghost p0 = self.pos();
        let mut go = true;
        while go
            invariant
                self.wf(),
                self.toks() == ts,
                ts == old(self).toks(),
                p0 == old(self).pos(),
                skip_ws(ts, p0) == skip_ws(ts, self.pos()),
                !go ==> self.pos() == skip_ws(ts, p0),
            decreases ts.len() - self.pos() + (if go { 1int } else { 0int }),
        {
            if matches!(self.peek_kind(0), TokenKind::Space | TokenKind::Newline) {
                self.bump(1);
            } else {
                go = false;
            }
        }
    }

    /// Parses one directive value.
    fn parse_directive_value(&mut self) -> (r: Result<DirectiveValue, ParseError>)
        requires
            old(self).wf(),
        ensures
            final(self).wf(),
            final(self).toks() == old(self).toks(),
            old(self).pos() <= final(self).pos() <= old(self).toks().len(),
            r matches Ok(v) ==> spec_parse_directive_value(old(self).toks(), old(self).pos())
                == Ok::<_, SpecParseError>((v, final(self).pos())),
            r matches Err(e) ==> spec_parse_directive_value(old(self).toks(), old(self).pos())
                == Err::<(DirectiveValue, int), _>(e@),
    {
        match self.peek_kind(0) {
            TokenKind::Number(n) => {
                self.bump(1);
                Ok(DirectiveValue::Number(n as i64))
            },
            TokenKind::DirectiveValue(w) => {
                self.bump(1);
                Ok(DirectiveValue::Word(w))
            },
            k => Err(ParseError::unexpected_token(
                "number or ERROR/TRUNCATE",
                k.description(),
                self.span_of(0),
            )),
        }
    }

    /// Parses the directive block.
    fn parse_directives(&mut self) -> (r: Result<Vec<Directive>, ParseError>)
        requires
            old(self).wf(),
        ensures
            final(self).wf(),
            final(self).toks() == old(self).toks(),
            old(self).pos() <= final(self).pos() <= old(self).toks().len(),
            r matches Ok(v) ==> spec_parse_directives(old(self).toks(), old(self).pos())
                == Ok::<_, SpecParseError>((v@, final(self).pos())),
            r matches Err(e) ==> spec_parse_directives(old(self).toks(), old(self).pos())
                == Err::<(Seq<Directive>, int), _>(e@),
        decreases old(self).toks().len() - old(self).pos(),
    {
        let ghost ts = self.tokens@;
        let ghost p0 = self.pos();
        self.do_skip_newlines();
        proof {
            lemma_skip_newlines_bounds(ts, p0);
        }
        match self.peek_kind(0) {
            TokenKind::Directive(name) => {
                let start = self.span_of(0);
                if !matches!(self.peek_kind(1), TokenKind::Equals) {
                    return Err(ParseError::unexpected_token(
                        "'='",
                        self.peek_kind(1).description(),
                        self.span_of(1),
                    ));
                }
                self.bump(2);
                match self.parse_directive_value() {
                    Err(e) => Err(e),
                    Ok(value) => {
                        let end = self.span_of(0);
                        let d = Directive {
                            name,
                            value,
                            span: Span {
                                start: start.start,
                                end: end.end,
                                line: start.line,
                                column: start.column,
                            },
                        };
                        let next = self.peek_kind(0);
                        if matches!(next, TokenKind::Newline | TokenKind::Eof) {
                            match self.parse_directives() {
                                Ok(mut rest) => {
                                    let ghost r0 = rest@;
                                    rest.insert(0, d);
                                    proof {
                                        assert(rest@ =~= seq![d] + r0);
                                    }
                                    Ok(rest)
                                },
                                Err(e) => Err(e),
                            }
                        } else {
                            Err(ParseError::unexpected_token(
                                "newline or end of input",
                                next.description(),
                                self.span_of(0),
                            ))
                        }
                    },
                }
            },
            _ => {
                let v: Vec<Directive> = Vec::new();
                proof {
                    assert(v@ =~= Seq::<Directive>::empty());
                }
                Ok(v)
            },
        }
    }

    /// Folds the parsed directives into the limit configuration.
    fn build_limit_config(directives: &Vec<Directive>) -> (r: Result<LimitConfig, ParseError>)
        ensures
            r matches Ok(c) ==> spec_build_limit_config(directives@) == Ok::<_, SpecParseError>(c),
            r matches Err(e) ==> spec_build_limit_config(directives@) == Err::<LimitConfig, _>(e@),
    {
        let mut config = LimitConfig {
            max_step: DEFAULT_MAX_STEP,
            max_depth: DEFAULT_MAX_DEPTH,
            max_memory: DEFAULT_MAX_MEMORY,
            on_limit: OnLimitBehavior::Error,
        };
        let n = directives.len();
        let mut k: usize = 0;
        proof {
            assert(directives@.subrange(0, 0) =~= Seq::<Directive>::empty());
        }
        while k < n
            invariant
                n == directives@.len(),
                k <= n,
                spec_build_limit_config(directives@.subrange(0, k as int)) == Ok::<
                    _,
                    SpecParseError,
                >(config),
            decreases n - k,
        {
            let d = directives[k];
            proof {
                assert(directives@.subrange(0, k + 1).drop_last() =~= directives@.subrange(
                    0,
                    k as int,
                ));
                assert(directives@.subrange(0, k + 1).last() == d);
            }
            match Self::apply_directive(config, d) {
                Ok(c2) => {
                    config = c2;
                },
                Err(e) => {
                    proof {
                        Self::lemma_limit_config_error_persists(directives@, k as int, e@);
                    }
                    return Err(e);
                },
            }
            k = k + 1;
        }
        proof {
            assert(directives@.subrange(0, n as int) =~= directives@);
        }
        Ok(config)
    }

    /// Once a prefix of the directives is invalid, the whole list is.
    proof fn lemma_limit_config_error_persists(ds: Seq<Directive>, k: int, e: SpecParseError)
        requires
            0 <= k < ds.len(),
            spec_build_limit_config(ds.subrange(0, k + 1)) == Err::<LimitConfig, _>(e),
        ensures
            spec_build_limit_config(ds) == Err::<LimitConfig, _>(e),
        decreases ds.len() - k,
    {
        if k + 1 == ds.len() {
            assert(ds.subrange(0, k + 1) =~= ds);
        } else {
            assert(ds.subrange(0, k + 2).drop_last() =~= ds.subrange(0, k + 1));
            Self::lemma_limit_config_error_persists(ds, k + 1, e);
        }
    }

    /// Applies one directive to the configuration.
    fn apply_directive(c: LimitConfig, d: Directive) -> (r: Result<LimitConfig, ParseError>)
        ensures
            r matches Ok(c2) ==> spec_apply_directive(c, d) == Ok::<_, SpecParseError>(c2),
            r matches Err(e) ==> spec_apply_directive(c, d) == Err::<LimitConfig, _>(e@),
    {
        match d.name {
            DirectiveName::MaxStep => match d.value {
                DirectiveValue::Number(n) => if 1 <= n && n <= 10000000 {
                    Ok(LimitConfig { max_step: n as usize, ..c })
                } else {
                    let mut m = String::from_str("MAX_STEP value ");
                    m.append(dec_i64(n).as_str());
                    m.append(" out of range (1..10000000) (E009)");
                    proof {
                        assert(m@ =~= msg_max_step_range(n as int));
                    }
                    Err(ParseError::new_owned(m, d.span))
                },
                DirectiveValue::Word(_) => Err(ParseError::new(
                    "MAX_STEP requires a numeric value (E009)",
                    d.span,
                )),
            },
            DirectiveName::MaxDepth => match d.value {
                DirectiveValue::Number(n) => if 1 <= n && n <= 10000 {
                    Ok(LimitConfig { max_depth: n as usize, ..c })
                } else {
                    let mut m = String::from_str("MAX_DEPTH value ");
                    m.append(dec_i64(n).as_str());
                    m.append(" out of range (1..10000) (E009)");
                    proof {
                        assert(m@ =~= msg_max_depth_range(n as int));
                    }
                    Err(ParseError::new_owned(m, d.span))
                },
                DirectiveValue::Word(_) => Err(ParseError::new(
                    "MAX_DEPTH requires a numeric value (E009)",
                    d.span,
                )),
            },
            DirectiveName::MaxMemory => match d.value {
                DirectiveValue::Number(n) => if 1 <= n && n <= 10000000 {
                    Ok(LimitConfig { max_memory: n as usize, ..c })
                } else {
                    let mut m = String::from_str("MAX_MEMORY value ");
                    m.append(dec_i64(n).as_str());
                    m.append(" out of range (1..10000000) (E009)");
                    proof {
                        assert(m@ =~= msg_max_memory_range(n as int));
                    }
                    Err(ParseError::new_owned(m, d.span))
                },
                DirectiveValue::Word(_) => Err(ParseError::new(
                    "MAX_MEMORY requires a numeric value (E009)",
                    d.span,
                )),
            },
            DirectiveName::OnLimit => match d.value {
                DirectiveValue::Word(w) => match w {
                    LimitWord::Error => Ok(LimitConfig { on_limit: OnLimitBehavior::Error, ..c }),
                    LimitWord::Truncate => Ok(LimitConfig {
                        on_limit: OnLimitBehavior::Truncate,
                        ..c
                    }),
                    LimitWord::Other => Err(ParseError::new(
                        "ON_LIMIT value invalid, expected ERROR or TRUNCATE (E009)",
                        d.span,
                    )),
                },
                DirectiveValue::Number(_) => Err(ParseError::new(
                    "ON_LIMIT requires ERROR or TRUNCATE (E009)",
                    d.span,
                )),
            },
            DirectiveName::Unknown => Err(ParseError::new("Unknown directive (E009)", d.span)),
        }
    }

    /// Whether a function definition starts at the current position.
    fn is_function_definition(&self) -> (b: bool)
        requires
            self.wf(),
        ensures
            b == spec_is_function_definition(self.toks(), self.pos()),
    {
        if !matches!(self.peek_kind(1), TokenKind::LParen) {
            return false;
        }
        self.fd_scan_exec(2)
    }

    /// Scans the definition-shaped lookahead pattern from offset `pos`.
    fn fd_scan_exec(&self, pos: usize) -> (b: bool)
        requires
            self.wf(),
            pos <= 21,
        ensures
            b == fd_scan(self.toks(), self.pos(), pos as int),
        decreases 21 - pos,
    {
        if pos > 20 {
            return false;
        }
        match self.peek_kind(pos) {
            TokenKind::Param(_) => self.fd_scan_exec(pos + 1),
            TokenKind::Comma => self.fd_scan_exec(pos + 1),
            TokenKind::RParen => matches!(self.peek_kind(pos + 1), TokenKind::Colon),
            _ => false,
        }
    }

    /// Parses one term.
    fn parse_term(&mut self) -> (r: Result<Expr, ParseError>)
        requires
            old(self).wf(),
        ensures
            final(self).wf(),
            final(self).toks() == old(self).toks(),
            old(self).pos() <= final(self).pos() <= old(self).toks().len(),
            r matches Ok(v) ==> spec_parse_term(old(self).toks(), old(self).pos()) == Ok::<
                _,
                SpecParseError,
            >((v@, final(self).pos())) && old(self).pos() < final(self).pos(),
            r matches Err(e) ==> spec_parse_term(old(self).toks(), old(self).pos()) == Err::<
                (SpecExpr, int),
                _,
            >(e@),
        decreases old(self).toks().len() - old(self).pos(), 3int,
    {
        let span = self.span_of(0);
        match self.peek_kind(0) {
            TokenKind::Straight => {
                self.bump(1);
                Ok(Expr::Primitive(Primitive::Straight, span))
            },
            TokenKind::Right => {
                self.bump(1);
                Ok(Expr::Primitive(Primitive::Right, span))
            },
            TokenKind::Left => {
                self.bump(1);
                Ok(Expr::Primitive(Primitive::Left, span))
            },
            TokenKind::Ident(name) => {
                if matches!(self.peek_kind(1), TokenKind::LParen) {
                    self.parse_function_call()
                } else {
                    self.bump(1);
                    let args: Vec<Arg> = Vec::new();
                    proof {
                        assert(view_args(args@) =~= Seq::<SpecArg>::empty());
                    }
                    Ok(Expr::FuncCall { name, args, span })
                }
            },
            TokenKind::Param(name) => {
                self.bump(1);
                Ok(Expr::Param(name, span))
            },
            TokenKind::LParen => {
                self.bump(1);
                match self.parse_expression_until() {
                    Ok(e) => {
                        if matches!(self.peek_kind(0), TokenKind::RParen) {
                            self.bump(1);
                            Ok(e)
                        } else {
                            Err(ParseError::unexpected_token(
                                "')'",
                                self.peek_kind(0).description(),
                                self.span_of(0),
                            ))
                        }
                    },
                    Err(e) => Err(e),
                }
            },
            k => Err(ParseError::unexpected_token(
                "'s', 'r', 'l', identifier, or '('",
                k.description(),
                span,
            )),
        }
    }

    /// Parses a call `name '(' args ')'`.
    fn parse_function_call(&mut self) -> (r: Result<Expr, ParseError>)
        requires
            old(self).wf(),
            kind_at(old(self).toks(), old(self).pos()) matches TokenKind::Ident(_),
        ensures
            final(self).wf(),
            final(self).toks() == old(self).toks(),
            old(self).pos() <= final(self).pos() <= old(self).toks().len(),
            r matches Ok(v) ==> spec_parse_function_call(old(self).toks(), old(self).pos()) == Ok::<
                _,
                SpecParseError,
            >((v@, final(self).pos())) && old(self).pos() < final(self).pos(),
            r matches Err(e) ==> spec_parse_function_call(old(self).toks(), old(self).pos())
                == Err::<(SpecExpr, int), _>(e@),
        decreases old(self).toks().len() - old(self).pos(), 2int,
    {
        let start = self.span_of(0);
        let name = match self.peek_kind(0) {
            TokenKind::Ident(c) => c,
            _ => {
                return Err(ParseError::new("", self.span_of(0)));
            },
        };
        if !matches!(self.peek_kind(1), TokenKind::LParen) {
            return Err(ParseError::unexpected_token(
                "'('",
                self.peek_kind(1).description(),
                self.span_of(1),
            ));
        }
        self.bump(2);
        match self.parse_function_args() {
            Err(e) => Err(e),
            Ok(args) => {
                let end = self.span_of(0);
                if matches!(self.peek_kind(0), TokenKind::RParen) {
                    self.bump(1);
                    Ok(Expr::FuncCall {
                        name,
                        args,
                        span: Span {
                            start: start.start,
                            end: end.end,
                            line: start.line,
                            column: start.column,
                        },
                    })
                } else {
                    Err(ParseError::unexpected_token(
                        "')'",
                        self.peek_kind(0).description(),
                        self.span_of(0),
                    ))
                }
            },
        }
    }

    /// Parses a (possibly empty) comma-separated argument list.
    fn parse_function_args(&mut self) -> (r: Result<Vec<Arg>, ParseError>)
        requires
            old(self).wf(),
        ensures
            final(self).wf(),
            final(self).toks() == old(self).toks(),
            old(self).pos() <= final(self).pos() <= old(self).toks().len(),
            r matches Ok(v) ==> spec_parse_function_args(old(self).toks(), old(self).pos()) == Ok::<
                _,
                SpecParseError,
            >((view_args(v@), final(self).pos())),
            r matches Err(e) ==> spec_parse_function_args(old(self).toks(), old(self).pos())
                == Err::<(Seq<SpecArg>, int), _>(e@),
        decreases old(self).toks().len() - old(self).pos(), 8int,
    {
        if matches!(self.peek_kind(0), TokenKind::RParen) {
            let v: Vec<Arg> = Vec::new();
            proof {
                assert(view_args(v@) =~= Seq::<SpecArg>::empty());
            }
            Ok(v)
        } else {
            self.parse_args_loop()
        }
    }

    /// Parses one or more arguments separated by commas.
    fn parse_args_loop(&mut self) -> (r: Result<Vec<Arg>, ParseError>)
        requires
            old(self).wf(),
        ensures
            final(self).wf(),
            final(self).toks() == old(self).toks(),
            old(self).pos() <= final(self).pos() <= old(self).toks().len(),
            r matches Ok(v) ==> spec_parse_args_loop(old(self).toks(), old(self).pos()) == Ok::<
                _,
                SpecParseError,
            >((view_args(v@), final(self).pos())),
            r matches Err(e) ==> spec_parse_args_loop(old(self).toks(), old(self).pos()) == Err::<
                (Seq<SpecArg>, int),
                _,
            >(e@),
        decreases old(self).toks().len() - old(self).pos(), 7int,
    {
        match self.parse_function_arg() {
            Err(e) => Err(e),
            Ok(a) => {
                if matches!(self.peek_kind(0), TokenKind::Comma) {
                    self.bump(1);
                    match self.parse_args_loop() {
                        Ok(mut rest) => {
                            let ghost r0 = rest@;
                            let ghost a0 = a;
                            rest.insert(0, a);
                            proof {
                                assert(rest@ =~= seq![a0] + r0);
                                crate::ast::lemma_view_args_concat(seq![a0], r0);
                                assert(seq![a0].drop_last() =~= Seq::<Arg>::empty());
                                assert(view_args(Seq::<Arg>::empty())
                                    =~= Seq::<SpecArg>::empty());
                                assert(view_args(seq![a0]) =~= seq![view_arg(a0)]);
                            }
                            Ok(rest)
                        },
                        Err(e) => Err(e),
                    }
                } else {
                    let mut v: Vec<Arg> = Vec::new();
                    let ghost a0 = a;
                    v.push(a);
                    proof {
                        assert(v@ =~= seq![a0]);
                        assert(seq![a0].drop_last() =~= Seq::<Arg>::empty());
                        assert(view_args(Seq::<Arg>::empty()) =~= Seq::<SpecArg>::empty());
                        assert(view_args(v@) =~= seq![view_arg(a0)]);
                    }
                    Ok(v)
                }
            },
        }
    }

    /// Parses one argument.
    fn parse_function_arg(&mut self) -> (r: Result<Arg, ParseError>)
        requires
            old(self).wf(),
        ensures
            final(self).wf(),
            final(self).toks() == old(self).toks(),
            old(self).pos() <= final(self).pos() <= old(self).toks().len(),
            r matches Ok(v) ==> spec_parse_function_arg(old(self).toks(), old(self).pos()) == Ok::<
                _,
                SpecParseError,
            >((v@, final(self).pos())),
            r matches Err(e) ==> spec_parse_function_arg(old(self).toks(), old(self).pos())
                == Err::<(SpecArg, int), _>(e@),
        decreases old(self).toks().len() - old(self).pos(), 6int,
    {
        let span = self.span_of(0);
        match self.peek_kind(0) {
            TokenKind::Minus => {
                match self.peek_kind(1) {
                    TokenKind::Number(n) => {
                        let nspan = self.span_of(1);
                        let v: i32 = if n > 0 {
                            -n
                        } else {
                            n
                        };
                        if matches!(self.peek_kind(2), TokenKind::Plus | TokenKind::Minus) {
                            self.bump(2);
                            self.parse_numexpr(NumAtom::Number(v), span)
                        } else {
                            self.bump(2);
                            Ok(Arg::Number(
                                v,
                                Span {
                                    start: span.start,
                                    end: nspan.end,
                                    line: span.line,
                                    column: span.column,
                                },
                            ))
                        }
                    },
                    k => Err(ParseError::unexpected_token(
                        "number after '-'",
                        k.description(),
                        self.span_of(1),
                    )),
                }
            },
            TokenKind::Number(n) => {
                if matches!(self.peek_kind(1), TokenKind::Plus | TokenKind::Minus) {
                    self.bump(1);
                    self.parse_numexpr(NumAtom::Number(n), span)
                } else {
                    self.bump(1);
                    Ok(Arg::Number(n, span))
                }
            },
            TokenKind::Param(c) => {
                if matches!(self.peek_kind(1), TokenKind::Plus | TokenKind::Minus) {
                    self.bump(1);
                    self.parse_numexpr(NumAtom::Param(c), span)
                } else {
                    match self.parse_arg_expression() {
                        Ok(e) => Ok(Arg::Command(e)),
                        Err(e) => Err(e),
                    }
                }
            },
            _ => {
                match self.parse_arg_expression() {
                    Ok(e) => Ok(Arg::Command(e)),
                    Err(e) => Err(e),
                }
            },
        }
    }

    /// Parses the `(op atom)+` tail of a numeric expression; the cursor
    /// stands at the first operator.
    fn parse_numexpr(&mut self, first: NumAtom, start: Span) -> (r: Result<Arg, ParseError>)
        requires
            old(self).wf(),
        ensures
            final(self).wf(),
            final(self).toks() == old(self).toks(),
            old(self).pos() <= final(self).pos() <= old(self).toks().len(),
            r matches Ok(v) ==> spec_parse_numexpr(old(self).toks(), old(self).pos(), first, start)
                == Ok::<_, SpecParseError>((v@, final(self).pos())),
            r matches Err(e) ==> spec_parse_numexpr(old(self).toks(), old(self).pos(), first, start)
                == Err::<(SpecArg, int), _>(e@),
        decreases old(self).toks().len() - old(self).pos(), 5int,
    {
        match self.parse_numexpr_rest(start) {
            Ok((rest, end)) => Ok(Arg::NumExpr {
                first,
                rest,
                span: Span {
                    start: start.start,
                    end: end.end,
                    line: start.line,
                    column: start.column,
                },
            }),
            Err(e) => Err(e),
        }
    }

    /// Collects `(op atom)` steps while an operator follows; returns the
    /// steps and the span of the last atom (or `prev` if none).
    fn parse_numexpr_rest(&mut self, prev: Span) -> (r: Result<
        (Vec<(NumOp, NumAtom)>, Span),
        ParseError,
    >)
        requires
            old(self).wf(),
        ensures
            final(self).wf(),
            final(self).toks() == old(self).toks(),
            old(self).pos() <= final(self).pos() <= old(self).toks().len(),
            r matches Ok(v) ==> spec_numexpr_rest(old(self).toks(), old(self).pos(), prev) == Ok::<
                _,
                SpecParseError,
            >((v.0@, v.1, final(self).pos())),
            r matches Err(e) ==> spec_numexpr_rest(old(self).toks(), old(self).pos(), prev)
                == Err::<(Seq<(NumOp, NumAtom)>, Span, int), _>(e@),
        decreases old(self).toks().len() - old(self).pos(), 4int,
    {
        let k = self.peek_kind(0);
        if matches!(k, TokenKind::Plus | TokenKind::Minus) {
            let op = if matches!(k, TokenKind::Plus) {
                NumOp::Add
            } else {
                NumOp::Sub
            };
            let atom = match self.peek_kind(1) {
                TokenKind::Number(n) => Some(NumAtom::Number(n)),
                TokenKind::Param(c) => Some(NumAtom::Param(c)),
                _ => None,
            };
            match atom {
                Some(a) => {
                    let aspan = self.span_of(1);
                    self.bump(2);
                    match self.parse_numexpr_rest(aspan) {
                        Ok((mut rest, end)) => {
                            let ghost r0 = rest@;
                            rest.insert(0, (op, a));
                            proof {
                                assert(rest@ =~= seq![(op, a)] + r0);
                            }
                            Ok((rest, end))
                        },
                        Err(e) => Err(e),
                    }
                },
                None => Err(ParseError::unexpected_token(
                    "number or parameter",
                    self.peek_kind(1).description(),
                    self.span_of(1),
                )),
            }
        } else {
            let v: Vec<(NumOp, NumAtom)> = Vec::new();
            proof {
                assert(v@ =~= Seq::<(NumOp, NumAtom)>::empty());
            }
            Ok((v, prev))
        }
    }

    /// Collects the terms of a command-expression argument.
    fn arg_expr_loop(&mut self) -> (r: Result<Vec<Expr>, ParseError>)
        requires
            old(self).wf(),
        ensures
            final(self).wf(),
            final(self).toks() == old(self).toks(),
            old(self).pos() <= final(self).pos() <= old(self).toks().len(),
            r matches Ok(v) ==> spec_arg_expr_loop(old(self).toks(), old(self).pos()) == Ok::<
                _,
                SpecParseError,
            >((view_exprs(v@), final(self).pos())),
            r matches Err(e) ==> spec_arg_expr_loop(old(self).toks(), old(self).pos()) == Err::<
                (Seq<SpecExpr>, int),
                _,
            >(e@),
        decreases old(self).toks().len() - old(self).pos(), 4int,
    {
        let k = self.peek_kind(0);
        if matches!(
            k,
            TokenKind::RParen | TokenKind::Comma | TokenKind::Newline | TokenKind::Eof,
        ) {
            let v: Vec<Expr> = Vec::new();
            proof {
                assert(view_exprs(v@) =~= Seq::<SpecExpr>::empty());
            }
            Ok(v)
        } else {
            match self.parse_term() {
                Ok(t) => {
                    match self.arg_expr_loop() {
                        Ok(mut rest) => {
                            let ghost r0 = rest@;
                            let ghost t0 = t;
                            rest.insert(0, t);
                            proof {
                                assert(rest@ =~= seq![t0] + r0);
                                crate::ast::lemma_view_exprs_concat(seq![t0], r0);
                                assert(seq![t0].drop_last() =~= Seq::<Expr>::empty());
                                assert(view_exprs(Seq::<Expr>::empty())
                                    =~= Seq::<SpecExpr>::empty());
                                assert(view_exprs(seq![t0]) =~= seq![view_expr(t0)]);
                            }
                            Ok(rest)
                        },
                        Err(e) => Err(e),
                    }
                },
                Err(e) => Err(e),
            }
        }
    }

    /// Parses a command-expression argument.
    fn parse_arg_expression(&mut self) -> (r: Result<Expr, ParseError>)
        requires
            old(self).wf(),
        ensures
            final(self).wf(),
            final(self).toks() == old(self).toks(),
            old(self).pos() <= final(self).pos() <= old(self).toks().len(),
            r matches Ok(v) ==> spec_parse_arg_expression(old(self).toks(), old(self).pos())
                == Ok::<_, SpecParseError>((v@, final(self).pos())),
            r matches Err(e) ==> spec_parse_arg_expression(old(self).toks(), old(self).pos())
                == Err::<(SpecExpr, int), _>(e@),
        decreases old(self).toks().len() - old(self).pos(), 5int,
    {
        match self.arg_expr_loop() {
            Ok(terms) => Ok(Self::collapse(terms)),
            Err(e) => Err(e),
        }
    }

    /// Collapses a term list into one expression.
    fn collapse(mut terms: Vec<Expr>) -> (r: Expr)
        ensures
            r@ == collapse_terms(view_exprs(terms@)),
    {
        proof {
            crate::ast::lemma_view_exprs_len(terms@);
        }
        if terms.len() == 1 {
            let t = terms.pop().unwrap();
            proof {
                assert(terms@ =~= Seq::<Expr>::empty());
                crate::ast::lemma_view_exprs_index(seq![t], 0);
                assert(view_exprs(seq![t])[0] == t@);
            }
            t
        } else {
            let ghost tv = terms@;
            let e = Expr::Sequence(terms);
            proof {
                if tv.len() == 0 {
                    assert(view_exprs(tv) =~= Seq::<SpecExpr>::empty());
                }
            }
            e
        }
    }

    /// Collects the terms of a parenthesised group.
    fn until_loop(&mut self) -> (r: Result<Vec<Expr>, ParseError>)
        requires
            old(self).wf(),
        ensures
            final(self).wf(),
            final(self).toks() == old(self).toks(),
            old(self).pos() <= final(self).pos() <= old(self).toks().len(),
            r matches Ok(v) ==> spec_until_loop(old(self).toks(), old(self).pos()) == Ok::<
                _,
                SpecParseError,
            >((view_exprs(v@), final(self).pos())),
            r matches Err(e) ==> spec_until_loop(old(self).toks(), old(self).pos()) == Err::<
                (Seq<SpecExpr>, int),
                _,
            >(e@),
        decreases old(self).toks().len() - old(self).pos(), 4int,
    {
        let ghost ts = self.tokens@;
        let ghost p0 = self.pos();
        let k = self.peek_kind(0);
        if matches!(k, TokenKind::RParen | TokenKind::Newline | TokenKind::Eof) {
            let v: Vec<Expr> = Vec::new();
            proof {
                assert(view_exprs(v@) =~= Seq::<SpecExpr>::empty());
            }
            return Ok(v);
        }
        self.do_skip_space();
        proof {
            lemma_skip_space_bounds(ts, p0);
        }
        let kq = self.peek_kind(0);
        if matches!(kq, TokenKind::RParen | TokenKind::Newline | TokenKind::Eof) {
            let v: Vec<Expr> = Vec::new();
            proof {
                assert(view_exprs(v@) =~= Seq::<SpecExpr>::empty());
            }
            return Ok(v);
        }
        match self.parse_term() {
            Ok(t) => {
                match self.until_loop() {
                    Ok(mut rest) => {
                        let ghost r0 = rest@;
                        let ghost t0 = t;
                        rest.insert(0, t);
                        proof {
                            assert(rest@ =~= seq![t0] + r0);
                            crate::ast::lemma_view_exprs_concat(seq![t0], r0);
                            assert(seq![t0].drop_last() =~= Seq::<Expr>::empty());
                            assert(view_exprs(Seq::<Expr>::empty()) =~= Seq::<SpecExpr>::empty());
                            assert(view_exprs(seq![t0]) =~= seq![view_expr(t0)]);
                        }
                        Ok(rest)
                    },
                    Err(e) => Err(e),
                }
            },
            Err(e) => Err(e),
        }
    }

    /// Parses the inside of a parenthesised group.
    fn parse_expression_until(&mut self) -> (r: Result<Expr, ParseError>)
        requires
            old(self).wf(),
        ensures
            final(self).wf(),
            final(self).toks() == old(self).toks(),
            old(self).pos() <= final(self).pos() <= old(self).toks().len(),
            r matches Ok(v) ==> spec_parse_expression_until(old(self).toks(), old(self).pos())
                == Ok::<_, SpecParseError>((v@, final(self).pos())),
            r matches Err(e) ==> spec_parse_expression_until(old(self).toks(), old(self).pos())
                == Err::<(SpecExpr, int), _>(e@),
        decreases old(self).toks().len() - old(self).pos(), 5int,
    {
        match self.until_loop() {
            Ok(terms) => Ok(Self::collapse(terms)),
            Err(e) => Err(e),
        }
    }

    /// Collects the terms of a definition body.
    fn body_loop(&mut self) -> (r: Result<Vec<Expr>, ParseError>)
        requires
            old(self).wf(),
        ensures
            final(self).wf(),
            final(self).toks() == old(self).toks(),
            old(self).pos() <= final(self).pos() <= old(self).toks().len(),
            r matches Ok(v) ==> spec_body_loop(old(self).toks(), old(self).pos()) == Ok::<
                _,
                SpecParseError,
            >((view_exprs(v@), final(self).pos())),
            r matches Err(e) ==> spec_body_loop(old(self).toks(), old(self).pos()) == Err::<
                (Seq<SpecExpr>, int),
                _,
            >(e@),
        decreases old(self).toks().len() - old(self).pos(), 4int,
    {
        let k = self.peek_kind(0);
        let stop: bool = if matches!(k, TokenKind::Newline | TokenKind::Eof | TokenKind::Space) {
            true
        } else if matches!(k, TokenKind::Ident(_)) {
            matches!(self.peek_kind(1), TokenKind::Colon) || self.is_function_definition()
        } else {
            false
        };
        if stop {
            let v: Vec<Expr> = Vec::new();
            proof {
                assert(view_exprs(v@) =~= Seq::<SpecExpr>::empty());
            }
            return Ok(v);
        }
        match self.parse_term() {
            Ok(t) => {
                match self.body_loop() {
                    Ok(mut rest) => {
                        let ghost r0 = rest@;
                        let ghost t0 = t;
                        rest.insert(0, t);
                        proof {
                            assert(rest@ =~= seq![t0] + r0);
                            crate::ast::lemma_view_exprs_concat(seq![t0], r0);
                            assert(seq![t0].drop_last() =~= Seq::<Expr>::empty());
                            assert(view_exprs(Seq::<Expr>::empty()) =~= Seq::<SpecExpr>::empty());
                            assert(view_exprs(seq![t0]) =~= seq![view_expr(t0)]);
                        }
                        Ok(rest)
                    },
                    Err(e) => Err(e),
                }
            },
            Err(e) => Err(e),
        }
    }

    /// Parses a definition body.
    fn parse_body(&mut self) -> (r: Result<Expr, ParseError>)
        requires
            old(self).wf(),
        ensures
            final(self).wf(),
            final(self).toks() == old(self).toks(),
            old(self).pos() <= final(self).pos() <= old(self).toks().len(),
            r matches Ok(v) ==> spec_parse_body(old(self).toks(), old(self).pos()) == Ok::<
                _,
                SpecParseError,
            >((v@, final(self).pos())),
            r matches Err(e) ==> spec_parse_body(old(self).toks(), old(self).pos()) == Err::<
                (SpecExpr, int),
                _,
            >(e@),
        decreases old(self).toks().len() - old(self).pos(), 5int,
    {
        match self.body_loop() {
            Ok(terms) => Ok(Self::collapse(terms)),
            Err(e) => Err(e),
        }
    }

    /// Whether parameter `c` is used as a bare term in `e`.
    fn expr_bare_use(e: &Expr, c: char) -> (r: bool)
        ensures
            r == bare_use(e@, c),
        decreases e, 0int,
    {
        match e {
            Expr::Primitive(_, _) => false,
            Expr::Param(p, _) => *p == c,
            Expr::FuncCall { args, .. } => {
                let n = args.len();
                proof {
                    assert(args@.subrange(0, n as int) =~= args@);
                }
                Self::args_bare_use(args, c, n)
            },
            Expr::Sequence(es) => {
                let n = es.len();
                proof {
                    assert(es@.subrange(0, n as int) =~= es@);
                }
                Self::exprs_bare_use(es, c, n)
            },
        }
    }

    /// Whether parameter `c` is used as a bare term in `es[..k]`.
    fn exprs_bare_use(es: &Vec<Expr>, c: char, k: usize) -> (r: bool)
        requires
            k <= es@.len(),
        ensures
            r == bare_use_seq(view_exprs(es@.subrange(0, k as int)), c),
        decreases es, k,
    {
        if k == 0 {
            proof {
                assert(es@.subrange(0, 0) =~= Seq::<Expr>::empty());
                assert(view_exprs(Seq::<Expr>::empty()) =~= Seq::<SpecExpr>::empty());
            }
            false
        } else {
            proof {
                assert(es@.subrange(0, k as int).drop_last() =~= es@.subrange(0, k - 1));
                assert(es@.subrange(0, k as int).last() == es@[k - 1]);
                let pre = view_exprs(es@.subrange(0, k - 1));
                let lastv = view_expr(es@[k - 1]);
                assert(view_exprs(es@.subrange(0, k as int)) =~= pre + seq![lastv]);
                assert((pre + seq![lastv]).drop_last() =~= pre);
                assert((pre + seq![lastv]).last() == lastv);
            }
            let hd = Self::exprs_bare_use(es, c, k - 1);
            hd || Self::expr_bare_use(&es[k - 1], c)
        }
    }

    /// Whether parameter `c` is used as a bare term in `args[..k]`.
    fn args_bare_use(args: &Vec<Arg>, c: char, k: usize) -> (r: bool)
        requires
            k <= args@.len(),
        ensures
            r == bare_use_args(view_args(args@.subrange(0, k as int)), c),
        decreases args, k,
    {
        if k == 0 {
            proof {
                assert(args@.subrange(0, 0) =~= Seq::<Arg>::empty());
                assert(view_args(Seq::<Arg>::empty()) =~= Seq::<SpecArg>::empty());
            }
            false
        } else {
            proof {
                assert(args@.subrange(0, k as int).drop_last() =~= args@.subrange(0, k - 1));
                assert(args@.subrange(0, k as int).last() == args@[k - 1]);
                let pre = view_args(args@.subrange(0, k - 1));
                let lastv = view_arg(args@[k - 1]);
                assert(view_args(args@.subrange(0, k as int)) =~= pre + seq![lastv]);
                assert((pre + seq![lastv]).drop_last() =~= pre);
                assert((pre + seq![lastv]).last() == lastv);
            }
            let hd = Self::args_bare_use(args, c, k - 1);
            hd || Self::one_arg_bare_use(&args[k - 1], c)
        }
    }

    /// Whether parameter `c` is used as a bare term inside one argument.
    fn one_arg_bare_use(a: &Arg, c: char) -> (r: bool)
        ensures
            r == arg_bare_use(a@, c),
        decreases a, 0int,
    {
        match a {
            Arg::Command(e) => {
                if matches!(e, Expr::Param(_, _)) {
                    false
                } else {
                    Self::expr_bare_use(e, c)
                }
            },
            Arg::Number(_, _) => false,
            Arg::NumExpr { .. } => false,
        }
    }

    /// Whether parameter `c` occurs in a numeric expression in `e`.
    fn expr_num_use(e: &Expr, c: char) -> (r: bool)
        ensures
            r == num_use(e@, c),
        decreases e, 0int,
    {
        match e {
            Expr::Primitive(_, _) => false,
            Expr::Param(_, _) => false,
            Expr::FuncCall { args, .. } => {
                let n = args.len();
                proof {
                    assert(args@.subrange(0, n as int) =~= args@);
                }
                Self::args_num_use(args, c, n)
            },
            Expr::Sequence(es) => {
                let n = es.len();
                proof {
                    assert(es@.subrange(0, n as int) =~= es@);
                }
                Self::exprs_num_use(es, c, n)
            },
        }
    }

    /// Whether parameter `c` occurs in a numeric expression in `es[..k]`.
    fn exprs_num_use(es: &Vec<Expr>, c: char, k: usize) -> (r: bool)
        requires
            k <= es@.len(),
        ensures
            r == num_use_seq(view_exprs(es@.subrange(0, k as int)), c),
        decreases es, k,
    {
        if k == 0 {
            proof {
                assert(es@.subrange(0, 0) =~= Seq::<Expr>::empty());
                assert(view_exprs(Seq::<Expr>::empty()) =~= Seq::<SpecExpr>::empty());
            }
            false
        } else {
            proof {
                assert(es@.subrange(0, k as int).drop_last() =~= es@.subrange(0, k - 1));
                assert(es@.subrange(0, k as int).last() == es@[k - 1]);
                let pre = view_exprs(es@.subrange(0, k - 1));
                let lastv = view_expr(es@[k - 1]);
                assert(view_exprs(es@.subrange(0, k as int)) =~= pre + seq![lastv]);
                assert((pre + seq![lastv]).drop_last() =~= pre);
                assert((pre + seq![lastv]).last() == lastv);
            }
            let hd = Self::exprs_num_use(es, c, k - 1);
            hd || Self::expr_num_use(&es[k - 1], c)
        }
    }

    /// Whether parameter `c` occurs in a numeric expression in `args[..k]`.
    fn args_num_use(args: &Vec<Arg>, c: char, k: usize) -> (r: bool)
        requires
            k <= args@.len(),
        ensures
            r == num_use_args(view_args(args@.subrange(0, k as int)), c),
        decreases args, k,
    {
        if k == 0 {
            proof {
                assert(args@.subrange(0, 0) =~= Seq::<Arg>::empty());
                assert(view_args(Seq::<Arg>::empty()) =~= Seq::<SpecArg>::empty());
            }
            false
        } else {
            proof {
                assert(args@.subrange(0, k as int).drop_last() =~= args@.subrange(0, k - 1));
                assert(args@.subrange(0, k as int).last() == args@[k - 1]);
                let pre = view_args(args@.subrange(0, k - 1));
                let lastv = view_arg(args@[k - 1]);
                assert(view_args(args@.subrange(0, k as int)) =~= pre + seq![lastv]);
                assert((pre + seq![lastv]).drop_last() =~= pre);
                assert((pre + seq![lastv]).last() == lastv);
            }
            let hd = Self::args_num_use(args, c, k - 1);
            hd || Self::one_arg_num_use(&args[k - 1], c)
        }
    }

    /// Whether parameter `c` occurs in a numeric expression in one argument.
    fn one_arg_num_use(a: &Arg, c: char) -> (r: bool)
        ensures
            r == arg_num_use(a@, c),
        decreases a, 0int,
    {
        match a {
            Arg::Command(e) => Self::expr_num_use(e, c),
            Arg::Number(_, _) => false,
            Arg::NumExpr { first, rest, span: _ } => {
                let f: bool = match first {
                    NumAtom::Param(p) => *p == c,
                    NumAtom::Number(_) => false,
                };
                let n = rest.len();
                proof {
                    assert(rest@.subrange(0, n as int) =~= rest@);
                }
                f || Self::atoms_num_use(rest, c, n)
            },
        }
    }

    /// Whether parameter `c` is an atom of `rest[..k]`.
    fn atoms_num_use(rest: &Vec<(NumOp, NumAtom)>, c: char, k: usize) -> (r: bool)
        requires
            k <= rest@.len(),
        ensures
            r == num_atom_use(rest@.subrange(0, k as int), c),
        decreases k,
    {
        if k == 0 {
            proof {
                assert(rest@.subrange(0, 0) =~= Seq::<(NumOp, NumAtom)>::empty());
            }
            false
        } else {
            proof {
                assert(rest@.subrange(0, k as int).drop_last() =~= rest@.subrange(0, k - 1));
                assert(rest@.subrange(0, k as int).last() == rest@[k - 1]);
            }
            let hd = Self::atoms_num_use(rest, c, k - 1);
            let this: bool = match rest[k - 1].1 {
                NumAtom::Param(p) => p == c,
                NumAtom::Number(_) => false,
            };
            hd || this
        }
    }

    /// The first parameter used in both roles, if any.
    fn find_first_conflict(params: &Vec<char>, body: &Expr) -> (r: Option<usize>)
        ensures
            r matches Some(k) ==> 0 <= k < params@.len() && first_conflict(params@, body@, 0)
                == k as int,
            r is None ==> first_conflict(params@, body@, 0) == -1,
    {
        let n = params.len();
        let mut k: usize = 0;
        while k < n
            invariant
                n == params@.len(),
                k <= n,
                first_conflict(params@, body@, 0) == first_conflict(params@, body@, k as int),
            decreases n - k,
        {
            let c = params[k];
            if Self::expr_bare_use(body, c) && Self::expr_num_use(body, c) {
                return Some(k);
            }
            k = k + 1;
        }
        None
    }

    /// The inferred type of every parameter.
    fn infer_types(params: &Vec<char>, body: &Expr) -> (r: Vec<ParamType>)
        ensures
            r@ == inferred_types(params@, body@),
    {
        let n = params.len();
        let mut types: Vec<ParamType> = Vec::new();
        let mut k: usize = 0;
        while k < n
            invariant
                n == params@.len(),
                k <= n,
                types@.len() == k,
                forall|j: int| 0 <= j < k ==> types@[j] == inferred_type(body@, params@[j]),
            decreases n - k,
        {
            let c = params[k];
            let t = if Self::expr_num_use(body, c) {
                ParamType::Int
            } else {
                ParamType::CmdSeq
            };
            types.push(t);
            k = k + 1;
        }
        proof {
            assert(types@ =~= inferred_types(params@, body@));
        }
        types
    }

    /// Parses a macro definition `name ':' body`.
    fn parse_macro_def(&mut self) -> (r: Result<MacroDef, ParseError>)
        requires
            old(self).wf(),
            kind_at(old(self).toks(), old(self).pos()) matches TokenKind::Ident(_),
        ensures
            final(self).wf(),
            final(self).toks() == old(self).toks(),
            old(self).pos() <= final(self).pos() <= old(self).toks().len(),
            r matches Ok(v) ==> spec_parse_macro_def(old(self).toks(), old(self).pos()) == Ok::<
                _,
                SpecParseError,
            >((v@, final(self).pos())) && old(self).pos() < final(self).pos(),
            r matches Err(e) ==> spec_parse_macro_def(old(self).toks(), old(self).pos()) == Err::<
                (SpecMacroDef, int),
                _,
            >(e@),
        decreases old(self).toks().len() - old(self).pos(), 6int,
    {
        let start = self.span_of(0);
        let name = match self.peek_kind(0) {
            TokenKind::Ident(c) => c,
            _ => {
                return Err(ParseError::new("", self.span_of(0)));
            },
        };
        if !matches!(self.peek_kind(1), TokenKind::Colon) {
            return Err(ParseError::unexpected_token(
                "':'",
                self.peek_kind(1).description(),
                self.span_of(1),
            ));
        }
        self.bump(2);
        match self.parse_body() {
            Ok(body) => {
                let bspan = body.span();
                proof {
                    crate::ast::lemma_view_expr_span(body);
                }
                Ok(MacroDef {
                    name,
                    body,
                    span: Span {
                        start: start.start,
                        end: bspan.end,
                        line: start.line,
                        column: start.column,
                    },
                })
            },
            Err(e) => Err(e),
        }
    }

    /// Parses the parameter list `PARAM (',' PARAM)*`.
    fn parse_params_loop(&mut self) -> (r: Result<Vec<char>, ParseError>)
        requires
            old(self).wf(),
        ensures
            final(self).wf(),
            final(self).toks() == old(self).toks(),
            old(self).pos() <= final(self).pos() <= old(self).toks().len(),
            r matches Ok(v) ==> spec_params_loop(old(self).toks(), old(self).pos()) == Ok::<
                _,
                SpecParseError,
            >((v@, final(self).pos())),
            r matches Err(e) ==> spec_params_loop(old(self).toks(), old(self).pos()) == Err::<
                (Seq<char>, int),
                _,
            >(e@),
        decreases old(self).toks().len() - old(self).pos(),
    {
        match self.peek_kind(0) {
            TokenKind::Param(c) => {
                if matches!(self.peek_kind(1), TokenKind::Comma) {
                    self.bump(2);
                    match self.parse_params_loop() {
                        Ok(mut rest) => {
                            let ghost r0 = rest@;
                            rest.insert(0, c);
                            proof {
                                assert(rest@ =~= seq![c] + r0);
                            }
                            Ok(rest)
                        },
                        Err(e) => Err(e),
                    }
                } else {
                    self.bump(1);
                    let mut v: Vec<char> = Vec::new();
                    v.push(c);
                    proof {
                        assert(v@ =~= seq![c]);
                    }
                    Ok(v)
                }
            },
            k => Err(ParseError::unexpected_token(
                "parameter (uppercase letter)",
                k.description(),
                self.span_of(0),
            )),
        }
    }

    /// Parses a function definition `name '(' params ')' ':' body` and
    /// infers the parameter types.
    fn parse_function_def(&mut self) -> (r: Result<FuncDef, ParseError>)
        requires
            old(self).wf(),
            kind_at(old(self).toks(), old(self).pos()) matches TokenKind::Ident(_),
        ensures
            final(self).wf(),
            final(self).toks() == old(self).toks(),
            old(self).pos() <= final(self).pos() <= old(self).toks().len(),
            r matches Ok(v) ==> spec_parse_function_def(old(self).toks(), old(self).pos()) == Ok::<
                _,
                SpecParseError,
            >((v@, final(self).pos())) && old(self).pos() < final(self).pos(),
            r matches Err(e) ==> spec_parse_function_def(old(self).toks(), old(self).pos())
                == Err::<(SpecFuncDef, int), _>(e@),
        decreases old(self).toks().len() - old(self).pos(), 6int,
    {
        let start = self.span_of(0);
        let name = match self.peek_kind(0) {
            TokenKind::Ident(c) => c,
            _ => {
                return Err(ParseError::new("", self.span_of(0)));
            },
        };
        if !matches!(self.peek_kind(1), TokenKind::LParen) {
            return Err(ParseError::unexpected_token(
                "'('",
                self.peek_kind(1).description(),
                self.span_of(1),
            ));
        }
        let params: Vec<char> = if matches!(self.peek_kind(2), TokenKind::RParen) {
            self.bump(2);
            Vec::new()
        } else {
            self.bump(2);
            match self.parse_params_loop() {
                Ok(ps) => ps,
                Err(e) => {
                    return Err(e);
                },
            }
        };
        proof {
            if params@.len() == 0 {
                assert(params@ =~= Seq::<char>::empty());
            }
        }
        if !matches!(self.peek_kind(0), TokenKind::RParen) {
            return Err(ParseError::unexpected_token(
                "')'",
                self.peek_kind(0).description(),
                self.span_of(0),
            ));
        }
        if !matches!(self.peek_kind(1), TokenKind::Colon) {
            return Err(ParseError::unexpected_token(
                "':'",
                self.peek_kind(1).description(),
                self.span_of(1),
            ));
        }
        self.bump(2);
        match self.parse_body() {
            Ok(body) => {
                match Self::find_first_conflict(&params, &body) {
                    Some(k) => {
                        let c = params[k];
                        let mut m = String::from_str("Parameter");
                        m.append(crate::error::quoted_str(c).as_str());
                        m.append(" used as both command sequence and integer (E010)");
                        proof {
                            assert(m@ =~= msg_param_type_conflict(c));
                        }
                        Err(ParseError::new_owned(m, start))
                    },
                    None => {
                        let types = Self::infer_types(&params, &body);
                        let bspan = body.span();
                        proof {
                            crate::ast::lemma_view_expr_span(body);
                        }
                        Ok(FuncDef {
                            name,
                            params,
                            param_types: types,
                            body,
                            span: Span {
                                start: start.start,
                                end: bspan.end,
                                line: start.line,
                                column: start.column,
                            },
                        })
                    },
                }
            },
            Err(e) => Err(e),
        }
    }

    /// Tries to parse a definition; `None` leaves the position unchanged.
    fn try_parse_definition(&mut self) -> (r: Result<Option<Definition>, ParseError>)
        requires
            old(self).wf(),
        ensures
            final(self).wf(),
            final(self).toks() == old(self).toks(),
            old(self).pos() <= final(self).pos() <= old(self).toks().len(),
            r matches Ok(v) ==> ((v matches Some(d) ==> spec_try_parse_definition(
                old(self).toks(),
                old(self).pos(),
            ) == Ok::<_, SpecParseError>((Some(d@), final(self).pos()))
                && old(self).pos() < final(self).pos()) && (v is None ==> spec_try_parse_definition(old(self).toks(), old(self).pos())
                == Ok::<_, SpecParseError>((None::<SpecDefinition>, final(self).pos()))
                && old(self).pos() == final(self).pos())),
            r matches Err(e) ==> spec_try_parse_definition(old(self).toks(), old(self).pos())
                == Err::<(Option<SpecDefinition>, int), _>(e@),
        decreases old(self).toks().len() - old(self).pos(), 7int,
    {
        match self.peek_kind(0) {
            TokenKind::Ident(_) => {
                if matches!(self.peek_kind(1), TokenKind::Colon) {
                    match self.parse_macro_def() {
                        Ok(m) => Ok(Some(Definition::Macro(m))),
                        Err(e) => Err(e),
                    }
                } else if matches!(self.peek_kind(1), TokenKind::LParen)
                    && self.is_function_definition() {
                    match self.parse_function_def() {
                        Ok(f) => Ok(Some(Definition::Function(f))),
                        Err(e) => Err(e),
                    }
                } else {
                    Ok(None)
                }
            },
            _ => Ok(None),
        }
    }

    /// Collects the definitions and root-expression terms of one agent.
    fn stmt_loop(&mut self) -> (r: Result<(Vec<Definition>, Vec<Expr>), ParseError>)
        requires
            old(self).wf(),
        ensures
            final(self).wf(),
            final(self).toks() == old(self).toks(),
            old(self).pos() <= final(self).pos() <= old(self).toks().len(),
            r matches Ok(v) ==> spec_stmt_loop(old(self).toks(), old(self).pos()) == Ok::<
                _,
                SpecParseError,
            >(((view_defs(v.0@), view_exprs(v.1@)), final(self).pos())),
            r matches Err(e) ==> spec_stmt_loop(old(self).toks(), old(self).pos()) == Err::<
                ((Seq<SpecDefinition>, Seq<SpecExpr>), int),
                _,
            >(e@),
        decreases old(self).toks().len() - old(self).pos(), 8int,
    {
        let ghost ts = self.tokens@;
        let ghost p0 = self.pos();
        self.do_skip_ws();
        proof {
            lemma_skip_ws_bounds(ts, p0);
        }
        let k = self.peek_kind(0);
        if matches!(k, TokenKind::Eof | TokenKind::AgentId(_)) {
            let defs: Vec<Definition> = Vec::new();
            let terms: Vec<Expr> = Vec::new();
            proof {
                assert(view_defs(defs@) =~= Seq::<SpecDefinition>::empty());
                assert(view_exprs(terms@) =~= Seq::<SpecExpr>::empty());
            }
            return Ok((defs, terms));
        }
        match self.try_parse_definition() {
            Err(e) => Err(e),
            Ok(Some(d)) => {
                match self.stmt_loop() {
                    Ok((mut defs, terms)) => {
                        let ghost d0 = d;
                        let ghost defs0 = defs@;
                        defs.insert(0, d);
                        proof {
                            assert(defs@ =~= seq![d0] + defs0);
                            crate::ast::lemma_view_defs_concat(seq![d0], defs0);
                            assert(seq![d0].drop_last() =~= Seq::<Definition>::empty());
                            assert(view_defs(Seq::<Definition>::empty())
                                =~= Seq::<SpecDefinition>::empty());
                            assert(view_defs(seq![d0]) =~= seq![d0@]);
                        }
                        Ok((defs, terms))
                    },
                    Err(e) => Err(e),
                }
            },
            Ok(None) => {
                match self.parse_term() {
                    Err(e) => Err(e),
                    Ok(t) => {
                        match self.stmt_loop() {
                            Ok((defs, mut terms)) => {
                                let ghost t0 = t;
                                let ghost terms0 = terms@;
                                terms.insert(0, t);
                                proof {
                                    assert(terms@ =~= seq![t0] + terms0);
                                    crate::ast::lemma_view_exprs_concat(seq![t0], terms0);
                                    assert(seq![t0].drop_last() =~= Seq::<Expr>::empty());
                                    assert(view_exprs(Seq::<Expr>::empty())
                                        =~= Seq::<SpecExpr>::empty());
                                    assert(view_exprs(seq![t0]) =~= seq![view_expr(t0)]);
                                }
                                Ok((defs, terms))
                            },
                            Err(e) => Err(e),
                        }
                    },
                }
            },
        }
    }

    /// Parses a statement list: definitions plus the collapsed root
    /// expression.
    fn parse_statement_list(&mut self) -> (r: Result<(Vec<Definition>, Expr), ParseError>)
        requires
            old(self).wf(),
        ensures
            final(self).wf(),
            final(self).toks() == old(self).toks(),
            old(self).pos() <= final(self).pos() <= old(self).toks().len(),
            r matches Ok(v) ==> spec_parse_statement_list(old(self).toks(), old(self).pos())
                == Ok::<_, SpecParseError>(((view_defs(v.0@), v.1@), final(self).pos())),
            r matches Err(e) ==> spec_parse_statement_list(old(self).toks(), old(self).pos())
                == Err::<((Seq<SpecDefinition>, SpecExpr), int), _>(e@),
        decreases old(self).toks().len() - old(self).pos(), 9int,
    {
        match self.stmt_loop() {
            Ok((defs, terms)) => Ok((defs, Self::collapse(terms))),
            Err(e) => Err(e),
        }
    }

    /// Parses one agent block `id ':' statement-list`.
    fn parse_agent(&mut self) -> (r: Result<Agent, ParseError>)
        requires
            old(self).wf(),
        ensures
            final(self).wf(),
            final(self).toks() == old(self).toks(),
            old(self).pos() <= final(self).pos() <= old(self).toks().len(),
            r matches Ok(v) ==> spec_parse_agent(old(self).toks(), old(self).pos()) == Ok::<
                _,
                SpecParseError,
            >((v@, final(self).pos())) && old(self).pos() < final(self).pos(),
            r matches Err(e) ==> spec_parse_agent(old(self).toks(), old(self).pos()) == Err::<
                (SpecAgent, int),
                _,
            >(e@),
        decreases old(self).toks().len() - old(self).pos(), 10int,
    {
        let start = self.span_of(0);
        let id = match self.peek_kind(0) {
            TokenKind::AgentId(n) => n,
            k => {
                return Err(ParseError::unexpected_token(
                    "agent ID",
                    k.description(),
                    self.span_of(0),
                ));
            },
        };
        if !matches!(self.peek_kind(1), TokenKind::Colon) {
            return Err(ParseError::unexpected_token(
                "':'",
                self.peek_kind(1).description(),
                self.span_of(1),
            ));
        }
        self.bump(2);
        let ghost ts = self.tokens@;
        let ghost pq = self.pos();
        self.do_skip_space();
        proof {
            lemma_skip_space_bounds(ts, pq);
        }
        match self.parse_statement_list() {
            Ok((defs, expr)) => {
                let end = self.span_of(0);
                Ok(Agent {
                    id,
                    definitions: defs,
                    expression: expr,
                    span: Span {
                        start: start.start,
                        end: end.end,
                        line: start.line,
                        column: start.column,
                    },
                })
            },
            Err(e) => Err(e),
        }
    }

    /// Parses agent blocks until the end of input.
    fn agents_loop(&mut self) -> (r: Result<Vec<Agent>, ParseError>)
        requires
            old(self).wf(),
        ensures
            final(self).wf(),
            final(self).toks() == old(self).toks(),
            old(self).pos() <= final(self).pos() <= old(self).toks().len(),
            r matches Ok(v) ==> spec_agents_loop(old(self).toks(), old(self).pos()) == Ok::<
                _,
                SpecParseError,
            >((view_agents(v@), final(self).pos())),
            r matches Err(e) ==> spec_agents_loop(old(self).toks(), old(self).pos()) == Err::<
                (Seq<SpecAgent>, int),
                _,
            >(e@),
        decreases old(self).toks().len() - old(self).pos(), 11int,
    {
        if matches!(self.peek_kind(0), TokenKind::Eof) {
            let v: Vec<Agent> = Vec::new();
            proof {
                assert(view_agents(v@) =~= Seq::<SpecAgent>::empty());
            }
            return Ok(v);
        }
        match self.parse_agent() {
            Err(e) => Err(e),
            Ok(a) => {
                let ghost ts = self.tokens@;
                let ghost p2 = self.pos();
                self.do_skip_newlines();
                proof {
                    lemma_skip_newlines_bounds(ts, p2);
                }
                match self.agents_loop() {
                    Ok(mut rest) => {
                        let ghost a0 = a;
                        let ghost r0 = rest@;
                        rest.insert(0, a);
                        proof {
                            assert(rest@ =~= seq![a0] + r0);
                            crate::ast::lemma_view_agents_concat(seq![a0], r0);
                            assert(seq![a0].drop_last() =~= Seq::<Agent>::empty());
                            assert(view_agents(Seq::<Agent>::empty())
                                =~= Seq::<SpecAgent>::empty());
                            assert(view_agents(seq![a0]) =~= seq![a0@]);
                        }
                        Ok(rest)
                    },
                    Err(e) => Err(e),
                }
            },
        }
    }

    /// Parses the whole program.  Returns exactly what
    /// [`spec_parse_program`] says of this parser's token stream.
    pub fn parse_program(&mut self) -> (r: Result<Program, ParseError>)
        requires
            old(self).wf(),
            old(self).pos() == 0,
        ensures
            final(self).wf(),
            r matches Ok(v) ==> spec_parse_program(old(self).toks()) == Ok::<_, SpecParseError>(
                v@,
            ),
            r matches Err(e) ==> spec_parse_program(old(self).toks()) == Err::<SpecProgram, _>(e@),
    {
        let ghost ts = self.tokens@;
        self.do_skip_newlines();
        proof {
            lemma_skip_newlines_bounds(ts, 0);
        }
        let directives = match self.parse_directives() {
            Ok(ds) => ds,
            Err(e) => {
                return Err(e);
            },
        };
        let limits = match Self::build_limit_config(&directives) {
            Ok(c) => c,
            Err(e) => {
                return Err(e);
            },
        };
        let ghost p2 = self.pos();
        self.do_skip_newlines();
        proof {
            lemma_skip_newlines_bounds(ts, p2);
        }
        if matches!(self.peek_kind(0), TokenKind::Eof) {
            let agents: Vec<Agent> = Vec::new();
            proof {
                assert(view_agents(agents@) =~= Seq::<SpecAgent>::empty());
            }
            return Ok(Program { directives, limits, agents });
        }
        if matches!(self.peek_kind(0), TokenKind::AgentId(_)) {
            match self.agents_loop() {
                Ok(agents) => Ok(Program { directives, limits, agents }),
                Err(e) => Err(e),
            }
        } else {
            let start = self.span_of(0);
            match self.parse_statement_list() {
                Ok((defs, expr)) => {
                    let end = self.span_of(0);
                    let agent = Agent {
                        id: 0,
                        definitions: defs,
                        expression: expr,
                        span: Span {
                            start: start.start,
                            end: end.end,
                            line: start.line,
                            column: start.column,
                        },
                    };
                    let ghost ag0 = agent;
                    let mut agents: Vec<Agent> = Vec::new();
                    agents.push(agent);
                    proof {
                        assert(agents@ =~= seq![ag0]);
                        assert(seq![ag0].drop_last() =~= Seq::<Agent>::empty());
                        assert(view_agents(Seq::<Agent>::empty()) =~= Seq::<SpecAgent>::empty());
                        assert(view_agents(agents@) =~= seq![ag0@]);
                    }
                    Ok(Program { directives, limits, agents })
                },
                Err(e) => Err(e),
            }
        }
    }
}

} // verus!
