//! Abstract syntax tree: directives, limit configuration, expressions,
//! definitions, agents, and whole programs.

use vstd::prelude::*;

use crate::token::{DirectiveName, LimitWord, Span};

verus! {

/// Default ceiling on generated primitive commands.
pub const DEFAULT_MAX_STEP: usize = 1000000;

/// Default ceiling on expansion recursion depth.
pub const DEFAULT_MAX_DEPTH: usize = 100;

/// Default (advisory) memory ceiling.
pub const DEFAULT_MAX_MEMORY: usize = 1000000;

/// Behaviour when the step limit is exceeded during expansion.
#[derive(Debug, Clone, Copy, PartialEq, Eq, Structural)]
pub enum OnLimitBehavior {
    /// Report a step-limit error and abort compilation.
    Error,
    /// Stop emitting commands and return what was generated so far.
    Truncate,
}

impl Default for OnLimitBehavior {
    /// The default behaviour is to abort with an error.
    fn default() -> (r: OnLimitBehavior)
        ensures
            r is Error,
    {
        OnLimitBehavior::Error
    }
}

/// Execution limit configuration, derived from the directive block.
#[derive(Debug, Clone, Copy, PartialEq, Eq, Structural)]
pub struct LimitConfig {
    /// Maximum number of generated commands (`s`/`r`/`l`).
    pub max_step: usize,
    /// Maximum recursion depth during expansion.
    pub max_depth: usize,
    /// Maximum memory use during expansion (reserved, advisory).
    pub max_memory: usize,
    /// Behaviour when the step limit is exceeded.
    pub on_limit: OnLimitBehavior,
}

/// The default limit configuration.
pub open spec fn default_limits() -> LimitConfig {
    LimitConfig {
        max_step: DEFAULT_MAX_STEP,
        max_depth: DEFAULT_MAX_DEPTH,
        max_memory: DEFAULT_MAX_MEMORY,
        on_limit: OnLimitBehavior::Error,
    }
}

impl Default for LimitConfig {
    /// Limits used when no directive overrides them.
    fn default() -> (r: LimitConfig)
        ensures
            r == default_limits(),
    {
        LimitConfig {
            max_step: DEFAULT_MAX_STEP,
            max_depth: DEFAULT_MAX_DEPTH,
            max_memory: DEFAULT_MAX_MEMORY,
            on_limit: OnLimitBehavior::Error,
        }
    }
}

/// Value of a directive: a number, or a word such as `ERROR`/`TRUNCATE`.
#[derive(Debug, Clone, Copy, PartialEq, Eq, Structural)]
pub enum DirectiveValue {
    /// Numeric value.
    Number(i64),
    /// Word value (only meaningful for `ON_LIMIT`).
    Word(LimitWord),
}

/// A single parsed directive line (e.g. `MAX_STEP=1000`).
#[derive(Debug, Clone, Copy, PartialEq, Eq, Structural)]
pub struct Directive {
    /// The directive's name.
    pub name: DirectiveName,
    /// The directive's value.
    pub value: DirectiveValue,
    /// Source location of the directive line.
    pub span: Span,
}

/// Basic command primitive.
#[derive(Debug, Clone, Copy, PartialEq, Eq, Structural)]
pub enum Primitive {
    /// `s`: move straight (forward).
    Straight,
    /// `r`: rotate right.
    Right,
    /// `l`: rotate left.
    Left,
}

impl Primitive {
    /// The source character for this primitive.
    pub fn as_char(&self) -> (c: char)
        ensures
            self is Straight ==> c == 's',
            self is Right ==> c == 'r',
            self is Left ==> c == 'l',
    {
        match self {
            Primitive::Straight => 's',
            Primitive::Right => 'r',
            Primitive::Left => 'l',
        }
    }
}

/// Operator inside a numeric argument expression.
#[derive(Debug, Clone, Copy, PartialEq, Eq, Structural)]
pub enum NumOp {
    /// `+`
    Add,
    /// `-`
    Sub,
}

/// Atom of a numeric argument expression: a literal or a parameter.
#[derive(Debug, Clone, Copy, PartialEq, Eq, Structural)]
pub enum NumAtom {
    /// A number literal.
    Number(i32),
    /// A parameter reference, which must be bound to a number.
    Param(char),
}

/// A call-site argument.
#[derive(Debug)]
pub enum Arg {
    /// A command expression (e.g. `srl`, `XXX`).
    Command(Expr),
    /// A number literal (e.g. `4`, `-1`).
    Number(i32, Span),
    /// A numeric expression: a first atom followed by further
    /// operator-atom steps, folded left to right (e.g. `X-1`, `X+1-2`).
    NumExpr { first: NumAtom, rest: Vec<(NumOp, NumAtom)>, span: Span },
}

/// An expression tree, before expansion.
#[derive(Debug)]
pub enum Expr {
    /// A primitive command.
    Primitive(Primitive, Span),
    /// A parameter reference inside a function body.
    Param(char, Span),
    /// A macro or function call; a bare identifier is a call with no
    /// arguments.
    FuncCall { name: char, args: Vec<Arg>, span: Span },
    /// A sequence of expressions, run left to right.
    Sequence(Vec<Expr>),
}

impl Expr {
    /// The source span of this expression; a sequence spans its first to
    /// last child, and an empty sequence has the all-zero span.
    pub open spec fn spec_span(&self) -> Span
        decreases self,
    {
        match self {
            Expr::Primitive(_, span) => *span,
            Expr::Param(_, span) => *span,
            Expr::FuncCall { span, .. } => *span,
            Expr::Sequence(exprs) => {
                if exprs@.len() == 0 {
                    Span { start: 0, end: 0, line: 0, column: 0 }
                } else {
                    let first = exprs@[0].spec_span();
                    let last = exprs@[exprs@.len() - 1].spec_span();
                    Span { start: first.start, end: last.end, line: first.line, column: first.column }
                }
            },
        }
    }

    /// Returns the source span of this expression.
    pub fn span(&self) -> (r: Span)
        ensures
            r == self.spec_span(),
        decreases self,
    {
        match self {
            Expr::Primitive(_, span) => *span,
            Expr::Param(_, span) => *span,
            Expr::FuncCall { span, .. } => *span,
            Expr::Sequence(exprs) => {
                if exprs.len() == 0 {
                    Span { start: 0, end: 0, line: 0, column: 0 }
                } else {
                    let first = exprs[0].span();
                    let last = exprs[exprs.len() - 1].span();
                    Span { start: first.start, end: last.end, line: first.line, column: first.column }
                }
            },
        }
    }

    /// Whether this is an empty sequence.
    pub fn is_empty(&self) -> (r: bool)
        ensures
            r == (self matches Expr::Sequence(es) && es@.len() == 0),
    {
        match self {
            Expr::Sequence(exprs) => exprs.len() == 0,
            _ => false,
        }
    }
}

impl Arg {
    /// The source span of this argument.
    pub open spec fn spec_span(&self) -> Span {
        match self {
            Arg::Command(expr) => expr.spec_span(),
            Arg::Number(_, span) => *span,
            Arg::NumExpr { span, .. } => *span,
        }
    }

    /// Returns the source span of this argument.
    pub fn span(&self) -> (r: Span)
        ensures
            r == self.spec_span(),
    {
        match self {
            Arg::Command(expr) => expr.span(),
            Arg::Number(_, span) => *span,
            Arg::NumExpr { span, .. } => *span,
        }
    }
}

/// The inferred type of a function parameter, fixed at definition time
/// from the parameter's syntactic role in the body.
#[derive(Debug, Clone, Copy, PartialEq, Eq, Structural)]
pub enum ParamType {
    /// Used as a bare term: carries a command sequence.
    CmdSeq,
    /// Used inside a numeric expression: carries an integer.
    Int,
}

/// A macro definition: a named command sequence with no parameters.
#[derive(Debug)]
pub struct MacroDef {
    /// Macro name (single lowercase letter).
    pub name: char,
    /// Macro body.
    pub body: Expr,
    /// Source location.
    pub span: Span,
}

/// A function definition with parameters.
#[derive(Debug)]
pub struct FuncDef {
    /// Function name (single lowercase letter).
    pub name: char,
    /// Parameter names (uppercase letters), in order.
    pub params: Vec<char>,
    /// Inferred type of each parameter, parallel to `params`.
    pub param_types: Vec<ParamType>,
    /// Function body.
    pub body: Expr,
    /// Source location.
    pub span: Span,
}

/// A definition: a macro or a function.
#[derive(Debug)]
pub enum Definition {
    /// A macro (no parameters).
    Macro(MacroDef),
    /// A function (with parameters).
    Function(FuncDef),
}

impl Definition {
    /// The name this definition binds.
    pub fn name(&self) -> (c: char)
        ensures
            self matches Definition::Macro(m) ==> c == m.name,
            self matches Definition::Function(f) ==> c == f.name,
    {
        match self {
            Definition::Macro(m) => m.name,
            Definition::Function(f) => f.name,
        }
    }

    /// The source span of this definition.
    pub fn span(&self) -> (r: Span)
        ensures
            self matches Definition::Macro(m) ==> r == m.span,
            self matches Definition::Function(f) ==> r == f.span,
    {
        match self {
            Definition::Macro(m) => m.span,
            Definition::Function(f) => f.span,
        }
    }
}

/// One agent of the program: its own definitions and one root expression.
#[derive(Debug)]
pub struct Agent {
    /// Agent ID.
    pub id: u32,
    /// Macro and function definitions visible to this agent alone.
    pub definitions: Vec<Definition>,
    /// The expression the agent executes.
    pub expression: Expr,
    /// Source location.
    pub span: Span,
}

/// A whole parsed program.
#[derive(Debug)]
pub struct Program {
    /// The directive lines, in source order.
    pub directives: Vec<Directive>,
    /// Limit configuration derived from the directives.
    pub limits: LimitConfig,
    /// The agents, in source order.
    pub agents: Vec<Agent>,
}

// ---------------------------------------------------------------------------
// Spec-level mirrors: the same trees over `Seq` instead of `Vec`
// ---------------------------------------------------------------------------

/// Spec-level mirror of [`Arg`].
pub enum SpecArg {
    /// Mirror of `Arg::Command`.
    Command(SpecExpr),
    /// Mirror of `Arg::Number`.
    Number(i32, Span),
    /// Mirror of `Arg::NumExpr`.
    NumExpr { first: NumAtom, rest: Seq<(NumOp, NumAtom)>, span: Span },
}

/// Spec-level mirror of [`Expr`].
pub enum SpecExpr {
    /// Mirror of `Expr::Primitive`.
    Primitive(Primitive, Span),
    /// Mirror of `Expr::Param`.
    Param(char, Span),
    /// Mirror of `Expr::FuncCall`.
    FuncCall { name: char, args: Seq<SpecArg>, span: Span },
    /// Mirror of `Expr::Sequence`.
    Sequence(Seq<SpecExpr>),
}

/// The view of an expression.
pub open spec fn view_expr(e: Expr) -> SpecExpr
    decreases e,
{
    match e {
        Expr::Primitive(p, span) => SpecExpr::Primitive(p, span),
        Expr::Param(c, span) => SpecExpr::Param(c, span),
        Expr::FuncCall { name, args, span } => SpecExpr::FuncCall {
            name: name,
            args: view_args(args@),
            span: span,
        },
        Expr::Sequence(es) => SpecExpr::Sequence(view_exprs(es@)),
    }
}

/// The views of a sequence of expressions, element by element.
pub open spec fn view_exprs(es: Seq<Expr>) -> Seq<SpecExpr>
    decreases es,
{
    if es.len() == 0 {
        Seq::<SpecExpr>::empty()
    } else {
        view_exprs(es.drop_last()) + seq![view_expr(es.last())]
    }
}

/// The view of an argument.
pub open spec fn view_arg(a: Arg) -> SpecArg
    decreases a,
{
    match a {
        Arg::Command(e) => SpecArg::Command(view_expr(e)),
        Arg::Number(n, span) => SpecArg::Number(n, span),
        Arg::NumExpr { first, rest, span } => SpecArg::NumExpr { first: first, rest: rest@, span: span },
    }
}

/// The views of a sequence of arguments, element by element.
pub open spec fn view_args(args: Seq<Arg>) -> Seq<SpecArg>
    decreases args,
{
    if args.len() == 0 {
        Seq::<SpecArg>::empty()
    } else {
        view_args(args.drop_last()) + seq![view_arg(args.last())]
    }
}

/// Element access through [`view_exprs`].
pub broadcast proof fn lemma_view_exprs_index(es: Seq<Expr>, i: int)
    requires
        0 <= i < es.len(),
    ensures
        #[trigger] view_exprs(es)[i] == view_expr(es[i]),
        view_exprs(es).len() == es.len(),
    decreases es,
{
    lemma_view_exprs_len(es);
    if es.len() > 0 && i < es.len() - 1 {
        lemma_view_exprs_index(es.drop_last(), i);
    }
}

/// [`view_exprs`] preserves length.
pub broadcast proof fn lemma_view_exprs_len(es: Seq<Expr>)
    ensures
        #[trigger] view_exprs(es).len() == es.len(),
    decreases es,
{
    if es.len() > 0 {
        lemma_view_exprs_len(es.drop_last());
    }
}

/// Element access through [`view_args`].
pub broadcast proof fn lemma_view_args_index(args: Seq<Arg>, i: int)
    requires
        0 <= i < args.len(),
    ensures
        #[trigger] view_args(args)[i] == view_arg(args[i]),
        view_args(args).len() == args.len(),
    decreases args,
{
    lemma_view_args_len(args);
    if args.len() > 0 && i < args.len() - 1 {
        lemma_view_args_index(args.drop_last(), i);
    }
}

/// [`view_args`] preserves length.
pub broadcast proof fn lemma_view_args_len(args: Seq<Arg>)
    ensures
        #[trigger] view_args(args).len() == args.len(),
    decreases args,
{
    if args.len() > 0 {
        lemma_view_args_len(args.drop_last());
    }
}

/// The source span of a spec-level expression (mirror of
/// [`Expr::spec_span`]).
pub open spec fn spec_expr_span(e: SpecExpr) -> Span
    decreases e,
{
    match e {
        SpecExpr::Primitive(_, span) => span,
        SpecExpr::Param(_, span) => span,
        SpecExpr::FuncCall { span, .. } => span,
        SpecExpr::Sequence(es) => {
            if es.len() == 0 {
                Span { start: 0, end: 0, line: 0, column: 0 }
            } else {
                let first = spec_expr_span(es[0]);
                let last = spec_expr_span(es[es.len() - 1]);
                Span { start: first.start, end: last.end, line: first.line, column: first.column }
            }
        },
    }
}

/// Taking the view preserves the span.
pub proof fn lemma_view_expr_span(e: Expr)
    ensures
        spec_expr_span(view_expr(e)) == e.spec_span(),
    decreases e,
{
    match e {
        Expr::Sequence(es) => {
            lemma_view_exprs_len(es@);
            if es@.len() > 0 {
                lemma_view_exprs_index(es@, 0);
                lemma_view_exprs_index(es@, es@.len() - 1);
                lemma_view_expr_span(es@[0]);
                lemma_view_expr_span(es@[es@.len() - 1]);
            }
        },
        _ => {},
    }
}

/// [`view_exprs`] distributes over concatenation.
pub proof fn lemma_view_exprs_concat(a: Seq<Expr>, b: Seq<Expr>)
    ensures
        view_exprs(a + b) == view_exprs(a) + view_exprs(b),
    decreases b.len(),
{
    if b.len() == 0 {
        assert(a + b =~= a);
        assert(view_exprs(a) + view_exprs(b) =~= view_exprs(a));
    } else {
        assert((a + b).drop_last() =~= a + b.drop_last());
        assert((a + b).last() == b.last());
        lemma_view_exprs_concat(a, b.drop_last());
        assert(view_exprs(a + b) =~= view_exprs(a) + view_exprs(b));
    }
}

/// [`view_args`] distributes over concatenation.
pub proof fn lemma_view_args_concat(a: Seq<Arg>, b: Seq<Arg>)
    ensures
        view_args(a + b) == view_args(a) + view_args(b),
    decreases b.len(),
{
    if b.len() == 0 {
        assert(a + b =~= a);
        assert(view_args(a) + view_args(b) =~= view_args(a));
    } else {
        assert((a + b).drop_last() =~= a + b.drop_last());
        assert((a + b).last() == b.last());
        lemma_view_args_concat(a, b.drop_last());
        assert(view_args(a + b) =~= view_args(a) + view_args(b));
    }
}

impl View for Expr {
    type V = SpecExpr;

    open spec fn view(&self) -> SpecExpr {
        view_expr(*self)
    }
}

impl View for Arg {
    type V = SpecArg;

    open spec fn view(&self) -> SpecArg {
        view_arg(*self)
    }
}

/// Spec-level mirror of [`MacroDef`].
pub struct SpecMacroDef {
    /// Macro name.
    pub name: char,
    /// Macro body.
    pub body: SpecExpr,
    /// Source location.
    pub span: Span,
}

impl View for MacroDef {
    type V = SpecMacroDef;

    open spec fn view(&self) -> SpecMacroDef {
        SpecMacroDef { name: self.name, body: view_expr(self.body), span: self.span }
    }
}

/// Spec-level mirror of [`FuncDef`].
pub struct SpecFuncDef {
    /// Function name.
    pub name: char,
    /// Parameter names, in order.
    pub params: Seq<char>,
    /// Inferred parameter types, parallel to `params`.
    pub param_types: Seq<ParamType>,
    /// Function body.
    pub body: SpecExpr,
    /// Source location.
    pub span: Span,
}

impl View for FuncDef {
    type V = SpecFuncDef;

    open spec fn view(&self) -> SpecFuncDef {
        SpecFuncDef {
            name: self.name,
            params: self.params@,
            param_types: self.param_types@,
            body: view_expr(self.body),
            span: self.span,
        }
    }
}

/// Spec-level mirror of [`Definition`].
pub enum SpecDefinition {
    /// Mirror of `Definition::Macro`.
    Macro(SpecMacroDef),
    /// Mirror of `Definition::Function`.
    Function(SpecFuncDef),
}

impl View for Definition {
    type V = SpecDefinition;

    open spec fn view(&self) -> SpecDefinition {
        match self {
            Definition::Macro(m) => SpecDefinition::Macro(m@),
            Definition::Function(f) => SpecDefinition::Function(f@),
        }
    }
}

/// The views of a sequence of definitions, element by element.
pub open spec fn view_defs(ds: Seq<Definition>) -> Seq<SpecDefinition>
    decreases ds,
{
    if ds.len() == 0 {
        Seq::<SpecDefinition>::empty()
    } else {
        view_defs(ds.drop_last()) + seq![ds.last()@]
    }
}

/// [`view_defs`] preserves length and elements.
pub broadcast proof fn lemma_view_defs_index(ds: Seq<Definition>, i: int)
    requires
        0 <= i < ds.len(),
    ensures
        #[trigger] view_defs(ds)[i] == ds[i]@,
        view_defs(ds).len() == ds.len(),
    decreases ds,
{
    lemma_view_defs_len(ds);
    if ds.len() > 0 && i < ds.len() - 1 {
        lemma_view_defs_index(ds.drop_last(), i);
    }
}

/// [`view_defs`] preserves length.
pub broadcast proof fn lemma_view_defs_len(ds: Seq<Definition>)
    ensures
        #[trigger] view_defs(ds).len() == ds.len(),
    decreases ds,
{
    if ds.len() > 0 {
        lemma_view_defs_len(ds.drop_last());
    }
}

/// [`view_defs`] distributes over concatenation.
pub proof fn lemma_view_defs_concat(a: Seq<Definition>, b: Seq<Definition>)
    ensures
        view_defs(a + b) == view_defs(a) + view_defs(b),
    decreases b.len(),
{
    if b.len() == 0 {
        assert(a + b =~= a);
        assert(view_defs(a) + view_defs(b) =~= view_defs(a));
    } else {
        assert((a + b).drop_last() =~= a + b.drop_last());
        assert((a + b).last() == b.last());
        lemma_view_defs_concat(a, b.drop_last());
        assert(view_defs(a + b) =~= view_defs(a) + view_defs(b));
    }
}

/// Spec-level mirror of [`Agent`].
pub struct SpecAgent {
    /// Agent ID.
    pub id: u32,
    /// The agent's definitions.
    pub definitions: Seq<SpecDefinition>,
    /// The agent's root expression.
    pub expression: SpecExpr,
    /// Source location.
    pub span: Span,
}

impl View for Agent {
    type V = SpecAgent;

    open spec fn view(&self) -> SpecAgent {
        SpecAgent {
            id: self.id,
            definitions: view_defs(self.definitions@),
            expression: view_expr(self.expression),
            span: self.span,
        }
    }
}

/// Spec-level mirror of [`Program`].
pub struct SpecProgram {
    /// The directive lines.
    pub directives: Seq<Directive>,
    /// The derived limit configuration.
    pub limits: LimitConfig,
    /// The agents.
    pub agents: Seq<SpecAgent>,
}

/// The views of a sequence of agents, element by element.
pub open spec fn view_agents(ags: Seq<Agent>) -> Seq<SpecAgent>
    decreases ags,
{
    if ags.len() == 0 {
        Seq::<SpecAgent>::empty()
    } else {
        view_agents(ags.drop_last()) + seq![ags.last()@]
    }
}

/// [`view_agents`] preserves length and elements.
pub broadcast proof fn lemma_view_agents_index(ags: Seq<Agent>, i: int)
    requires
        0 <= i < ags.len(),
    ensures
        #[trigger] view_agents(ags)[i] == ags[i]@,
        view_agents(ags).len() == ags.len(),
    decreases ags,
{
    lemma_view_agents_len(ags);
    if ags.len() > 0 && i < ags.len() - 1 {
        lemma_view_agents_index(ags.drop_last(), i);
    }
}

/// [`view_agents`] preserves length.
pub broadcast proof fn lemma_view_agents_len(ags: Seq<Agent>)
    ensures
        #[trigger] view_agents(ags).len() == ags.len(),
    decreases ags,
{
    if ags.len() > 0 {
        lemma_view_agents_len(ags.drop_last());
    }
}

/// [`view_agents`] distributes over concatenation.
pub proof fn lemma_view_agents_concat(a: Seq<Agent>, b: Seq<Agent>)
    ensures
        view_agents(a + b) == view_agents(a) + view_agents(b),
    decreases b.len(),
{
    if b.len() == 0 {
        assert(a + b =~= a);
        assert(view_agents(a) + view_agents(b) =~= view_agents(a));
    } else {
        assert((a + b).drop_last() =~= a + b.drop_last());
        assert((a + b).last() == b.last());
        lemma_view_agents_concat(a, b.drop_last());
        assert(view_agents(a + b) =~= view_agents(a) + view_agents(b));
    }
}

impl View for Program {
    type V = SpecProgram;

    open spec fn view(&self) -> SpecProgram {
        SpecProgram {
            directives: self.directives@,
            limits: self.limits,
            agents: view_agents(self.agents@),
        }
    }
}

} // verus!
