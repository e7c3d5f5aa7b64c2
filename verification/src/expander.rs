//! Expander: macro and function expansion of one agent's expression into
//! a flat command list, under recursion-depth and step limits.
//!
//! The whole evaluation — parameter binding, numeric-expression folding
//! with range checks, the zero-argument-call defaults, the numeric
//! termination rule, and the step/depth limit policies — is specified by
//! [`spec_expand`] and friends; [`Expander::expand_agent`] is proved to
//! return exactly what [`spec_expand_agent`] says.

use vstd::prelude::*;

use crate::ast::{
    Agent, Arg, Definition, Expr, FuncDef, LimitConfig, NumAtom, NumOp, OnLimitBehavior,
    ParamType, Primitive, SpecAgent, SpecArg, SpecDefinition, SpecExpr, spec_expr_span, view_args,
    view_defs, view_expr, view_exprs,
};
use crate::error::{
    expand_error_at, msg_argument_count_mismatch, msg_cmdseq_used_in_numexpr, msg_int_used_as_term,
    msg_max_recursion_depth, msg_max_step_exceeded, msg_numeric_out_of_range,
    msg_undefined_function, msg_undefined_parameter, ExpandError, SpecError,
};
use crate::token::Span;

verus! {

/// A fully resolved primitive command.
#[derive(Debug, Clone, Copy, PartialEq, Eq, Structural)]
pub enum Command {
    /// Move straight (forward).
    Straight,
    /// Rotate right.
    Right,
    /// Rotate left.
    Left,
}

impl Command {
    /// The source character for this command.
    pub fn as_char(&self) -> (c: char)
        ensures
            self is Straight ==> c == 's',
            self is Right ==> c == 'r',
            self is Left ==> c == 'l',
    {
        match self {
            Command::Straight => 's',
            Command::Right => 'r',
            Command::Left => 'l',
        }
    }

    /// The command for a primitive.
    pub fn from_primitive(p: Primitive) -> (r: Command)
        ensures
            r == prim_command(p),
    {
        match p {
            Primitive::Straight => Command::Straight,
            Primitive::Right => Command::Right,
            Primitive::Left => Command::Left,
        }
    }
}

/// The command a primitive maps to.
pub open spec fn prim_command(p: Primitive) -> Command {
    match p {
        Primitive::Straight => Command::Straight,
        Primitive::Right => Command::Right,
        Primitive::Left => Command::Left,
    }
}

/// The runtime binding of one parameter during one call.
#[derive(Debug)]
pub enum ParamValue {
    /// A command sequence.
    Commands(Vec<Command>),
    /// A number.
    Number(i32),
}

/// Spec-level mirror of [`ParamValue`].
pub enum SpecParamValue {
    /// A command sequence.
    Commands(Seq<Command>),
    /// A number.
    Number(i32),
}

impl View for ParamValue {
    type V = SpecParamValue;

    open spec fn view(&self) -> SpecParamValue {
        match self {
            ParamValue::Commands(cs) => SpecParamValue::Commands(cs@),
            ParamValue::Number(n) => SpecParamValue::Number(*n),
        }
    }
}

/// One function of the expansion environment: parameters, their inferred
/// types, and the body (a macro is a function without parameters).
pub struct SpecFunc {
    /// Parameter names, in order.
    pub params: Seq<char>,
    /// Inferred parameter types, parallel to `params`.
    pub types: Seq<ParamType>,
    /// The body to expand.
    pub body: SpecExpr,
}

/// The function a definition contributes.
pub open spec fn def_func(d: SpecDefinition) -> SpecFunc {
    match d {
        SpecDefinition::Macro(m) => SpecFunc {
            params: Seq::<char>::empty(),
            types: Seq::<ParamType>::empty(),
            body: m.body,
        },
        SpecDefinition::Function(f) => SpecFunc { params: f.params, types: f.param_types, body: f.body },
    }
}

/// The name a definition binds.
pub open spec fn def_name(d: SpecDefinition) -> char {
    match d {
        SpecDefinition::Macro(m) => m.name,
        SpecDefinition::Function(f) => f.name,
    }
}

/// The function table of an agent: later definitions of the same name
/// override earlier ones.
pub open spec fn func_table(defs: Seq<SpecDefinition>) -> Map<char, SpecFunc>
    decreases defs,
{
    if defs.len() == 0 {
        Map::<char, SpecFunc>::empty()
    } else {
        func_table(defs.drop_last()).insert(def_name(defs.last()), def_func(defs.last()))
    }
}

/// The type of parameter `i`, defaulting to a command sequence where the
/// type list is shorter than the parameter list.
pub open spec fn type_of(f: SpecFunc, i: int) -> ParamType {
    if 0 <= i < f.types.len() {
        f.types[i]
    } else {
        ParamType::CmdSeq
    }
}

/// Whether any parameter of `f` from index `i` on is integer-typed.
pub open spec fn has_int_param(f: SpecFunc, i: int) -> bool
    decreases f.params.len() - i,
{
    if i < 0 || i >= f.params.len() {
        false
    } else if type_of(f, i) is Int {
        true
    } else {
        has_int_param(f, i + 1)
    }
}

/// The environment after binding every parameter from `i` on to the
/// empty command sequence.
pub open spec fn bind_empty(env: Map<char, SpecParamValue>, params: Seq<char>, i: int) -> Map<
    char,
    SpecParamValue,
>
    decreases params.len() - i,
{
    if i < 0 || i >= params.len() {
        env
    } else {
        bind_empty(
            env.insert(params[i], SpecParamValue::Commands(Seq::<Command>::empty())),
            params,
            i + 1,
        )
    }
}

// ---------------------------------------------------------------------------
// The step limit
// ---------------------------------------------------------------------------

/// One primitive command against the step limit: under the abort policy
/// an exhausted budget is fatal; under truncation it sets the truncated
/// flag and emits nothing; otherwise the command is emitted and counted.
pub open spec fn spec_add_command(l: LimitConfig, cmd: Command, count: nat, span: Span) -> Result<
    (Seq<Command>, nat, bool),
    SpecError,
> {
    if count >= l.max_step {
        if l.on_limit is Error {
            Err(expand_error_at(msg_max_step_exceeded(l.max_step as nat), span))
        } else {
            Ok((Seq::<Command>::empty(), count, true))
        }
    } else {
        Ok((seq![cmd], (count + 1) as nat, false))
    }
}

/// Emits the commands of a bound sequence one by one, each against the
/// step limit, stopping at truncation.
pub open spec fn spec_emit(l: LimitConfig, cs: Seq<Command>, i: int, count: nat, span: Span) -> Result<
    (Seq<Command>, nat, bool),
    SpecError,
>
    decreases cs.len() - i,
{
    if i < 0 || i >= cs.len() {
        Ok((Seq::<Command>::empty(), count, false))
    } else {
        match spec_add_command(l, cs[i], count, span) {
            Err(e) => Err(e),
            Ok((out0, c1, t1)) => if t1 {
                Ok((out0, c1, t1))
            } else {
                match spec_emit(l, cs, i + 1, c1, span) {
                    Ok((out2, c2, t2)) => Ok((out0 + out2, c2, t2)),
                    Err(e) => Err(e),
                }
            },
        }
    }
}

// ---------------------------------------------------------------------------
// Numeric expressions
// ---------------------------------------------------------------------------

/// Evaluates one numeric atom: a literal is range-checked; a parameter
/// must be bound to a number.
pub open spec fn spec_eval_atom(a: NumAtom, env: Map<char, SpecParamValue>, span: Span) -> Result<
    i32,
    SpecError,
> {
    match a {
        NumAtom::Number(n) => if n < -255 || n > 255 {
            Err(expand_error_at(msg_numeric_out_of_range(n as int), span))
        } else {
            Ok(n)
        },
        NumAtom::Param(p) => if !env.contains_key(p) {
            Err(expand_error_at(msg_undefined_parameter(p), span))
        } else {
            match env[p] {
                SpecParamValue::Number(n) => Ok(n),
                SpecParamValue::Commands(_) => Err(expand_error_at(msg_cmdseq_used_in_numexpr(p), span)),
            }
        },
    }
}

/// Folds the `(op atom)` steps left to right; every intermediate result
/// is range-checked against `-255..=255`.
pub open spec fn spec_fold_num(
    rest: Seq<(NumOp, NumAtom)>,
    i: int,
    acc: i32,
    env: Map<char, SpecParamValue>,
    span: Span,
) -> Result<i32, SpecError>
    decreases rest.len() - i,
{
    if i < 0 || i >= rest.len() {
        Ok(acc)
    } else {
        match spec_eval_atom(rest[i].1, env, span) {
            Err(e) => Err(e),
            Ok(v) => {
                let sum: int = if rest[i].0 is Add {
                    acc as int + v as int
                } else {
                    acc as int - v as int
                };
                if sum < -255 || sum > 255 {
                    Err(expand_error_at(msg_numeric_out_of_range(sum), span))
                } else {
                    spec_fold_num(rest, i + 1, sum as i32, env, span)
                }
            },
        }
    }
}

// ---------------------------------------------------------------------------
// Expansion
// ---------------------------------------------------------------------------

/// How binding the arguments of a call ended: early termination by a
/// non-positive numeric argument, or a complete environment.
pub enum BindOut {
    /// A numeric argument was `<= 0`: the call produces nothing.
    Stop(nat, bool),
    /// All arguments bound.
    Done(Map<char, SpecParamValue>, nat, bool),
}

/// Expands one expression.  `count` and `trunc` are the step counter and
/// truncated flag shared across the whole expansion of one agent.
pub open spec fn spec_expand(
    tab: Map<char, SpecFunc>,
    l: LimitConfig,
    e: SpecExpr,
    depth: nat,
    env: Map<char, SpecParamValue>,
    count: nat,
    trunc: bool,
) -> Result<(Seq<Command>, nat, bool), SpecError>
    decreases l.max_depth + 1 - depth, e, 0int, 2int,
{
    if depth > l.max_depth {
        Err(expand_error_at(msg_max_recursion_depth(), spec_expr_span(e)))
    } else if trunc {
        Ok((Seq::<Command>::empty(), count, trunc))
    } else {
        match e {
            SpecExpr::Primitive(p, span) => spec_add_command(l, prim_command(p), count, span),
            SpecExpr::Param(name, span) => if !env.contains_key(name) {
                Err(expand_error_at(msg_undefined_parameter(name), span))
            } else {
                match env[name] {
                    SpecParamValue::Commands(cs) => spec_emit(l, cs, 0, count, span),
                    SpecParamValue::Number(_) => Err(expand_error_at(msg_int_used_as_term(name), span)),
                }
            },
            SpecExpr::FuncCall { name, args, span } => if !tab.contains_key(name) {
                Err(expand_error_at(msg_undefined_function(name), span))
            } else {
                let f = tab[name];
                if args.len() == 0 && f.params.len() > 0 {
                    if has_int_param(f, 0) {
                        Ok((Seq::<Command>::empty(), count, trunc))
                    } else {
                        spec_expand(
                            tab,
                            l,
                            f.body,
                            (depth + 1) as nat,
                            bind_empty(env, f.params, 0),
                            count,
                            trunc,
                        )
                    }
                } else if args.len() != f.params.len() {
                    Err(expand_error_at(
                        msg_argument_count_mismatch(name, f.params.len() as nat, args.len() as nat),
                        span,
                    ))
                } else {
                    match spec_bind_args(tab, l, args, f.params, 0, env, env, depth, count, trunc) {
                        Err(e) => Err(e),
                        Ok(BindOut::Stop(c2, t2)) => Ok((Seq::<Command>::empty(), c2, t2)),
                        Ok(BindOut::Done(env2, c2, t2)) => spec_expand(
                            tab,
                            l,
                            f.body,
                            (depth + 1) as nat,
                            env2,
                            c2,
                            t2,
                        ),
                    }
                }
            },
            SpecExpr::Sequence(es) => spec_expand_seq(tab, l, es, 0, depth, env, count, trunc),
        }
    }
}

/// Expands the children of a sequence left to right, concatenating their
/// commands; once truncation is signalled, later children are skipped.
pub open spec fn spec_expand_seq(
    tab: Map<char, SpecFunc>,
    l: LimitConfig,
    es: Seq<SpecExpr>,
    i: int,
    depth: nat,
    env: Map<char, SpecParamValue>,
    count: nat,
    trunc: bool,
) -> Result<(Seq<Command>, nat, bool), SpecError>
    decreases l.max_depth + 1 - depth, es, es.len() - i, 0int,
{
    if i < 0 || i >= es.len() {
        Ok((Seq::<Command>::empty(), count, trunc))
    } else if trunc {
        Ok((Seq::<Command>::empty(), count, trunc))
    } else {
        match spec_expand(tab, l, es[i], depth, env, count, trunc) {
            Err(e) => Err(e),
            Ok((out1, c1, t1)) => match spec_expand_seq(tab, l, es, i + 1, depth, env, c1, t1) {
                Ok((out2, c2, t2)) => Ok((out1 + out2, c2, t2)),
                Err(e) => Err(e),
            },
        }
    }
}

/// Evaluates one call-site argument to a parameter value.  An argument
/// that is exactly a bound parameter passes its binding through
/// unchanged; a command expression is expanded (consuming step budget);
/// numbers and numeric expressions are range-checked.
pub open spec fn spec_eval_arg(
    tab: Map<char, SpecFunc>,
    l: LimitConfig,
    a: SpecArg,
    depth: nat,
    env: Map<char, SpecParamValue>,
    count: nat,
    trunc: bool,
) -> Result<(SpecParamValue, nat, bool), SpecError>
    decreases l.max_depth + 1 - depth, a, 0int, 1int,
{
    match a {
        SpecArg::Command(e) => {
            if (e matches SpecExpr::Param(p, _) && env.contains_key(p)) {
                Ok((env[e->Param_0], count, trunc))
            } else {
                match spec_expand(tab, l, e, depth, env, count, trunc) {
                    Ok((cmds, c2, t2)) => Ok((SpecParamValue::Commands(cmds), c2, t2)),
                    Err(err) => Err(err),
                }
            }
        },
        SpecArg::Number(n, span) => if n < -255 || n > 255 {
            Err(expand_error_at(msg_numeric_out_of_range(n as int), span))
        } else {
            Ok((SpecParamValue::Number(n), count, trunc))
        },
        SpecArg::NumExpr { first, rest, span } => match spec_eval_atom(first, env, span) {
            Err(e) => Err(e),
            Ok(v0) => match spec_fold_num(rest, 0, v0, env, span) {
                Err(e) => Err(e),
                Ok(v) => Ok((SpecParamValue::Number(v), count, trunc)),
            },
        },
    }
}

/// Binds the arguments of a call to the callee's parameters, in order,
/// threading the step counter; a numeric argument `<= 0` terminates the
/// whole call with the empty result.
pub open spec fn spec_bind_args(
    tab: Map<char, SpecFunc>,
    l: LimitConfig,
    args: Seq<SpecArg>,
    params: Seq<char>,
    i: int,
    caller_env: Map<char, SpecParamValue>,
    acc_env: Map<char, SpecParamValue>,
    depth: nat,
    count: nat,
    trunc: bool,
) -> Result<BindOut, SpecError>
    decreases l.max_depth + 1 - depth, args, args.len() - i, 0int,
{
    if i < 0 || i >= args.len() || i >= params.len() {
        Ok(BindOut::Done(acc_env, count, trunc))
    } else {
        match spec_eval_arg(tab, l, args[i], depth, caller_env, count, trunc) {
            Err(e) => Err(e),
            Ok((v, c2, t2)) => {
                if (v matches SpecParamValue::Number(n) && n <= 0) {
                    Ok(BindOut::Stop(c2, t2))
                } else {
                    spec_bind_args(
                        tab,
                        l,
                        args,
                        params,
                        i + 1,
                        caller_env,
                        acc_env.insert(params[i], v),
                        depth,
                        c2,
                        t2,
                    )
                }
            },
        }
    }
}

/// Expands one agent: its definitions form the function table, and its
/// root expression is expanded from depth 0 with fresh counters.
pub open spec fn spec_expand_agent(l: LimitConfig, a: SpecAgent) -> Result<Seq<Command>, SpecError> {
    match spec_expand(
        func_table(a.definitions),
        l,
        a.expression,
        0,
        Map::<char, SpecParamValue>::empty(),
        0,
        false,
    ) {
        Ok((cmds, _, _)) => Ok(cmds),
        Err(e) => Err(e),
    }
}

// ---------------------------------------------------------------------------
// Laws
// ---------------------------------------------------------------------------

/// Law: expansion is deterministic.  An agent's command list is a
/// function of the limit configuration and the agent alone; two
/// successful expansions of the same agent are identical.
pub proof fn lemma_expansion_deterministic(
    l: LimitConfig,
    a: SpecAgent,
    r1: Seq<Command>,
    r2: Seq<Command>,
)
    requires
        spec_expand_agent(l, a) == Ok::<_, SpecError>(r1),
        spec_expand_agent(l, a) == Ok::<_, SpecError>(r2),
    ensures
        r1 == r2,
{
}

proof fn lemma_add_bound(l: LimitConfig, cmd: Command, count: nat, span: Span)
    requires
        count <= l.max_step,
    ensures
        spec_add_command(l, cmd, count, span) matches Ok((out, c2, t2)) ==> count <= c2
            <= l.max_step && out.len() <= c2 - count && (t2 ==> c2 == l.max_step),
{
}

proof fn lemma_emit_bound(l: LimitConfig, cs: Seq<Command>, i: int, count: nat, span: Span)
    requires
        count <= l.max_step,
    ensures
        spec_emit(l, cs, i, count, span) matches Ok((out, c2, t2)) ==> count <= c2 <= l.max_step
            && out.len() <= c2 - count && (t2 ==> c2 == l.max_step),
    decreases cs.len() - i,
{
    if 0 <= i < cs.len() {
        lemma_add_bound(l, cs[i], count, span);
        match spec_add_command(l, cs[i], count, span) {
            Ok((out0, c1, t1)) => {
                if !t1 {
                    lemma_emit_bound(l, cs, i + 1, c1, span);
                }
            },
            Err(_) => {},
        }
    }
}

/// Law: step accounting.  Whatever one expansion step returns, the step
/// counter never passes the ceiling, the commands that come out are no
/// more than the steps counted, and under the truncate policy a set
/// truncated flag means the counter stands exactly at `max_step`.
pub proof fn lemma_expand_bound(
    tab: Map<char, SpecFunc>,
    l: LimitConfig,
    e: SpecExpr,
    depth: nat,
    env: Map<char, SpecParamValue>,
    count: nat,
    trunc: bool,
)
    requires
        count <= l.max_step,
        trunc ==> count == l.max_step,
    ensures
        spec_expand(tab, l, e, depth, env, count, trunc) matches Ok((out, c2, t2)) ==> count <= c2
            <= l.max_step && out.len() <= c2 - count && (t2 ==> c2 == l.max_step),
    decreases l.max_depth + 1 - depth, e, 0int, 2int,
{
    if depth > l.max_depth || trunc {
    } else {
        match e {
            SpecExpr::Primitive(p, span) => {
                lemma_add_bound(l, prim_command(p), count, span);
            },
            SpecExpr::Param(name, span) => {
                if env.contains_key(name) {
                    match env[name] {
                        SpecParamValue::Commands(cs) => {
                            lemma_emit_bound(l, cs, 0, count, span);
                        },
                        SpecParamValue::Number(_) => {},
                    }
                }
            },
            SpecExpr::FuncCall { name, args, span } => {
                if tab.contains_key(name) {
                    let f = tab[name];
                    if args.len() == 0 && f.params.len() > 0 {
                        if !has_int_param(f, 0) {
                            lemma_expand_bound(
                                tab,
                                l,
                                f.body,
                                (depth + 1) as nat,
                                bind_empty(env, f.params, 0),
                                count,
                                trunc,
                            );
                        }
                    } else if args.len() == f.params.len() {
                        lemma_bind_bound(tab, l, args, f.params, 0, env, env, depth, count, trunc);
                        match spec_bind_args(tab, l, args, f.params, 0, env, env, depth, count, trunc) {
                            Ok(BindOut::Done(env2, c2, t2)) => {
                                lemma_expand_bound(tab, l, f.body, (depth + 1) as nat, env2, c2, t2);
                            },
                            _ => {},
                        }
                    }
                }
            },
            SpecExpr::Sequence(es) => {
                lemma_seq_bound(tab, l, es, 0, depth, env, count, trunc);
            },
        }
    }
}

proof fn lemma_seq_bound(
    tab: Map<char, SpecFunc>,
    l: LimitConfig,
    es: Seq<SpecExpr>,
    i: int,
    depth: nat,
    env: Map<char, SpecParamValue>,
    count: nat,
    trunc: bool,
)
    requires
        count <= l.max_step,
        trunc ==> count == l.max_step,
    ensures
        spec_expand_seq(tab, l, es, i, depth, env, count, trunc) matches Ok((out, c2, t2)) ==> count
            <= c2 <= l.max_step && out.len() <= c2 - count && (t2 ==> c2 == l.max_step),
    decreases l.max_depth + 1 - depth, es, es.len() - i, 0int,
{
    if 0 <= i < es.len() && !trunc {
        lemma_expand_bound(tab, l, es[i], depth, env, count, trunc);
        match spec_expand(tab, l, es[i], depth, env, count, trunc) {
            Ok((out1, c1, t1)) => {
                lemma_seq_bound(tab, l, es, i + 1, depth, env, c1, t1);
            },
            Err(_) => {},
        }
    }
}

proof fn lemma_eval_arg_bound(
    tab: Map<char, SpecFunc>,
    l: LimitConfig,
    a: SpecArg,
    depth: nat,
    env: Map<char, SpecParamValue>,
    count: nat,
    trunc: bool,
)
    requires
        count <= l.max_step,
        trunc ==> count == l.max_step,
    ensures
        spec_eval_arg(tab, l, a, depth, env, count, trunc) matches Ok((v, c2, t2)) ==> count <= c2
            <= l.max_step && (t2 ==> c2 == l.max_step),
    decreases l.max_depth + 1 - depth, a, 0int, 1int,
{
    match a {
        SpecArg::Command(e) => {
            if !(e matches SpecExpr::Param(p, _) && env.contains_key(p)) {
                lemma_expand_bound(tab, l, e, depth, env, count, trunc);
            }
        },
        SpecArg::Number(_, _) => {},
        SpecArg::NumExpr { .. } => {},
    }
}

proof fn lemma_bind_bound(
    tab: Map<char, SpecFunc>,
    l: LimitConfig,
    args: Seq<SpecArg>,
    params: Seq<char>,
    i: int,
    caller_env: Map<char, SpecParamValue>,
    acc_env: Map<char, SpecParamValue>,
    depth: nat,
    count: nat,
    trunc: bool,
)
    requires
        count <= l.max_step,
        trunc ==> count == l.max_step,
    ensures
        spec_bind_args(tab, l, args, params, i, caller_env, acc_env, depth, count, trunc) matches Ok(bo)
            ==> (match bo {
            BindOut::Stop(c2, t2) => count <= c2 <= l.max_step && (t2 ==> c2 == l.max_step),
            BindOut::Done(_, c2, t2) => count <= c2 <= l.max_step && (t2 ==> c2 == l.max_step),
        }),
    decreases l.max_depth + 1 - depth, args, args.len() - i, 0int,
{
    if 0 <= i < args.len() && i < params.len() {
        lemma_eval_arg_bound(tab, l, args[i], depth, caller_env, count, trunc);
        match spec_eval_arg(tab, l, args[i], depth, caller_env, count, trunc) {
            Ok((v, c2, t2)) => {
                if !(v matches SpecParamValue::Number(n) && n <= 0) {
                    lemma_bind_bound(
                        tab,
                        l,
                        args,
                        params,
                        i + 1,
                        caller_env,
                        acc_env.insert(params[i], v),
                        depth,
                        c2,
                        t2,
                    );
                }
            },
            Err(_) => {},
        }
    }
}

/// Law: step accounting for a whole agent — the returned command list
/// never holds more than `max_step` commands, under either limit policy.
pub proof fn lemma_step_accounting(l: LimitConfig, a: SpecAgent, cmds: Seq<Command>)
    requires
        spec_expand_agent(l, a) == Ok::<_, SpecError>(cmds),
    ensures
        cmds.len() <= l.max_step,
{
    lemma_expand_bound(
        func_table(a.definitions),
        l,
        a.expression,
        0,
        Map::<char, SpecParamValue>::empty(),
        0,
        false,
    );
}

/// A span carrying no position, for expressions built in specifications.
pub open spec fn zero_span() -> Span {
    Span { start: 0, end: 0, line: 0, column: 0 }
}

/// The body `s f(X-1)`: one straight step, then the recursive call with
/// the counter decreased by one.
pub open spec fn counting_body(fname: char, pname: char) -> SpecExpr {
    SpecExpr::Sequence(
        seq![
            SpecExpr::Primitive(Primitive::Straight, zero_span()),
            SpecExpr::FuncCall {
                name: fname,
                args: seq![
                    SpecArg::NumExpr {
                        first: NumAtom::Param(pname),
                        rest: seq![(NumOp::Sub, NumAtom::Number(1))],
                        span: zero_span(),
                    },
                ],
                span: zero_span(),
            },
        ],
    )
}

/// A table holding only the counting function `f(X): s f(X-1)` with an
/// integer-typed parameter.
pub open spec fn counting_table(fname: char, pname: char) -> Map<char, SpecFunc> {
    Map::<char, SpecFunc>::empty().insert(
        fname,
        SpecFunc {
            params: seq![pname],
            types: seq![ParamType::Int],
            body: counting_body(fname, pname),
        },
    )
}

/// `n` straight commands.
pub open spec fn straights(n: nat) -> Seq<Command> {
    Seq::new(n, |i: int| Command::Straight)
}

proof fn lemma_counting_body(
    fname: char,
    pname: char,
    l: LimitConfig,
    k: i32,
    depth: nat,
    env: Map<char, SpecParamValue>,
    count: nat,
)
    requires
        1 <= k <= 255,
        env.contains_key(pname),
        env[pname] == SpecParamValue::Number(k),
        depth + k <= l.max_depth + 1,
        count + k <= l.max_step,
    ensures
        spec_expand(counting_table(fname, pname), l, counting_body(fname, pname), depth, env, count, false)
            == Ok::<_, SpecError>((straights(k as nat), (count + k) as nat, false)),
    decreases k,
{
    reveal_with_fuel(spec_expand, 3);
    reveal_with_fuel(spec_expand_seq, 3);
    reveal_with_fuel(spec_bind_args, 2);
    reveal_with_fuel(spec_fold_num, 2);
    let tab = counting_table(fname, pname);
    let body = counting_body(fname, pname);
    let es = body->Sequence_0;
    assert(es[0] == SpecExpr::Primitive(Primitive::Straight, zero_span()));
    assert(spec_add_command(l, Command::Straight, count, zero_span()) == Ok::<_, SpecError>((
        seq![Command::Straight],
        (count + 1) as nat,
        false,
    )));
    let call = es[1];
    let arg = call->args[0];
    assert(spec_eval_atom(NumAtom::Param(pname), env, zero_span()) == Ok::<_, SpecError>(k));
    assert(spec_fold_num(
        seq![(NumOp::Sub, NumAtom::Number(1))],
        0,
        k,
        env,
        zero_span(),
    ) == Ok::<_, SpecError>((k - 1) as i32));
    assert(spec_eval_arg(tab, l, arg, depth, env, (count + 1) as nat, false) == Ok::<
        _,
        SpecError,
    >((SpecParamValue::Number((k - 1) as i32), (count + 1) as nat, false)));
    if k == 1 {
        assert(spec_bind_args(tab, l, call->args, seq![pname], 0, env, env, depth, (count + 1) as nat, false)
            == Ok::<_, SpecError>(BindOut::Stop((count + 1) as nat, false)));
        assert(spec_expand(tab, l, call, depth, env, (count + 1) as nat, false)
            == Ok::<_, SpecError>((Seq::<Command>::empty(), (count + 1) as nat, false)));
        assert(spec_expand_seq(tab, l, es, 2, depth, env, (count + 1) as nat, false)
            == Ok::<_, SpecError>((Seq::<Command>::empty(), (count + 1) as nat, false)));
        assert(seq![Command::Straight] + Seq::<Command>::empty() =~= straights(1));
    } else {
        let env2 = env.insert(pname, SpecParamValue::Number((k - 1) as i32));
        assert(spec_bind_args(tab, l, call->args, seq![pname], 0, env, env, depth, (count + 1) as nat, false)
            == Ok::<_, SpecError>(BindOut::Done(env2, (count + 1) as nat, false)));
        lemma_counting_body(fname, pname, l, (k - 1) as i32, (depth + 1) as nat, env2, (count + 1) as nat);
        assert(spec_expand(tab, l, call, depth, env, (count + 1) as nat, false)
            == Ok::<_, SpecError>((straights((k - 1) as nat), (count + k) as nat, false)));
        assert(spec_expand_seq(tab, l, es, 2, depth, env, (count + k) as nat, false)
            == Ok::<_, SpecError>((Seq::<Command>::empty(), (count + k) as nat, false)));
        assert(seq![Command::Straight] + (straights((k - 1) as nat) + Seq::<Command>::empty())
            =~= straights(k as nat));
    }
}

/// Law: numeric termination.  For the counting function
/// `f(X): s f(X-1)` with an integer parameter, a call `f(k)` yields
/// nothing when `k <= 0`, and exactly `k` straight commands when
/// `0 < k` (given limits that admit the `k` steps and `k` call levels).
pub proof fn lemma_numeric_termination(
    fname: char,
    pname: char,
    l: LimitConfig,
    k: i32,
    depth: nat,
    env: Map<char, SpecParamValue>,
    count: nat,
)
    requires
        -255 <= k <= 255,
        depth + k <= l.max_depth,
        depth <= l.max_depth,
        count + k <= l.max_step,
        count <= l.max_step,
    ensures
        k <= 0 ==> spec_expand(
            counting_table(fname, pname),
            l,
            SpecExpr::FuncCall {
                name: fname,
                args: seq![SpecArg::Number(k, zero_span())],
                span: zero_span(),
            },
            depth,
            env,
            count,
            false,
        ) == Ok::<_, SpecError>((Seq::<Command>::empty(), count, false)),
        k > 0 ==> spec_expand(
            counting_table(fname, pname),
            l,
            SpecExpr::FuncCall {
                name: fname,
                args: seq![SpecArg::Number(k, zero_span())],
                span: zero_span(),
            },
            depth,
            env,
            count,
            false,
        ) == Ok::<_, SpecError>((straights(k as nat), (count + k) as nat, false)),
{
    reveal_with_fuel(spec_expand, 2);
    reveal_with_fuel(spec_bind_args, 2);
    let tab = counting_table(fname, pname);
    let call = SpecExpr::FuncCall {
        name: fname,
        args: seq![SpecArg::Number(k, zero_span())],
        span: zero_span(),
    };
    let arg = call->args[0];
    assert(spec_eval_arg(tab, l, arg, depth, env, count, false) == Ok::<_, SpecError>((
        SpecParamValue::Number(k),
        count,
        false,
    )));
    if k <= 0 {
        assert(spec_bind_args(tab, l, call->args, seq![pname], 0, env, env, depth, count, false)
            == Ok::<_, SpecError>(BindOut::Stop(count, false)));
    } else {
        let env2 = env.insert(pname, SpecParamValue::Number(k));
        assert(spec_bind_args(tab, l, call->args, seq![pname], 0, env, env, depth, count, false)
            == Ok::<_, SpecError>(BindOut::Done(env2, count, false)));
        lemma_counting_body(fname, pname, l, k, (depth + 1) as nat, env2, count);
    }
}

// ---------------------------------------------------------------------------
// Environments as association lists
// ---------------------------------------------------------------------------

/// The map an association list denotes: later pairs override earlier ones.
pub open spec fn env_view(s: Seq<(char, ParamValue)>) -> Map<char, SpecParamValue>
    decreases s,
{
    if s.len() == 0 {
        Map::<char, SpecParamValue>::empty()
    } else {
        env_view(s.drop_last()).insert(s.last().0, s.last().1@)
    }
}

/// A name that appears in no pair is not in the map.
proof fn lemma_env_view_absent(s: Seq<(char, ParamValue)>, name: char)
    requires
        forall|j: int| 0 <= j < s.len() ==> (#[trigger] s[j]).0 != name,
    ensures
        !env_view(s).contains_key(name),
    decreases s,
{
    if s.len() > 0 {
        lemma_env_view_absent(s.drop_last(), name);
    }
}

/// The map holds the value of the last pair with the given name.
proof fn lemma_env_view_at(s: Seq<(char, ParamValue)>, j: int, name: char)
    requires
        0 <= j < s.len(),
        s[j].0 == name,
        forall|j2: int| j < j2 < s.len() ==> (#[trigger] s[j2]).0 != name,
    ensures
        env_view(s).contains_key(name),
        env_view(s)[name] == s[j].1@,
    decreases s,
{
    if j < s.len() - 1 {
        lemma_env_view_at(s.drop_last(), j, name);
    }
}

/// Pairwise equal views give equal maps.
proof fn lemma_env_view_congruent(a: Seq<(char, ParamValue)>, b: Seq<(char, ParamValue)>)
    requires
        a.len() == b.len(),
        forall|j: int| 0 <= j < a.len() ==> (#[trigger] a[j]).0 == b[j].0 && a[j].1@ == b[j].1@,
    ensures
        env_view(a) == env_view(b),
    decreases a,
{
    if a.len() > 0 {
        lemma_env_view_congruent(a.drop_last(), b.drop_last());
        assert(env_view(a) =~= env_view(b));
    } else {
        assert(env_view(a) =~= env_view(b));
    }
}

/// Looks a name up in an association list, last binding first.
fn lookup_env<'a>(env: &'a Vec<(char, ParamValue)>, name: char) -> (r: Option<&'a ParamValue>)
    ensures
        r matches Some(v) ==> env_view(env@).contains_key(name) && v@ == env_view(env@)[name],
        r is None ==> !env_view(env@).contains_key(name),
{
    let n = env.len();
    let mut k = n;
    while k > 0
        invariant
            k <= n,
            n == env@.len(),
            forall|j: int| k <= j < n ==> (#[trigger] env@[j]).0 != name,
        decreases k,
    {
        if env[k - 1].0 == name {
            proof {
                lemma_env_view_at(env@, k - 1, name);
            }
            return Some(&env[k - 1].1);
        }
        k = k - 1;
    }
    proof {
        lemma_env_view_absent(env@, name);
    }
    None
}

/// Copies a command list.
fn clone_commands(v: &Vec<Command>) -> (r: Vec<Command>)
    ensures
        r@ == v@,
{
    let n = v.len();
    let mut out: Vec<Command> = Vec::new();
    let mut k: usize = 0;
    while k < n
        invariant
            k <= n,
            n == v@.len(),
            out@ =~= v@.subrange(0, k as int),
        decreases n - k,
    {
        out.push(v[k]);
        proof {
            assert(out@ =~= v@.subrange(0, k + 1));
        }
        k = k + 1;
    }
    proof {
        assert(out@ =~= v@);
    }
    out
}

/// Copies one parameter value.
fn clone_param_value(v: &ParamValue) -> (r: ParamValue)
    ensures
        r@ == v@,
{
    match v {
        ParamValue::Commands(cs) => ParamValue::Commands(clone_commands(cs)),
        ParamValue::Number(n) => ParamValue::Number(*n),
    }
}

/// Copies an environment; the denoted map is unchanged.
fn clone_env(env: &Vec<(char, ParamValue)>) -> (r: Vec<(char, ParamValue)>)
    ensures
        env_view(r@) == env_view(env@),
{
    let n = env.len();
    let mut out: Vec<(char, ParamValue)> = Vec::new();
    let mut k: usize = 0;
    while k < n
        invariant
            k <= n,
            n == env@.len(),
            out@.len() == k,
            forall|j: int| 0 <= j < k ==> (#[trigger] out@[j]).0 == env@[j].0 && out@[j].1@
                == env@[j].1@,
        decreases n - k,
    {
        let c = env[k].0;
        let v = clone_param_value(&env[k].1);
        out.push((c, v));
        k = k + 1;
    }
    proof {
        lemma_env_view_congruent(out@, env@);
    }
    out
}

/// Concatenates two command lists.
fn concat_commands(a: Vec<Command>, b: &Vec<Command>) -> (r: Vec<Command>)
    ensures
        r@ == a@ + b@,
{
    let ghost a0 = a@;
    let mut out = a;
    let n = b.len();
    let mut k: usize = 0;
    while k < n
        invariant
            k <= n,
            n == b@.len(),
            out@ =~= a0 + b@.subrange(0, k as int),
        decreases n - k,
    {
        out.push(b[k]);
        proof {
            assert(out@ =~= a0 + b@.subrange(0, k + 1));
        }
        k = k + 1;
    }
    proof {
        assert(out@ =~= a0 + b@);
    }
    out
}

// ---------------------------------------------------------------------------
// The function table as a definition list
// ---------------------------------------------------------------------------

/// A name defined by no definition is not in the table.
proof fn lemma_table_absent(defs: Seq<Definition>, name: char)
    requires
        forall|j: int| 0 <= j < defs.len() ==> def_name((#[trigger] defs[j])@) != name,
    ensures
        !func_table(view_defs(defs)).contains_key(name),
    decreases defs,
{
    crate::ast::lemma_view_defs_len(defs);
    if defs.len() > 0 {
        lemma_table_absent(defs.drop_last(), name);
        assert(view_defs(defs).drop_last() =~= view_defs(defs.drop_last()));
        assert(view_defs(defs).last() == defs.last()@);
    }
}

/// The table holds the function of the last definition with the name.
proof fn lemma_table_at(defs: Seq<Definition>, j: int, name: char)
    requires
        0 <= j < defs.len(),
        def_name(defs[j]@) == name,
        forall|j2: int| j < j2 < defs.len() ==> def_name((#[trigger] defs[j2])@) != name,
    ensures
        func_table(view_defs(defs)).contains_key(name),
        func_table(view_defs(defs))[name] == def_func(defs[j]@),
    decreases defs,
{
    crate::ast::lemma_view_defs_len(defs);
    assert(view_defs(defs).drop_last() =~= view_defs(defs.drop_last()));
    assert(view_defs(defs).last() == defs.last()@);
    if j < defs.len() - 1 {
        lemma_table_at(defs.drop_last(), j, name);
    }
}

/// Finds the last definition with the given name.
fn lookup_def(defs: &Vec<Definition>, name: char) -> (r: Option<usize>)
    ensures
        r matches Some(i) ==> {
            &&& 0 <= i < defs@.len()
            &&& func_table(view_defs(defs@)).contains_key(name)
            &&& func_table(view_defs(defs@))[name] == def_func(defs@[i as int]@)
        },
        r is None ==> !func_table(view_defs(defs@)).contains_key(name),
{
    let n = defs.len();
    let mut k = n;
    while k > 0
        invariant
            k <= n,
            n == defs@.len(),
            forall|j: int| k <= j < n ==> def_name((#[trigger] defs@[j])@) != name,
        decreases k,
    {
        if defs[k - 1].name() == name {
            proof {
                lemma_table_at(defs@, k - 1, name);
            }
            return Some(k - 1);
        }
        k = k - 1;
    }
    proof {
        lemma_table_absent(defs@, name);
    }
    None
}

// ---------------------------------------------------------------------------
// The executable expander
// ---------------------------------------------------------------------------

/// The shared mutable state of one agent's expansion: the running step
/// counter and the truncated flag.
struct ExpSt {
    /// Primitive commands generated so far.
    count: usize,
    /// Whether the step limit was crossed under the truncate policy.
    truncated: bool,
}

/// Expander for macro and function expansion.
pub struct Expander {
    /// Limit configuration shared by every expansion.
    limits: LimitConfig,
}

impl Default for Expander {
    /// An expander with the default limits.
    fn default() -> (r: Expander)
        ensures
            r.limits_spec() == crate::ast::default_limits(),
            r.wf(),
    {
        Expander { limits: LimitConfig::default() }
    }
}

impl Expander {
    /// The limits this expander enforces.
    pub closed spec fn limits_spec(&self) -> LimitConfig {
        self.limits
    }

    /// Well-formedness: the depth ceiling leaves room for the depth
    /// counter to step past it.
    pub closed spec fn wf(&self) -> bool {
        self.limits.max_depth < usize::MAX
    }

    /// Creates an expander with the default limits.
    pub fn new() -> (r: Expander)
        ensures
            r.limits_spec() == crate::ast::default_limits(),
            r.wf(),
    {
        Expander { limits: LimitConfig::default() }
    }

    /// Creates an expander with the given limits.
    pub fn with_limits(limits: LimitConfig) -> (r: Expander)
        requires
            limits.max_depth < usize::MAX,
        ensures
            r.limits_spec() == limits,
            r.wf(),
    {
        Expander { limits }
    }

    /// Creates an expander with the default limits except for the given
    /// recursion-depth ceiling.
    pub fn with_max_depth(max_depth: usize) -> (r: Expander)
        requires
            max_depth < usize::MAX,
        ensures
            r.limits_spec() == (LimitConfig { max_depth, ..crate::ast::default_limits() }),
            r.wf(),
    {
        Expander {
            limits: LimitConfig {
                max_step: crate::ast::DEFAULT_MAX_STEP,
                max_depth,
                max_memory: crate::ast::DEFAULT_MAX_MEMORY,
                on_limit: OnLimitBehavior::Error,
            },
        }
    }

    /// One primitive against the step limit.
    fn add_command(&self, cmd: Command, span: Span, st: &mut ExpSt) -> (r: Result<
        Option<Command>,
        ExpandError,
    >)
        requires
            self.wf(),
            !old(st).truncated,
        ensures
            r matches Ok(o) ==> (match o {
                Some(c) => spec_add_command(self.limits_spec(), cmd, old(st).count as nat, span)
                    == Ok::<_, SpecError>((seq![c], final(st).count as nat, final(st).truncated))
                    && !final(st).truncated,
                None => spec_add_command(self.limits_spec(), cmd, old(st).count as nat, span)
                    == Ok::<_, SpecError>((
                    Seq::<Command>::empty(),
                    final(st).count as nat,
                    final(st).truncated,
                )) && final(st).truncated,
            }),
            r matches Err(e) ==> spec_add_command(self.limits_spec(), cmd, old(st).count as nat, span)
                == Err::<(Seq<Command>, nat, bool), _>(e@),
    {
        if st.count >= self.limits.max_step {
            match self.limits.on_limit {
                OnLimitBehavior::Error => Err(ExpandError::max_step_exceeded(
                    self.limits.max_step,
                    span,
                )),
                OnLimitBehavior::Truncate => {
                    st.truncated = true;
                    Ok(None)
                },
            }
        } else {
            st.count = st.count + 1;
            st.truncated = false;
            Ok(Some(cmd))
        }
    }

    /// Emits the commands of a bound sequence from index `i` on.
    fn emit_cmds(&self, cs: &Vec<Command>, i: usize, span: Span, st: &mut ExpSt) -> (r: Result<
        Vec<Command>,
        ExpandError,
    >)
        requires
            self.wf(),
            !old(st).truncated,
            i <= cs@.len(),
        ensures
            r matches Ok(v) ==> spec_emit(self.limits_spec(), cs@, i as int, old(st).count as nat, span)
                == Ok::<_, SpecError>((v@, final(st).count as nat, final(st).truncated)),
            r matches Err(e) ==> spec_emit(self.limits_spec(), cs@, i as int, old(st).count as nat, span)
                == Err::<(Seq<Command>, nat, bool), _>(e@),
        decreases cs@.len() - i,
    {
        if i >= cs.len() {
            let v: Vec<Command> = Vec::new();
            proof {
                assert(v@ =~= Seq::<Command>::empty());
            }
            return Ok(v);
        }
        match self.add_command(cs[i], span, st) {
            Err(e) => Err(e),
            Ok(None) => {
                let v: Vec<Command> = Vec::new();
                proof {
                    assert(v@ =~= Seq::<Command>::empty());
                }
                Ok(v)
            },
            Ok(Some(c)) => {
                match self.emit_cmds(cs, i + 1, span, st) {
                    Ok(rest) => {
                        let mut v: Vec<Command> = Vec::new();
                        v.push(c);
                        let out = concat_commands(v, &rest);
                        proof {
                            assert(out@ =~= seq![c] + rest@);
                        }
                        Ok(out)
                    },
                    Err(e) => Err(e),
                }
            },
        }
    }

    /// Evaluates one numeric atom.
    fn eval_atom(a: NumAtom, env: &Vec<(char, ParamValue)>, span: Span) -> (r: Result<
        i32,
        ExpandError,
    >)
        ensures
            r matches Ok(v) ==> spec_eval_atom(a, env_view(env@), span) == Ok::<_, SpecError>(v),
            r matches Err(e) ==> spec_eval_atom(a, env_view(env@), span) == Err::<i32, _>(e@),
    {
        match a {
            NumAtom::Number(n) => {
                if n < -255 || n > 255 {
                    Err(ExpandError::numeric_out_of_range(n, span))
                } else {
                    Ok(n)
                }
            },
            NumAtom::Param(p) => {
                match lookup_env(env, p) {
                    None => Err(ExpandError::undefined_parameter(p, span)),
                    Some(v) => match v {
                        ParamValue::Number(n) => Ok(*n),
                        ParamValue::Commands(_) => Err(ExpandError::cmdseq_used_in_numexpr(p, span)),
                    },
                }
            },
        }
    }

    /// Folds the `(op atom)` steps of a numeric expression.
    fn fold_num(
        rest: &Vec<(NumOp, NumAtom)>,
        i: usize,
        acc: i32,
        env: &Vec<(char, ParamValue)>,
        span: Span,
    ) -> (r: Result<i32, ExpandError>)
        requires
            i <= rest@.len(),
        ensures
            r matches Ok(v) ==> spec_fold_num(rest@, i as int, acc, env_view(env@), span) == Ok::<
                _,
                SpecError,
            >(v),
            r matches Err(e) ==> spec_fold_num(rest@, i as int, acc, env_view(env@), span) == Err::<
                i32,
                _,
            >(e@),
        decreases rest@.len() - i,
    {
        if i >= rest.len() {
            return Ok(acc);
        }
        let (op, atom) = rest[i];
        match Self::eval_atom(atom, env, span) {
            Err(e) => Err(e),
            Ok(v) => {
                let sum: i64 = if matches!(op, NumOp::Add) {
                    acc as i64 + v as i64
                } else {
                    acc as i64 - v as i64
                };
                if sum < -255 || sum > 255 {
                    Err(ExpandError::numeric_out_of_range_wide(sum, span))
                } else {
                    Self::fold_num(rest, i + 1, sum as i32, env, span)
                }
            },
        }
    }

    /// Evaluates one call-site argument.
    fn eval_arg(
        &self,
        defs: &Vec<Definition>,
        a: &Arg,
        depth: usize,
        env: &Vec<(char, ParamValue)>,
        st: &mut ExpSt,
    ) -> (r: Result<ParamValue, ExpandError>)
        requires
            self.wf(),
            depth <= self.limits_spec().max_depth,
        ensures
            r matches Ok(v) ==> spec_eval_arg(
                func_table(view_defs(defs@)),
                self.limits_spec(),
                a@,
                depth as nat,
                env_view(env@),
                old(st).count as nat,
                old(st).truncated,
            ) == Ok::<_, SpecError>((v@, final(st).count as nat, final(st).truncated)),
            r matches Err(e) ==> spec_eval_arg(
                func_table(view_defs(defs@)),
                self.limits_spec(),
                a@,
                depth as nat,
                env_view(env@),
                old(st).count as nat,
                old(st).truncated,
            ) == Err::<(SpecParamValue, nat, bool), _>(e@),
        decreases self.limits_spec().max_depth + 1 - depth, a, 0int, 1int,
    {
        match a {
            Arg::Command(e) => {
                if let Expr::Param(p, _) = e {
                    match lookup_env(env, *p) {
                        Some(v) => {
                            return Ok(clone_param_value(v));
                        },
                        None => {},
                    }
                }
                match self.expand_expr(defs, e, depth, env, st) {
                    Ok(cmds) => Ok(ParamValue::Commands(cmds)),
                    Err(err) => Err(err),
                }
            },
            Arg::Number(n, span) => {
                if *n < -255 || *n > 255 {
                    Err(ExpandError::numeric_out_of_range(*n, *span))
                } else {
                    Ok(ParamValue::Number(*n))
                }
            },
            Arg::NumExpr { first, rest, span } => {
                match Self::eval_atom(*first, env, *span) {
                    Err(e) => Err(e),
                    Ok(v0) => {
                        match Self::fold_num(rest, 0, v0, env, *span) {
                            Err(e) => Err(e),
                            Ok(v) => Ok(ParamValue::Number(v)),
                        }
                    },
                }
            },
        }
    }

    /// Binds the arguments of a call from index `i` on; `None` means a
    /// numeric argument terminated the call.
    fn bind_args(
        &self,
        defs: &Vec<Definition>,
        args: &Vec<Arg>,
        fparams: &Vec<char>,
        i: usize,
        caller_env: &Vec<(char, ParamValue)>,
        acc_env: Vec<(char, ParamValue)>,
        depth: usize,
        st: &mut ExpSt,
    ) -> (r: Result<Option<Vec<(char, ParamValue)>>, ExpandError>)
        requires
            self.wf(),
            depth <= self.limits_spec().max_depth,
            i <= args@.len(),
        ensures
            r matches Ok(o) ==> (match o {
                Some(env2) => spec_bind_args(
                    func_table(view_defs(defs@)),
                    self.limits_spec(),
                    view_args(args@),
                    fparams@,
                    i as int,
                    env_view(caller_env@),
                    env_view(acc_env@),
                    depth as nat,
                    old(st).count as nat,
                    old(st).truncated,
                ) == Ok::<_, SpecError>(BindOut::Done(
                    env_view(env2@),
                    final(st).count as nat,
                    final(st).truncated,
                )),
                None => spec_bind_args(
                    func_table(view_defs(defs@)),
                    self.limits_spec(),
                    view_args(args@),
                    fparams@,
                    i as int,
                    env_view(caller_env@),
                    env_view(acc_env@),
                    depth as nat,
                    old(st).count as nat,
                    old(st).truncated,
                ) == Ok::<_, SpecError>(BindOut::Stop(final(st).count as nat, final(st).truncated)),
            }),
            r matches Err(e) ==> spec_bind_args(
                func_table(view_defs(defs@)),
                self.limits_spec(),
                view_args(args@),
                fparams@,
                i as int,
                env_view(caller_env@),
                env_view(acc_env@),
                depth as nat,
                old(st).count as nat,
                old(st).truncated,
            ) == Err::<BindOut, _>(e@),
        decreases self.limits_spec().max_depth + 1 - depth, args, args@.len() - i, 0int,
    {
        proof {
            crate::ast::lemma_view_args_len(args@);
        }
        if i >= args.len() || i >= fparams.len() {
            return Ok(Some(acc_env));
        }
        proof {
            crate::ast::lemma_view_args_index(args@, i as int);
        }
        match self.eval_arg(defs, &args[i], depth, caller_env, st) {
            Err(e) => Err(e),
            Ok(v) => {
                let stop: bool = match &v {
                    ParamValue::Number(n) => *n <= 0,
                    ParamValue::Commands(_) => false,
                };
                if stop {
                    Ok(None)
                } else {
                    let mut env2 = acc_env;
                    let ghost env20 = env2@;
                    let ghost v0 = v;
                    let c = fparams[i];
                    env2.push((c, v));
                    proof {
                        assert(env2@.drop_last() =~= env20);
                        assert(env_view(env2@) == env_view(env20).insert(c, v0@));
                    }
                    self.bind_args(defs, args, fparams, i + 1, caller_env, env2, depth, st)
                }
            },
        }
    }

    /// Expands the children of a sequence from index `i` on.
    fn expand_seq(
        &self,
        defs: &Vec<Definition>,
        es: &Vec<Expr>,
        i: usize,
        depth: usize,
        env: &Vec<(char, ParamValue)>,
        st: &mut ExpSt,
    ) -> (r: Result<Vec<Command>, ExpandError>)
        requires
            self.wf(),
            depth <= self.limits_spec().max_depth,
            i <= es@.len(),
        ensures
            r matches Ok(v) ==> spec_expand_seq(
                func_table(view_defs(defs@)),
                self.limits_spec(),
                view_exprs(es@),
                i as int,
                depth as nat,
                env_view(env@),
                old(st).count as nat,
                old(st).truncated,
            ) == Ok::<_, SpecError>((v@, final(st).count as nat, final(st).truncated)),
            r matches Err(e) ==> spec_expand_seq(
                func_table(view_defs(defs@)),
                self.limits_spec(),
                view_exprs(es@),
                i as int,
                depth as nat,
                env_view(env@),
                old(st).count as nat,
                old(st).truncated,
            ) == Err::<(Seq<Command>, nat, bool), _>(e@),
        decreases self.limits_spec().max_depth + 1 - depth, es, es@.len() - i, 0int,
    {
        proof {
            crate::ast::lemma_view_exprs_len(es@);
        }
        if i >= es.len() {
            let v: Vec<Command> = Vec::new();
            proof {
                assert(v@ =~= Seq::<Command>::empty());
            }
            return Ok(v);
        }
        if st.truncated {
            let v: Vec<Command> = Vec::new();
            proof {
                assert(v@ =~= Seq::<Command>::empty());
            }
            return Ok(v);
        }
        proof {
            crate::ast::lemma_view_exprs_index(es@, i as int);
        }
        match self.expand_expr(defs, &es[i], depth, env, st) {
            Err(e) => Err(e),
            Ok(out1) => {
                match self.expand_seq(defs, es, i + 1, depth, env, st) {
                    Err(e) => Err(e),
                    Ok(out2) => {
                        let out = concat_commands(out1, &out2);
                        Ok(out)
                    },
                }
            },
        }
    }

    /// Expands one expression under the given environment.
    #[verifier::rlimit(100)]
    fn expand_expr(
        &self,
        defs: &Vec<Definition>,
        e: &Expr,
        depth: usize,
        env: &Vec<(char, ParamValue)>,
        st: &mut ExpSt,
    ) -> (r: Result<Vec<Command>, ExpandError>)
        requires
            self.wf(),
            depth <= self.limits_spec().max_depth + 1,
        ensures
            r matches Ok(v) ==> spec_expand(
                func_table(view_defs(defs@)),
                self.limits_spec(),
                e@,
                depth as nat,
                env_view(env@),
                old(st).count as nat,
                old(st).truncated,
            ) == Ok::<_, SpecError>((v@, final(st).count as nat, final(st).truncated)),
            r matches Err(er) ==> spec_expand(
                func_table(view_defs(defs@)),
                self.limits_spec(),
                e@,
                depth as nat,
                env_view(env@),
                old(st).count as nat,
                old(st).truncated,
            ) == Err::<(Seq<Command>, nat, bool), _>(er@),
        decreases self.limits_spec().max_depth + 1 - depth, e, 0int, 2int,
    {
        if depth > self.limits.max_depth {
            let sp = e.span();
            proof {
                crate::ast::lemma_view_expr_span(*e);
            }
            return Err(ExpandError::max_recursion_depth(sp));
        }
        if st.truncated {
            let v: Vec<Command> = Vec::new();
            proof {
                assert(v@ =~= Seq::<Command>::empty());
            }
            return Ok(v);
        }
        match e {
            Expr::Primitive(p, span) => {
                match self.add_command(Command::from_primitive(*p), *span, st) {
                    Err(er) => {
                        return Err(er);
                    },
                    Ok(Some(c)) => {
                        let mut v: Vec<Command> = Vec::new();
                        v.push(c);
                        proof {
                            assert(v@ =~= seq![c]);
                        }
                        return Ok(v);
                    },
                    Ok(None) => {
                        let v: Vec<Command> = Vec::new();
                        proof {
                            assert(v@ =~= Seq::<Command>::empty());
                        }
                        return Ok(v);
                    },
                }
            },
            Expr::Param(name, span) => {
                match lookup_env(env, *name) {
                    None => {
                        return Err(ExpandError::undefined_parameter(*name, *span));
                    },
                    Some(pv) => match pv {
                        ParamValue::Commands(cs) => {
                            return self.emit_cmds(cs, 0, *span, st);
                        },
                        ParamValue::Number(_) => {
                            return Err(ExpandError::int_used_as_term(*name, *span));
                        },
                    },
                }
            },
            Expr::FuncCall { name, args, span } => {
                match lookup_def(defs, *name) {
                    None => {
                        return Err(ExpandError::undefined_function(*name, *span));
                    },
                    Some(di) => {
                        proof {
                            crate::ast::lemma_view_args_len(args@);
                        }
                        match &defs[di] {
                            Definition::Macro(m) => {
                                if args.len() != 0 {
                                    return Err(ExpandError::argument_count_mismatch(
                                        *name,
                                        0,
                                        args.len(),
                                        *span,
                                    ));
                                }
                                proof {
                                    assert(view_args(args@) =~= Seq::<SpecArg>::empty());
                                }
                                let rr = self.expand_expr(defs, &m.body, depth + 1, env, st);
                                proof {
                                    let tab = func_table(view_defs(defs@));
                                    let f = tab[*name];
                                    let bo = spec_bind_args(
                                        tab,
                                        self.limits_spec(),
                                        view_args(args@),
                                        f.params,
                                        0,
                                        env_view(env@),
                                        env_view(env@),
                                        depth as nat,
                                        old(st).count as nat,
                                        old(st).truncated,
                                    );
                                    assert(bo == Ok::<BindOut, SpecError>(BindOut::Done(
                                        env_view(env@),
                                        old(st).count as nat,
                                        old(st).truncated,
                                    )));
                                    assert(spec_expand(
                                        tab,
                                        self.limits_spec(),
                                        e@,
                                        depth as nat,
                                        env_view(env@),
                                        old(st).count as nat,
                                        old(st).truncated,
                                    ) == spec_expand(
                                        tab,
                                        self.limits_spec(),
                                        f.body,
                                        (depth + 1) as nat,
                                        env_view(env@),
                                        old(st).count as nat,
                                        old(st).truncated,
                                    ));
                                }
                                return rr;
                            },
                            Definition::Function(f) => {
                                let np = f.params.len();
                                if args.len() == 0 && np > 0 {
                                    if Self::has_int_exec(f) {
                                        let v: Vec<Command> = Vec::new();
                                        proof {
                                            assert(v@ =~= Seq::<Command>::empty());
                                        }
                                        return Ok(v);
                                    } else {
                                        let env2 = Self::bind_empty_exec(env, &f.params);
                                        return self.expand_expr(defs, &f.body, depth + 1, &env2, st);
                                    }
                                } else if args.len() != np {
                                    return Err(ExpandError::argument_count_mismatch(
                                        *name,
                                        np,
                                        args.len(),
                                        *span,
                                    ));
                                } else {
                                    let acc = clone_env(env);
                                    match self.bind_args(
                                        defs,
                                        args,
                                        &f.params,
                                        0,
                                        env,
                                        acc,
                                        depth,
                                        st,
                                    ) {
                                        Err(er) => {
                                            return Err(er);
                                        },
                                        Ok(None) => {
                                            let v: Vec<Command> = Vec::new();
                                            proof {
                                                assert(v@ =~= Seq::<Command>::empty());
                                            }
                                            return Ok(v);
                                        },
                                        Ok(Some(env2)) => {
                                            return self.expand_expr(defs, &f.body, depth + 1, &env2, st);
                                        },
                                    }
                                }
                            },
                        }
                    },
                }
            },
            Expr::Sequence(es) => self.expand_seq(defs, es, 0, depth, env, st),
        }
    }

    /// Whether any parameter of `f` is integer-typed.
    fn has_int_exec(f: &FuncDef) -> (r: bool)
        ensures
            r == has_int_param(def_func(SpecDefinition::Function(f@)), 0),
    {
        let n = f.params.len();
        let nt = f.param_types.len();
        let mut k: usize = 0;
        while k < n
            invariant
                n == f.params@.len(),
                nt == f.param_types@.len(),
                k <= n,
                has_int_param(def_func(SpecDefinition::Function(f@)), 0) == has_int_param(def_func(SpecDefinition::Function(f@)), k as int),
            decreases n - k,
        {
            let t: ParamType = if k < nt {
                f.param_types[k]
            } else {
                ParamType::CmdSeq
            };
            if matches!(t, ParamType::Int) {
                return true;
            }
            k = k + 1;
        }
        false
    }

    /// Binds every parameter to the empty command sequence, on top of
    /// the caller's environment.
    fn bind_empty_exec(env: &Vec<(char, ParamValue)>, params: &Vec<char>) -> (r: Vec<
        (char, ParamValue),
    >)
        ensures
            env_view(r@) == bind_empty(env_view(env@), params@, 0),
    {
        let n = params.len();
        let mut out = clone_env(env);
        let mut k: usize = 0;
        while k < n
            invariant
                n == params@.len(),
                k <= n,
                bind_empty(env_view(env@), params@, 0) == bind_empty(env_view(out@), params@, k as int),
            decreases n - k,
        {
            let c = params[k];
            let ghost o0 = out@;
            out.push((c, ParamValue::Commands(Vec::new())));
            proof {
                assert(out@.drop_last() =~= o0);
                assert(out@.last().1@ == SpecParamValue::Commands(Seq::<Command>::empty()));
                assert(env_view(out@) == env_view(o0).insert(
                    c,
                    SpecParamValue::Commands(Seq::<Command>::empty()),
                ));
            }
            k = k + 1;
        }
        out
    }

    /// Expands an agent's expression to its command list: exactly what
    /// [`spec_expand_agent`] says for this expander's limits.
    pub fn expand_agent(&self, agent: &Agent) -> (r: Result<Vec<Command>, ExpandError>)
        requires
            self.wf(),
        ensures
            r matches Ok(v) ==> spec_expand_agent(self.limits_spec(), agent@) == Ok::<_, SpecError>(
                v@,
            ),
            r matches Err(e) ==> spec_expand_agent(self.limits_spec(), agent@) == Err::<
                Seq<Command>,
                _,
            >(e@),
    {
        let mut st = ExpSt { count: 0, truncated: false };
        let env: Vec<(char, ParamValue)> = Vec::new();
        proof {
            assert(env_view(env@) =~= Map::<char, SpecParamValue>::empty());
        }
        match self.expand_expr(&agent.definitions, &agent.expression, 0, &env, &mut st) {
            Ok(v) => Ok(v),
            Err(e) => Err(e),
        }
    }
}

} // verus!
