//! Compiler for a small robot-movement language: three primitive commands
//! (`s`, `r`, `l`), named macro and function definitions with parameters,
//! bounded numeric recursion, resource-limit directives, and multi-agent
//! programs whose command streams are merged into a lock-step timeline.
//!
//! The pipeline is: source text -> lexer -> token stream -> parser ->
//! `Program` (directives, limit configuration, agents) -> expander (one
//! command list per agent) -> scheduler (step-indexed timeline).
//!
//! Every stage is specified by a mathematical model (a spec function over
//! sequences) and the executable code is proved to return exactly what the
//! model says, for every input.

use vstd::prelude::*;

pub mod ast;
pub mod error;
pub mod expander;
pub mod lexer;
pub mod output;
pub mod parser;
pub mod scheduler;
pub mod text;
pub mod token;

use crate::ast::{LimitConfig, SpecAgent};
use crate::error::{parse_error_message, CompileError, SpecError, SpecParseError};
use crate::expander::{spec_expand_agent, Command, Expander};
use crate::lexer::{spec_tokenize, Lexer};
use crate::output::{
    spec_from_expanded, CompileResult, CompiledProgram, SpecCompileResult,
};
use crate::parser::{spec_parse_program, Parser};
use crate::scheduler::{agents_view, spec_schedule, Scheduler};
use crate::token::{Token, TokenKind};

verus! {

// ---------------------------------------------------------------------------
// Whole-pipeline compilation
// ---------------------------------------------------------------------------

/// Expands the agents from index `i` on, stopping at the first error.
pub open spec fn spec_expand_all(l: LimitConfig, agents: Seq<SpecAgent>, i: int) -> Result<
    Seq<(u32, Seq<Command>)>,
    SpecError,
>
    decreases agents.len() - i,
{
    if i < 0 || i >= agents.len() {
        Ok(Seq::<(u32, Seq<Command>)>::empty())
    } else {
        match spec_expand_agent(l, agents[i]) {
            Err(e) => Err(e),
            Ok(cmds) => match spec_expand_all(l, agents, i + 1) {
                Ok(rest) => Ok(seq![(agents[i].id, cmds)] + rest),
                Err(e) => Err(e),
            },
        }
    }
}

/// The result of compiling a whole source text: the specification of
/// [`compile_native`].  The pipeline stops at the first error of any
/// stage; otherwise every agent's command list is expanded and the
/// timeline scheduled.
pub open spec fn spec_compile(src: Seq<char>) -> SpecCompileResult {
    match spec_tokenize(src) {
        Err(le) => SpecCompileResult::Error(
            seq![SpecError { msg: le.msg, line: le.line, col: le.col }],
        ),
        Ok(ts) => match spec_parse_program(ts) {
            Err(pe) => SpecCompileResult::Error(
                seq![SpecError { msg: parse_error_message(pe), line: pe.line, col: pe.col }],
            ),
            Ok(prog) => match spec_expand_all(prog.limits, prog.agents, 0) {
                Err(ee) => SpecCompileResult::Error(seq![ee]),
                Ok(ex) => SpecCompileResult::Success(spec_from_expanded(ex, spec_schedule(ex))),
            },
        },
    }
}

/// A successfully built limit configuration stays within the directive
/// value ranges.
proof fn lemma_build_limit_bounds(ds: Seq<crate::ast::Directive>)
    ensures
        crate::parser::spec_build_limit_config(ds) matches Ok(c) ==> c.max_depth <= 10000
            && c.max_step <= 10000000 && c.max_memory <= 10000000,
    decreases ds.len(),
{
    if ds.len() > 0 {
        lemma_build_limit_bounds(ds.drop_last());
    }
}

/// A successfully parsed program's limits stay within the directive
/// value ranges.
proof fn lemma_parse_program_limits(ts: Seq<Token>)
    ensures
        spec_parse_program(ts) matches Ok(prog) ==> prog.limits.max_depth <= 10000
            && prog.limits.max_step <= 10000000,
{
    let p1 = crate::parser::skip_newlines(ts, 0);
    if 0 <= p1 <= ts.len() {
        match crate::parser::spec_parse_directives(ts, p1) {
            Ok((ds, _)) => {
                lemma_build_limit_bounds(ds);
            },
            Err(_) => {},
        }
    }
}

/// Compiles a whole source text to per-agent command lists and the
/// execution timeline, or the first error found.  Returns exactly what
/// [`spec_compile`] says.
pub fn compile_native(source: &str) -> (r: CompileResult)
    ensures
        r@ == spec_compile(source@),
{
    let mut parser = match Parser::new(source) {
        Ok(p) => p,
        Err(e) => {
            let mut errors: Vec<CompileError> = Vec::new();
            errors.push(CompileError::from_parse_error(e));
            proof {
                assert(Seq::new(errors@.len(), |i: int| errors@[i]@) =~= seq![errors@[0]@]);
            }
            return CompileResult::Error { errors };
        },
    };
    let ghost ts = parser.toks();
    let program = match parser.parse_program() {
        Ok(p) => p,
        Err(e) => {
            let mut errors: Vec<CompileError> = Vec::new();
            errors.push(CompileError::from_parse_error(e));
            proof {
                assert(Seq::new(errors@.len(), |i: int| errors@[i]@) =~= seq![errors@[0]@]);
            }
            return CompileResult::Error { errors };
        },
    };
    proof {
        lemma_parse_program_limits(ts);
    }
    let expander = Expander::with_limits(program.limits);
    let ghost limits = program.limits;
    let ghost agsv = program@.agents;
    let n = program.agents.len();
    let mut expanded: Vec<(u32, Vec<Command>)> = Vec::new();
    let mut k: usize = 0;
    proof {
        crate::ast::lemma_view_agents_len(program.agents@);
        assert(agents_view(expanded@) =~= Seq::<(u32, Seq<Command>)>::empty());
    }
    while k < n
        invariant
            spec_tokenize(source@) == Ok::<_, SpecError>(ts),
            spec_parse_program(ts) == Ok::<_, SpecParseError>(program@),
            limits == program@.limits,
            limits == program.limits,
            n == program.agents@.len(),
            agsv == program@.agents,
            agsv == crate::ast::view_agents(program.agents@),
            limits == expander.limits_spec(),
            expander.wf(),
            k <= n,
            expanded@.len() == k,
            forall|j: int| 0 <= j < k ==> spec_expand_agent(limits, agsv[j]) == Ok::<_, SpecError>(
                (#[trigger] expanded@[j]).1@,
            ) && expanded@[j].0 == agsv[j].id,
        decreases n - k,
    {
        proof {
            crate::ast::lemma_view_agents_index(program.agents@, k as int);
        }
        match expander.expand_agent(&program.agents[k]) {
            Ok(cmds) => {
                let id = program.agents[k].id;
                expanded.push((id, cmds));
            },
            Err(e) => {
                proof {
                    assert forall|j: int| 0 <= j < k implies spec_expand_agent(
                        limits,
                        #[trigger] agsv[j],
                    ) is Ok by {
                        assert(spec_expand_agent(limits, agsv[j]) == Ok::<_, SpecError>(
                            expanded@[j].1@,
                        ));
                    };
                    lemma_expand_all_err(limits, agsv, 0, k as int, e@);
                }
                let mut errors: Vec<CompileError> = Vec::new();
                errors.push(CompileError::from_expand_error(e));
                proof {
                    assert(Seq::new(errors@.len(), |i: int| errors@[i]@) =~= seq![errors@[0]@]);
                }
                return CompileResult::Error { errors };
            },
        }
        k = k + 1;
    }
    proof {
        let exg = agents_view(expanded@);
        assert(exg.len() == agsv.len());
        assert forall|j: int| 0 <= j < agsv.len() implies spec_expand_agent(
            limits,
            #[trigger] agsv[j],
        ) == Ok::<_, SpecError>(exg[j].1) && exg[j].0 == agsv[j].id by {
            assert(exg[j] == (expanded@[j].0, expanded@[j].1@));
            assert(spec_expand_agent(limits, agsv[j]) == Ok::<_, SpecError>(expanded@[j].1@));
        };
        lemma_expand_all_ok(limits, agsv, 0, exg);
    }
    let timeline = Scheduler::schedule(expanded.as_slice());
    let ghost exv = agents_view(expanded@);
    proof {
        assert(Seq::new(timeline@.len(), |i: int| timeline@[i]@) =~= spec_schedule(exv));
    }
    let compiled = CompiledProgram::from_expanded(expanded.as_slice(), timeline);
    CompileResult::Success { program: compiled }
}

/// If the first `k` agents expand and agent `k` fails, the whole
/// expansion fails with that error.
proof fn lemma_expand_all_err(
    l: LimitConfig,
    agents: Seq<SpecAgent>,
    i: int,
    k: int,
    e: SpecError,
)
    requires
        0 <= i <= k < agents.len(),
        forall|j: int| i <= j < k ==> spec_expand_agent(l, #[trigger] agents[j]) is Ok,
        spec_expand_agent(l, agents[k]) == Err::<Seq<Command>, _>(e),
    ensures
        spec_expand_all(l, agents, i) == Err::<Seq<(u32, Seq<Command>)>, _>(e),
    decreases k - i,
{
    if i < k {
        lemma_expand_all_err(l, agents, i + 1, k, e);
    }
}

/// If every agent from `i` on expands to the recorded command list, the
/// whole expansion succeeds with exactly those lists.
proof fn lemma_expand_all_ok(l: LimitConfig, agents: Seq<SpecAgent>, i: int, ex: Seq<(u32, Seq<Command>)>)
    requires
        0 <= i <= agents.len(),
        ex.len() == agents.len() - i,
        forall|j: int| i <= j < agents.len() ==> spec_expand_agent(l, #[trigger] agents[j]) == Ok::<
            _,
            SpecError,
        >(ex[j - i].1) && ex[j - i].0 == agents[j].id,
    ensures
        spec_expand_all(l, agents, i) == Ok::<_, SpecError>(ex),
    decreases agents.len() - i,
{
    if i < agents.len() {
        assert(forall|j: int| i + 1 <= j < agents.len() ==> #[trigger] ex.drop_first()[j - (i
            + 1)] == ex[j - i]);
        lemma_expand_all_ok(l, agents, i + 1, ex.drop_first());
        assert(ex[0].0 == agents[i].id);
        assert((agents[i].id, ex[0].1) == ex[0]);
        assert(seq![ex[0]] + ex.drop_first() =~= ex);
    } else {
        assert(ex =~= Seq::<(u32, Seq<Command>)>::empty());
    }
}

/// Law: compilation is deterministic.  The whole result — every agent's
/// command list and the timeline — is a function of the source text
/// alone: two compilations of the same source are identical.
pub proof fn lemma_compile_deterministic(
    src: Seq<char>,
    r1: SpecCompileResult,
    r2: SpecCompileResult,
)
    requires
        r1 == spec_compile(src),
        r2 == spec_compile(src),
    ensures
        r1 == r2,
{
}

// ---------------------------------------------------------------------------
// Golf-score byte counting
// ---------------------------------------------------------------------------

/// The golf weight of one token: letters and numerals count one byte
/// each; punctuation, whitespace, agent IDs and directives count none.
pub open spec fn token_weight(k: TokenKind) -> nat {
    match k {
        TokenKind::Ident(_) => 1nat,
        TokenKind::Param(_) => 1nat,
        TokenKind::Straight => 1nat,
        TokenKind::Right => 1nat,
        TokenKind::Left => 1nat,
        TokenKind::Number(_) => 1nat,
        _ => 0nat,
    }
}

/// The golf byte count of the token stream from `i` on; tokens inside a
/// directive line (from its name to the next newline) count nothing.
pub open spec fn spec_count_tokens(ts: Seq<Token>, i: int, in_directive: bool) -> nat
    decreases ts.len() - i,
{
    if i < 0 || i >= ts.len() {
        0
    } else {
        match ts[i].kind {
            TokenKind::Directive(_) => spec_count_tokens(ts, i + 1, true),
            TokenKind::Newline => spec_count_tokens(ts, i + 1, false),
            TokenKind::Eof => 0,
            k => (if in_directive {
                0nat
            } else {
                token_weight(k)
            }) + spec_count_tokens(ts, i + 1, in_directive),
        }
    }
}

/// The golf byte count of a source text: its syntax must be valid, and
/// then each letter and each numeral counts one byte.  The specification
/// of [`count_bytes_native`].
pub open spec fn spec_count_bytes(src: Seq<char>) -> Result<nat, Seq<char>> {
    match spec_tokenize(src) {
        Err(le) => Err("Lexer error: "@ + le.msg),
        Ok(ts) => match spec_parse_program(ts) {
            Err(pe) => Err("Parse error: "@ + pe.msg),
            Ok(_) => Ok(spec_count_tokens(ts, 0, false)),
        },
    }
}

/// Counts golf bytes after validating the syntax, exactly as
/// [`spec_count_bytes`] says (saturating at `u32::MAX`).
pub fn count_bytes_native(source: &str) -> (r: Result<u32, String>)
    ensures
        r matches Ok(n) ==> (spec_count_bytes(source@) matches Ok(c) && n as nat == (if c
            > u32::MAX {
            u32::MAX as nat
        } else {
            c
        })),
        r matches Err(s) ==> (spec_count_bytes(source@) matches Err(m) && s@ == m),
{
    let mut parser = match Parser::new(source) {
        Ok(p) => p,
        Err(e) => {
            let mut m = String::from_str("Lexer error: ");
            m.append(e.message.as_str());
            proof {
                assert(m@ =~= "Lexer error: "@ + e@.msg);
            }
            return Err(m);
        },
    };
    match parser.parse_program() {
        Ok(_) => {},
        Err(e) => {
            let mut m = String::from_str("Parse error: ");
            m.append(e.message.as_str());
            proof {
                assert(m@ =~= "Parse error: "@ + e@.msg);
            }
            return Err(m);
        },
    }
    let mut lexer = Lexer::new(source);
    let tokens = match lexer.tokenize() {
        Ok(ts) => ts,
        Err(_) => {
            // unreachable: the same source tokenized above when parsing
            proof {
                assert(false);
            }
            return Err(String::new());
        },
    };
    let ghost ts = tokens@;
    let n = tokens.len();
    let mut count: u64 = 0;
    let mut in_directive = false;
    let mut i: usize = 0;
    let mut done = false;
    while !done && i < n
        invariant
            n == ts.len(),
            ts == tokens@,
            i <= n,
            count <= i,
            !done ==> spec_count_tokens(ts, 0, false) == count + spec_count_tokens(
                ts,
                i as int,
                in_directive,
            ),
            done ==> spec_count_tokens(ts, 0, false) == count,
        decreases n - i + (if done { 0int } else { 1int }),
    {
        match tokens[i].kind {
            TokenKind::Directive(_) => {
                in_directive = true;
            },
            TokenKind::Newline => {
                in_directive = false;
            },
            TokenKind::Eof => {
                done = true;
            },
            TokenKind::Ident(_) => {
                if !in_directive {
                    count = count + 1;
                }
            },
            TokenKind::Param(_) => {
                if !in_directive {
                    count = count + 1;
                }
            },
            TokenKind::Straight => {
                if !in_directive {
                    count = count + 1;
                }
            },
            TokenKind::Right => {
                if !in_directive {
                    count = count + 1;
                }
            },
            TokenKind::Left => {
                if !in_directive {
                    count = count + 1;
                }
            },
            TokenKind::Number(_) => {
                if !in_directive {
                    count = count + 1;
                }
            },
            _ => {},
        }
        if !done {
            i = i + 1;
        }
    }
    if count > 4294967295u64 {
        Ok(4294967295u32)
    } else {
        Ok(count as u32)
    }
}

} // verus!
