//! Scenario tests for the documented behaviours: the concrete
//! compilation examples, determinism, step accounting, termination,
//! type-conflict rejection, scheduler purity, and one input for every
//! error class.

use h2lang::compile_native;
use h2lang::count_bytes_native;
use h2lang::expander::Command;
use h2lang::output::{CommandType, CompileResult};
use h2lang::scheduler::Scheduler;

fn compile_to_string(source: &str) -> Result<String, String> {
    match compile_native(source) {
        CompileResult::Success { program } => {
            if program.agents.is_empty() {
                return Ok(String::new());
            }
            let commands: String = program.agents[0]
                .commands
                .iter()
                .map(|c| match c.command_type {
                    CommandType::Straight => 's',
                    CommandType::RotateRight => 'r',
                    CommandType::RotateLeft => 'l',
                    CommandType::Wait => 'w',
                })
                .collect();
            Ok(commands)
        }
        CompileResult::Error { errors } => Err(errors
            .iter()
            .map(|e| e.message.clone())
            .collect::<Vec<_>>()
            .join("; ")),
    }
}

#[test]
fn scenario_simple_commands_and_timeline() {
    match compile_native("0: srl") {
        CompileResult::Success { program } => {
            assert_eq!(program.agents[0].commands.len(), 3);
            assert_eq!(program.agents[0].commands[0].command_type, CommandType::Straight);
            assert_eq!(program.agents[0].commands[1].command_type, CommandType::RotateRight);
            assert_eq!(program.agents[0].commands[2].command_type, CommandType::RotateLeft);
            assert_eq!(program.timeline.len(), 3);
        }
        CompileResult::Error { errors } => panic!("failed: {:?}", errors),
    }
}

#[test]
fn scenario_macro_expansion() {
    assert_eq!(compile_to_string("0: x:ss xrx").unwrap(), "ssrss");
}

#[test]
fn scenario_function_triples_argument() {
    assert_eq!(compile_to_string("0: f(X):XXX f(s)").unwrap(), "sss");
}

#[test]
fn scenario_numeric_recursion_four() {
    assert_eq!(compile_to_string("0: a(X):sa(X-1) a(4)").unwrap(), "ssss");
}

#[test]
fn scenario_step_limit_policies() {
    // Under the default abort policy the step limit is fatal;
    // under the truncate policy exactly three commands come back.
    assert!(compile_to_string("MAX_STEP=3\n0: a(X):sa(X-1) a(10)").is_err());
    assert_eq!(
        compile_to_string("ON_LIMIT=TRUNCATE\nMAX_STEP=3\n0: a(X):sa(X-1) a(10)").unwrap(),
        "sss"
    );
}

#[test]
fn scenario_two_agents_lock_step() {
    match compile_native("0: srl\n1: lrs") {
        CompileResult::Success { program } => {
            assert_eq!(program.agents.len(), 2);
            assert_eq!(program.agents[0].commands.len(), 3);
            assert_eq!(program.agents[1].commands.len(), 3);
            assert_eq!(program.timeline.len(), 3);
            for step in &program.timeline {
                assert_eq!(step.agent_commands.len(), 2);
            }
        }
        CompileResult::Error { errors } => panic!("failed: {:?}", errors),
    }
}

#[test]
fn compile_is_deterministic() {
    let sources = [
        "0: srl",
        "0: x:ss xrx",
        "0: a(X):sa(X-1) a(7)",
        "MAX_STEP=4\nON_LIMIT=TRUNCATE\na(X):sa(X-1)\na(9)",
        "0: (",
    ];
    for source in sources {
        let a = compile_to_string(source);
        let b = compile_to_string(source);
        assert_eq!(a, b, "two compilations of {:?} differ", source);
    }
}

#[test]
fn step_accounting_never_exceeds_limit() {
    for limit in 1..8 {
        let source = format!("MAX_STEP={}\nON_LIMIT=TRUNCATE\na(X):sra(X-1)\na(200)", limit);
        let cmds = compile_to_string(&source).unwrap();
        assert!(cmds.len() <= limit, "{} commands exceed limit {}", cmds.len(), limit);
        assert_eq!(cmds.len(), limit, "an exceeding program stops exactly at the limit");
    }
}

#[test]
fn termination_law_counting_function() {
    // f(k) for k <= 0 yields nothing; for k > 0 exactly k commands.
    for k in [-3i32, -1, 0] {
        let source = format!("0: a(X):sa(X-1) a({})", k);
        assert_eq!(compile_to_string(&source).unwrap(), "");
    }
    for k in [1usize, 2, 5, 30, 99] {
        let source = format!("0: a(X):sa(X-1) a({})", k);
        assert_eq!(compile_to_string(&source).unwrap(), "s".repeat(k));
    }
}

#[test]
fn type_conflict_rejected_at_definition_time() {
    // X is used both as a bare term and inside a numeric expression:
    // rejected even though the function is never called.
    assert!(compile_to_string("0: f(X):Xf(X-1)").is_err());
    assert!(count_bytes_native("f(X):Xf(X-1)").is_err());
}

#[test]
fn scheduler_is_pure_and_sized_by_longest_list() {
    let agents = vec![
        (0u32, vec![Command::Straight, Command::Right]),
        (7u32, vec![Command::Left]),
        (3u32, vec![]),
    ];
    let t1 = Scheduler::schedule(&agents);
    let t2 = Scheduler::schedule(&agents);
    assert_eq!(t1.len(), t2.len());
    assert_eq!(t1.len(), Scheduler::max_steps(&agents));
    for (a, b) in t1.iter().zip(t2.iter()) {
        assert_eq!(a.step, b.step);
        assert_eq!(a.agent_commands.len(), b.agent_commands.len());
    }
    // agents appear in input order, and only while their lists last
    assert_eq!(t1[0].agent_commands.len(), 2);
    assert_eq!(t1[0].agent_commands[0].agent_id, 0);
    assert_eq!(t1[0].agent_commands[1].agent_id, 7);
    assert_eq!(t1[1].agent_commands.len(), 1);
    assert_eq!(t1[1].agent_commands[0].agent_id, 0);
}

#[test]
fn duplicate_definitions_last_one_wins() {
    assert_eq!(compile_to_string("0: a:s a:r a").unwrap(), "r");
}

#[test]
fn numeric_boundaries() {
    // 255 and -255 are accepted as literals; 256 is not.
    assert_eq!(compile_to_string("0: a(X):s a(255)").unwrap(), "s");
    assert_eq!(compile_to_string("0: a(X):s a(-255)").unwrap(), "");
    assert!(compile_to_string("0: a(X):s a(256)").is_err());
    assert!(compile_to_string("0: a(X):s a(-256)").is_err());
}

#[test]
fn intermediate_numeric_results_are_range_checked() {
    // 200+100 crosses 255 before -250 brings it back: fatal.
    assert!(compile_to_string("0: a(X):s a(200+100-250)").is_err());
    // 200+50-250+1 stays in range the whole way.
    assert_eq!(compile_to_string("0: a(X):s a(200+50-249)").unwrap(), "s");
}

#[test]
fn error_class_lexical() {
    let msg = compile_to_string("0: ?").unwrap_err();
    assert!(msg.contains("Unexpected character"), "{}", msg);
}

#[test]
fn error_class_syntax_unexpected_token() {
    let msg = compile_to_string("0: )").unwrap_err();
    assert!(msg.contains("Unexpected token"), "{}", msg);
}

#[test]
fn error_class_directive_value_range() {
    let msg = compile_to_string("MAX_STEP=0\ns").unwrap_err();
    assert!(msg.contains("E009"), "{}", msg);
    let msg = compile_to_string("MAX_DEPTH=10001\ns").unwrap_err();
    assert!(msg.contains("E009"), "{}", msg);
    let msg = compile_to_string("MAX_MEMORY=0\ns").unwrap_err();
    assert!(msg.contains("E009"), "{}", msg);
}

#[test]
fn error_class_directive_value_type() {
    let msg = compile_to_string("MAX_STEP=TRUNCATE\ns").unwrap_err();
    assert!(msg.contains("E009"), "{}", msg);
    let msg = compile_to_string("ON_LIMIT=5\ns").unwrap_err();
    assert!(msg.contains("E009"), "{}", msg);
    let msg = compile_to_string("ON_LIMIT=NEVER\ns").unwrap_err();
    assert!(msg.contains("E009"), "{}", msg);
}

#[test]
fn error_class_unknown_directive() {
    let msg = compile_to_string("WIDTH=3\ns").unwrap_err();
    assert!(msg.contains("Unknown directive"), "{}", msg);
}

#[test]
fn error_class_type_conflict() {
    let msg = compile_to_string("0: f(X):Xf(X-1)").unwrap_err();
    assert!(msg.contains("E010"), "{}", msg);
}

#[test]
fn error_class_numeric_range() {
    let msg = compile_to_string("0: a(X):s a(999)").unwrap_err();
    assert!(msg.contains("E007"), "{}", msg);
}

#[test]
fn error_class_type_errors_at_call_time() {
    let msg = compile_to_string("0: f(X):X f(3)").unwrap_err();
    assert!(msg.contains("E008"), "{}", msg);
    let msg = compile_to_string("0: a(X):a(X-1) a(sr)").unwrap_err();
    assert!(msg.contains("E008"), "{}", msg);
}

#[test]
fn error_class_undefined_references() {
    let msg = compile_to_string("0: q").unwrap_err();
    assert!(msg.contains("Undefined function"), "{}", msg);
    let msg = compile_to_string("0: f(X):Y f(s)").unwrap_err();
    assert!(msg.contains("Undefined parameter"), "{}", msg);
}

#[test]
fn error_class_argument_count() {
    let msg = compile_to_string("0: f(X,Y):XY f(s)").unwrap_err();
    assert!(msg.contains("E003"), "{}", msg);
}

#[test]
fn error_class_step_limit() {
    let msg = compile_to_string("MAX_STEP=2\n0: sss").unwrap_err();
    assert!(msg.contains("E004"), "{}", msg);
}

#[test]
fn error_class_recursion_depth() {
    let msg = compile_to_string("MAX_DEPTH=5\n0: a(X):sa(X-1) a(50)").unwrap_err();
    assert!(msg.contains("recursion depth"), "{}", msg);
}

#[test]
fn golf_bytes_of_scenarios() {
    assert_eq!(count_bytes_native("0: srl"), Ok(3));
    assert_eq!(count_bytes_native("MAX_STEP=3\n0: a(X):sa(X-1) a(10)"), Ok(8));
    assert_eq!(count_bytes_native(""), Ok(0));
}
