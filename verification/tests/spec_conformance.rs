//! Conformance scenarios: commands, macros, functions, numeric
//! recursion, type errors, directives, and multi-agent programs.

use h2lang::compile_native;
use h2lang::output::{CommandType, CompileResult};

fn compile_to_string(source: &str) -> Result<String, String> {
    match compile_native(source) {
        CompileResult::Success { program } => {
            if program.agents.is_empty() {
                return Ok(String::new());
            }
            let commands: String = program.agents[0]
                .commands
                .iter()
                .map(|c| match c.command_type {
                    CommandType::Straight => 's',
                    CommandType::RotateRight => 'r',
                    CommandType::RotateLeft => 'l',
                    CommandType::Wait => 'w',
                })
                .collect();
            Ok(commands)
        }
        CompileResult::Error { errors } => {
            let msg = errors
                .iter()
                .map(|e| e.message.clone())
                .collect::<Vec<_>>()
                .join("; ");
            Err(msg)
        }
    }
}

fn error_contains(result: &Result<String, String>, pattern: &str) -> bool {
    match result {
        Err(msg) => msg.to_lowercase().contains(&pattern.to_lowercase()),
        Ok(_) => false,
    }
}

fn assert_compiles_to(source: &str, expected: &str, test_id: &str) {
    let result = compile_to_string(source);
    match result {
        Ok(actual) => {
            assert_eq!(
                actual, expected,
                "[{}] Expected '{}', got '{}'",
                test_id, expected, actual
            );
        }
        Err(e) => {
            panic!(
                "[{}] Expected success '{}', got error: {}",
                test_id, expected, e
            );
        }
    }
}

fn assert_compile_error(source: &str, test_id: &str) {
    let result = compile_to_string(source);
    assert!(
        result.is_err(),
        "[{}] Expected error, got success: {:?}",
        test_id,
        result
    );
}

#[test]
fn t01_simple_commands() {
    assert_compiles_to("srl", "srl", "T01");
}

#[test]
fn t02_macro() {
    assert_compiles_to("a:ssss\naa", "ssssssss", "T02");
}

#[test]
fn t03_undefined_macro() {
    assert_compile_error("b", "T03");
    let result = compile_to_string("b");
    assert!(
        error_contains(&result, "undefined") || error_contains(&result, "macro"),
        "[T03] Error should mention undefined macro"
    );
}

#[test]
fn t04_function_cmdseq() {
    assert_compiles_to("f(X):XXX\nf(sr)", "srsrsr", "T04");
}

#[test]
fn t05_undefined_function() {
    assert_compile_error("f(s)", "T05");
    let result = compile_to_string("f(s)");
    assert!(
        error_contains(&result, "undefined") || error_contains(&result, "function"),
        "[T05] Error should mention undefined function"
    );
}

#[test]
fn t06_argument_count_mismatch() {
    assert_compile_error("f(X,Y):XY\nf(s)", "T06");
    let result = compile_to_string("f(X,Y):XY\nf(s)");
    assert!(
        error_contains(&result, "E003"),
        "[T06] Error should mention E003"
    );
}

#[test]
fn t07_numeric_counter_recursion() {
    assert_compiles_to("a(X):sa(X-1)\na(4)", "ssss", "T07");
}

#[test]
fn t08_numeric_counter_zero() {
    assert_compiles_to("a(X):sa(X-1)\na(0)", "", "T08");
}

#[test]
fn t09_numeric_counter_negative() {
    assert_compiles_to("a(X):sa(X-1)\na(-1)", "", "T09");
}

#[test]
fn t10_multiple_args() {
    assert_compiles_to("a(N,X,Y):XYa(N-1,X,Y)\na(3,s,r)", "srsrsr", "T10");
}

#[test]
fn t11_numeric_argument() {
    assert_compiles_to("a(X):sa(X-1)\na(2)", "ss", "T11");
}

#[test]
fn t12_numeric_range_exceeded() {
    assert_compile_error("a(X):s\na(256)", "T12");
    let result = compile_to_string("a(X):s\na(256)");
    assert!(
        error_contains(&result, "E007"),
        "[T12] Error should mention E007"
    );
}

#[test]
fn t13_type_error_int_as_term() {
    assert_compile_error("f(X):X\nf(3)", "T13");
    let result = compile_to_string("f(X):X\nf(3)");
    assert!(
        error_contains(&result, "E008"),
        "[T13] Error should mention E008"
    );
}

#[test]
fn t14_type_error_cmdseq_in_numexpr() {
    assert_compile_error("a(X):a(X-1)\na(sr)", "T14");
    let result = compile_to_string("a(X):a(X-1)\na(sr)");
    assert!(
        error_contains(&result, "E008"),
        "[T14] Error should mention E008"
    );
}

#[test]
fn t15_unknown_directive() {
    assert_compile_error("MAX_STEPS=10\ns", "T15");
    let result = compile_to_string("MAX_STEPS=10\ns");
    assert!(
        error_contains(&result, "E009") || error_contains(&result, "unknown"),
        "[T15] Error should mention E009 or unknown directive"
    );
}

#[test]
fn t16_max_step_exceeded_error() {
    assert_compile_error("MAX_STEP=3\na(X):sa(X-1)\na(10)", "T16");
    let result = compile_to_string("MAX_STEP=3\na(X):sa(X-1)\na(10)");
    assert!(
        error_contains(&result, "E004") || error_contains(&result, "MAX_STEP"),
        "[T16] Error should mention E004 or MAX_STEP"
    );
}

#[test]
fn t17_max_step_exceeded_truncate() {
    assert_compiles_to(
        "MAX_STEP=3\nON_LIMIT=TRUNCATE\na(X):sa(X-1)\na(10)",
        "sss",
        "T17",
    );
}

#[test]
fn t18_multi_agent() {
    let result = compile_native("0: srl\n1: ss\n2: l");

    match result {
        CompileResult::Success { program } => {
            assert_eq!(program.agents.len(), 3, "[T18] Expected 3 agents");

            let to_string = |agent: &h2lang::output::CompiledAgent| -> String {
                agent
                    .commands
                    .iter()
                    .map(|c| match c.command_type {
                        CommandType::Straight => 's',
                        CommandType::RotateRight => 'r',
                        CommandType::RotateLeft => 'l',
                        CommandType::Wait => 'w',
                    })
                    .collect()
            };
            assert_eq!(to_string(&program.agents[0]), "srl", "[T18] Agent0");
            assert_eq!(to_string(&program.agents[1]), "ss", "[T18] Agent1");
            assert_eq!(to_string(&program.agents[2]), "l", "[T18] Agent2");
            assert_eq!(program.max_steps, 3, "[T18] Timeline length should be 3");
        }
        CompileResult::Error { errors } => {
            panic!(
                "[T18] Expected success, got error: {:?}",
                errors.iter().map(|e| &e.message).collect::<Vec<_>>()
            );
        }
    }
}

#[test]
fn additional_empty_program() {
    let result = compile_native("");
    match result {
        CompileResult::Success { program } => {
            assert!(
                program.agents.is_empty(),
                "Empty program should have no agents"
            );
        }
        CompileResult::Error { .. } => {}
    }
}

#[test]
fn additional_single_agent_no_prefix() {
    assert_compiles_to("srl", "srl", "Additional-NoPrefix");
}

#[test]
fn additional_multiline_single_agent() {
    assert_compiles_to("a:ss\naaa", "ssssss", "Additional-Multiline");
}

#[test]
fn additional_nested_function() {
    assert_compiles_to("f(X):XX\nf(f(s))", "ssss", "Additional-Nested");
}

#[test]
fn additional_deep_recursion() {
    assert_compiles_to(
        "a(X):sa(X-1)\na(50)",
        &"s".repeat(50),
        "Additional-DeepRecursion",
    );
}
