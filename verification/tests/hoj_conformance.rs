//! Judge-compatibility scenarios: multi-term numeric expressions,
//! zero-argument calls with defaults, type errors, and bounded
//! truncation of unbounded command-sequence recursion.

use h2lang::compile_native;
use h2lang::output::{CommandType, CompileResult};

fn compile_to_string(source: &str) -> Result<String, String> {
    match compile_native(source) {
        CompileResult::Success { program } => {
            if program.agents.is_empty() {
                return Ok(String::new());
            }
            let commands: String = program.agents[0]
                .commands
                .iter()
                .map(|c| match c.command_type {
                    CommandType::Straight => 's',
                    CommandType::RotateRight => 'r',
                    CommandType::RotateLeft => 'l',
                    CommandType::Wait => 'w',
                })
                .collect();
            Ok(commands)
        }
        CompileResult::Error { errors } => {
            let msg = errors
                .iter()
                .map(|e| e.message.clone())
                .collect::<Vec<_>>()
                .join("; ");
            Err(msg)
        }
    }
}

fn assert_compiles_to(source: &str, expected: &str, test_id: &str) {
    let result = compile_to_string(source);
    match result {
        Ok(actual) => {
            assert_eq!(
                actual, expected,
                "[{}] Expected '{}', got '{}'",
                test_id, expected, actual
            );
        }
        Err(e) => {
            panic!(
                "[{}] Expected success '{}', got error: {}",
                test_id, expected, e
            );
        }
    }
}

fn assert_compile_error(source: &str, test_id: &str) {
    let result = compile_to_string(source);
    assert!(
        result.is_err(),
        "[{}] Expected error, got success: {:?}",
        test_id,
        result
    );
}

#[test]
fn hoj_t19_complex_num_expr() {
    assert_compiles_to("a(X):sa(X-1)\na(10-3+1)", &"s".repeat(8), "T19");
}

#[test]
fn hoj_t20_multi_term_num_expr() {
    assert_compiles_to("a(X):sa(X-1)\na(5+5-2)", &"s".repeat(8), "T20");
}

#[test]
fn hoj_t21_multi_param_recursion() {
    assert_compiles_to("a(X,Y):sra(X-1,Y)\na(3,2)", "srsrsr", "T21");
}

#[test]
fn hoj_t22_last_line_main() {
    let source = "a:ss\nf(X):XXX\naaf(a)";
    assert_compiles_to(source, &"s".repeat(10), "T22");
}

#[test]
fn hoj_t23_type_inference_cmdseq() {
    assert_compiles_to("f(X):XX\nf(sr)", "srsr", "T23");
}

#[test]
fn hoj_t24_type_inference_int() {
    assert_compiles_to("f(X):sf(X-1)\nf(3)", "sss", "T24");
}

#[test]
fn hoj_num_zero_minus_one() {
    assert_compiles_to("a(X):sa(X-1)\na(1)", "s", "num_0-1_base");
}

#[test]
fn hoj_num_chained_subtraction() {
    assert_compiles_to("a(X):sa(X-1)\na(10-1-1-1)", &"s".repeat(7), "num_chain_sub");
}

#[test]
fn hoj_num_mixed_ops() {
    assert_compiles_to("a(X):sa(X-1)\na(5+3-2+1)", &"s".repeat(7), "num_mixed");
}

#[test]
fn hoj_num_large() {
    assert_compiles_to("a(X):sa(X-1)\na(100)", &"s".repeat(100), "num_large");
}

#[test]
fn hoj_num_boundary_255() {
    assert_compiles_to(
        "MAX_DEPTH=300\nON_LIMIT=TRUNCATE\na(X):sa(X-1)\na(255)",
        &"s".repeat(255),
        "num_255",
    );
}

#[test]
fn hoj_num_boundary_256_error() {
    assert_compile_error("a(X):sa(X-1)\na(256)", "num_256_error");
}

#[test]
fn hoj_zero_arg_function() {
    assert_compiles_to("x:srl\nxx", "srlsrl", "zero_arg_func");
}

#[test]
fn hoj_same_name_collision() {
    let source = "x:ss\nx(A):AA\nx";
    let result = compile_to_string(source);
    assert!(result.is_ok() || result.is_err(), "Should handle same-name");
}

#[test]
fn hoj_multi_param_function() {
    assert_compiles_to("f(A,B,C):ABC\nf(s,r,l)", "srl", "multi_param");
}

#[test]
fn hoj_nested_function_call() {
    assert_compiles_to("f(X):XX\nf(f(s))", "ssss", "nested_call");
}

#[test]
fn hoj_type_cmdseq_usage() {
    assert_compiles_to("f(X):sXr\nf(ll)", "sllr", "type_cmdseq");
}

#[test]
fn hoj_type_int_usage() {
    assert_compiles_to("f(X):sf(X-1)\nf(5)", "sssss", "type_int");
}

#[test]
fn hoj_type_error_int_as_term() {
    assert_compile_error("f(X):X\nf(3)", "type_int_as_term");
}

#[test]
fn hoj_type_error_cmdseq_in_numexpr() {
    assert_compile_error("a(X):a(X-1)\na(sr)", "type_cmdseq_in_numexpr");
}

#[test]
fn hoj_termination_zero() {
    assert_compiles_to("a(X):sa(X-1)\na(0)", "", "term_zero");
}

#[test]
fn hoj_termination_negative() {
    assert_compiles_to("a(X):sa(X-1)\na(1)", "s", "term_neg_base");
}

#[test]
fn hoj_termination_cmdseq_no_effect() {
    assert_compiles_to("f(X,Y):Yf(X-1,Y)\nf(3,s)", "sss", "term_cmdseq_no_effect");
}

#[test]
fn hoj_single_line_expr() {
    assert_compiles_to("srl", "srl", "single_line");
}

#[test]
fn hoj_multiline_def_expr() {
    assert_compiles_to("x:ss\nxx", "ssss", "multiline_def_expr");
}

#[test]
fn hoj_multiple_definitions() {
    let source = "a:s\nb:r\nc:l\nabc";
    assert_compiles_to(source, "srl", "multiple_defs");
}

#[test]
fn hoj_complex_structure() {
    let source = "x:sr\nf(X):XXX\na(N):xf(x)a(N-1)\na(2)";
    let result = compile_to_string(source);
    assert!(
        result.is_ok(),
        "Complex structure should compile: {:?}",
        result
    );
    let cmds = result.unwrap();
    assert_eq!(cmds.len(), 16, "Expected 16 commands, got {}", cmds.len());
}

#[test]
fn hoj_regression_empty_call() {
    assert_compiles_to("a(X):X\na()", "", "regression_empty_call");
}

#[test]
fn hoj_empty_call_increasing_pattern() {
    let result = compile_to_string("MAX_STEP=20\nON_LIMIT=TRUNCATE\na(X):Xrra(sX)\na()");
    assert!(result.is_ok(), "Should compile: {:?}", result);
    let cmds = result.unwrap();
    assert!(cmds.starts_with("rr"), "Should start with rr: {}", cmds);
}

#[test]
fn hoj_regression_number_not_agentid() {
    let result = compile_to_string("a(X):sa(X-1)\na(4)");
    assert!(result.is_ok());
    assert_eq!(result.unwrap(), "ssss");
}

#[test]
fn hoj_byte_count_simple() {
    assert_compiles_to("a(X):sa(X-1)\na(4)", "ssss", "byte_count_simple");
}

#[test]
fn hoj_byte_count_function() {
    assert_compiles_to("f(X):XXXX\nf(sssr)", &"sssr".repeat(4), "byte_count_func");
}

#[test]
fn hoj_blog_arithmetic_sequence() {
    let result = compile_to_string("MAX_STEP=30\nON_LIMIT=TRUNCATE\na(A):Ara(sA)\na()");
    assert!(result.is_ok(), "Should compile: {:?}", result);
    let cmds = result.unwrap();
    assert!(cmds.starts_with("r"), "Should start with r: {}", cmds);
    assert!(cmds.len() > 0, "Should produce output");
}

#[test]
fn hoj_blog_arithmetic_sequence_depth_error() {
    let result = compile_to_string("ON_LIMIT=ERROR\na(A):Ara(sA)\na()");
    assert!(result.is_err(), "ON_LIMIT=ERROR should produce error");
}

#[test]
fn hoj_blog_powers_of_two() {
    let result = compile_to_string("MAX_STEP=50\nON_LIMIT=TRUNCATE\na(A):Ara(AA)\na(s)");
    assert!(result.is_ok(), "Should compile: {:?}", result);
    let cmds = result.unwrap();
    assert!(cmds.starts_with("sr"), "Should start with sr: {}", cmds);
}

#[test]
fn hoj_blog_fibonacci() {
    let result = compile_to_string("MAX_STEP=50\nON_LIMIT=TRUNCATE\na(A,B):Ara(AB,A)\na(s,)");
    assert!(result.is_ok(), "Should compile: {:?}", result);
    let cmds = result.unwrap();
    assert!(cmds.starts_with("sr"), "Should start with sr: {}", cmds);
}

#[test]
fn hoj_blog_empty_second_arg() {
    let result = compile_to_string("f(A,B):AB\nf(s,)");
    assert!(result.is_ok(), "Should compile: {:?}", result);
    assert_eq!(result.unwrap(), "s", "f(s,) should produce s");
}

#[test]
fn hoj_blog_empty_first_arg() {
    let result = compile_to_string("f(A,B):AB\nf(,s)");
    assert!(result.is_ok(), "Should compile: {:?}", result);
    assert_eq!(result.unwrap(), "s", "f(,s) should produce s");
}

#[test]
fn hoj_blog_both_args_empty() {
    let result = compile_to_string("f(A,B):AB\nf(,)");
    assert!(result.is_ok(), "Should compile: {:?}", result);
    assert_eq!(result.unwrap(), "", "f(,) should produce empty");
}

#[test]
fn hoj_blog_division_basic() {
    let result = compile_to_string("b(B):sb(B-7)\nb(21)");
    assert!(result.is_ok(), "Should compile: {:?}", result);
    assert_eq!(result.unwrap(), "sss", "21/7 should produce 3 s's");
}

#[test]
fn hoj_blog_division_10_by_7() {
    let result = compile_to_string("b(B):sb(B-7)\nb(4)");
    assert!(result.is_ok(), "Should compile: {:?}", result);
    assert_eq!(result.unwrap(), "s", "Should produce 1 s");
}

#[test]
fn hoj_blog_int_param_empty_call() {
    let result = compile_to_string("a(X):sa(X-1)\na()");
    assert!(result.is_ok(), "Should compile: {:?}", result);
    assert_eq!(result.unwrap(), "", "Int X=0 should terminate immediately");
}

#[test]
fn hoj_blog_mixed_params_empty_call() {
    let result = compile_to_string("a(X,Y):Xsa(sX,Y-1)\na()");
    assert!(result.is_ok(), "Should compile: {:?}", result);
    assert_eq!(result.unwrap(), "", "Int Y=0 should terminate");
}

#[test]
fn hoj_blog_fractal() {
    let result =
        compile_to_string("MAX_STEP=100\nON_LIMIT=TRUNCATE\na(A,B):Ala(BlAAABl,BB)\na(r,s)");
    assert!(result.is_ok(), "Should compile: {:?}", result);
    let cmds = result.unwrap();
    assert!(cmds.starts_with("rl"), "Should start with rl: {}", cmds);
}

#[test]
fn hoj_max_depth_explicit_error() {
    let result = compile_to_string("MAX_DEPTH=10\nON_LIMIT=ERROR\na(X):sra(sX)\na()");
    assert!(result.is_err(), "Should error with ON_LIMIT=ERROR");
}

#[test]
fn hoj_max_step_before_depth() {
    // The step counter also counts the commands generated while
    // evaluating arguments, so the visible output is shorter.
    let result = compile_to_string("MAX_STEP=5\nON_LIMIT=TRUNCATE\na(X):sra(sX)\na()");
    assert!(result.is_ok(), "Should truncate at step limit: {:?}", result);
    let cmds = result.unwrap();
    assert_eq!(cmds.len(), 4, "4 visible commands (arg evaluation counts)");
}
