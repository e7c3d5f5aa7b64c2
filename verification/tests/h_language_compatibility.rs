//! End-to-end compatibility tests: basic command sequences, macros,
//! functions, numeric recursion, whitespace, comments, and multi-agent
//! programs.

use h2lang::compile_native;
use h2lang::output::{CommandType, CompileResult};

fn compile_to_string(source: &str) -> Result<String, String> {
    match compile_native(source) {
        CompileResult::Success { program } => {
            if program.agents.is_empty() {
                return Ok(String::new());
            }
            let commands: String = program.agents[0]
                .commands
                .iter()
                .map(|c| match c.command_type {
                    CommandType::Straight => 's',
                    CommandType::RotateRight => 'r',
                    CommandType::RotateLeft => 'l',
                    CommandType::Wait => 'w',
                })
                .collect();
            Ok(commands)
        }
        CompileResult::Error { errors } => Err(errors
            .iter()
            .map(|e| e.message.clone())
            .collect::<Vec<_>>()
            .join("; ")),
    }
}

fn compile_to_count(source: &str) -> Result<usize, String> {
    compile_to_string(source).map(|s| s.len())
}

fn assert_compiles_to(source: &str, expected: &str) {
    match compile_to_string(source) {
        Ok(result) => {
            assert_eq!(
                result, expected,
                "Source '{}' compiled to '{}', expected '{}'",
                source, result, expected
            );
        }
        Err(e) => {
            panic!("Source '{}' failed to compile: {}", source, e);
        }
    }
}

fn assert_compile_error(source: &str) {
    match compile_native(source) {
        CompileResult::Success { .. } => {
            panic!("Source '{}' should have failed to compile", source);
        }
        CompileResult::Error { .. } => {}
    }
}

#[test]
fn test_single_straight() {
    assert_compiles_to("0: s", "s");
}

#[test]
fn test_single_right() {
    assert_compiles_to("0: r", "r");
}

#[test]
fn test_single_left() {
    assert_compiles_to("0: l", "l");
}

#[test]
fn test_basic_sequence_srl() {
    assert_compiles_to("0: srl", "srl");
}

#[test]
fn test_basic_sequence_lrs() {
    assert_compiles_to("0: lrs", "lrs");
}

#[test]
fn test_repeated_straight() {
    assert_compiles_to("0: ssss", "ssss");
}

#[test]
fn test_repeated_right() {
    assert_compiles_to("0: rrrr", "rrrr");
}

#[test]
fn test_repeated_left() {
    assert_compiles_to("0: llll", "llll");
}

#[test]
fn test_long_sequence() {
    assert_compiles_to("0: ssssrssssrsssslssssl", "ssssrssssrsssslssssl");
}

#[test]
fn test_all_combinations_short() {
    assert_compiles_to("0: sss", "sss");
    assert_compiles_to("0: ssr", "ssr");
    assert_compiles_to("0: ssl", "ssl");
    assert_compiles_to("0: srs", "srs");
    assert_compiles_to("0: srr", "srr");
    assert_compiles_to("0: srl", "srl");
    assert_compiles_to("0: sls", "sls");
    assert_compiles_to("0: slr", "slr");
    assert_compiles_to("0: sll", "sll");
    assert_compiles_to("0: rss", "rss");
    assert_compiles_to("0: rsr", "rsr");
    assert_compiles_to("0: rsl", "rsl");
    assert_compiles_to("0: rrs", "rrs");
    assert_compiles_to("0: rrr", "rrr");
    assert_compiles_to("0: rrl", "rrl");
    assert_compiles_to("0: rls", "rls");
    assert_compiles_to("0: rlr", "rlr");
    assert_compiles_to("0: rll", "rll");
    assert_compiles_to("0: lss", "lss");
    assert_compiles_to("0: lsr", "lsr");
    assert_compiles_to("0: lsl", "lsl");
    assert_compiles_to("0: lrs", "lrs");
    assert_compiles_to("0: lrr", "lrr");
    assert_compiles_to("0: lrl", "lrl");
    assert_compiles_to("0: lls", "lls");
    assert_compiles_to("0: llr", "llr");
    assert_compiles_to("0: lll", "lll");
}

#[test]
fn test_empty_command_with_macro_only() {
    let result = compile_to_string("0: x:ss");
    assert!(result.is_ok());
    assert_eq!(result.unwrap(), "");
}

#[test]
fn test_simple_macro() {
    assert_compiles_to("0: x:ss x", "ss");
}

#[test]
fn test_macro_with_commands() {
    assert_compiles_to("0: x:ss xrx", "ssrss");
}

#[test]
fn test_macro_multiple_uses() {
    assert_compiles_to("0: x:s xxx", "sss");
}

#[test]
fn test_macro_name_a() {
    assert_compiles_to("0: a:ss a", "ss");
}

#[test]
fn test_macro_name_b() {
    assert_compiles_to("0: b:rr b", "rr");
}

#[test]
fn test_macro_name_z() {
    assert_compiles_to("0: z:ll z", "ll");
}

#[test]
fn test_multiple_macros() {
    assert_compiles_to("0: x:ss y:rr xy", "ssrr");
}

#[test]
fn test_macro_using_macro() {
    assert_compiles_to("0: a:s b:aa bbb", "ssssss");
}

#[test]
fn test_macro_complex_body() {
    assert_compiles_to("0: x:srl x", "srl");
}

#[test]
fn test_macro_long_body() {
    assert_compiles_to("0: x:ssssrrrr x", "ssssrrrr");
}

#[test]
fn test_three_macros() {
    assert_compiles_to("0: a:s b:r c:l abc", "srl");
}

#[test]
fn test_macro_chain() {
    assert_compiles_to("0: a:s b:a c:b ccc", "sss");
}

#[test]
fn test_undefined_macro_error() {
    assert_compile_error("0: x");
}

#[test]
fn test_macro_names_near_primitives() {
    assert_compiles_to("0: t:ss t", "ss");
    assert_compiles_to("0: u:rr u", "rr");
    assert_compiles_to("0: v:ll v", "ll");
}

#[test]
fn test_macro_with_mixed_content() {
    assert_compiles_to("0: x:srl y:lrs xyx", "srllrssrl");
}

#[test]
fn test_simple_function_identity() {
    assert_compiles_to("0: f(X):X f(s)", "s");
}

#[test]
fn test_function_double() {
    assert_compiles_to("0: f(X):XX f(s)", "ss");
}

#[test]
fn test_function_triple() {
    assert_compiles_to("0: f(X):XXX f(s)", "sss");
}

#[test]
fn test_function_quadruple() {
    assert_compiles_to("0: f(X):XXXX f(s)", "ssss");
}

#[test]
fn test_function_with_prefix() {
    assert_compiles_to("0: f(X):sX f(r)", "sr");
}

#[test]
fn test_function_with_suffix() {
    assert_compiles_to("0: f(X):Xs f(r)", "rs");
}

#[test]
fn test_function_with_prefix_and_suffix() {
    assert_compiles_to("0: f(X):sXr f(l)", "slr");
}

#[test]
fn test_function_with_command_sequence_arg() {
    assert_compiles_to("0: f(X):XX f(srl)", "srlsrl");
}

#[test]
fn h_language_compatibility_test_nested_function_call() {
    assert_compiles_to("0: f(X):XX f(f(s))", "ssss");
}

#[test]
fn h_language_compatibility_test_deeply_nested_function() {
    assert_compiles_to("0: f(X):XX f(f(f(s)))", "ssssssss");
}

#[test]
fn test_two_parameter_function() {
    assert_compiles_to("0: f(X,Y):XY f(s,r)", "sr");
}

#[test]
fn test_two_parameter_function_reversed() {
    assert_compiles_to("0: f(X,Y):YX f(s,r)", "rs");
}

#[test]
fn test_three_parameter_function() {
    assert_compiles_to("0: f(X,Y,Z):XYZ f(s,r,l)", "srl");
}

#[test]
fn test_function_parameter_repeated() {
    assert_compiles_to("0: f(X,Y):XXYY f(s,r)", "ssrr");
}

#[test]
fn test_function_different_names() {
    assert_compiles_to("0: a(X):XX a(s)", "ss");
    assert_compiles_to("0: b(X):XX b(s)", "ss");
    assert_compiles_to("0: g(X):XX g(s)", "ss");
    assert_compiles_to("0: h(X):XX h(s)", "ss");
}

#[test]
fn test_function_with_macro() {
    assert_compiles_to("0: x:ss f(X):XX f(x)", "ssss");
}

#[test]
fn test_undefined_function_error() {
    assert_compile_error("0: f(s)");
}

#[test]
fn h_language_compatibility_test_hoj_square_pattern() {
    assert_compiles_to("0: f(X):XXXX f(sssr)", "sssrsssrsssrsssr");
}

#[test]
fn test_hoj_triangle_pattern() {
    assert_compiles_to("0: f(X):XXX f(ssr)", "ssrssrssr");
}

#[test]
fn test_numeric_simple_4() {
    assert_compiles_to("0: a(X):sa(X-1) a(4)", "ssss");
}

#[test]
fn test_numeric_simple_3() {
    assert_compiles_to("0: a(X):sa(X-1) a(3)", "sss");
}

#[test]
fn test_numeric_simple_2() {
    assert_compiles_to("0: a(X):sa(X-1) a(2)", "ss");
}

#[test]
fn test_numeric_simple_1() {
    assert_compiles_to("0: a(X):sa(X-1) a(1)", "s");
}

#[test]
fn test_numeric_zero_terminates() {
    assert_compiles_to("0: a(X):sa(X-1) a(0)", "");
}

#[test]
fn test_numeric_negative_terminates() {
    assert_compiles_to("0: a(X):sa(X-1) a(-1)", "");
}

#[test]
fn test_numeric_negative_2() {
    assert_compiles_to("0: a(X):sa(X-1) a(-2)", "");
}

#[test]
fn h_language_compatibility_test_numeric_with_turn() {
    assert_compiles_to("0: a(X):sra(X-1) a(4)", "srsrsrsr");
}

#[test]
fn test_numeric_spiral() {
    assert_compiles_to("0: a(X):sla(X-1) a(4)", "slslslsl");
}

#[test]
fn test_numeric_with_two_params() {
    assert_compiles_to("0: a(X,Y):Ya(X-1,Y) a(4,s)", "ssss");
}

#[test]
fn test_numeric_two_params_different_command() {
    assert_compiles_to("0: a(X,Y):Ya(X-1,Y) a(4,r)", "rrrr");
}

#[test]
fn test_numeric_two_params_sequence() {
    assert_compiles_to("0: a(X,Y):Ya(X-1,Y) a(3,sr)", "srsrsr");
}

#[test]
fn test_numeric_two_params_zero() {
    assert_compiles_to("0: a(X,Y):Ya(X-1,Y) a(0,s)", "");
}

#[test]
fn test_numeric_increment() {
    assert_compiles_to("0: a(X):sa(X+1) a(-2)", "");
}

#[test]
fn test_numeric_large_value() {
    let result = compile_to_count("0: a(X):sa(X-1) a(10)");
    assert_eq!(result.unwrap(), 10);
}

#[test]
fn test_numeric_20() {
    let result = compile_to_count("0: a(X):sa(X-1) a(20)");
    assert_eq!(result.unwrap(), 20);
}

#[test]
fn test_numeric_with_prefix() {
    assert_compiles_to("0: a(X):rsa(X-1) a(3)", "rsrsrs");
}

#[test]
fn test_numeric_with_suffix() {
    assert_compiles_to("0: a(X):a(X-1)s a(3)", "sss");
}

#[test]
fn test_recursion_terminates_at_zero() {
    assert_compiles_to("0: f(X):sf(X-1) f(0)", "");
}

#[test]
fn test_recursion_terminates_at_negative() {
    assert_compiles_to("0: f(X):sf(X-1) f(-5)", "");
}

#[test]
fn test_mutual_recursion_style() {
    assert_compiles_to("0: a(X):sb(X-1) b(X):ra(X-1) a(4)", "srsr");
}

#[test]
fn test_recursion_depth_moderate() {
    let result = compile_to_count("0: a(X):sa(X-1) a(50)");
    assert_eq!(result.unwrap(), 50);
}

#[test]
fn test_deep_nested_function_calls() {
    let result = compile_to_count("0: f(X):XX f(f(f(f(s))))");
    assert_eq!(result.unwrap(), 16);
}

#[test]
fn test_exponential_growth_bounded() {
    let result = compile_to_count("0: f(X):XX f(f(f(f(f(s)))))");
    assert_eq!(result.unwrap(), 32);
}

#[test]
fn h_language_compatibility_test_undefined_macro() {
    assert_compile_error("0: x");
}

#[test]
fn h_language_compatibility_test_undefined_function() {
    assert_compile_error("0: f(s)");
}

#[test]
fn test_syntax_error_unmatched_paren() {
    assert_compile_error("0: f(X:X f(s)");
}

#[test]
fn test_syntax_error_unmatched_paren_right() {
    assert_compile_error("0: f(X):X f(s))");
}

#[test]
fn test_invalid_character() {
    assert_compile_error("0: !");
}

#[test]
fn test_missing_colon() {
    assert_compile_error("0 srl");
}

#[test]
fn test_undefined_parameter() {
    assert_compile_error("0: f(X):Y f(s)");
}

#[test]
fn test_multiple_undefined_macros() {
    assert_compile_error("0: xy");
}

#[test]
fn test_function_without_definition() {
    assert_compile_error("0: g(s)");
}

#[test]
fn test_empty_function_call() {
    let result = compile_native("0: f(X):X f()");
    match result {
        CompileResult::Error { .. } => {}
        CompileResult::Success { program } => {
            assert!(program.agents[0].commands.is_empty());
        }
    }
}

#[test]
fn test_space_after_colon() {
    assert_compiles_to("0: srl", "srl");
}

#[test]
fn test_no_space_after_colon() {
    assert_compiles_to("0:srl", "srl");
}

#[test]
fn test_multiple_spaces() {
    assert_compiles_to("0:   srl", "srl");
}

#[test]
fn test_space_between_macro_and_commands() {
    assert_compiles_to("0: x:ss x", "ss");
}

#[test]
fn test_tab_character() {
    assert_compiles_to("0:\tsrl", "srl");
}

#[test]
fn test_space_in_macro_definition() {
    assert_compiles_to("0: x:ss xrx", "ssrss");
}

#[test]
fn test_multiple_agents_newline() {
    let result = compile_native("0: s\n1: r");
    match result {
        CompileResult::Success { program } => {
            assert_eq!(program.agents.len(), 2);
        }
        CompileResult::Error { errors } => {
            panic!("Failed: {:?}", errors);
        }
    }
}

#[test]
fn test_trailing_newline() {
    assert_compiles_to("0: srl\n", "srl");
}

#[test]
fn test_multiple_trailing_newlines() {
    assert_compiles_to("0: srl\n\n\n", "srl");
}

#[test]
fn test_leading_newlines() {
    assert_compiles_to("\n\n0: srl", "srl");
}

#[test]
fn test_crlf_line_endings() {
    assert_compiles_to("0: srl\r\n", "srl");
}

#[test]
fn test_hash_comment() {
    assert_compiles_to("0: srl # comment", "srl");
}

#[test]
fn test_hash_comment_whole_line() {
    assert_compiles_to("# this is a comment\n0: srl", "srl");
}

#[test]
fn h_language_compatibility_test_double_slash_comment() {
    assert_compiles_to("0: srl // comment", "srl");
}

#[test]
fn test_comment_with_macro() {
    assert_compiles_to("0: x:ss x # macro test", "ss");
}

#[test]
fn test_multiple_comment_lines() {
    assert_compiles_to("# comment 1\n# comment 2\n0: srl", "srl");
}

#[test]
fn test_two_agents() {
    let result = compile_native("0: srl\n1: lrs");
    match result {
        CompileResult::Success { program } => {
            assert_eq!(program.agents.len(), 2);
            assert_eq!(program.agents[0].id, 0);
            assert_eq!(program.agents[1].id, 1);
        }
        CompileResult::Error { errors } => {
            panic!("Failed: {:?}", errors);
        }
    }
}

#[test]
fn test_three_agents() {
    let result = compile_native("0: srl\n1: lrs\n2: rsl");
    match result {
        CompileResult::Success { program } => {
            assert_eq!(program.agents.len(), 3);
        }
        CompileResult::Error { errors } => {
            panic!("Failed: {:?}", errors);
        }
    }
}

#[test]
fn test_agents_different_lengths() {
    let result = compile_native("0: ssssss\n1: rr");
    match result {
        CompileResult::Success { program } => {
            assert_eq!(program.max_steps, 6);
            assert_eq!(program.agents[0].commands.len(), 6);
            assert_eq!(program.agents[1].commands.len(), 2);
        }
        CompileResult::Error { errors } => {
            panic!("Failed: {:?}", errors);
        }
    }
}

#[test]
fn test_timeline_parallel() {
    let result = compile_native("0: sr\n1: ls");
    match result {
        CompileResult::Success { program } => {
            assert_eq!(program.timeline[0].agent_commands.len(), 2);
            assert_eq!(program.timeline[1].agent_commands.len(), 2);
        }
        CompileResult::Error { errors } => {
            panic!("Failed: {:?}", errors);
        }
    }
}

#[test]
fn test_agent_with_macro() {
    let result = compile_native("0: x:ss xrx\n1: y:rr yly");
    match result {
        CompileResult::Success { program } => {
            assert_eq!(program.agents[0].commands.len(), 5);
            assert_eq!(program.agents[1].commands.len(), 5);
        }
        CompileResult::Error { errors } => {
            panic!("Failed: {:?}", errors);
        }
    }
}

#[test]
fn test_agent_id_10() {
    let result = compile_native("10: srl");
    match result {
        CompileResult::Success { program } => {
            assert_eq!(program.agents[0].id, 10);
        }
        CompileResult::Error { errors } => {
            panic!("Failed: {:?}", errors);
        }
    }
}

#[test]
fn test_non_sequential_agent_ids() {
    let result = compile_native("0: s\n5: r\n10: l");
    match result {
        CompileResult::Success { program } => {
            assert_eq!(program.agents.len(), 3);
            assert_eq!(program.agents[0].id, 0);
            assert_eq!(program.agents[1].id, 5);
            assert_eq!(program.agents[2].id, 10);
        }
        CompileResult::Error { errors } => {
            panic!("Failed: {:?}", errors);
        }
    }
}

#[test]
fn test_hoj_simple_line() {
    assert_compiles_to("0: ssss", "ssss");
}

#[test]
fn test_hoj_turn_and_go() {
    assert_compiles_to("0: rss", "rss");
}

#[test]
fn test_hoj_square_small() {
    assert_compiles_to("0: f(X):XXXX f(sr)", "srsrsrsr");
}

#[test]
fn test_hoj_square_medium() {
    let result = compile_to_count("0: f(X):XXXX f(sssr)");
    assert_eq!(result.unwrap(), 16);
}

#[test]
fn test_hoj_triangle() {
    assert_compiles_to("0: f(X):XXX f(ssr)", "ssrssrssr");
}

#[test]
fn test_hoj_zigzag() {
    assert_compiles_to("0: f(X):XX f(srsl)", "srslsrsl");
}

#[test]
fn test_hoj_spiral_out() {
    assert_compiles_to("0: srsslsssrssssl", "srsslsssrssssl");
}

#[test]
fn test_hoj_repeat_pattern() {
    assert_compiles_to("0: a(X):sa(X-1) a(5)", "sssss");
}

#[test]
fn test_hoj_repeat_sequence() {
    assert_compiles_to("0: a(X,Y):Ya(X-1,Y) a(4,srl)", "srlsrlsrlsrl");
}

#[test]
fn test_hoj_nested_squares() {
    assert_compiles_to("0: f(X):XX f(sr)", "srsr");
}

#[test]
fn test_hoj_l_shape() {
    assert_compiles_to("0: sssrss", "sssrss");
}

#[test]
fn test_hoj_comb_pattern() {
    assert_compiles_to("0: f(X):XXX f(srrs)", "srrssrrssrrs");
}

#[test]
fn test_hoj_star_pattern() {
    assert_compiles_to("0: ssllssllssllssll", "ssllssllssllssll");
}

#[test]
fn test_hoj_double_loop() {
    assert_compiles_to("0: f(X):XXXX g(X):XX f(g(s))", "ssssssss");
}

#[test]
fn test_hoj_parameterized_square() {
    assert_compiles_to("0: a(X):sa(X-1) f(Y):YYYY f(a(3)r)", "sssrsssrsssrsssr");
}

#[test]
fn test_hoj_complex_recursion() {
    assert_compiles_to("0: f(X):XXX g(X):sXr f(g(s))", "ssrssrssr");
}

#[test]
fn test_single_command_single_agent() {
    assert_compiles_to("0: s", "s");
}

#[test]
fn test_very_long_direct_commands() {
    let source = format!("0: {}", "s".repeat(100));
    let result = compile_to_count(&source);
    assert_eq!(result.unwrap(), 100);
}

#[test]
fn test_many_macros() {
    let source = "0: a:s b:r c:l d:ss e:rr f:ll abcdef";
    let result = compile_to_string(source);
    assert!(result.is_ok());
    assert_eq!(result.unwrap(), "srlssrrll");
}

#[test]
fn test_macro_shadowing_in_sequence() {
    let result = compile_to_string("0: a:s a:r a");
    assert!(result.is_ok());
}

#[test]
fn test_function_with_empty_result() {
    assert_compiles_to("0: f(X):f(X-1) f(1)", "");
}

#[test]
fn test_numeric_boundary_1() {
    assert_compiles_to("0: f(X):sf(X-1) f(1)", "s");
}

#[test]
fn test_numeric_boundary_0() {
    assert_compiles_to("0: f(X):sf(X-1) f(0)", "");
}

#[test]
fn test_numeric_boundary_minus_1() {
    assert_compiles_to("0: f(X):sf(X-1) f(-1)", "");
}

#[test]
fn test_deeply_nested_macros() {
    assert_compiles_to("0: a:b b:c c:d d:s a", "s");
}

#[test]
fn test_function_calling_macro() {
    assert_compiles_to("0: a:s f(X):aX f(r)", "sr");
}

#[test]
fn test_macro_using_function() {
    assert_compiles_to("0: f(X):XX a:f(s) a", "ss");
}

#[test]
fn test_parameter_name_x() {
    assert_compiles_to("0: f(X):X f(s)", "s");
}

#[test]
fn test_parameter_name_y() {
    assert_compiles_to("0: f(Y):Y f(s)", "s");
}

#[test]
fn test_parameter_name_a() {
    assert_compiles_to("0: f(A):A f(s)", "s");
}

#[test]
fn test_parameter_name_z() {
    assert_compiles_to("0: f(Z):Z f(s)", "s");
}

#[test]
fn test_all_uppercase_params() {
    assert_compiles_to("0: f(A,B,C):ABC f(s,r,l)", "srl");
}

#[test]
fn test_function_not_mistaken_for_definition() {
    assert_compile_error("0: f(s)");
}

#[test]
fn test_macro_body_ends_at_space() {
    assert_compile_error("0: x:ss yyy");
}

#[test]
fn test_number_at_start_is_agent_id() {
    let result = compile_native("12: s");
    match result {
        CompileResult::Success { program } => {
            assert_eq!(program.agents[0].id, 12);
        }
        CompileResult::Error { errors } => {
            panic!("Failed: {:?}", errors);
        }
    }
}

#[test]
fn test_number_in_function_is_numeric_arg() {
    assert_compiles_to("0: a(X):sa(X-1) a(4)", "ssss");
}

#[test]
fn test_complex_nested_call() {
    assert_compiles_to("0: f(X):XX g(Y):YYY f(g(s))", "ssssss");
}

#[test]
fn test_parameter_in_recursive_call() {
    assert_compiles_to("0: a(X,Y):Ya(X-1,Y) a(2,sr)", "srsr");
}

#[test]
fn test_recursion_depth_80() {
    let result = compile_to_count("0: a(X):sa(X-1) a(80)");
    assert_eq!(result.unwrap(), 80);
}

#[test]
fn test_many_agents_10() {
    let source: String = (0..10).map(|i| format!("{}: s", i)).collect::<Vec<_>>().join("\n");
    let result = compile_native(&source);
    match result {
        CompileResult::Success { program } => {
            assert_eq!(program.agents.len(), 10);
        }
        CompileResult::Error { errors } => {
            panic!("Failed: {:?}", errors);
        }
    }
}

#[test]
fn test_deeply_nested_function_8_levels() {
    let result = compile_to_count("0: f(X):XX f(f(f(f(f(f(f(f(s))))))))");
    assert_eq!(result.unwrap(), 256);
}

#[test]
fn test_combined_macro_function_complexity() {
    let result = compile_to_count("0: a:sr b:rs f(X):XXX g(Y):YY af(g(b))a");
    assert_eq!(result.unwrap(), 16);
}
