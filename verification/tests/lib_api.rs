//! Tests for the whole pipeline through `compile_native`.

use h2lang::compile_native;
use h2lang::output::CompileResult;

#[test]
fn test_compile_simple() {
    let result = compile_native("0: srl");
    match result {
        CompileResult::Success { program } => {
            assert_eq!(program.agents.len(), 1);
            assert_eq!(program.agents[0].id, 0);
            assert_eq!(program.agents[0].commands.len(), 3);
            assert_eq!(program.max_steps, 3);
            assert_eq!(program.timeline.len(), 3);
        }
        CompileResult::Error { errors } => {
            panic!("Compilation failed: {:?}", errors);
        }
    }
}

#[test]
fn test_compile_multiple_agents() {
    let result = compile_native("0: srl\n1: lrs");
    match result {
        CompileResult::Success { program } => {
            assert_eq!(program.agents.len(), 2);
            assert_eq!(program.max_steps, 3);
            assert_eq!(program.timeline[0].agent_commands.len(), 2);
        }
        CompileResult::Error { errors } => {
            panic!("Compilation failed: {:?}", errors);
        }
    }
}

#[test]
fn test_compile_with_macro() {
    let result = compile_native("0: x:ss xrx");
    match result {
        CompileResult::Success { program } => {
            assert_eq!(program.agents[0].commands.len(), 5);
        }
        CompileResult::Error { errors } => {
            panic!("Compilation failed: {:?}", errors);
        }
    }
}

#[test]
fn test_compile_with_function() {
    let result = compile_native("0: f(X):XXX f(s)");
    match result {
        CompileResult::Success { program } => {
            assert_eq!(program.agents[0].commands.len(), 3);
        }
        CompileResult::Error { errors } => {
            panic!("Compilation failed: {:?}", errors);
        }
    }
}

#[test]
fn test_compile_nested_function() {
    let result = compile_native("0: f(X):XX f(f(s))");
    match result {
        CompileResult::Success { program } => {
            assert_eq!(program.agents[0].commands.len(), 4);
        }
        CompileResult::Error { errors } => {
            panic!("Compilation failed: {:?}", errors);
        }
    }
}

#[test]
fn test_compile_error_undefined_function() {
    let result = compile_native("0: x");
    match result {
        CompileResult::Success { .. } => {
            panic!("Expected error for undefined function");
        }
        CompileResult::Error { errors } => {
            assert!(!errors.is_empty());
            assert!(errors[0].message.contains("Undefined function"));
        }
    }
}

#[test]
fn test_compile_error_syntax() {
    let result = compile_native("0: (");
    match result {
        CompileResult::Success { .. } => {
            panic!("Expected syntax error");
        }
        CompileResult::Error { errors } => {
            assert!(!errors.is_empty());
        }
    }
}

#[test]
fn test_timeline_parallel_execution() {
    let result = compile_native("0: srl\n1: lrs");
    match result {
        CompileResult::Success { program } => {
            assert_eq!(program.timeline[0].step, 0);
            let step0_cmds: Vec<_> = program.timeline[0]
                .agent_commands
                .iter()
                .map(|c| (c.agent_id, &c.command.command_type))
                .collect();

            assert!(step0_cmds.iter().any(|(id, _)| *id == 0));
            assert!(step0_cmds.iter().any(|(id, _)| *id == 1));
        }
        CompileResult::Error { errors } => {
            panic!("Compilation failed: {:?}", errors);
        }
    }
}

#[test]
fn lib_test_complex_hoj_example() {
    let result = compile_native("0: f(X):XXXX f(sssr)");
    match result {
        CompileResult::Success { program } => {
            assert_eq!(program.agents[0].commands.len(), 16);
        }
        CompileResult::Error { errors } => {
            panic!("Compilation failed: {:?}", errors);
        }
    }
}
