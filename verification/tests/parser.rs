//! Tests for the parser: programs, agents, definitions, calls and
//! numeric argument expressions.

use h2lang::ast::{Arg, Definition, Expr, NumAtom, NumOp, Primitive};
use h2lang::parser::Parser;

#[test]
fn test_simple_program() {
    let mut parser = Parser::new("0: srl").unwrap();
    let program = parser.parse_program().unwrap();

    assert_eq!(program.agents.len(), 1);
    assert_eq!(program.agents[0].id, 0);
}

#[test]
fn parser_test_multiple_agents() {
    let mut parser = Parser::new("0: srl\n1: lrs").unwrap();
    let program = parser.parse_program().unwrap();

    assert_eq!(program.agents.len(), 2);
    assert_eq!(program.agents[0].id, 0);
    assert_eq!(program.agents[1].id, 1);
}

#[test]
fn test_macro_definition() {
    let mut parser = Parser::new("0: x:ss xrx").unwrap();
    let program = parser.parse_program().unwrap();

    assert_eq!(program.agents[0].definitions.len(), 1);
    assert_eq!(program.agents[0].definitions[0].name(), 'x');
}

#[test]
fn parser_test_function_definition() {
    let mut parser = Parser::new("0: f(X):XXX f(s)").unwrap();
    let program = parser.parse_program().unwrap();

    assert_eq!(program.agents[0].definitions.len(), 1);
    if let Definition::Function(f) = &program.agents[0].definitions[0] {
        assert_eq!(f.name, 'f');
        assert_eq!(f.params, vec!['X']);
    } else {
        panic!("Expected function definition");
    }
}

#[test]
fn parser_test_nested_function_call() {
    let mut parser = Parser::new("0: f(X):XXX f(f(s))").unwrap();
    let program = parser.parse_program().unwrap();

    assert_eq!(program.agents.len(), 1);
}

#[test]
fn test_empty_expression() {
    let mut parser = Parser::new("0: x:ss").unwrap();
    let program = parser.parse_program().unwrap();

    assert_eq!(program.agents[0].definitions.len(), 1);
    assert!(program.agents[0].expression.is_empty());
}

#[test]
fn test_function_call_not_definition() {
    // f(s) is a call, not a definition ('s' is not a parameter letter)
    let mut parser = Parser::new("0: f(X):X f(s)").unwrap();
    let program = parser.parse_program().unwrap();

    assert_eq!(program.agents[0].definitions.len(), 1);
    assert!(!program.agents[0].expression.is_empty());
}

#[test]
fn test_multiple_definitions() {
    let mut parser = Parser::new("0: x:ss f(X):XX xf(s)").unwrap();
    let program = parser.parse_program().unwrap();

    assert_eq!(program.agents[0].definitions.len(), 2);
}

#[test]
fn test_numeric_argument() {
    let mut parser = Parser::new("0: a(X):sa(X-1) a(4)").unwrap();
    let program = parser.parse_program().unwrap();

    assert_eq!(program.agents[0].definitions.len(), 1);
    if let Expr::FuncCall { name, args, .. } = &program.agents[0].expression {
        assert_eq!(*name, 'a');
        assert_eq!(args.len(), 1);
        assert!(matches!(args[0], Arg::Number(4, _)));
    } else {
        panic!("Expected FuncCall");
    }
}

#[test]
fn test_numeric_expression_arg() {
    let mut parser = Parser::new("0: a(X-1)").unwrap();
    let program = parser.parse_program().unwrap();

    if let Expr::FuncCall { args, .. } = &program.agents[0].expression {
        assert_eq!(args.len(), 1);
        if let Arg::NumExpr { first, rest, .. } = &args[0] {
            assert_eq!(*first, NumAtom::Param('X'));
            assert_eq!(rest.as_slice(), &[(NumOp::Sub, NumAtom::Number(1))]);
        } else {
            panic!("Expected NumExpr");
        }
    } else {
        panic!("Expected FuncCall");
    }
}

#[test]
fn test_numeric_expression_plus() {
    let mut parser = Parser::new("0: a(X+2)").unwrap();
    let program = parser.parse_program().unwrap();

    if let Expr::FuncCall { args, .. } = &program.agents[0].expression {
        if let Arg::NumExpr { first, rest, .. } = &args[0] {
            assert_eq!(*first, NumAtom::Param('X'));
            assert_eq!(rest.as_slice(), &[(NumOp::Add, NumAtom::Number(2))]);
        } else {
            panic!("Expected NumExpr");
        }
    } else {
        panic!("Expected FuncCall");
    }
}

#[test]
fn test_multiple_arguments() {
    let mut parser = Parser::new("0: a(4,s)").unwrap();
    let program = parser.parse_program().unwrap();

    if let Expr::FuncCall { args, .. } = &program.agents[0].expression {
        assert_eq!(args.len(), 2);
        assert!(matches!(args[0], Arg::Number(4, _)));
        if let Arg::Command(Expr::Primitive(Primitive::Straight, _)) = &args[1] {
            // OK
        } else {
            panic!("Expected Command(Straight)");
        }
    } else {
        panic!("Expected FuncCall");
    }
}

#[test]
fn parser_test_complex_hoj_example() {
    let mut parser = Parser::new("0: a(X,Y):Ya(X-1,Y) a(4,s)").unwrap();
    let program = parser.parse_program().unwrap();

    assert_eq!(program.agents[0].definitions.len(), 1);
    if let Expr::FuncCall { name, args, .. } = &program.agents[0].expression {
        assert_eq!(*name, 'a');
        assert_eq!(args.len(), 2);
    } else {
        panic!("Expected FuncCall");
    }
}

#[test]
fn test_command_expression_arg() {
    let mut parser = Parser::new("0: f(srl)").unwrap();
    let program = parser.parse_program().unwrap();

    if let Expr::FuncCall { args, .. } = &program.agents[0].expression {
        assert_eq!(args.len(), 1);
        if let Arg::Command(Expr::Sequence(exprs)) = &args[0] {
            assert_eq!(exprs.len(), 3);
        } else {
            panic!("Expected Command(Sequence)");
        }
    } else {
        panic!("Expected FuncCall");
    }
}

#[test]
fn test_no_agent_prefix_simple() {
    let mut parser = Parser::new("srl").unwrap();
    let program = parser.parse_program().unwrap();

    assert_eq!(program.agents.len(), 1);
    assert_eq!(program.agents[0].id, 0);
}

#[test]
fn test_no_agent_prefix_with_macro() {
    let mut parser = Parser::new("x:ss xrx").unwrap();
    let program = parser.parse_program().unwrap();

    assert_eq!(program.agents.len(), 1);
    assert_eq!(program.agents[0].id, 0);
    assert_eq!(program.agents[0].definitions.len(), 1);
}

#[test]
fn test_no_agent_prefix_with_function() {
    let mut parser = Parser::new("f(X):XXXX f(sssr)").unwrap();
    let program = parser.parse_program().unwrap();

    assert_eq!(program.agents.len(), 1);
    assert_eq!(program.agents[0].id, 0);
    assert_eq!(program.agents[0].definitions.len(), 1);
}

#[test]
fn test_no_agent_prefix_multiline() {
    let mut parser = Parser::new("srl\nlrs").unwrap();
    let program = parser.parse_program().unwrap();

    assert_eq!(program.agents.len(), 1);
    assert_eq!(program.agents[0].id, 0);
}

#[test]
fn test_no_agent_prefix_macro_multiline() {
    let mut parser = Parser::new("a:ssrs\naaaaaaaaaa").unwrap();
    let program = parser.parse_program().unwrap();

    assert_eq!(program.agents.len(), 1);
    assert_eq!(program.agents[0].id, 0);
    assert_eq!(program.agents[0].definitions.len(), 1);
}

#[test]
fn test_mixed_prefix_and_no_prefix() {
    let mut parser = Parser::new("0: srl\n1: lrs").unwrap();
    let program = parser.parse_program().unwrap();
    assert_eq!(program.agents.len(), 2);
}

#[test]
fn test_agent_with_multiline_code() {
    let mut parser = Parser::new("0: a:ssrs\naaaa\n1: srl").unwrap();
    let program = parser.parse_program().unwrap();

    assert_eq!(program.agents.len(), 2);
    assert_eq!(program.agents[0].id, 0);
    assert_eq!(program.agents[0].definitions.len(), 1);
    assert_eq!(program.agents[1].id, 1);
}

#[test]
fn test_agent_with_multiline_code_trailing() {
    let mut parser = Parser::new("0: srl\n1: a:ss\naaaa").unwrap();
    let program = parser.parse_program().unwrap();

    assert_eq!(program.agents.len(), 2);
    assert_eq!(program.agents[0].id, 0);
    assert_eq!(program.agents[1].id, 1);
    assert_eq!(program.agents[1].definitions.len(), 1);
}
