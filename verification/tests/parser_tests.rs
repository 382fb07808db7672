use ssc::error::CompilerError;
use ssc::lexer::Lexer;
use ssc::parser::AstNode;
use ssc::parser::Literal;
use ssc::parser::Parser;
use ssc::parser::Type;

fn parse(src: &str) -> AstNode {
    let mut lexer = Lexer::new(src);
    let tokens = lexer.tokenize().expect("lexing should succeed");
    let mut parser = Parser::new(tokens);
    parser.parse().expect("parsing should succeed")
}

fn parse_err(src: &str) -> CompilerError {
    let mut lexer = Lexer::new(src);
    let tokens = lexer.tokenize().expect("lexing should succeed");
    let mut parser = Parser::new(tokens);
    match parser.parse() {
        Ok(_) => panic!("parsing should fail"),
        Err(e) => e,
    }
}

#[test]
fn empty_module_defaults_to_main() {
    match parse("") {
        AstNode::Module { name, items } => {
            assert_eq!(name, "main");
            assert!(items.is_empty());
        },
        other => panic!("expected module, got {:?}", other),
    }
}

#[test]
fn module_declaration_names_the_unit() {
    match parse("module widget;") {
        AstNode::Module { name, .. } => assert_eq!(name, "widget"),
        other => panic!("expected module, got {:?}", other),
    }
}

#[test]
fn imports_are_consumed_without_effect() {
    match parse("import something weird; fn main() { }") {
        AstNode::Module { items, .. } => assert_eq!(items.len(), 1),
        other => panic!("expected module, got {:?}", other),
    }
}

#[test]
fn function_with_params_and_return_type() {
    match parse("fn add(a: i32, b: i32) -> i32 { return a; }") {
        AstNode::Module { items, .. } => match &items[0] {
            AstNode::Function { name, params, return_type, body } => {
                assert_eq!(name, "add");
                assert_eq!(params.len(), 2);
                assert_eq!(params[0].0, "a");
                assert!(matches!(params[0].1, Type::I32));
                assert!(matches!(return_type, Some(Type::I32)));
                assert_eq!(body.len(), 1);
                assert!(matches!(body[0], AstNode::Return { .. }));
            },
            other => panic!("expected function, got {:?}", other),
        },
        other => panic!("expected module, got {:?}", other),
    }
}

fn first_stmt(src: &str) -> AstNode {
    match parse(src) {
        AstNode::Module { mut items, .. } => match items.remove(0) {
            AstNode::Function { mut body, .. } => body.remove(0),
            other => panic!("expected function, got {:?}", other),
        },
        other => panic!("expected module, got {:?}", other),
    }
}

#[test]
fn precedence_multiplication_binds_tighter() {
    // 1 + 2 * 3 parses as 1 + (2 * 3)
    match first_stmt("fn f() { let x = 1 + 2 * 3; }") {
        AstNode::VariableDecl { value: Some(v), .. } => match *v {
            AstNode::BinaryOp { op, left, right } => {
                assert_eq!(op, "+");
                assert!(matches!(*left, AstNode::Literal(Literal::Int(1))));
                match *right {
                    AstNode::BinaryOp { op, .. } => assert_eq!(op, "*"),
                    other => panic!("expected nested binop, got {:?}", other),
                }
            },
            other => panic!("expected binop, got {:?}", other),
        },
        other => panic!("expected declaration, got {:?}", other),
    }
}

#[test]
fn left_associative_folding() {
    // 10 - 4 - 3 parses as (10 - 4) - 3
    match first_stmt("fn f() { let x = 10 - 4 - 3; }") {
        AstNode::VariableDecl { value: Some(v), .. } => match *v {
            AstNode::BinaryOp { left, right, op } => {
                assert_eq!(op, "-");
                assert!(matches!(*left, AstNode::BinaryOp { .. }));
                assert!(matches!(*right, AstNode::Literal(Literal::Int(3))));
            },
            other => panic!("expected binop, got {:?}", other),
        },
        other => panic!("expected declaration, got {:?}", other),
    }
}

#[test]
fn prefix_unary_chains_nest() {
    match first_stmt("fn f() { let x = !!true; }") {
        AstNode::VariableDecl { value: Some(v), .. } => match *v {
            AstNode::UnaryOp { op, operand } => {
                assert_eq!(op, "!");
                assert!(matches!(*operand, AstNode::UnaryOp { .. }));
            },
            other => panic!("expected unary, got {:?}", other),
        },
        other => panic!("expected declaration, got {:?}", other),
    }
}

#[test]
fn assignment_statement_on_plain_identifier() {
    match first_stmt("fn f() { x = 2; }") {
        AstNode::Assignment { target, value } => {
            assert_eq!(target, "x");
            assert!(matches!(*value, AstNode::Literal(Literal::Int(2))));
        },
        other => panic!("expected assignment, got {:?}", other),
    }
}

#[test]
fn for_loop_exclusive_and_inclusive() {
    match first_stmt("fn f() { for (i in 0..3) { } }") {
        AstNode::For { iterator, inclusive, .. } => {
            assert_eq!(iterator, "i");
            assert!(!inclusive);
        },
        other => panic!("expected for, got {:?}", other),
    }
    match first_stmt("fn f() { for (i in 0...3) { } }") {
        AstNode::For { inclusive, .. } => assert!(inclusive),
        other => panic!("expected for, got {:?}", other),
    }
}

#[test]
fn array_literal_repeat_and_index() {
    match first_stmt("fn f() { let a = [1, 2, 3]; }") {
        AstNode::VariableDecl { value: Some(v), .. } => match *v {
            AstNode::ArrayLiteral { elements } => assert_eq!(elements.len(), 3),
            other => panic!("expected array literal, got {:?}", other),
        },
        other => panic!("expected declaration, got {:?}", other),
    }
    match first_stmt("fn f() { let a = [0; 4]; }") {
        AstNode::VariableDecl { value: Some(v), .. } => match *v {
            AstNode::ArrayRepeat { count, .. } => assert_eq!(count, 4),
            other => panic!("expected array repeat, got {:?}", other),
        },
        other => panic!("expected declaration, got {:?}", other),
    }
    match first_stmt("fn f() { a[0]; }") {
        AstNode::ArrayIndex { array, .. } => {
            assert!(matches!(*array, AstNode::Identifier(_)));
        },
        other => panic!("expected array index, got {:?}", other),
    }
}

#[test]
fn call_with_arguments() {
    match first_stmt("fn f() { print(\"hi\", 1); }") {
        AstNode::FunctionCall { name, args } => {
            assert_eq!(name, "print");
            assert_eq!(args.len(), 2);
        },
        other => panic!("expected call, got {:?}", other),
    }
}

#[test]
fn array_type_annotation() {
    match first_stmt("fn f() { let a: [i32; 4] = [0; 4]; }") {
        AstNode::VariableDecl { var_type: Some(t), .. } => match t {
            Type::Array(elem, n) => {
                assert!(matches!(*elem, Type::I32));
                assert_eq!(n, 4);
            },
            other => panic!("expected array type, got {:?}", other),
        },
        other => panic!("expected declaration, got {:?}", other),
    }
}

#[test]
fn structural_mismatch_is_a_parse_error() {
    assert!(matches!(parse_err("fn f( { }"), CompilerError::ParseError(_)));
    assert!(matches!(parse_err("let x = 1;"), CompilerError::ParseError(_)));
    assert!(matches!(parse_err("fn f() { let a = [0; n]; }"), CompilerError::ParseError(_)));
    assert!(matches!(parse_err("fn f() { for (i of 0..3) { } }"), CompilerError::ParseError(_)));
    assert!(matches!(parse_err("fn f() { for (i in 0,3) { } }"), CompilerError::ParseError(_)));
}

#[test]
fn parse_error_names_the_position() {
    match parse_err("fn f() {") {
        CompilerError::ParseError(msg) => {
            assert!(msg.contains("line"));
            assert!(msg.contains("column"));
        },
        other => panic!("expected parse error, got {:?}", other),
    }
}
