use ssc::compile_source;
use ssc::error::CompilerError;

#[test]
fn whole_pipeline_produces_ir_and_assembly() {
    let src = "module demo;\nfn main() { let mut x: i32 = 0; x = x + 1; print(\"done\"); }";
    let (ir, assembly) = compile_source(src, 0).expect("compilation should succeed");
    assert!(ir.starts_with("; Module: demo\n"));
    assert!(ir.contains("function main() {\n"));
    assert!(ir.contains("    let x\n"));
    assert!(ir.contains("    assign x\n"));
    assert!(ir.contains("    call print\n"));
    assert!(assembly.contains("main:\n"));
    assert!(assembly.contains("    str_0: db `done\\n`, 0\n"));
}

#[test]
fn lexical_failure_aborts_with_a_lexer_error() {
    match compile_source("fn main() { let x = \"open; }", 0) {
        Err(CompilerError::LexerError(_)) => {},
        other => panic!("expected a lexer error, got {:?}", other.map(|_| ())),
    }
}

#[test]
fn grammar_failure_aborts_with_a_parse_error() {
    match compile_source("fn main() {", 0) {
        Err(CompilerError::ParseError(_)) => {},
        other => panic!("expected a parse error, got {:?}", other.map(|_| ())),
    }
}

#[test]
fn undeclared_identifier_never_reaches_code_generation() {
    // the pipeline stops at semantic analysis with its error kind
    match compile_source("fn main() { y; }", 0) {
        Err(CompilerError::SemanticError(_)) => {},
        other => panic!("expected a semantic error, got {:?}", other.map(|_| ())),
    }
}

#[test]
fn immutability_violation_fails_and_mutable_succeeds() {
    match compile_source("fn main() { let x: i32 = 1; x = 2; }", 0) {
        Err(CompilerError::SemanticError(_)) => {},
        other => panic!("expected a semantic error, got {:?}", other.map(|_| ())),
    }
    compile_source("fn main() { let mut x: i32 = 1; x = 2; }", 0)
        .expect("mutable reassignment should compile");
}

#[test]
fn shadowing_compiles_through_the_whole_pipeline() {
    compile_source("fn main() { let x: i32 = 1; if (true) { let x: i32 = 2; } }", 0)
        .expect("shadowing should compile");
}

#[test]
fn optimization_level_is_accepted_but_inert() {
    let src = "fn main() { let a: i32 = 1 + 2; }";
    let at_zero = compile_source(src, 0).expect("compiles at level 0");
    let at_three = compile_source(src, 3).expect("compiles at level 3");
    assert_eq!(at_zero.0, at_three.0);
    assert_eq!(at_zero.1, at_three.1);
}

#[test]
fn nested_control_flow_compiles() {
    let src = "fn main() {\n    let mut total: i32 = 0;\n    for (i in 0..10) {\n        if (total < 5) {\n            total = total + i;\n        } else {\n            while (false) { continue; }\n        }\n    }\n    loop { break; }\n}\n";
    let (_, assembly) = compile_source(src, 0).expect("nested control flow should compile");
    assert!(assembly.contains("    jge L"));
    assert!(assembly.contains("    jz L"));
}
