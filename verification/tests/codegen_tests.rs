use ssc::codegen::CodeGenerator;
use ssc::lexer::Lexer;
use ssc::parser::AstNode;
use ssc::parser::Parser;
use ssc::semantic::SemanticAnalyzer;

fn build(src: &str) -> AstNode {
    let mut lexer = Lexer::new(src);
    let tokens = lexer.tokenize().expect("lexing should succeed");
    let mut parser = Parser::new(tokens);
    let ast = parser.parse().expect("parsing should succeed");
    let mut semantic = SemanticAnalyzer::new();
    semantic.analyze(&ast).expect("semantic analysis should accept");
    ast
}

fn assembly(src: &str) -> String {
    let ast = build(src);
    let mut codegen = CodeGenerator::new(0);
    codegen.to_assembly(&ast).expect("code generation should succeed")
}

fn ir(src: &str) -> String {
    let ast = build(src);
    let mut codegen = CodeGenerator::new(0);
    codegen.generate(&ast).expect("IR generation should succeed")
}

#[test]
fn empty_function_exact_output() {
    let text = assembly("fn main() { }");
    let expected = "section .data\n\nsection .bss\n\nsection .text\n    global main\n    extern ExitProcess\n    extern printf\n\nmain:\n    push rbp\n    mov rbp, rsp\n    sub rsp, 32\n\n    xor eax, eax\n    leave\n    ret\n\n";
    assert_eq!(text, expected);
}

#[test]
fn frame_bytes_are_rounded_to_sixteen_plus_shadow_space() {
    // two declarations: 2 slots -> 16 bytes -> (16 + 32 + 15)/16*16 = 48
    let text = assembly("fn main() { let a: i32 = 1; let b: i32 = 2; }");
    assert!(text.contains("    sub rsp, 48\n"));
    // three declarations: 24 bytes rounded to 32, plus shadow space -> 64
    let t3 = assembly("fn main() { let a: i32 = 1; let b: i32 = 2; let c: i32 = 3; }");
    assert!(t3.contains("    sub rsp, 64\n"));
}

#[test]
fn nested_blocks_sum_slots_before_conversion() {
    // one declaration inside a while: 1 slot -> 8 bytes -> 16 local -> 48 total
    let w = assembly("fn main() { while (false) { let x: i32 = 1; } }");
    assert!(w.contains("    sub rsp, 48\n"));
    // a for loop adds two hidden slots (iterator and range-end bound):
    // 2 + 1 declaration = 3 slots -> 24 bytes -> 32 local -> 64 total
    let f = assembly("fn main() { for (i in 0..3) { let x: i32 = i; } }");
    assert!(f.contains("    sub rsp, 64\n"));
}

#[test]
fn exclusive_range_compares_with_jge() {
    let text = assembly("fn main() { for (i in 0..3) { let x: i32 = i; } }");
    assert!(text.contains("    mov rax, 3\n"));
    assert!(text.contains("    cmp rax, rcx\n"));
    assert!(text.contains("    jge L"));
    assert!(!text.contains("    jg L"));
}

#[test]
fn inclusive_range_compares_with_jg() {
    let text = assembly("fn main() { for (i in 0...3) { let x: i32 = i; } }");
    assert!(text.contains("    mov rax, 3\n"));
    assert!(text.contains("    jg L"));
    assert!(!text.contains("    jge L"));
}

#[test]
fn two_equal_print_strings_intern_two_entries() {
    // no deduplication: each occurrence gets its own data-section symbol
    let text = assembly("fn main() { print(\"hi\"); print(\"hi\"); }");
    assert!(text.contains("    str_0: db `hi\\n`, 0\n"));
    assert!(text.contains("    str_1: db `hi\\n`, 0\n"));
    assert!(text.contains("    lea rcx, [rel str_0]\n"));
    assert!(text.contains("    lea rcx, [rel str_1]\n"));
    assert!(text.contains("    call printf\n"));
    assert!(text.contains("    sub rsp, 32\n"));
    assert!(text.contains("    add rsp, 32\n"));
}

#[test]
fn one_label_per_function_and_balanced_pairs() {
    let text = assembly(
        "fn helper() { while (true) { break; } }\nfn main() { if (true) { } else { } }",
    );
    assert_eq!(text.matches("helper:\n").count(), 1);
    assert_eq!(text.matches("main:\n").count(), 1);
    // four labels allocated (two per construct), each defined exactly once
    for l in ["L0:\n", "L1:\n", "L2:\n", "L3:\n"] {
        assert_eq!(text.matches(l).count(), 1);
    }
    assert!(!text.contains("L4:"));
}

#[test]
fn explicit_return_suppresses_the_implicit_epilogue() {
    let text = assembly("fn main() { return 7; }");
    assert!(text.contains("    mov rax, 7\n"));
    assert_eq!(text.matches("    ret\n").count(), 1);
    assert!(!text.contains("    xor eax, eax\n"));
}

#[test]
fn binary_operation_evaluates_right_operand_first() {
    let text = assembly("fn main() { let x: i32 = 1 - 2; }");
    // right operand 2 first, pushed; then left 1; then pop and subtract
    let seq = "    mov rax, 2\n    push rax\n    mov rax, 1\n    pop rcx\n    sub rax, rcx\n";
    assert!(text.contains(seq));
}

#[test]
fn division_and_remainder_use_the_remainder_register() {
    let text = assembly("fn main() { let x: i32 = 7 % 2; }");
    let seq = "    xor rdx, rdx\n    idiv rcx\n    mov rax, rdx\n";
    assert!(text.contains(seq));
}

#[test]
fn comparison_lowers_to_setcc_and_zero_extend() {
    let text = assembly("fn main() { let b: bool = 1 < 2; }");
    let seq = "    cmp rax, rcx\n    setl al\n    movzx rax, al\n";
    assert!(text.contains(seq));
}

#[test]
fn break_and_continue_jump_to_the_innermost_pair() {
    let text = assembly("fn main() { loop { break; } }");
    // loop allocates (L0 start, L1 end); break jumps to the end label
    assert!(text.contains("L0:\n"));
    assert!(text.contains("    jmp L1\n"));
    assert!(text.contains("    jmp L0\n"));
    assert!(text.contains("L1:\n"));
}

#[test]
fn variables_load_from_their_slots() {
    let text = assembly("fn main() { let a: i32 = 5; let b: i32 = a; }");
    assert!(text.contains("    mov [rbp-8], rax\n"));
    assert!(text.contains("    mov rax, [rbp-8]\n"));
    assert!(text.contains("    mov [rbp-16], rax\n"));
}

#[test]
fn unknown_calls_emit_nothing() {
    let with_call = assembly("fn main() { helper(); }");
    let without = assembly("fn main() { }");
    assert_eq!(with_call, without);
}

#[test]
fn string_escapes_in_data_section() {
    let text = assembly("fn main() { print(\"a\\nb\"); }");
    // the raw newline inside the interned string is escaped for display
    assert!(text.contains("    str_0: db `a\\nb\\n`, 0\n"));
}

#[test]
fn ir_dump_lists_functions_and_statement_summaries() {
    let text = ir("fn add(a: i32, b: i32) -> i32 { let c: i32 = 1; return c; }\nfn main() { }");
    let expected = "; Module: main\nfunction add(a: i32, b: i32) -> i32 {\n    let c\n    return\n}\n\nfunction main() {\n}\n\n";
    assert_eq!(text, expected);
}

#[test]
fn ir_renders_array_types() {
    let text = ir("fn f(a: [i32; 4]) { }");
    assert!(text.contains("function f(a: [i32; 4]) {"));
}

#[test]
fn character_and_boolean_literals_load_immediates() {
    let text = assembly("fn main() { let c: char = 'A'; let b: bool = true; }");
    assert!(text.contains("    mov rax, 65\n"));
    assert!(text.contains("    mov rax, 1\n"));
}
