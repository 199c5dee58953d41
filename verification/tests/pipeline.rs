use letasm::compiler::{Compiler, Slot};
use letasm::lexer::{KeywordType, Lexer, OperatorType, TokenType};
use letasm::parser::Parser;
use letasm::CompileError;

fn compile_source(src: &str) -> Result<String, CompileError> {
    let lexer = Lexer::new();
    let tokens = lexer.tokenize(String::from(src))?;
    let parser = Parser::new();
    let root = parser.parse(tokens)?;
    Compiler::new().compile(root)
}

#[test]
fn tokenize_simple_binding() {
    let lexer = Lexer::new();
    let tokens = lexer.tokenize(String::from("let x = 3 + 4;")).unwrap();
    assert_eq!(tokens.len(), 7);
    assert_eq!(tokens[0].token_type, TokenType::Keyword);
    assert_eq!(tokens[0].keyword_type, Some(KeywordType::Let));
    assert_eq!(tokens[1].token_type, TokenType::Identifier);
    assert_eq!(tokens[1].value, "x");
    assert_eq!(tokens[2].token_type, TokenType::Operator);
    assert_eq!(tokens[2].op_type, Some(OperatorType::Equals));
    assert_eq!(tokens[3].token_type, TokenType::Number);
    assert_eq!(tokens[3].value, "3");
    assert_eq!(tokens[4].op_type, Some(OperatorType::Plus));
    assert_eq!(tokens[5].value, "4");
    assert_eq!(tokens[6].token_type, TokenType::SemiColon);
}

#[test]
fn tokenize_all_operators() {
    let lexer = Lexer::new();
    let tokens = lexer.tokenize(String::from("1 + 2 - 3 * 4")).unwrap();
    assert_eq!(tokens[1].op_type, Some(OperatorType::Plus));
    assert_eq!(tokens[3].op_type, Some(OperatorType::Minus));
    assert_eq!(tokens[5].op_type, Some(OperatorType::Multiply));
}

#[test]
fn tokenize_keywords_case_insensitively() {
    let lexer = Lexer::new();
    let tokens = lexer.tokenize(String::from("LET x = 5; Exit x;")).unwrap();
    assert_eq!(tokens[0].token_type, TokenType::Keyword);
    assert_eq!(tokens[0].keyword_type, Some(KeywordType::Let));
    assert_eq!(tokens[0].value, "LET");
    assert_eq!(tokens[5].keyword_type, Some(KeywordType::Exit));
}

#[test]
fn tokenize_rejects_number_prefixed_identifier() {
    let lexer = Lexer::new();
    let r = lexer.tokenize(String::from("let 9abc = 1;"));
    assert_eq!(r.unwrap_err(), CompileError::NumberPrefixedIdentifier);
}

#[test]
fn tokenize_rejects_division() {
    let lexer = Lexer::new();
    let r = lexer.tokenize(String::from("let x = 4 / 2;"));
    assert_eq!(r.unwrap_err(), CompileError::UnsupportedOperator);
}

#[test]
fn tokenize_rejects_misplaced_equals() {
    let lexer = Lexer::new();
    let r = lexer.tokenize(String::from("ab="));
    assert_eq!(r.unwrap_err(), CompileError::MisplacedEquals);
}

#[test]
fn parse_rejects_missing_identifier() {
    assert_eq!(compile_source("let 5 = 3;").unwrap_err(), CompileError::ExpectedIdentifier);
}

#[test]
fn parse_rejects_missing_equals() {
    assert_eq!(compile_source("let x 5;").unwrap_err(), CompileError::ExpectedEquals);
}

#[test]
fn parse_rejects_missing_operand() {
    assert_eq!(compile_source("exit +;").unwrap_err(), CompileError::ExpectedOperand);
}

#[test]
fn parse_rejects_empty_expression() {
    assert_eq!(compile_source("let x = ;").unwrap_err(), CompileError::ExpectedLiteral);
}

#[test]
fn parse_rejects_identifier_inside_arithmetic() {
    assert_eq!(compile_source("let y = 1; let x = 1 + y;").unwrap_err(), CompileError::ExpectedLiteral);
}

#[test]
fn parse_rejects_missing_operator() {
    assert_eq!(compile_source("let x = 1 1;").unwrap_err(), CompileError::ExpectedOperator);
}

#[test]
fn parse_rejects_missing_semicolon() {
    assert_eq!(compile_source("let x = 1 + 2").unwrap_err(), CompileError::ExpectedSemicolon);
}

#[test]
fn parse_rejects_stray_statement() {
    assert_eq!(compile_source("foo;").unwrap_err(), CompileError::ExpectedStatement);
}

#[test]
fn compile_empty_program() {
    let out = compile_source("").unwrap();
    assert_eq!(out, "global _start\n_start:\nsection .data\nsection .text\n_start:\n");
}

#[test]
fn compile_literal_exit_moves_directly() {
    let out = compile_source("exit 42;").unwrap();
    assert_eq!(
        out,
        "global _start\n_start:\nsection .data\nsection .text\n_start:\n    mov rdi, 42\n    mov rax, 60\n    syscall\n"
    );
}

#[test]
fn compile_unbound_identifier_exit_moves_directly() {
    let out = compile_source("exit y;").unwrap();
    assert_eq!(
        out,
        "global _start\n_start:\nsection .data\nsection .text\n_start:\n    mov rdi, y\n    mov rax, 60\n    syscall\n"
    );
}

#[test]
fn compile_single_literal_binding_reuses_slot() {
    let out = compile_source("let x = 5;\nexit x;").unwrap();
    assert_eq!(
        out,
        "global _start\n_start:\nsection .data\n    x dq 5\nsection .text\n_start:\n    xor rdi, rdi\n    mov rdi, [x]\n    mov rax, 60\n    syscall\n"
    );
}

#[test]
fn compile_sum_binding() {
    let out = compile_source("let x = 3 + 4;\nexit x;").unwrap();
    assert_eq!(
        out,
        "global _start\n_start:\nsection .data\n    x_Plus_0_1 dq 3\n    x_Plus_0_2 dq 4\nsection .text\n_start:\n    xor rdi, rdi\n    add rdi, [x_Plus_0_1]\n    add rdi, [x_Plus_0_2]\n    mov rax, 60\n    syscall\n"
    );
}

#[test]
fn compile_sum_binding_commutes() {
    let out1 = compile_source("let x = 3 + 4;\nexit x;").unwrap();
    let out2 = compile_source("let x = 4 + 3;\nexit x;").unwrap();
    let swap = out1.replace("dq 3", "dq tmp").replace("dq 4", "dq 3").replace("dq tmp", "dq 4");
    assert_eq!(out2, swap);
}

#[test]
fn compile_subtraction_binding() {
    let out = compile_source("let x = 9 - 2;\nexit x;").unwrap();
    assert_eq!(
        out,
        "global _start\n_start:\nsection .data\n    x_Minus_0_0 dq 9\n    x_Minus_0_1 dq 2\nsection .text\n_start:\n    xor rdi, rdi\n    sub rdi, [x_Minus_0_0]\n    sub rdi, [x_Minus_0_1]\n    mov rax, 60\n    syscall\n"
    );
}

#[test]
fn compile_multiplicative_run_groups_before_flush() {
    let out = compile_source("let x = 2 * 3 + 1;\nexit x;").unwrap();
    assert_eq!(
        out,
        "global _start\n_start:\nsection .data\n    x_Multiply_0_0 dq 3\n    x_Multiply_0_1 dq 2\n    x_Plus_0_0 dq 1\nsection .text\n_start:\n    xor rdi, rdi\n    mov rax, [x_Multiply_0_0]\n    mov rbx, [x_Multiply_0_1]\n    imul rbx\n    add rdi, rax\n    add rdi, [x_Plus_0_0]\n    mov rax, 60\n    syscall\n"
    );
}

#[test]
fn compile_pure_product_binding() {
    let out = compile_source("let x = 2 * 3;\nexit x;").unwrap();
    assert_eq!(
        out,
        "global _start\n_start:\nsection .data\n    x_Multiply_0_0 dq 2\n    x_Multiply_0_1 dq 3\nsection .text\n_start:\n    xor rdi, rdi\n    mov rax, [x_Multiply_0_0]\n    mov rbx, [x_Multiply_0_1]\n    imul rbx\n    add rdi, rax\n    mov rax, 60\n    syscall\n"
    );
}

#[test]
fn compile_additive_chain_accumulates_every_slot() {
    let out = compile_source("let x = 1 + 2 + 3;\nexit x;").unwrap();
    assert_eq!(
        out,
        "global _start\n_start:\nsection .data\n    x_Plus_0_2 dq 2\n    x_Plus_0_3 dq 1\n    x_Plus_0_4 dq 3\nsection .text\n_start:\n    xor rdi, rdi\n    add rdi, [x_Plus_0_2]\n    add rdi, [x_Plus_0_3]\n    add rdi, [x_Plus_0_4]\n    mov rax, 60\n    syscall\n"
    );
}

#[test]
fn compile_is_deterministic() {
    let src = "let a = 1 + 2 * 3 - 4;\nlet b = 7;\nexit a;\nexit b;";
    let out1 = compile_source(src).unwrap();
    let out2 = compile_source(src).unwrap();
    assert_eq!(out1, out2);
}

#[test]
fn compile_rejects_slot_name_collision() {
    let r = compile_source("let x = 1;\nlet x = 2;\nexit x;");
    assert_eq!(r.unwrap_err(), CompileError::SlotNameCollision);
}

#[test]
fn reduction_rejects_equals_operator() {
    let slots = vec![Slot {
        name: String::from("x_Equals_0_0"),
        owner: String::from("x"),
        value: String::from("1"),
        operator: Some(OperatorType::Equals),
        width: 64,
    }];
    let r = Compiler::reduce_slots(&slots);
    assert_eq!(r.unwrap_err(), CompileError::EqualsInReduction);
}

#[test]
fn reduction_rejects_lone_multiplication() {
    let slots = vec![Slot {
        name: String::from("x_Multiply_0_0"),
        owner: String::from("x"),
        value: String::from("2"),
        operator: Some(OperatorType::Multiply),
        width: 64,
    }];
    let r = Compiler::reduce_slots(&slots);
    assert_eq!(r.unwrap_err(), CompileError::MissingFactor);
}

#[test]
fn reduction_of_sorted_slots_emits_accumulation() {
    let slots = vec![
        Slot {
            name: String::from("x_Plus_0_1"),
            owner: String::from("x"),
            value: String::from("3"),
            operator: Some(OperatorType::Plus),
            width: 64,
        },
        Slot {
            name: String::from("x_Plus_0_2"),
            owner: String::from("x"),
            value: String::from("4"),
            operator: Some(OperatorType::Plus),
            width: 64,
        },
    ];
    let text = Compiler::reduce_slots(&slots).unwrap();
    assert_eq!(text, "    xor rdi, rdi\n    add rdi, [x_Plus_0_1]\n    add rdi, [x_Plus_0_2]\n");
}

#[test]
fn error_messages_name_the_invariant() {
    assert_eq!(
        CompileError::EqualsInReduction.message(),
        "equals operator reached the reduction loop"
    );
    assert_eq!(CompileError::SlotNameCollision.message(), "slot name allocated twice");
}
