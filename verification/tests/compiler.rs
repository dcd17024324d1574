use minicc::token::{Keyword, Operator, Punctuator, Token};
use minicc::ast::{Ast, AstNode, Declaration, Expression, Item, Statement};
use minicc::lex::{lex, LexError};
use minicc::parser::{parser, ParseError};
use minicc::generator::{generate, unique_suffix, add_suffix, GenError};
use minicc::assembly::{render_line, render_program, label_text, u64_text, AsmLine, LabelId, LabelKind};
use minicc::context::Context;

fn compile(src: &str) -> Result<Vec<AsmLine>, GenError> {
    let tokens = lex(src).expect("lexing failed");
    let ast = parser(&tokens).expect("parsing failed");
    let mut counter: u64 = 0;
    generate(&ast, &mut counter)
}

fn parse(src: &str) -> Result<Ast, ParseError> {
    let tokens = lex(src).expect("lexing failed");
    parser(&tokens)
}

/// Every jump target is defined exactly once in the listing.
fn assert_labels_resolved(lines: &[AsmLine]) {
    let mut targets: Vec<LabelId> = Vec::new();
    for l in lines {
        match l {
            AsmLine::Jmp(id) | AsmLine::Je(id) | AsmLine::Jne(id) => targets.push(*id),
            _ => {}
        }
    }
    for t in &targets {
        let defs = lines
            .iter()
            .filter(|l| matches!(l, AsmLine::Label(id) if id == t))
            .count();
        assert_eq!(defs, 1, "label {:?} defined {} times", t, defs);
    }
    // and no label is defined twice at all
    let mut defined: Vec<LabelId> = Vec::new();
    for l in lines {
        if let AsmLine::Label(id) = l {
            assert!(!defined.contains(id), "label {:?} defined twice", id);
            defined.push(*id);
        }
    }
}

#[test]
fn lex_round_trip_prefix() {
    let toks = lex("int add(int a, int b) { return a + b; } int main() { return add(2, 3); }")
        .unwrap();
    assert_eq!(toks[0], Token::Keyword(Keyword::Int));
    assert_eq!(toks[1], Token::Identifier(String::from("add")));
    assert_eq!(toks[2], Token::Punctuator(Punctuator::OpenParen));
    assert_eq!(toks[3], Token::Keyword(Keyword::Int));
    assert_eq!(toks[4], Token::Identifier(String::from("a")));
    assert_eq!(toks[5], Token::Punctuator(Punctuator::Comma));
}

#[test]
fn lex_keywords_and_identifier() {
    let toks = lex("int break else return continue for do if while intx").unwrap();
    assert_eq!(
        toks,
        vec![
            Token::Keyword(Keyword::Int),
            Token::Keyword(Keyword::Break),
            Token::Keyword(Keyword::Else),
            Token::Keyword(Keyword::Return),
            Token::Keyword(Keyword::Continue),
            Token::Keyword(Keyword::For),
            Token::Keyword(Keyword::Do),
            Token::Keyword(Keyword::If),
            Token::Keyword(Keyword::While),
            Token::Identifier(String::from("intx")),
        ]
    );
}

#[test]
fn lex_compound_operators() {
    let toks = lex("+= -= *= /= %= == != <= >= << >> && || = < > + - * / % & | ^ !").unwrap();
    let expect = vec![
        Operator::AssignPlus,
        Operator::AssignMinus,
        Operator::AssignMult,
        Operator::AssignDiv,
        Operator::AssignMod,
        Operator::Equal,
        Operator::NotEqual,
        Operator::LessThanOrEqual,
        Operator::GreaterThanOrEqual,
        Operator::BitwiseShiftLeft,
        Operator::BitwiseShiftRight,
        Operator::LogicalAnd,
        Operator::LogicalOr,
        Operator::Assignment,
        Operator::LessThan,
        Operator::GreaterThan,
        Operator::Plus,
        Operator::Minus,
        Operator::Multiplication,
        Operator::Division,
        Operator::Modulo,
        Operator::BitwiseAnd,
        Operator::BitwiseOr,
        Operator::BitwiseXor,
        Operator::LogicalNegation,
    ];
    let got: Vec<Operator> = toks
        .iter()
        .map(|t| match t {
            Token::Operator(op) => *op,
            other => panic!("expected operator, got {:?}", other),
        })
        .collect();
    assert_eq!(got, expect);
}

#[test]
fn lex_constant_limits() {
    let toks = lex("2147483647").unwrap();
    assert_eq!(toks, vec![Token::Constant(2147483647)]);
    assert_eq!(lex("2147483648"), Err(LexError::NumericOverflow));
    assert_eq!(lex("99999999999999999999"), Err(LexError::NumericOverflow));
}

#[test]
fn lex_drops_whitespace_and_unrecognized() {
    let toks = lex("a \t\n@ b").unwrap();
    assert_eq!(
        toks,
        vec![
            Token::Identifier(String::from("a")),
            Token::Identifier(String::from("b")),
        ]
    );
}

#[test]
fn parse_two_functions_with_arities() {
    let ast = parse("int add(int a, int b) { return a + b; } int main() { return add(2, 3); }")
        .unwrap();
    let Ast::Ast(funs) = ast;
    assert_eq!(funs.len(), 2);
    let AstNode::AstNode(name0, params0, body0) = &funs[0];
    assert_eq!(name0, "add");
    assert_eq!(params0.len(), 2);
    assert!(body0.is_some());
    let AstNode::AstNode(name1, params1, body1) = &funs[1];
    assert_eq!(name1, "main");
    assert_eq!(params1.len(), 0);
    assert!(body1.is_some());
}

#[test]
fn parse_wrong_argument_count_fails() {
    let r = parse("int f(int a); int main() { return f(1, 2); }");
    assert_eq!(r.unwrap_err(), ParseError::WrongArgumentCount(String::from("f")));
}

#[test]
fn parse_undeclared_function_fails() {
    let r = parse("int main() { return g(); }");
    assert_eq!(r.unwrap_err(), ParseError::UndeclaredFunction(String::from("g")));
}

#[test]
fn parse_arity_conflict_fails() {
    let r = parse("int f(int a); int f(int a, int b);");
    assert_eq!(r.unwrap_err(), ParseError::ArityConflict(String::from("f")));
}

#[test]
fn parse_second_body_fails() {
    let r = parse("int f() { return 0; } int f() { return 1; }");
    assert_eq!(r.unwrap_err(), ParseError::Redefinition(String::from("f")));
    // a prototype after the definition does not license another body
    let r2 = parse("int f() { return 0; } int f(); int f() { return 1; }");
    assert_eq!(r2.unwrap_err(), ParseError::Redefinition(String::from("f")));
}

#[test]
fn parse_prototype_then_definition_is_legal() {
    assert!(parse("int f(int a); int f(int a) { return a; } int main() { return f(4); }").is_ok());
}

#[test]
fn parse_ternary_shape() {
    let ast = parse("int main() { return 1 ? 2 : 3; }").unwrap();
    let Ast::Ast(funs) = ast;
    let AstNode::AstNode(_, _, body) = &funs[0];
    let items = body.as_ref().unwrap();
    match &items[0] {
        Item::Statement(Statement::Return(Expression::TernaryOperators(c, t, f))) => {
            assert!(matches!(**c, Expression::Constant(1)));
            assert!(matches!(**t, Expression::Constant(2)));
            assert!(matches!(**f, Expression::Constant(3)));
        }
        other => panic!("expected a ternary return, got {:?}", other),
    }
}

#[test]
fn parse_additive_is_left_associative() {
    let ast = parse("int main() { return 1 - 2 - 3; }").unwrap();
    let Ast::Ast(funs) = ast;
    let AstNode::AstNode(_, _, body) = &funs[0];
    let items = body.as_ref().unwrap();
    match &items[0] {
        Item::Statement(Statement::Return(Expression::BinaryOperators(op, lhs, rhs))) => {
            assert_eq!(*op, Operator::Minus);
            assert!(matches!(**rhs, Expression::Constant(3)));
            assert!(matches!(**lhs, Expression::BinaryOperators(Operator::Minus, _, _)));
        }
        other => panic!("expected a subtraction, got {:?}", other),
    }
}

#[test]
fn parse_assignment_is_right_associative() {
    let ast = parse("int main() { int a; int b; a = b = 5; return a; }").unwrap();
    let Ast::Ast(funs) = ast;
    let AstNode::AstNode(_, _, body) = &funs[0];
    let items = body.as_ref().unwrap();
    match &items[2] {
        Item::Statement(Statement::Expression(Some(Expression::AssignmentOperators(
            Operator::Assignment,
            name,
            rhs,
        )))) => {
            assert_eq!(name, "a");
            assert!(matches!(
                **rhs,
                Expression::AssignmentOperators(Operator::Assignment, _, _)
            ));
        }
        other => panic!("expected an assignment chain, got {:?}", other),
    }
}

#[test]
fn parse_equality_groups_to_the_right() {
    let ast = parse("int main() { int a; int b; int c; return a == b != c; }").unwrap();
    let Ast::Ast(funs) = ast;
    let AstNode::AstNode(_, _, body) = &funs[0];
    let items = body.as_ref().unwrap();
    match &items[3] {
        Item::Statement(Statement::Return(Expression::BinaryOperators(op, lhs, rhs))) => {
            assert_eq!(*op, Operator::Equal);
            assert!(matches!(**lhs, Expression::Variable(_)));
            assert!(matches!(
                **rhs,
                Expression::BinaryOperators(Operator::NotEqual, _, _)
            ));
        }
        other => panic!("expected an equality chain, got {:?}", other),
    }
}

#[test]
fn parse_missing_colon_in_ternary_fails() {
    // "1 ? 2 3" — the colon after the true branch is missing; the offending
    // token is the constant 3 at index 9
    let r = parse("int main() { return 1 ? 2 3 ; }");
    assert_eq!(r.unwrap_err(), ParseError::UnexpectedToken(9));
}

#[test]
fn parse_missing_semicolon_fails() {
    // the statement expression is not followed by a semicolon; the closing
    // brace at index 8 is reported
    let r = parse("int main() { x = 1 }");
    assert_eq!(r.unwrap_err(), ParseError::UnexpectedToken(8));
}

#[test]
fn generate_call_pushes_arguments_right_to_left() {
    let lines =
        compile("int add(int a, int b) { return a + b; } int main() { return add(2, 3); }")
            .unwrap();
    // inside main: 3 is pushed first, then 2, then the call, then the cleanup
    let pos3 = lines
        .iter()
        .position(|l| matches!(l, AsmLine::MovImm(3)))
        .expect("missing load of 3");
    assert_eq!(lines[pos3 + 1], AsmLine::PushRax);
    assert_eq!(lines[pos3 + 2], AsmLine::MovImm(2));
    assert_eq!(lines[pos3 + 3], AsmLine::PushRax);
    assert_eq!(lines[pos3 + 4], AsmLine::CallFn(String::from("add")));
    assert_eq!(lines[pos3 + 5], AsmLine::AddRsp(16));
    assert_labels_resolved(&lines);
}

#[test]
fn generate_while_loop_has_distinct_labels() {
    let lines = compile("int main() { int x = 0; while (x < 3) { x = x + 1; } return x; }")
        .unwrap();
    let mut kinds: Vec<LabelKind> = Vec::new();
    for l in &lines {
        if let AsmLine::Label(id) = l {
            kinds.push(id.kind);
        }
    }
    assert!(kinds.contains(&LabelKind::LoopTop));
    assert!(kinds.contains(&LabelKind::LoopContinue));
    assert!(kinds.contains(&LabelKind::PostLoop));
    assert_labels_resolved(&lines);
}

#[test]
fn generate_ternary_has_two_branch_labels_and_no_fallthrough() {
    let lines = compile("int main() { return 1 ? 2 : 3; }").unwrap();
    let else_pos = lines
        .iter()
        .position(|l| matches!(l, AsmLine::Label(id) if id.kind == LabelKind::TernaryElse))
        .expect("missing ternary else label");
    let end_pos = lines
        .iter()
        .position(|l| matches!(l, AsmLine::Label(id) if id.kind == LabelKind::TernaryEnd))
        .expect("missing ternary end label");
    assert!(else_pos < end_pos);
    // the true branch ends with a jump past the false branch
    match &lines[else_pos - 1] {
        AsmLine::Jmp(id) => assert_eq!(id.kind, LabelKind::TernaryEnd),
        other => panic!("expected a jump before the false branch, got {:?}", other),
    }
    assert_labels_resolved(&lines);
}

#[test]
fn generate_duplicate_declaration_fails() {
    let r = compile("int main() { int x; int x; return 0; }");
    assert_eq!(r.unwrap_err(), GenError::DuplicateDeclaration(String::from("x")));
}

#[test]
fn generate_nested_redeclaration_succeeds() {
    let lines = compile("int main() { int x; { int x; } return 0; }").unwrap();
    assert_labels_resolved(&lines);
}

#[test]
fn generate_break_outside_loop_fails() {
    let r = compile("int main() { break; return 0; }");
    assert_eq!(r.unwrap_err(), GenError::BreakOutsideLoop);
}

#[test]
fn generate_continue_outside_loop_fails() {
    let r = compile("int main() { continue; return 0; }");
    assert_eq!(r.unwrap_err(), GenError::ContinueOutsideLoop);
}

#[test]
fn generate_break_inside_loop_succeeds() {
    let lines = compile("int main() { while (1) { break; } return 0; }").unwrap();
    assert_labels_resolved(&lines);
}

#[test]
fn generate_continue_in_do_while_resolves() {
    let lines = compile("int main() { int x = 0; do { x = x + 1; continue; } while (x < 3); return x; }")
        .unwrap();
    assert_labels_resolved(&lines);
}

#[test]
fn generate_undeclared_variable_fails() {
    let r = compile("int main() { return y; }");
    assert_eq!(r.unwrap_err(), GenError::UndeclaredVariable(String::from("y")));
}

#[test]
fn generate_mixed_program_resolves_all_labels() {
    let src = "int f(int n) { int s = 0; for (int i = 0; i < n; i += 1) { if (i % 2 == 0) { s += i; } else { s -= 1; } } return s; } int main() { return f(10) ? f(3) : -f(2); }";
    let lines = compile(src).unwrap();
    assert_labels_resolved(&lines);
}

#[test]
fn generate_label_serials_do_not_collide_across_runs() {
    let tokens = lex("int main() { return 1 ? 2 : 3; }").unwrap();
    let ast1 = parser(&tokens).unwrap();
    let ast2 = parser(&tokens).unwrap();
    let mut counter: u64 = 0;
    let lines1 = generate(&ast1, &mut counter).unwrap();
    let lines2 = generate(&ast2, &mut counter).unwrap();
    let defined1: Vec<LabelId> = lines1
        .iter()
        .filter_map(|l| match l {
            AsmLine::Label(id) => Some(*id),
            _ => None,
        })
        .collect();
    for l in &lines2 {
        if let AsmLine::Label(id) = l {
            assert!(!defined1.contains(id), "label {:?} reused across runs", id);
            assert_ne!(label_text(*id), label_text(defined1[0]));
        }
    }
}

#[test]
fn render_lines_exact_text() {
    assert_eq!(render_line(&AsmLine::SyntaxDirective), ".intel_syntax noprefix");
    assert_eq!(render_line(&AsmLine::MovImm(42)), "  mov rax,42");
    assert_eq!(render_line(&AsmLine::MovImm(-7)), "  mov rax,-7");
    assert_eq!(render_line(&AsmLine::LoadVar(16)), "  mov rax, [rbp+16]");
    assert_eq!(render_line(&AsmLine::StoreVar(-8)), "  mov [rbp-8], rax");
    assert_eq!(render_line(&AsmLine::AddRsp(16)), "  add rsp, 16");
    assert_eq!(render_line(&AsmLine::Global(String::from("main"))), ".global main");
    assert_eq!(render_line(&AsmLine::FunLabel(String::from("main"))), "main:");
    let id = LabelId { kind: LabelKind::PostLoop, serial: 12 };
    assert_eq!(label_text(id), "post_loop_12");
    assert_eq!(render_line(&AsmLine::Jmp(id)), "  jmp post_loop_12");
    assert_eq!(render_line(&AsmLine::Label(id)), "post_loop_12:");
}

#[test]
fn render_program_joins_lines() {
    let lines = vec![AsmLine::SyntaxDirective, AsmLine::PushRbp, AsmLine::Ret];
    assert_eq!(render_program(&lines), ".intel_syntax noprefix\n  push rbp\n  ret\n");
}

#[test]
fn render_full_pipeline_prologue() {
    let lines = compile("int main() { return 0; }").unwrap();
    let text = render_program(&lines);
    assert!(text.starts_with(
        ".intel_syntax noprefix\n.global main\nmain:\n  push rbp\n  mov rbp,rsp\n"
    ));
    assert!(text.ends_with("  mov rsp, rbp\n  pop rbp\n  ret\n"));
}

#[test]
fn unique_suffix_advances_counter() {
    let mut counter: u64 = 0;
    assert_eq!(unique_suffix(&mut counter), "_0");
    assert_eq!(unique_suffix(&mut counter), "_1");
    assert_eq!(counter, 2);
    assert_eq!(add_suffix("loop", "_7"), "loop_7");
    assert_eq!(u64_text(1234567890), "1234567890");
    assert_eq!(u64_text(0), "0");
}

#[test]
fn context_seeds_parameters_at_positive_offsets() {
    let params = vec![String::from("a"), String::from("b")];
    let c = Context::new(&params);
    assert_eq!(c.var_map, vec![(String::from("a"), 16), (String::from("b"), 24)]);
    assert_eq!(c.current_scope, vec![String::from("a"), String::from("b")]);
    assert_eq!(c.stack_index, -8);
    assert!(c.break_label.is_none());
    assert!(c.continue_label.is_none());
    let r = c.reset_scope();
    assert_eq!(r.var_map, c.var_map);
    assert!(r.current_scope.is_empty());
}

#[test]
fn operator_classes() {
    assert!(Operator::Minus.is_unary());
    assert!(Operator::LogicalNegation.is_unary());
    assert!(!Operator::Plus.is_unary());
    assert!(Operator::BitwiseXor.is_bitwise_operators());
    assert!(Operator::BitwiseShiftLeft.is_bitwise_operators());
    assert!(!Operator::LogicalAnd.is_bitwise_operators());
    assert!(Operator::AssignMod.is_assignment_operators());
    assert!(Operator::Assignment.is_assignment_operators());
    assert!(!Operator::Equal.is_assignment_operators());
}

#[test]
fn empty_statement_and_empty_for_clauses_parse() {
    assert!(parse("int main() { ; return 0; }").is_ok());
    let lines = compile("int main() { int s = 0; for (; s < 3;) { s += 1; } return s; }")
        .unwrap();
    assert_labels_resolved(&lines);
}

#[test]
fn declaration_initializer_defaults_to_zero() {
    let lines = compile("int main() { int x; return x; }").unwrap();
    assert!(lines.iter().any(|l| matches!(l, AsmLine::PushZero)));
}

#[test]
fn lex_not_equal_longest_match() {
    let toks = lex("a != b").unwrap();
    assert_eq!(
        toks,
        vec![
            Token::Identifier(String::from("a")),
            Token::Operator(Operator::NotEqual),
            Token::Identifier(String::from("b")),
        ]
    );
}

#[test]
fn generate_comparison_normalizes_result() {
    let lines = compile("int main() { return 1 != 2; }").unwrap();
    let pos = lines
        .iter()
        .position(|l| matches!(l, AsmLine::CmpRaxRdi))
        .expect("missing comparison");
    assert_eq!(lines[pos + 1], AsmLine::SetNe);
    assert_eq!(lines[pos + 2], AsmLine::MovzbRaxAl);
}

#[test]
fn generate_logical_negation() {
    let lines = compile("int main() { return !5; }").unwrap();
    let pos = lines
        .iter()
        .position(|l| matches!(l, AsmLine::CmpRaxZero))
        .expect("missing zero comparison");
    assert_eq!(lines[pos + 1], AsmLine::SetE);
    assert_eq!(lines[pos + 2], AsmLine::MovzbRaxAl);
}

#[test]
fn generate_compound_assignment_reads_back_slot() {
    let lines = compile("int main() { int x = 4; x += 2; return x; }").unwrap();
    let pos = lines
        .iter()
        .position(|l| matches!(l, AsmLine::AddVar(-8)))
        .expect("missing read-modify-write");
    assert_eq!(lines[pos + 1], AsmLine::LoadVar(-8));
}

#[test]
fn generate_do_while_defines_continue_target() {
    let lines = compile("int main() { int x = 0; do { x += 1; } while (x < 2); return x; }")
        .unwrap();
    assert!(lines.iter().any(
        |l| matches!(l, AsmLine::Label(id) if id.kind == LabelKind::DoWhileContinue)
    ));
    assert_labels_resolved(&lines);
}

#[test]
fn generate_shift_uses_count_register() {
    let lines = compile("int main() { return 8 >> 1; }").unwrap();
    let pos = lines
        .iter()
        .position(|l| matches!(l, AsmLine::MovRcxRdi))
        .expect("missing shift-count move");
    assert_eq!(lines[pos + 1], AsmLine::ShrRaxCl);
}

#[test]
fn generate_modulo_keeps_remainder() {
    let lines = compile("int main() { return 7 % 3; }").unwrap();
    let pos = lines
        .iter()
        .position(|l| matches!(l, AsmLine::ClearRdx))
        .expect("missing high-register clear");
    assert_eq!(lines[pos + 1], AsmLine::DivRdi);
    assert_eq!(lines[pos + 2], AsmLine::MovRaxRdx);
}

#[test]
fn for_loop_with_declaration_frees_its_variable() {
    let lines =
        compile("int main() { int s = 0; for (int i = 0; i < 2; i += 1) { s += i; } return s; }")
            .unwrap();
    // the declaration-form loop ends with its break label and then the pop
    // that releases the loop variable's stack slot
    let pos = lines
        .iter()
        .position(|l| matches!(l, AsmLine::Label(LabelId { kind: LabelKind::PostLoop, .. })))
        .expect("missing break label");
    assert_eq!(lines[pos + 1], AsmLine::PopRax);
    assert_labels_resolved(&lines);
}

#[test]
fn for_loop_with_expression_init_pops_nothing() {
    let lines =
        compile("int main() { int s = 0; for (s = 0; s < 2; s += 1) { ; } return s; }").unwrap();
    let text = render_program(&lines);
    assert!(!text.contains("pop rax"));
    assert_labels_resolved(&lines);
}

#[test]
fn declaration_after_for_loop_gets_its_own_slot() {
    // the loop variable's slot is released before `y` is declared, so the
    // two declarations in main's block sit at distinct offsets
    let lines =
        compile("int main() { for (int i = 0; i < 1; i += 1) { ; } int y = 7; return y; }")
            .unwrap();
    let text = render_program(&lines);
    assert!(text.contains("pop rax"));
    // `i` and `y` both load from rbp-8: the slot was freed and reused
    let loads: Vec<&AsmLine> = lines
        .iter()
        .filter(|l| matches!(l, AsmLine::LoadVar(-8)))
        .collect();
    assert!(!loads.is_empty());
    assert!(!lines.iter().any(|l| matches!(l, AsmLine::LoadVar(-16))));
    assert_labels_resolved(&lines);
}
