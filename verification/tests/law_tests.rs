use inkwell::context::Context;
use pycc::ast::{
    Binary, BinaryOperator, Call, Expression, FString, FStringPart, Function, Identifier, Literal,
    LiteralValue, Node, Program, Return, Unary, UnaryOperator,
};
use pycc::cli::{Action, Commands};
use pycc::codegen::ir::{
    BlockLabel, Callee, External, FloatOperation, Instruction, IntOperation, Operand, ValueKind,
};
use pycc::codegen::meaning::constant_of;
use pycc::codegen::codegen::{machine, object_result, optimization, Emitted, Optimization};
use pycc::codegen::lowering::{embedded_expression_of, holds_template_in};
use pycc::codegen::{CodeGenerator, CodegenError, Lowering};
use pycc::lexer::text::decimal_text;
use pycc::lexer::{Lexer, Token};
use pycc::parser::Parser;

fn parse(source: &str) -> Node {
    let mut parser = Parser::new(Lexer::new(source));
    parser.parse_program()
}

fn lower(source: &str) -> Result<Lowering, CodegenError> {
    Lowering::lower(&parse(source))
}

fn main_body(unit: &Lowering) -> Vec<Instruction> {
    unit.bodies().last().unwrap().instructions.clone()
}

fn is_terminator(instruction: &Instruction) -> bool {
    matches!(
        instruction,
        Instruction::Return { .. } | Instruction::Branch { .. } | Instruction::CondBranch { .. }
    )
}

fn integer(value: i64) -> Node {
    Node::Literal(Literal { value: LiteralValue::Integer(value) })
}

fn statement(expression: Node) -> Node {
    Node::ExpressionStatement(Expression { expression: Box::new(expression) })
}

fn program(statements: Vec<Node>) -> Node {
    Node::Program(Program { statements })
}

#[test]
fn integer_literals_read_back() {
    for n in [0i64, 7, 10, 42, 1000, 9223372036854775807] {
        let text = decimal_text(n as usize);
        assert_eq!(text, n.to_string());
        let mut lexer = Lexer::new(&text);
        assert_eq!(lexer.next_token(), Token::Integer(n));
        assert_eq!(lexer.next_token(), Token::Eof);
    }
}

#[test]
fn integer_literal_too_large_is_zero() {
    let mut lexer = Lexer::new("9223372036854775808 99999999999999999999999");
    assert_eq!(lexer.next_token(), Token::Integer(0));
    assert_eq!(lexer.next_token(), Token::Integer(0));
    assert_eq!(lexer.next_token(), Token::Eof);
}

#[test]
fn float_literal_is_kept_as_written() {
    let mut lexer = Lexer::new("3.14 2.50 7.");
    assert_eq!(lexer.next_token(), Token::Float("3.14".to_string()));
    assert_eq!(lexer.next_token(), Token::Float("2.50".to_string()));
    assert_eq!(lexer.next_token(), Token::Integer(7));
    assert_eq!(lexer.next_token(), Token::Illegal(".".to_string()));
    assert_eq!(lexer.next_token(), Token::Eof);
}

#[test]
fn unknown_escape_keeps_backslash() {
    let mut lexer = Lexer::new(r#""a\qb" f"x\{y\}" "cut"#);
    assert_eq!(lexer.next_token(), Token::String("a\\qb".to_string()));
    assert_eq!(lexer.next_token(), Token::FString("x{y}".to_string()));
    assert_eq!(lexer.next_token(), Token::String("cut".to_string()));
    assert_eq!(lexer.next_token(), Token::Eof);
    assert_eq!(lexer.next_token(), Token::Eof);
}

#[test]
fn illegal_characters_and_operators() {
    let mut lexer = Lexer::new("@ // % ! < > ?");
    assert_eq!(lexer.next_token(), Token::Illegal("@".to_string()));
    assert_eq!(lexer.next_token(), Token::FloorDivide);
    assert_eq!(lexer.next_token(), Token::Modulo);
    assert_eq!(lexer.next_token(), Token::Not);
    assert_eq!(lexer.next_token(), Token::Less);
    assert_eq!(lexer.next_token(), Token::Greater);
    assert_eq!(lexer.next_token(), Token::Illegal("?".to_string()));
    assert_eq!(lexer.next_token(), Token::Eof);
}

#[test]
fn template_without_braces_is_a_string() {
    let mut plain = Lexer::new("\"abc\"");
    let mut template = Lexer::new("f\"abc\"");
    let Token::String(text) = plain.next_token() else { panic!("expected a string") };
    let Token::FString(body) = template.next_token() else { panic!("expected a template") };
    assert_eq!(text, body);
    assert_eq!(FString::parse(&body).parts, vec![FStringPart::Literal("abc".to_string())]);
    assert_eq!(FString::parse("").parts, vec![]);
}

#[test]
fn template_splitting_edge_cases() {
    assert_eq!(
        FString::parse("a{b{c}d}e{}f{open").parts,
        vec![
            FStringPart::Literal("a".to_string()),
            FStringPart::Expression("b{c}d".to_string()),
            FStringPart::Literal("e".to_string()),
            FStringPart::Literal("f".to_string()),
        ]
    );
    assert_eq!(
        FString::parse("x\\{y}").parts,
        vec![FStringPart::Literal("x\\{y}".to_string())]
    );
}

#[test]
fn precedence_and_associativity() {
    let tree = parse("2 ** 3 ** 2 - 4 - -5 * (6 + 7)");
    let Node::Program(program) = tree else { panic!("expected a program") };
    let power = Node::Binary(Binary {
        left: Box::new(integer(2)),
        operator: BinaryOperator::Power,
        right: Box::new(Node::Binary(Binary {
            left: Box::new(integer(3)),
            operator: BinaryOperator::Power,
            right: Box::new(integer(2)),
        })),
    });
    let product = Node::Binary(Binary {
        left: Box::new(Node::Unary(Unary {
            operator: UnaryOperator::Minus,
            operand: Box::new(integer(5)),
        })),
        operator: BinaryOperator::Multiply,
        right: Box::new(Node::Binary(Binary {
            left: Box::new(integer(6)),
            operator: BinaryOperator::Add,
            right: Box::new(integer(7)),
        })),
    });
    let expected = Node::Binary(Binary {
        left: Box::new(Node::Binary(Binary {
            left: Box::new(power),
            operator: BinaryOperator::Subtract,
            right: Box::new(integer(4)),
        })),
        operator: BinaryOperator::Subtract,
        right: Box::new(product),
    });
    assert_eq!(program.statements, vec![statement(expected)]);
}

#[test]
fn malformed_statements_drop_tokens() {
    let Node::Program(program) = parse("x = ; y = 2 # note\n) 3") else {
        panic!("expected a program")
    };
    assert_eq!(program.statements.len(), 2);
    assert!(matches!(&program.statements[0], Node::Assignment(a) if a.name == "y"));
    assert_eq!(program.statements[1], statement(integer(3)));
}

#[test]
fn function_definition_and_return_forms() {
    let Node::Program(program) = parse("def f(a, b): return\nreturn 1") else {
        panic!("expected a program")
    };
    assert_eq!(
        program.statements,
        vec![
            Node::Function(Function {
                name: "f".to_string(),
                parameters: vec!["a".to_string(), "b".to_string()],
                body: Box::new(Node::Return(Return { value: None })),
            }),
            Node::Return(Return { value: Some(Box::new(integer(1))) }),
        ]
    );
}

#[test]
fn parse_expression_text_takes_whole_text_only() {
    assert_eq!(Parser::parse_expression_text(" 1 + 2 "), Parser::parse_expression_text("1+2"));
    assert!(Parser::parse_expression_text("1 + 2").is_some());
    assert!(Parser::parse_expression_text("1 2").is_none());
    assert!(Parser::parse_expression_text("").is_none());
}

#[test]
fn clone_copies_the_tree() {
    let tree = parse("def f(a): return a + 1\nprint(f(2), \"x\", f\"{a}\")");
    assert_eq!(tree.clone(), tree);
    assert_eq!(tree.duplicate(), tree);
}

#[test]
fn compiling_twice_gives_the_same_unit_and_text() {
    let source = "x = 5 + 3 * 2\nprint(x, \"a\", 1.5)\ndef f(a): return a\nprint(f(1))";
    let first = lower(source).unwrap();
    let second = lower(source).unwrap();
    assert_eq!(first.bodies(), second.bodies());
    assert_eq!(first.strings(), second.strings());
    assert_eq!(first.signatures(), second.signatures());

    let context = Context::create();
    let mut one = CodeGenerator::new(&context, "unit");
    let mut two = CodeGenerator::new(&context, "unit");
    assert!(one.compile(&parse(source)).is_ok());
    assert!(two.compile(&parse(source)).is_ok());
    assert_eq!(one.ir_text(), two.ir_text());
    assert!(one.ir_text().contains("str_0"));
}

#[test]
fn division_gives_a_float() {
    let unit = lower("x = 10 / 4\nprint(x)").unwrap();
    let body = main_body(&unit);
    assert_eq!(body[0], Instruction::Label { label: BlockLabel::Entry });
    assert_eq!(body[1], Instruction::IntToFloat { value: Operand::Integer(10) });
    assert_eq!(body[2], Instruction::IntToFloat { value: Operand::Integer(4) });
    assert_eq!(
        body[3],
        Instruction::FloatBinary {
            operation: FloatOperation::Divide,
            left: Operand::Result(1),
            right: Operand::Result(2),
        }
    );
    assert_eq!(body[4], Instruction::Alloca { kind: ValueKind::Float });
    assert_eq!(body[5], Instruction::Store { slot: Operand::Result(4), value: Operand::Result(3) });
    assert_eq!(body[6], Instruction::Load { slot: Operand::Result(4), kind: ValueKind::Float });
    assert!(unit.strings().contains(&"%g\n".to_string()));
    assert!(unit.strings().contains(&"0.0\n".to_string()));
}

#[test]
fn unbound_identifier_is_an_error() {
    assert_eq!(lower("print(z)").err(), Some(CodegenError::UndefinedVariable("z".to_string())));
    let context = Context::create();
    let mut generator = CodeGenerator::new(&context, "unit");
    assert_eq!(
        generator.compile(&parse("print(z)")),
        Err("Undefined variable: z".to_string())
    );
    assert!(generator.unit().is_none());
    assert!(!generator.ir_text().contains("main"));
}

#[test]
fn every_error_has_its_input() {
    assert_eq!(lower("f(1)").err(), Some(CodegenError::UndefinedFunction("f".to_string())));
    assert_eq!(lower("1 / 0").err(), Some(CodegenError::DivisionByZero));
    assert_eq!(lower("1.5 // 0.0").err(), Some(CodegenError::DivisionByZero));
    assert_eq!(lower("1 % 0").err(), Some(CodegenError::DivisionByZero));
    assert_eq!(lower("1 + 1.5").err(), Some(CodegenError::UnsupportedOperation));
    assert_eq!(lower("\"a\" - \"b\"").err(), Some(CodegenError::UnsupportedOperation));
    assert_eq!(lower("-\"a\"").err(), Some(CodegenError::UnsupportedUnaryMinus));
    assert_eq!(
        lower("def f(a): return a\nf(1, 2)").err(),
        Some(CodegenError::UnsupportedOperation)
    );
    assert_eq!(
        lower("def f(a): return 1.5").err(),
        Some(CodegenError::UnsupportedOperation)
    );
    assert_eq!(Lowering::lower(&integer(1)).err(), Some(CodegenError::ExpectedProgram));
    let negation = Node::Unary(Unary {
        operator: UnaryOperator::Not,
        operand: Box::new(Node::Literal(Literal { value: LiteralValue::Float("1.5".to_string()) })),
    });
    assert_eq!(
        Lowering::lower(&program(vec![statement(negation)])).err(),
        Some(CodegenError::UnsupportedUnaryNot)
    );
    let comparison = Node::Binary(Binary {
        left: Box::new(integer(1)),
        operator: BinaryOperator::Less,
        right: Box::new(integer(2)),
    });
    assert_eq!(
        Lowering::lower(&program(vec![statement(comparison)])).err(),
        Some(CodegenError::UnsupportedOperator)
    );
    assert_eq!(
        Lowering::lower(&program(vec![statement(program(vec![]))])).err(),
        Some(CodegenError::UnsupportedExpression)
    );
    assert_eq!(CodegenError::DivisionByZero.message(), "Division by zero");
    assert_eq!(CodegenError::ExpectedProgram.message(), "Expected a program node");
    assert_eq!(
        CodegenError::UndefinedFunction("f".to_string()).message(),
        "Undefined function: f"
    );
}

#[test]
fn multiply_before_add() {
    let unit = lower("x = 5 + 3 * 2; print(x);").unwrap();
    let body = main_body(&unit);
    assert_eq!(
        body[1],
        Instruction::IntBinary {
            operation: IntOperation::Multiply,
            left: Operand::Integer(3),
            right: Operand::Integer(2),
        }
    );
    assert_eq!(
        body[2],
        Instruction::IntBinary {
            operation: IntOperation::Add,
            left: Operand::Integer(5),
            right: Operand::Result(1),
        }
    );
    assert!(unit.strings().contains(&"%ld\n".to_string()));
    let context = Context::create();
    let mut generator = CodeGenerator::new(&context, "unit");
    assert!(generator.compile(&parse("x = 5 + 3 * 2; print(x);")).is_ok());
}

#[test]
fn function_call_is_lowered() {
    let source = "def add(a,b): return a + b; print(add(3,4));";
    let unit = lower(source).unwrap();
    assert_eq!(unit.signatures().len(), 2);
    assert_eq!(unit.signatures()[0].name, "main");
    assert!(unit.signatures()[0].entry);
    assert_eq!(unit.signatures()[1].name, "add");
    assert_eq!(unit.signatures()[1].parameters, 2);
    let function = &unit.bodies()[0];
    assert_eq!(function.function, 1);
    assert_eq!(
        function.instructions,
        vec![
            Instruction::Label { label: BlockLabel::Entry },
            Instruction::Alloca { kind: ValueKind::Int },
            Instruction::Store { slot: Operand::Result(1), value: Operand::Parameter(0) },
            Instruction::Alloca { kind: ValueKind::Int },
            Instruction::Store { slot: Operand::Result(3), value: Operand::Parameter(1) },
            Instruction::Load { slot: Operand::Result(1), kind: ValueKind::Int },
            Instruction::Load { slot: Operand::Result(3), kind: ValueKind::Int },
            Instruction::IntBinary {
                operation: IntOperation::Add,
                left: Operand::Result(5),
                right: Operand::Result(6),
            },
            Instruction::Return { value: Operand::Result(7) },
        ]
    );
    let body = main_body(&unit);
    assert_eq!(body[1], Instruction::Argument { value: Operand::Integer(3) });
    assert_eq!(body[2], Instruction::Argument { value: Operand::Integer(4) });
    assert_eq!(body[3], Instruction::Call { callee: Callee::Function(1), arguments: 2 });
    let context = Context::create();
    let mut generator = CodeGenerator::new(&context, "unit");
    assert!(generator.compile(&parse(source)).is_ok());
    assert!(generator.ir_text().contains("add"));
}

#[test]
fn template_is_lowered_to_one_bounded_call() {
    let source = "name = \"Alice\"; print(f\"Hello, {name}! 100%\")";
    let unit = lower(source).unwrap();
    assert!(unit.strings().contains(&"Hello, %s! 100%%".to_string()));
    let body = main_body(&unit);
    assert!(body.contains(&Instruction::Buffer { size: 13 + 256 }));
    assert!(body.contains(&Instruction::Argument { value: Operand::Integer(13 + 255) }));
    assert!(body.contains(&Instruction::Argument { value: Operand::Integer(13 + 256) }));
    assert!(body.iter().any(|instruction| matches!(
        instruction,
        Instruction::Call { callee: Callee::External(External::Snprintf), arguments: 4 }
    )));
    assert_eq!(unit.externals(), &vec![External::Memset, External::Snprintf, External::Printf]);
    let context = Context::create();
    let mut generator = CodeGenerator::new(&context, "unit");
    assert!(generator.compile(&parse(source)).is_ok());
}

#[test]
fn every_block_ends_in_one_terminator() {
    let source = "x = 2 ** 3\nprint(x, 1.5, True, \"s\")\ndef f(a): return a // 2\nreturn;\ny = f(x) % 3\nprint()";
    let unit = lower(source).unwrap();
    for body in unit.bodies() {
        let instructions = &body.instructions;
        assert!(matches!(instructions[0], Instruction::Label { .. }));
        for (i, instruction) in instructions.iter().enumerate() {
            let block_ends = i + 1 == instructions.len()
                || matches!(instructions[i + 1], Instruction::Label { .. });
            assert_eq!(is_terminator(instruction), block_ends);
        }
    }
    let context = Context::create();
    let mut generator = CodeGenerator::new(&context, "unit");
    assert!(generator.compile(&parse(source)).is_ok());
}

#[derive(Debug, Clone, Copy, PartialEq)]
enum Held {
    Int(i64),
    Bit(bool),
    Slot(usize),
    Nothing,
}

/// Runs the integer instructions of a function body on `parameters` and
/// gives what the function returns.
fn run(instructions: &[Instruction], parameters: &[i64]) -> i64 {
    let labels: Vec<usize> = (0..instructions.len())
        .filter(|&i| matches!(instructions[i], Instruction::Label { .. }))
        .collect();
    let mut held = vec![Held::Nothing; instructions.len()];
    let mut memory: Vec<Held> = Vec::new();
    let mut block = 0usize;
    let mut at = 0usize;
    let mut steps = 0;
    loop {
        steps += 1;
        assert!(steps < 100_000, "the program does not end");
        let read = |operand: Operand, held: &Vec<Held>| match operand {
            Operand::Integer(v) => Held::Int(v),
            Operand::Parameter(i) => Held::Int(parameters[i]),
            Operand::Result(i) => held[i],
            other => panic!("no value for {other:?}"),
        };
        let int = |operand: Operand, held: &Vec<Held>| match read(operand, held) {
            Held::Int(v) => v,
            other => panic!("no integer: {other:?}"),
        };
        let jump = |target: pycc::codegen::ir::Target, block: usize| match target {
            pycc::codegen::ir::Target::Ahead(n) => block + n,
            pycc::codegen::ir::Target::Back(n) => block - n,
        };
        match instructions[at] {
            Instruction::Label { .. } => {
                block = labels.iter().position(|&i| i == at).unwrap();
            }
            Instruction::Alloca { .. } => {
                memory.push(Held::Nothing);
                held[at] = Held::Slot(memory.len() - 1);
            }
            Instruction::Store { slot, value } => {
                let Held::Slot(index) = read(slot, &held) else { panic!("no slot") };
                memory[index] = read(value, &held);
            }
            Instruction::Load { slot, .. } => {
                let Held::Slot(index) = read(slot, &held) else { panic!("no slot") };
                held[at] = memory[index];
            }
            Instruction::IntBinary { operation, left, right } => {
                let (l, r) = (int(left, &held), int(right, &held));
                held[at] = Held::Int(match operation {
                    IntOperation::Add => l.wrapping_add(r),
                    IntOperation::Subtract => l.wrapping_sub(r),
                    IntOperation::Multiply => l.wrapping_mul(r),
                    IntOperation::Divide => l / r,
                    IntOperation::Remainder => l % r,
                });
            }
            Instruction::IntEqual { left, right } => {
                held[at] = Held::Bit(read(left, &held) == read(right, &held));
            }
            Instruction::IntGreater { left, right } => {
                held[at] = Held::Bit(int(left, &held) > int(right, &held));
            }
            Instruction::Select { condition, then_value, else_value, .. } => {
                let Held::Bit(bit) = read(condition, &held) else { panic!("no bit") };
                held[at] = read(if bit { then_value } else { else_value }, &held);
            }
            Instruction::Return { value } => return int(value, &held),
            Instruction::Branch { target } => {
                at = labels[jump(target, block)];
                continue;
            }
            Instruction::CondBranch { condition, then_target, else_target } => {
                let Held::Bit(bit) = read(condition, &held) else { panic!("no bit") };
                at = labels[jump(if bit { then_target } else { else_target }, block)];
                continue;
            }
            other => panic!("not run here: {other:?}"),
        }
        at += 1;
    }
}

fn run_function(source: &str, parameters: &[i64]) -> i64 {
    let unit = lower(source).unwrap();
    run(&unit.bodies()[0].instructions, parameters)
}

#[test]
fn floor_divide_and_modulo_follow_the_divisor() {
    let divide = "def f(a, b): return a // b";
    let modulo = "def f(a, b): return a % b";
    for (l, r, quotient, remainder) in [
        (7, 2, 3, 1),
        (-7, 2, -4, 1),
        (7, -2, -4, -1),
        (-7, -2, 3, -1),
        (6, 3, 2, 0),
        (-6, 3, -2, 0),
        (0, 5, 0, 0),
        (i64::MIN, 3, -3074457345618258603, 1),
        (i64::MAX, -2, -4611686018427387904, -1),
    ] {
        assert_eq!(run_function(divide, &[l, r]), quotient, "{l} // {r}");
        assert_eq!(run_function(modulo, &[l, r]), remainder, "{l} % {r}");
    }
    let unit = lower("7 // 2").unwrap();
    let body = main_body(&unit);
    assert_eq!(
        body[1],
        Instruction::IntBinary {
            operation: IntOperation::Remainder,
            left: Operand::Integer(7),
            right: Operand::Integer(2),
        }
    );
    assert_eq!(
        body[7],
        Instruction::Select {
            condition: Operand::Result(2),
            then_value: Operand::Integer(0),
            else_value: Operand::Result(6),
            kind: ValueKind::Int,
        }
    );
}

#[test]
fn power_multiplies_repeatedly() {
    let power = "def f(a, b): return a ** b";
    assert_eq!(run_function(power, &[2, 10]), 1024);
    assert_eq!(run_function(power, &[-3, 3]), -27);
    assert_eq!(run_function(power, &[5, 0]), 1);
    assert_eq!(run_function(power, &[5, -2]), 1);
    assert_eq!(run_function(power, &[0, 4]), 0);
}

#[test]
fn integer_arithmetic_matches_sixty_four_bit_evaluation() {
    assert_eq!(run_function("def f(): return 5 + 3 * 2", &[]), 11);
    assert_eq!(run_function("def f(): return (1 - 10) * (2 + 3) - 4", &[]), -49);
    assert_eq!(run_function("def f(a, b): return -a + +b", &[3, 4]), 1);
    assert_eq!(run_function("def add(a,b): return a + b", &[3, 4]), 7);
}

#[test]
fn strings_concatenate_and_unsupported_statements_pass() {
    let source = "a = \"x\" + \"y\"\nprint(a)";
    let unit = lower(source).unwrap();
    assert_eq!(
        unit.externals(),
        &vec![External::Strlen, External::Malloc, External::Strcpy, External::Strcat, External::Printf]
    );
    let context = Context::create();
    let mut generator = CodeGenerator::new(&context, "unit");
    assert!(generator.compile(&parse(source)).is_ok());
    assert!(generator.ir_text().contains("malloc"));

    let call = Node::Call(Call { callee: "print".to_string(), arguments: vec![] });
    let unit = Lowering::lower(&program(vec![Node::Identifier(Identifier {
        name: "ignored".to_string(),
    }), statement(call)]))
    .unwrap();
    assert_eq!(unit.strings(), &vec!["\n".to_string()]);
}

#[test]
fn object_code_needs_a_level_up_to_three() {
    let context = Context::create();
    let mut generator = CodeGenerator::new(&context, "unit");
    assert!(generator.compile(&parse("print(1)")).is_ok());
    assert_eq!(generator.object_code(4), Err("Invalid optimization level".to_string()));
    let object = generator.object_code(0).unwrap();
    assert!(object.len() > 4);
    assert_eq!(&object[1..4], b"ELF");
}

#[test]
fn command_line_actions() {
    let command = |output: Option<&str>, emit_llvm| Commands::Compile {
        input_file: "in.py".to_string(),
        output: output.map(|name| name.to_string()),
        emit_llvm,
        optimization: 0,
    };
    assert_eq!(command(None, true).action(), Action::PrintIr);
    assert_eq!(
        command(Some("out.ll"), true).action(),
        Action::WriteIr { path: "out.ll".to_string() }
    );
    assert_eq!(
        command(None, false).action(),
        Action::Link { object: "a.out.o".to_string(), executable: "a.out".to_string() }
    );
    assert_eq!(
        command(Some("prog"), false).action(),
        Action::Link { object: "prog.o".to_string(), executable: "prog".to_string() }
    );
}

#[test]
fn unicode_letters_and_digits() {
    let mut lexer = Lexer::new("a\u{e9}2 1\u{968} x\u{b2}+ \u{e9}");
    assert_eq!(lexer.next_token(), Token::Identifier("a\u{e9}2".to_string()));
    assert_eq!(lexer.next_token(), Token::Integer(0));
    assert_eq!(lexer.next_token(), Token::Identifier("x\u{b2}".to_string()));
    assert_eq!(lexer.next_token(), Token::Plus);
    assert_eq!(lexer.next_token(), Token::Illegal("\u{e9}".to_string()));
    assert_eq!(lexer.next_token(), Token::Eof);
}

#[test]
fn nul_ends_the_input() {
    let mut lexer = Lexer::new("a \0 b");
    assert_eq!(lexer.next_token(), Token::Identifier("a".to_string()));
    assert_eq!(lexer.next_token(), Token::Eof);
    assert_eq!(lexer.next_token(), Token::Eof);
    let mut cut = Lexer::new("\"ab\\");
    assert_eq!(cut.next_token(), Token::String("ab\\\0".to_string()));
    assert_eq!(cut.next_token(), Token::Eof);
}

#[test]
fn string_literals_read_back() {
    let text = "line\nfeed\ttab \"quoted\" back\\slash {brace}";
    let written: String = text
        .chars()
        .map(|c| match c {
            '\n' => "\\n".to_string(),
            '\t' => "\\t".to_string(),
            '"' => "\\\"".to_string(),
            '\\' => "\\\\".to_string(),
            '{' => "\\{".to_string(),
            '}' => "\\}".to_string(),
            other => other.to_string(),
        })
        .collect();
    let mut template = Lexer::new(&format!("f\"{written}\""));
    assert_eq!(template.next_token(), Token::FString(text.to_string()));
    assert_eq!(template.next_token(), Token::Eof);
    let plain = written.replace("\\{", "{").replace("\\}", "}");
    let mut string = Lexer::new(&format!("\"{plain}\""));
    assert_eq!(string.next_token(), Token::String(text.to_string()));
    let mut constants = Lexer::new("True False None");
    assert_eq!(constants.next_token(), Token::Boolean(true));
    assert_eq!(constants.next_token(), Token::Boolean(false));
    assert_eq!(constants.next_token(), Token::NoneLiteral);
}

fn reads(instruction: &Instruction) -> Vec<Operand> {
    match *instruction {
        Instruction::Store { slot, value } => vec![slot, value],
        Instruction::Load { slot, .. } => vec![slot],
        Instruction::IntBinary { left, right, .. }
        | Instruction::FloatBinary { left, right, .. }
        | Instruction::IntEqual { left, right }
        | Instruction::IntGreater { left, right }
        | Instruction::FloatEqual { left, right }
        | Instruction::FloatLess { left, right } => vec![left, right],
        Instruction::IntToFloat { value }
        | Instruction::Argument { value }
        | Instruction::Return { value } => vec![value],
        Instruction::Select { condition, then_value, else_value, .. } => {
            vec![condition, then_value, else_value]
        }
        Instruction::CondBranch { condition, .. } => vec![condition],
        _ => vec![],
    }
}

#[test]
fn units_are_well_formed() {
    let source = "def f(a, b): return a ** b // (a % 7 + 1)\n\
                  x = f(2, 3)\ny = 1.5 % 2.0 // 0.5 ** 2.0\ns = \"a\" + \"b\"\n\
                  print(x, y, s, True, f\"{x} {y} {s} {nope nope}\")\nreturn;\nprint()";
    let unit = lower(source).unwrap();
    assert_eq!(unit.bodies().len(), 2);
    for body in unit.bodies() {
        let instructions = &body.instructions;
        let parameters = unit.signatures()[body.function].parameters;
        let blocks =
            instructions.iter().filter(|i| matches!(i, Instruction::Label { .. })).count();
        let mut block = 0;
        let mut handed = 0;
        for (j, instruction) in instructions.iter().enumerate() {
            for operand in reads(instruction) {
                match operand {
                    Operand::Result(i) => assert!(i < j),
                    Operand::Text(i) => assert!(i < unit.strings().len()),
                    Operand::Float(i) => assert!(i < unit.floats().len()),
                    Operand::Parameter(i) => assert!(i < parameters),
                    Operand::Integer(_) | Operand::Int32(_) => {}
                }
            }
            let exists = |target: pycc::codegen::ir::Target| match target {
                pycc::codegen::ir::Target::Ahead(n) => block - 1 + n < blocks,
                pycc::codegen::ir::Target::Back(n) => n < block,
            };
            match *instruction {
                Instruction::Label { .. } => block += 1,
                Instruction::Branch { target } => assert!(exists(target)),
                Instruction::CondBranch { then_target, else_target, .. } => {
                    assert!(exists(then_target) && exists(else_target))
                }
                Instruction::Call { callee, arguments } => {
                    assert_eq!(arguments, handed);
                    match callee {
                        Callee::Function(index) => assert!(index < unit.signatures().len()),
                        Callee::External(external) => {
                            assert!(unit.externals().contains(&external))
                        }
                    }
                }
                _ => {}
            }
            handed = match instruction {
                Instruction::Argument { .. } => handed + 1,
                Instruction::Call { .. } => 0,
                _ => {
                    assert_eq!(handed, 0);
                    0
                }
            };
        }
    }
    let context = Context::create();
    let mut generator = CodeGenerator::new(&context, "unit");
    assert_eq!(generator.compile(&parse(source)), Ok(()));
    let text = generator.ir_text();
    assert!(text.contains("select") && text.contains("pow"));
    assert!(generator.object_code(2).is_ok());
}

#[test]
fn compiled_constants_agree_with_evaluation() {
    for (source, expected) in [
        ("5 + 3 * 2", Some(11)),
        ("(1 - 10) * (2 + 3) - 4", Some(-49)),
        ("9223372036854775807 - 1 - 1", Some(9223372036854775805)),
        ("4611686018427387904 * 2 - 1", None),
        ("9223372036854775807 + 1", None),
        ("7 / 2", None),
        ("x + 1", None),
    ] {
        let expression = Parser::parse_expression_text(source).unwrap();
        assert_eq!(constant_of(&expression), expected, "{source}");
        if let Some(value) = expected {
            let function = Node::Function(Function {
                name: "f".to_string(),
                parameters: vec![],
                body: Box::new(Node::Return(Return { value: Some(Box::new(expression)) })),
            });
            let unit = Lowering::lower(&program(vec![function])).unwrap();
            assert_eq!(run(&unit.bodies()[0].instructions, &[]), value, "{source}");
        }
    }
}

#[test]
fn outcomes_of_the_backend() {
    assert_eq!(
        object_result(Emitted::NoTarget("no such triple".to_string())),
        Err("Failed to get target: no such triple".to_string())
    );
    assert_eq!(
        object_result(Emitted::NoMachine),
        Err("Failed to create target machine".to_string())
    );
    assert_eq!(object_result(Emitted::Object(vec![1, 2, 3])), Ok(vec![1, 2, 3]));
    assert_eq!(
        object_result(Emitted::Failed("no room".to_string())),
        Err("Failed to generate object code: no room".to_string())
    );
    let context = Context::create();
    let mut generator = CodeGenerator::new(&context, "unit");
    let unit = lower("x = 1").unwrap();
    assert_eq!(generator.conclude(unit, false), Err("LLVM refused the module".to_string()));
    assert!(generator.unit().is_none());
    let unit = lower("x = 1").unwrap();
    assert_eq!(generator.conclude(unit, true), Ok(()));
    assert_eq!(generator.unit().unwrap().bodies().len(), 1);
}

fn module_text_of(source: &str) -> String {
    let context = Context::create();
    let mut generator = CodeGenerator::new(&context, "unit");
    assert_eq!(generator.compile(&parse(source)), Ok(()));
    generator.ir_text()
}

#[test]
fn library_functions_are_declared_as_c_declares_them() {
    let text = module_text_of(
        "a = \"x\" + \"y\"\nprint(a)\nn = 3\nprint(f\"n is {n}\")\nprint(7.5 // 2.0)\nprint(2.0 ** 3.0)",
    );
    for declaration in [
        "declare i32 @printf(i8*, ...)",
        "declare i32 @snprintf(i8*, i64, i8*, ...)",
        "declare i8* @memset(i8*, i32, i64)",
        "declare i64 @strlen(i8*)",
        "declare i8* @malloc(i64)",
        "declare i8* @strcpy(i8*, i8*)",
        "declare i8* @strcat(i8*, i8*)",
        "declare double @floor(double)",
        "declare double @pow(double, double)",
    ] {
        assert!(text.contains(declaration), "{declaration} is missing in\n{text}");
    }
}

#[test]
fn blocks_carry_the_names_of_their_labels() {
    let text = module_text_of("def f(a):\n    return a\nx = f(2) ** 3\nprint(x)\nprint(1.5)");
    for name in ["entry:", "power_check:", "power_step:", "power_done:", "print_zero:"] {
        assert!(text.contains(name), "{name} is missing in\n{text}");
    }
}

#[test]
fn integers_print_as_digits_whatever_they_hold() {
    for (source, left, right) in [("print(1 - 3)", 1, 3), ("print(0 - 3)", 0, 3), ("print(2 - 1)", 2, 1)] {
        let unit = lower(source).unwrap();
        assert_eq!(unit.strings(), &vec!["%ld\n".to_string()]);
        assert_eq!(
            main_body(&unit),
            vec![
                Instruction::Label { label: BlockLabel::Entry },
                Instruction::IntBinary {
                    operation: IntOperation::Subtract,
                    left: Operand::Integer(left),
                    right: Operand::Integer(right),
                },
                Instruction::Argument { value: Operand::Text(0) },
                Instruction::Argument { value: Operand::Result(1) },
                Instruction::Call { callee: Callee::External(External::Printf), arguments: 2 },
                Instruction::Return { value: Operand::Int32(0) },
            ]
        );
    }
    let text = module_text_of("x = 1 - 3\nprint(x)");
    assert!(!text.contains("icmp"), "{text}");
    assert!(!text.contains("br "), "{text}");
}

#[test]
fn booleans_and_none_print_as_words() {
    let unit = lower("x = True\nprint(x)").unwrap();
    assert_eq!(
        unit.strings(),
        &vec!["True".to_string(), "False".to_string(), "%s\n".to_string()]
    );
    assert_eq!(
        main_body(&unit),
        vec![
            Instruction::Label { label: BlockLabel::Entry },
            Instruction::Alloca { kind: ValueKind::Bool },
            Instruction::Store { slot: Operand::Result(1), value: Operand::Integer(1) },
            Instruction::Load { slot: Operand::Result(1), kind: ValueKind::Bool },
            Instruction::IntEqual { left: Operand::Result(3), right: Operand::Integer(1) },
            Instruction::Select {
                condition: Operand::Result(4),
                then_value: Operand::Text(0),
                else_value: Operand::Text(1),
                kind: ValueKind::Pointer,
            },
            Instruction::Argument { value: Operand::Text(2) },
            Instruction::Argument { value: Operand::Result(5) },
            Instruction::Call { callee: Callee::External(External::Printf), arguments: 2 },
            Instruction::Return { value: Operand::Int32(0) },
        ]
    );
    let unit = lower("print(None)").unwrap();
    assert_eq!(unit.strings(), &vec!["None".to_string(), "%s\n".to_string()]);
    let unit = lower("x = print()\nprint(x, False)").unwrap();
    assert!(unit.strings().contains(&"None".to_string()));
    assert!(unit.strings().contains(&"%s ".to_string()));
    let text = module_text_of("x = not True\nprint(x, None, 1 - 3)");
    assert!(text.contains("select"), "{text}");
}

#[test]
fn not_is_a_unary_operator() {
    let expected = program(vec![statement(Node::Unary(Unary {
        operator: UnaryOperator::Not,
        operand: Box::new(Node::Literal(Literal { value: LiteralValue::Boolean(true) })),
    }))]);
    assert_eq!(parse("not True;"), expected);
    let twice = program(vec![statement(Node::Unary(Unary {
        operator: UnaryOperator::Not,
        operand: Box::new(Node::Unary(Unary {
            operator: UnaryOperator::Not,
            operand: Box::new(Node::Identifier(Identifier { name: "a".to_string() })),
        })),
    }))]);
    assert_eq!(parse("not not a"), twice);
    let unit = lower("x = not True").unwrap();
    let body = main_body(&unit);
    assert_eq!(
        body[1],
        Instruction::IntBinary {
            operation: IntOperation::Subtract,
            left: Operand::Integer(1),
            right: Operand::Integer(1),
        }
    );
    assert_eq!(body[2], Instruction::Alloca { kind: ValueKind::Bool });
}

#[test]
fn booleans_are_no_numbers() {
    assert_eq!(lower("True + 1").err(), Some(CodegenError::UnsupportedOperation));
    assert_eq!(lower("True + False").err(), Some(CodegenError::UnsupportedOperation));
    assert_eq!(lower("None * None").err(), Some(CodegenError::UnsupportedOperation));
    assert_eq!(lower("-True").err(), Some(CodegenError::UnsupportedUnaryMinus));
    assert_eq!(lower("-None").err(), Some(CodegenError::UnsupportedUnaryMinus));
    assert_eq!(lower("not 1").err(), Some(CodegenError::UnsupportedUnaryNot));
    assert_eq!(lower("not None").err(), Some(CodegenError::UnsupportedUnaryNot));
    assert_eq!(
        lower("def f(a): return a\nf(True)").err(),
        Some(CodegenError::UnsupportedOperation)
    );
    assert_eq!(lower("def f(): return True").err(), Some(CodegenError::UnsupportedOperation));
    assert!(lower("x = +True").is_ok());
}

#[test]
fn function_body_is_one_statement_of_any_form() {
    let call = Node::Call(Call {
        callee: "print".to_string(),
        arguments: vec![Node::Identifier(Identifier { name: "a".to_string() })],
    });
    let expected = program(vec![Node::Function(Function {
        name: "f".to_string(),
        parameters: vec!["a".to_string()],
        body: Box::new(statement(call)),
    })]);
    assert_eq!(parse("def f(a): print(a)"), expected);
    let returning = program(vec![Node::Function(Function {
        name: "f".to_string(),
        parameters: vec!["a".to_string()],
        body: Box::new(Node::Return(Return {
            value: Some(Box::new(Node::Identifier(Identifier { name: "a".to_string() }))),
        })),
    })]);
    assert_eq!(parse("def f(a): return a"), returning);
    let unit = lower("def f(a): print(a)\nf(3)").unwrap();
    let function = &unit.bodies()[0].instructions;
    assert_eq!(
        function[function.len() - 2],
        Instruction::Call { callee: Callee::External(External::Printf), arguments: 2 }
    );
    assert_eq!(function[function.len() - 1], Instruction::Return { value: Operand::Integer(0) });
    let context = Context::create();
    let mut generator = CodeGenerator::new(&context, "unit");
    assert_eq!(generator.compile(&parse("def f(a): print(a)\nf(3)")), Ok(()));
}

#[test]
fn failed_compilation_leaves_no_object_code() {
    let context = Context::create();
    let mut generator = CodeGenerator::new(&context, "unit");
    assert_eq!(
        generator.object_code(0),
        Err("No program has been compiled".to_string())
    );
    assert_eq!(
        generator.compile(&parse("print(z)")),
        Err("Undefined variable: z".to_string())
    );
    assert!(generator.unit().is_none());
    assert_eq!(
        generator.object_code(2),
        Err("No program has been compiled".to_string())
    );
    assert_eq!(generator.object_code(7), Err("Invalid optimization level".to_string()));
}

fn template(content: &str) -> Node {
    Node::Literal(Literal { value: LiteralValue::FString(FString::parse(content)) })
}

#[test]
fn template_between_braces_is_text() {
    assert!(holds_template_in(&template("b")));
    assert!(!holds_template_in(&integer(1)));
    assert!(holds_template_in(&parse_expression("1 + f(2, f\"b\")")));
    assert!(!holds_template_in(&parse_expression("1 + f(2, \"b\")")));
    assert_eq!(embedded_expression_of("f\"b\""), None);
    assert_eq!(embedded_expression_of("1 +"), None);
    assert_eq!(embedded_expression_of("7"), Some(integer(7)));
    let call = Node::Call(Call { callee: "print".to_string(), arguments: vec![template("a{f\"b\"}c")] });
    let unit = Lowering::lower(&program(vec![statement(call)])).unwrap();
    assert_eq!(
        unit.strings(),
        &vec!["f\"b\"".to_string(), "a%sc".to_string(), "%s\n".to_string()]
    );
}

#[test]
fn booleans_in_a_template_are_words() {
    let call = Node::Call(Call { callee: "print".to_string(), arguments: vec![template("{True} {None} {2}")] });
    let unit = Lowering::lower(&program(vec![statement(call)])).unwrap();
    assert_eq!(
        unit.strings(),
        &vec![
            "True".to_string(),
            "False".to_string(),
            "None".to_string(),
            "%s %s %ld".to_string(),
            "%s\n".to_string(),
        ]
    );
    let context = Context::create();
    let mut generator = CodeGenerator::new(&context, "unit");
    let call = Node::Call(Call { callee: "print".to_string(), arguments: vec![template("{True} {None} {2}")] });
    assert_eq!(generator.compile(&program(vec![statement(call)])), Ok(()));
}

fn parse_expression(text: &str) -> Node {
    Parser::parse_expression_text(text).unwrap()
}

#[test]
fn levels_and_the_machine_asked_for() {
    assert_eq!(optimization(0), Some(Optimization::O0));
    assert_eq!(optimization(1), Some(Optimization::O1));
    assert_eq!(optimization(2), Some(Optimization::O2));
    assert_eq!(optimization(3), Some(Optimization::O3));
    assert_eq!(optimization(4), None);
    assert_eq!(optimization(255), None);
    for level in 0..4u8 {
        let asked = machine(level).unwrap();
        assert_eq!(Some(asked.level), optimization(level));
        assert_eq!(asked.processor, "generic");
        assert_eq!(asked.features, "");
    }
    assert!(machine(4).is_none());
}

#[test]
fn a_later_failure_takes_the_program_away() {
    let context = Context::create();
    let mut generator = CodeGenerator::new(&context, "unit");
    assert_eq!(generator.compile(&parse("print(1)")), Ok(()));
    assert!(generator.object_code(0).is_ok());
    let text = generator.ir_text();
    assert_eq!(generator.object_code(9), Err("Invalid optimization level".to_string()));
    assert_eq!(generator.ir_text(), text);
    assert_eq!(
        generator.compile(&parse("print(z)")),
        Err("Undefined variable: z".to_string())
    );
    assert!(generator.unit().is_none());
    assert_eq!(generator.ir_text(), text);
    assert_eq!(generator.object_code(0), Err("No program has been compiled".to_string()));
}

#[test]
fn floats_in_other_digits_read_as_zero() {
    let mut lexer = Lexer::new("1\u{661}.\u{665} 1.5 2.\u{665}");
    assert_eq!(lexer.next_token(), Token::Float("0.0".to_string()));
    assert_eq!(lexer.next_token(), Token::Float("1.5".to_string()));
    assert_eq!(lexer.next_token(), Token::Float("0.0".to_string()));
    assert_eq!(lexer.next_token(), Token::Eof);
    assert_eq!(lower("x = 1.5 / 1.\u{665}").err(), Some(CodegenError::DivisionByZero));
    assert_eq!(lower("x = 1.5 // 0.000").err(), Some(CodegenError::DivisionByZero));
    assert!(lower("x = 1.5 / 0.001").is_ok());
}

fn written(parts: &[FStringPart]) -> String {
    let mut text = String::new();
    for part in parts {
        match part {
            FStringPart::Literal(literal) => text.push_str(literal),
            FStringPart::Expression(expression) => {
                text.push('{');
                text.push_str(expression);
                text.push('}');
            }
        }
    }
    text
}

#[test]
fn segments_join_to_the_template() {
    for content in ["", "abc", "a{x}b", "{x}{y}", "a{f(1, {2})}b", "a\\{b{c\\}d}e}f", "100% {n}"] {
        assert_eq!(written(&FString::parse(content).parts), content, "{content}");
    }
    // an empty pair of braces and an expression left open give no segment
    assert_eq!(written(&FString::parse("a{}b").parts), "ab");
    assert_eq!(written(&FString::parse("a{b").parts), "a");
}
