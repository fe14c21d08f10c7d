use lex::bytecode::{Chunk, InterpreterError, OpCode, Vm, padded_offset};
use lex::cli::{Cli, LoxError, Outcome};
use lex::environment::{Environment, Environments};
use lex::error::{CompiletimeError, RuntimeError};
use lex::expression::Expr;
use lex::stmt::Stmt;
use lex::parser::Parser;
use lex::scanner::Scanner;
use lex::token::{Literal, Token, TokenType};
use lex::value::{IsTruthy, LoxNumber, NativeFunction, Value};

/// Lox numbers as double-precision floats, printed as Rust prints an `f64`.
#[derive(Clone, Copy, Debug)]
struct F64(f64);

impl LoxNumber for F64 {
    fn from_literal(text: &str) -> Self {
        F64(text.parse().unwrap())
    }
    fn from_timestamp(seconds: u64, nanos: u32) -> Self {
        F64(seconds as f64 + nanos as f64 / 1e9)
    }
    fn plus(self, other: Self) -> Self {
        F64(self.0 + other.0)
    }
    fn minus(self, other: Self) -> Self {
        F64(self.0 - other.0)
    }
    fn times(self, other: Self) -> Self {
        F64(self.0 * other.0)
    }
    fn divided_by(self, other: Self) -> Self {
        F64(self.0 / other.0)
    }
    fn negated(self) -> Self {
        F64(-self.0)
    }
    fn less(self, other: Self) -> bool {
        self.0 < other.0
    }
    fn less_equal(self, other: Self) -> bool {
        self.0 <= other.0
    }
    fn greater(self, other: Self) -> bool {
        self.0 > other.0
    }
    fn greater_equal(self, other: Self) -> bool {
        self.0 >= other.0
    }
    fn equals(self, other: Self) -> bool {
        self.0 == other.0
    }
    fn to_text(self) -> String {
        format!("{}", self.0)
    }
    fn debug_text(self) -> String {
        format!("{:?}", self.0)
    }
}

fn run(source: &str) -> Outcome<F64> {
    Cli { path: None, tokens: false, ast: false }.exec::<F64>(source)
}

fn error_message(outcome: &Outcome<F64>) -> String {
    match &outcome.result {
        Ok(()) => panic!("expected an error"),
        Err(e) => e.message(),
    }
}

fn identifier(name: &str) -> Token {
    Token::new(TokenType::Identifier, name, None, 1)
}

// ----- bytecode -----

#[test]
fn chunk_of_return_runs() {
    let mut chunk = Chunk::new();
    chunk.write(OpCode::Return.to_byte());
    assert_eq!(chunk.len(), 1);
    assert_eq!(chunk.byte(0), 0);
    let mut vm = Vm::new(&chunk);
    assert!(vm.interpret(&chunk).is_ok());
}

#[test]
fn vm_rejects_unknown_op() {
    let mut chunk = Chunk::new();
    chunk.write(7);
    let mut vm = Vm::new(&chunk);
    match vm.interpret(&chunk) {
        Ok(()) => panic!("expected an unknown operation"),
        Err(e) => {
            assert!(e == InterpreterError::UnknownOp);
            assert_eq!(e.message(), "Unknown Op");
        }
    }
}

#[test]
fn op_codes_decode_and_encode() {
    assert!(OpCode::try_from_byte(0) == Ok(OpCode::Return));
    assert!(OpCode::try_from_byte(1) == Err(InterpreterError::UnknownOp));
    assert!(OpCode::try_from_byte(255) == Err(InterpreterError::UnknownOp));
    assert!(OpCode::try_from_byte(OpCode::Return.to_byte()) == Ok(OpCode::Return));
    assert_eq!(OpCode::Return.name(), "RETURN");
}

#[test]
fn disassembles_a_chunk() {
    let mut chunk = Chunk::new();
    chunk.write(0);
    chunk.write(9);
    let (header, rows) = chunk.disassemble("test chunk");
    assert_eq!(header, "== test chunk ==");
    assert_eq!(rows.len(), 2);
    assert_eq!(rows[0].offset, "0000");
    assert_eq!(rows[0].text, Ok("RETURN".to_string()));
    assert_eq!(rows[1].offset, "0001");
    assert_eq!(rows[1].text, Err("Unknown Op".to_string()));
}

#[test]
fn pads_offsets_to_four_digits() {
    assert_eq!(padded_offset(0), "0000");
    assert_eq!(padded_offset(42), "0042");
    assert_eq!(padded_offset(1234), "1234");
    assert_eq!(padded_offset(12345), "12345");
}

// ----- the command line -----

#[test]
fn prints_the_ast_of_expressions() {
    let cli = Cli { path: None, tokens: false, ast: true };
    let outcome = cli.exec::<F64>("1 + 2 * 4 - 3;\nprint -(true);\nvar a = \"x\";\n");
    assert!(outcome.result.is_ok());
    assert_eq!(
        outcome.output,
        vec!["(- (+ 1 (* 2 4)) 3)".to_string(), "(- (group true))".to_string(), "<stmt>".to_string()]
    );
}

#[test]
fn lists_tokens() {
    let cli = Cli { path: None, tokens: true, ast: false };
    let outcome = cli.exec::<F64>("x = \"a\" + 2.5;");
    assert!(outcome.result.is_ok());
    assert_eq!(
        outcome.output,
        vec![
            "Identifier x None".to_string(),
            "Equal = None".to_string(),
            "String \"a\" Some(String(\"a\"))".to_string(),
            "Plus + None".to_string(),
            "Number 2.5 Some(Number(2.5))".to_string(),
            "Semicolon ; None".to_string(),
            "Eof  None".to_string(),
        ]
    );
}

#[test]
fn scan_error_prints_nothing() {
    let outcome = run("print 1;\nprint 2; #");
    assert!(outcome.output.is_empty());
    assert_eq!(error_message(&outcome), "Unexpected character at line 2");
    assert!(matches!(outcome.result, Err(LoxError::Compile(CompiletimeError::TokenError { line: 2 }))));
}

#[test]
fn output_before_a_runtime_error_is_kept() {
    let outcome = run("print 1;\nprint missing;\nprint 3;");
    assert_eq!(outcome.output, vec!["1".to_string()]);
    assert_eq!(error_message(&outcome), "Undefined variable \"missing\"");
}

#[test]
fn prints_values() {
    let outcome = run("class A {}\nfun f() {}\nprint nil; print true; print false; print \"s\"; print 2.5; print A; print A(); print f;");
    assert!(outcome.result.is_ok());
    assert_eq!(
        outcome.output,
        vec!["nil", "true", "false", "s", "2.5", "A", "A instance", "<fn f>"]
            .into_iter()
            .map(String::from)
            .collect::<Vec<String>>()
    );
}

#[test]
fn evaluates_operators() {
    let outcome = run("print 1 + 2; print 7 - 10; print 3 * 4; print 9 / 2; print \"a\" + \"b\";\nprint 1 < 2; print 2 <= 1; print 3 > 2; print 3 >= 4; print 1 == 1; print \"a\" != \"a\"; print !nil; print nil == false;");
    assert!(outcome.result.is_ok());
    assert_eq!(
        outcome.output,
        vec!["3", "-3", "12", "4.5", "ab", "true", "false", "true", "false", "true", "false", "true", "false"]
            .into_iter()
            .map(String::from)
            .collect::<Vec<String>>()
    );
}

#[test]
fn closures_and_initializers() {
    let outcome = run("fun counter() { var i = 0; fun inc() { i = i + 1; return i; } return inc; }\nvar c = counter(); c(); print c();\nclass P { init(x) { this.x = x; } }\nvar p = P(5); print p.x; print p.init(6).x;");
    assert!(outcome.result.is_ok());
    assert_eq!(outcome.output, vec!["2".to_string(), "5".to_string(), "6".to_string()]);
}

// ----- error messages -----

#[test]
fn compile_error_messages() {
    assert_eq!(
        CompiletimeError::ScannerError {
            line: 3,
            location: "at end".to_string(),
            message: "oops".to_string()
        }
        .message::<F64>(),
        "[line 3] Error \"at end\": \"oops\""
    );
    assert_eq!(CompiletimeError::TokenError { line: 12 }.message::<F64>(), "Unexpected character at line 12");
    assert_eq!(CompiletimeError::StringError { line: 4 }.message::<F64>(), "Unterminated String 4");
    assert_eq!(CompiletimeError::NumberError { line: 5 }.message::<F64>(), "Number parsing error 5");
    assert_eq!(
        CompiletimeError::InitializerError(identifier("a")).message::<F64>(),
        "Cannot read local variable in its own initialiser: Identifier a None"
    );
    assert_eq!(
        CompiletimeError::AlreadyDeclared(identifier("b")).message::<F64>(),
        "Already a variable with this name in this scope: Identifier b None"
    );
    assert_eq!(
        CompiletimeError::InheritSelf(identifier("A")).message::<F64>(),
        "A class can't inherit from itself."
    );
}

#[test]
fn parse_error_reported() {
    let outcome = run("print 1 +;");
    assert!(outcome.result.is_ok());
    assert_eq!(outcome.syntax_errors.len(), 1);
    let message = outcome.syntax_errors[0].message::<F64>();
    assert!(message.starts_with("[line 1] Parsing error. "), "{message}");
    assert!(message.ends_with(", found \";\""), "{message}");
}

#[test]
fn parser_recovers_after_a_syntax_error() {
    let tokens = Scanner::new("var = 1;\nprint nil;\nvar 2;").scan_tokens().unwrap();
    let mut parser = Parser::new(tokens);
    let statements = parser.parse().unwrap();
    assert_eq!(statements.len(), 1);
    assert!(matches!(statements[0], Stmt::Print { .. }));
    let errors = parser.take_errors();
    assert_eq!(errors.len(), 2);
    match &errors[0] {
        CompiletimeError::ParseError { line, message, lexeme } => {
            assert_eq!(*line, 1);
            assert_eq!(message, "Expect variable name.");
            assert_eq!(lexeme, "=");
        },
        _ => panic!("not a syntax error"),
    }
    match &errors[1] {
        CompiletimeError::ParseError { line, message, lexeme } => {
            assert_eq!(*line, 3);
            assert_eq!(message, "Expect variable name.");
            assert_eq!(lexeme, "2");
        },
        _ => panic!("not a syntax error"),
    }
}

#[test]
fn syntax_errors_are_reported_and_the_rest_runs() {
    let outcome = run("print \"a\";\nvar = 1;\nprint \"b\";\nprint (;");
    assert!(outcome.result.is_ok());
    assert_eq!(outcome.output, vec!["a".to_string(), "b".to_string()]);
    assert_eq!(outcome.syntax_errors.len(), 2);
    match &outcome.syntax_errors[0] {
        CompiletimeError::ParseError { line, message, .. } => {
            assert_eq!(*line, 2);
            assert_eq!(message, "Expect variable name.");
        },
        _ => panic!("expected a syntax error"),
    }
    match &outcome.syntax_errors[1] {
        CompiletimeError::ParseError { line, .. } => assert_eq!(*line, 4),
        _ => panic!("expected a syntax error"),
    }
}

#[test]
fn resolved_depths_reach_the_right_binding() {
    let outcome = run(
        "var a = \"global\";\n{ fun show() { print a; } show(); var a = \"block\"; show(); print a; }",
    );
    assert!(outcome.result.is_ok());
    assert_eq!(
        outcome.output,
        vec!["global", "global", "block"].into_iter().map(String::from).collect::<Vec<String>>()
    );
}

#[test]
fn resolver_errors_reported() {
    assert_eq!(
        error_message(&run("var a = 1; { var a = a; }")),
        "Cannot read local variable in its own initialiser: Identifier a None"
    );
    assert_eq!(
        error_message(&run("{ var a = 1; var a = 2; }")),
        "Already a variable with this name in this scope: Identifier a None"
    );
    assert_eq!(error_message(&run("class A < A {}")), "A class can't inherit from itself.");
    assert_eq!(
        error_message(&run("class A { f() { super.f(); } }")),
        "Can't use 'super' in a class with no superclass."
    );
}

#[test]
fn runtime_error_messages() {
    assert_eq!(
        error_message(&run("-\"a\";")),
        "Type Error: \"Tried to apply '-' operator on a non-number\". Found: String(\"a\")"
    );
    assert_eq!(
        error_message(&run("print 1 - nil;")),
        "Type Error: \"Operands must be numbers\". Found: Number(1.0)"
    );
    assert_eq!(error_message(&run("print true + 1;")), "Type Error: \"Operands must be either strings or numbers\". Found: Bool(true)");
    assert_eq!(error_message(&run("\"a\"();")), "Expression not callable )");
    assert_eq!(error_message(&run("fun f(a) {} f();")), "Expected 1 arguments but got 0");
    assert_eq!(error_message(&run("var n = 1; print n.x;")), "Only instances have properties.");
    assert_eq!(error_message(&run("class A {} print A().x;")), "Undefined variable \"x\"");
    assert!(matches!(run("var n = 1; n.x = 2;").result, Err(LoxError::Runtime(RuntimeError::FieldsOnInstancesOnly))));
    assert_eq!(RuntimeError::<F64>::LimitExceeded.message(), "Execution limit exceeded.");
    assert_eq!(RuntimeError::<F64>::ReturnOutsideFunction.message(), "Can't return from top-level code.");
    assert_eq!(RuntimeError::<F64>::SuperclassMustBeClass.message(), "Superclass must be a class.");
}

// ----- laws on concrete values -----

#[test]
fn scanned_tokens_end_with_eof() {
    for source in ["", "var a = 1;", "// only a comment\n", "\"s\" 1.5 ab1"] {
        let tokens = Scanner::new(source).scan_tokens().unwrap();
        assert!(tokens.len() >= 1);
        assert!(tokens.len() <= source.chars().count() + 1);
        assert!(tokens[tokens.len() - 1].token_type == TokenType::Eof);
    }
}

#[test]
fn underscore_is_no_identifier_character() {
    assert!(matches!(
        Scanner::new("a_b").scan_tokens(),
        Err(CompiletimeError::TokenError { line: 1 })
    ));
}

#[test]
fn parser_hands_out_fresh_ids() {
    let tokens = Scanner::new("a = b; print c;").scan_tokens().unwrap();
    let mut parser = Parser::with_first_id(tokens, 10);
    let statements = parser.parse().unwrap();
    assert_eq!(statements.len(), 2);
    assert!(parser.errors().is_empty());
    // `a` is read as a variable first and then becomes the target of an
    // assignment, which takes an id of its own.
    assert_eq!(parser.next_id(), 14);
}

#[test]
fn define_then_get_and_assign() {
    let mut envs: Environments<F64> = Environments::new();
    let a = identifier("a");
    envs.define(0, "a".to_string(), Some(Value::Bool(true)));
    assert!(matches!(envs.get(0, &a), Ok(Value::Bool(true))));
    let inner = envs.add(Environment::new().with_enclosing(0));
    assert!(matches!(envs.get(inner, &a), Ok(Value::Bool(true))));
    assert!(envs.assign(inner, &a, &Value::Bool(false)).is_ok());
    assert!(matches!(envs.get(0, &a), Ok(Value::Bool(false))));
    assert!(matches!(envs.get_at(inner, 1, &"a".to_string()), Ok(Value::Bool(false))));
    assert!(envs.assign_at(inner, 1, &a, Value::Nil).is_ok());
    assert!(matches!(envs.get(inner, &a), Ok(Value::Nil)));
    let b = identifier("b");
    assert!(matches!(envs.get(inner, &b), Err(RuntimeError::Undefined { .. })));
    assert!(envs.assign(inner, &b, &Value::Nil).is_err());
}

#[test]
fn truthiness() {
    assert!(!Value::<F64>::Nil.is_truthy());
    assert!(!Value::<F64>::Bool(false).is_truthy());
    assert!(Value::<F64>::Bool(true).is_truthy());
    assert!(Value::Number(F64(0.0)).is_truthy());
    assert!(Value::<F64>::String(String::new()).is_truthy());
    assert!(Value::<F64>::Native(NativeFunction::new(0)).is_truthy());
}

#[test]
fn native_function_arity() {
    let f = NativeFunction::new(2);
    assert_eq!(f.arity(), 2);
    assert_eq!(f.to_string(), "<native fn>");
}

#[test]
fn straight_line_programs_print_in_order() {
    let outcome = run(
        "var a = \"x\";\n{ var a = \"y\"; print a; a = \"z\"; print a; }\nprint a;\nif (a == \"x\") print \"same\"; else print \"other\";\nwhile (false) print \"never\";\nvar b;\nprint b = a + \"!\";\nprint !nil and \"t\";\nprint nil or false;\nprint \"a\" < \"b\";",
    );
    assert!(outcome.result.is_ok());
    assert_eq!(
        outcome.output,
        vec!["y", "z", "x", "same", "x!", "t", "false", "false"]
            .into_iter()
            .map(String::from)
            .collect::<Vec<String>>()
    );
}

#[test]
fn instances_fields_methods_and_super() {
    let outcome = run(
        "class A { name() { return \"A\"; } greet() { return \"I am \" + this.name(); } }\nclass B < A { name() { return \"B\"; } parent() { return super.name(); } }\nvar b = B();\nprint b;\nprint b.greet();\nprint b.parent();\nb.tag = \"t\";\nprint b.tag;\nprint B;",
    );
    assert!(outcome.result.is_ok());
    assert_eq!(
        outcome.output,
        vec!["B instance", "I am B", "A", "t", "B"]
            .into_iter()
            .map(String::from)
            .collect::<Vec<String>>()
    );
}

#[test]
fn instances_and_classes_compare_by_content() {
    let outcome = run(
        "class A {}\nclass B {}\nprint A() == A();\nprint A == A;\nprint A == B;\nvar a = A();\nvar b = A();\na.x = 1;\nprint a == b;\nb.x = 1;\nprint a == b;\nb.x = 2;\nprint a != b;\nprint A() == B();",
    );
    assert!(outcome.result.is_ok());
    assert_eq!(
        outcome.output,
        vec!["true", "true", "false", "false", "true", "true", "false"]
            .into_iter()
            .map(String::from)
            .collect::<Vec<String>>()
    );
}

#[test]
fn while_loops_run_until_the_condition_is_false() {
    let outcome = run(
        "var go = true;\nvar s = \"\";\nwhile (go) { s = s + \"a\"; print s; if (s == \"aaa\") go = false; }\nfun find() { while (true) { return \"found\"; } }\nprint find();",
    );
    assert!(outcome.result.is_ok());
    assert_eq!(
        outcome.output,
        vec!["a", "aa", "aaa", "found"]
            .into_iter()
            .map(String::from)
            .collect::<Vec<String>>()
    );
}

#[test]
fn for_loops_become_while_loops() {
    let tokens = Scanner::new("for (var i = 0; i < 1; i = i + 1) print i;\nfor (; false;) print 1;")
        .scan_tokens()
        .unwrap();
    let mut parser = Parser::new(tokens);
    let statements = parser.parse().unwrap();
    assert!(parser.errors().is_empty());
    assert_eq!(statements.len(), 2);
    match &statements[0] {
        Stmt::Block { statements: inner } => {
            assert_eq!(inner.len(), 2);
            assert!(matches!(inner[0], Stmt::Var { .. }));
            match &inner[1] {
                Stmt::While { body, .. } => match &**body {
                    Stmt::Block { statements: body } => {
                        assert_eq!(body.len(), 2);
                        assert!(matches!(body[0], Stmt::Print { .. }));
                        assert!(matches!(body[1], Stmt::Expression { .. }));
                    }
                    _ => panic!("expected the body and the increment in a block"),
                },
                _ => panic!("expected a while loop"),
            }
        }
        _ => panic!("expected a block"),
    }
    match &statements[1] {
        Stmt::While { condition, body } => {
            assert!(matches!(**condition, Expr::Literal { value: Literal::Bool(false) }));
            assert!(matches!(**body, Stmt::Print { .. }));
        }
        _ => panic!("expected a while loop"),
    }
}

#[test]
fn missing_for_condition_is_true() {
    let tokens = Scanner::new("for (;;) print 1;").scan_tokens().unwrap();
    let mut parser = Parser::new(tokens);
    let statements = parser.parse().unwrap();
    match &statements[0] {
        Stmt::While { condition, .. } => {
            assert!(matches!(**condition, Expr::Literal { value: Literal::Bool(true) }))
        }
        _ => panic!("expected a while loop"),
    }
}

#[test]
fn primary_expressions() {
    let tokens = Scanner::new("nil; true; x; \"s\";").scan_tokens().unwrap();
    let mut parser = Parser::new(tokens);
    let statements = parser.parse().unwrap();
    let expressions: Vec<&Expr> = statements
        .iter()
        .map(|s| match s {
            Stmt::Expression { expression } => &**expression,
            _ => panic!("expected an expression statement"),
        })
        .collect();
    assert!(matches!(expressions[0], Expr::Literal { value: Literal::Nil }));
    assert!(matches!(expressions[1], Expr::Literal { value: Literal::Bool(true) }));
    match expressions[2] {
        Expr::Variable { id, name } => {
            assert_eq!(*id, 0);
            assert_eq!(name.lexeme, "x");
        }
        _ => panic!("expected a variable"),
    }
    assert!(matches!(expressions[3], Expr::Literal { value: Literal::String(s) } if s == "s"));
    let tokens = Scanner::new("print ;").scan_tokens().unwrap();
    let mut parser = Parser::new(tokens);
    let _ = parser.parse().unwrap();
    let errors = parser.take_errors();
    assert_eq!(errors.len(), 1);
    assert_eq!(errors[0].message::<F64>(), "[line 1] Parsing error. \"Unknown token\", found \";\"");
}

#[test]
fn functions_and_classes_declared_twice() {
    assert_eq!(
        error_message(&run("{ fun f() {} fun f() {} }")),
        "Already a variable with this name in this scope: Identifier f None"
    );
    assert_eq!(
        error_message(&run("{ class A {} class A {} }")),
        "Already a variable with this name in this scope: Identifier A None"
    );
    assert!(run("fun f() {} fun f() {}").result.is_ok());
}

#[test]
fn failures_inside_calls_and_blocks_end_the_run() {
    let outcome = run("fun f() { print \"in\"; return nil + 1; } print \"before\"; f(); print \"after\";");
    assert_eq!(
        error_message(&outcome),
        "Type Error: \"Operands must be either strings or numbers\". Found: Nil"
    );
    assert_eq!(outcome.output, vec!["before".to_string(), "in".to_string()]);
    assert_eq!(error_message(&run("{ var a = 1; missing = 2; }")), "Undefined variable \"missing\"");
    assert_eq!(error_message(&run("while (true) { print -true; }")), "Type Error: \"Tried to apply '-' operator on a non-number\". Found: Bool(true)");
    assert_eq!(error_message(&run("class A { init(x) {} } A();")), "Expected 1 arguments but got 0");
    assert_eq!(error_message(&run("if (nil) {} else { nil(); }")), "Expression not callable )");
}

#[test]
fn messages_quote_control_characters_as_std_does() {
    let e = RuntimeError::<F64>::Undefined { lexeme: "a\u{1b}b\"".to_string() };
    assert_eq!(e.message(), "Undefined variable \"a\\u{1b}b\\\"\"");
}

#[test]
fn literal_equality_and_text() {
    let one = Literal::Number("1".to_string());
    let one_again = Literal::Number("1.0".to_string());
    let two = Literal::Number("2".to_string());
    assert!(one.equals::<F64>(&one_again));
    assert!(!one.equals::<F64>(&two));
    assert!(Literal::String("a".to_string()).equals::<F64>(&Literal::String("a".to_string())));
    assert!(!Literal::Nil.equals::<F64>(&Literal::Bool(false)));
    assert_eq!(Literal::Number("45.67".to_string()).text::<F64>(), "45.67");
    assert_eq!(Literal::Bool(true).text::<F64>(), "true");
    assert_eq!(Literal::Nil.text::<F64>(), "nil");
}

#[test]
fn assigned_value_reads_back() {
    let outcome = run("var a = 1; { var b = 2; a = b + 1; b = a; print b; } print a;");
    assert!(outcome.result.is_ok());
    assert_eq!(outcome.output, vec!["3".to_string(), "3".to_string()]);
}
