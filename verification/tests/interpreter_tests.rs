use lox::error::LoxError;
use lox::interpreter::environment::Environment;
use lox::interpreter::error::RuntimeError;
use lox::interpreter::value::{NumberPair, StringPair, Value};
use lox::interpreter::Interpreter;
use lox::lexer::error::{LexerError, LexerErrorType};
use lox::lexer::token::{Token, TokenType};
use lox::lexer::tokenize;
use lox::number::{ArithOp, Number};
use lox::parser::error::ParseError;
use lox::parser::Parser;

fn parse_number(text: &String) -> Number {
    Number::from_bits(text.parse::<f64>().unwrap().to_bits())
}

fn format_number(n: Number) -> String {
    f64::from_bits(n.to_bits()).to_string()
}

fn arith(op: ArithOp, a: Number, b: Number) -> Number {
    let (a, b) = (f64::from_bits(a.to_bits()), f64::from_bits(b.to_bits()));
    let result = match op {
        ArithOp::Add => a + b,
        ArithOp::Sub => a - b,
        ArithOp::Mul => a * b,
        ArithOp::Div => a / b,
    };
    Number::from_bits(result.to_bits())
}

fn num(x: f64) -> Value {
    Value::Number(Number::from_bits(x.to_bits()))
}

fn text(s: &str) -> Value {
    Value::String(s.to_string())
}

fn shown(value: &Value) -> String {
    value.to_string(&format_number)
}

fn evaluate(source: &str) -> Result<Value, RuntimeError> {
    let tokens = tokenize(source, &parse_number).unwrap();
    let expr = Parser::new(&tokens).parse_expr().unwrap();
    Interpreter::new().evaluate(&expr, &arith)
}

fn evaluated(source: &str) -> String {
    shown(&evaluate(source).unwrap())
}

/// The lines printed and how the run ended.
fn run(source: &str) -> (Vec<String>, Result<(), RuntimeError>) {
    let tokens = tokenize(source, &parse_number).unwrap();
    let stmts = Parser::new(&tokens).parse().unwrap();
    let mut interpreter = Interpreter::new();
    let outcome = interpreter.interpret(&stmts, &arith);
    (interpreter.output.iter().map(shown).collect(), outcome)
}

fn ident(name: &str, line: usize) -> Token {
    Token::new(TokenType::Ident(name.to_string()), line)
}

#[test]
fn arithmetic() {
    assert_eq!(evaluated("-3 * (1 + 2)"), "-9");
    assert_eq!(evaluated("1 + 2 * 3"), "7");
    assert_eq!(evaluated("7 - 10"), "-3");
    assert_eq!(evaluated("10 / 4"), "2.5");
    assert_eq!(evaluated("0.1 + 0.2"), "0.30000000000000004");
    assert_eq!(evaluated("2 * 3"), "6");
}

#[test]
fn division_by_zero_is_no_error() {
    assert_eq!(evaluated("1 / 0"), "inf");
    assert_eq!(evaluated("-1 / 0"), "-inf");
    assert_eq!(evaluated("0 / 0"), "NaN");
}

#[test]
fn strings_are_joined_by_plus() {
    assert_eq!(evaluated("\"foo\" + \"bar\""), "foobar");
    assert_eq!(evaluated("\"\" + \"\""), "");
    assert!(evaluate("\"a\" + \"b\"").unwrap() == text("ab"));
}

#[test]
fn plus_rejects_mixed_operands() {
    let error = evaluate("\"foo\" + 1").unwrap_err();
    assert_eq!(error.line_number, 1);
    assert_eq!(error.message, "Operands must be two numbers or two strings.");
    let error = evaluate("1 \n + \n nil").unwrap_err();
    assert_eq!(error.line_number, 2);
    assert_eq!(error.to_string(), "Operands must be two numbers or two strings.");
    assert!(evaluate("true + false").is_err());
}

#[test]
fn arithmetic_and_ordering_want_numbers() {
    for source in ["1 - \"a\"", "nil * 2", "true / 2", "\"a\" < \"b\"", "1 > nil", "1 <= \"1\"", "nil >= nil"] {
        let error = evaluate(source).unwrap_err();
        assert_eq!(error.message, "Operands must be numbers.", "{}", source);
        assert_eq!(error.line_number, 1);
    }
    let error = evaluate("1 +\n 2 *\n \"x\"").unwrap_err();
    assert_eq!(error.line_number, 2);
}

#[test]
fn ordering() {
    assert_eq!(evaluated("1 < 2"), "true");
    assert_eq!(evaluated("2 < 1"), "false");
    assert_eq!(evaluated("2 <= 2"), "true");
    assert_eq!(evaluated("3 > 2"), "true");
    assert_eq!(evaluated("2 >= 3"), "false");
    assert_eq!(evaluated("-1 < 0"), "true");
    assert_eq!(evaluated("-2 < -1"), "true");
    assert_eq!(evaluated("0 / 0 < 1"), "false");
    assert_eq!(evaluated("0 / 0 >= 1"), "false");
}

#[test]
fn equality_across_variants_is_false() {
    assert_eq!(evaluated("1 == 1"), "true");
    assert_eq!(evaluated("1 == 2"), "false");
    assert_eq!(evaluated("1 != 2"), "true");
    assert_eq!(evaluated("\"a\" == \"a\""), "true");
    assert_eq!(evaluated("\"a\" == \"b\""), "false");
    assert_eq!(evaluated("nil == nil"), "true");
    assert_eq!(evaluated("true == true"), "true");
    assert_eq!(evaluated("true == false"), "false");
    assert_eq!(evaluated("1 == \"1\""), "false");
    assert_eq!(evaluated("1 != \"1\""), "true");
    assert_eq!(evaluated("nil == false"), "false");
    assert_eq!(evaluated("0 == false"), "false");
    assert_eq!(evaluated("\"\" != nil"), "true");
}

#[test]
fn equality_of_numbers_is_ieee() {
    assert_eq!(evaluated("0 / 0 == 0 / 0"), "false");
    assert_eq!(evaluated("0 / 0 != 0 / 0"), "true");
    assert_eq!(evaluated("0 == -0"), "true");
    assert_eq!(evaluated("1 / 0 == 1 / 0"), "true");
}

#[test]
fn equality_is_reflexive_but_for_nan() {
    let values = [Value::Nil, Value::Boolean(true), Value::Boolean(false), num(0.0), num(-1.5), text(""), text("a")];
    for value in &values {
        assert!(value == value);
    }
    assert!(!(num(f64::NAN) == num(f64::NAN)));
    for (i, a) in values.iter().enumerate() {
        for (j, b) in values.iter().enumerate() {
            assert_eq!(a == b, i == j);
        }
    }
}

#[test]
fn minus_wants_a_number() {
    assert_eq!(evaluated("-5"), "-5");
    assert_eq!(evaluated("--5"), "5");
    assert_eq!(evaluated("-0"), "-0");
    let error = evaluate("\n-\"a\"").unwrap_err();
    assert_eq!(error.message, "Operand must be a number");
    assert_eq!(error.line_number, 2);
    assert!(evaluate("-nil").is_err());
    assert!(evaluate("-true").is_err());
}

#[test]
fn bang_negates_truthiness() {
    assert_eq!(evaluated("!true"), "false");
    assert_eq!(evaluated("!false"), "true");
    assert_eq!(evaluated("!nil"), "true");
    assert_eq!(evaluated("!0"), "false");
    assert_eq!(evaluated("!\"\""), "false");
    assert_eq!(evaluated("!\"a\""), "false");
}

#[test]
fn double_negation_gives_truthiness() {
    let cases = [
        ("nil", Value::Nil),
        ("false", Value::Boolean(false)),
        ("true", Value::Boolean(true)),
        ("0", num(0.0)),
        ("1", num(1.0)),
        ("\"\"", text("")),
        ("\"x\"", text("x")),
    ];
    for (source, value) in cases {
        let truthy = Interpreter::is_truthy(&value);
        assert!(evaluate(&format!("!!{}", source)).unwrap() == Value::Boolean(truthy));
    }
    assert!(!Interpreter::is_truthy(&Value::Nil));
    assert!(!Interpreter::is_truthy(&Value::Boolean(false)));
    assert!(Interpreter::is_truthy(&Value::Boolean(true)));
    assert!(Interpreter::is_truthy(&num(0.0)));
    assert!(Interpreter::is_truthy(&num(f64::NAN)));
    assert!(Interpreter::is_truthy(&text("")));
}

#[test]
fn literals_evaluate_to_themselves() {
    assert_eq!(evaluated("nil"), "nil");
    assert_eq!(evaluated("true"), "true");
    assert_eq!(evaluated("\"s\""), "s");
    assert_eq!(evaluated("1.50"), "1.5");
    assert_eq!(evaluated("(((2)))"), "2");
}

#[test]
fn left_operand_is_evaluated_first() {
    let error = evaluate("(-\"a\") + (-\"b\" \n)").unwrap_err();
    assert_eq!(error.line_number, 1);
    let (lines, outcome) = run("var a = 1; print (a = 2) + a;");
    assert!(outcome.is_ok());
    assert_eq!(lines, vec!["4"]);
}

#[test]
fn print_shows_values() {
    let (lines, outcome) = run("print 2 * 3; print \"hi\"; print nil; print 1 < 2; print 0.5;");
    assert!(outcome.is_ok());
    assert_eq!(lines, vec!["6", "hi", "nil", "true", "0.5"]);
}

#[test]
fn block_shadows_and_restores() {
    let (lines, outcome) = run("var a = 1; { var a = 2; print a; } print a;");
    assert!(outcome.is_ok());
    assert_eq!(lines, vec!["2", "1"]);
}

#[test]
fn shadowing_does_not_depend_on_the_outer_binding() {
    let (lines, _) = run("{ var x = \"in\"; print x; }");
    assert_eq!(lines, vec!["in"]);
    let (lines, _) = run("var x = 1; { { var x = nil; print x; } print x; }");
    assert_eq!(lines, vec!["nil", "1"]);
    let (lines, outcome) = run("{ var x = 1; } print x;");
    assert!(lines.is_empty());
    assert_eq!(outcome.unwrap_err().message, "Undefined variable \"x\".");
}

#[test]
fn assignment_in_a_block_reaches_the_outer_variable() {
    let (lines, outcome) = run("var a = 1; { a = 2; var b = a; print b; } print a;");
    assert!(outcome.is_ok());
    assert_eq!(lines, vec!["2", "2"]);
}

#[test]
fn declaration_without_initializer_is_nil() {
    let (lines, outcome) = run("var a; print a;");
    assert!(outcome.is_ok());
    assert_eq!(lines, vec!["nil"]);
}

#[test]
fn redefinition_replaces_the_binding() {
    let (lines, _) = run("var a = 1; var a = \"two\"; print a;");
    assert_eq!(lines, vec!["two"]);
    let (lines, _) = run("var a = 1; var a = a + 1; print a;");
    assert_eq!(lines, vec!["2"]);
}

#[test]
fn assignment_is_not_definition() {
    let (lines, outcome) = run("x = 5;");
    assert!(lines.is_empty());
    let error = outcome.unwrap_err();
    assert_eq!(error.message, "Undefined variable \"x\".");
    assert_eq!(error.line_number, 1);

    let tokens = tokenize("\n\nx = 1;", &parse_number).unwrap();
    let stmts = Parser::new(&tokens).parse().unwrap();
    let mut interpreter = Interpreter::new();
    let error = interpreter.interpret(&stmts, &arith).unwrap_err();
    assert_eq!(error.line_number, 3);
    // No binding was created.
    assert!(interpreter.environment.get(&ident("x", 1)).is_err());
}

#[test]
fn assignment_has_the_assigned_value() {
    let (lines, outcome) = run("var a; var b; print a = b = 3; print a; print b;");
    assert!(outcome.is_ok());
    assert_eq!(lines, vec!["3", "3", "3"]);
}

#[test]
fn undefined_variable_is_an_error_at_its_line() {
    let (lines, outcome) = run("print 1;\nprint y;\nprint 2;");
    assert_eq!(lines, vec!["1"]);
    let error = outcome.unwrap_err();
    assert_eq!(error.message, "Undefined variable \"y\".");
    assert_eq!(error.line_number, 2);
}

#[test]
fn a_variable_is_unbound_inside_its_own_initializer() {
    let (_, outcome) = run("var a = a;");
    assert_eq!(outcome.unwrap_err().message, "Undefined variable \"a\".");
}

#[test]
fn scope_is_restored_after_an_error_in_a_block() {
    let tokens = tokenize("var a = 1; { var a = 2; print a; print b; }", &parse_number).unwrap();
    let stmts = Parser::new(&tokens).parse().unwrap();
    let mut interpreter = Interpreter::new();
    assert!(interpreter.interpret(&stmts, &arith).is_err());
    assert_eq!(interpreter.output.len(), 1);
    assert!(interpreter.environment.enclosing.is_none());
    assert!(interpreter.environment.get(&ident("a", 1)).unwrap() == num(1.0));
}

#[test]
fn interpreter_keeps_its_state_between_runs() {
    let mut interpreter = Interpreter::default();
    for source in ["var n = 1;", "n = n + 1;", "print n;"] {
        let tokens = tokenize(source, &parse_number).unwrap();
        let stmts = Parser::new(&tokens).parse().unwrap();
        interpreter.interpret(&stmts, &arith).unwrap();
    }
    assert_eq!(interpreter.output.len(), 1);
    assert!(interpreter.output[0] == num(2.0));
}

#[test]
fn environment_chain() {
    let mut outer = Environment::new(None);
    outer.define("a", num(1.0));
    outer.define("b", num(2.0));
    let mut inner = Environment::new(Some(Box::new(outer)));
    inner.define("a", text("inner"));
    assert!(inner.get(&ident("a", 1)).unwrap() == text("inner"));
    assert!(inner.get(&ident("b", 1)).unwrap() == num(2.0));
    inner.assign(&ident("b", 1), Value::Nil).unwrap();
    inner.assign(&ident("a", 1), Value::Boolean(true)).unwrap();
    assert!(inner.get(&ident("a", 1)).unwrap() == Value::Boolean(true));
    let error = inner.assign(&ident("c", 9), Value::Nil).unwrap_err();
    assert_eq!(error.message, "Undefined variable \"c\".");
    assert_eq!(error.line_number, 9);
    let error = inner.get(&ident("c", 4)).unwrap_err();
    assert_eq!(error.message, "Undefined variable \"c\".");
    assert_eq!(error.line_number, 4);
    let outer = *inner.enclosing.unwrap();
    assert!(outer.get(&ident("a", 1)).unwrap() == num(1.0));
    assert!(outer.get(&ident("b", 1)).unwrap() == Value::Nil);
}

#[test]
fn value_display() {
    assert_eq!(shown(&Value::Nil), "nil");
    assert_eq!(shown(&Value::Boolean(true)), "true");
    assert_eq!(shown(&Value::Boolean(false)), "false");
    assert_eq!(shown(&text("raw \"text\"")), "raw \"text\"");
    assert_eq!(shown(&num(6.0)), "6");
    assert_eq!(shown(&num(-2.5)), "-2.5");
}

#[test]
fn value_clone_is_equal() {
    for value in [Value::Nil, Value::Boolean(true), num(3.0), text("abc")] {
        assert!(value.clone() == value);
    }
}

#[test]
fn operand_pairs() {
    let pair = NumberPair::try_from((&num(1.0), &num(2.0))).unwrap();
    assert_eq!(pair.0.to_bits(), 1.0f64.to_bits());
    assert_eq!(pair.1.to_bits(), 2.0f64.to_bits());
    assert!(NumberPair::try_from((&num(1.0), &text("a"))).is_err());
    assert!(NumberPair::try_from((&Value::Nil, &num(1.0))).is_err());
    let pair = StringPair::try_from((&text("a"), &text("b"))).unwrap();
    assert_eq!(pair.0, "a");
    assert_eq!(pair.1, "b");
    assert!(StringPair::try_from((&text("a"), &num(1.0))).is_err());
    assert!(StringPair::try_from((&Value::Boolean(true), &text("a"))).is_err());
}

#[test]
fn runtime_error_new() {
    let error = RuntimeError::new(12, "went wrong");
    assert_eq!(error.line_number, 12);
    assert_eq!(error.message, "went wrong");
    assert_eq!(error.to_string(), "went wrong");
}

#[test]
fn error_reports() {
    let error = LoxError::from(LexerError::new(LexerErrorType::UnterminatedString, 3));
    assert_eq!(error.to_string(), "[line 3] Error: Unterminated string.\n");
    assert_eq!(error.line_number(), 3);
    let error = LoxError::from(LexerError::new(LexerErrorType::UnknownChar('$'), 120));
    assert_eq!(error.to_string(), "[line 120] Error: Unexpected character: $\n");
    let error = LoxError::from(ParseError::new(Token::new(TokenType::Semicolon, 45), "Expect ')'."));
    assert_eq!(error.to_string(), "[line 45] Error: Expect ')'.\n");
    let error: LoxError = RuntimeError::new(1000, "Operands must be numbers.").into();
    assert_eq!(error.to_string(), "[line 1000] Error: Operands must be numbers.\n");
    assert!(matches!(error, LoxError::RuntimeError(_)));
    let error = LoxError::from(RuntimeError::new(0, ""));
    assert_eq!(error.to_string(), "[line 0] Error: \n");
    let error = LoxError::from(RuntimeError::new(usize::MAX, "x"));
    assert_eq!(error.to_string(), format!("[line {}] Error: x\n", usize::MAX));
}

#[test]
fn unterminated_string_report() {
    let error = tokenize("print \"unterminated;", &parse_number).unwrap_err();
    assert_eq!(LoxError::from(error).to_string(), "[line 1] Error: Unterminated string.\n");
}
