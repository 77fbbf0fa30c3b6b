use lox::lexer::keywords::Keyword;
use lox::lexer::token::{Token, TokenType};
use lox::lexer::tokenize;
use lox::number::Number;
use lox::parser::error::ParseError;
use lox::parser::expr::{BinaryOp, Expr, LiteralType, UnaryOp};
use lox::parser::stmt::Stmt;
use lox::parser::Parser;
use lox::visitors::print_visitor::PrintVisitor;

fn parse_number(text: &String) -> Number {
    Number::from_bits(text.parse::<f64>().unwrap().to_bits())
}

fn format_number(n: Number) -> String {
    f64::from_bits(n.to_bits()).to_string()
}

fn expression(source: &str) -> Result<Expr, ParseError> {
    let tokens = tokenize(source, &parse_number).unwrap();
    Parser::new(&tokens).parse_expr()
}

fn program(source: &str) -> Result<Vec<Stmt>, ParseError> {
    let tokens = tokenize(source, &parse_number).unwrap();
    Parser::new(&tokens).parse()
}

fn printed(source: &str) -> String {
    let expr = expression(source).unwrap();
    PrintVisitor.print(&expr, &format_number).unwrap()
}

fn value_of(expr: &Expr) -> f64 {
    match expr {
        Expr::Literal(literal) => match &literal.literal_type {
            LiteralType::Number { value } => f64::from_bits(value.to_bits()),
            other => panic!("{:?}", other),
        },
        other => panic!("{:?}", other),
    }
}

#[test]
fn literals() {
    assert_eq!(printed("true"), "true");
    assert_eq!(printed("false"), "false");
    assert_eq!(printed("nil"), "nil");
    assert_eq!(printed("12"), "12.0");
    assert_eq!(printed("12.25"), "12.25");
    assert_eq!(printed("\"text\""), "text");
}

#[test]
fn literal_carries_the_line_of_its_token() {
    match expression("\n\n7").unwrap() {
        Expr::Literal(literal) => {
            assert_eq!(literal.line_number, 3);
            assert!(matches!(literal.literal_type, LiteralType::Number { .. }));
        }
        other => panic!("{:?}", other),
    }
    match expression("\nfalse").unwrap() {
        Expr::Literal(literal) => assert_eq!(literal.line_number, 2),
        other => panic!("{:?}", other),
    }
}

#[test]
fn factors_bind_tighter_than_terms() {
    assert_eq!(printed("1 + 2 * 3"), "(+ 1.0 (* 2.0 3.0))");
    assert_eq!(printed("1 * 2 + 3"), "(+ (* 1.0 2.0) 3.0)");
    assert_eq!(printed("1 - 2 / 3"), "(- 1.0 (/ 2.0 3.0))");
}

#[test]
fn binary_operators_group_from_the_left() {
    assert_eq!(printed("1 - 2 - 3"), "(- (- 1.0 2.0) 3.0)");
    assert_eq!(printed("8 / 4 / 2"), "(/ (/ 8.0 4.0) 2.0)");
    assert_eq!(printed("1 < 2 < 3"), "(< (< 1.0 2.0) 3.0)");
    assert_eq!(printed("1 == 2 != 3"), "(!= (== 1.0 2.0) 3.0)");
}

#[test]
fn comparison_binds_tighter_than_equality() {
    assert_eq!(printed("1 < 2 == 3 >= 4"), "(== (< 1.0 2.0) (>= 3.0 4.0))");
    assert_eq!(printed("1 + 2 > 3 - 4"), "(> (+ 1.0 2.0) (- 3.0 4.0))");
    assert_eq!(printed("1 <= 2"), "(<= 1.0 2.0)");
}

#[test]
fn unary_operators_nest() {
    assert_eq!(printed("-1"), "(- 1.0)");
    assert_eq!(printed("!true"), "(! true)");
    assert_eq!(printed("!!x"), "(! (! x))");
    assert_eq!(printed("- -1"), "(- (- 1.0))");
    assert_eq!(printed("-1 * -2"), "(* (- 1.0) (- 2.0))");
}

#[test]
fn grouping_overrides_precedence() {
    assert_eq!(printed("(1 + 2) * 3"), "(* (group (+ 1.0 2.0)) 3.0)");
    assert_eq!(printed("-3 * (1 + 2)"), "(* (- 3.0) (group (+ 1.0 2.0)))");
    assert_eq!(printed("((x))"), "(group (group x))");
}

#[test]
fn binary_node_carries_the_line_of_its_operator() {
    match expression("-3\n*\n(1 + 2)").unwrap() {
        Expr::Binary(binary) => {
            assert_eq!(binary.operator, BinaryOp::Mul);
            assert_eq!(binary.line_number, 2);
            match *binary.left {
                Expr::Unary(unary) => {
                    assert_eq!(unary.operator, UnaryOp::Minus);
                    assert_eq!(unary.line_number, 1);
                }
                other => panic!("{:?}", other),
            }
            match *binary.right {
                Expr::Grouping(grouping) => assert_eq!(grouping.line_number, 3),
                other => panic!("{:?}", other),
            }
        }
        other => panic!("{:?}", other),
    }
}

#[test]
fn trivia_are_stepped_over() {
    assert_eq!(printed("  1 // one\n\t+ // plus\n 2"), "(+ 1.0 2.0)");
}

#[test]
fn variable_keeps_its_token() {
    match expression("\n count").unwrap() {
        Expr::Variable(variable) => {
            assert_eq!(variable.name.line_number, 2);
            match variable.name.token_type {
                TokenType::Ident(name) => assert_eq!(name, "count"),
                other => panic!("{:?}", other),
            }
        }
        other => panic!("{:?}", other),
    }
}

#[test]
fn assignment_groups_from_the_right() {
    match expression("a = b = 3").unwrap() {
        Expr::Assign(outer) => {
            assert_eq!(outer.name.token_type.lexeme(), "a");
            match *outer.value {
                Expr::Assign(inner) => {
                    assert_eq!(inner.name.token_type.lexeme(), "b");
                    assert_eq!(value_of(&inner.value), 3.0);
                }
                other => panic!("{:?}", other),
            }
        }
        other => panic!("{:?}", other),
    }
}

#[test]
fn assignment_target_must_be_a_variable() {
    let error = expression("1 +\n2 = 3").unwrap_err();
    assert_eq!(error.message, "Invalid assignment target.");
    assert!(matches!(error.token.token_type, TokenType::Equal));
    assert_eq!(error.token.line_number, 2);
    let error = expression("(a) = 3").unwrap_err();
    assert_eq!(error.to_string(), "Invalid assignment target.");
}

#[test]
fn error_in_the_right_hand_side_comes_first() {
    let error = expression("1 = ;").unwrap_err();
    assert_eq!(error.message, "You should not be here");
    assert!(matches!(error.token.token_type, TokenType::Semicolon));
}

#[test]
fn missing_operand_is_an_error_at_the_next_token() {
    let error = expression("1 + ;").unwrap_err();
    assert!(matches!(error.token.token_type, TokenType::Semicolon));
    assert_eq!(error.token.line_number, 1);
    let error = expression("1 *").unwrap_err();
    assert!(matches!(error.token.token_type, TokenType::Eof));
    let error = expression("").unwrap_err();
    assert!(matches!(error.token.token_type, TokenType::Eof));
    assert_eq!(error.message, "You should not be here");
}

#[test]
fn unclosed_group() {
    let error = expression("(1 + 2").unwrap_err();
    assert_eq!(error.message, "Unexpected end of input.");
    assert!(matches!(error.token.token_type, TokenType::Eof));
    let error = expression("(1 + 2 ;").unwrap_err();
    assert_eq!(error.message, "Expect ')' after expression.");
    assert!(matches!(error.token.token_type, TokenType::Semicolon));
}

#[test]
fn statements_of_each_kind() {
    let stmts = program("var a = 1; var b; print a; a; { b = 2; }").unwrap();
    assert_eq!(stmts.len(), 5);
    match &stmts[0] {
        Stmt::Var(var) => {
            assert_eq!(var.name, "a");
            assert_eq!(value_of(var.initializer.as_ref().unwrap()), 1.0);
        }
        other => panic!("{:?}", other),
    }
    match &stmts[1] {
        Stmt::Var(var) => {
            assert_eq!(var.name, "b");
            assert!(var.initializer.is_none());
        }
        other => panic!("{:?}", other),
    }
    assert!(matches!(&stmts[2], Stmt::Print(print) if matches!(print.expression, Expr::Variable(_))));
    assert!(matches!(&stmts[3], Stmt::Expression(e) if matches!(e.expression, Expr::Variable(_))));
    match &stmts[4] {
        Stmt::Block(block) => {
            assert_eq!(block.statements.len(), 1);
            assert!(matches!(
                &block.statements[0],
                Stmt::Expression(e) if matches!(e.expression, Expr::Assign(_))
            ));
        }
        other => panic!("{:?}", other),
    }
}

#[test]
fn empty_program_and_empty_block() {
    assert!(program("").unwrap().is_empty());
    assert!(program("  // nothing\n").unwrap().is_empty());
    let stmts = program("{}").unwrap();
    assert!(matches!(&stmts[0], Stmt::Block(block) if block.statements.is_empty()));
}

#[test]
fn blocks_nest() {
    let stmts = program("{ var a = 1; { print a; } }").unwrap();
    match &stmts[0] {
        Stmt::Block(outer) => {
            assert_eq!(outer.statements.len(), 2);
            assert!(matches!(&outer.statements[1], Stmt::Block(inner) if inner.statements.len() == 1));
        }
        other => panic!("{:?}", other),
    }
}

#[test]
fn statement_messages() {
    assert_eq!(program("1").unwrap_err().message, "Unexpected end of input.");
    assert_eq!(program("1 2;").unwrap_err().message, "Expect ';' afrer expression.");
    assert_eq!(program("print 1 2;").unwrap_err().message, "Expect ';' after value.");
    assert_eq!(
        program("print 1").unwrap_err().message,
        "Unexpected end of input after print statement."
    );
    assert_eq!(program("var 1 = 2;").unwrap_err().message, "Expected an identifier.");
    assert_eq!(program("var").unwrap_err().message, "Expected an identifier.");
    assert_eq!(
        program("var a = 1 print a;").unwrap_err().message,
        "Expect ';' after variable declaration."
    );
    assert_eq!(program("var a").unwrap_err().message, "Unexpected end of input.");
    assert_eq!(program("{ print 1;").unwrap_err().message, "Unexpected end of input.");
    assert_eq!(program("}").unwrap_err().message, "You should not be here");
}

#[test]
fn name_token_of_a_failed_declaration() {
    let error = program("var\n1 = 2;").unwrap_err();
    assert_eq!(error.token.line_number, 2);
    assert!(matches!(error.token.token_type, TokenType::Number { .. }));
    let error = program("var").unwrap_err();
    assert!(matches!(error.token.token_type, TokenType::Keyword(Keyword::Var)));
}

#[test]
fn parse_error_at_a_semicolon() {
    let error = program("1 + ;").unwrap_err();
    assert!(matches!(error.token.token_type, TokenType::Semicolon));
    assert_eq!(error.token.line_number, 1);
}

#[test]
fn first_error_is_reported() {
    let error = program("1 + ;\nprint 2;\nvar = 3;\n").unwrap_err();
    assert_eq!(error.token.line_number, 1);
    assert!(matches!(error.token.token_type, TokenType::Semicolon));
    let error = program("print 1;\nvar 2;\n1 + ;").unwrap_err();
    assert_eq!(error.message, "Expected an identifier.");
    assert_eq!(error.token.line_number, 2);
}

#[test]
fn parser_resumes_after_the_semicolon() {
    // After the error the parser stands behind the `;` and reads on to the
    // end of input.
    let tokens = tokenize("1 + ; print 2; var x = 3;", &parse_number).unwrap();
    let mut parser = Parser::new(&tokens);
    assert!(parser.parse().is_err());
    let error = parser.parse_expr().unwrap_err();
    assert!(matches!(error.token.token_type, TokenType::Eof));
}

#[test]
fn recovery_stops_before_a_statement_keyword() {
    // `(` fails at `;`; dropping `;` ends the recovery, `print 2;` parses and
    // `)` fails again: the first error stays.
    let error = program("( ; print 2; )").unwrap_err();
    assert!(matches!(error.token.token_type, TokenType::Semicolon));
    // `+ 1 var a = 2;` recovers before `var`, so nothing after it is lost and
    // only one error arises.
    let error = program("+ 1 \n var a = 2; print a;").unwrap_err();
    assert!(matches!(error.token.token_type, TokenType::Plus));
}

#[test]
fn tokens_built_by_hand() {
    let tokens = vec![
        Token::new(TokenType::Keyword(Keyword::Print), 1),
        Token::new(TokenType::Whitespace, 1),
        Token::new(TokenType::String("hi".to_string()), 1),
        Token::new(TokenType::Semicolon, 1),
        Token::new(TokenType::NewLine, 1),
        Token::new(TokenType::Eof, 2),
    ];
    let stmts = Parser::new(&tokens).parse().unwrap();
    assert_eq!(stmts.len(), 1);
    assert!(matches!(&stmts[0], Stmt::Print(_)));
}

#[test]
fn printer_renders_assignments_as_nothing() {
    let expr = expression("a = 1").unwrap();
    assert!(PrintVisitor.print(&expr, &format_number).is_none());
    let expr = expression("1 + (a = 2)").unwrap();
    assert_eq!(PrintVisitor.print(&expr, &format_number).unwrap(), "(+ 1.0 (group ))");
}

#[test]
fn printer_joins_operands_with_spaces() {
    let one = expression("1").unwrap();
    let two = expression("x").unwrap();
    let three = expression("nil").unwrap();
    assert_eq!(
        PrintVisitor.parenthesize("list", &[&one, &two, &three], &format_number),
        "(list 1.0 x nil)"
    );
    assert_eq!(PrintVisitor.parenthesize("none", &[], &format_number), "(none )");
}

#[test]
fn printer_renders_a_print_statement_by_its_expression() {
    let stmts = program("print 1 + 2;").unwrap();
    match &stmts[0] {
        Stmt::Print(print) => {
            assert_eq!(PrintVisitor.print_statement(print, &format_number), "(+ 1.0 2.0)")
        }
        other => panic!("{:?}", other),
    }
}

#[test]
fn operators_as_text() {
    assert_eq!(BinaryOp::Plus.to_string(), "+");
    assert_eq!(BinaryOp::Minus.to_string(), "-");
    assert_eq!(BinaryOp::Mul.to_string(), "*");
    assert_eq!(BinaryOp::Div.to_string(), "/");
    assert_eq!(BinaryOp::Greater.to_string(), ">");
    assert_eq!(BinaryOp::GreaterEqual.to_string(), ">=");
    assert_eq!(BinaryOp::Less.to_string(), "<");
    assert_eq!(BinaryOp::LessEqual.to_string(), "<=");
    assert_eq!(BinaryOp::Equal.to_string(), "==");
    assert_eq!(BinaryOp::NotEqual.to_string(), "!=");
    assert_eq!(UnaryOp::Bang.to_string(), "!");
    assert_eq!(UnaryOp::Minus.to_string(), "-");
}

#[test]
fn literal_display() {
    assert_eq!(LiteralType::Nil.to_string(&format_number), "nil");
    assert_eq!(LiteralType::Bool { value: true }.to_string(&format_number), "true");
    assert_eq!(LiteralType::Bool { value: false }.to_string(&format_number), "false");
    assert_eq!(LiteralType::String { value: "s".to_string() }.to_string(&format_number), "s");
    let number = LiteralType::Number { value: Number::from_bits(2.0f64.to_bits()) };
    assert_eq!(number.to_string(&format_number), "2.0");
    let number = LiteralType::Number { value: Number::from_bits(0.75f64.to_bits()) };
    assert_eq!(number.to_string(&format_number), "0.75");
}

fn same_expr(a: &Expr, b: &Expr) -> bool {
    match (a, b) {
        (Expr::Literal(x), Expr::Literal(y)) => {
            x.line_number == y.line_number
                && match (&x.literal_type, &y.literal_type) {
                    (LiteralType::Nil, LiteralType::Nil) => true,
                    (LiteralType::Bool { value: p }, LiteralType::Bool { value: q }) => p == q,
                    (LiteralType::String { value: p }, LiteralType::String { value: q }) => p == q,
                    (LiteralType::Number { value: p }, LiteralType::Number { value: q }) => {
                        p.to_bits() == q.to_bits()
                    }
                    _ => false,
                }
        }
        (Expr::Variable(x), Expr::Variable(y)) => {
            x.name.line_number == y.name.line_number
                && x.name.token_type.lexeme() == y.name.token_type.lexeme()
        }
        (Expr::Grouping(x), Expr::Grouping(y)) => {
            x.line_number == y.line_number && same_expr(&x.expression, &y.expression)
        }
        (Expr::Unary(x), Expr::Unary(y)) => {
            x.operator == y.operator && x.line_number == y.line_number && same_expr(&x.right, &y.right)
        }
        (Expr::Binary(x), Expr::Binary(y)) => {
            x.operator == y.operator
                && x.line_number == y.line_number
                && same_expr(&x.left, &y.left)
                && same_expr(&x.right, &y.right)
        }
        (Expr::Assign(x), Expr::Assign(y)) => {
            x.name.token_type.lexeme() == y.name.token_type.lexeme() && same_expr(&x.value, &y.value)
        }
        _ => false,
    }
}

#[test]
fn rendering_of_an_atom_reads_back() {
    for source in ["nil", "true", "false", "x", "_tmp1", "caf\u{e9}", "nile", "variable"] {
        let expr = expression(source).unwrap();
        let rendering = PrintVisitor.print(&expr, &format_number).unwrap();
        assert_eq!(rendering, source);
        let tokens = tokenize(&rendering, &parse_number).unwrap();
        assert_eq!(tokens.len(), 2);
        let again = Parser::new(&tokens).parse_expr().unwrap();
        assert!(same_expr(&expr, &again), "{}", source);
    }
}

#[test]
fn rendering_of_other_expressions_is_no_source_text() {
    // A string is rendered without its quotes and reads back as a variable.
    let expr = expression("\"name\"").unwrap();
    let again = expression(&PrintVisitor.print(&expr, &format_number).unwrap()).unwrap();
    assert!(matches!(again, Expr::Variable(_)));
    // The prefix form puts the operator where the grammar wants an operand.
    let expr = expression("1 + 2").unwrap();
    assert!(expression(&PrintVisitor.print(&expr, &format_number).unwrap()).is_err());
}

#[test]
fn programs_of_the_grammar_parse() {
    let sources = [
        "print 1;",
        "var a;",
        "var a = 1 + 2 * 3 - 4 / 5;",
        "a = b = c;",
        "{ { } }",
        "{ var a = (1); print !a == -a; }",
        "1 < 2 == 2 > 1 != (3 <= 4) == (5 >= 6);",
        "print \"a\" + \"b\"; print nil; print true; print false;",
        "x;\ny;\n// done\n",
    ];
    for source in sources {
        assert!(program(source).is_ok(), "{}", source);
    }
}

#[test]
fn trivia_do_not_change_the_tree() {
    let plain = expression("a=(1+2)*-b<3==!c").unwrap();
    let spaced = expression(" a = ( 1 + 2 ) * - b < 3 == ! c ").unwrap();
    let noted = expression("a // target\n=\t(1 + 2) * -b < 3 == !c").unwrap();
    // Lines differ in the last one, so compare the renderings of the values.
    let show = |expr: &Expr| match expr {
        Expr::Assign(assign) => PrintVisitor.print(&assign.value, &format_number).unwrap(),
        other => panic!("{:?}", other),
    };
    assert!(same_expr(&plain, &spaced));
    assert_eq!(show(&plain), "(== (< (* (group (+ 1.0 2.0)) (- b)) 3.0) (! c))");
    assert_eq!(show(&plain), show(&noted));
}

#[test]
fn clones_are_equal_trees() {
    let expr = expression("a = -(1 + x) * \"s\" == nil").unwrap();
    assert!(same_expr(&expr.clone(), &expr));
    let stmts = program("var a = 1; { print a; { a = 2; } } a;").unwrap();
    let copies: Vec<Stmt> = stmts.iter().map(|stmt| stmt.clone()).collect();
    assert_eq!(format!("{:?}", copies), format!("{:?}", stmts));
}
