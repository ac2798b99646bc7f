use compiler::ast::{Expr, Statement};
use compiler::interpreter::Interpreter;
use compiler::parser::ParseError;
use compiler::program::{execute, run, scan_and_parse, CoreError};
use compiler::scanner::ScanError;
use compiler::value::{ArithOp, Decimal, RValue, RuntimeError};

/// What a decimal amounts to.
fn amount(d: &Decimal) -> f64 {
    match d {
        Decimal::Literal(text) => text.parse().unwrap(),
        Decimal::Int(i) => *i as f64,
        Decimal::Neg(d) => -amount(d),
        Decimal::Binary(op, l, r) => match op {
            ArithOp::Add => amount(l) + amount(r),
            ArithOp::Sub => amount(l) - amount(r),
            ArithOp::Mul => amount(l) * amount(r),
            ArithOp::Div => amount(l) / amount(r),
        },
    }
}

fn text_of(value: &RValue) -> String {
    match value {
        RValue::Decimal(d) => format!("{}", amount(d)),
        other => other.render().unwrap(),
    }
}

/// What running `source` prints, line by line, and how it ends.
fn outcome(source: &str) -> (Vec<String>, Result<(), CoreError>) {
    let mut interpreter = Interpreter::new();
    let result = run(source.to_string(), &mut interpreter);
    (interpreter.printed().iter().map(text_of).collect(), result)
}

fn output(source: &str) -> Vec<String> {
    let (printed, result) = outcome(source);
    assert_eq!(result, Ok(()));
    printed
}

fn runtime_error(source: &str) -> RuntimeError {
    match outcome(source).1 {
        Err(CoreError::Runtime(e)) => e,
        other => panic!("no run-time error: {:?}", other),
    }
}

fn mismatch(op: &str, operands: &str) -> RuntimeError {
    RuntimeError::TypeMismatch(op.to_string(), operands.to_string())
}

fn statement(source: &str) -> Statement {
    let mut stmts = scan_and_parse(source.to_string()).unwrap().into_vec();
    assert_eq!(stmts.len(), 1);
    stmts.remove(0)
}

fn expression(source: &str) -> Expr {
    match statement(&format!("{};", source)) {
        Statement::Expr(e) => e,
        other => panic!("no expression statement: {:?}", other),
    }
}

fn while_loop(cond: &str, body: &str) -> Statement {
    Statement::While(expression(cond), Box::new(statement(body)))
}

#[test]
fn declared_variable_prints() {
    assert_eq!(output("var x = 1; print x;"), vec!["1"]);
}

#[test]
fn shadowing_does_not_leak_out_of_the_block() {
    assert_eq!(output("var x = 1; { var x = 2; print x; } print x;"), vec!["2", "1"]);
}

#[test]
fn variable_without_value_reads_as_nil() {
    assert_eq!(output("var x; print x;"), vec!["nil"]);
}

#[test]
fn assignment_needs_a_declaration() {
    let (printed, result) = outcome("x = 1;");
    assert_eq!(
        result,
        Err(CoreError::Runtime(RuntimeError::AssignToUndeclaredVariable("x".to_string())))
    );
    assert!(printed.is_empty());
    let (printed, result) = outcome("x = 1; print 2;");
    assert!(result.is_err());
    assert!(printed.is_empty());
}

#[test]
fn loop_with_false_condition_makes_no_pass() {
    let mut interpreter = Interpreter::new();
    assert_eq!(run("var x = 0;".to_string(), &mut interpreter), Ok(()));
    let stmt = while_loop("(x and true)", "{ print 1; }");
    assert_eq!(interpreter.evaluate(stmt), Ok(()));
    assert!(interpreter.printed().is_empty());
}

#[test]
fn loop_evaluates_its_condition_before_every_pass() {
    let mut interpreter = Interpreter::new();
    assert_eq!(run("var x = 3;".to_string(), &mut interpreter), Ok(()));
    let stmt = while_loop("x", "{ x = x - 1; print x; }");
    assert_eq!(interpreter.evaluate(stmt), Ok(()));
    let printed: Vec<String> = interpreter.printed().iter().map(text_of).collect();
    assert_eq!(printed, vec!["2", "1", "0"]);
    assert_eq!(interpreter.environment().get_var(&"x".to_string()), Ok(RValue::Int(0)));
}

#[test]
fn loop_stops_at_the_limit() {
    let mut interpreter = Interpreter::with_limit(5);
    let stmt = while_loop("true", "{ print 1; }");
    assert_eq!(interpreter.evaluate(stmt), Err(RuntimeError::LoopLimit));
    assert_eq!(interpreter.printed().len(), 5);
    let mut interpreter = Interpreter::with_limit(0);
    assert_eq!(interpreter.evaluate(while_loop("true", ";")), Err(RuntimeError::LoopLimit));
    assert_eq!(interpreter.evaluate(while_loop("false", ";")), Ok(()));
}

#[test]
fn every_loop_has_the_whole_limit() {
    let mut interpreter = Interpreter::with_limit(3);
    assert_eq!(run("var i = 3; var j = 0; var n = 0;".to_string(), &mut interpreter), Ok(()));
    let inner = Statement::While(
        expression("j"),
        Box::new(statement("{ j = j - 1; n = n + 1; }")),
    );
    let body = Statement::Block(vec![statement("i = i - 1;"), statement("j = 3;"), inner]);
    let outer = Statement::While(expression("i"), Box::new(body));
    assert_eq!(interpreter.evaluate(outer), Ok(()));
    assert_eq!(interpreter.environment().get_var(&"n".to_string()), Ok(RValue::Int(9)));
}

#[test]
fn loop_error_in_the_body_ends_the_loop() {
    let mut interpreter = Interpreter::new();
    let stmt = while_loop("true", "{ print 1; print y; }");
    assert_eq!(
        interpreter.evaluate(stmt),
        Err(RuntimeError::UndefinedVariable("y".to_string()))
    );
    assert_eq!(interpreter.printed().len(), 1);
    assert_eq!(interpreter.environment().depth(), 1);
}

#[test]
fn precedence_in_arithmetic() {
    assert_eq!(output("print 1 + 2 * 3;"), vec!["7"]);
    assert_eq!(output("print (1 + 2) * 3;"), vec!["9"]);
    assert_eq!(output("print 10 - 4 - 3;"), vec!["3"]);
    assert_eq!(output("print 2 * 3 + 4 * 5;"), vec!["26"]);
}

#[test]
fn strings_join() {
    assert_eq!(output("print \"a\" + \"b\";"), vec!["ab"]);
    assert_eq!(output("print \"\" + \"\";"), vec![""]);
    assert_eq!(output("var s = \"x\"; s = s + s + \"y\"; print s;"), vec!["xxy"]);
}

#[test]
fn integer_and_string_do_not_add() {
    let (printed, result) = outcome("print 1 + \"b\";");
    assert_eq!(result, Err(CoreError::Runtime(mismatch("+", "int, string"))));
    assert!(printed.is_empty());
    assert_eq!(runtime_error("print \"b\" + 1;"), mismatch("+", "string, int"));
}

#[test]
fn strings_take_no_other_operator() {
    assert_eq!(runtime_error("print \"a\" - \"b\";"), mismatch("-", "string, string"));
    assert_eq!(runtime_error("print \"a\" * \"b\";"), mismatch("*", "string, string"));
    assert_eq!(runtime_error("print \"a\" / \"b\";"), mismatch("/", "string, string"));
}

#[test]
fn short_circuit() {
    assert_eq!(output("print true and false or true;"), vec!["true"]);
    assert_eq!(output("print true or missing;"), vec!["true"]);
    assert_eq!(output("print false and missing;"), vec!["false"]);
    assert_eq!(runtime_error("print false or missing;"), RuntimeError::UndefinedVariable(
        "missing".to_string()
    ));
    assert_eq!(runtime_error("print true and missing;"), RuntimeError::UndefinedVariable(
        "missing".to_string()
    ));
}

#[test]
fn short_circuit_skips_assignments() {
    assert_eq!(output("var x = 0; print true or (x = 1); print x;"), vec!["true", "0"]);
    assert_eq!(output("var x = 0; print false and (x = 1); print x;"), vec!["false", "0"]);
    assert_eq!(output("var x = 0; print false or (x = 1); print x;"), vec!["true", "1"]);
    assert_eq!(output("var x = 0; print true and (x = 0); print x;"), vec!["false", "0"]);
}

#[test]
fn logic_gives_booleans() {
    assert_eq!(output("print 1 and 2;"), vec!["true"]);
    assert_eq!(output("print 0 or 0;"), vec!["false"]);
    assert_eq!(output("print nil or 5;"), vec!["true"]);
    assert_eq!(output("print 3 or nil;"), vec!["true"]);
    assert_eq!(output("print nil and 5;"), vec!["false"]);
}

#[test]
fn redeclaration_in_one_scope() {
    let (printed, result) = outcome("var x = 1; var x = 2;");
    assert_eq!(
        result,
        Err(CoreError::Runtime(RuntimeError::DuplicateDeclaration("x".to_string())))
    );
    assert!(printed.is_empty());
    assert_eq!(output("var x = 1; { var x = 2; { var x = 3; print x; } print x; }"), vec!["3", "2"]);
    assert_eq!(
        runtime_error("{ var x; var x; }"),
        RuntimeError::DuplicateDeclaration("x".to_string())
    );
    assert_eq!(output("{ var x = 1; } { var x = 2; print x; }"), vec!["2"]);
}

#[test]
fn first_declaration_stays_after_a_duplicate() {
    let mut interpreter = Interpreter::new();
    assert!(run("var x = 1; var x = 2;".to_string(), &mut interpreter).is_err());
    assert_eq!(interpreter.environment().get_var(&"x".to_string()), Ok(RValue::Int(1)));
}

#[test]
fn undefined_variable() {
    assert_eq!(runtime_error("print x;"), RuntimeError::UndefinedVariable("x".to_string()));
    assert_eq!(runtime_error("{ var x = 1; } print x;"), RuntimeError::UndefinedVariable(
        "x".to_string()
    ));
    assert_eq!(runtime_error("var y = x;"), RuntimeError::UndefinedVariable("x".to_string()));
}

#[test]
fn a_bare_name_is_not_read() {
    assert_eq!(output("x;"), Vec::<String>::new());
}

#[test]
fn assignment_reaches_the_nearest_scope() {
    assert_eq!(output("var x = 1; { x = 2; } print x;"), vec!["2"]);
    assert_eq!(output("var x = 1; { var x = 5; x = 2; print x; } print x;"), vec!["2", "1"]);
    assert_eq!(output("var x; { { x = 7; } } print x;"), vec!["7"]);
}

#[test]
fn assignment_chains() {
    assert_eq!(output("var a; var b; a = b = 1; print a; print b;"), vec!["1", "1"]);
    assert_eq!(output("var a = 1; print a = 2;"), vec!["2"]);
    assert_eq!(output("var a = 1; var b = a = 5; print b;"), vec!["5"]);
}

#[test]
fn names_are_read_after_both_sides_are_evaluated() {
    assert_eq!(output("var a = 1; print a + (a = 5);"), vec!["10"]);
    assert_eq!(output("var a = 1; print (a = 5) + a;"), vec!["10"]);
}

#[test]
fn integer_arithmetic() {
    assert_eq!(output("print 7 - 10;"), vec!["-3"]);
    assert_eq!(output("print 6 * 7;"), vec!["42"]);
    assert_eq!(output("print 7 / 2;"), vec!["3"]);
    assert_eq!(output("print (0 - 7) / 2;"), vec!["-3"]);
    assert_eq!(output("print 7 / (0 - 2);"), vec!["-3"]);
    assert_eq!(output("print (0 - 7) / (0 - 2);"), vec!["3"]);
    assert_eq!(output("print 0 / 5;"), vec!["0"]);
}

#[test]
fn integer_arithmetic_wraps_around() {
    assert_eq!(output("print 9223372036854775807 + 1;"), vec!["-9223372036854775808"]);
    assert_eq!(output("print 0 - 9223372036854775807 - 2;"), vec!["9223372036854775807"]);
    assert_eq!(output("print 9223372036854775807 * 2;"), vec!["-2"]);
    assert_eq!(
        output("print (0 - 9223372036854775807 - 1) / (0 - 1);"),
        vec!["-9223372036854775808"]
    );
    assert_eq!(output("print -(0 - 9223372036854775807 - 1);"), vec!["-9223372036854775808"]);
}

#[test]
fn division_by_zero() {
    assert_eq!(runtime_error("print 1 / 0;"), RuntimeError::DivisionByZero);
    assert_eq!(runtime_error("print 0 / 0;"), RuntimeError::DivisionByZero);
}

#[test]
fn decimals_widen_integers() {
    assert_eq!(output("print 1.5 + 2;"), vec!["3.5"]);
    assert_eq!(output("print 2 + 1.5;"), vec!["3.5"]);
    assert_eq!(output("print 1.5 + 1.5;"), vec!["3"]);
    assert_eq!(output("print 1 - 0.5;"), vec!["0.5"]);
    assert_eq!(output("print 1.5 * 4;"), vec!["6"]);
    assert_eq!(output("print 1 / 4.0;"), vec!["0.25"]);
    assert_eq!(output("print 1.0 / 0;"), vec!["inf"]);
    assert_eq!(output("print 2.5;"), vec!["2.5"]);
    assert_eq!(output("print 1.;"), vec!["1"]);
}

#[test]
fn decimal_arithmetic_is_written_down() {
    let mut interpreter = Interpreter::new();
    assert_eq!(run("print 1 + 2.5 * 2;".to_string(), &mut interpreter), Ok(()));
    assert_eq!(
        interpreter.printed(),
        &vec![RValue::Decimal(Decimal::Binary(
            ArithOp::Add,
            Box::new(Decimal::Int(1)),
            Box::new(Decimal::Binary(
                ArithOp::Mul,
                Box::new(Decimal::Literal("2.5".to_string())),
                Box::new(Decimal::Int(2))
            ))
        ))]
    );
    assert_eq!(amount(&Decimal::Binary(
        ArithOp::Add,
        Box::new(Decimal::Int(1)),
        Box::new(Decimal::Literal("2.5".to_string()))
    )), 3.5);
}

#[test]
fn decimals_and_strings_do_not_mix() {
    assert_eq!(runtime_error("print 1.5 + \"a\";"), mismatch("+", "decimal, string"));
    assert_eq!(runtime_error("print nil + 1;"), mismatch("+", "nil, int"));
    assert_eq!(runtime_error("print true * 2;"), mismatch("*", "boolean, int"));
    assert_eq!(runtime_error("print 1 - nil;"), mismatch("-", "int, nil"));
}

#[test]
fn unary_operators() {
    assert_eq!(output("print !true;"), vec!["false"]);
    assert_eq!(output("print !false;"), vec!["true"]);
    assert_eq!(output("print !!true;"), vec!["true"]);
    assert_eq!(output("print -5;"), vec!["-5"]);
    assert_eq!(output("print --5;"), vec!["5"]);
    assert_eq!(output("print -1.5;"), vec!["-1.5"]);
    assert_eq!(output("var x = 3; print -x;"), vec!["-3"]);
    assert_eq!(runtime_error("print !1;"), mismatch("!", "int"));
    assert_eq!(runtime_error("print !nil;"), mismatch("!", "nil"));
    assert_eq!(runtime_error("print -true;"), mismatch("-", "boolean"));
    assert_eq!(runtime_error("print -\"a\";"), mismatch("-", "string"));
    assert_eq!(runtime_error("print -x;"), RuntimeError::UndefinedVariable("x".to_string()));
}

#[test]
fn truthiness() {
    assert_eq!(output("if true { print 1; }"), vec!["1"]);
    assert_eq!(output("if false { print 1; }"), Vec::<String>::new());
    assert_eq!(output("if 5 { print 1; } else { print 2; }"), vec!["1"]);
    assert_eq!(output("if 0 { print 1; } else { print 2; }"), vec!["2"]);
    assert_eq!(output("if nil { print 1; } else { print 2; }"), vec!["2"]);
    assert_eq!(output("var x; if x { print 1; } else { print 2; }"), vec!["2"]);
    assert_eq!(runtime_error("if \"a\" { print 1; }"), mismatch("truthiness", "string"));
    assert_eq!(runtime_error("if 1.5 { print 1; }"), mismatch("truthiness", "decimal"));
    assert_eq!(runtime_error("print \"\" or true;"), mismatch("truthiness", "string"));
    assert_eq!(runtime_error("print true and 0.0;"), mismatch("truthiness", "decimal"));
}

#[test]
fn operators_that_are_parsed_but_not_defined() {
    assert_eq!(runtime_error("print 1 == 1;"), mismatch("==", "not an arithmetic operator"));
    assert_eq!(runtime_error("print 1 != 2;"), mismatch("!=", "not an arithmetic operator"));
    assert_eq!(runtime_error("print 1 < 2;"), mismatch("<", "not an arithmetic operator"));
    assert_eq!(runtime_error("print 1 >= 2;"), mismatch(">=", "not an arithmetic operator"));
    assert_eq!(output("var x = 0; if true or (x == 1) { print x; }"), vec!["0"]);
}

#[test]
fn printing() {
    assert_eq!(output("print \"a b\";"), vec!["a b"]);
    assert_eq!(output("print 0;"), vec!["0"]);
    assert_eq!(output("print 1234567890;"), vec!["1234567890"]);
    assert_eq!(output("print true; print false; print nil;"), vec!["true", "false", "nil"]);
}

#[test]
fn what_was_done_before_an_error_stays() {
    let mut interpreter = Interpreter::new();
    let result = run("var x = 1; print x; x = 2; print y; print 3;".to_string(), &mut interpreter);
    assert_eq!(result, Err(CoreError::Runtime(RuntimeError::UndefinedVariable("y".to_string()))));
    assert_eq!(interpreter.printed(), &vec![RValue::Int(1)]);
    assert_eq!(interpreter.environment().get_var(&"x".to_string()), Ok(RValue::Int(2)));
    let mut interpreter = Interpreter::new();
    let result = run("var a = 1; print (a = 5) + nope;".to_string(), &mut interpreter);
    assert!(result.is_err());
    assert_eq!(interpreter.environment().get_var(&"a".to_string()), Ok(RValue::Int(5)));
}

#[test]
fn a_block_closes_its_scope_after_an_error() {
    let mut interpreter = Interpreter::new();
    let result = run("var x = 1; { var y = 2; { print z; } }".to_string(), &mut interpreter);
    assert_eq!(result, Err(CoreError::Runtime(RuntimeError::UndefinedVariable("z".to_string()))));
    assert_eq!(interpreter.environment().depth(), 1);
    assert_eq!(
        interpreter.environment().get_var(&"y".to_string()),
        Err(RuntimeError::UndefinedVariable("y".to_string()))
    );
    assert_eq!(run("var y = 3; print x + y;".to_string(), &mut interpreter), Ok(()));
    assert_eq!(interpreter.printed(), &vec![RValue::Int(4)]);
}

#[test]
fn bindings_last_from_one_text_to_the_next() {
    let mut interpreter = Interpreter::new();
    assert_eq!(run("var x = 1;".to_string(), &mut interpreter), Ok(()));
    assert_eq!(run("x = x + 1;".to_string(), &mut interpreter), Ok(()));
    assert!(run("print ;".to_string(), &mut interpreter).is_err());
    assert!(run("print #".to_string(), &mut interpreter).is_err());
    assert_eq!(run("print x;".to_string(), &mut interpreter), Ok(()));
    assert_eq!(interpreter.take_output(), vec![RValue::Int(2)]);
    assert!(interpreter.printed().is_empty());
    assert_eq!(run("print x;".to_string(), &mut interpreter), Ok(()));
    assert_eq!(interpreter.printed(), &vec![RValue::Int(2)]);
}

#[test]
fn a_text_that_does_not_scan_or_parse_does_nothing() {
    let (printed, result) = outcome("print 1; print \"");
    assert_eq!(result, Err(CoreError::Scan(ScanError::UnterminatedString)));
    assert!(printed.is_empty());
    let (printed, result) = outcome("print 1; 2 = 3;");
    assert_eq!(result, Err(CoreError::Parse(ParseError::InvalidAssignmentTarget)));
    assert!(printed.is_empty());
}

#[test]
fn scan_and_parse_gives_the_statements() {
    let stmts = scan_and_parse("var x; print x;".to_string()).unwrap().into_vec();
    assert_eq!(stmts.len(), 2);
    assert_eq!(
        scan_and_parse("@".to_string()).err(),
        Some(CoreError::Scan(ScanError::UnexpectedToken('@')))
    );
    assert_eq!(
        scan_and_parse("{".to_string()).err(),
        Some(CoreError::Parse(ParseError::UnterminatedBlock))
    );
}

#[test]
fn execute_runs_statements_in_order() {
    let stmts = scan_and_parse("var x = 1; print x; print y; print 2;".to_string())
        .unwrap()
        .into_vec();
    let mut interpreter = Interpreter::default();
    assert_eq!(
        execute(stmts, &mut interpreter),
        Err(RuntimeError::UndefinedVariable("y".to_string()))
    );
    assert_eq!(interpreter.printed(), &vec![RValue::Int(1)]);
    assert_eq!(execute(vec![], &mut interpreter), Ok(()));
}

#[test]
fn a_literal_of_a_token_that_is_none() {
    let mut interpreter = Interpreter::new();
    let plus = match expression("1 + 2") {
        Expr::Binary(_, op, _) => op,
        other => panic!("no sum: {:?}", other),
    };
    assert_eq!(
        interpreter.evaluate(Statement::Print(Expr::Literal(plus.clone()))),
        Err(mismatch("+", "not a value"))
    );
    let one = Box::new(expression("1"));
    assert_eq!(
        interpreter.evaluate(Statement::Expr(Expr::Unary(plus, one))),
        Err(mismatch("+", "not a unary operator"))
    );
}

#[test]
fn if_takes_one_branch() {
    assert_eq!(output("var x = 1; if x { x = 2; } else { x = 3; } print x;"), vec!["2"]);
    assert_eq!(output("var x = 0; if x { x = 2; } else { x = 3; } print x;"), vec!["3"]);
    assert_eq!(output("var x = 0; if x { x = 2; } print x;"), vec!["0"]);
    assert_eq!(output("if true { var y = 1; print y; }"), vec!["1"]);
    assert_eq!(runtime_error("if true { var y = 1; } print y;"), RuntimeError::UndefinedVariable(
        "y".to_string()
    ));
}
