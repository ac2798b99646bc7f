use compiler::ast::{Expr, Ident, Statement};
use compiler::parser::{parse, ParseError};
use compiler::scanner::scan;
use compiler::token::{Token, TokenType};

fn parsed(source: &str) -> Result<Vec<Statement>, ParseError> {
    let tokens = scan(source.to_string()).expect("the text scans");
    parse(tokens).map(|stmts| stmts.into_vec())
}

fn statements(source: &str) -> Vec<Statement> {
    parsed(source).expect("the text parses")
}

fn expression(source: &str) -> Expr {
    let mut stmts = statements(&format!("{};", source));
    assert_eq!(stmts.len(), 1);
    match stmts.remove(0) {
        Statement::Expr(e) => e,
        other => panic!("no expression statement: {:?}", other),
    }
}

/// The expression with every operator applied in brackets.
fn shape(e: &Expr) -> String {
    match e {
        Expr::Unary(op, e) => format!("({} {})", op.lexeme, shape(e)),
        Expr::Binary(l, op, r) => format!("({} {} {})", shape(l), op.lexeme, shape(r)),
        Expr::Grouping(e) => format!("[{}]", shape(e)),
        Expr::Literal(t) => t.lexeme.clone(),
        Expr::Assignment(target, _, e) => format!("({} = {})", target.name(), shape(e)),
    }
}

fn error_token(source: &str) -> (String, TokenType) {
    match parsed(source) {
        Err(ParseError::IdentifierExpected(t)) => ("identifier".to_string(), t.token_type),
        Err(ParseError::SemicolonExpected(t)) => ("semicolon".to_string(), t.token_type),
        Err(ParseError::UnexpectedToken(t, what)) => (what, t.token_type),
        other => panic!("no error with a token: {:?}", other),
    }
}

#[test]
fn star_binds_tighter_than_plus() {
    assert_eq!(shape(&expression("1 + 2 * 3")), "(1 + (2 * 3))");
    assert_eq!(shape(&expression("1 * 2 + 3")), "((1 * 2) + 3)");
}

#[test]
fn every_level_folds_to_the_left() {
    assert_eq!(shape(&expression("1 - 2 - 3")), "((1 - 2) - 3)");
    assert_eq!(shape(&expression("8 / 4 / 2")), "((8 / 4) / 2)");
    assert_eq!(shape(&expression("a or b or c")), "((a or b) or c)");
    assert_eq!(shape(&expression("a and b and c")), "((a and b) and c)");
    assert_eq!(shape(&expression("a == b != c")), "((a == b) != c)");
    assert_eq!(shape(&expression("a < b <= c > d >= e")), "((((a < b) <= c) > d) >= e)");
}

#[test]
fn levels_from_or_down_to_unary() {
    assert_eq!(
        shape(&expression("a or b and c == d < e + f * -g")),
        "(a or (b and (c == (d < (e + (f * (- g)))))))"
    );
    assert_eq!(shape(&expression("true and false or true")), "((true and false) or true)");
}

#[test]
fn unary_operators_nest() {
    assert_eq!(shape(&expression("!!a")), "(! (! a))");
    assert_eq!(shape(&expression("-!-1")), "(- (! (- 1)))");
    assert_eq!(shape(&expression("1 - -2")), "(1 - (- 2))");
}

#[test]
fn grouping_overrides_the_levels() {
    assert_eq!(shape(&expression("(1 + 2) * 3")), "([(1 + 2)] * 3)");
    assert_eq!(shape(&expression("((a))")), "[[a]]");
}

#[test]
fn assignment_is_right_associative() {
    assert_eq!(shape(&expression("a = b = 1")), "(a = (b = 1))");
    assert_eq!(shape(&expression("a = 1 + 2")), "(a = (1 + 2))");
    assert_eq!(shape(&expression("a = b or c")), "(a = (b or c))");
}

#[test]
fn literals() {
    for source in ["false", "true", "nil", "12", "1.5", "\"s\"", "name"] {
        match expression(source) {
            Expr::Literal(t) => assert_eq!(t.lexeme, source),
            other => panic!("no literal: {:?}", other),
        }
    }
}

#[test]
fn assignment_target_must_be_a_bare_name() {
    assert_eq!(parsed("1 = 2;"), Err(ParseError::InvalidAssignmentTarget));
    assert_eq!(parsed("a + b = 2;"), Err(ParseError::InvalidAssignmentTarget));
    assert_eq!(parsed("(a) = 2;"), Err(ParseError::InvalidAssignmentTarget));
    assert_eq!(parsed("\"a\" = 2;"), Err(ParseError::InvalidAssignmentTarget));
    assert_eq!(parsed("a = b + c = 2;"), Err(ParseError::InvalidAssignmentTarget));
}

#[test]
fn error_on_the_right_side_comes_before_the_target() {
    assert_eq!(error_token("1 = ;"), ("expected expression".to_string(), TokenType::Semicolon));
}

#[test]
fn empty_program() {
    assert_eq!(statements(""), vec![]);
    assert_eq!(statements("// nothing"), vec![]);
}

#[test]
fn statements_in_order() {
    let stmts = statements("var x = 1; print x; ; x; { } if x { } if x { } else { ; }");
    assert_eq!(stmts.len(), 7);
    assert!(matches!(&stmts[0], Statement::Var(ident, Some(Expr::Literal(_))) if ident.name() == "x"));
    assert!(matches!(&stmts[1], Statement::Print(Expr::Literal(_))));
    assert!(matches!(&stmts[2], Statement::Empty));
    assert!(matches!(&stmts[3], Statement::Expr(Expr::Literal(_))));
    assert!(matches!(&stmts[4], Statement::Block(inner) if inner.is_empty()));
    assert!(matches!(&stmts[5], Statement::If(Expr::Literal(_), then, None)
        if matches!(&**then, Statement::Block(inner) if inner.is_empty())));
    assert!(matches!(&stmts[6], Statement::If(_, _, Some(otherwise))
        if matches!(&**otherwise, Statement::Block(inner) if inner.len() == 1)));
}

#[test]
fn var_without_value() {
    let stmts = statements("var x;");
    assert!(matches!(&stmts[0], Statement::Var(ident, None) if ident.name() == "x"));
}

#[test]
fn blocks_nest() {
    let stmts = statements("{ var a; { print a; { } } ; }");
    assert_eq!(stmts.len(), 1);
    match &stmts[0] {
        Statement::Block(outer) => {
            assert_eq!(outer.len(), 3);
            assert!(matches!(&outer[0], Statement::Var(_, None)));
            match &outer[1] {
                Statement::Block(inner) => {
                    assert_eq!(inner.len(), 2);
                    assert!(matches!(&inner[0], Statement::Print(_)));
                    assert!(matches!(&inner[1], Statement::Block(none) if none.is_empty()));
                },
                other => panic!("no block: {:?}", other),
            }
            assert!(matches!(&outer[2], Statement::Empty));
        },
        other => panic!("no block: {:?}", other),
    }
}

#[test]
fn missing_semicolon() {
    assert_eq!(error_token("print 1"), ("semicolon".to_string(), TokenType::Eof));
    assert_eq!(error_token("1 2;"), ("semicolon".to_string(), TokenType::Integer(2)));
    assert_eq!(error_token("var x = 1 print x;"), ("semicolon".to_string(), TokenType::Print));
    assert_eq!(error_token("x = 1 }"), ("semicolon".to_string(), TokenType::RightBrace));
}

#[test]
fn missing_identifier() {
    assert_eq!(error_token("var 1;"), ("identifier".to_string(), TokenType::Integer(1)));
    assert_eq!(error_token("var ;"), ("identifier".to_string(), TokenType::Semicolon));
    assert_eq!(error_token("var"), ("identifier".to_string(), TokenType::Eof));
    assert_eq!(error_token("var print;"), ("identifier".to_string(), TokenType::Print));
}

#[test]
fn var_needs_semicolon_or_equal() {
    assert_eq!(error_token("var x 1;"), ("expected ';' or '='".to_string(), TokenType::Integer(1)));
    assert_eq!(error_token("var x"), ("expected ';' or '='".to_string(), TokenType::Eof));
}

#[test]
fn unterminated_block() {
    assert_eq!(parsed("{"), Err(ParseError::UnterminatedBlock));
    assert_eq!(parsed("{ print 1;"), Err(ParseError::UnterminatedBlock));
    assert_eq!(parsed("{ { } "), Err(ParseError::UnterminatedBlock));
    assert_eq!(parsed("if x { print 1; "), Err(ParseError::UnterminatedBlock));
}

#[test]
fn closing_brace_without_block() {
    assert_eq!(error_token("}"), ("expected expression".to_string(), TokenType::RightBrace));
    assert_eq!(error_token("{ } }"), ("expected expression".to_string(), TokenType::RightBrace));
}

#[test]
fn if_needs_blocks() {
    assert_eq!(error_token("if x print 1;"), ("expected '{'".to_string(), TokenType::Print));
    assert_eq!(error_token("if x { } else print 1;"), ("expected '{'".to_string(), TokenType::Print));
    assert_eq!(error_token("if x { } else if y { }"), ("expected '{'".to_string(), TokenType::If));
    assert_eq!(error_token("if { }"), ("expected expression".to_string(), TokenType::LeftBrace));
}

#[test]
fn if_condition_may_stand_in_brackets() {
    let stmts = statements("if (x) { }");
    assert!(matches!(&stmts[0], Statement::If(Expr::Grouping(_), _, None)));
}

#[test]
fn missing_closing_bracket() {
    assert_eq!(error_token("(1 + 2;"), ("expected ')'".to_string(), TokenType::Semicolon));
    assert_eq!(error_token("(1"), ("expected ')'".to_string(), TokenType::Eof));
}

#[test]
fn what_is_no_expression() {
    assert_eq!(error_token("1 + ;"), ("expected expression".to_string(), TokenType::Semicolon));
    assert_eq!(error_token("print ;"), ("expected expression".to_string(), TokenType::Semicolon));
    assert_eq!(error_token("* 2;"), ("expected expression".to_string(), TokenType::Star));
    assert_eq!(error_token("1 +"), ("expected expression".to_string(), TokenType::Eof));
}

#[test]
fn words_reserved_without_a_rule_are_no_statements() {
    for source in ["while (x) { }", "for x;", "fun f;", "class c;", "return 1;", "this;", "super;"] {
        let (what, _) = error_token(source);
        assert_eq!(what, "expected expression");
    }
}

#[test]
fn parsing_stops_at_the_first_error() {
    assert_eq!(error_token("print 1 var"), ("semicolon".to_string(), TokenType::Var));
    assert_eq!(parsed("print 1; { print 2;"), Err(ParseError::UnterminatedBlock));
}

#[test]
fn statements_are_handed_out_in_order() {
    let tokens = scan("print 1; print 2;".to_string()).unwrap();
    let mut stmts = parse(tokens).unwrap();
    assert!(matches!(stmts.next(), Some(Statement::Print(Expr::Literal(t))) if t.lexeme == "1"));
    assert!(matches!(stmts.next(), Some(Statement::Print(Expr::Literal(t))) if t.lexeme == "2"));
    assert!(stmts.next().is_none());
    assert!(stmts.next().is_none());
}

#[test]
fn parse_goes_on_from_the_next_token() {
    let mut tokens = scan("print 1; print 2;".to_string()).unwrap();
    tokens.next();
    tokens.next();
    tokens.next();
    let stmts = parse(tokens).unwrap().into_vec();
    assert_eq!(stmts.len(), 1);
    assert!(matches!(&stmts[0], Statement::Print(Expr::Literal(t)) if t.lexeme == "2"));
}

#[test]
fn ident_is_made_of_identifier_tokens_only() {
    let mut tokens = scan("name 12".to_string()).unwrap();
    let name: Token = tokens.next().unwrap();
    let number: Token = tokens.next().unwrap();
    let ident = Ident::new(name.clone()).expect("an identifier");
    assert_eq!(ident.name(), "name");
    assert_eq!(ident.token(), &name);
    assert_eq!(ident.into_name(), "name");
    assert_eq!(Ident::new(number.clone()), Err(number));
}

#[test]
fn assignment_keeps_its_tokens() {
    match expression("a = 1") {
        Expr::Assignment(target, op, value) => {
            assert_eq!(target.name(), "a");
            assert_eq!(target.token().token_type, TokenType::Identifier("a".to_string()));
            assert_eq!(op.token_type, TokenType::Equal);
            assert!(matches!(*value, Expr::Literal(t) if t.token_type == TokenType::Integer(1)));
        },
        other => panic!("no assignment: {:?}", other),
    }
}
