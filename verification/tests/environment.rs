use compiler::environment::Environment;
use compiler::scanner::scan;
use compiler::token::Token;
use compiler::value::{render_int, ArithOp, Decimal, RValue, RuntimeError, Value};

fn name(s: &str) -> String {
    s.to_string()
}

fn token(source: &str) -> Token {
    scan(source.to_string()).unwrap().next().unwrap()
}

#[test]
fn new_environment_has_one_empty_scope() {
    let env = Environment::new();
    assert_eq!(env.depth(), 1);
    assert_eq!(env.get_var(&name("x")), Err(RuntimeError::UndefinedVariable(name("x"))));
    assert_eq!(Environment::default().depth(), 1);
}

#[test]
fn declare_then_read() {
    let mut env = Environment::new();
    assert_eq!(env.new_var(name("x"), Some(RValue::Int(1))), Ok(()));
    assert_eq!(env.new_var(name("s"), Some(RValue::String(name("a")))), Ok(()));
    assert_eq!(env.get_var(&name("x")), Ok(RValue::Int(1)));
    assert_eq!(env.get_var(&name("s")), Ok(RValue::String(name("a"))));
}

#[test]
fn declared_without_value_reads_as_nil() {
    let mut env = Environment::new();
    assert_eq!(env.new_var(name("x"), None), Ok(()));
    assert_eq!(env.get_var(&name("x")), Ok(RValue::Null));
}

#[test]
fn declaring_twice_in_one_scope_fails() {
    let mut env = Environment::new();
    assert_eq!(env.new_var(name("x"), Some(RValue::Int(1))), Ok(()));
    assert_eq!(
        env.new_var(name("x"), Some(RValue::Int(2))),
        Err(RuntimeError::DuplicateDeclaration(name("x")))
    );
    assert_eq!(env.new_var(name("x"), None), Err(RuntimeError::DuplicateDeclaration(name("x"))));
    assert_eq!(env.get_var(&name("x")), Ok(RValue::Int(1)));
}

#[test]
fn declaring_again_in_a_nested_scope_shadows() {
    let mut env = Environment::new();
    assert_eq!(env.new_var(name("x"), Some(RValue::Int(1))), Ok(()));
    env.new_scope();
    assert_eq!(env.depth(), 2);
    assert_eq!(env.get_var(&name("x")), Ok(RValue::Int(1)));
    assert_eq!(env.new_var(name("x"), Some(RValue::Int(2))), Ok(()));
    assert_eq!(env.get_var(&name("x")), Ok(RValue::Int(2)));
    env.end_scope();
    assert_eq!(env.depth(), 1);
    assert_eq!(env.get_var(&name("x")), Ok(RValue::Int(1)));
}

#[test]
fn names_die_with_their_scope() {
    let mut env = Environment::new();
    env.new_scope();
    assert_eq!(env.new_var(name("y"), Some(RValue::Boolean(true))), Ok(()));
    env.end_scope();
    assert_eq!(env.get_var(&name("y")), Err(RuntimeError::UndefinedVariable(name("y"))));
    env.new_scope();
    assert_eq!(env.new_var(name("y"), None), Ok(()));
}

#[test]
fn assignment_changes_the_nearest_scope_that_holds_the_name() {
    let mut env = Environment::new();
    assert_eq!(env.new_var(name("x"), Some(RValue::Int(1))), Ok(()));
    assert_eq!(env.new_var(name("y"), None), Ok(()));
    env.new_scope();
    assert_eq!(env.new_var(name("x"), Some(RValue::Int(2))), Ok(()));
    env.new_scope();
    assert_eq!(env.set_var(name("x"), RValue::Int(3)), Ok(()));
    assert_eq!(env.set_var(name("y"), RValue::Int(4)), Ok(()));
    assert_eq!(env.get_var(&name("x")), Ok(RValue::Int(3)));
    env.end_scope();
    assert_eq!(env.get_var(&name("x")), Ok(RValue::Int(3)));
    env.end_scope();
    assert_eq!(env.get_var(&name("x")), Ok(RValue::Int(1)));
    assert_eq!(env.get_var(&name("y")), Ok(RValue::Int(4)));
}

#[test]
fn assignment_declares_nothing() {
    let mut env = Environment::new();
    assert_eq!(
        env.set_var(name("x"), RValue::Int(1)),
        Err(RuntimeError::AssignToUndeclaredVariable(name("x")))
    );
    assert_eq!(env.get_var(&name("x")), Err(RuntimeError::UndefinedVariable(name("x"))));
    assert_eq!(env.new_var(name("x"), None), Ok(()));
    assert_eq!(env.set_var(name("x"), RValue::Int(1)), Ok(()));
    assert_eq!(env.get_var(&name("x")), Ok(RValue::Int(1)));
}

#[test]
fn many_names_in_one_scope() {
    let mut env = Environment::new();
    for i in 0..50 {
        assert_eq!(env.new_var(format!("v{}", i), Some(RValue::Int(i))), Ok(()));
    }
    for i in 0..50 {
        assert_eq!(env.set_var(format!("v{}", i), RValue::Int(i * 2)), Ok(()));
    }
    for i in 0..50 {
        assert_eq!(env.get_var(&format!("v{}", i)), Ok(RValue::Int(i * 2)));
    }
}

#[test]
fn truthiness_of_values() {
    assert_eq!(RValue::Boolean(true).is_truthy(), Ok(true));
    assert_eq!(RValue::Boolean(false).is_truthy(), Ok(false));
    assert_eq!(RValue::Int(7).is_truthy(), Ok(true));
    assert_eq!(RValue::Int(-1).is_truthy(), Ok(true));
    assert_eq!(RValue::Int(0).is_truthy(), Ok(false));
    assert_eq!(RValue::Null.is_truthy(), Ok(false));
    assert_eq!(
        RValue::String(name("")).is_truthy(),
        Err(RuntimeError::TypeMismatch(name("truthiness"), name("string")))
    );
    assert_eq!(
        RValue::Decimal(Decimal::Int(1)).is_truthy(),
        Err(RuntimeError::TypeMismatch(name("truthiness"), name("decimal")))
    );
}

#[test]
fn arithmetic_on_values() {
    assert_eq!(RValue::Int(2).add(&RValue::Int(3)), Ok(RValue::Int(5)));
    assert_eq!(RValue::Int(2).sub(&RValue::Int(3)), Ok(RValue::Int(-1)));
    assert_eq!(RValue::Int(2).mul(&RValue::Int(3)), Ok(RValue::Int(6)));
    assert_eq!(RValue::Int(7).div(&RValue::Int(2)), Ok(RValue::Int(3)));
    assert_eq!(RValue::Int(-7).div(&RValue::Int(2)), Ok(RValue::Int(-3)));
    assert_eq!(RValue::Int(7).div(&RValue::Int(0)), Err(RuntimeError::DivisionByZero));
    assert_eq!(RValue::Int(i64::MIN).div(&RValue::Int(-1)), Ok(RValue::Int(i64::MIN)));
    assert_eq!(RValue::Int(i64::MAX).add(&RValue::Int(1)), Ok(RValue::Int(i64::MIN)));
    assert_eq!(RValue::Int(i64::MIN).sub(&RValue::Int(1)), Ok(RValue::Int(i64::MAX)));
    assert_eq!(RValue::Int(i64::MAX).mul(&RValue::Int(i64::MAX)), Ok(RValue::Int(1)));
    assert_eq!(
        RValue::String(name("a")).add(&RValue::String(name("b"))),
        Ok(RValue::String(name("ab")))
    );
    assert_eq!(
        RValue::Int(1).arithmetic(ArithOp::Mul, &RValue::Decimal(Decimal::Literal(name("2.5")))),
        Ok(RValue::Decimal(Decimal::Binary(
            ArithOp::Mul,
            Box::new(Decimal::Int(1)),
            Box::new(Decimal::Literal(name("2.5")))
        )))
    );
    assert_eq!(
        RValue::Decimal(Decimal::Int(1)).sub(&RValue::Int(2)),
        Ok(RValue::Decimal(Decimal::Binary(
            ArithOp::Sub,
            Box::new(Decimal::Int(1)),
            Box::new(Decimal::Int(2))
        )))
    );
    assert_eq!(
        RValue::Null.add(&RValue::Boolean(true)),
        Err(RuntimeError::TypeMismatch(name("+"), name("nil, boolean")))
    );
    assert_eq!(
        RValue::String(name("a")).div(&RValue::String(name("b"))),
        Err(RuntimeError::TypeMismatch(name("/"), name("string, string")))
    );
}

#[test]
fn negations() {
    assert_eq!(RValue::Boolean(true).not(), Ok(RValue::Boolean(false)));
    assert_eq!(RValue::Int(5).neg(), Ok(RValue::Int(-5)));
    assert_eq!(RValue::Int(i64::MIN).neg(), Ok(RValue::Int(i64::MIN)));
    assert_eq!(
        RValue::Decimal(Decimal::Int(5)).neg(),
        Ok(RValue::Decimal(Decimal::Neg(Box::new(Decimal::Int(5)))))
    );
    assert_eq!(
        RValue::Int(1).not(),
        Err(RuntimeError::TypeMismatch(name("!"), name("int")))
    );
    assert_eq!(
        RValue::Null.neg(),
        Err(RuntimeError::TypeMismatch(name("-"), name("nil")))
    );
}

#[test]
fn integers_in_base_ten() {
    assert_eq!(render_int(0), "0");
    assert_eq!(render_int(7), "7");
    assert_eq!(render_int(10), "10");
    assert_eq!(render_int(-1), "-1");
    assert_eq!(render_int(1234567890), "1234567890");
    assert_eq!(render_int(i64::MAX), "9223372036854775807");
    assert_eq!(render_int(i64::MIN), "-9223372036854775808");
    for i in [-1000i64, -99, -10, 9, 99, 100, 101, 65536] {
        assert_eq!(render_int(i), i.to_string());
    }
}

#[test]
fn values_as_text() {
    assert_eq!(RValue::Boolean(true).render(), Some(name("true")));
    assert_eq!(RValue::Boolean(false).render(), Some(name("false")));
    assert_eq!(RValue::Null.render(), Some(name("nil")));
    assert_eq!(RValue::Int(-42).render(), Some(name("-42")));
    assert_eq!(RValue::String(name("as it is")).render(), Some(name("as it is")));
    assert_eq!(RValue::Decimal(Decimal::Literal(name("1.5"))).render(), None);
    assert_eq!(RValue::Int(1).kind_name(), "int");
    assert_eq!(ArithOp::Div.sign(), "/");
}

#[test]
fn literal_tokens_as_values() {
    assert_eq!(Value::new(token("x")), Some(Value::L(name("x"))));
    assert_eq!(Value::new(token("\"s\"")), Some(Value::R(RValue::String(name("s")))));
    assert_eq!(Value::new(token("12")), Some(Value::R(RValue::Int(12))));
    assert_eq!(
        Value::new(token("1.5")),
        Some(Value::R(RValue::Decimal(Decimal::Literal(name("1.5")))))
    );
    assert_eq!(Value::new(token("true")), Some(Value::R(RValue::Boolean(true))));
    assert_eq!(Value::new(token("false")), Some(Value::R(RValue::Boolean(false))));
    assert_eq!(Value::new(token("nil")), Some(Value::R(RValue::Null)));
    assert_eq!(Value::new(token("+")), None);
    assert_eq!(Value::new(token("while")), None);
    assert_eq!(Value::new(token("")), None);
    assert_eq!(Value::from_bool(true), Value::R(RValue::Boolean(true)));
}

#[test]
fn names_are_read_in_the_environment() {
    let mut env = Environment::new();
    assert_eq!(env.new_var(name("x"), Some(RValue::Int(1))), Ok(()));
    assert_eq!(env.new_var(name("y"), None), Ok(()));
    assert_eq!(Value::L(name("x")).as_rval(&env), Ok(RValue::Int(1)));
    assert_eq!(Value::L(name("y")).as_rval(&env), Ok(RValue::Null));
    assert_eq!(
        Value::L(name("z")).as_rval(&env),
        Err(RuntimeError::UndefinedVariable(name("z")))
    );
    assert_eq!(Value::R(RValue::Int(5)).as_rval(&env), Ok(RValue::Int(5)));
    assert_eq!(Value::L(name("x")).into_rval(&env), Ok(RValue::Int(1)));
    assert_eq!(Value::R(RValue::Null).into_rval(&env), Ok(RValue::Null));
}

#[test]
fn clones_are_equal() {
    let d = Decimal::Binary(
        ArithOp::Div,
        Box::new(Decimal::Neg(Box::new(Decimal::Literal(name("2.5"))))),
        Box::new(Decimal::Int(3)),
    );
    assert_eq!(d.clone(), d);
    let v = RValue::Decimal(d);
    assert_eq!(v.clone(), v);
    assert_eq!(RValue::String(name("s")).clone(), RValue::String(name("s")));
}
