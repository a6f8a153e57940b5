use rusty_scheme::ast::{ConstituentExpression, PrimitiveOperation, VariableDeclaration, VariableReference};
use rusty_scheme::numeric::{ArithOp, Oracle, Query};
use rusty_scheme::primitives::{apply_primitive, compare, is_true};
use rusty_scheme::numeric::Relation;
use rusty_scheme::value::{Closure, SExpression, Value};
use rusty_scheme::{Halt, SchemeError};

fn n(x: f64) -> Value {
    Value::Number(x.to_bits())
}

fn nil() -> Value {
    Value::SExpression(Box::new(SExpression::Nil))
}

fn pair(a: Value, b: Value) -> Value {
    Value::SExpression(Box::new(SExpression::Compound(a, b)))
}

fn symbol(name: &str) -> Value {
    Value::SExpression(Box::new(SExpression::Symbol(name.to_string())))
}

fn closure() -> Value {
    Value::Closure(Closure {
        params: vec![VariableDeclaration("x".to_string())],
        body: vec![Box::new(ConstituentExpression::VariableReference(VariableReference(
            "x".to_string(),
        )))],
    })
}

fn host_for(op: ArithOp, a: f64, b: f64, host: &mut Oracle) {
    let r = match op {
        ArithOp::Add => a + b,
        ArithOp::Sub => a - b,
        ArithOp::Mul => a * b,
        ArithOp::Div => a / b,
    };
    host.record(Query::Arith(op, a.to_bits(), b.to_bits()), r.to_bits());
}

fn pure(op: PrimitiveOperation, args: Vec<Value>) -> Result<Value, Halt> {
    apply_primitive(&op, args.as_slice(), &Oracle::new())
}

fn kind(r: Result<Value, Halt>) -> &'static str {
    match r {
        Ok(_) => "value",
        Err(Halt::Ask(_)) => "ask",
        Err(Halt::Error(SchemeError::TypeMismatch(_))) => "type",
        Err(Halt::Error(SchemeError::ArgumentMismatch(_))) => "count",
        Err(Halt::Error(_)) => "other",
    }
}

#[test]
fn sum_and_product_of_nothing_need_no_host() {
    assert_eq!(pure(PrimitiveOperation::Add, vec![]), Ok(n(0.0)));
    assert_eq!(pure(PrimitiveOperation::Mul, vec![]), Ok(n(1.0)));
}

#[test]
fn sum_folds_from_zero() {
    let mut host = Oracle::new();
    let args = vec![n(1.0), n(2.0), n(3.0)];
    assert_eq!(
        apply_primitive(&PrimitiveOperation::Add, args.as_slice(), &host),
        Err(Halt::Ask(Query::Arith(ArithOp::Add, 0.0f64.to_bits(), 1.0f64.to_bits())))
    );
    host_for(ArithOp::Add, 0.0, 1.0, &mut host);
    assert_eq!(
        apply_primitive(&PrimitiveOperation::Add, args.as_slice(), &host),
        Err(Halt::Ask(Query::Arith(ArithOp::Add, 1.0f64.to_bits(), 2.0f64.to_bits())))
    );
    host_for(ArithOp::Add, 1.0, 2.0, &mut host);
    host_for(ArithOp::Add, 3.0, 3.0, &mut host);
    assert_eq!(apply_primitive(&PrimitiveOperation::Add, args.as_slice(), &host), Ok(n(6.0)));
}

#[test]
fn product_folds_from_one() {
    let mut host = Oracle::new();
    host_for(ArithOp::Mul, 1.0, 4.0, &mut host);
    host_for(ArithOp::Mul, 4.0, 0.5, &mut host);
    let args = vec![n(4.0), n(0.5)];
    assert_eq!(apply_primitive(&PrimitiveOperation::Mul, args.as_slice(), &host), Ok(n(2.0)));
}

#[test]
fn difference_starts_from_the_first_operand() {
    let mut host = Oracle::new();
    host_for(ArithOp::Sub, 10.0, 1.0, &mut host);
    host_for(ArithOp::Sub, 9.0, 2.0, &mut host);
    let args = vec![n(10.0), n(1.0), n(2.0)];
    assert_eq!(apply_primitive(&PrimitiveOperation::Sub, args.as_slice(), &host), Ok(n(7.0)));
    assert_eq!(pure(PrimitiveOperation::Sub, vec![n(5.0)]), Ok(n(-5.0)));
    assert_eq!(pure(PrimitiveOperation::Sub, vec![n(0.0)]), Ok(n(-0.0)));
}

#[test]
fn quotient_starts_from_the_first_operand() {
    let mut host = Oracle::new();
    host_for(ArithOp::Div, 4.0, 2.0, &mut host);
    host_for(ArithOp::Div, 1.0, 4.0, &mut host);
    assert_eq!(
        apply_primitive(&PrimitiveOperation::Div, vec![n(4.0), n(2.0)].as_slice(), &host),
        Ok(n(2.0))
    );
    assert_eq!(
        apply_primitive(&PrimitiveOperation::Div, vec![n(4.0)].as_slice(), &host),
        Ok(n(0.25))
    );
    assert_eq!(
        pure(PrimitiveOperation::Div, vec![n(2.0)]),
        Err(Halt::Ask(Query::Arith(ArithOp::Div, 1.0f64.to_bits(), 2.0f64.to_bits())))
    );
}

#[test]
fn arithmetic_needs_numbers() {
    for op in [
        PrimitiveOperation::Add,
        PrimitiveOperation::Sub,
        PrimitiveOperation::Mul,
        PrimitiveOperation::Div,
    ] {
        assert_eq!(kind(pure(op, vec![n(1.0), Value::Boolean(true)])), "type");
        assert_eq!(kind(pure(op, vec![Value::Boolean(true), n(1.0)])), "type");
        assert_eq!(kind(pure(op, vec![nil()])), "type");
        assert_eq!(kind(pure(op, vec![n(1.0), n(2.0), closure()])), "type");
    }
    assert_eq!(kind(pure(PrimitiveOperation::Sub, vec![])), "count");
    assert_eq!(kind(pure(PrimitiveOperation::Div, vec![])), "count");
}

#[test]
fn comparisons() {
    let cases = [
        (PrimitiveOperation::LessThan, vec![1.0, 2.0, 3.0], true),
        (PrimitiveOperation::LessThan, vec![1.0, 3.0, 2.0], false),
        (PrimitiveOperation::LessThan, vec![1.0, 1.0], false),
        (PrimitiveOperation::LessThanOrEqual, vec![1.0, 1.0, 2.0], true),
        (PrimitiveOperation::LessThanOrEqual, vec![2.0, 1.0], false),
        (PrimitiveOperation::GreaterThan, vec![3.0, 2.0, 1.0], true),
        (PrimitiveOperation::GreaterThan, vec![3.0, 3.0], false),
        (PrimitiveOperation::GreaterThanOrEqual, vec![3.0, 3.0, 1.0], true),
        (PrimitiveOperation::GreaterThanOrEqual, vec![1.0, 3.0], false),
        (PrimitiveOperation::Equal, vec![2.0, 2.0, 2.0], true),
        (PrimitiveOperation::Equal, vec![2.0, 2.0, 3.0], false),
        (PrimitiveOperation::Equal, vec![0.0, -0.0], true),
        (PrimitiveOperation::Equal, vec![f64::NAN, f64::NAN], false),
        (PrimitiveOperation::LessThan, vec![f64::NEG_INFINITY, -1.0, 0.0, f64::INFINITY], true),
    ];
    for (op, numbers, expected) in cases {
        let args: Vec<Value> = numbers.iter().map(|x| n(*x)).collect();
        assert_eq!(pure(op, args), Ok(Value::Boolean(expected)), "{:?} {:?}", op, numbers);
    }
}

#[test]
fn a_comparison_of_one_operand_holds() {
    assert_eq!(pure(PrimitiveOperation::LessThan, vec![n(5.0)]), Ok(Value::Boolean(true)));
    assert_eq!(pure(PrimitiveOperation::Equal, vec![n(f64::NAN)]), Ok(Value::Boolean(true)));
    assert_eq!(compare(vec![n(1.0)].as_slice(), Relation::Greater), Ok(Value::Boolean(true)));
}

#[test]
fn a_comparison_needs_operands_and_numbers() {
    assert_eq!(kind(pure(PrimitiveOperation::LessThan, vec![])), "count");
    assert_eq!(kind(pure(PrimitiveOperation::Equal, vec![])), "count");
    assert_eq!(kind(pure(PrimitiveOperation::LessThan, vec![n(1.0), Value::Boolean(true)])), "type");
    assert_eq!(kind(pure(PrimitiveOperation::LessThan, vec![Value::Boolean(true)])), "type");
    assert_eq!(kind(pure(PrimitiveOperation::Equal, vec![nil()])), "type");
    assert_eq!(kind(pure(PrimitiveOperation::LessThan, vec![n(3.0), n(1.0), nil()])), "type");
    assert_eq!(kind(pure(PrimitiveOperation::GreaterThan, vec![closure(), n(1.0)])), "type");
}

#[test]
fn only_false_counts_as_false() {
    assert!(!is_true(&Value::Boolean(false)));
    assert!(is_true(&Value::Boolean(true)));
    assert!(is_true(&n(0.0)));
    assert!(is_true(&nil()));
    assert!(is_true(&closure()));
    assert!(is_true(&Value::PrimitiveOperation(PrimitiveOperation::Not)));
}

#[test]
fn not_takes_one_operand() {
    assert_eq!(pure(PrimitiveOperation::Not, vec![Value::Boolean(false)]), Ok(Value::Boolean(true)));
    assert_eq!(pure(PrimitiveOperation::Not, vec![n(0.0)]), Ok(Value::Boolean(false)));
    assert_eq!(kind(pure(PrimitiveOperation::Not, vec![])), "count");
    assert_eq!(kind(pure(PrimitiveOperation::Not, vec![n(1.0), n(2.0)])), "count");
}

#[test]
fn and_gives_the_last_operand_or_false() {
    assert_eq!(pure(PrimitiveOperation::And, vec![]), Ok(Value::Boolean(true)));
    assert_eq!(pure(PrimitiveOperation::And, vec![n(1.0), symbol("a")]), Ok(symbol("a")));
    assert_eq!(
        pure(PrimitiveOperation::And, vec![n(1.0), Value::Boolean(false), n(2.0)]),
        Ok(Value::Boolean(false))
    );
}

#[test]
fn or_gives_the_first_operand_that_counts_as_true() {
    assert_eq!(pure(PrimitiveOperation::Or, vec![]), Ok(Value::Boolean(false)));
    assert_eq!(
        pure(PrimitiveOperation::Or, vec![Value::Boolean(false), n(3.0), n(4.0)]),
        Ok(n(3.0))
    );
    assert_eq!(
        pure(PrimitiveOperation::Or, vec![Value::Boolean(false), Value::Boolean(false)]),
        Ok(Value::Boolean(false))
    );
}

#[test]
fn eq_holds_of_numbers_booleans_and_empty_lists() {
    let t = Ok(Value::Boolean(true));
    let f = Ok(Value::Boolean(false));
    assert_eq!(pure(PrimitiveOperation::IsEq, vec![n(1.0), n(1.0)]), t);
    assert_eq!(pure(PrimitiveOperation::IsEq, vec![n(1.0), n(2.0)]), f);
    assert_eq!(pure(PrimitiveOperation::IsEq, vec![n(0.0), n(-0.0)]), t);
    assert_eq!(pure(PrimitiveOperation::IsEq, vec![n(f64::NAN), n(f64::NAN)]), f);
    assert_eq!(pure(PrimitiveOperation::IsEq, vec![Value::Boolean(true), Value::Boolean(true)]), t);
    assert_eq!(pure(PrimitiveOperation::IsEq, vec![Value::Boolean(true), Value::Boolean(false)]), f);
    assert_eq!(pure(PrimitiveOperation::IsEq, vec![nil(), nil()]), t);
    assert_eq!(pure(PrimitiveOperation::IsEq, vec![nil(), pair(n(1.0), nil())]), f);
    assert_eq!(
        pure(PrimitiveOperation::IsEq, vec![pair(n(1.0), nil()), pair(n(1.0), nil())]),
        f
    );
    assert_eq!(pure(PrimitiveOperation::IsEq, vec![symbol("a"), symbol("a")]), f);
    assert_eq!(pure(PrimitiveOperation::IsEq, vec![n(1.0), Value::Boolean(true)]), f);
    assert_eq!(pure(PrimitiveOperation::IsEq, vec![closure(), closure()]), f);
    assert_eq!(kind(pure(PrimitiveOperation::IsEq, vec![n(1.0)])), "count");
    assert_eq!(kind(pure(PrimitiveOperation::IsEq, vec![n(1.0), n(1.0), n(1.0)])), "count");
}

#[test]
fn pairs() {
    assert_eq!(pure(PrimitiveOperation::Cons, vec![n(1.0), n(2.0)]), Ok(pair(n(1.0), n(2.0))));
    assert_eq!(kind(pure(PrimitiveOperation::Cons, vec![n(1.0)])), "count");
    assert_eq!(kind(pure(PrimitiveOperation::Cons, vec![n(1.0), n(2.0), n(3.0)])), "count");
    assert_eq!(pure(PrimitiveOperation::Car, vec![pair(n(1.0), n(2.0))]), Ok(n(1.0)));
    assert_eq!(pure(PrimitiveOperation::Cdr, vec![pair(n(1.0), n(2.0))]), Ok(n(2.0)));
    for op in [PrimitiveOperation::Car, PrimitiveOperation::Cdr] {
        assert_eq!(kind(pure(op, vec![n(5.0)])), "type");
        assert_eq!(kind(pure(op, vec![nil()])), "type");
        assert_eq!(kind(pure(op, vec![symbol("a")])), "type");
        assert_eq!(kind(pure(op, vec![])), "count");
        assert_eq!(kind(pure(op, vec![pair(n(1.0), n(2.0)), n(1.0)])), "count");
    }
}

#[test]
fn lists() {
    assert_eq!(pure(PrimitiveOperation::List, vec![]), Ok(nil()));
    assert_eq!(pure(PrimitiveOperation::List, vec![n(1.0)]), Ok(pair(n(1.0), nil())));
    assert_eq!(
        pure(PrimitiveOperation::List, vec![n(1.0), Value::Boolean(true), n(3.0)]),
        Ok(pair(n(1.0), pair(Value::Boolean(true), pair(n(3.0), nil()))))
    );
}

#[test]
fn predicates_on_the_type() {
    let values = vec![n(1.0), Value::Boolean(false), nil(), pair(n(1.0), nil()), symbol("a"), closure()];
    let expected = [
        (PrimitiveOperation::IsNumber, [true, false, false, false, false, false]),
        (PrimitiveOperation::IsBoolean, [false, true, false, false, false, false]),
        (PrimitiveOperation::IsPair, [false, false, false, true, false, false]),
        (PrimitiveOperation::IsSymbol, [false, false, false, false, true, false]),
    ];
    for (op, row) in expected {
        for (value, holds) in values.iter().zip(row.iter()) {
            assert_eq!(pure(op, vec![value.duplicate()]), Ok(Value::Boolean(*holds)));
        }
        assert_eq!(kind(pure(op, vec![])), "count");
        assert_eq!(kind(pure(op, vec![n(1.0), n(2.0)])), "count");
    }
}

#[test]
fn texts_of_the_errors() {
    match pure(PrimitiveOperation::Not, vec![]) {
        Err(Halt::Error(SchemeError::ArgumentMismatch(text))) => {
            assert_eq!(text, "Expected 1 argument, got 0")
        }
        other => panic!("{:?}", other),
    }
    match pure(PrimitiveOperation::Cons, vec![n(1.0), n(1.0), n(1.0)]) {
        Err(Halt::Error(SchemeError::ArgumentMismatch(text))) => {
            assert_eq!(text, "Expected 2 arguments, got 3")
        }
        other => panic!("{:?}", other),
    }
    match pure(PrimitiveOperation::Add, vec![Value::Boolean(true)]) {
        Err(Halt::Error(SchemeError::TypeMismatch(text))) => {
            assert_eq!(text, "Value Boolean(true) not a number")
        }
        other => panic!("{:?}", other),
    }
}
