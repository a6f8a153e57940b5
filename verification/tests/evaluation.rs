use rusty_scheme::ast::{
    Application, ConstituentExpression, Expression, Number, Procedure, Program,
};
use rusty_scheme::eval::{applicative_eval, eval_program, eval_sequence};
use rusty_scheme::env::Environment;
use rusty_scheme::numeric::{ArithOp, Oracle, Query};
use rusty_scheme::parser::{parse_cexp, parse_program};
use rusty_scheme::value::{SExpression, Value};
use rusty_scheme::{Halt, SchemeError};

fn numeral(text: &str) -> f64 {
    let parsed: Result<(&str, f64), nom::Err<nom::error::Error<&str>>> =
        nom::number::complete::double(text);
    parsed.unwrap().1
}

fn answer(query: &Query) -> u64 {
    match query {
        Query::Numeral(text) => numeral(text).to_bits(),
        Query::Arith(op, a, b) => {
            let x = f64::from_bits(*a);
            let y = f64::from_bits(*b);
            let z = match op {
                ArithOp::Add => x + y,
                ArithOp::Sub => x - y,
                ArithOp::Mul => x * y,
                ArithOp::Div => x / y,
            };
            z.to_bits()
        }
    }
}

fn run_with_depth(src: &str, depth: usize) -> Result<Value, SchemeError> {
    let program = parse_program(src)?;
    let mut host = Oracle::new();
    loop {
        match eval_program(&program, &host, depth) {
            Ok(value) => return Ok(value),
            Err(Halt::Error(e)) => return Err(e),
            Err(Halt::Ask(query)) => {
                let bits = answer(&query);
                host.record(query, bits);
            }
        }
    }
}

fn run(src: &str) -> Result<Value, SchemeError> {
    run_with_depth(src, 64)
}

fn number(x: f64) -> Result<Value, SchemeError> {
    Ok(Value::Number(x.to_bits()))
}

fn boolean(b: bool) -> Result<Value, SchemeError> {
    Ok(Value::Boolean(b))
}

#[test]
fn sum_without_operands_is_zero() {
    assert_eq!(run("(L3 (+))"), number(0.0));
}

#[test]
fn product_without_operands_is_one() {
    assert_eq!(run("(L3 (*))"), number(1.0));
}

#[test]
fn minus_of_one_operand_negates() {
    assert_eq!(run("(L3 (- 5))"), number(-5.0));
}

#[test]
fn division_of_two_operands() {
    assert_eq!(run("(L3 (/ 4 2))"), number(2.0));
}

#[test]
fn division_of_one_operand_is_the_reciprocal() {
    assert_eq!(run("(L3 (/ 4))"), number(0.25));
}

#[test]
fn sum_of_three_operands() {
    assert_eq!(run("(L3 (+ 1 2 3))"), number(6.0));
}

#[test]
fn difference_folds_from_the_left() {
    assert_eq!(run("(L3 (- 10 1 2))"), number(7.0));
}

#[test]
fn quotient_folds_from_the_left() {
    assert_eq!(run("(L3 (/ 8 2 2))"), number(2.0));
}

#[test]
fn product_of_fractions() {
    assert_eq!(run("(L3 (* 1.5 2 0.5))"), number(1.5));
}

#[test]
fn less_than_chain_that_holds() {
    assert_eq!(run("(L3 (< 1 2 3))"), boolean(true));
}

#[test]
fn less_than_chain_that_breaks() {
    assert_eq!(run("(L3 (< 1 3 2))"), boolean(false));
}

#[test]
fn less_than_of_one_operand() {
    assert_eq!(run("(L3 (< 5))"), boolean(true));
}

#[test]
fn less_or_equal_and_greater_or_equal_are_read_whole() {
    assert_eq!(run("(L3 (<= 1 1 2))"), boolean(true));
    assert_eq!(run("(L3 (<= 2 1))"), boolean(false));
    assert_eq!(run("(L3 (>= 3 3 1))"), boolean(true));
    assert_eq!(run("(L3 (> 3 3))"), boolean(false));
    assert_eq!(run("(L3 (= 2 2.0))"), boolean(true));
}

#[test]
fn comparison_without_operands_fails() {
    assert!(matches!(run("(L3 (<))"), Err(SchemeError::ArgumentMismatch(_))));
}

#[test]
fn comparison_of_a_boolean_fails() {
    assert!(matches!(run("(L3 (< 1 #t))"), Err(SchemeError::TypeMismatch(_))));
}

#[test]
fn inner_procedure_sees_the_outer_argument() {
    assert_eq!(run("(L3 (((lambda (x) (lambda (y) (+ x y))) 3) 4))"), number(7.0));
}

#[test]
fn argument_is_not_captured_by_a_binder_of_the_same_name() {
    let src = "(L3 (define y 10)
                   (define k (lambda () y))
                   (((lambda (g) (lambda (y) (+ y (g)))) k) 1))";
    assert_eq!(run(src), number(11.0));
}

#[test]
fn renamed_parameters_stay_apart_over_several_applications() {
    let src = "(L3 (define add3 (lambda (a) (lambda (b) (lambda (c) (+ a b c)))))
                   ((((add3 1) 2) 3)))";
    assert!(matches!(run(src), Err(SchemeError::BadProcedure(_))));
    let src = "(L3 (define add3 (lambda (a) (lambda (b) (lambda (c) (+ a b c)))))
                   (((add3 1) 2) 3))";
    assert_eq!(run(src), number(6.0));
}

#[test]
fn inner_binder_shadows_the_outer() {
    assert_eq!(run("(L3 ((lambda (x) ((lambda (x) x) 9)) 1))"), number(9.0));
}

#[test]
fn definitions_are_in_force_for_later_forms() {
    assert_eq!(run("(L3 (define x 5) (define sq (lambda (x) (* x x))) (sq 5))"), number(25.0));
}

#[test]
fn variable_before_its_definition_is_undefined() {
    assert!(matches!(
        run("(L3 (define y x) (define x 5) y)"),
        Err(SchemeError::UndefinedVariable(_))
    ));
}

#[test]
fn factorial_of_five() {
    let src = "(L3 (define fact (lambda (n) (if (= n 0) 1 (* n (fact (- n 1)))))) (fact 5))";
    assert_eq!(run(src), number(120.0));
}

#[test]
fn square_root_by_newton() {
    let src = "
    (L3
        (define sqrt (lambda (x) (sqrt-iter 1 x)))
        (define sqrt-iter
          (lambda (guess x)
             (if (good-enough? guess x)
                 guess
                 (sqrt-iter (improve guess x)
                            x))))
        (define abs (lambda (x) (if (< x 0) (- x) x)))
        (define square (lambda (x) (* x x)))
        (define epsilon 0.0001)
        (define good-enough?
          (lambda (guess x)
             (< (abs (- (square guess) x)) epsilon)))
        (define average
          (lambda (x y) (/ (+ x y) 2.0)))
        (define improve
          (lambda (guess x)
            (average guess (/ x guess))))
        (sqrt 2))";
    match run(src) {
        Ok(Value::Number(bits)) => {
            let root = f64::from_bits(bits);
            assert!((root * root - 2.0).abs() < 0.0001);
        }
        other => panic!("no number: {:?}", other),
    }
}

#[test]
fn car_of_a_number_is_a_type_mismatch() {
    assert!(matches!(run("(L3 (car 5))"), Err(SchemeError::TypeMismatch(_))));
}

#[test]
fn sum_with_a_boolean_is_a_type_mismatch() {
    assert!(matches!(run("(L3 (+ 1 #t))"), Err(SchemeError::TypeMismatch(_))));
}

#[test]
fn unbound_operator_is_undefined() {
    assert!(matches!(run("(L3 (foo 1))"), Err(SchemeError::UndefinedVariable(_))));
}

#[test]
fn number_as_operator_is_a_bad_procedure() {
    assert!(matches!(run("(L3 (5 1))"), Err(SchemeError::BadProcedure(_))));
}

#[test]
fn a_bad_procedure_is_told_by_its_debug_text() {
    let five = Value::Number(5.0f64.to_bits());
    assert_eq!(run("(L3 (5 1))"), Err(SchemeError::BadProcedure(format!("{:?}", five))));
    assert_eq!(
        run("(L3 (#t))"),
        Err(SchemeError::BadProcedure("Boolean(true)".to_string()))
    );
    let nil = Value::SExpression(Box::new(SExpression::Nil));
    assert_eq!(run("(L3 ((list) 1))"), Err(SchemeError::BadProcedure(format!("{:?}", nil))));
}

#[test]
fn an_undefined_variable_is_told_by_its_name() {
    assert_eq!(
        run("(L3 (foo 1))"),
        Err(SchemeError::UndefinedVariable("Undefined variable: foo".to_string()))
    );
    assert_eq!(
        run("(L3 (define x 1) (+ x good-enough?))"),
        Err(SchemeError::UndefinedVariable("Undefined variable: good-enough?".to_string()))
    );
}

#[test]
fn the_oracle_may_hold_more_than_is_asked() {
    let program = parse_program("(L3 (* 2 3))").unwrap();
    let mut host = Oracle::new();
    host.record(Query::Numeral("7".to_string()), 7.0f64.to_bits());
    host.record(Query::Arith(ArithOp::Add, 1, 2), 3);
    let value = loop {
        match eval_program(&program, &host, 4) {
            Ok(value) => break value,
            Err(Halt::Ask(query)) => {
                let bits = answer(&query);
                host.record(query, bits);
            }
            Err(Halt::Error(e)) => panic!("{:?}", e),
        }
    };
    assert_eq!(value, Value::Number(6.0f64.to_bits()));
    host.record(Query::Numeral("8".to_string()), 8.0f64.to_bits());
    assert_eq!(eval_program(&program, &host, 4), Ok(Value::Number(6.0f64.to_bits())));
    assert_eq!(eval_program(&program, &host, 400), Ok(Value::Number(6.0f64.to_bits())));
}

#[test]
fn an_operator_in_front_of_a_name_is_applied() {
    assert_eq!(run("(L3 (define x 4) (carx))"), Err(SchemeError::TypeMismatch(
        "Expected a compound s-expression, got Number(4616189618054758400)".to_string()
    )));
    assert_eq!(run("(L3 (define ion (cons 1 2)) (carion))"), number(1.0));
}

#[test]
fn a_text_is_parsed_and_evaluated_in_one_call() {
    let mut host = Oracle::new();
    assert_eq!(
        rusty_scheme::run("(L3 (- 7))", &host, 4),
        Err(Halt::Ask(Query::Numeral("7".to_string())))
    );
    host.record(Query::Numeral("7".to_string()), 7.0f64.to_bits());
    assert_eq!(rusty_scheme::run("(L3 (- 7))", &host, 4), Ok(Value::Number((-7.0f64).to_bits())));
    assert_eq!(rusty_scheme::run("(L3 (- 7)", &host, 4), Err(Halt::Error(SchemeError::ParseError)));
    assert_eq!(rusty_scheme::run("", &host, 4), Err(Halt::Error(SchemeError::ParseError)));
}

#[test]
fn values_and_programs_can_be_cloned() {
    let program = parse_program("(L3 (define f (lambda (x) (let ((y x)) (if y 1 (f 2))))) (f 1))")
        .unwrap();
    assert_eq!(program.clone(), program);
    let value = run("(L3 (list 1 (lambda (x) x) +))").unwrap();
    assert_eq!(value.clone(), value);
    assert_eq!(value.duplicate(), value);
}

#[test]
fn empty_sequence_is_an_empty_program() {
    let host = Oracle::new();
    let env = Environment::Empty;
    let forms: Vec<Expression> = Vec::new();
    assert_eq!(
        eval_sequence(forms.as_slice(), &env, &host, 8),
        Err(Halt::Error(SchemeError::EmptyProgram))
    );
    let program = Program { exps: Vec::new() };
    assert_eq!(eval_program(&program, &host, 8), Err(Halt::Error(SchemeError::EmptyProgram)));
}

#[test]
fn a_procedure_without_a_body_fails_when_applied() {
    let host = Oracle::new();
    let env = Environment::Empty;
    let empty = ConstituentExpression::Procedure(Procedure { args: vec![], body: vec![] });
    let call = ConstituentExpression::Applic(Application {
        operator: Box::new(empty.clone()),
        operands: vec![],
    });
    assert!(matches!(applicative_eval(&empty, &env, &host, 8), Ok(Value::Closure(_))));
    assert_eq!(
        applicative_eval(&call, &env, &host, 8),
        Err(Halt::Error(SchemeError::EmptyProgram))
    );
    assert_eq!(
        applicative_eval(&call, &env, &host, 0),
        Err(Halt::Error(SchemeError::StackExhausted))
    );
}

#[test]
fn program_that_ends_with_a_definition_is_empty() {
    assert_eq!(run("(L3 (define x 5))"), Err(SchemeError::EmptyProgram));
}

#[test]
fn wrong_number_of_arguments_for_a_closure() {
    assert!(matches!(run("(L3 ((lambda (x y) x) 1))"), Err(SchemeError::ArgumentMismatch(_))));
    assert!(matches!(run("(L3 ((lambda (x) x) 1 2))"), Err(SchemeError::ArgumentMismatch(_))));
}

#[test]
fn endless_recursion_exhausts_the_depth() {
    let src = "(L3 (define loop (lambda (n) (loop n))) (loop 1))";
    assert_eq!(run_with_depth(src, 20), Err(SchemeError::StackExhausted));
}

#[test]
fn depth_counts_nested_applications() {
    let src = "(L3 (define fact (lambda (n) (if (= n 0) 1 (* n (fact (- n 1)))))) (fact 5))";
    assert_eq!(run_with_depth(src, 5), Err(SchemeError::StackExhausted));
    assert_eq!(run_with_depth(src, 6), number(120.0));
}

#[test]
fn if_takes_every_value_but_false_as_true() {
    assert_eq!(run("(L3 (if 0 1 2))"), number(1.0));
    assert_eq!(run("(L3 (if #f 1 2))"), number(2.0));
    assert_eq!(run("(L3 (if (list) 1 2))"), number(1.0));
}

#[test]
fn if_evaluates_one_branch_only() {
    assert_eq!(run("(L3 (if #t 1 (car 5)))"), number(1.0));
    assert_eq!(run("(L3 (if #f missing 2))"), number(2.0));
}

#[test]
fn let_binds_in_the_outer_scope() {
    assert_eq!(run("(L3 (let ((x 2) (y 3)) (* x y)))"), number(6.0));
    assert_eq!(run("(L3 (define x 1) (let ((x 2) (y x)) (+ x y)))"), number(3.0));
}

#[test]
fn let_inside_a_procedure_body() {
    assert_eq!(run("(L3 ((lambda (a) (let ((b (+ a 1))) (* a b))) 3))"), number(12.0));
}

#[test]
fn body_gives_the_value_of_its_last_expression() {
    assert_eq!(run("(L3 ((lambda (x) 1 2 x) 7))"), number(7.0));
    assert_eq!(run("(L3 1 2 3)"), number(3.0));
}

#[test]
fn operator_is_evaluated_before_the_operands() {
    assert!(matches!(run("(L3 (foo (car 5)))"), Err(SchemeError::UndefinedVariable(_))));
    assert!(matches!(run("(L3 (+ (car 5) foo))"), Err(SchemeError::TypeMismatch(_))));
}

#[test]
fn lists_and_pairs() {
    let one = Value::Number(1.0f64.to_bits());
    let two = Value::Number(2.0f64.to_bits());
    let nil = Value::SExpression(Box::new(SExpression::Nil));
    assert_eq!(run("(L3 (car (cons 1 2)))"), Ok(Value::Number(1.0f64.to_bits())));
    assert_eq!(run("(L3 (cdr (cons 1 2)))"), Ok(Value::Number(2.0f64.to_bits())));
    assert_eq!(
        run("(L3 (list 1 2))"),
        Ok(Value::SExpression(Box::new(SExpression::Compound(
            one,
            Value::SExpression(Box::new(SExpression::Compound(two, nil)))
        ))))
    );
    assert_eq!(run("(L3 (car (cdr (list 1 2 3))))"), number(2.0));
    assert_eq!(run("(L3 (pair? (list 1)))"), boolean(true));
    assert_eq!(run("(L3 (pair? (list)))"), boolean(false));
    assert_eq!(run("(L3 (eq? (list) (list)))"), boolean(true));
    assert_eq!(run("(L3 (eq? (list 1) (list 1)))"), boolean(false));
}

#[test]
fn a_list_passes_through_a_procedure() {
    assert_eq!(run("(L3 ((lambda (l) (car (cdr l))) (list 1 2 3)))"), number(2.0));
}

#[test]
fn primitive_as_argument() {
    assert_eq!(run("(L3 ((lambda (f) (f 2 3)) *))"), number(6.0));
}

#[test]
fn logic() {
    assert_eq!(run("(L3 (not #f))"), boolean(true));
    assert_eq!(run("(L3 (not 5))"), boolean(false));
    assert_eq!(run("(L3 (and))"), boolean(true));
    assert_eq!(run("(L3 (and 1 2))"), number(2.0));
    assert_eq!(run("(L3 (and 1 #f 2))"), boolean(false));
    assert_eq!(run("(L3 (or))"), boolean(false));
    assert_eq!(run("(L3 (or #f 3 4))"), number(3.0));
    assert_eq!(run("(L3 (or #f #f))"), boolean(false));
}

#[test]
fn evaluation_asks_for_what_the_oracle_lacks() {
    let cexp = parse_cexp("(+ 1 2)").unwrap();
    let env = Environment::Empty;
    let mut host = Oracle::new();
    assert_eq!(
        applicative_eval(&cexp, &env, &host, 4),
        Err(Halt::Ask(Query::Numeral("1".to_string())))
    );
    host.record(Query::Numeral("1".to_string()), 1.0f64.to_bits());
    assert_eq!(
        applicative_eval(&cexp, &env, &host, 4),
        Err(Halt::Ask(Query::Numeral("2".to_string())))
    );
    host.record(Query::Numeral("2".to_string()), 2.0f64.to_bits());
    assert_eq!(
        applicative_eval(&cexp, &env, &host, 4),
        Err(Halt::Ask(Query::Arith(ArithOp::Add, 0, 1.0f64.to_bits())))
    );
    host.record(Query::Arith(ArithOp::Add, 0, 1.0f64.to_bits()), 1.0f64.to_bits());
    assert_eq!(
        applicative_eval(&cexp, &env, &host, 4),
        Err(Halt::Ask(Query::Arith(ArithOp::Add, 1.0f64.to_bits(), 2.0f64.to_bits())))
    );
    host.record(
        Query::Arith(ArithOp::Add, 1.0f64.to_bits(), 2.0f64.to_bits()),
        3.0f64.to_bits(),
    );
    assert_eq!(applicative_eval(&cexp, &env, &host, 4), Ok(Value::Number(3.0f64.to_bits())));
}

#[test]
fn number_given_by_its_bits_needs_no_oracle() {
    let host = Oracle::new();
    let env = Environment::Empty;
    let cexp = ConstituentExpression::Number(Number::Bits(2.5f64.to_bits()));
    assert_eq!(applicative_eval(&cexp, &env, &host, 0), Ok(Value::Number(2.5f64.to_bits())));
}
