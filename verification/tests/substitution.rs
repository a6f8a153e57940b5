use rusty_scheme::ast::{
    duplicate_exprs, Application, Boolean, ConstituentExpression, If, Let, Number,
    PrimitiveOperation, Procedure, VariableDeclaration, VariableReference,
};
use rusty_scheme::env::Environment;
use rusty_scheme::parser::parse_cexp;
use rusty_scheme::substitution::{
    declares, find_variable, make_var_gen, push_decimal, rename, replace, substitute,
    substitute_one, value_to_literal, VarGen,
};
use rusty_scheme::sugar::desugared;
use rusty_scheme::value::{Closure, SExpression, Value};
use rusty_scheme::SchemeError;

fn parse(text: &str) -> ConstituentExpression {
    parse_cexp(text).unwrap()
}

fn var(name: &str) -> ConstituentExpression {
    ConstituentExpression::VariableReference(VariableReference(name.to_string()))
}

fn lambda(params: Vec<&str>, body: Vec<ConstituentExpression>) -> ConstituentExpression {
    ConstituentExpression::Procedure(Procedure {
        args: params.into_iter().map(|p| VariableDeclaration(p.to_string())).collect(),
        body: body.into_iter().map(Box::new).collect(),
    })
}

fn app(operator: ConstituentExpression, operands: Vec<ConstituentExpression>) -> ConstituentExpression {
    ConstituentExpression::Applic(Application {
        operator: Box::new(operator),
        operands: operands.into_iter().map(Box::new).collect(),
    })
}

fn plus() -> ConstituentExpression {
    ConstituentExpression::PrimitiveOperation(PrimitiveOperation::Add)
}

fn bits(x: f64) -> ConstituentExpression {
    ConstituentExpression::Number(Number::Bits(x.to_bits()))
}

fn renamed(text: &str) -> ConstituentExpression {
    let out = rename(&vec![Box::new(parse(text))]);
    assert_eq!(out.len(), 1);
    out[0].duplicate()
}

fn subst(text: &str, vars: Vec<&str>, exps: Vec<ConstituentExpression>) -> ConstituentExpression {
    let vars: Vec<String> = vars.into_iter().map(|v| v.to_string()).collect();
    substitute_one(&parse(text), vars.as_slice(), exps.as_slice())
}

#[test]
fn a_generator_counts_from_one() {
    let mut gen = make_var_gen();
    assert_eq!(gen, VarGen { count: 0 });
    assert_eq!(gen.fresh("x"), "x__1");
    assert_eq!(gen.fresh("x"), "x__2");
    assert_eq!(gen.fresh("long-name?"), "long-name?__3");
    assert_eq!(gen.count, 3);
}

#[test]
fn a_generator_stays_at_the_largest_count() {
    let mut gen = VarGen { count: u64::MAX - 1 };
    assert_eq!(gen.fresh("x"), "x__18446744073709551615");
    assert_eq!(gen.fresh("y"), "y__18446744073709551615");
    assert_eq!(gen.count, u64::MAX);
}

#[test]
fn decimal_digits() {
    for (n, text) in [(0u64, "0"), (7, "7"), (10, "10"), (99, "99"), (100, "100"), (12345, "12345")] {
        let mut out = "n=".to_string();
        push_decimal(&mut out, n);
        assert_eq!(out, format!("n={}", text));
    }
}

#[test]
fn renaming_gives_each_parameter_a_fresh_name() {
    assert_eq!(renamed("(lambda (x) x)"), lambda(vec!["x__1"], vec![var("x__1")]));
    assert_eq!(
        renamed("(lambda (x y) (+ x y z))"),
        lambda(vec!["x__1", "y__2"], vec![app(plus(), vec![var("x__1"), var("y__2"), var("z")])])
    );
}

#[test]
fn renaming_leaves_free_variables_and_literals() {
    assert_eq!(renamed("(f x 1 #t +)"), parse("(f x 1 #t +)"));
    assert_eq!(renamed("(if a b c)"), parse("(if a b c)"));
}

#[test]
fn renaming_draws_names_in_the_order_of_the_text() {
    assert_eq!(
        renamed("((lambda (a) a) (lambda (b) b) (if (lambda (c) c) (lambda (d) d) (lambda (e) e)))"),
        app(
            lambda(vec!["a__1"], vec![var("a__1")]),
            vec![
                lambda(vec!["b__2"], vec![var("b__2")]),
                ConstituentExpression::If(If {
                    cond: Box::new(lambda(vec!["c__3"], vec![var("c__3")])),
                    then_branch: Box::new(lambda(vec!["d__4"], vec![var("d__4")])),
                    alt: Box::new(lambda(vec!["e__5"], vec![var("e__5")])),
                }),
            ]
        )
    );
}

#[test]
fn renaming_names_a_procedure_before_the_procedures_in_its_body() {
    assert_eq!(
        renamed("(lambda (x) (lambda (y) (+ x y)))"),
        lambda(
            vec!["x__1"],
            vec![lambda(vec!["y__2"], vec![app(plus(), vec![var("x__1"), var("y__2")])])]
        )
    );
}

#[test]
fn an_inner_parameter_takes_the_occurrences_in_its_body() {
    assert_eq!(
        renamed("(lambda (x) (x (lambda (x) x)))"),
        lambda(vec!["x__1"], vec![app(var("x__1"), vec![lambda(vec!["x__2"], vec![var("x__2")])])])
    );
}

#[test]
fn a_fresh_name_does_not_capture_an_outer_parameter_of_that_name() {
    let text = lambda(vec!["x"], vec![lambda(vec!["x__1"], vec![var("x")])]);
    let out = rename(&vec![Box::new(text)]);
    assert_eq!(
        *out[0],
        lambda(vec!["x__1"], vec![lambda(vec!["x__1__2"], vec![var("x__1")])])
    );
}

#[test]
fn renaming_a_sequence_shares_one_generator() {
    let body = vec![Box::new(parse("(lambda (x) x)")), Box::new(parse("(lambda (x) x)"))];
    let out = rename(&body);
    assert_eq!(*out[0], lambda(vec!["x__1"], vec![var("x__1")]));
    assert_eq!(*out[1], lambda(vec!["x__2"], vec![var("x__2")]));
    let again = rename(&body);
    assert_eq!(out, again);
}

#[test]
fn replace_continues_from_the_generator() {
    let mut gen = VarGen { count: 41 };
    let olds = vec!["y".to_string()];
    let news = vec!["y__7".to_string()];
    let out = replace(&parse("(lambda (x) (x y))"), &olds, &news, &mut gen);
    assert_eq!(out, lambda(vec!["x__42"], vec![app(var("x__42"), vec![var("y__7")])]));
    assert_eq!(gen.count, 42);
}

#[test]
fn substitution_replaces_free_occurrences() {
    assert_eq!(subst("x", vec!["x"], vec![bits(1.0)]), bits(1.0));
    assert_eq!(subst("y", vec!["x"], vec![bits(1.0)]), var("y"));
    assert_eq!(
        subst("(+ x y x)", vec!["x", "y"], vec![bits(1.0), bits(2.0)]),
        app(plus(), vec![bits(1.0), bits(2.0), bits(1.0)])
    );
    assert_eq!(
        subst("(if x (x) y)", vec!["x"], vec![bits(1.0)]),
        ConstituentExpression::If(If {
            cond: Box::new(bits(1.0)),
            then_branch: Box::new(app(bits(1.0), vec![])),
            alt: Box::new(var("y")),
        })
    );
}

#[test]
fn substitution_takes_the_first_of_two_replacements() {
    assert_eq!(subst("x", vec!["x", "x"], vec![bits(1.0), bits(2.0)]), bits(1.0));
}

#[test]
fn substitution_stops_at_a_binder_of_the_variable() {
    assert_eq!(
        subst("(lambda (x) (+ x y))", vec!["x", "y"], vec![bits(1.0), bits(2.0)]),
        lambda(vec!["x"], vec![app(plus(), vec![var("x"), bits(2.0)])])
    );
    assert_eq!(
        subst("(x (lambda (x) x) x)", vec!["x"], vec![bits(1.0)]),
        app(bits(1.0), vec![lambda(vec!["x"], vec![var("x")]), bits(1.0)])
    );
    assert_eq!(
        subst("(lambda (a) (lambda (x) (lambda (b) x)))", vec!["x"], vec![bits(1.0)]),
        parse("(lambda (a) (lambda (x) (lambda (b) x)))")
    );
}

#[test]
fn substitution_into_a_sequence() {
    let body = vec![Box::new(parse("x")), Box::new(parse("(f x)"))];
    let vars = vec!["x".to_string()];
    let exps = vec![bits(3.0)];
    assert_eq!(
        substitute(&body, vars.as_slice(), exps.as_slice()),
        vec![bits(3.0), app(var("f"), vec![bits(3.0)])]
    );
    let nothing: Vec<Box<ConstituentExpression>> = Vec::new();
    assert_eq!(substitute(&nothing, vars.as_slice(), exps.as_slice()), vec![]);
}

#[test]
fn finding_names() {
    let vars = vec!["a".to_string(), "b".to_string(), "a".to_string()];
    assert_eq!(find_variable(vars.as_slice(), &"a".to_string()), Some(0));
    assert_eq!(find_variable(vars.as_slice(), &"b".to_string()), Some(1));
    assert_eq!(find_variable(vars.as_slice(), &"c".to_string()), None);
    let params = vec![VariableDeclaration("p".to_string()), VariableDeclaration("q".to_string())];
    assert!(declares(&params, &"q".to_string()));
    assert!(!declares(&params, &"r".to_string()));
}

#[test]
fn values_written_back_as_expressions() {
    assert_eq!(value_to_literal(&Value::Number(2.5f64.to_bits())), bits(2.5));
    assert_eq!(
        value_to_literal(&Value::Boolean(true)),
        ConstituentExpression::Boolean(Boolean(true))
    );
    assert_eq!(
        value_to_literal(&Value::PrimitiveOperation(PrimitiveOperation::Car)),
        ConstituentExpression::PrimitiveOperation(PrimitiveOperation::Car)
    );
    let body = vec![Box::new(parse("(+ x 1)"))];
    let closure = Value::Closure(Closure {
        params: vec![VariableDeclaration("x".to_string())],
        body: duplicate_exprs(&body),
    });
    assert_eq!(value_to_literal(&closure), parse("(lambda (x) (+ x 1))"));
    let list = SExpression::Compound(
        Value::Number(1.0f64.to_bits()),
        Value::SExpression(Box::new(SExpression::Nil)),
    );
    assert_eq!(
        value_to_literal(&Value::SExpression(Box::new(list.duplicate()))),
        ConstituentExpression::Literal(list)
    );
}

#[test]
fn let_is_an_application_of_a_procedure() {
    assert_eq!(
        desugared(&parse("(let ((x 1) (y 2)) (+ x y) x)")),
        parse("((lambda (x y) (+ x y) x) 1 2)")
    );
    assert_eq!(
        desugared(&parse("(f (let ((x (let ((y 1)) y))) (lambda (z) (let () z))))")),
        parse("(f ((lambda (x) (lambda (z) ((lambda () z)))) ((lambda (y) y) 1)))")
    );
    assert_eq!(desugared(&parse("(if a (f b) 1)")), parse("(if a (f b) 1)"));
    let by_hand = ConstituentExpression::Let(Let { bindings: vec![], body: vec![] });
    assert_eq!(desugared(&by_hand), app(lambda(vec![], vec![]), vec![]));
}

#[test]
fn the_chain_of_definitions() {
    let empty = Environment::Empty;
    assert!(matches!(empty.apply("x"), Err(SchemeError::UndefinedVariable(_))));
    let one = empty.extend("x", Value::Boolean(true));
    let two = one.extend("y", Value::Boolean(false));
    let three = two.extend("x", Value::Number(7));
    assert_eq!(one.apply("x"), Ok(&Value::Boolean(true)));
    assert_eq!(two.apply("x"), Ok(&Value::Boolean(true)));
    assert_eq!(two.apply("y"), Ok(&Value::Boolean(false)));
    assert_eq!(three.apply("x"), Ok(&Value::Number(7)));
    assert_eq!(three.apply("y"), Ok(&Value::Boolean(false)));
    assert_eq!(
        three.apply("z"),
        Err(SchemeError::UndefinedVariable("Undefined variable: z".to_string()))
    );
    assert_eq!(three.duplicate(), three);
    assert!(SExpression::Nil.is_empty());
    assert!(!SExpression::Symbol("a".to_string()).is_empty());
}
