use rusty_scheme::ast::{
    Application, Boolean, ConstituentExpression, Define, Expression, If, Let, Number,
    PrimitiveOperation, Procedure, Program, VariableDeclaration, VariableReference,
};
use rusty_scheme::parser::{
    parse_cexp, parse_cexp_at, parse_cexps, parse_identifier, parse_number, parse_primop,
    parse_program, parse_quoted, skip_whitespace, starts_with, text_of, NumberScan, Scan,
};
use rusty_scheme::SchemeError;

fn num(text: &str) -> ConstituentExpression {
    ConstituentExpression::Number(Number::Literal(text.to_string()))
}

fn var(name: &str) -> ConstituentExpression {
    ConstituentExpression::VariableReference(VariableReference(name.to_string()))
}

fn op(primop: PrimitiveOperation) -> ConstituentExpression {
    ConstituentExpression::PrimitiveOperation(primop)
}

fn decl(name: &str) -> VariableDeclaration {
    VariableDeclaration(name.to_string())
}

fn app(operator: ConstituentExpression, operands: Vec<ConstituentExpression>) -> ConstituentExpression {
    ConstituentExpression::Applic(Application {
        operator: Box::new(operator),
        operands: operands.into_iter().map(Box::new).collect(),
    })
}

fn lambda(params: Vec<&str>, body: Vec<ConstituentExpression>) -> ConstituentExpression {
    ConstituentExpression::Procedure(Procedure {
        args: params.into_iter().map(decl).collect(),
        body: body.into_iter().map(Box::new).collect(),
    })
}

fn iff(
    cond: ConstituentExpression,
    then_branch: ConstituentExpression,
    alt: ConstituentExpression,
) -> ConstituentExpression {
    ConstituentExpression::If(If {
        cond: Box::new(cond),
        then_branch: Box::new(then_branch),
        alt: Box::new(alt),
    })
}

fn operator_token(op: &PrimitiveOperation) -> &'static str {
    match op {
        PrimitiveOperation::Add => "+",
        PrimitiveOperation::Sub => "-",
        PrimitiveOperation::Mul => "*",
        PrimitiveOperation::Div => "/",
        PrimitiveOperation::Equal => "=",
        PrimitiveOperation::LessThan => "<",
        PrimitiveOperation::LessThanOrEqual => "<=",
        PrimitiveOperation::GreaterThan => ">",
        PrimitiveOperation::GreaterThanOrEqual => ">=",
        PrimitiveOperation::Not => "not",
        PrimitiveOperation::And => "and",
        PrimitiveOperation::Or => "or",
        PrimitiveOperation::IsEq => "eq?",
        PrimitiveOperation::Cons => "cons",
        PrimitiveOperation::Car => "car",
        PrimitiveOperation::Cdr => "cdr",
        PrimitiveOperation::List => "list",
        PrimitiveOperation::IsPair => "pair?",
        PrimitiveOperation::IsNumber => "number?",
        PrimitiveOperation::IsBoolean => "boolean?",
        PrimitiveOperation::IsSymbol => "symbol?",
    }
}

fn write_all(exps: &[Box<ConstituentExpression>]) -> String {
    exps.iter().map(|e| write_cexp(e)).collect::<Vec<String>>().join(" ")
}

fn write_cexp(e: &ConstituentExpression) -> String {
    match e {
        ConstituentExpression::Applic(a) => {
            if a.operands.is_empty() {
                format!("({})", write_cexp(&a.operator))
            } else {
                format!("({} {})", write_cexp(&a.operator), write_all(&a.operands))
            }
        }
        ConstituentExpression::If(f) => format!(
            "(if {} {} {})",
            write_cexp(&f.cond),
            write_cexp(&f.then_branch),
            write_cexp(&f.alt)
        ),
        ConstituentExpression::Procedure(p) => {
            let params: Vec<String> = p.args.iter().map(|a| a.0.clone()).collect();
            format!("(lambda ({}) {})", params.join(" "), write_all(&p.body))
        }
        ConstituentExpression::Let(l) => {
            let bindings: Vec<String> =
                l.bindings.iter().map(|(n, v)| format!("({} {})", n.0, write_cexp(v))).collect();
            format!("(let ({}) {})", bindings.join(" "), write_all(&l.body))
        }
        ConstituentExpression::Number(Number::Literal(text)) => text.clone(),
        ConstituentExpression::Boolean(Boolean(true)) => "#t".to_string(),
        ConstituentExpression::Boolean(Boolean(false)) => "#f".to_string(),
        ConstituentExpression::PrimitiveOperation(op) => operator_token(op).to_string(),
        ConstituentExpression::VariableReference(v) => v.0.clone(),
        other => panic!("nothing to write for {:?}", other),
    }
}

fn write_program(program: &Program) -> String {
    let forms: Vec<String> = program
        .exps
        .iter()
        .map(|form| match form {
            Expression::Define(d) => format!("(define {} {})", d.var, write_cexp(&d.val)),
            Expression::ConstituentExpression(e) => write_cexp(e),
        })
        .collect();
    format!("(L3 {})", forms.join(" "))
}

#[test]
fn a_program_written_out_parses_back() {
    let texts = [
        "(L3 (define x 5) (define sq (lambda (x) (* x x))) (sq 5))",
        "(L3 (define fact (lambda (n) (if (= n 0) 1 (* n (fact (- n 1)))))) (fact 5))",
        "(L3 (let ((a 1.5) (b (list 1 2))) (if (<= a 2) (car b) (cdr b)) #f))",
        "(L3 ((lambda () (and #t (or (not x) (eq? y z))))) (f) 12.5e3)",
        "(L3 (pair? (cons 1 2)) (number? 1) (boolean? #t) (symbol? s) (>= 2 1) (> 2 1) (< 1 2) (/ 1 2))",
    ];
    for text in texts {
        let parsed = parse_program(text).unwrap();
        let written = write_program(&parsed);
        assert_eq!(written, text);
        assert_eq!(parse_program(&written), Ok(parsed));
    }
    let by_hand = Program {
        exps: vec![
            Expression::Define(Define {
                var: "twice".to_string(),
                val: lambda(vec!["f", "x"], vec![app(var("f"), vec![app(var("f"), vec![var("x")])])]),
            }),
            Expression::ConstituentExpression(app(
                var("twice"),
                vec![lambda(vec!["n"], vec![app(op(PrimitiveOperation::Mul), vec![num("2"), var("n")])]), num("3")],
            )),
        ],
    };
    assert_eq!(
        write_program(&by_hand),
        "(L3 (define twice (lambda (f x) (f (f x)))) (twice (lambda (n) (* 2 n)) 3))"
    );
    assert_eq!(parse_program(&write_program(&by_hand)), Ok(by_hand));
}

#[test]
fn program_with_definitions_and_an_application() {
    let parsed = parse_program("(L3 (define x 5) (define sq (lambda (x) (* x x))) (sq 5))");
    let expected = Program {
        exps: vec![
            Expression::Define(Define { var: "x".to_string(), val: num("5") }),
            Expression::Define(Define {
                var: "sq".to_string(),
                val: lambda(vec!["x"], vec![app(op(PrimitiveOperation::Mul), vec![var("x"), var("x")])]),
            }),
            Expression::ConstituentExpression(app(var("sq"), vec![num("5")])),
        ],
    };
    assert_eq!(parsed, Ok(expected));
}

#[test]
fn factorial_program() {
    let parsed =
        parse_program("(L3 (define fact (lambda (n) (if (= n 0) 1 (* n (fact (- n 1)))))) (fact 5))");
    let body = iff(
        app(op(PrimitiveOperation::Equal), vec![var("n"), num("0")]),
        num("1"),
        app(
            op(PrimitiveOperation::Mul),
            vec![
                var("n"),
                app(var("fact"), vec![app(op(PrimitiveOperation::Sub), vec![var("n"), num("1")])]),
            ],
        ),
    );
    let expected = Program {
        exps: vec![
            Expression::Define(Define { var: "fact".to_string(), val: lambda(vec!["n"], vec![body]) }),
            Expression::ConstituentExpression(app(var("fact"), vec![num("5")])),
        ],
    };
    assert_eq!(parsed, Ok(expected));
}

#[test]
fn layout_does_not_matter() {
    let dense = parse_program("(L3 (+ 1 2))");
    let loose = parse_program("  \n( L3\t(  +\r\n 1   2 )\n)\n ");
    assert_eq!(dense, Ok(Program {
        exps: vec![Expression::ConstituentExpression(app(
            op(PrimitiveOperation::Add),
            vec![num("1"), num("2")]
        ))],
    }));
    assert_eq!(dense, loose);
}

#[test]
fn let_with_bindings() {
    let parsed = parse_cexp("(let ((x 1) (y (+ x 2))) y x)");
    let expected = ConstituentExpression::Let(Let {
        bindings: vec![
            (decl("x"), Box::new(num("1"))),
            (decl("y"), Box::new(app(op(PrimitiveOperation::Add), vec![var("x"), num("2")]))),
        ],
        body: vec![Box::new(var("y")), Box::new(var("x"))],
    });
    assert_eq!(parsed, Ok(expected));
    assert_eq!(
        parse_cexp("(let () 1)"),
        Ok(ConstituentExpression::Let(Let { bindings: vec![], body: vec![Box::new(num("1"))] }))
    );
}

#[test]
fn lambda_without_parameters_and_with_several_expressions() {
    assert_eq!(parse_cexp("(lambda () 1 x)"), Ok(lambda(vec![], vec![num("1"), var("x")])));
    assert_eq!(parse_cexp("(lambda (a b-c d?) a)"), Ok(lambda(vec!["a", "b-c", "d?"], vec![var("a")])));
}

#[test]
fn booleans() {
    assert_eq!(parse_cexp("#t"), Ok(ConstituentExpression::Boolean(Boolean(true))));
    assert_eq!(parse_cexp(" #f "), Ok(ConstituentExpression::Boolean(Boolean(false))));
    assert_eq!(parse_cexp("#x"), Err(SchemeError::ParseError));
}

#[test]
fn every_operator_token() {
    let tokens = [
        ("+", PrimitiveOperation::Add),
        ("-", PrimitiveOperation::Sub),
        ("*", PrimitiveOperation::Mul),
        ("/", PrimitiveOperation::Div),
        ("=", PrimitiveOperation::Equal),
        ("<", PrimitiveOperation::LessThan),
        ("<=", PrimitiveOperation::LessThanOrEqual),
        (">", PrimitiveOperation::GreaterThan),
        (">=", PrimitiveOperation::GreaterThanOrEqual),
        ("not", PrimitiveOperation::Not),
        ("and", PrimitiveOperation::And),
        ("or", PrimitiveOperation::Or),
        ("cons", PrimitiveOperation::Cons),
        ("car", PrimitiveOperation::Car),
        ("cdr", PrimitiveOperation::Cdr),
        ("list", PrimitiveOperation::List),
        ("eq?", PrimitiveOperation::IsEq),
        ("pair?", PrimitiveOperation::IsPair),
        ("number?", PrimitiveOperation::IsNumber),
        ("boolean?", PrimitiveOperation::IsBoolean),
        ("symbol?", PrimitiveOperation::IsSymbol),
    ];
    for (text, primop) in tokens {
        assert_eq!(parse_cexp(text), Ok(op(primop)));
        assert_eq!(parse_primop(text.as_bytes(), 0), Some((primop, text.len())));
    }
}

#[test]
fn an_operator_is_read_off_the_front_of_a_name() {
    assert_eq!(parse_primop("carnation".as_bytes(), 0), Some((PrimitiveOperation::Car, 3)));
    assert_eq!(parse_primop("order".as_bytes(), 0), Some((PrimitiveOperation::Or, 2)));
    assert_eq!(parse_primop("note".as_bytes(), 0), Some((PrimitiveOperation::Not, 3)));
    assert_eq!(parse_primop("list-length".as_bytes(), 0), Some((PrimitiveOperation::List, 4)));
    assert_eq!(parse_primop("eq?x".as_bytes(), 0), Some((PrimitiveOperation::IsEq, 3)));
    assert_eq!(parse_primop("a car".as_bytes(), 2), Some((PrimitiveOperation::Car, 5)));
    assert_eq!(
        parse_cexp("(carnation)"),
        Ok(app(op(PrimitiveOperation::Car), vec![var("nation")]))
    );
    assert_eq!(
        parse_cexp("(f order note)"),
        Ok(app(
            var("f"),
            vec![op(PrimitiveOperation::Or), var("der"), op(PrimitiveOperation::Not), var("e")]
        ))
    );
    assert_eq!(parse_cexp("note"), Err(SchemeError::ParseError));
    assert_eq!(
        parse_cexp("(<=1 2)"),
        Ok(app(op(PrimitiveOperation::LessThanOrEqual), vec![num("1"), num("2")]))
    );
    assert_eq!(
        parse_cexp("(<1 2)"),
        Ok(app(op(PrimitiveOperation::LessThan), vec![num("1"), num("2")]))
    );
}

#[test]
fn a_name_that_starts_like_no_operator_is_a_variable() {
    assert_eq!(parse_primop("eq".as_bytes(), 0), None);
    assert_eq!(parse_primop("ca".as_bytes(), 0), None);
    assert_eq!(parse_primop("Car".as_bytes(), 0), None);
    assert_eq!(parse_primop("xcar".as_bytes(), 0), None);
    assert_eq!(parse_primop("".as_bytes(), 0), None);
    assert_eq!(parse_primop("pair".as_bytes(), 0), None);
    assert_eq!(parse_cexp("eq"), Ok(var("eq")));
    assert_eq!(parse_cexp("scar"), Ok(var("scar")));
    assert_eq!(parse_cexp("my-list"), Ok(var("my-list")));
}

#[test]
fn a_name_that_is_an_operator_is_the_operator() {
    assert_eq!(parse_cexp("(list list)"), Ok(app(op(PrimitiveOperation::List), vec![op(PrimitiveOperation::List)])));
}

#[test]
fn minus_is_an_operator_wherever_it_starts_an_expression() {
    assert_eq!(parse_cexp("(-5)"), Ok(app(op(PrimitiveOperation::Sub), vec![num("5")])));
    assert_eq!(parse_cexp("(- x)"), Ok(app(op(PrimitiveOperation::Sub), vec![var("x")])));
    assert_eq!(
        parse_cexp("(f -x)"),
        Ok(app(var("f"), vec![op(PrimitiveOperation::Sub), var("x")]))
    );
}

#[test]
fn numerals_are_kept_as_written() {
    assert_eq!(parse_cexp("12.5e3"), Ok(num("12.5e3")));
    assert_eq!(parse_cexp(".5"), Ok(num(".5")));
    assert_eq!(parse_cexp("5."), Ok(num("5.")));
    assert_eq!(parse_cexp("1E-2"), Ok(num("1E-2")));
    assert_eq!(parse_cexp("007"), Ok(num("007")));
    assert_eq!(parse_cexp("nan"), Ok(num("nan")));
    assert_eq!(parse_cexp("INF"), Ok(num("INF")));
}

#[test]
fn a_number_ends_where_its_digits_end() {
    assert_eq!(parse_cexp("(5x)"), Ok(app(num("5"), vec![var("x")])));
    assert_eq!(parse_cexp("(1.2.3)"), Ok(app(num("1.2"), vec![num(".3")])));
    assert_eq!(parse_number("42)".as_bytes(), 0), NumberScan::Token(2));
    assert_eq!(parse_number("x42".as_bytes(), 0), NumberScan::Absent);
    assert_eq!(parse_number("x42".as_bytes(), 1), NumberScan::Token(2));
    assert_eq!(parse_number("".as_bytes(), 0), NumberScan::Absent);
}

#[test]
fn no_number_starts_with_a_byte_that_no_number_has_first() {
    let first = "+-.0123456789nNiI".as_bytes();
    for b in 0..=255u8 {
        for tail in ["", "1", "an", "nf", ".5", "e1"] {
            let mut text = vec![b];
            text.extend_from_slice(tail.as_bytes());
            match parse_number(text.as_slice(), 0) {
                NumberScan::Token(n) => {
                    assert!(first.contains(&b));
                    assert!(0 < n && n <= text.len());
                }
                NumberScan::Malformed => assert!(first.contains(&b)),
                NumberScan::Absent => {}
            }
            if !first.contains(&b) {
                assert_eq!(parse_number(text.as_slice(), 0), NumberScan::Absent);
            }
        }
    }
    assert_eq!(parse_number("+".as_bytes(), 0), NumberScan::Absent);
    assert_eq!(parse_number("n".as_bytes(), 0), NumberScan::Absent);
    assert_eq!(parse_number("Nan".as_bytes(), 0), NumberScan::Token(3));
    assert_eq!(parse_number("-.5e-3x".as_bytes(), 0), NumberScan::Token(6));
}

#[test]
fn an_exponent_without_digits_is_malformed() {
    assert_eq!(parse_number("1e".as_bytes(), 0), NumberScan::Malformed);
    assert_eq!(parse_number("1e+)".as_bytes(), 0), NumberScan::Malformed);
    assert_eq!(parse_cexp("(f 1e)"), Err(SchemeError::ParseError));
    assert_eq!(parse_program("(L3 1ex)"), Err(SchemeError::ParseError));
}

#[test]
fn a_form_with_a_keyword_must_be_well_formed() {
    assert_eq!(parse_cexp("(if a b)"), Err(SchemeError::ParseError));
    assert_eq!(parse_cexp("(if a b c d)"), Err(SchemeError::ParseError));
    assert_eq!(parse_cexp("(lambda x x)"), Err(SchemeError::ParseError));
    assert_eq!(parse_cexp("(lambda (x))"), Err(SchemeError::ParseError));
    assert_eq!(parse_cexp("(lambda (x (y)) x)"), Err(SchemeError::ParseError));
    assert_eq!(parse_cexp("(let ((x)) x)"), Err(SchemeError::ParseError));
    assert_eq!(parse_cexp("(let ((x 1)))"), Err(SchemeError::ParseError));
    assert_eq!(parse_cexp("(let x 1)"), Err(SchemeError::ParseError));
    assert_eq!(parse_program("(L3 (define x))"), Err(SchemeError::ParseError));
    assert_eq!(parse_program("(L3 (define 1 2) 3)"), Ok(Program {
        exps: vec![
            Expression::Define(Define { var: "1".to_string(), val: num("2") }),
            Expression::ConstituentExpression(num("3")),
        ],
    }));
    assert_eq!(parse_program("(L3 (define (f) 2) 3)"), Err(SchemeError::ParseError));
}

#[test]
fn a_name_is_any_run_of_name_characters() {
    assert_eq!(parse_cexp("(lambda (x 1 -) x)"), Ok(lambda(vec!["x", "1", "-"], vec![var("x")])));
    assert_eq!(parse_cexp("?x!"), Ok(var("?x!")));
    assert_eq!(parse_cexp("a_b"), Err(SchemeError::ParseError));
}

#[test]
fn a_keyword_without_a_space_after_it_is_a_name() {
    assert_eq!(parse_cexp("(if)"), Ok(app(var("if"), vec![])));
    assert_eq!(parse_cexp("(iffy 1)"), Ok(app(var("iffy"), vec![num("1")])));
    assert_eq!(parse_cexp("(lambda(x) x)"), Ok(app(var("lambda"), vec![app(var("x"), vec![]), var("x")])));
    assert_eq!(parse_cexp("(f (define x 1))"), Ok(app(var("f"), vec![app(var("define"), vec![var("x"), num("1")])])));
}

#[test]
fn what_is_no_program() {
    assert_eq!(parse_program(""), Err(SchemeError::ParseError));
    assert_eq!(parse_program("(L3)"), Err(SchemeError::ParseError));
    assert_eq!(parse_program("(L3 )"), Err(SchemeError::ParseError));
    assert_eq!(parse_program("(L3 1"), Err(SchemeError::ParseError));
    assert_eq!(parse_program("(L3 1) 2"), Err(SchemeError::ParseError));
    assert_eq!(parse_program("(L3 1))"), Err(SchemeError::ParseError));
    assert_eq!(parse_program("(L4 1)"), Err(SchemeError::ParseError));
    assert_eq!(parse_program("(L31)"), Err(SchemeError::ParseError));
    assert_eq!(parse_program("L3 1"), Err(SchemeError::ParseError));
    assert_eq!(parse_program("(L3 ())"), Err(SchemeError::ParseError));
    assert_eq!(parse_program("(L3 'a)"), Err(SchemeError::ParseError));
    assert_eq!(parse_program("(L3 (f \u{e9}))"), Err(SchemeError::ParseError));
}

#[test]
fn what_is_no_expression() {
    assert_eq!(parse_cexp(""), Err(SchemeError::ParseError));
    assert_eq!(parse_cexp("()"), Err(SchemeError::ParseError));
    assert_eq!(parse_cexp("(f"), Err(SchemeError::ParseError));
    assert_eq!(parse_cexp("f)"), Err(SchemeError::ParseError));
    assert_eq!(parse_cexp("a b"), Err(SchemeError::ParseError));
    assert_eq!(parse_cexp("'a"), Err(SchemeError::ParseError));
    assert_eq!(parse_cexp("(quote a)"), Ok(app(var("quote"), vec![var("a")])));
}

#[test]
fn a_quote_ends_the_parse() {
    assert!(parse_quoted("'a".as_bytes(), 0));
    assert!(!parse_quoted("a'".as_bytes(), 0));
    assert!(!parse_quoted("".as_bytes(), 0));
    assert!(matches!(parse_cexp_at("  'a".as_bytes(), 0), Scan::Fail));
    assert!(matches!(parse_cexps("b 'a".as_bytes(), 0), Scan::Fail));
    assert!(matches!(parse_cexp_at(")".as_bytes(), 0), Scan::Miss));
    assert!(matches!(parse_cexps("b )".as_bytes(), 0), Scan::Done(_, 1)));
    assert_eq!(parse_cexp("(f '(1 2))"), Err(SchemeError::ParseError));
}

#[test]
fn deeply_nested_applications() {
    assert_eq!(
        parse_cexp("((((f))))"),
        Ok(app(app(app(app(var("f"), vec![]), vec![]), vec![]), vec![]))
    );
}

#[test]
fn helpers_on_bytes() {
    let bytes = "  ab-c?! (x".as_bytes();
    assert_eq!(skip_whitespace(bytes, 0), 2);
    assert_eq!(skip_whitespace(bytes, 2), 2);
    assert_eq!(parse_identifier(bytes, 2), 8);
    assert_eq!(parse_identifier(bytes, 8), 8);
    assert_eq!(text_of(bytes, 2, 8), "ab-c?!".to_string());
    assert!(starts_with(bytes, 2, "ab".as_bytes()));
    assert!(!starts_with(bytes, 2, "ac".as_bytes()));
    assert!(!starts_with(bytes, 10, "xy".as_bytes()));
    assert_eq!(skip_whitespace(bytes, bytes.len()), bytes.len());
}
