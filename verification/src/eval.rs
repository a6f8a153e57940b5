//! Evaluation by substitution.
//!
//! A procedure is applied by renaming the parameters of the procedures in its
//! body, writing the arguments back as expressions, substituting them for the
//! parameters, and evaluating the body that results. A closure therefore holds
//! no environment: the only names looked up are those of the top-level
//! definitions.
//!
//! `depth` bounds how deeply applications of closures may nest; an evaluation
//! that would go deeper fails with `StackExhausted`.
use vstd::prelude::*;
use vstd::slice::slice_subrange;
use crate::ast::{
    binding_names, binding_values, duplicate_exprs, duplicate_names, exprs_view, forms_view,
    names_view, Application, ConstituentExpression, Define, Expression, ExprView, FormView, If, Let,
    Number, NumberView, Procedure, Program, VariableDeclaration,
};
use crate::env::{extended, lemma_lookup_extended, lookup, undefined_text, Environment};
use crate::numeric::{answer, Oracle, Query, QueryView};
use crate::primitives::{
    apply_primitive, apply_primitive_spec, is_true, truthy, value_views, wrong_count,
};
use crate::substitution::{
    lemma_rename_all_let_free, literal_of, rename, renamed, subst_all, substitute, texts,
    value_to_literal, views,
};
use crate::sugar::{desugar_all, desugared_all};
use crate::value::{debug_rendering, debug_text, Closure, Value, ValueView};
use crate::{failure, outcome, ErrorView, Halt, HaltView, Outcome, SchemeError};

verus! {

/// The top-level definitions, as a model.
pub type Scope = Seq<(Seq<char>, ValueView)>;

/// The expressions that stand for the values, in order.
pub open spec fn literals(args: Seq<ValueView>) -> Seq<ExprView> {
    Seq::new(args.len(), |i: int| literal_of(args[i]))
}

/// The expressions as forms of a body.
pub open spec fn plain_forms(es: Seq<ExprView>) -> Seq<FormView> {
    Seq::new(es.len(), |i: int| FormView::Plain(es[i]))
}

/// The body of a closure with the arguments in place of its parameters:
/// desugared, renamed, and then substituted into.
pub open spec fn instantiated(
    params: Seq<Seq<char>>,
    body: Seq<ExprView>,
    args: Seq<ValueView>,
) -> Seq<ExprView> {
    subst_all(renamed(desugar_all(body)), params, literals(args))
}

/// The value of an expression.
pub open spec fn value_of(e: ExprView, env: Scope, host: Map<QueryView, u64>, depth: nat) -> Outcome
    decreases depth, 1int, e, 0int,
{
    match e {
        ExprView::Number(NumberView::Literal(text)) => match answer(
            host,
            QueryView::Numeral(text),
        ) {
            Some(bits) => Ok(ValueView::Number(bits)),
            None => Err(HaltView::Ask(QueryView::Numeral(text))),
        },
        ExprView::Number(NumberView::Bits(bits)) => Ok(ValueView::Number(bits)),
        ExprView::Boolean(b) => Ok(ValueView::Boolean(b)),
        ExprView::Literal(s) => Ok(ValueView::SExpression(Box::new(s))),
        ExprView::PrimitiveOperation(p) => Ok(ValueView::PrimitiveOperation(p)),
        ExprView::VariableReference(name) => match lookup(env, name) {
            Some(v) => Ok(v),
            None => failure(ErrorView::UndefinedVariable(undefined_text(name))),
        },
        ExprView::If { cond, then_branch, alt } => match value_of(*cond, env, host, depth) {
            Err(h) => Err(h),
            Ok(c) => if truthy(c) {
                value_of(*then_branch, env, host, depth)
            } else {
                value_of(*alt, env, host, depth)
            },
        },
        ExprView::Procedure { params, body } => Ok(ValueView::Closure { params, body }),
        ExprView::Let { names, values, body } => match values_of(values, env, host, depth) {
            Err(h) => Err(h),
            Ok(args) => applied(ValueView::Closure { params: names, body }, args, env, host, depth),
        },
        ExprView::Applic { operator, operands } => match value_of(*operator, env, host, depth) {
            Err(h) => Err(h),
            Ok(f) => match values_of(operands, env, host, depth) {
                Err(h) => Err(h),
                Ok(args) => applied(f, args, env, host, depth),
            },
        },
    }
}

/// The values of the expressions, from the first on; the first halt ends it.
pub open spec fn values_of(
    es: Seq<ExprView>,
    env: Scope,
    host: Map<QueryView, u64>,
    depth: nat,
) -> Result<Seq<ValueView>, HaltView>
    decreases depth, 1int, es, 0int,
{
    if es.len() == 0 {
        Ok(Seq::empty())
    } else {
        match values_of(es.drop_last(), env, host, depth) {
            Err(h) => Err(h),
            Ok(init) => match value_of(es.last(), env, host, depth) {
                Err(h) => Err(h),
                Ok(v) => Ok(init.push(v)),
            },
        }
    }
}

/// What the application of a value to arguments gives.
pub open spec fn applied(
    f: ValueView,
    args: Seq<ValueView>,
    env: Scope,
    host: Map<QueryView, u64>,
    depth: nat,
) -> Outcome
    decreases depth, 0int, f, 0int,
{
    match f {
        ValueView::PrimitiveOperation(p) => apply_primitive_spec(p, args, host),
        ValueView::Closure { params, body } => {
            if params.len() != args.len() {
                failure(ErrorView::ArgumentMismatch)
            } else if depth == 0 {
                failure(ErrorView::StackExhausted)
            } else {
                result_of(
                    plain_forms(instantiated(params, body, args)),
                    env,
                    host,
                    (depth - 1) as nat,
                )
            }
        },
        _ => failure(ErrorView::BadProcedure(debug_rendering(f))),
    }
}

/// What a sequence of forms gives: the value of its last form, where that is
/// an expression. A definition is in force for the forms after it.
pub open spec fn result_of(
    forms: Seq<FormView>,
    env: Scope,
    host: Map<QueryView, u64>,
    depth: nat,
) -> Outcome
    decreases depth, 2int, forms, 0int,
{
    if forms.len() == 0 {
        failure(ErrorView::EmptyProgram)
    } else {
        match forms[0] {
            FormView::Define { name, value } => match value_of(value, env, host, depth) {
                Err(h) => Err(h),
                Ok(v) => result_of(forms.drop_first(), extended(env, name, v), host, depth),
            },
            FormView::Plain(e) => match value_of(e, env, host, depth) {
                Err(h) => Err(h),
                Ok(v) => if forms.len() == 1 {
                    Ok(v)
                } else {
                    result_of(forms.drop_first(), env, host, depth)
                },
            },
        }
    }
}

/// A `let` evaluates as the application of the procedure with the bound
/// names as parameters and its body as body to the expressions bound.
pub proof fn lemma_let_is_application(
    names: Seq<Seq<char>>,
    values: Seq<ExprView>,
    body: Seq<ExprView>,
    env: Scope,
    host: Map<QueryView, u64>,
    depth: nat,
)
    ensures
        value_of(ExprView::Let { names, values, body }, env, host, depth) == value_of(
            ExprView::Applic {
                operator: Box::new(ExprView::Procedure { params: names, body }),
                operands: values,
            },
            env,
            host,
            depth,
        ),
{
    assert(value_of(ExprView::Procedure { params: names, body }, env, host, depth) == Ok::<
        ValueView,
        HaltView,
    >(ValueView::Closure { params: names, body }));
}

/// A closure without a body cannot be applied: with the right number of
/// arguments and room to go deeper it fails with `EmptyProgram`.
pub proof fn lemma_empty_body(
    params: Seq<Seq<char>>,
    args: Seq<ValueView>,
    env: Scope,
    host: Map<QueryView, u64>,
    depth: nat,
)
    requires
        params.len() == args.len(),
        depth > 0,
    ensures
        applied(ValueView::Closure { params, body: Seq::empty() }, args, env, host, depth)
            == failure(ErrorView::EmptyProgram),
{
    let body = Seq::<ExprView>::empty();
    assert(desugar_all(body) =~= body);
    assert(instantiated(params, body, args).len() == 0);
}

/// A definition is in force for the forms after it, and for nothing before:
/// a program of a definition and a reference to its name gives the value
/// defined.
pub proof fn lemma_define_then_refer(
    name: Seq<char>,
    value: ExprView,
    env: Scope,
    host: Map<QueryView, u64>,
    depth: nat,
)
    ensures
        result_of(
            seq![FormView::Define { name, value }, FormView::Plain(ExprView::VariableReference(name))],
            env,
            host,
            depth,
        ) == value_of(value, env, host, depth),
        lookup(env, name) is None ==> result_of(
            seq![FormView::Plain(ExprView::VariableReference(name)), FormView::Define { name, value }],
            env,
            host,
            depth,
        ) == failure(ErrorView::UndefinedVariable(undefined_text(name))),
{
    let refer = ExprView::VariableReference(name);
    let forms = seq![FormView::Define { name, value }, FormView::Plain(refer)];
    let rest = forms.drop_first();
    assert(forms[0] == FormView::Define { name, value });
    assert(rest.len() == 1 && rest[0] == FormView::Plain(refer));
    match value_of(value, env, host, depth) {
        Ok(v) => {
            lemma_lookup_extended(env, name, v, name);
            let inner = extended(env, name, v);
            assert(value_of(refer, inner, host, depth) == Ok::<ValueView, HaltView>(v));
            assert(result_of(rest, inner, host, depth) == Ok::<ValueView, HaltView>(v));
        },
        Err(_) => {},
    }
    let early = seq![FormView::Plain(refer), FormView::Define { name, value }];
    assert(early[0] == FormView::Plain(refer));
    if lookup(env, name) is None {
        assert(value_of(refer, env, host, depth) == failure(
            ErrorView::UndefinedVariable(undefined_text(name)),
        ));
    }
}

/// Evaluates a program from an empty chain of definitions.
pub fn eval_program(program: &Program, host: &Oracle, depth: usize) -> (r: Result<Value, Halt>)
    ensures
        outcome(r) == result_of(program@, Seq::empty(), host@, depth as nat),
{
    let env = Environment::Empty;
    eval_sequence(program.exps.as_slice(), &env, host, depth)
}

/// Evaluates an expression.
pub fn applicative_eval(
    cexp: &ConstituentExpression,
    env: &Environment,
    host: &Oracle,
    depth: usize,
) -> (r: Result<Value, Halt>)
    ensures
        outcome(r) == value_of(cexp@, env@, host@, depth as nat),
    decreases depth, 1int, cexp, 0int,
{
    match cexp {
        ConstituentExpression::Number(Number::Literal(text)) => {
            let query = Query::Numeral(text.clone());
            match host.lookup(&query) {
                Some(bits) => Ok(Value::Number(bits)),
                None => Err(Halt::Ask(query)),
            }
        },
        ConstituentExpression::Number(Number::Bits(bits)) => Ok(Value::Number(*bits)),
        ConstituentExpression::Boolean(b) => Ok(Value::Boolean(b.0)),
        ConstituentExpression::Literal(sexpr) => Ok(
            Value::SExpression(Box::new(sexpr.duplicate())),
        ),
        ConstituentExpression::VariableReference(varref) => match env.apply(varref.0.as_str()) {
            Ok(v) => Ok(v.duplicate()),
            Err(e) => Err(Halt::Error(e)),
        },
        ConstituentExpression::PrimitiveOperation(primop) => Ok(Value::PrimitiveOperation(*primop)),
        ConstituentExpression::If(ifexp) => eval_if(ifexp, env, host, depth),
        ConstituentExpression::Procedure(proc) => eval_procedure(proc, env),
        ConstituentExpression::Let(letexp) => eval_let(letexp, env, host, depth),
        ConstituentExpression::Applic(applic) => eval_applic(applic, env, host, depth),
    }
}

/// Evaluates a conditional: the condition, then one of the two branches.
pub fn eval_if(ifexp: &If, env: &Environment, host: &Oracle, depth: usize) -> (r: Result<
    Value,
    Halt,
>)
    ensures
        outcome(r) == value_of(ConstituentExpression::If(*ifexp)@, env@, host@, depth as nat),
    decreases depth, 1int, ifexp, 0int,
{
    match applicative_eval(&ifexp.cond, env, host, depth) {
        Err(h) => Err(h),
        Ok(c) => {
            if is_true(&c) {
                applicative_eval(&ifexp.then_branch, env, host, depth)
            } else {
                applicative_eval(&ifexp.alt, env, host, depth)
            }
        },
    }
}

/// Evaluates a procedure to the closure of its parameters and body.
pub fn eval_procedure(proc: &Procedure, _env: &Environment) -> (r: Result<Value, Halt>)
    ensures
        outcome(r) == Ok::<ValueView, HaltView>(
            ValueView::Closure { params: names_view(proc.args@), body: exprs_view(proc.body@) },
        ),
{
    Ok(
        Value::Closure(
            Closure { params: duplicate_names(&proc.args), body: duplicate_exprs(&proc.body) },
        ),
    )
}

/// Evaluates a `let`: the expressions bound, then the body as that of a
/// procedure applied to their values.
pub fn eval_let(letexp: &Let, env: &Environment, host: &Oracle, depth: usize) -> (r: Result<
    Value,
    Halt,
>)
    ensures
        outcome(r) == value_of(ConstituentExpression::Let(*letexp)@, env@, host@, depth as nat),
    decreases depth, 1int, letexp, 0int,
{
    match eval_bindings(&letexp.bindings, env, host, depth) {
        Err(h) => Err(h),
        Ok((params, args)) => {
            let closure = Closure { params, body: duplicate_exprs(&letexp.body) };
            apply_closure(&closure, args.as_slice(), env, host, depth)
        },
    }
}

/// The names of the bindings of a `let`, and the values of the expressions
/// bound.
pub fn eval_bindings(
    bindings: &Vec<(VariableDeclaration, Box<ConstituentExpression>)>,
    env: &Environment,
    host: &Oracle,
    depth: usize,
) -> (r: Result<(Vec<VariableDeclaration>, Vec<Value>), Halt>)
    ensures
        match r {
            Ok((names, values)) => names_view(names@) == binding_names(bindings@) && values_of(
                binding_values(bindings@),
                env@,
                host@,
                depth as nat,
            ) == Ok::<Seq<ValueView>, HaltView>(value_views(values@)),
            Err(h) => values_of(binding_values(bindings@), env@, host@, depth as nat) == Err::<
                Seq<ValueView>,
                HaltView,
            >(h@),
        },
    decreases depth, 1int, bindings, 0int,
{
    let mut names: Vec<VariableDeclaration> = Vec::new();
    let mut values: Vec<Value> = Vec::new();
    let mut i: usize = 0;
    proof {
        assert(value_views(values@) =~= Seq::<ValueView>::empty());
    }
    while i < bindings.len()
        invariant
            i <= bindings.len(),
            names.len() == i,
            forall|k: int| 0 <= k < i ==> names[k].0@ == bindings[k].0.0@,
            values_of(binding_values(bindings@).take(i as int), env@, host@, depth as nat) == Ok::<
                Seq<ValueView>,
                HaltView,
            >(value_views(values@)),
        decreases bindings.len() - i,
    {
        proof {
            let prefix = binding_values(bindings@).take(i + 1);
            assert(prefix.drop_last() =~= binding_values(bindings@).take(i as int));
            lemma_values_of_halts(binding_values(bindings@), i + 1, env@, host@, depth as nat);
        }
        match applicative_eval(&bindings[i].1, env, host, depth) {
            Err(h) => {
                return Err(h);
            },
            Ok(v) => {
                let ghost before = value_views(values@);
                names.push(VariableDeclaration(bindings[i].0.0.clone()));
                values.push(v);
                assert(value_views(values@) =~= before.push(v@));
            },
        }
        i = i + 1;
    }
    proof {
        assert(binding_values(bindings@).take(i as int) =~= binding_values(bindings@));
    }
    Ok((names, values))
}

/// A halt among the first expressions is the halt of the whole sequence.
pub proof fn lemma_values_of_halts(
    es: Seq<ExprView>,
    n: int,
    env: Scope,
    host: Map<QueryView, u64>,
    depth: nat,
)
    requires
        0 <= n <= es.len(),
    ensures
        values_of(es.take(n), env, host, depth) is Err ==> values_of(es, env, host, depth)
            == values_of(es.take(n), env, host, depth),
    decreases es.len() - n,
{
    if n < es.len() {
        let longer = es.take(n + 1);
        assert(longer.drop_last() =~= es.take(n));
        lemma_values_of_halts(es, n + 1, env, host, depth);
    } else {
        assert(es.take(n) =~= es);
    }
}

/// The values of the operands of an application, from the first on.
pub fn eval_operands(
    operands: &Vec<Box<ConstituentExpression>>,
    env: &Environment,
    host: &Oracle,
    depth: usize,
) -> (r: Result<Vec<Value>, Halt>)
    ensures
        match r {
            Ok(values) => values_of(exprs_view(operands@), env@, host@, depth as nat) == Ok::<
                Seq<ValueView>,
                HaltView,
            >(value_views(values@)),
            Err(h) => values_of(exprs_view(operands@), env@, host@, depth as nat) == Err::<
                Seq<ValueView>,
                HaltView,
            >(h@),
        },
    decreases depth, 1int, operands, 0int,
{
    let mut values: Vec<Value> = Vec::new();
    let mut i: usize = 0;
    proof {
        assert(value_views(values@) =~= Seq::<ValueView>::empty());
    }
    while i < operands.len()
        invariant
            i <= operands.len(),
            values_of(exprs_view(operands@).take(i as int), env@, host@, depth as nat) == Ok::<
                Seq<ValueView>,
                HaltView,
            >(value_views(values@)),
        decreases operands.len() - i,
    {
        proof {
            let prefix = exprs_view(operands@).take(i + 1);
            assert(prefix.drop_last() =~= exprs_view(operands@).take(i as int));
            lemma_values_of_halts(exprs_view(operands@), i + 1, env@, host@, depth as nat);
        }
        match applicative_eval(&operands[i], env, host, depth) {
            Err(h) => {
                return Err(h);
            },
            Ok(v) => {
                let ghost before = value_views(values@);
                values.push(v);
                assert(value_views(values@) =~= before.push(v@));
            },
        }
        i = i + 1;
    }
    proof {
        assert(exprs_view(operands@).take(i as int) =~= exprs_view(operands@));
    }
    Ok(values)
}

/// Evaluates an application: the operator, the operands from the first on,
/// then the application of the one to the others.
pub fn eval_applic(applic: &Application, env: &Environment, host: &Oracle, depth: usize) -> (r:
    Result<Value, Halt>)
    ensures
        outcome(r) == value_of(ConstituentExpression::Applic(*applic)@, env@, host@, depth as nat),
    decreases depth, 1int, applic, 0int,
{
    match applicative_eval(&applic.operator, env, host, depth) {
        Err(h) => Err(h),
        Ok(operator) => match eval_operands(&applic.operands, env, host, depth) {
            Err(h) => Err(h),
            Ok(operands) => apply_procedure(&operator, operands.as_slice(), env, host, depth),
        },
    }
}

/// Applies a value to arguments: a primitive, a closure, or an error.
pub fn apply_procedure(
    operator: &Value,
    operands: &[Value],
    env: &Environment,
    host: &Oracle,
    depth: usize,
) -> (r: Result<Value, Halt>)
    ensures
        outcome(r) == applied(operator@, value_views(operands@), env@, host@, depth as nat),
    decreases depth, 0int, operator, 0int,
{
    match operator {
        Value::PrimitiveOperation(primop) => apply_primitive(primop, operands, host),
        Value::Closure(closure) => apply_closure(closure, operands, env, host, depth),
        _ => Err(Halt::Error(SchemeError::BadProcedure(debug_text(operator)))),
    }
}

/// Applies a closure: its body, with the arguments in place of the
/// parameters, is evaluated as a sequence one level deeper.
pub fn apply_closure(
    proc: &Closure,
    args: &[Value],
    env: &Environment,
    host: &Oracle,
    depth: usize,
) -> (r: Result<Value, Halt>)
    ensures
        outcome(r) == applied(
            Value::Closure(*proc)@,
            value_views(args@),
            env@,
            host@,
            depth as nat,
        ),
    decreases depth, 0int, proc, 0int,
{
    if proc.params.len() != args.len() {
        return Err(wrong_count("as many arguments as parameters", args.len()));
    }
    if depth == 0 {
        return Err(Halt::Error(SchemeError::StackExhausted));
    }
    let mut vars: Vec<String> = Vec::new();
    let mut lit_args: Vec<ConstituentExpression> = Vec::new();
    let mut i: usize = 0;
    while i < args.len()
        invariant
            i <= args.len(),
            proc.params.len() == args.len(),
            vars.len() == i,
            lit_args.len() == i,
            forall|k: int| 0 <= k < i ==> vars[k]@ == proc.params[k].0@,
            forall|k: int| 0 <= k < i ==> lit_args[k]@ == literal_of(args[k]@),
        decreases args.len() - i,
    {
        vars.push(proc.params[i].0.clone());
        lit_args.push(value_to_literal(&args[i]));
        i = i + 1;
    }
    let plain = desugared_all(&proc.body);
    proof {
        lemma_rename_all_let_free(exprs_view(plain@), Seq::empty(), Seq::empty(), 0);
    }
    let body = rename(&plain);
    let substituted = substitute(&body, vars.as_slice(), lit_args.as_slice());
    proof {
        assert(texts(vars@) =~= names_view(proc.params@));
        assert(views(lit_args@) =~= literals(value_views(args@)));
    }
    let exps = as_forms(&substituted);
    eval_sequence(exps.as_slice(), env, host, (depth - 1) as usize)
}

/// A copy of each expression, as a form of a body.
pub fn as_forms(exps: &Vec<ConstituentExpression>) -> (r: Vec<Expression>)
    ensures
        forms_view(r@) == plain_forms(views(exps@)),
{
    let mut out: Vec<Expression> = Vec::new();
    let mut i: usize = 0;
    while i < exps.len()
        invariant
            i <= exps.len(),
            out.len() == i,
            forall|k: int| 0 <= k < i ==> out[k]@ == FormView::Plain(exps[k]@),
        decreases exps.len() - i,
    {
        out.push(Expression::ConstituentExpression(exps[i].duplicate()));
        i = i + 1;
    }
    out
}

/// Evaluates a sequence of forms.
pub fn eval_sequence(exps: &[Expression], env: &Environment, host: &Oracle, depth: usize) -> (r:
    Result<Value, Halt>)
    ensures
        outcome(r) == result_of(forms_view(exps@), env@, host@, depth as nat),
    decreases depth, 2int, exps@, 1int,
{
    if exps.len() == 0 {
        Err(Halt::Error(SchemeError::EmptyProgram))
    } else {
        let rest = slice_subrange(exps, 1, exps.len());
        proof {
            assert(forms_view(exps@) =~= seq![exps[0]@] + forms_view(rest@));
        }
        match &exps[0] {
            Expression::Define(def) => eval_define_exps(def, rest, env, host, depth),
            Expression::ConstituentExpression(cexp) => eval_cexps(cexp, rest, env, host, depth),
        }
    }
}

/// The outcome of an expression followed by more forms.
pub open spec fn plain_then(
    first: ExprView,
    rest: Seq<FormView>,
    env: Scope,
    host: Map<QueryView, u64>,
    depth: nat,
) -> Outcome {
    result_of(seq![FormView::Plain(first)] + rest, env, host, depth)
}

/// The outcome of a definition followed by more forms.
pub open spec fn define_then(
    name: Seq<char>,
    value: ExprView,
    rest: Seq<FormView>,
    env: Scope,
    host: Map<QueryView, u64>,
    depth: nat,
) -> Outcome {
    result_of(seq![FormView::Define { name, value }] + rest, env, host, depth)
}

/// Evaluates an expression and then the forms after it: the value of the
/// expression where none follows.
pub fn eval_cexps(
    first: &ConstituentExpression,
    rest: &[Expression],
    env: &Environment,
    host: &Oracle,
    depth: usize,
) -> (r: Result<Value, Halt>)
    ensures
        outcome(r) == plain_then(first@, forms_view(rest@), env@, host@, depth as nat),
    decreases depth, 2int, rest@, 2int,
{
    proof {
        let forms = seq![FormView::Plain(first@)] + forms_view(rest@);
        assert(forms.drop_first() =~= forms_view(rest@));
    }
    match applicative_eval(first, env, host, depth) {
        Err(h) => Err(h),
        Ok(value) => {
            if rest.len() == 0 {
                Ok(value)
            } else {
                eval_sequence(rest, env, host, depth)
            }
        },
    }
}

/// Evaluates a definition and then the forms after it, with the definition
/// in force.
pub fn eval_define_exps(
    def: &Define,
    exps: &[Expression],
    env: &Environment,
    host: &Oracle,
    depth: usize,
) -> (r: Result<Value, Halt>)
    ensures
        outcome(r) == define_then(def.var@, def.val@, forms_view(exps@), env@, host@, depth as nat),
    decreases depth, 2int, exps@, 2int,
{
    proof {
        let forms = seq![FormView::Define { name: def.var@, value: def.val@ }] + forms_view(exps@);
        assert(forms.drop_first() =~= forms_view(exps@));
    }
    match applicative_eval(&def.val, env, host, depth) {
        Err(h) => Err(h),
        Ok(val) => {
            let inner = env.extend(def.var.as_str(), val);
            eval_sequence(exps, &inner, host, depth)
        },
    }
}

} // verus!
