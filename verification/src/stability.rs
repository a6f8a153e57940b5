//! What an evaluation has reached stays when it is given more.
//!
//! The host answers one question at a time and evaluates again. The first
//! lemmas show that the order of the answers does not matter: a value or an
//! error that an evaluation reaches with some answers is what it reaches with
//! any more. The next show that each round tells the oracle something new: an
//! evaluation asks only what the oracle cannot answer. The last show of the
//! bound on the depth that it cuts an evaluation short and changes nothing
//! else.
use vstd::prelude::*;
use crate::ast::{ExprView, FormView, NumberView, PrimitiveOperation};
use crate::env::extended;
use crate::eval::{applied, instantiated, plain_forms, result_of, value_of, values_of, Scope};
use crate::numeric::{answer, ArithOp, QueryView, ONE_BITS, ZERO_BITS};
use crate::primitives::{all_numbers, apply_primitive_spec, fold_arith, truthy};
use crate::value::ValueView;
use crate::{failure, ErrorView, HaltView, Outcome};

verus! {

/// Whether `more` holds every answer of `host`.
pub open spec fn extends(more: Map<QueryView, u64>, host: Map<QueryView, u64>) -> bool {
    host.submap_of(more)
}

/// Whether an outcome is final: a value or an error, not a question.
pub open spec fn settled(o: Outcome) -> bool {
    !(o matches Err(HaltView::Ask(_)))
}

/// Whether the outcome of a sequence of operands is final.
pub open spec fn all_settled(o: Result<Seq<ValueView>, HaltView>) -> bool {
    !(o matches Err(HaltView::Ask(_)))
}

/// An answer that the oracle has is the answer of every oracle that extends it.
pub proof fn lemma_answer_stable(host: Map<QueryView, u64>, more: Map<QueryView, u64>, q: QueryView)
    requires
        extends(more, host),
        answer(host, q) is Some,
    ensures
        answer(more, q) == answer(host, q),
{
}

/// A fold that is settled does not change when the oracle learns more.
pub proof fn lemma_fold_stable(
    op: ArithOp,
    acc: u64,
    rest: Seq<ValueView>,
    host: Map<QueryView, u64>,
    more: Map<QueryView, u64>,
)
    requires
        extends(more, host),
        settled(fold_arith(op, acc, rest, host)),
    ensures
        fold_arith(op, acc, rest, more) == fold_arith(op, acc, rest, host),
    decreases rest.len(),
{
    if rest.len() > 0 {
        match rest[0] {
            ValueView::Number(x) => {
                let q = QueryView::Arith(op, acc, x);
                match answer(host, q) {
                    Some(y) => {
                        lemma_answer_stable(host, more, q);
                        lemma_fold_stable(op, y, rest.drop_first(), host, more);
                    },
                    None => {},
                }
            },
            _ => {},
        }
    }
}

/// What a primitive has settled does not change when the oracle learns more.
pub proof fn lemma_primitive_stable(
    primop: PrimitiveOperation,
    args: Seq<ValueView>,
    host: Map<QueryView, u64>,
    more: Map<QueryView, u64>,
)
    requires
        extends(more, host),
        settled(apply_primitive_spec(primop, args, host)),
    ensures
        apply_primitive_spec(primop, args, more) == apply_primitive_spec(primop, args, host),
{
    match primop {
        PrimitiveOperation::Add => {
            if all_numbers(args) {
                lemma_fold_stable(ArithOp::Add, ZERO_BITS, args, host, more);
            }
        },
        PrimitiveOperation::Mul => {
            if all_numbers(args) {
                lemma_fold_stable(ArithOp::Mul, ONE_BITS, args, host, more);
            }
        },
        PrimitiveOperation::Sub => {
            if args.len() > 1 && all_numbers(args) {
                lemma_fold_stable(ArithOp::Sub, args[0]->Number_0, args.drop_first(), host, more);
            }
        },
        PrimitiveOperation::Div => {
            if args.len() == 1 && all_numbers(args) {
                lemma_fold_stable(ArithOp::Div, ONE_BITS, args, host, more);
            } else if args.len() > 1 && all_numbers(args) {
                lemma_fold_stable(ArithOp::Div, args[0]->Number_0, args.drop_first(), host, more);
            }
        },
        _ => {},
    }
}

/// The value or the error of an expression does not change when the oracle
/// learns more.
pub proof fn lemma_value_stable(
    e: ExprView,
    env: Scope,
    host: Map<QueryView, u64>,
    more: Map<QueryView, u64>,
    depth: nat,
)
    requires
        extends(more, host),
        settled(value_of(e, env, host, depth)),
    ensures
        value_of(e, env, more, depth) == value_of(e, env, host, depth),
    decreases depth, 1int, e, 0int,
{
    match e {
        ExprView::Number(NumberView::Literal(text)) => {
            lemma_answer_stable(host, more, QueryView::Numeral(text));
        },
        ExprView::If { cond, then_branch, alt } => {
            lemma_value_stable(*cond, env, host, more, depth);
            match value_of(*cond, env, host, depth) {
                Ok(c) => {
                    if truthy(c) {
                        lemma_value_stable(*then_branch, env, host, more, depth);
                    } else {
                        lemma_value_stable(*alt, env, host, more, depth);
                    }
                },
                Err(_) => {},
            }
        },
        ExprView::Let { names, values, body } => {
            lemma_values_stable(values, env, host, more, depth);
            match values_of(values, env, host, depth) {
                Ok(args) => {
                    lemma_applied_stable(
                        ValueView::Closure { params: names, body },
                        args,
                        env,
                        host,
                        more,
                        depth,
                    );
                },
                Err(_) => {},
            }
        },
        ExprView::Applic { operator, operands } => {
            lemma_value_stable(*operator, env, host, more, depth);
            match value_of(*operator, env, host, depth) {
                Ok(f) => {
                    lemma_values_stable(operands, env, host, more, depth);
                    match values_of(operands, env, host, depth) {
                        Ok(args) => {
                            lemma_applied_stable(f, args, env, host, more, depth);
                        },
                        Err(_) => {},
                    }
                },
                Err(_) => {},
            }
        },
        _ => {},
    }
}

/// The values or the error of a sequence of operands do not change when the
/// oracle learns more.
pub proof fn lemma_values_stable(
    es: Seq<ExprView>,
    env: Scope,
    host: Map<QueryView, u64>,
    more: Map<QueryView, u64>,
    depth: nat,
)
    requires
        extends(more, host),
        all_settled(values_of(es, env, host, depth)),
    ensures
        values_of(es, env, more, depth) == values_of(es, env, host, depth),
    decreases depth, 1int, es, 0int,
{
    if es.len() > 0 {
        lemma_values_stable(es.drop_last(), env, host, more, depth);
        match values_of(es.drop_last(), env, host, depth) {
            Ok(init) => {
                lemma_value_stable(es.last(), env, host, more, depth);
            },
            Err(_) => {},
        }
    }
}

/// What an application has settled does not change when the oracle learns more.
pub proof fn lemma_applied_stable(
    f: ValueView,
    args: Seq<ValueView>,
    env: Scope,
    host: Map<QueryView, u64>,
    more: Map<QueryView, u64>,
    depth: nat,
)
    requires
        extends(more, host),
        settled(applied(f, args, env, host, depth)),
    ensures
        applied(f, args, env, more, depth) == applied(f, args, env, host, depth),
    decreases depth, 0int, f, 0int,
{
    match f {
        ValueView::PrimitiveOperation(p) => {
            lemma_primitive_stable(p, args, host, more);
        },
        ValueView::Closure { params, body } => {
            if params.len() == args.len() && depth > 0 {
                lemma_result_stable(
                    plain_forms(instantiated(params, body, args)),
                    env,
                    host,
                    more,
                    (depth - 1) as nat,
                );
            }
        },
        _ => {},
    }
}

/// What a sequence of forms has settled does not change when the oracle
/// learns more.
pub proof fn lemma_result_stable(
    forms: Seq<FormView>,
    env: Scope,
    host: Map<QueryView, u64>,
    more: Map<QueryView, u64>,
    depth: nat,
)
    requires
        extends(more, host),
        settled(result_of(forms, env, host, depth)),
    ensures
        result_of(forms, env, more, depth) == result_of(forms, env, host, depth),
    decreases depth, 2int, forms, 0int,
{
    if forms.len() > 0 {
        match forms[0] {
            FormView::Define { name, value } => {
                lemma_value_stable(value, env, host, more, depth);
                match value_of(value, env, host, depth) {
                    Ok(v) => {
                        lemma_result_stable(
                            forms.drop_first(),
                            extended(env, name, v),
                            host,
                            more,
                            depth,
                        );
                    },
                    Err(_) => {},
                }
            },
            FormView::Plain(e) => {
                lemma_value_stable(e, env, host, more, depth);
                match value_of(e, env, host, depth) {
                    Ok(v) => {
                        if forms.len() > 1 {
                            lemma_result_stable(forms.drop_first(), env, host, more, depth);
                        }
                    },
                    Err(_) => {},
                }
            },
        }
    }
}

/// Whether an outcome asks nothing that the oracle can answer.
pub open spec fn asks_news(o: Outcome, host: Map<QueryView, u64>) -> bool {
    o matches Err(HaltView::Ask(q)) ==> answer(host, q) is None
}

/// As `asks_news`, of the outcome of a sequence of operands.
pub open spec fn all_ask_news(
    o: Result<Seq<ValueView>, HaltView>,
    host: Map<QueryView, u64>,
) -> bool {
    o matches Err(HaltView::Ask(q)) ==> answer(host, q) is None
}

/// A fold asks only what the oracle cannot answer.
pub proof fn lemma_fold_asks_news(
    op: ArithOp,
    acc: u64,
    rest: Seq<ValueView>,
    host: Map<QueryView, u64>,
)
    ensures
        asks_news(fold_arith(op, acc, rest, host), host),
    decreases rest.len(),
{
    if rest.len() > 0 {
        match rest[0] {
            ValueView::Number(x) => {
                match answer(host, QueryView::Arith(op, acc, x)) {
                    Some(y) => {
                        lemma_fold_asks_news(op, y, rest.drop_first(), host);
                    },
                    None => {},
                }
            },
            _ => {},
        }
    }
}

/// A primitive asks only what the oracle cannot answer.
pub proof fn lemma_primitive_asks_news(
    primop: PrimitiveOperation,
    args: Seq<ValueView>,
    host: Map<QueryView, u64>,
)
    ensures
        asks_news(apply_primitive_spec(primop, args, host), host),
{
    match primop {
        PrimitiveOperation::Add => {
            lemma_fold_asks_news(ArithOp::Add, ZERO_BITS, args, host);
        },
        PrimitiveOperation::Mul => {
            lemma_fold_asks_news(ArithOp::Mul, ONE_BITS, args, host);
        },
        PrimitiveOperation::Sub => {
            if args.len() > 1 {
                lemma_fold_asks_news(ArithOp::Sub, args[0]->Number_0, args.drop_first(), host);
            }
        },
        PrimitiveOperation::Div => {
            lemma_fold_asks_news(ArithOp::Div, ONE_BITS, args, host);
            if args.len() > 1 {
                lemma_fold_asks_news(ArithOp::Div, args[0]->Number_0, args.drop_first(), host);
            }
        },
        _ => {},
    }
}

/// An evaluation asks only what the oracle cannot answer: to record the
/// answer is to tell the oracle something new.
pub proof fn lemma_value_asks_news(e: ExprView, env: Scope, host: Map<QueryView, u64>, depth: nat)
    ensures
        asks_news(value_of(e, env, host, depth), host),
    decreases depth, 1int, e, 0int,
{
    match e {
        ExprView::If { cond, then_branch, alt } => {
            lemma_value_asks_news(*cond, env, host, depth);
            lemma_value_asks_news(*then_branch, env, host, depth);
            lemma_value_asks_news(*alt, env, host, depth);
        },
        ExprView::Let { names, values, body } => {
            lemma_values_ask_news(values, env, host, depth);
            match values_of(values, env, host, depth) {
                Ok(args) => {
                    lemma_applied_asks_news(
                        ValueView::Closure { params: names, body },
                        args,
                        env,
                        host,
                        depth,
                    );
                },
                Err(_) => {},
            }
        },
        ExprView::Applic { operator, operands } => {
            lemma_value_asks_news(*operator, env, host, depth);
            match value_of(*operator, env, host, depth) {
                Ok(f) => {
                    lemma_values_ask_news(operands, env, host, depth);
                    match values_of(operands, env, host, depth) {
                        Ok(args) => {
                            lemma_applied_asks_news(f, args, env, host, depth);
                        },
                        Err(_) => {},
                    }
                },
                Err(_) => {},
            }
        },
        _ => {},
    }
}

/// The operands of an application ask only what the oracle cannot answer.
pub proof fn lemma_values_ask_news(
    es: Seq<ExprView>,
    env: Scope,
    host: Map<QueryView, u64>,
    depth: nat,
)
    ensures
        all_ask_news(values_of(es, env, host, depth), host),
    decreases depth, 1int, es, 0int,
{
    if es.len() > 0 {
        lemma_values_ask_news(es.drop_last(), env, host, depth);
        lemma_value_asks_news(es.last(), env, host, depth);
    }
}

/// An application asks only what the oracle cannot answer.
pub proof fn lemma_applied_asks_news(
    f: ValueView,
    args: Seq<ValueView>,
    env: Scope,
    host: Map<QueryView, u64>,
    depth: nat,
)
    ensures
        asks_news(applied(f, args, env, host, depth), host),
    decreases depth, 0int, f, 0int,
{
    match f {
        ValueView::PrimitiveOperation(p) => {
            lemma_primitive_asks_news(p, args, host);
        },
        ValueView::Closure { params, body } => {
            if params.len() == args.len() && depth > 0 {
                lemma_result_asks_news(
                    plain_forms(instantiated(params, body, args)),
                    env,
                    host,
                    (depth - 1) as nat,
                );
            }
        },
        _ => {},
    }
}

/// A sequence of forms asks only what the oracle cannot answer.
pub proof fn lemma_result_asks_news(
    forms: Seq<FormView>,
    env: Scope,
    host: Map<QueryView, u64>,
    depth: nat,
)
    ensures
        asks_news(result_of(forms, env, host, depth), host),
    decreases depth, 2int, forms, 0int,
{
    if forms.len() > 0 {
        match forms[0] {
            FormView::Define { name, value } => {
                lemma_value_asks_news(value, env, host, depth);
                match value_of(value, env, host, depth) {
                    Ok(v) => {
                        lemma_result_asks_news(
                            forms.drop_first(),
                            extended(env, name, v),
                            host,
                            depth,
                        );
                    },
                    Err(_) => {},
                }
            },
            FormView::Plain(e) => {
                lemma_value_asks_news(e, env, host, depth);
                if forms.len() > 1 {
                    lemma_result_asks_news(forms.drop_first(), env, host, depth);
                }
            },
        }
    }
}

/// Whether an evaluation ran into the bound on its depth.
pub open spec fn exhausted(o: Outcome) -> bool {
    o == failure(ErrorView::StackExhausted)
}

/// Whether the evaluation of a sequence of operands ran into the bound on its
/// depth.
pub open spec fn any_exhausted(o: Result<Seq<ValueView>, HaltView>) -> bool {
    o == Err::<Seq<ValueView>, HaltView>(HaltView::Error(ErrorView::StackExhausted))
}

/// An evaluation that did not run into the bound on its depth gives the same
/// with any larger bound.
pub proof fn lemma_value_deeper(
    e: ExprView,
    env: Scope,
    host: Map<QueryView, u64>,
    depth: nat,
    deeper: nat,
)
    requires
        depth <= deeper,
        !exhausted(value_of(e, env, host, depth)),
    ensures
        value_of(e, env, host, deeper) == value_of(e, env, host, depth),
    decreases depth, 1int, e, 0int,
{
    match e {
        ExprView::If { cond, then_branch, alt } => {
            lemma_value_deeper(*cond, env, host, depth, deeper);
            match value_of(*cond, env, host, depth) {
                Ok(c) => {
                    if truthy(c) {
                        lemma_value_deeper(*then_branch, env, host, depth, deeper);
                    } else {
                        lemma_value_deeper(*alt, env, host, depth, deeper);
                    }
                },
                Err(_) => {},
            }
        },
        ExprView::Let { names, values, body } => {
            lemma_values_deeper(values, env, host, depth, deeper);
            match values_of(values, env, host, depth) {
                Ok(args) => {
                    lemma_applied_deeper(
                        ValueView::Closure { params: names, body },
                        args,
                        env,
                        host,
                        depth,
                        deeper,
                    );
                },
                Err(_) => {},
            }
        },
        ExprView::Applic { operator, operands } => {
            lemma_value_deeper(*operator, env, host, depth, deeper);
            match value_of(*operator, env, host, depth) {
                Ok(f) => {
                    lemma_values_deeper(operands, env, host, depth, deeper);
                    match values_of(operands, env, host, depth) {
                        Ok(args) => {
                            lemma_applied_deeper(f, args, env, host, depth, deeper);
                        },
                        Err(_) => {},
                    }
                },
                Err(_) => {},
            }
        },
        _ => {},
    }
}

/// The operands of an application that did not run into the bound give the
/// same with any larger bound.
pub proof fn lemma_values_deeper(
    es: Seq<ExprView>,
    env: Scope,
    host: Map<QueryView, u64>,
    depth: nat,
    deeper: nat,
)
    requires
        depth <= deeper,
        !any_exhausted(values_of(es, env, host, depth)),
    ensures
        values_of(es, env, host, deeper) == values_of(es, env, host, depth),
    decreases depth, 1int, es, 0int,
{
    if es.len() > 0 {
        lemma_values_deeper(es.drop_last(), env, host, depth, deeper);
        match values_of(es.drop_last(), env, host, depth) {
            Ok(init) => {
                lemma_value_deeper(es.last(), env, host, depth, deeper);
            },
            Err(_) => {},
        }
    }
}

/// An application that did not run into the bound gives the same with any
/// larger bound.
pub proof fn lemma_applied_deeper(
    f: ValueView,
    args: Seq<ValueView>,
    env: Scope,
    host: Map<QueryView, u64>,
    depth: nat,
    deeper: nat,
)
    requires
        depth <= deeper,
        !exhausted(applied(f, args, env, host, depth)),
    ensures
        applied(f, args, env, host, deeper) == applied(f, args, env, host, depth),
    decreases depth, 0int, f, 0int,
{
    match f {
        ValueView::Closure { params, body } => {
            if params.len() == args.len() {
                lemma_result_deeper(
                    plain_forms(instantiated(params, body, args)),
                    env,
                    host,
                    (depth - 1) as nat,
                    (deeper - 1) as nat,
                );
            }
        },
        _ => {},
    }
}

/// A sequence of forms that did not run into the bound gives the same with
/// any larger bound.
pub proof fn lemma_result_deeper(
    forms: Seq<FormView>,
    env: Scope,
    host: Map<QueryView, u64>,
    depth: nat,
    deeper: nat,
)
    requires
        depth <= deeper,
        !exhausted(result_of(forms, env, host, depth)),
    ensures
        result_of(forms, env, host, deeper) == result_of(forms, env, host, depth),
    decreases depth, 2int, forms, 0int,
{
    if forms.len() > 0 {
        match forms[0] {
            FormView::Define { name, value } => {
                lemma_value_deeper(value, env, host, depth, deeper);
                match value_of(value, env, host, depth) {
                    Ok(v) => {
                        lemma_result_deeper(
                            forms.drop_first(),
                            extended(env, name, v),
                            host,
                            depth,
                            deeper,
                        );
                    },
                    Err(_) => {},
                }
            },
            FormView::Plain(e) => {
                lemma_value_deeper(e, env, host, depth, deeper);
                match value_of(e, env, host, depth) {
                    Ok(v) => {
                        if forms.len() > 1 {
                            lemma_result_deeper(forms.drop_first(), env, host, depth, deeper);
                        }
                    },
                    Err(_) => {},
                }
            },
        }
    }
}

} // verus!
