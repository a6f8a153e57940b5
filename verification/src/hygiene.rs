//! Why renaming before substitution avoids capture.
//!
//! A variable of an argument is captured when the argument is put under a
//! procedure that has a parameter of the same name. The lemmas here show, on
//! the models of renaming and substitution:
//!
//! - substitution leaves no variable that it replaces
//!   (`lemma_subst_frees_nothing`), and captures nothing where no parameter
//!   has the name of a variable of a replacement (`lemma_no_capture`);
//! - after renaming every parameter is a fresh name
//!   (`lemma_renamed_binds_fresh`), so that a variable that is no fresh name
//!   cannot be captured (`lemma_renaming_avoids_capture`);
//! - renaming frees no variable (`lemma_renaming_frees_nothing`) and captures
//!   none that no parameter can get the name of (`lemma_renaming_keeps_free`).
//!
//! They speak of the variables that occur free, not of values: that two
//! expressions with the same binding structure evaluate alike is not shown.
use vstd::prelude::*;
use crate::ast::ExprView;
use crate::substitution::{
    advance, first_index, fresh_name, fresh_names, lemma_first_index, lemma_position,
    lemma_position_found, position, rename_all, rename_expr, renamed, retained_reps, retained_vars,
    subst, subst_all,
};

verus! {

/// Whether the variable occurs free in the expression: outside every
/// procedure that has it as a parameter. A `let` is not looked into: it is
/// taken out of a body before the body is renamed.
pub open spec fn free_in(name: Seq<char>, e: ExprView) -> bool
    decreases e,
{
    match e {
        ExprView::VariableReference(v) => v == name,
        ExprView::If { cond, then_branch, alt } => free_in(name, *cond) || free_in(
            name,
            *then_branch,
        ) || free_in(name, *alt),
        ExprView::Applic { operator, operands } => free_in(name, *operator) || free_in_any(
            name,
            operands,
        ),
        ExprView::Procedure { params, body } => !params.contains(name) && free_in_any(name, body),
        _ => false,
    }
}

/// Whether the variable occurs free in one of the expressions.
pub open spec fn free_in_any(name: Seq<char>, es: Seq<ExprView>) -> bool
    decreases es,
{
    exists|i: int| 0 <= i < es.len() && free_in(name, #[trigger] es[i])
}

/// Whether a procedure in the expression has the name as a parameter.
pub open spec fn binds(e: ExprView, name: Seq<char>) -> bool
    decreases e,
{
    match e {
        ExprView::If { cond, then_branch, alt } => binds(*cond, name) || binds(*then_branch, name)
            || binds(*alt, name),
        ExprView::Applic { operator, operands } => binds(*operator, name) || binds_any(
            operands,
            name,
        ),
        ExprView::Procedure { params, body } => params.contains(name) || binds_any(body, name),
        _ => false,
    }
}

/// Whether a procedure in one of the expressions has the name as a parameter.
pub open spec fn binds_any(es: Seq<ExprView>, name: Seq<char>) -> bool
    decreases es,
{
    exists|i: int| 0 <= i < es.len() && binds(#[trigger] es[i], name)
}

/// Whether the name is one that a generator gives.
pub open spec fn is_fresh(name: Seq<char>) -> bool {
    exists|base: Seq<char>, count: u64| name == #[trigger] fresh_name(base, count)
}

/// A name without an underscore is no fresh name. The names of a text that
/// was parsed are such names.
pub proof fn lemma_plain_name_not_fresh(name: Seq<char>)
    requires
        forall|k: int| 0 <= k < name.len() ==> name[k] != '_',
    ensures
        !is_fresh(name),
{
    if is_fresh(name) {
        let (base, count) = choose|base: Seq<char>, count: u64|
            name == #[trigger] fresh_name(base, count);
        assert(fresh_name(base, count)[base.len() as int] == '_');
    }
}

/// A variable that is retained is found among the retained at the place of
/// its replacement.
pub proof fn lemma_retained_position(
    vars: Seq<Seq<char>>,
    reps: Seq<ExprView>,
    params: Seq<Seq<char>>,
    i: int,
)
    requires
        vars.len() == reps.len(),
        0 <= i < vars.len(),
        position(vars, vars[i]) == Some(i),
        !params.contains(vars[i]),
    ensures
        retained_vars(vars, params).len() == retained_reps(vars, reps, params).len(),
        position(retained_vars(vars, params), vars[i]) matches Some(k) && 0 <= k
            < retained_vars(vars, params).len() && retained_reps(vars, reps, params)[k] == reps[i],
    decreases vars.len(),
{
    let x = vars[i];
    let init = vars.drop_last();
    let rv = retained_vars(init, params);
    let rr = retained_reps(init, reps.drop_last(), params);
    lemma_first_index(vars, x, 0);
    lemma_retained_absent(init, reps.drop_last(), params, x);
    if i < vars.len() - 1 {
        assert(init[i] == x);
        lemma_first_index(init, x, 0);
        assert(position(init, x) == Some(i)) by {
            let k = first_index(init, x, 0);
            if k < i {
                assert(vars[k] == init[k]);
            }
        }
        lemma_retained_position(init, reps.drop_last(), params, i);
        let k = position(rv, x).unwrap();
        if !params.contains(vars.last()) {
            let longer = rv.push(vars.last());
            lemma_first_index(rv, x, 0);
            lemma_first_index(longer, x, 0);
            assert(longer[k] == x);
            assert(position(longer, x) == Some(k)) by {
                let j = first_index(longer, x, 0);
                if j < k {
                    assert(longer[j] == rv[j]);
                }
                if k < j {
                    assert(longer[k] == x);
                }
            }
        }
    } else {
        // The variable is the last: it is retained last, and stands nowhere
        // before among the retained.
        assert forall|j: int| 0 <= j < init.len() implies init[j] != x by {
            assert(vars[j] == init[j]);
        }
        assert(!init.contains(x));
        let longer = rv.push(x);
        lemma_first_index(longer, x, 0);
        assert(longer[rv.len() as int] == x);
        assert(position(longer, x) == Some(rv.len() as int)) by {
            let j = first_index(longer, x, 0);
            if j < rv.len() {
                assert(longer[j] == rv[j]);
                assert(rv.contains(x));
            }
        }
    }
}

/// What is retained was there: as many replacements as variables, and no
/// variable that did not stand among the variables.
pub proof fn lemma_retained_absent(
    vars: Seq<Seq<char>>,
    reps: Seq<ExprView>,
    params: Seq<Seq<char>>,
    name: Seq<char>,
)
    requires
        vars.len() == reps.len(),
    ensures
        retained_vars(vars, params).len() == retained_reps(vars, reps, params).len(),
        !vars.contains(name) ==> !retained_vars(vars, params).contains(name),
    decreases vars.len(),
{
    if vars.len() > 0 {
        let init = vars.drop_last();
        lemma_retained_absent(init, reps.drop_last(), params, name);
        if !vars.contains(name) {
            assert forall|j: int| 0 <= j < init.len() implies init[j] != name by {
                assert(vars[j] == init[j]);
            }
            assert(!init.contains(name));
            assert(vars[vars.len() - 1] != name);
            let rv = retained_vars(init, params);
            if !params.contains(vars.last()) {
                let longer = rv.push(vars.last());
                assert forall|j: int| 0 <= j < longer.len() implies longer[j] != name by {
                    if j < rv.len() {
                        assert(longer[j] == rv[j]);
                        assert(rv.contains(rv[j]));
                    }
                }
            }
        }
    }
}

/// What is retained is all that is not shadowed: every variable that is no
/// parameter is retained, and every replacement retained is one of the
/// replacements.
pub proof fn lemma_retained_all(
    vars: Seq<Seq<char>>,
    reps: Seq<ExprView>,
    params: Seq<Seq<char>>,
)
    requires
        vars.len() == reps.len(),
    ensures
        retained_vars(vars, params).len() == retained_reps(vars, reps, params).len(),
        forall|name: Seq<char>|
            vars.contains(name) && !params.contains(name) ==> #[trigger] retained_vars(
                vars,
                params,
            ).contains(name),
        forall|k: int|
            0 <= k < retained_reps(vars, reps, params).len() ==> reps.contains(
                #[trigger] retained_reps(vars, reps, params)[k],
            ),
    decreases vars.len(),
{
    if vars.len() > 0 {
        let init = vars.drop_last();
        let init_reps = reps.drop_last();
        lemma_retained_all(init, init_reps, params);
        let rv = retained_vars(init, params);
        let rr = retained_reps(init, init_reps, params);
        let all_vars = retained_vars(vars, params);
        let all_reps = retained_reps(vars, reps, params);
        assert forall|name: Seq<char>|
            vars.contains(name) && !params.contains(name) implies all_vars.contains(name) by {
            let k = choose|k: int| 0 <= k < vars.len() && vars[k] == name;
            if k < init.len() {
                assert(init[k] == name);
                assert(init.contains(name));
                assert(retained_vars(init, params).contains(name));
                let j = choose|j: int| 0 <= j < rv.len() && rv[j] == name;
                assert(all_vars[j] == rv[j]);
            } else {
                assert(vars.last() == name);
                assert(all_vars[rv.len() as int] == name);
            }
        }
        assert forall|k: int| 0 <= k < all_reps.len() implies reps.contains(
            #[trigger] all_reps[k],
        ) by {
            if k < rr.len() {
                assert(all_reps[k] == rr[k]);
                assert(init_reps.contains(rr[k]));
                let j = choose|j: int| 0 <= j < init_reps.len() && init_reps[j] == rr[k];
                assert(reps[j] == init_reps[j]);
            } else {
                assert(all_reps[k] == reps.last());
                assert(reps[reps.len() - 1] == reps.last());
            }
        }
    }
}

/// Substitution frees nothing, and leaves no variable that it replaces: a
/// variable that is free in the result was free before and is none of the
/// variables replaced, or is free in one of the replacements.
pub proof fn lemma_subst_frees_nothing(
    e: ExprView,
    vars: Seq<Seq<char>>,
    reps: Seq<ExprView>,
    y: Seq<char>,
)
    requires
        vars.len() == reps.len(),
        free_in(y, subst(e, vars, reps)),
    ensures
        (free_in(y, e) && !vars.contains(y)) || free_in_any(y, reps),
    decreases e,
{
    match e {
        ExprView::VariableReference(name) => {
            lemma_position(vars, name);
            match position(vars, name) {
                Some(i) => {
                    assert(free_in(y, reps[i]));
                },
                None => {},
            }
        },
        ExprView::If { cond, then_branch, alt } => {
            if free_in(y, subst(*cond, vars, reps)) {
                lemma_subst_frees_nothing(*cond, vars, reps, y);
            } else if free_in(y, subst(*then_branch, vars, reps)) {
                lemma_subst_frees_nothing(*then_branch, vars, reps, y);
            } else {
                lemma_subst_frees_nothing(*alt, vars, reps, y);
            }
        },
        ExprView::Applic { operator, operands } => {
            if free_in(y, subst(*operator, vars, reps)) {
                lemma_subst_frees_nothing(*operator, vars, reps, y);
            } else {
                lemma_subst_frees_nothing_any(operands, vars, reps, y);
            }
        },
        ExprView::Procedure { params, body } => {
            let rv = retained_vars(vars, params);
            let rr = retained_reps(vars, reps, params);
            lemma_retained_all(vars, reps, params);
            lemma_subst_frees_nothing_any(body, rv, rr, y);
            if free_in_any(y, rr) {
                let k = choose|k: int| 0 <= k < rr.len() && free_in(y, #[trigger] rr[k]);
                assert(reps.contains(rr[k]));
                let j = choose|j: int| 0 <= j < reps.len() && reps[j] == rr[k];
                assert(free_in(y, reps[j]));
            } else {
                if vars.contains(y) {
                    assert(rv.contains(y));
                }
            }
        },
        _ => {},
    }
}

/// Substitution frees nothing, in a sequence of expressions.
pub proof fn lemma_subst_frees_nothing_any(
    es: Seq<ExprView>,
    vars: Seq<Seq<char>>,
    reps: Seq<ExprView>,
    y: Seq<char>,
)
    requires
        vars.len() == reps.len(),
        free_in_any(y, subst_all(es, vars, reps)),
    ensures
        (free_in_any(y, es) && !vars.contains(y)) || free_in_any(y, reps),
    decreases es,
{
    let all = subst_all(es, vars, reps);
    let k = choose|k: int| 0 <= k < all.len() && free_in(y, #[trigger] all[k]);
    assert(all[k] == subst(es[k], vars, reps));
    lemma_subst_frees_nothing(es[k], vars, reps, y);
    if free_in(y, es[k]) {
        assert(free_in_any(y, es));
    }
}

/// No capture: where a variable of a replacement is no parameter of any
/// procedure in the expression, it is free in the result wherever the
/// replacement is put for a free variable.
pub proof fn lemma_no_capture(
    e: ExprView,
    vars: Seq<Seq<char>>,
    reps: Seq<ExprView>,
    i: int,
    y: Seq<char>,
)
    requires
        vars.len() == reps.len(),
        0 <= i < vars.len(),
        position(vars, vars[i]) == Some(i),
        free_in(vars[i], e),
        free_in(y, reps[i]),
        !binds(e, y),
    ensures
        free_in(y, subst(e, vars, reps)),
    decreases e,
{
    let x = vars[i];
    match e {
        ExprView::If { cond, then_branch, alt } => {
            if free_in(x, *cond) {
                lemma_no_capture(*cond, vars, reps, i, y);
            } else if free_in(x, *then_branch) {
                lemma_no_capture(*then_branch, vars, reps, i, y);
            } else {
                lemma_no_capture(*alt, vars, reps, i, y);
            }
        },
        ExprView::Applic { operator, operands } => {
            if free_in(x, *operator) {
                lemma_no_capture(*operator, vars, reps, i, y);
            } else {
                lemma_no_capture_any(operands, vars, reps, i, y);
            }
        },
        ExprView::Procedure { params, body } => {
            lemma_retained_position(vars, reps, params, i);
            let rv = retained_vars(vars, params);
            let rr = retained_reps(vars, reps, params);
            let k = position(rv, x).unwrap();
            lemma_first_index(rv, x, 0);
            assert(rv[k] == x);
            lemma_no_capture_any(body, rv, rr, k, y);
        },
        _ => {},
    }
}

/// No capture, in a sequence of expressions.
pub proof fn lemma_no_capture_any(
    es: Seq<ExprView>,
    vars: Seq<Seq<char>>,
    reps: Seq<ExprView>,
    i: int,
    y: Seq<char>,
)
    requires
        vars.len() == reps.len(),
        0 <= i < vars.len(),
        position(vars, vars[i]) == Some(i),
        free_in_any(vars[i], es),
        free_in(y, reps[i]),
        !binds_any(es, y),
    ensures
        free_in_any(y, subst_all(es, vars, reps)),
    decreases es,
{
    let k = choose|k: int| 0 <= k < es.len() && free_in(vars[i], #[trigger] es[k]);
    assert(!binds(es[k], y));
    lemma_no_capture(es[k], vars, reps, i, y);
    assert(subst_all(es, vars, reps)[k] == subst(es[k], vars, reps));
}

/// The name that renaming under the parameters `olds`, with the fresh names
/// `news`, gives to a free variable.
pub open spec fn renamed_variable(
    olds: Seq<Seq<char>>,
    news: Seq<Seq<char>>,
    name: Seq<char>,
) -> Seq<char> {
    match position(olds, name) {
        Some(i) => news[i],
        None => name,
    }
}

/// A name is looked up in the inner parameters first, and then in the outer.
pub proof fn lemma_position_inner_first(
    inner: Seq<Seq<char>>,
    outer: Seq<Seq<char>>,
    name: Seq<char>,
)
    ensures
        position(inner + outer, name) == match position(inner, name) {
            Some(i) => Some(i),
            None => match position(outer, name) {
                Some(i) => Some(inner.len() + i),
                None => None,
            },
        },
{
    let all = inner + outer;
    lemma_position(inner, name);
    lemma_position(outer, name);
    match position(inner, name) {
        Some(i) => {
            assert forall|k: int| 0 <= k < i implies all[k] != name by {
                assert(all[k] == inner[k]);
            }
            assert(all[i] == inner[i]);
            lemma_position_found(all, name, i);
        },
        None => {
            match position(outer, name) {
                Some(i) => {
                    let at = inner.len() + i;
                    assert forall|k: int| 0 <= k < at implies all[k] != name by {
                        if k < inner.len() {
                            assert(all[k] == inner[k]);
                            if inner[k] == name {
                                assert(inner.contains(name));
                            }
                        } else {
                            assert(all[k] == outer[k - inner.len()]);
                        }
                    }
                    assert(all[at] == outer[i]);
                    lemma_position_found(all, name, at);
                },
                None => {
                    assert forall|k: int| 0 <= k < all.len() implies all[k] != name by {
                        if k < inner.len() {
                            assert(all[k] == inner[k]);
                            if inner[k] == name {
                                assert(inner.contains(name));
                            }
                        } else {
                            assert(all[k] == outer[k - inner.len()]);
                            if outer[k - inner.len()] == name {
                                assert(outer.contains(name));
                            }
                        }
                    }
                },
            }
        },
    }
}

/// Renaming frees nothing: a variable that is free in the renamed expression
/// is the name that renaming gives to a variable that was free before.
pub proof fn lemma_renaming_frees_nothing(
    e: ExprView,
    olds: Seq<Seq<char>>,
    news: Seq<Seq<char>>,
    count: u64,
    y: Seq<char>,
)
    requires
        olds.len() == news.len(),
        free_in(y, rename_expr(e, olds, news, count).0),
    ensures
        exists|x: Seq<char>| free_in(x, e) && y == #[trigger] renamed_variable(olds, news, x),
    decreases e,
{
    match e {
        ExprView::VariableReference(name) => {
            assert(free_in(name, e) && y == renamed_variable(olds, news, name));
        },
        ExprView::If { cond, then_branch, alt } => {
            let (c, n1) = rename_expr(*cond, olds, news, count);
            let (t, n2) = rename_expr(*then_branch, olds, news, n1);
            if free_in(y, c) {
                lemma_renaming_frees_nothing(*cond, olds, news, count, y);
            } else if free_in(y, t) {
                lemma_renaming_frees_nothing(*then_branch, olds, news, n1, y);
            } else {
                lemma_renaming_frees_nothing(*alt, olds, news, n2, y);
            }
            let x = choose|x: Seq<char>|
                (free_in(x, *cond) || free_in(x, *then_branch) || free_in(x, *alt)) && y
                    == #[trigger] renamed_variable(olds, news, x);
            assert(free_in(x, e) && y == renamed_variable(olds, news, x));
        },
        ExprView::Applic { operator, operands } => {
            let (op, n1) = rename_expr(*operator, olds, news, count);
            if free_in(y, op) {
                lemma_renaming_frees_nothing(*operator, olds, news, count, y);
                let x = choose|x: Seq<char>|
                    free_in(x, *operator) && y == #[trigger] renamed_variable(olds, news, x);
                assert(free_in(x, e) && y == renamed_variable(olds, news, x));
            } else {
                lemma_renaming_frees_nothing_any(operands, olds, news, n1, y);
                let x = choose|x: Seq<char>|
                    free_in_any(x, operands) && y == #[trigger] renamed_variable(olds, news, x);
                assert(free_in(x, e) && y == renamed_variable(olds, news, x));
            }
        },
        ExprView::Procedure { params, body } => {
            let fresh = fresh_names(params, count);
            let inner_olds = params + olds;
            let inner_news = fresh + news;
            lemma_renaming_frees_nothing_any(
                body,
                inner_olds,
                inner_news,
                advance(count, params.len()),
                y,
            );
            let x = choose|x: Seq<char>|
                free_in_any(x, body) && y == #[trigger] renamed_variable(inner_olds, inner_news, x);
            lemma_position_inner_first(params, olds, x);
            lemma_position(params, x);
            match position(params, x) {
                Some(i) => {
                    assert(inner_news[i] == fresh[i]);
                    assert(fresh.contains(y));
                },
                None => {
                    match position(olds, x) {
                        Some(i) => {
                            lemma_position(olds, x);
                            assert(inner_news[params.len() + i] == news[i]);
                        },
                        None => {},
                    }
                    assert(free_in(x, e) && y == renamed_variable(olds, news, x));
                },
            }
        },
        _ => {},
    }
}

/// Renaming frees nothing, in a sequence of expressions.
pub proof fn lemma_renaming_frees_nothing_any(
    es: Seq<ExprView>,
    olds: Seq<Seq<char>>,
    news: Seq<Seq<char>>,
    count: u64,
    y: Seq<char>,
)
    requires
        olds.len() == news.len(),
        free_in_any(y, rename_all(es, olds, news, count).0),
    ensures
        exists|x: Seq<char>| free_in_any(x, es) && y == #[trigger] renamed_variable(olds, news, x),
    decreases es,
{
    if es.len() > 0 {
        let (init, n1) = rename_all(es.drop_last(), olds, news, count);
        let (last, n2) = rename_expr(es.last(), olds, news, n1);
        let all = init.push(last);
        let k = choose|k: int| 0 <= k < all.len() && free_in(y, #[trigger] all[k]);
        if k < init.len() {
            assert(all[k] == init[k]);
            lemma_renaming_frees_nothing_any(es.drop_last(), olds, news, count, y);
            let x = choose|x: Seq<char>|
                free_in_any(x, es.drop_last()) && y == #[trigger] renamed_variable(olds, news, x);
            let j = choose|j: int|
                0 <= j < es.drop_last().len() && free_in(x, #[trigger] es.drop_last()[j]);
            assert(es[j] == es.drop_last()[j]);
            assert(free_in_any(x, es) && y == renamed_variable(olds, news, x));
        } else {
            assert(all[k] == last);
            lemma_renaming_frees_nothing(es.last(), olds, news, n1, y);
            let x = choose|x: Seq<char>|
                free_in(x, es.last()) && y == #[trigger] renamed_variable(olds, news, x);
            assert(es[es.len() - 1] == es.last());
            assert(free_in_any(x, es) && y == renamed_variable(olds, news, x));
        }
    }
}

/// Renaming a body frees nothing: a variable that is free in the renamed body
/// was free in the body.
pub proof fn lemma_renamed_frees_nothing(body: Seq<ExprView>, y: Seq<char>)
    requires
        free_in_any(y, renamed(body)),
    ensures
        free_in_any(y, body),
{
    let none = Seq::<Seq<char>>::empty();
    lemma_renaming_frees_nothing_any(body, none, none, 0, y);
    let x = choose|x: Seq<char>|
        free_in_any(x, body) && y == #[trigger] renamed_variable(none, none, x);
    lemma_position(none, x);
}

/// Whether no procedure in the expression has a parameter that a fresh name
/// equal to `name` could be drawn for.
pub open spec fn safe_from(e: ExprView, name: Seq<char>) -> bool {
    forall|base: Seq<char>, count: u64|
        name == #[trigger] fresh_name(base, count) ==> !binds(e, base)
}

/// As `safe_from`, of every expression of a sequence.
pub open spec fn all_safe_from(es: Seq<ExprView>, name: Seq<char>) -> bool {
    forall|base: Seq<char>, count: u64|
        name == #[trigger] fresh_name(base, count) ==> !binds_any(es, base)
}

/// Renaming captures nothing: a free variable that the parameters around
/// the expression do not bind stays free under its name, where no parameter
/// in the expression can get that name.
pub proof fn lemma_renaming_keeps_free(
    e: ExprView,
    olds: Seq<Seq<char>>,
    news: Seq<Seq<char>>,
    count: u64,
    x: Seq<char>,
)
    requires
        free_in(x, e),
        !olds.contains(x),
        safe_from(e, x),
    ensures
        free_in(x, rename_expr(e, olds, news, count).0),
    decreases e,
{
    lemma_position(olds, x);
    match e {
        ExprView::If { cond, then_branch, alt } => {
            let (c, n1) = rename_expr(*cond, olds, news, count);
            let (t, n2) = rename_expr(*then_branch, olds, news, n1);
            if free_in(x, *cond) {
                lemma_renaming_keeps_free(*cond, olds, news, count, x);
            } else if free_in(x, *then_branch) {
                lemma_renaming_keeps_free(*then_branch, olds, news, n1, x);
            } else {
                lemma_renaming_keeps_free(*alt, olds, news, n2, x);
            }
        },
        ExprView::Applic { operator, operands } => {
            let (op, n1) = rename_expr(*operator, olds, news, count);
            if free_in(x, *operator) {
                lemma_renaming_keeps_free(*operator, olds, news, count, x);
            } else {
                assert forall|base: Seq<char>, k: u64|
                    x == #[trigger] fresh_name(base, k) implies !binds_any(operands, base) by {
                    assert(!binds(e, base));
                }
                lemma_renaming_keeps_free_any(operands, olds, news, n1, x);
            }
        },
        ExprView::Procedure { params, body } => {
            let fresh = fresh_names(params, count);
            let inner_olds = params + olds;
            assert(!inner_olds.contains(x)) by {
                if inner_olds.contains(x) {
                    let k = choose|k: int| 0 <= k < inner_olds.len() && inner_olds[k] == x;
                    if k < params.len() {
                        assert(params[k] == x);
                    } else {
                        assert(olds[k - params.len()] == x);
                    }
                }
            }
            assert forall|base: Seq<char>, k: u64|
                x == #[trigger] fresh_name(base, k) implies !binds_any(body, base) by {
                assert(!binds(e, base));
            }
            lemma_renaming_keeps_free_any(
                body,
                inner_olds,
                fresh + news,
                advance(count, params.len()),
                x,
            );
            if fresh.contains(x) {
                let k = choose|k: int| 0 <= k < fresh.len() && fresh[k] == x;
                assert(x == fresh_name(params[k], advance(count, (k + 1) as nat)));
                assert(params.contains(params[k]));
                assert(binds(e, params[k]));
            }
        },
        _ => {},
    }
}

/// Renaming captures nothing, in a sequence of expressions.
pub proof fn lemma_renaming_keeps_free_any(
    es: Seq<ExprView>,
    olds: Seq<Seq<char>>,
    news: Seq<Seq<char>>,
    count: u64,
    x: Seq<char>,
)
    requires
        free_in_any(x, es),
        !olds.contains(x),
        all_safe_from(es, x),
    ensures
        free_in_any(x, rename_all(es, olds, news, count).0),
    decreases es,
{
    let (init, n1) = rename_all(es.drop_last(), olds, news, count);
    let (last, n2) = rename_expr(es.last(), olds, news, n1);
    let all = init.push(last);
    let k = choose|k: int| 0 <= k < es.len() && free_in(x, #[trigger] es[k]);
    if k < es.len() - 1 {
        assert(es.drop_last()[k] == es[k]);
        assert forall|base: Seq<char>, m: u64|
            x == #[trigger] fresh_name(base, m) implies !binds_any(es.drop_last(), base) by {
            if binds_any(es.drop_last(), base) {
                let j = choose|j: int|
                    0 <= j < es.drop_last().len() && binds(#[trigger] es.drop_last()[j], base);
                assert(es[j] == es.drop_last()[j]);
                assert(binds_any(es, base));
            }
        }
        lemma_renaming_keeps_free_any(es.drop_last(), olds, news, count, x);
        let j = choose|j: int| 0 <= j < init.len() && free_in(x, #[trigger] init[j]);
        assert(all[j] == init[j]);
    } else {
        assert(es.last() == es[k]);
        assert forall|base: Seq<char>, m: u64|
            x == #[trigger] fresh_name(base, m) implies !binds(es.last(), base) by {
            if binds(es.last(), base) {
                assert(binds_any(es, base));
            }
        }
        lemma_renaming_keeps_free(es.last(), olds, news, n1, x);
        assert(all[init.len() as int] == last);
    }
}

/// After renaming, every parameter is a fresh name.
pub proof fn lemma_renamed_binds_fresh(
    e: ExprView,
    olds: Seq<Seq<char>>,
    news: Seq<Seq<char>>,
    count: u64,
    name: Seq<char>,
)
    requires
        binds(rename_expr(e, olds, news, count).0, name),
    ensures
        is_fresh(name),
    decreases e,
{
    match e {
        ExprView::If { cond, then_branch, alt } => {
            let (c, n1) = rename_expr(*cond, olds, news, count);
            let (t, n2) = rename_expr(*then_branch, olds, news, n1);
            if binds(c, name) {
                lemma_renamed_binds_fresh(*cond, olds, news, count, name);
            } else if binds(t, name) {
                lemma_renamed_binds_fresh(*then_branch, olds, news, n1, name);
            } else {
                lemma_renamed_binds_fresh(*alt, olds, news, n2, name);
            }
        },
        ExprView::Applic { operator, operands } => {
            let (op, n1) = rename_expr(*operator, olds, news, count);
            if binds(op, name) {
                lemma_renamed_binds_fresh(*operator, olds, news, count, name);
            } else {
                lemma_renamed_all_binds_fresh(operands, olds, news, n1, name);
            }
        },
        ExprView::Procedure { params, body } => {
            let fresh = fresh_names(params, count);
            if fresh.contains(name) {
                let k = choose|k: int| 0 <= k < fresh.len() && fresh[k] == name;
                assert(name == fresh_name(params[k], advance(count, (k + 1) as nat)));
            } else {
                lemma_renamed_all_binds_fresh(
                    body,
                    params + olds,
                    fresh + news,
                    advance(count, params.len()),
                    name,
                );
            }
        },
        _ => {},
    }
}

/// After renaming, every parameter in a sequence is a fresh name.
pub proof fn lemma_renamed_all_binds_fresh(
    es: Seq<ExprView>,
    olds: Seq<Seq<char>>,
    news: Seq<Seq<char>>,
    count: u64,
    name: Seq<char>,
)
    requires
        binds_any(rename_all(es, olds, news, count).0, name),
    ensures
        is_fresh(name),
    decreases es,
{
    if es.len() > 0 {
        let (init, n1) = rename_all(es.drop_last(), olds, news, count);
        let (last, n2) = rename_expr(es.last(), olds, news, n1);
        let all = init.push(last);
        let k = choose|k: int| 0 <= k < all.len() && binds(#[trigger] all[k], name);
        if k < init.len() {
            assert(all[k] == init[k]);
            lemma_renamed_all_binds_fresh(es.drop_last(), olds, news, count, name);
        } else {
            assert(all[k] == last);
            lemma_renamed_binds_fresh(es.last(), olds, news, n1, name);
        }
    }
}

/// Renaming before substitution avoids capture: a variable of a replacement
/// that is no fresh name is free in the result, wherever the replacement is
/// put for a free variable of the renamed body.
pub proof fn lemma_renaming_avoids_capture(
    body: Seq<ExprView>,
    vars: Seq<Seq<char>>,
    reps: Seq<ExprView>,
    i: int,
    y: Seq<char>,
)
    requires
        vars.len() == reps.len(),
        0 <= i < vars.len(),
        position(vars, vars[i]) == Some(i),
        free_in_any(vars[i], renamed(body)),
        free_in(y, reps[i]),
        !is_fresh(y),
    ensures
        free_in_any(y, subst_all(renamed(body), vars, reps)),
{
    let fresh_body = renamed(body);
    if binds_any(fresh_body, y) {
        lemma_renamed_all_binds_fresh(body, Seq::empty(), Seq::empty(), 0, y);
    }
    lemma_no_capture_any(fresh_body, vars, reps, i, y);
}

/// The body of a closure takes its arguments in without capture: where the
/// `i`-th parameter is free in the body, and no parameter in the body can get
/// its name, a variable of the `i`-th argument that is no fresh name is free
/// in the body with the arguments in place.
pub proof fn lemma_instantiation_avoids_capture(
    params: Seq<Seq<char>>,
    body: Seq<ExprView>,
    reps: Seq<ExprView>,
    i: int,
    y: Seq<char>,
)
    requires
        params.len() == reps.len(),
        0 <= i < params.len(),
        position(params, params[i]) == Some(i),
        free_in_any(params[i], body),
        all_safe_from(body, params[i]),
        free_in(y, reps[i]),
        !is_fresh(y),
    ensures
        free_in_any(y, subst_all(renamed(body), params, reps)),
{
    let none = Seq::<Seq<char>>::empty();
    lemma_renaming_keeps_free_any(body, none, none, 0, params[i]);
    lemma_renaming_avoids_capture(body, params, reps, i, y);
}

} // verus!
