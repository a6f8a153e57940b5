//! Renaming of bound variables and substitution of expressions for variables.
//!
//! A procedure is applied by substituting its arguments into its body. Before
//! that, every parameter of every procedure in the body is given a fresh name,
//! so that no binder in the body can capture a variable of an argument.
use vstd::prelude::*;
use vstd::string::StringExecFns;
use crate::ast::{
    exprs_view, names_view, Application, Boolean, ConstituentExpression, ExprView, If, Number,
    NumberView, Procedure, VariableDeclaration, VariableReference, duplicate_names, duplicate_exprs,
};
use crate::value::{Value, ValueView};

verus! {

/// The texts of a sequence of strings.
pub open spec fn texts(names: Seq<String>) -> Seq<Seq<char>> {
    Seq::new(names.len(), |i: int| names[i]@)
}

/// The views of a sequence of expressions.
pub open spec fn views(exps: Seq<ConstituentExpression>) -> Seq<ExprView> {
    Seq::new(exps.len(), |i: int| exps[i]@)
}

/// Whether no `let` occurs in the expression. Quoted S-expressions are not
/// looked into: they are data.
pub open spec fn let_free(e: ExprView) -> bool
    decreases e,
{
    match e {
        ExprView::Applic { operator, operands } => let_free(*operator) && all_let_free(operands),
        ExprView::If { cond, then_branch, alt } => let_free(*cond) && let_free(*then_branch)
            && let_free(*alt),
        ExprView::Procedure { params, body } => all_let_free(body),
        ExprView::Let { .. } => false,
        _ => true,
    }
}

/// Whether no `let` occurs in any of the expressions.
pub open spec fn all_let_free(es: Seq<ExprView>) -> bool
    decreases es,
{
    forall|i: int| 0 <= i < es.len() ==> let_free(#[trigger] es[i])
}

/// The first index at which `name` stands in `names`.
pub open spec fn position(names: Seq<Seq<char>>, name: Seq<char>) -> Option<int> {
    if exists|i: int| 0 <= i < names.len() && names[i] == name {
        Some(first_index(names, name, 0))
    } else {
        None
    }
}

/// The least index from `from` on at which `name` stands in `names`, or the
/// length of `names` where there is none.
pub open spec fn first_index(names: Seq<Seq<char>>, name: Seq<char>, from: int) -> int
    decreases names.len() - from,
{
    if from < 0 || from >= names.len() {
        names.len() as int
    } else if names[from] == name {
        from
    } else {
        first_index(names, name, from + 1)
    }
}

/// `first_index` finds the least index at which the name stands.
pub proof fn lemma_first_index(names: Seq<Seq<char>>, name: Seq<char>, from: int)
    requires
        0 <= from <= names.len(),
    ensures
        from <= first_index(names, name, from) <= names.len(),
        first_index(names, name, from) < names.len() ==> names[first_index(names, name, from)]
            == name,
        forall|k: int| from <= k < first_index(names, name, from) ==> names[k] != name,
    decreases names.len() - from,
{
    if from < names.len() && names[from] != name {
        lemma_first_index(names, name, from + 1);
    }
}

/// `position` is the first index at which the name stands, and there is none
/// exactly where the name does not stand at all.
pub proof fn lemma_position(names: Seq<Seq<char>>, name: Seq<char>)
    ensures
        match position(names, name) {
            Some(i) => 0 <= i < names.len() && names[i] == name && forall|k: int|
                0 <= k < i ==> names[k] != name,
            None => !names.contains(name),
        },
{
    lemma_first_index(names, name, 0);
    if position(names, name) is Some {
        let i = choose|i: int| 0 <= i < names.len() && names[i] == name;
        let k = first_index(names, name, 0);
        if k >= names.len() {
            assert(names[i] != name);
        }
    }
}

/// Where a name stands at `i` and nowhere before, `position` is `i`.
pub proof fn lemma_position_found(names: Seq<Seq<char>>, name: Seq<char>, i: int)
    requires
        0 <= i < names.len(),
        names[i] == name,
        forall|k: int| 0 <= k < i ==> names[k] != name,
    ensures
        position(names, name) == Some(i),
{
    lemma_first_index(names, name, 0);
}

/// The decimal digit `d` as a character.
pub open spec fn digit_char(d: int) -> char {
    if d == 0 {
        '0'
    } else if d == 1 {
        '1'
    } else if d == 2 {
        '2'
    } else if d == 3 {
        '3'
    } else if d == 4 {
        '4'
    } else if d == 5 {
        '5'
    } else if d == 6 {
        '6'
    } else if d == 7 {
        '7'
    } else if d == 8 {
        '8'
    } else {
        '9'
    }
}

/// A number in decimal, without leading zeros.
pub open spec fn decimal_text(n: nat) -> Seq<char>
    decreases n,
{
    if n < 10 {
        seq![digit_char(n as int)]
    } else {
        decimal_text(n / 10).push(digit_char((n % 10) as int))
    }
}

/// The fresh name that the `count`-th draw gives to `base`: the name, two
/// underscores, and the count in decimal.
pub open spec fn fresh_name(base: Seq<char>, count: u64) -> Seq<char> {
    base + seq!['_', '_'] + decimal_text(count as nat)
}

/// The counter after `draws` more names: it counts up and stays at the
/// largest value once there.
pub open spec fn advance(count: u64, draws: nat) -> u64 {
    if count + draws <= u64::MAX {
        (count + draws) as u64
    } else {
        u64::MAX
    }
}

/// The fresh names that the parameters `names` get, drawn in order from a
/// generator that stands at `count`.
pub open spec fn fresh_names(names: Seq<Seq<char>>, count: u64) -> Seq<Seq<char>> {
    Seq::new(names.len(), |i: int| fresh_name(names[i], advance(count, (i + 1) as nat)))
}

/// Whether the character is a decimal digit.
pub open spec fn is_digit(c: char) -> bool {
    48 <= c as int <= 57
}

/// The number that a text of decimal digits denotes.
pub open spec fn decimal_value(text: Seq<char>) -> nat
    decreases text.len(),
{
    if text.len() == 0 {
        0
    } else {
        (decimal_value(text.drop_last()) * 10 + (text.last() as int - 48)) as nat
    }
}

/// A number in decimal is a text of digits that denotes the number.
pub proof fn lemma_decimal_text(n: nat)
    ensures
        decimal_text(n).len() >= 1,
        forall|k: int| 0 <= k < decimal_text(n).len() ==> is_digit(#[trigger] decimal_text(n)[k]),
        decimal_value(decimal_text(n)) == n,
    decreases n,
{
    if n < 10 {
        let text = seq![digit_char(n as int)];
        assert(text.drop_last() =~= Seq::<char>::empty());
        assert(decimal_value(text.drop_last()) == 0);
        assert(text.last() == digit_char(n as int));
    } else {
        lemma_decimal_text(n / 10);
        let init = decimal_text(n / 10);
        let text = init.push(digit_char((n % 10) as int));
        assert(text.drop_last() =~= init);
        assert(text.last() == digit_char((n % 10) as int));
        assert forall|k: int| 0 <= k < text.len() implies is_digit(#[trigger] text[k]) by {
            if k < init.len() {
                assert(text[k] == init[k]);
            }
        }
    }
}

/// Different numbers are written differently.
pub proof fn lemma_decimal_text_injective(m: nat, n: nat)
    requires
        decimal_text(m) == decimal_text(n),
    ensures
        m == n,
{
    lemma_decimal_text(m);
    lemma_decimal_text(n);
}

/// A fresh name tells the name and the count that it was drawn for: names
/// drawn at different counts differ, whatever they were drawn for, and so do
/// names drawn for different names.
pub proof fn lemma_fresh_name_injective(a: Seq<char>, i: u64, b: Seq<char>, j: u64)
    requires
        fresh_name(a, i) == fresh_name(b, j),
    ensures
        a == b,
        i == j,
{
    let da = decimal_text(i as nat);
    let db = decimal_text(j as nat);
    let s = fresh_name(a, i);
    let t = fresh_name(b, j);
    let la = a.len() as int;
    let lb = b.len() as int;
    lemma_decimal_text(i as nat);
    lemma_decimal_text(j as nat);
    assert(s.len() == la + 2 + da.len());
    assert(t.len() == lb + 2 + db.len());
    assert(s[la + 1] == '_');
    assert(t[lb + 1] == '_');
    if la < lb {
        let k = lb + 1 - (la + 2);
        assert(s[lb + 1] == da[k]);
        assert(is_digit(da[k]));
    }
    if lb < la {
        let k = la + 1 - (lb + 2);
        assert(t[la + 1] == db[k]);
        assert(is_digit(db[k]));
    }
    assert(la == lb);
    assert forall|k: int| 0 <= k < la implies a[k] == b[k] by {
        assert(s[k] == a[k]);
        assert(t[k] == b[k]);
    }
    assert(a =~= b);
    assert forall|k: int| 0 <= k < da.len() implies da[k] == db[k] by {
        assert(s[la + 2 + k] == da[k]);
        assert(t[lb + 2 + k] == db[k]);
    }
    assert(da =~= db);
    lemma_decimal_text_injective(i as nat, j as nat);
}

/// A fresh name is no name that it could have been drawn for.
pub proof fn lemma_fresh_name_is_new(base: Seq<char>, count: u64)
    ensures
        fresh_name(base, count) != base,
{
    lemma_decimal_text(count as nat);
    assert(fresh_name(base, count).len() > base.len());
}

/// A source of fresh names: a counter of the names drawn so far.
#[derive(Debug, Clone, Copy, PartialEq, Eq)]
pub struct VarGen {
    pub count: u64,
}

/// A generator from which no name was drawn yet.
pub fn make_var_gen() -> (r: VarGen)
    ensures
        r.count == 0,
{
    VarGen { count: 0 }
}

/// A decimal digit as a text.
fn digit_text(d: u64) -> (r: &'static str)
    requires
        d < 10,
    ensures
        r@ == seq![digit_char(d as int)],
{
    proof {
        reveal_strlit("0");
        reveal_strlit("1");
        reveal_strlit("2");
        reveal_strlit("3");
        reveal_strlit("4");
        reveal_strlit("5");
        reveal_strlit("6");
        reveal_strlit("7");
        reveal_strlit("8");
        reveal_strlit("9");
    }
    let r = if d == 0 {
        "0"
    } else if d == 1 {
        "1"
    } else if d == 2 {
        "2"
    } else if d == 3 {
        "3"
    } else if d == 4 {
        "4"
    } else if d == 5 {
        "5"
    } else if d == 6 {
        "6"
    } else if d == 7 {
        "7"
    } else if d == 8 {
        "8"
    } else {
        "9"
    };
    r
}

/// Appends a number in decimal to a text.
pub fn push_decimal(text: &mut String, n: u64)
    ensures
        final(text)@ == old(text)@ + decimal_text(n as nat),
    decreases n,
{
    if n < 10 {
        text.append(digit_text(n));
    } else {
        push_decimal(text, n / 10);
        text.append(digit_text(n % 10));
    }
}

impl VarGen {
    /// Draws the next fresh name for `base`.
    pub fn fresh(&mut self, base: &str) -> (r: String)
        ensures
            final(self).count == advance(old(self).count, 1),
            r@ == fresh_name(base@, final(self).count),
    {
        if self.count < u64::MAX {
            self.count = self.count + 1;
        }
        let mut name = String::from_str(base);
        proof {
            reveal_strlit("__");
        }
        name.append("__");
        push_decimal(&mut name, self.count);
        name
    }
}

/// The variables among `vars` that the parameters `params` do not shadow, in order.
pub open spec fn retained_vars(vars: Seq<Seq<char>>, params: Seq<Seq<char>>) -> Seq<Seq<char>>
    decreases vars.len(),
{
    if vars.len() == 0 {
        Seq::empty()
    } else if params.contains(vars.last()) {
        retained_vars(vars.drop_last(), params)
    } else {
        retained_vars(vars.drop_last(), params).push(vars.last())
    }
}

/// The replacements of the variables that `params` do not shadow, in order.
pub open spec fn retained_reps(
    vars: Seq<Seq<char>>,
    reps: Seq<ExprView>,
    params: Seq<Seq<char>>,
) -> Seq<ExprView>
    decreases vars.len(),
{
    if vars.len() == 0 || reps.len() == 0 {
        Seq::empty()
    } else if params.contains(vars.last()) {
        retained_reps(vars.drop_last(), reps.drop_last(), params)
    } else {
        retained_reps(vars.drop_last(), reps.drop_last(), params).push(reps.last())
    }
}

/// The expression with `reps[i]` in place of every free occurrence of
/// `vars[i]`. Where a variable stands twice in `vars`, the first counts. Under
/// a procedure, the variables that its parameters shadow are left alone.
pub open spec fn subst(e: ExprView, vars: Seq<Seq<char>>, reps: Seq<ExprView>) -> ExprView
    decreases e,
{
    match e {
        ExprView::VariableReference(name) => match position(vars, name) {
            Some(i) => reps[i],
            None => e,
        },
        ExprView::If { cond, then_branch, alt } => ExprView::If {
            cond: Box::new(subst(*cond, vars, reps)),
            then_branch: Box::new(subst(*then_branch, vars, reps)),
            alt: Box::new(subst(*alt, vars, reps)),
        },
        ExprView::Applic { operator, operands } => ExprView::Applic {
            operator: Box::new(subst(*operator, vars, reps)),
            operands: subst_all(operands, vars, reps),
        },
        ExprView::Procedure { params, body } => ExprView::Procedure {
            params,
            body: subst_all(
                body,
                retained_vars(vars, params),
                retained_reps(vars, reps, params),
            ),
        },
        _ => e,
    }
}

/// `subst` on each expression of a sequence.
pub open spec fn subst_all(es: Seq<ExprView>, vars: Seq<Seq<char>>, reps: Seq<ExprView>) -> Seq<
    ExprView,
>
    decreases es,
{
    Seq::new(
        es.len(),
        |i: int|
            if 0 <= i < es.len() {
                subst(es[i], vars, reps)
            } else {
                arbitrary()
            },
    )
}

/// Substituting for no variable changes nothing.
pub proof fn lemma_subst_nothing(e: ExprView)
    ensures
        subst(e, Seq::empty(), Seq::empty()) == e,
    decreases e,
{
    let none = Seq::<Seq<char>>::empty();
    let nothing = Seq::<ExprView>::empty();
    match e {
        ExprView::If { cond, then_branch, alt } => {
            lemma_subst_nothing(*cond);
            lemma_subst_nothing(*then_branch);
            lemma_subst_nothing(*alt);
        },
        ExprView::Applic { operator, operands } => {
            lemma_subst_nothing(*operator);
            lemma_subst_all_nothing(operands);
        },
        ExprView::Procedure { params, body } => {
            assert(retained_vars(none, params) =~= none);
            assert(retained_reps(none, nothing, params) =~= nothing);
            lemma_subst_all_nothing(body);
        },
        _ => {},
    }
}

/// Substituting for no variable changes nothing in a sequence.
pub proof fn lemma_subst_all_nothing(es: Seq<ExprView>)
    ensures
        subst_all(es, Seq::empty(), Seq::empty()) == es,
    decreases es,
{
    assert forall|i: int| 0 <= i < es.len() implies subst_all(es, Seq::empty(), Seq::empty())[i]
        == es[i] by {
        lemma_subst_nothing(es[i]);
    }
    assert(subst_all(es, Seq::empty(), Seq::empty()) =~= es);
}

/// Where the parameters shadow every variable, none is retained.
pub proof fn lemma_retained_none(vars: Seq<Seq<char>>, reps: Seq<ExprView>, params: Seq<Seq<char>>)
    requires
        vars.len() == reps.len(),
        forall|i: int| 0 <= i < vars.len() ==> params.contains(#[trigger] vars[i]),
    ensures
        retained_vars(vars, params) == Seq::<Seq<char>>::empty(),
        retained_reps(vars, reps, params) == Seq::<ExprView>::empty(),
    decreases vars.len(),
{
    if vars.len() > 0 {
        assert(params.contains(vars[vars.len() - 1]));
        assert forall|i: int| 0 <= i < vars.drop_last().len() implies params.contains(
            #[trigger] vars.drop_last()[i],
        ) by {
            assert(vars.drop_last()[i] == vars[i]);
        }
        lemma_retained_none(vars.drop_last(), reps.drop_last(), params);
    }
}

/// A binder shadows: a procedure whose parameters include every variable
/// substituted for is left as it is.
pub proof fn lemma_subst_shadowed(
    params: Seq<Seq<char>>,
    body: Seq<ExprView>,
    vars: Seq<Seq<char>>,
    reps: Seq<ExprView>,
)
    requires
        vars.len() == reps.len(),
        forall|i: int| 0 <= i < vars.len() ==> params.contains(#[trigger] vars[i]),
    ensures
        subst(ExprView::Procedure { params, body }, vars, reps) == (ExprView::Procedure {
            params,
            body,
        }),
{
    lemma_retained_none(vars, reps, params);
    lemma_subst_all_nothing(body);
}

/// Whether no procedure occurs in the expression.
pub open spec fn procedure_free(e: ExprView) -> bool
    decreases e,
{
    match e {
        ExprView::Applic { operator, operands } => procedure_free(*operator) && forall|i: int|
            0 <= i < operands.len() ==> procedure_free(#[trigger] operands[i]),
        ExprView::If { cond, then_branch, alt } => procedure_free(*cond) && procedure_free(
            *then_branch,
        ) && procedure_free(*alt),
        ExprView::Procedure { .. } => false,
        ExprView::Let { .. } => false,
        _ => true,
    }
}

/// Renaming changes binders and what they bind, and nothing else: an
/// expression without a procedure, renamed under no binder, stays as it is,
/// and no name is drawn.
pub proof fn lemma_rename_without_procedures(e: ExprView, count: u64)
    requires
        procedure_free(e),
    ensures
        rename_expr(e, Seq::empty(), Seq::empty(), count) == (e, count),
    decreases e,
{
    match e {
        ExprView::If { cond, then_branch, alt } => {
            lemma_rename_without_procedures(*cond, count);
            lemma_rename_without_procedures(*then_branch, count);
            lemma_rename_without_procedures(*alt, count);
        },
        ExprView::Applic { operator, operands } => {
            lemma_rename_without_procedures(*operator, count);
            lemma_rename_all_without_procedures(operands, count);
        },
        _ => {},
    }
}

/// A sequence of expressions without a procedure, renamed under no binder,
/// stays as it is.
pub proof fn lemma_rename_all_without_procedures(es: Seq<ExprView>, count: u64)
    requires
        forall|i: int| 0 <= i < es.len() ==> procedure_free(#[trigger] es[i]),
    ensures
        rename_all(es, Seq::empty(), Seq::empty(), count) == (es, count),
    decreases es,
{
    if es.len() > 0 {
        assert forall|i: int| 0 <= i < es.drop_last().len() implies procedure_free(
            #[trigger] es.drop_last()[i],
        ) by {
            assert(es.drop_last()[i] == es[i]);
        }
        lemma_rename_all_without_procedures(es.drop_last(), count);
        assert(procedure_free(es[es.len() - 1]));
        lemma_rename_without_procedures(es.last(), count);
        assert(es.drop_last().push(es.last()) =~= es);
    } else {
        assert(es =~= Seq::<ExprView>::empty());
    }
}

/// Whether `name` is among the parameters.
pub fn declares(params: &Vec<VariableDeclaration>, name: &String) -> (r: bool)
    ensures
        r == names_view(params@).contains(name@),
{
    let mut i: usize = 0;
    while i < params.len()
        invariant
            i <= params.len(),
            forall|k: int| 0 <= k < i ==> names_view(params@)[k] != name@,
        decreases params.len() - i,
    {
        if params[i].0 == *name {
            assert(names_view(params@)[i as int] == name@);
            return true;
        }
        i = i + 1;
    }
    false
}

/// The first index at which `name` stands among `vars`.
pub fn find_variable(vars: &[String], name: &String) -> (r: Option<usize>)
    ensures
        match r {
            Some(i) => position(texts(vars@), name@) == Some(i as int) && i < vars.len(),
            None => position(texts(vars@), name@) is None,
        },
{
    let mut i: usize = 0;
    while i < vars.len()
        invariant
            i <= vars.len(),
            forall|k: int| 0 <= k < i ==> texts(vars@)[k] != name@,
        decreases vars.len() - i,
    {
        if vars[i] == *name {
            proof {
                lemma_position_found(texts(vars@), name@, i as int);
            }
            return Some(i);
        }
        i = i + 1;
    }
    None
}

/// Substitutes `exps[i]` for every free occurrence of `vars[i]` in `cexp`.
pub fn substitute_one(
    cexp: &ConstituentExpression,
    vars: &[String],
    exps: &[ConstituentExpression],
) -> (r: ConstituentExpression)
    requires
        vars.len() == exps.len(),
        let_free(cexp@),
    ensures
        r@ == subst(cexp@, texts(vars@), views(exps@)),
    decreases cexp,
{
    match cexp {
        ConstituentExpression::VariableReference(v) => {
            match find_variable(vars, &v.0) {
                Some(i) => exps[i].duplicate(),
                None => cexp.duplicate(),
            }
        },
        ConstituentExpression::If(ifexp) => {
            let cond = substitute_one(&ifexp.cond, vars, exps);
            let then_branch = substitute_one(&ifexp.then_branch, vars, exps);
            let alt = substitute_one(&ifexp.alt, vars, exps);
            ConstituentExpression::If(
                If { cond: Box::new(cond), then_branch: Box::new(then_branch), alt: Box::new(alt) },
            )
        },
        ConstituentExpression::Applic(applic) => {
            let operator = Box::new(substitute_one(&applic.operator, vars, exps));
            let operands = boxed(&substitute(&applic.operands, vars, exps));
            ConstituentExpression::Applic(Application { operator, operands })
        },
        ConstituentExpression::Procedure(proc) => {
            let mut free_vars: Vec<String> = Vec::new();
            let mut free_exps: Vec<ConstituentExpression> = Vec::new();
            let mut i: usize = 0;
            while i < vars.len()
                invariant
                    i <= vars.len(),
                    vars.len() == exps.len(),
                    texts(free_vars@) == retained_vars(
                        texts(vars@).take(i as int),
                        names_view(proc.args@),
                    ),
                    views(free_exps@) == retained_reps(
                        texts(vars@).take(i as int),
                        views(exps@).take(i as int),
                        names_view(proc.args@),
                    ),
                    free_vars.len() == free_exps.len(),
                decreases vars.len() - i,
            {
                proof {
                    let vs = texts(vars@).take(i + 1);
                    let es = views(exps@).take(i + 1);
                    assert(vs.drop_last() =~= texts(vars@).take(i as int));
                    assert(es.drop_last() =~= views(exps@).take(i as int));
                }
                if !declares(&proc.args, &vars[i]) {
                    free_vars.push(vars[i].clone());
                    free_exps.push(exps[i].duplicate());
                }
                i = i + 1;
            }
            proof {
                assert(texts(vars@).take(i as int) =~= texts(vars@));
                assert(views(exps@).take(i as int) =~= views(exps@));
            }
            let body = boxed(&substitute(&proc.body, free_vars.as_slice(), free_exps.as_slice()));
            ConstituentExpression::Procedure(Procedure { args: duplicate_names(&proc.args), body })
        },
        _ => cexp.duplicate(),
    }
}

/// Substitutes `exps[i]` for every free occurrence of `vars[i]` in each
/// expression of `body`.
pub fn substitute(
    body: &Vec<Box<ConstituentExpression>>,
    vars: &[String],
    exps: &[ConstituentExpression],
) -> (r: Vec<ConstituentExpression>)
    requires
        vars.len() == exps.len(),
        all_let_free(exprs_view(body@)),
    ensures
        views(r@) == subst_all(exprs_view(body@), texts(vars@), views(exps@)),
    decreases body,
{
    let mut out: Vec<ConstituentExpression> = Vec::new();
    let mut i: usize = 0;
    while i < body.len()
        invariant
            i <= body.len(),
            out.len() == i,
            vars.len() == exps.len(),
            all_let_free(exprs_view(body@)),
            forall|k: int|
                0 <= k < i ==> out[k]@ == subst(exprs_view(body@)[k], texts(vars@), views(exps@)),
        decreases body.len() - i,
    {
        assert(let_free(exprs_view(body@)[i as int]));
        out.push(substitute_one(&body[i], vars, exps));
        i = i + 1;
    }
    out
}

/// A copy of each expression of a sequence, in a box.
pub fn boxed(exps: &Vec<ConstituentExpression>) -> (r: Vec<Box<ConstituentExpression>>)
    ensures
        exprs_view(r@) == views(exps@),
{
    let mut out: Vec<Box<ConstituentExpression>> = Vec::new();
    let mut i: usize = 0;
    while i < exps.len()
        invariant
            i <= exps.len(),
            out.len() == i,
            forall|k: int| 0 <= k < i ==> (*out[k])@ == exps[k]@,
        decreases exps.len() - i,
    {
        out.push(Box::new(exps[i].duplicate()));
        i = i + 1;
    }
    out
}

/// The expression with fresh names for the parameters of every procedure in
/// it, and its counter after that.
///
/// `olds` are the parameters of the procedures around the expression, the
/// innermost first, and `news` their fresh names: an occurrence of a variable
/// is rewritten to the fresh name of the innermost parameter that binds it, and
/// a variable that none binds stays. A procedure draws one name for each of its
/// parameters, in order, before its body is renamed.
pub open spec fn rename_expr(
    e: ExprView,
    olds: Seq<Seq<char>>,
    news: Seq<Seq<char>>,
    count: u64,
) -> (ExprView, u64)
    decreases e,
{
    match e {
        ExprView::VariableReference(name) => match position(olds, name) {
            Some(i) => (ExprView::VariableReference(news[i]), count),
            None => (e, count),
        },
        ExprView::If { cond, then_branch, alt } => {
            let (c, n1) = rename_expr(*cond, olds, news, count);
            let (t, n2) = rename_expr(*then_branch, olds, news, n1);
            let (a, n3) = rename_expr(*alt, olds, news, n2);
            (ExprView::If { cond: Box::new(c), then_branch: Box::new(t), alt: Box::new(a) }, n3)
        },
        ExprView::Applic { operator, operands } => {
            let (op, n1) = rename_expr(*operator, olds, news, count);
            let (rands, n2) = rename_all(operands, olds, news, n1);
            (ExprView::Applic { operator: Box::new(op), operands: rands }, n2)
        },
        ExprView::Procedure { params, body } => {
            let fresh = fresh_names(params, count);
            let (b, n) = rename_all(
                body,
                params + olds,
                fresh + news,
                advance(count, params.len()),
            );
            (ExprView::Procedure { params: fresh, body: b }, n)
        },
        _ => (e, count),
    }
}

/// `rename_expr` on each expression of a sequence in turn, from the first,
/// each starting with the counter that the one before it left.
pub open spec fn rename_all(
    es: Seq<ExprView>,
    olds: Seq<Seq<char>>,
    news: Seq<Seq<char>>,
    count: u64,
) -> (Seq<ExprView>, u64)
    decreases es,
{
    if es.len() == 0 {
        (Seq::empty(), count)
    } else {
        let (init, n1) = rename_all(es.drop_last(), olds, news, count);
        let (last, n2) = rename_expr(es.last(), olds, news, n1);
        (init.push(last), n2)
    }
}

/// Renaming brings no `let` into an expression that has none.
pub proof fn lemma_rename_let_free(
    e: ExprView,
    olds: Seq<Seq<char>>,
    news: Seq<Seq<char>>,
    count: u64,
)
    requires
        let_free(e),
    ensures
        let_free(rename_expr(e, olds, news, count).0),
    decreases e,
{
    match e {
        ExprView::If { cond, then_branch, alt } => {
            let (c, n1) = rename_expr(*cond, olds, news, count);
            let (t, n2) = rename_expr(*then_branch, olds, news, n1);
            lemma_rename_let_free(*cond, olds, news, count);
            lemma_rename_let_free(*then_branch, olds, news, n1);
            lemma_rename_let_free(*alt, olds, news, n2);
        },
        ExprView::Applic { operator, operands } => {
            let (op, n1) = rename_expr(*operator, olds, news, count);
            lemma_rename_let_free(*operator, olds, news, count);
            lemma_rename_all_let_free(operands, olds, news, n1);
        },
        ExprView::Procedure { params, body } => {
            lemma_rename_all_let_free(
                body,
                params + olds,
                fresh_names(params, count) + news,
                advance(count, params.len()),
            );
        },
        _ => {},
    }
}

/// Renaming brings no `let` into a sequence that has none.
pub proof fn lemma_rename_all_let_free(
    es: Seq<ExprView>,
    olds: Seq<Seq<char>>,
    news: Seq<Seq<char>>,
    count: u64,
)
    requires
        all_let_free(es),
    ensures
        all_let_free(rename_all(es, olds, news, count).0),
        rename_all(es, olds, news, count).0.len() == es.len(),
    decreases es,
{
    if es.len() > 0 {
        let (init, n1) = rename_all(es.drop_last(), olds, news, count);
        assert forall|i: int| 0 <= i < es.drop_last().len() implies let_free(
            #[trigger] es.drop_last()[i],
        ) by {
            assert(es.drop_last()[i] == es[i]);
        }
        lemma_rename_all_let_free(es.drop_last(), olds, news, count);
        assert(let_free(es[es.len() - 1]));
        lemma_rename_let_free(es.last(), olds, news, n1);
    }
}

/// The expression that evaluates to a value: a number, a boolean or a
/// primitive as itself, a closure as the procedure it came from, an
/// S-expression as a quoted literal.
pub open spec fn literal_of(v: ValueView) -> ExprView {
    match v {
        ValueView::Number(bits) => ExprView::Number(NumberView::Bits(bits)),
        ValueView::Boolean(b) => ExprView::Boolean(b),
        ValueView::PrimitiveOperation(p) => ExprView::PrimitiveOperation(p),
        ValueView::Closure { params, body } => ExprView::Procedure { params, body },
        ValueView::SExpression(s) => ExprView::Literal(*s),
    }
}

/// The expression that evaluates to `value`.
pub fn value_to_literal(value: &Value) -> (r: ConstituentExpression)
    ensures
        r@ == literal_of(value@),
{
    match value {
        Value::Number(n) => ConstituentExpression::Number(Number::Bits(*n)),
        Value::Boolean(b) => ConstituentExpression::Boolean(Boolean(*b)),
        Value::PrimitiveOperation(p) => ConstituentExpression::PrimitiveOperation(*p),
        Value::Closure(c) => ConstituentExpression::Procedure(
            Procedure { args: duplicate_names(&c.params), body: duplicate_exprs(&c.body) },
        ),
        Value::SExpression(s) => ConstituentExpression::Literal(s.duplicate()),
    }
}

/// Renames the parameters of every procedure in `cexp`, drawing the names
/// from `var_gen`. `olds` and `news` are the parameters around `cexp` and
/// their fresh names, the innermost first.
pub fn replace(
    cexp: &ConstituentExpression,
    olds: &Vec<String>,
    news: &Vec<String>,
    var_gen: &mut VarGen,
) -> (r: ConstituentExpression)
    requires
        olds.len() == news.len(),
        let_free(cexp@),
    ensures
        (r@, final(var_gen).count) == rename_expr(
            cexp@,
            texts(olds@),
            texts(news@),
            old(var_gen).count,
        ),
    decreases cexp,
{
    match cexp {
        ConstituentExpression::VariableReference(v) => {
            match find_variable(olds.as_slice(), &v.0) {
                Some(i) => ConstituentExpression::VariableReference(
                    VariableReference(news[i].clone()),
                ),
                None => cexp.duplicate(),
            }
        },
        ConstituentExpression::If(ifexp) => {
            let cond = replace(&ifexp.cond, olds, news, var_gen);
            let then_branch = replace(&ifexp.then_branch, olds, news, var_gen);
            let alt = replace(&ifexp.alt, olds, news, var_gen);
            ConstituentExpression::If(
                If { cond: Box::new(cond), then_branch: Box::new(then_branch), alt: Box::new(alt) },
            )
        },
        ConstituentExpression::Applic(applic) => {
            let operator = Box::new(replace(&applic.operator, olds, news, var_gen));
            let operands = replace_all(&applic.operands, olds, news, var_gen);
            ConstituentExpression::Applic(Application { operator, operands })
        },
        ConstituentExpression::Procedure(proc) => {
            let ghost start = var_gen.count;
            let ghost params = names_view(proc.args@);
            let mut new_args: Vec<VariableDeclaration> = Vec::new();
            let mut inner_olds: Vec<String> = Vec::new();
            let mut inner_news: Vec<String> = Vec::new();
            let mut i: usize = 0;
            while i < proc.args.len()
                invariant
                    i <= proc.args.len(),
                    params == names_view(proc.args@),
                    new_args.len() == i,
                    inner_olds.len() == i,
                    inner_news.len() == i,
                    var_gen.count == advance(start, i as nat),
                    forall|k: int| 0 <= k < i ==> new_args[k].0@ == fresh_names(params, start)[k],
                    forall|k: int| 0 <= k < i ==> inner_news[k]@ == fresh_names(params, start)[k],
                    forall|k: int| 0 <= k < i ==> inner_olds[k]@ == params[k],
                decreases proc.args.len() - i,
            {
                let name = var_gen.fresh(proc.args[i].0.as_str());
                new_args.push(VariableDeclaration(name.clone()));
                inner_olds.push(proc.args[i].0.clone());
                inner_news.push(name);
                i = i + 1;
            }
            let mut j: usize = 0;
            while j < olds.len()
                invariant
                    j <= olds.len(),
                    olds.len() == news.len(),
                    inner_olds.len() == params.len() + j,
                    inner_news.len() == params.len() + j,
                    forall|k: int|
                        0 <= k < params.len() ==> inner_news[k]@ == fresh_names(params, start)[k],
                    forall|k: int| 0 <= k < params.len() ==> inner_olds[k]@ == params[k],
                    forall|k: int| 0 <= k < j ==> inner_olds[params.len() + k]@ == olds[k]@,
                    forall|k: int| 0 <= k < j ==> inner_news[params.len() + k]@ == news[k]@,
                decreases olds.len() - j,
            {
                inner_olds.push(olds[j].clone());
                inner_news.push(news[j].clone());
                j = j + 1;
            }
            proof {
                assert(texts(inner_olds@) =~= params + texts(olds@));
                assert(texts(inner_news@) =~= fresh_names(params, start) + texts(news@));
                assert(names_view(new_args@) =~= fresh_names(params, start));
            }
            let body = replace_all(&proc.body, &inner_olds, &inner_news, var_gen);
            ConstituentExpression::Procedure(Procedure { args: new_args, body })
        },
        _ => cexp.duplicate(),
    }
}

/// `replace` on each expression of a sequence in turn.
pub fn replace_all(
    exps: &Vec<Box<ConstituentExpression>>,
    olds: &Vec<String>,
    news: &Vec<String>,
    var_gen: &mut VarGen,
) -> (r: Vec<Box<ConstituentExpression>>)
    requires
        olds.len() == news.len(),
        all_let_free(exprs_view(exps@)),
    ensures
        (exprs_view(r@), final(var_gen).count) == rename_all(
            exprs_view(exps@),
            texts(olds@),
            texts(news@),
            old(var_gen).count,
        ),
    decreases exps,
{
    let ghost start = var_gen.count;
    let mut out: Vec<Box<ConstituentExpression>> = Vec::new();
    let mut i: usize = 0;
    while i < exps.len()
        invariant
            i <= exps.len(),
            out.len() == i,
            olds.len() == news.len(),
            all_let_free(exprs_view(exps@)),
            (exprs_view(out@), var_gen.count) == rename_all(
                exprs_view(exps@).take(i as int),
                texts(olds@),
                texts(news@),
                start,
            ),
        decreases exps.len() - i,
    {
        assert(let_free(exprs_view(exps@)[i as int]));
        let next = replace(&exps[i], olds, news, var_gen);
        out.push(Box::new(next));
        proof {
            let prefix = exprs_view(exps@).take(i + 1);
            assert(prefix.drop_last() =~= exprs_view(exps@).take(i as int));
        }
        i = i + 1;
    }
    proof {
        assert(exprs_view(exps@).take(i as int) =~= exprs_view(exps@));
    }
    out
}

/// The rule of renaming: what `rename` makes of a procedure body.
pub open spec fn renamed(body: Seq<ExprView>) -> Seq<ExprView> {
    rename_all(body, Seq::empty(), Seq::empty(), 0).0
}

/// Gives fresh names to the parameters of every procedure in `exps`, from a
/// generator of its own that starts at zero.
pub fn rename(exps: &Vec<Box<ConstituentExpression>>) -> (r: Vec<Box<ConstituentExpression>>)
    requires
        all_let_free(exprs_view(exps@)),
    ensures
        exprs_view(r@) == renamed(exprs_view(exps@)),
{
    let mut var_gen = make_var_gen();
    let olds: Vec<String> = Vec::new();
    let news: Vec<String> = Vec::new();
    proof {
        assert(texts(olds@) =~= Seq::<Seq<char>>::empty());
    }
    replace_all(exps, &olds, &news, &mut var_gen)
}

} // verus!
