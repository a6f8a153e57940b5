//! `let` is sugar: an application of a procedure to the values bound.
use vstd::prelude::*;
use crate::ast::{
    binding_names, binding_values, duplicate_names, exprs_view, names_view,
    Application, ConstituentExpression, ExprView, If, Let, Procedure, VariableDeclaration,
};
use crate::substitution::{all_let_free, let_free};

verus! {

/// The expression without `let`: each `let` is the application of the
/// procedure with the bound names as parameters and the body of the `let`
/// as body, to the expressions bound.
pub open spec fn desugar(e: ExprView) -> ExprView
    decreases e,
{
    match e {
        ExprView::Applic { operator, operands } => ExprView::Applic {
            operator: Box::new(desugar(*operator)),
            operands: desugar_all(operands),
        },
        ExprView::If { cond, then_branch, alt } => ExprView::If {
            cond: Box::new(desugar(*cond)),
            then_branch: Box::new(desugar(*then_branch)),
            alt: Box::new(desugar(*alt)),
        },
        ExprView::Procedure { params, body } => ExprView::Procedure {
            params,
            body: desugar_all(body),
        },
        ExprView::Let { names, values, body } => ExprView::Applic {
            operator: Box::new(ExprView::Procedure { params: names, body: desugar_all(body) }),
            operands: desugar_all(values),
        },
        _ => e,
    }
}

/// `desugar` on each expression of a sequence.
pub open spec fn desugar_all(es: Seq<ExprView>) -> Seq<ExprView>
    decreases es,
{
    Seq::new(
        es.len(),
        |i: int|
            if 0 <= i < es.len() {
                desugar(es[i])
            } else {
                arbitrary()
            },
    )
}

/// No `let` is left in a desugared expression.
pub proof fn lemma_desugar_let_free(e: ExprView)
    ensures
        let_free(desugar(e)),
    decreases e,
{
    match e {
        ExprView::Applic { operator, operands } => {
            lemma_desugar_let_free(*operator);
            lemma_desugar_all_let_free(operands);
        },
        ExprView::If { cond, then_branch, alt } => {
            lemma_desugar_let_free(*cond);
            lemma_desugar_let_free(*then_branch);
            lemma_desugar_let_free(*alt);
        },
        ExprView::Procedure { params, body } => {
            lemma_desugar_all_let_free(body);
        },
        ExprView::Let { names, values, body } => {
            lemma_desugar_all_let_free(body);
            lemma_desugar_all_let_free(values);
            assert(let_free(ExprView::Procedure { params: names, body: desugar_all(body) }));
        },
        _ => {},
    }
}

/// No `let` is left in a desugared sequence.
pub proof fn lemma_desugar_all_let_free(es: Seq<ExprView>)
    ensures
        all_let_free(desugar_all(es)),
    decreases es,
{
    assert forall|i: int| 0 <= i < es.len() implies let_free(#[trigger] desugar_all(es)[i]) by {
        lemma_desugar_let_free(es[i]);
    }
}

/// An expression without `let` is its own desugaring.
pub proof fn lemma_desugar_fixed(e: ExprView)
    requires
        let_free(e),
    ensures
        desugar(e) == e,
    decreases e,
{
    match e {
        ExprView::Applic { operator, operands } => {
            lemma_desugar_fixed(*operator);
            lemma_desugar_all_fixed(operands);
        },
        ExprView::If { cond, then_branch, alt } => {
            lemma_desugar_fixed(*cond);
            lemma_desugar_fixed(*then_branch);
            lemma_desugar_fixed(*alt);
        },
        ExprView::Procedure { params, body } => {
            lemma_desugar_all_fixed(body);
        },
        _ => {},
    }
}

/// A sequence without `let` is its own desugaring.
pub proof fn lemma_desugar_all_fixed(es: Seq<ExprView>)
    requires
        all_let_free(es),
    ensures
        desugar_all(es) == es,
    decreases es,
{
    assert forall|i: int| 0 <= i < es.len() implies desugar_all(es)[i] == es[i] by {
        lemma_desugar_fixed(es[i]);
    }
    assert(desugar_all(es) =~= es);
}

/// The expression without `let`.
pub fn desugared(cexp: &ConstituentExpression) -> (r: ConstituentExpression)
    ensures
        r@ == desugar(cexp@),
        let_free(r@),
    decreases cexp,
{
    proof {
        lemma_desugar_let_free(cexp@);
    }
    match cexp {
        ConstituentExpression::Applic(applic) => ConstituentExpression::Applic(
            Application {
                operator: Box::new(desugared(&applic.operator)),
                operands: desugared_all(&applic.operands),
            },
        ),
        ConstituentExpression::If(ifexp) => ConstituentExpression::If(
            If {
                cond: Box::new(desugared(&ifexp.cond)),
                then_branch: Box::new(desugared(&ifexp.then_branch)),
                alt: Box::new(desugared(&ifexp.alt)),
            },
        ),
        ConstituentExpression::Procedure(proc) => ConstituentExpression::Procedure(
            Procedure { args: duplicate_names(&proc.args), body: desugared_all(&proc.body) },
        ),
        ConstituentExpression::Let(letexp) => {
            let (args, operands) = desugared_bindings(&letexp.bindings);
            let proc = ConstituentExpression::Procedure(
                Procedure { args, body: desugared_all(&letexp.body) },
            );
            assert(proc@ == ExprView::Procedure {
                params: binding_names(letexp.bindings@),
                body: desugar_all(exprs_view(letexp.body@)),
            });
            ConstituentExpression::Applic(Application { operator: Box::new(proc), operands })
        },
        _ => cexp.duplicate(),
    }
}

/// The names of the bindings of a `let`, and the desugared expressions bound.
pub fn desugared_bindings(bindings: &Vec<(VariableDeclaration, Box<ConstituentExpression>)>) -> (r: (
    Vec<VariableDeclaration>,
    Vec<Box<ConstituentExpression>>,
))
    ensures
        names_view(r.0@) == binding_names(bindings@),
        exprs_view(r.1@) == desugar_all(binding_values(bindings@)),
    decreases bindings,
{
    let mut names: Vec<VariableDeclaration> = Vec::new();
    let mut values: Vec<Box<ConstituentExpression>> = Vec::new();
    let mut i: usize = 0;
    while i < bindings.len()
        invariant
            i <= bindings.len(),
            names.len() == i,
            values.len() == i,
            forall|k: int| 0 <= k < i ==> names[k].0@ == bindings[k].0.0@,
            forall|k: int| 0 <= k < i ==> (*values[k])@ == desugar((*bindings[k].1)@),
        decreases bindings.len() - i,
    {
        names.push(VariableDeclaration(bindings[i].0.0.clone()));
        values.push(Box::new(desugared(&bindings[i].1)));
        i = i + 1;
    }
    (names, values)
}

/// Each expression of a sequence without `let`.
pub fn desugared_all(exps: &Vec<Box<ConstituentExpression>>) -> (r: Vec<Box<ConstituentExpression>>)
    ensures
        exprs_view(r@) == desugar_all(exprs_view(exps@)),
        all_let_free(exprs_view(r@)),
    decreases exps,
{
    proof {
        lemma_desugar_all_let_free(exprs_view(exps@));
    }
    let mut out: Vec<Box<ConstituentExpression>> = Vec::new();
    let mut i: usize = 0;
    while i < exps.len()
        invariant
            i <= exps.len(),
            out.len() == i,
            forall|k: int| 0 <= k < i ==> (*out[k])@ == desugar((*exps[k])@),
        decreases exps.len() - i,
    {
        out.push(Box::new(desugared(&exps[i])));
        i = i + 1;
    }
    assert(exprs_view(out@) =~= desugar_all(exprs_view(exps@)));
    out
}

} // verus!
