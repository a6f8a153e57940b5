//! The syntax of L3: expressions, forms and programs, and their models.
//!
//! Each type of the syntax has a view, in which a `Vec` is a `Seq` and a
//! `String` its characters. The contracts of the parser and of the evaluator
//! speak of these views.
use vstd::prelude::*;
use crate::value::{SExpression, SExprView, sexpr_view};

verus! {

/// The application of an operator to operands.
#[derive(Debug, PartialEq)]
pub struct Application {
    pub operator: Box<ConstituentExpression>,
    pub operands: Vec<Box<ConstituentExpression>>,
}

/// A conditional: a condition and the two branches.
#[derive(Debug, PartialEq)]
pub struct If {
    pub cond: Box<ConstituentExpression>,
    pub then_branch: Box<ConstituentExpression>,
    pub alt: Box<ConstituentExpression>,
}

/// A procedure as written: its parameters and the expressions of its body.
#[derive(Debug, PartialEq)]
pub struct Procedure {
    pub args: Vec<VariableDeclaration>,
    pub body: Vec<Box<ConstituentExpression>>,
}

/// A `let`: names with the expressions bound to them, and a body.
#[derive(Debug, PartialEq)]
pub struct Let {
    pub bindings: Vec<(VariableDeclaration, Box<ConstituentExpression>)>,
    pub body: Vec<Box<ConstituentExpression>>,
}

/// A number in the syntax.
#[derive(Debug, Clone, PartialEq)]
pub enum Number {
    /// A numeral as the text has it. Its value is the host's to read.
    Literal(String),
    /// The bits of a number that an evaluation has produced.
    Bits(u64),
}

/// A boolean literal.
#[derive(Debug, Clone, PartialEq)]
pub struct Boolean(pub bool);

/// A text.
#[derive(Debug, Clone, PartialEq)]
pub struct Str(pub String);

/// The primitive operations.
#[derive(Debug, Clone, Copy, PartialEq, Eq, Structural)]
pub enum PrimitiveOperation {
    Add,
    Sub,
    Mul,
    Div,
    Equal,
    LessThan,
    LessThanOrEqual,
    GreaterThan,
    GreaterThanOrEqual,
    Not,
    And,
    Or,
    IsEq,
    Cons,
    Car,
    Cdr,
    List,
    IsPair,
    IsNumber,
    IsBoolean,
    IsSymbol,
}

/// An occurrence of a variable.
#[derive(Debug, Clone, PartialEq)]
pub struct VariableReference(pub String);

/// A name that a procedure or a `let` binds.
#[derive(Debug, Clone, PartialEq)]
pub struct VariableDeclaration(pub String);

/// An expression.
#[derive(Debug, PartialEq)]
pub enum ConstituentExpression {
    Applic(Application),
    If(If),
    Procedure(Procedure),
    Let(Let),
    Number(Number),
    Boolean(Boolean),
    Literal(SExpression),
    PrimitiveOperation(PrimitiveOperation),
    VariableReference(VariableReference),
}

/// A top-level definition: a name and the expression whose value it gets.
#[derive(Debug, PartialEq)]
pub struct Define {
    pub var: String,
    pub val: ConstituentExpression,
}

/// A form of a program: a definition, or an expression.
#[derive(Debug, PartialEq)]
pub enum Expression {
    Define(Define),
    ConstituentExpression(ConstituentExpression),
}

/// A program: its forms, in order.
#[derive(Debug, PartialEq)]
pub struct Program {
    pub exps: Vec<Expression>,
}

/// The model of a form.
pub enum FormView {
    Define { name: Seq<char>, value: ExprView },
    Plain(ExprView),
}

impl View for Expression {
    type V = FormView;

    open spec fn view(&self) -> FormView {
        match self {
            Expression::Define(d) => FormView::Define { name: d.var@, value: d.val@ },
            Expression::ConstituentExpression(e) => FormView::Plain(e@),
        }
    }
}

/// The views of a sequence of forms.
pub open spec fn forms_view(forms: Seq<Expression>) -> Seq<FormView> {
    Seq::new(forms.len(), |i: int| forms[i]@)
}

impl View for Program {
    type V = Seq<FormView>;

    open spec fn view(&self) -> Seq<FormView> {
        forms_view(self.exps@)
    }
}

/// The model of a number in the syntax.
pub enum NumberView {
    Literal(Seq<char>),
    Bits(u64),
}

/// The model of an expression. A `let` is held as its names, the expressions
/// bound to them, and its body.
pub enum ExprView {
    Applic { operator: Box<ExprView>, operands: Seq<ExprView> },
    If { cond: Box<ExprView>, then_branch: Box<ExprView>, alt: Box<ExprView> },
    Procedure { params: Seq<Seq<char>>, body: Seq<ExprView> },
    Let { names: Seq<Seq<char>>, values: Seq<ExprView>, body: Seq<ExprView> },
    Number(NumberView),
    Boolean(bool),
    Literal(SExprView),
    PrimitiveOperation(PrimitiveOperation),
    VariableReference(Seq<char>),
}

/// The model of an expression.
pub open spec fn expr_view(e: ConstituentExpression) -> ExprView
    decreases e,
{
    match e {
        ConstituentExpression::Applic(a) => ExprView::Applic {
            operator: Box::new(expr_view(*a.operator)),
            operands: exprs_view(a.operands@),
        },
        ConstituentExpression::If(f) => ExprView::If {
            cond: Box::new(expr_view(*f.cond)),
            then_branch: Box::new(expr_view(*f.then_branch)),
            alt: Box::new(expr_view(*f.alt)),
        },
        ConstituentExpression::Procedure(p) => ExprView::Procedure {
            params: names_view(p.args@),
            body: exprs_view(p.body@),
        },
        ConstituentExpression::Let(l) => ExprView::Let {
            names: binding_names(l.bindings@),
            values: binding_values(l.bindings@),
            body: exprs_view(l.body@),
        },
        ConstituentExpression::Number(Number::Literal(t)) => ExprView::Number(
            NumberView::Literal(t@),
        ),
        ConstituentExpression::Number(Number::Bits(b)) => ExprView::Number(NumberView::Bits(b)),
        ConstituentExpression::Boolean(b) => ExprView::Boolean(b.0),
        ConstituentExpression::Literal(s) => ExprView::Literal(sexpr_view(s)),
        ConstituentExpression::PrimitiveOperation(p) => ExprView::PrimitiveOperation(p),
        ConstituentExpression::VariableReference(v) => ExprView::VariableReference(v.0@),
    }
}

/// The names of a parameter list, in order.
pub open spec fn names_view(v: Seq<VariableDeclaration>) -> Seq<Seq<char>> {
    Seq::new(v.len(), |i: int| v[i].0@)
}

impl View for ConstituentExpression {
    type V = ExprView;

    open spec fn view(&self) -> ExprView {
        expr_view(*self)
    }
}

/// A copy of a parameter list.
pub fn duplicate_names(v: &Vec<VariableDeclaration>) -> (r: Vec<VariableDeclaration>)
    ensures
        names_view(r@) == names_view(v@),
{
    let mut out: Vec<VariableDeclaration> = Vec::new();
    let mut i: usize = 0;
    while i < v.len()
        invariant
            i <= v.len(),
            out.len() == i,
            forall|k: int| 0 <= k < i ==> out[k].0@ == v[k].0@,
        decreases v.len() - i,
    {
        out.push(VariableDeclaration(v[i].0.clone()));
        i = i + 1;
    }
    out
}

/// A copy of the bindings of a `let`.
pub fn duplicate_bindings(v: &Vec<(VariableDeclaration, Box<ConstituentExpression>)>) -> (r: Vec<
    (VariableDeclaration, Box<ConstituentExpression>),
>)
    ensures
        binding_names(r@) == binding_names(v@),
        binding_values(r@) == binding_values(v@),
    decreases v,
{
    let mut out: Vec<(VariableDeclaration, Box<ConstituentExpression>)> = Vec::new();
    let mut i: usize = 0;
    while i < v.len()
        invariant
            i <= v.len(),
            out.len() == i,
            forall|k: int| 0 <= k < i ==> out[k].0.0@ == v[k].0.0@,
            forall|k: int| 0 <= k < i ==> expr_view(*out[k].1) == expr_view(*v[k].1),
        decreases v.len() - i,
    {
        let name = VariableDeclaration(v[i].0.0.clone());
        let value = Box::new(v[i].1.duplicate());
        out.push((name, value));
        i = i + 1;
    }
    out
}

/// A copy of a sequence of expressions.
pub fn duplicate_exprs(v: &Vec<Box<ConstituentExpression>>) -> (r: Vec<Box<ConstituentExpression>>)
    ensures
        exprs_view(r@) == exprs_view(v@),
    decreases v,
{
    let mut out: Vec<Box<ConstituentExpression>> = Vec::new();
    let mut i: usize = 0;
    while i < v.len()
        invariant
            i <= v.len(),
            out.len() == i,
            forall|k: int| 0 <= k < i ==> expr_view(*out[k]) == expr_view(*v[k]),
        decreases v.len() - i,
    {
        out.push(Box::new(v[i].duplicate()));
        i = i + 1;
    }
    out
}

impl ConstituentExpression {
    /// A structurally equal copy of this expression.
    pub fn duplicate(&self) -> (r: ConstituentExpression)
        ensures
            r@ == self@,
        decreases self,
    {
        match self {
            ConstituentExpression::Applic(a) => ConstituentExpression::Applic(
                Application {
                    operator: Box::new(a.operator.duplicate()),
                    operands: duplicate_exprs(&a.operands),
                },
            ),
            ConstituentExpression::If(f) => ConstituentExpression::If(
                If {
                    cond: Box::new(f.cond.duplicate()),
                    then_branch: Box::new(f.then_branch.duplicate()),
                    alt: Box::new(f.alt.duplicate()),
                },
            ),
            ConstituentExpression::Procedure(p) => ConstituentExpression::Procedure(
                Procedure { args: duplicate_names(&p.args), body: duplicate_exprs(&p.body) },
            ),
            ConstituentExpression::Let(l) => ConstituentExpression::Let(
                Let { bindings: duplicate_bindings(&l.bindings), body: duplicate_exprs(&l.body) },
            ),
            ConstituentExpression::Number(Number::Literal(t)) => ConstituentExpression::Number(
                Number::Literal(t.clone()),
            ),
            ConstituentExpression::Number(Number::Bits(b)) => ConstituentExpression::Number(
                Number::Bits(*b),
            ),
            ConstituentExpression::Boolean(b) => ConstituentExpression::Boolean(Boolean(b.0)),
            ConstituentExpression::Literal(s) => ConstituentExpression::Literal(s.duplicate()),
            ConstituentExpression::PrimitiveOperation(p) => ConstituentExpression::PrimitiveOperation(
                *p,
            ),
            ConstituentExpression::VariableReference(v) => ConstituentExpression::VariableReference(
                VariableReference(v.0.clone()),
            ),
        }
    }
}

impl Clone for ConstituentExpression {
    fn clone(&self) -> (r: ConstituentExpression)
        ensures
            r@ == self@,
    {
        self.duplicate()
    }
}

impl Clone for Application {
    fn clone(&self) -> (r: Application)
        ensures
            ConstituentExpression::Applic(r)@ == ConstituentExpression::Applic(*self)@,
    {
        Application {
            operator: Box::new(self.operator.duplicate()),
            operands: duplicate_exprs(&self.operands),
        }
    }
}

impl Clone for If {
    fn clone(&self) -> (r: If)
        ensures
            ConstituentExpression::If(r)@ == ConstituentExpression::If(*self)@,
    {
        If {
            cond: Box::new(self.cond.duplicate()),
            then_branch: Box::new(self.then_branch.duplicate()),
            alt: Box::new(self.alt.duplicate()),
        }
    }
}

impl Clone for Procedure {
    fn clone(&self) -> (r: Procedure)
        ensures
            ConstituentExpression::Procedure(r)@ == ConstituentExpression::Procedure(*self)@,
    {
        Procedure { args: duplicate_names(&self.args), body: duplicate_exprs(&self.body) }
    }
}

impl Clone for Let {
    fn clone(&self) -> (r: Let)
        ensures
            ConstituentExpression::Let(r)@ == ConstituentExpression::Let(*self)@,
    {
        Let { bindings: duplicate_bindings(&self.bindings), body: duplicate_exprs(&self.body) }
    }
}

impl Clone for Define {
    fn clone(&self) -> (r: Define)
        ensures
            Expression::Define(r)@ == Expression::Define(*self)@,
    {
        Define { var: self.var.clone(), val: self.val.duplicate() }
    }
}

impl Clone for Expression {
    fn clone(&self) -> (r: Expression)
        ensures
            r@ == self@,
    {
        match self {
            Expression::Define(d) => Expression::Define(
                Define { var: d.var.clone(), val: d.val.duplicate() },
            ),
            Expression::ConstituentExpression(e) => Expression::ConstituentExpression(
                e.duplicate(),
            ),
        }
    }
}

impl Clone for Program {
    fn clone(&self) -> (r: Program)
        ensures
            r@ == self@,
    {
        let mut exps: Vec<Expression> = Vec::new();
        let mut i: usize = 0;
        while i < self.exps.len()
            invariant
                i <= self.exps.len(),
                exps.len() == i,
                forall|k: int| 0 <= k < i ==> exps[k]@ == self.exps[k]@,
            decreases self.exps.len() - i,
        {
            exps.push(self.exps[i].clone());
            i = i + 1;
        }
        Program { exps }
    }
}

/// The names that the bindings of a `let` introduce, in order.
pub open spec fn binding_names(v: Seq<(VariableDeclaration, Box<ConstituentExpression>)>) -> Seq<
    Seq<char>,
> {
    Seq::new(v.len(), |i: int| v[i].0.0@)
}

/// The views of the expressions that the bindings of a `let` give to its names, in order.
pub open spec fn binding_values(v: Seq<(VariableDeclaration, Box<ConstituentExpression>)>) -> Seq<
    ExprView,
>
    decreases v,
{
    Seq::new(v.len(), |i: int| if 0 <= i < v.len() { expr_view(*v[i].1) } else { arbitrary() })
}

/// The views of a sequence of boxed expressions, in order.
pub open spec fn exprs_view(v: Seq<Box<ConstituentExpression>>) -> Seq<ExprView>
    decreases v,
{
    Seq::new(v.len(), |i: int| if 0 <= i < v.len() { expr_view(*v[i]) } else { arbitrary() })
}

} // verus!
