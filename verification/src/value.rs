//! The values that an evaluation produces, and their models.
use vstd::prelude::*;
use crate::ast::{
    duplicate_exprs, duplicate_names, exprs_view, names_view, ConstituentExpression, ExprView,
    PrimitiveOperation, VariableDeclaration,
};

verus! {

/// A value. A number is held as the 64 bits of an IEEE 754 binary64 value.
#[derive(Debug, PartialEq)]
pub enum Value {
    Number(u64),
    Boolean(bool),
    PrimitiveOperation(PrimitiveOperation),
    Closure(Closure),
    SExpression(Box<SExpression>),
}

/// A procedure as a value: its parameters and its body, and no environment.
#[derive(Debug, PartialEq)]
pub struct Closure {
    pub params: Vec<VariableDeclaration>,
    pub body: Vec<Box<ConstituentExpression>>,
}

/// An S-expression: the empty list, a symbol, or a pair.
#[derive(Debug, PartialEq)]
pub enum SExpression {
    Nil,
    Symbol(String),
    Compound(Value, Value),
}

/// The model of a value.
pub enum ValueView {
    Number(u64),
    Boolean(bool),
    PrimitiveOperation(PrimitiveOperation),
    Closure { params: Seq<Seq<char>>, body: Seq<ExprView> },
    SExpression(Box<SExprView>),
}

/// The model of an S-expression.
pub enum SExprView {
    Nil,
    Symbol(Seq<char>),
    Compound(Box<ValueView>, Box<ValueView>),
}

/// The model of a value.
pub open spec fn value_view(v: Value) -> ValueView
    decreases v,
{
    match v {
        Value::Number(n) => ValueView::Number(n),
        Value::Boolean(b) => ValueView::Boolean(b),
        Value::PrimitiveOperation(p) => ValueView::PrimitiveOperation(p),
        Value::Closure(c) => ValueView::Closure {
            params: names_view(c.params@),
            body: exprs_view(c.body@),
        },
        Value::SExpression(s) => ValueView::SExpression(Box::new(sexpr_view(*s))),
    }
}

/// The model of an S-expression.
pub open spec fn sexpr_view(s: SExpression) -> SExprView
    decreases s,
{
    match s {
        SExpression::Nil => SExprView::Nil,
        SExpression::Symbol(n) => SExprView::Symbol(n@),
        SExpression::Compound(a, b) => SExprView::Compound(
            Box::new(value_view(a)),
            Box::new(value_view(b)),
        ),
    }
}

/// How `Debug` formatting renders a value.
pub uninterp spec fn debug_rendering(value: ValueView) -> Seq<char>;

/// Renders a value with the `Debug` formatting of `std::fmt`, as `format!`
/// with `{:?}` does. The contract names the text and claims nothing more of it.
#[verifier::external_body]
pub(crate) fn debug_text(value: &Value) -> (r: String)
    ensures
        r@ == debug_rendering(value@),
{
    format!("{:?}", value)
}

impl View for Value {
    type V = ValueView;

    open spec fn view(&self) -> ValueView {
        value_view(*self)
    }
}

impl View for SExpression {
    type V = SExprView;

    open spec fn view(&self) -> SExprView {
        sexpr_view(*self)
    }
}

impl Value {
    /// A structurally equal copy of this value.
    pub fn duplicate(&self) -> (r: Value)
        ensures
            r@ == self@,
        decreases self,
    {
        match self {
            Value::Number(n) => Value::Number(*n),
            Value::Boolean(b) => Value::Boolean(*b),
            Value::PrimitiveOperation(p) => Value::PrimitiveOperation(*p),
            Value::Closure(c) => Value::Closure(
                Closure { params: duplicate_names(&c.params), body: duplicate_exprs(&c.body) },
            ),
            Value::SExpression(s) => Value::SExpression(Box::new(s.duplicate())),
        }
    }
}

impl Clone for Value {
    fn clone(&self) -> (r: Value)
        ensures
            r@ == self@,
    {
        self.duplicate()
    }
}

impl Clone for SExpression {
    fn clone(&self) -> (r: SExpression)
        ensures
            r@ == self@,
    {
        self.duplicate()
    }
}

impl Clone for Closure {
    fn clone(&self) -> (r: Closure)
        ensures
            Value::Closure(r)@ == Value::Closure(*self)@,
    {
        Closure { params: duplicate_names(&self.params), body: duplicate_exprs(&self.body) }
    }
}

impl SExpression {
    /// Whether this is the empty list.
    pub fn is_empty(&self) -> (r: bool)
        ensures
            r == (self@ is Nil),
    {
        matches!(self, SExpression::Nil)
    }

    /// A structurally equal copy of this S-expression.
    pub fn duplicate(&self) -> (r: SExpression)
        ensures
            r@ == self@,
        decreases self,
    {
        match self {
            SExpression::Nil => SExpression::Nil,
            SExpression::Symbol(n) => SExpression::Symbol(n.clone()),
            SExpression::Compound(a, b) => SExpression::Compound(a.duplicate(), b.duplicate()),
        }
    }
}

} // verus!
