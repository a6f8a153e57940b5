//! The chain of top-level definitions.
use vstd::prelude::*;
use vstd::string::StringExecFns;
use crate::value::{Value, ValueView};
use crate::{ErrorView, SchemeError};

verus! {

/// The definitions in force, the latest first.
#[derive(Debug, PartialEq)]
pub enum Environment {
    Empty,
    NonEmpty(String, Value, Box<Environment>),
}

/// The definitions as a sequence of names with their values, the latest first.
pub open spec fn env_view(env: Environment) -> Seq<(Seq<char>, ValueView)>
    decreases env,
{
    match env {
        Environment::Empty => Seq::empty(),
        Environment::NonEmpty(name, value, next) => seq![(name@, value@)] + env_view(*next),
    }
}

impl View for Environment {
    type V = Seq<(Seq<char>, ValueView)>;

    open spec fn view(&self) -> Seq<(Seq<char>, ValueView)> {
        env_view(*self)
    }
}

/// The value of the latest definition of `name`.
pub open spec fn lookup(env: Seq<(Seq<char>, ValueView)>, name: Seq<char>) -> Option<ValueView>
    decreases env.len(),
{
    if env.len() == 0 {
        None
    } else if env[0].0 == name {
        Some(env[0].1)
    } else {
        lookup(env.drop_first(), name)
    }
}

/// The text of the error for a variable that nothing defines.
pub open spec fn undefined_text(name: Seq<char>) -> Seq<char> {
    "Undefined variable: "@ + name
}

/// The chain with one more definition in front.
pub open spec fn extended(
    env: Seq<(Seq<char>, ValueView)>,
    name: Seq<char>,
    value: ValueView,
) -> Seq<(Seq<char>, ValueView)> {
    seq![(name, value)] + env
}

/// The latest definition of a name hides the earlier ones, and leaves other
/// names as they were.
pub proof fn lemma_lookup_extended(
    env: Seq<(Seq<char>, ValueView)>,
    name: Seq<char>,
    value: ValueView,
    other: Seq<char>,
)
    ensures
        lookup(extended(env, name, value), name) == Some(value),
        other != name ==> lookup(extended(env, name, value), other) == lookup(env, other),
{
    assert(extended(env, name, value).drop_first() =~= env);
}

impl Clone for Environment {
    fn clone(&self) -> (r: Environment)
        ensures
            r@ == self@,
    {
        self.duplicate()
    }
}

impl Environment {
    /// The value of the latest definition of `var`.
    pub fn apply(&self, var: &str) -> (r: Result<&Value, SchemeError>)
        ensures
            match r {
                Ok(value) => lookup(self@, var@) == Some(value@),
                Err(e) => lookup(self@, var@) is None && e@ == ErrorView::UndefinedVariable(
                    undefined_text(var@),
                ),
            },
    {
        let name = String::from_str(var);
        match self.find(&name) {
            Some(value) => Ok(value),
            None => {
                let mut text = String::from_str("Undefined variable: ");
                text.append(var);
                Err(SchemeError::UndefinedVariable(text))
            },
        }
    }

    /// The value of the latest definition of `name`, where there is one.
    pub fn find(&self, name: &String) -> (r: Option<&Value>)
        ensures
            match r {
                Some(value) => lookup(self@, name@) == Some(value@),
                None => lookup(self@, name@) is None,
            },
        decreases self,
    {
        match self {
            Environment::Empty => None,
            Environment::NonEmpty(defined, value, next) => {
                proof {
                    assert(self@.drop_first() =~= next@);
                }
                if *defined == *name {
                    Some(value)
                } else {
                    next.find(name)
                }
            },
        }
    }

    /// A copy of this chain.
    pub fn duplicate(&self) -> (r: Environment)
        ensures
            r@ == self@,
        decreases self,
    {
        match self {
            Environment::Empty => Environment::Empty,
            Environment::NonEmpty(name, value, next) => Environment::NonEmpty(
                name.clone(),
                value.duplicate(),
                Box::new(next.duplicate()),
            ),
        }
    }

    /// A copy of this chain with one more definition in front.
    pub fn extend(&self, name: &str, value: Value) -> (r: Environment)
        ensures
            r@ == extended(self@, name@, value@),
    {
        Environment::NonEmpty(String::from_str(name), value, Box::new(self.duplicate()))
    }
}

} // verus!
