//! An interpreter for L3, a small Scheme: a parser from text to syntax and an
//! evaluator that applies procedures by substitution.
//!
//! A number is an IEEE 754 binary64 value, held as its 64 bits. The library
//! compares and negates numbers itself. What takes rounding, and the reading
//! of a numeral, it leaves to its host: an evaluation looks such a result up in
//! an [`numeric::Oracle`] and, where the oracle has none, halts with the
//! [`numeric::Query`] to be answered. The host records the answer and evaluates
//! again, until the evaluation ends with a value or an error:
//!
//! ```text
//! let mut host = Oracle::new();
//! loop {
//!     match run(text, &host, depth) {
//!         Err(Halt::Ask(query)) => { let bits = ...; host.record(query, bits) }
//!         done => break done,
//!     }
//! }
//! ```
//!
//! What an evaluation has reached does not depend on the order of the answers,
//! and each round asks something new (module [`stability`]).
use vstd::prelude::*;

pub mod ast;
pub mod env;
pub mod eval;
pub mod hygiene;
pub mod numeric;
pub mod parser;
pub mod primitives;
pub mod stability;
pub mod substitution;
pub mod sugar;
pub mod value;

use vstd::string::StringSliceAdditionalSpecFns;
use crate::eval::result_of;
use crate::numeric::{Oracle, Query, QueryView};
use crate::parser::program_of;
use crate::value::{Value, ValueView};

pub use crate::eval::{applicative_eval, eval_program};
pub use crate::parser::{parse_cexp, parse_program};

verus! {

/// Why an evaluation or a parse failed. The texts are for the reader of a
/// report; the variant says what went wrong.
#[derive(Debug, Clone, PartialEq)]
pub enum SchemeError {
    /// The text does not match the grammar.
    ParseError,
    /// A variable is referred to that nothing defines.
    UndefinedVariable(String),
    /// What stands in the place of the operator cannot be applied.
    BadProcedure(String),
    /// An operand is of the wrong type.
    TypeMismatch(String),
    /// The number of operands is wrong.
    ArgumentMismatch(String),
    /// A program or a body without a form.
    EmptyProgram,
    /// Procedure applications are nested more deeply than the caller allowed.
    StackExhausted,
}

/// The model of a `SchemeError`: with the text where the text says which
/// variable or which value was at fault, without it elsewhere.
pub enum ErrorView {
    ParseError,
    UndefinedVariable(Seq<char>),
    BadProcedure(Seq<char>),
    TypeMismatch,
    ArgumentMismatch,
    EmptyProgram,
    StackExhausted,
}

impl View for SchemeError {
    type V = ErrorView;

    open spec fn view(&self) -> ErrorView {
        match self {
            SchemeError::ParseError => ErrorView::ParseError,
            SchemeError::UndefinedVariable(text) => ErrorView::UndefinedVariable(text@),
            SchemeError::BadProcedure(text) => ErrorView::BadProcedure(text@),
            SchemeError::TypeMismatch(_) => ErrorView::TypeMismatch,
            SchemeError::ArgumentMismatch(_) => ErrorView::ArgumentMismatch,
            SchemeError::EmptyProgram => ErrorView::EmptyProgram,
            SchemeError::StackExhausted => ErrorView::StackExhausted,
        }
    }
}

/// Why an evaluation stopped without a value: it failed, or it needs an
/// answer from the host that the oracle does not hold yet.
#[derive(Debug, Clone, PartialEq)]
pub enum Halt {
    Error(SchemeError),
    Ask(Query),
}

/// The model of a halt.
pub enum HaltView {
    Error(ErrorView),
    Ask(QueryView),
}

impl View for Halt {
    type V = HaltView;

    open spec fn view(&self) -> HaltView {
        match self {
            Halt::Error(e) => HaltView::Error(e@),
            Halt::Ask(q) => HaltView::Ask(q@),
        }
    }
}

/// How an evaluation ends, as a model: a value, or a halt.
pub type Outcome = Result<ValueView, HaltView>;

/// The model of the result of an evaluation.
pub open spec fn outcome(r: Result<Value, Halt>) -> Outcome {
    match r {
        Ok(v) => Ok(v@),
        Err(h) => Err(h@),
    }
}

/// The outcome that is a failure of the given kind.
pub open spec fn failure(kind: ErrorView) -> Outcome {
    Err(HaltView::Error(kind))
}

/// What a text gives as a program: a parse error where it is none, else what
/// its forms give from an empty chain of definitions.
pub open spec fn run_spec(bytes: Seq<u8>, host: Map<QueryView, u64>, depth: nat) -> Outcome {
    match program_of(bytes) {
        Some(forms) => result_of(forms, Seq::empty(), host, depth),
        None => failure(ErrorView::ParseError),
    }
}

/// Parses a text as a program and evaluates it with the answers that the
/// host has given so far. A host runs a program by calling this, answering the
/// query of an `Ask` and recording the answer, until the result is no `Ask`.
pub fn run(src: &str, host: &Oracle, depth: usize) -> (r: Result<Value, Halt>)
    ensures
        outcome(r) == run_spec(src.spec_bytes(), host@, depth as nat),
{
    match parse_program(src) {
        Ok(program) => eval_program(&program, host, depth),
        Err(e) => Err(Halt::Error(e)),
    }
}

} // verus!
