//! The error taxonomies of the three pipeline stages: parsing, evaluation,
//! and the term reader. They are kept disjoint, one per stage.

use vstd::prelude::*;

verus! {

/// Spec-level shadow of `ParseError`: string payloads appear as character
/// sequences so that contracts can speak of them mathematically.
pub enum PErrV {
    EmptyInput,
    UnexpectedToken(Seq<char>),
    UnexpectedExpression,
    MissingToken,
}

/// Errors raised by the parser. Parsing aborts on the first error.
#[derive(Debug)]
pub enum ParseError {
    EmptyInput(),
    UnexpectedToken(String),
    UnexpectedExpression(),
    MissingToken,
}

impl View for ParseError {
    type V = PErrV;

    open spec fn view(&self) -> PErrV {
        match self {
            ParseError::EmptyInput() => PErrV::EmptyInput,
            ParseError::UnexpectedToken(t) => PErrV::UnexpectedToken(t@),
            ParseError::UnexpectedExpression() => PErrV::UnexpectedExpression,
            ParseError::MissingToken => PErrV::MissingToken,
        }
    }
}

impl PartialEq for ParseError {
    fn eq(&self, other: &Self) -> (r: bool) {
        match (self, other) {
            (ParseError::EmptyInput(), ParseError::EmptyInput()) => true,
            (ParseError::UnexpectedToken(a), ParseError::UnexpectedToken(b)) => a.eq(b),
            (ParseError::UnexpectedExpression(), ParseError::UnexpectedExpression()) => true,
            (ParseError::MissingToken, ParseError::MissingToken) => true,
            _ => false,
        }
    }
}

impl vstd::std_specs::cmp::PartialEqSpecImpl for ParseError {
    open spec fn obeys_eq_spec() -> bool {
        true
    }

    open spec fn eq_spec(&self, other: &Self) -> bool {
        self@ == other@
    }
}

/// Spec-level shadow of `EvalError`.
pub enum EvErrV {
    DefaultError,
    UnknownSymbol(Seq<char>),
    UnexpectedExpression,
    InvalidNumberOfArguments,
    InvalidAgrumentType,
    InvalidListExpression,
    InvalidIfStatement,
    InvalidFunctionCall,
    NonDefineInThisScope,
}

/// Errors raised during evaluation; the first error anywhere in a form
/// aborts that whole form. `DefaultError` reports that the evaluation
/// depth bound was exhausted, or that fixed-point arithmetic overflowed
/// or divided by zero.
#[derive(Debug)]
pub enum EvalError {
    DefaultError(),
    UnknownSymbol(String),
    UnexpectedExpression(),
    InvalidNumberOfArguments(),
    InvalidAgrumentType(),
    InvalidListExpression(),
    InvalidIfStatement(),
    InvalidFunctionCall,
    NonDefineInThisScope,
}

impl View for EvalError {
    type V = EvErrV;

    open spec fn view(&self) -> EvErrV {
        match self {
            EvalError::DefaultError() => EvErrV::DefaultError,
            EvalError::UnknownSymbol(s) => EvErrV::UnknownSymbol(s@),
            EvalError::UnexpectedExpression() => EvErrV::UnexpectedExpression,
            EvalError::InvalidNumberOfArguments() => EvErrV::InvalidNumberOfArguments,
            EvalError::InvalidAgrumentType() => EvErrV::InvalidAgrumentType,
            EvalError::InvalidListExpression() => EvErrV::InvalidListExpression,
            EvalError::InvalidIfStatement() => EvErrV::InvalidIfStatement,
            EvalError::InvalidFunctionCall => EvErrV::InvalidFunctionCall,
            EvalError::NonDefineInThisScope => EvErrV::NonDefineInThisScope,
        }
    }
}

/// Errors raised by the term reader on bracket-balance violations.
/// The payload is a primitive, so the type serves in contracts directly.
#[derive(Debug, PartialEq, Eq, Structural)]
pub enum ReaderError {
    UnexpectedSymbol(char),
    MissingSymbol(char),
}

} // verus!
