use crate::decimal::{digits_of, write_count};
use crate::semantics::Fault;
use vstd::prelude::*;
use vstd::string::*;

verus! {

/// Why the interpreter stopped before the end of a program.
#[derive(Debug, PartialEq, Eq)]
pub enum EvalError {
    /// A call named a function that was not defined.
    FunctionNotFound { name: String },
    /// A call gave `found` arguments to a function of `expected` parameters.
    ArityMismatch { name: String, expected: usize, found: usize },
    /// The body of the called function ended and no `Return` had run.
    MissingReturn { name: String },
    /// The step budget ran out.
    OutOfSteps,
}

impl View for EvalError {
    type V = Fault;

    open spec fn view(&self) -> Fault {
        match *self {
            EvalError::FunctionNotFound { name } => Fault::FunctionNotFound { name: name@ },
            EvalError::ArityMismatch { name, expected, found } => Fault::ArityMismatch {
                name: name@,
                expected: expected as nat,
                found: found as nat,
            },
            EvalError::MissingReturn { name } => Fault::MissingReturn { name: name@ },
            EvalError::OutOfSteps => Fault::OutOfSteps,
        }
    }
}

/// A fault in words.
pub open spec fn fault_text(fault: Fault) -> Seq<char> {
    match fault {
        Fault::FunctionNotFound { name } => "Function "@ + name + " does not exist"@,
        Fault::ArityMismatch { name, expected, found } => "Function "@ + name + " expected "@
            + digits_of(expected) + " arguments, but got "@ + digits_of(found),
        Fault::MissingReturn { name } => "Function "@ + name + " returned no result"@,
        Fault::OutOfSteps => "The program did not end within its steps"@,
    }
}

impl EvalError {
    /// The error in words.
    pub fn to_text(&self) -> (text: String)
        ensures
            text@ == fault_text(self@),
    {
        let mut text = String::new();
        match self {
            EvalError::FunctionNotFound { name } => {
                text.append("Function ");
                text.append(name.as_str());
                text.append(" does not exist");
            },
            EvalError::ArityMismatch { name, expected, found } => {
                text.append("Function ");
                text.append(name.as_str());
                text.append(" expected ");
                write_count(*expected, &mut text);
                text.append(" arguments, but got ");
                write_count(*found, &mut text);
            },
            EvalError::MissingReturn { name } => {
                text.append("Function ");
                text.append(name.as_str());
                text.append(" returned no result");
            },
            EvalError::OutOfSteps => {
                text.append("The program did not end within its steps");
            },
        }
        assert(text@ =~= fault_text(self@));
        text
    }
}

} // verus!
