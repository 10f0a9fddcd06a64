//! Typed error conditions and structured diagnostic records.

use vstd::prelude::*;

verus! {

/// The taxonomy of reported error conditions.
///
/// `StructuralDefect` stands for a desynchronization between the tree
/// builder and the nesting tracker; the machine derives the tracker state
/// from the frame stack itself, so no code path emits it, and it remains
/// only as the name such a defect would be reported under.
/// `RecursionLimit` is reported when evaluation exceeds its depth budget,
/// so that evaluation of arbitrarily self-referential macros still
/// terminates in a reported, typed condition.
#[derive(Clone, Copy, Debug, PartialEq, Eq, Structural)]
pub enum ErrorKind {
    UnbalancedClose,
    AlreadyInvalid,
    UndefinedWord,
    UndefinedName,
    DivisionByZero,
    ModuloByZero,
    ArityMismatch,
    StructuralDefect,
    RecursionLimit,
}

/// Severity of a diagnostic record.
#[derive(Clone, Copy, Debug, PartialEq, Eq, Structural)]
pub enum Severity {
    Trace,
    Debug,
    Error,
}

/// One diagnostic record. Normal transitions are informational; entry
/// into the invalid state and evaluation failures are error-level. The
/// payload of the two transition records is the number of open contexts
/// after the transition.
#[derive(Clone, Copy, Debug, PartialEq, Eq, Structural)]
pub enum Diagnostic {
    EnteredContext(usize),
    ExitedContext(usize),
    UnbalancedClose,
    AlreadyInvalid,
    EvalFailed(ErrorKind),
}

/// The severity a diagnostic record is reported at.
pub open spec fn spec_severity(d: Diagnostic) -> Severity {
    match d {
        Diagnostic::EnteredContext(_) => Severity::Trace,
        Diagnostic::ExitedContext(_) => Severity::Trace,
        Diagnostic::UnbalancedClose => Severity::Error,
        Diagnostic::AlreadyInvalid => Severity::Error,
        Diagnostic::EvalFailed(_) => Severity::Error,
    }
}

impl Diagnostic {
    /// The severity this record is reported at.
    pub fn severity(&self) -> (s: Severity)
        ensures
            s == spec_severity(*self),
    {
        match self {
            Diagnostic::EnteredContext(_) => Severity::Trace,
            Diagnostic::ExitedContext(_) => Severity::Trace,
            Diagnostic::UnbalancedClose => Severity::Error,
            Diagnostic::AlreadyInvalid => Severity::Error,
            Diagnostic::EvalFailed(_) => Severity::Error,
        }
    }
}

} // verus!
