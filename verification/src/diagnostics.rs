//! The records that the checks hand back to the host for reporting.

use vstd::prelude::*;
use vstd::string::StringExecFns;
use crate::graph::Location;

verus! {

/// How grave a finding is.
#[derive(Clone, Copy, Debug, PartialEq, Eq, Structural)]
pub enum Severity {
    Error,
    Warning,
}

/// What a finding is about.
#[derive(Clone, Copy, Debug, PartialEq, Eq, Structural)]
pub enum ViolationKind {
    /// A value that requires rooting is held where the collector cannot see it.
    StructuralViolation,
    /// No traversal can be generated for a field.
    DerivationFailure,
    /// A field is public where only private fields are allowed.
    VisibilityViolation,
    /// A managed handle is reinterpreted as another without acknowledgment.
    ReinterpretationViolation,
}

/// One finding.
#[derive(Clone, Debug, PartialEq, Eq)]
pub struct Diagnostic {
    pub severity: Severity,
    pub kind: ViolationKind,
    pub message: String,
    pub location: Location,
}

/// Model of a [`Diagnostic`].
pub struct DiagnosticView {
    pub severity: Severity,
    pub kind: ViolationKind,
    pub message: Seq<char>,
    pub location: Location,
}

impl View for Diagnostic {
    type V = DiagnosticView;

    open spec fn view(&self) -> DiagnosticView {
        DiagnosticView {
            severity: self.severity,
            kind: self.kind,
            message: self.message@,
            location: self.location,
        }
    }
}

/// The models of a sequence of findings.
pub open spec fn diagnostics_view(ds: Seq<Diagnostic>) -> Seq<DiagnosticView> {
    Seq::new(ds.len(), |i: int| ds[i]@)
}

/// The finding of kind `kind` at `location` whose message is `prefix`
/// followed by `subject`. Every finding is an error: it stops the
/// compilation of what it is about.
pub open spec fn finding(
    kind: ViolationKind,
    prefix: Seq<char>,
    subject: Seq<char>,
    location: Location,
) -> DiagnosticView {
    DiagnosticView { severity: Severity::Error, kind, message: prefix + subject, location }
}

impl Diagnostic {
    /// The finding of kind `kind` at `location` whose message is `prefix`
    /// followed by `subject`.
    pub fn new(kind: ViolationKind, prefix: &str, subject: &str, location: Location) -> (d:
        Diagnostic)
        ensures
            d@ == finding(kind, prefix@, subject@, location),
    {
        let message = String::from_str(prefix).concat(subject);
        Diagnostic { severity: Severity::Error, kind, message, location }
    }

    /// Whether the finding stops the compilation of what it is about.
    pub fn is_fatal(&self) -> (b: bool)
        ensures
            b == (self@.severity == Severity::Error),
    {
        match self.severity {
            Severity::Error => true,
            Severity::Warning => false,
        }
    }
}

/// Whether one of the first `n` findings is an error.
pub open spec fn any_error(ds: Seq<DiagnosticView>, n: nat) -> bool {
    exists|i: int| 0 <= i < n && (#[trigger] ds[i]).severity == Severity::Error
}

/// Whether the findings stop the compilation: one of them is an error.
pub fn blocks_compilation(ds: &Vec<Diagnostic>) -> (b: bool)
    ensures
        b == any_error(diagnostics_view(ds@), ds@.len()),
{
    let ghost model = diagnostics_view(ds@);
    let mut i: usize = 0;
    while i < ds.len()
        invariant
            i <= ds@.len(),
            model == diagnostics_view(ds@),
            !any_error(model, i as nat),
        decreases ds@.len() - i,
    {
        if ds[i].is_fatal() {
            assert(model[i as int].severity == Severity::Error);
            return true;
        }
        assert forall|j: int| 0 <= j < i + 1 implies (#[trigger] model[j]).severity
            != Severity::Error by {
            if j < i {
                assert(!any_error(model, i as nat));
            }
        }
        i = i + 1;
    }
    false
}

} // verus!
