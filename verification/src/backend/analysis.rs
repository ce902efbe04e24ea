//! What the backend's verifier is asked and what it answers.

use vstd::prelude::*;

verus! {

/// What the verifier does when it finds the code broken.
#[derive(Clone, Copy, Debug, PartialEq, Eq, Structural)]
pub enum VerifierFailureAction {
    /// Print to stderr and abort the process.
    AbortProcessAction,
    /// Print to stderr and report the failure.
    PrintMessageAction,
    /// Report the failure and print nothing.
    ReturnStatusAction,
}

/// The verifier's answer about a function or a module.
#[derive(Debug, PartialEq, Eq)]
pub enum Verdict {
    /// The code is well formed.
    Passed,
    /// The code is broken; the text is the function's dump or the module's
    /// diagnostic.
    Failed(String),
}

/// Model of [`Verdict`].
pub enum VerdictView {
    Passed,
    Failed(Seq<char>),
}

impl View for Verdict {
    type V = VerdictView;

    open spec fn view(&self) -> VerdictView {
        match self {
            Verdict::Passed => VerdictView::Passed,
            Verdict::Failed(text) => VerdictView::Failed(text@),
        }
    }
}

/// The models of a list of verdicts.
pub open spec fn verdicts_view(verdicts: Seq<Verdict>) -> Seq<VerdictView> {
    verdicts.map_values(|v: Verdict| v@)
}

} // verus!
