//! Findings about calls.
use vstd::prelude::*;

verus! {

/// How grave a finding is.
#[derive(Clone, Copy, PartialEq, Eq, Structural, Debug)]
pub enum Severity {
    /// For information.
    Info,
    /// A likely problem.
    Warn,
    /// A certain problem.
    Critical,
}

/// A relay allocation succeeded.
pub const TURN_ALLOC_OK: &'static str = "TURN_ALLOC_OK";

/// A relay allocation failed.
pub const TURN_ALLOC_FAILED: &'static str = "TURN_ALLOC_FAILED";

/// The refresh of a relay allocation failed.
pub const TURN_REFRESH_FAILED: &'static str = "TURN_REFRESH_FAILED";

/// One finding.
pub struct Diagnostic {
    /// Capture time in microseconds.
    pub ts_us: u64,
    /// The call that it is about; empty where no call is known.
    pub call_id: String,
    /// How grave it is.
    pub severity: Severity,
    /// What kind of finding it is.
    pub code: String,
    /// The finding in words.
    pub message: String,
}

/// A [`Diagnostic`] in mathematical terms.
pub ghost struct DiagModel {
    pub ts_us: u64,
    pub call_id: Seq<char>,
    pub severity: Severity,
    pub code: Seq<char>,
    pub message: Seq<char>,
}

impl View for Diagnostic {
    type V = DiagModel;

    open spec fn view(&self) -> DiagModel {
        DiagModel {
            ts_us: self.ts_us,
            call_id: self.call_id@,
            severity: self.severity,
            code: self.code@,
            message: self.message@,
        }
    }
}

impl Clone for Diagnostic {
    fn clone(&self) -> (r: Diagnostic)
        ensures
            r == *self,
    {
        Diagnostic {
            ts_us: self.ts_us,
            call_id: self.call_id.clone(),
            severity: self.severity,
            code: self.code.clone(),
            message: self.message.clone(),
        }
    }
}

} // verus!
