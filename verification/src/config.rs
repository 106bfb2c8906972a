//! Which agent implements functions, and what becomes of its scratch files.

use vstd::prelude::*;

verus! {

/// The agents that the server can be set to run.
#[derive(Debug, Clone, Copy, PartialEq, Eq, Structural)]
pub enum BackendType {
    /// The Amp command line tool.
    Amp,
    /// The OpenCode command line tool.
    OpenCode,
}

/// The name of an agent, as the editor shows it.
pub open spec fn display_name_of(backend: BackendType) -> Seq<char> {
    match backend {
        BackendType::Amp => "Amp"@,
        BackendType::OpenCode => "OpenCode"@,
    }
}

impl BackendType {
    /// The name of this agent, as the editor shows it.
    pub fn display_name(&self) -> (r: &'static str)
        ensures
            r@ == display_name_of(*self),
    {
        match self {
            BackendType::Amp => "Amp",
            BackendType::OpenCode => "OpenCode",
        }
    }
}

/// The agent that implements functions.
pub const CURRENT_BACKEND: BackendType = BackendType::OpenCode;

/// Whether the scratch file of a job is removed when the job is over.
pub const DELETE_TEMP_FILES: bool = false;

} // verus!
