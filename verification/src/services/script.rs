//! The post-process script and how often it runs.
use vstd::prelude::*;
use vstd::std_specs::convert::IntoSpec;

verus! {

/// Whether the script runs after each file or once after the batch.
#[derive(Debug, Clone, Copy, PartialEq, Eq, Structural)]
pub enum ScriptMode {
    PerFile,
    PostBatch,
}

impl ScriptMode {
    /// The mode's name as shown to the user.
    pub fn label(self) -> (r: &'static str)
        ensures
            r@ == match self {
                ScriptMode::PerFile => "per-file"@,
                ScriptMode::PostBatch => "post-batch"@,
            },
    {
        match self {
            ScriptMode::PerFile => "per-file",
            ScriptMode::PostBatch => "post-batch",
        }
    }

    /// The other mode.
    pub fn toggle(self) -> (r: Self)
        ensures
            r != self,
    {
        match self {
            ScriptMode::PerFile => ScriptMode::PostBatch,
            ScriptMode::PostBatch => ScriptMode::PerFile,
        }
    }
}

/// Toggling twice gives back the mode one started with.
pub proof fn lemma_toggle_involution(m: ScriptMode, once: ScriptMode, twice: ScriptMode)
    requires
        once != m,
        twice != once,
    ensures
        twice == m,
{
}

/// A configured post-process command.
#[derive(Debug, Clone)]
pub struct ScriptRunner {
    pub command: String,
    pub mode: ScriptMode,
}

impl ScriptRunner {
    /// A runner for `command` in `mode`.
    pub fn new(command: &str, mode: ScriptMode) -> (r: Self)
        ensures
            r.command@ == command@,
            r.mode == mode,
    {
        ScriptRunner { command: String::from_str(command), mode }
    }
}

} // verus!
