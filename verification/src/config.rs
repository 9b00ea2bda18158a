//! Static configuration for a capture agent: which capture modules run and
//! where captured data is kept.

use vstd::prelude::*;

verus! {

/// A capture module the agent can run.
#[derive(Debug, Clone, PartialEq, Eq)]
pub enum ApostleModules {
    ClipboardCopy,
    Location,
    Activity,
    WebHistory,
}

/// The agent's configuration: the modules that are active and the path of
/// the directory that holds captured data.
#[derive(Debug, Clone, PartialEq, Eq)]
pub struct ApostleConfig {
    pub active_modules: Vec<ApostleModules>,
    pub active_storage: String,
}

} // verus!
