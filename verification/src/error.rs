//! Node-level errors surfaced to the operator by the process around the
//! core: conditions that concern the node as a whole rather than a single
//! message or command.

use vstd::prelude::*;

verus! {

/// Errors of the node facade.
#[derive(Debug, Clone, Copy, PartialEq, Eq)]
pub enum NodeError {
    /// An operation needed the transport before it was set up.
    SwarmNotInitialized,
    /// A local command named no recognized operation.
    InvalidExecFunction,
}

impl NodeError {
    /// A human-readable diagnostic for the operator.
    pub fn message(&self) -> (r: String)
        ensures
            *self == NodeError::SwarmNotInitialized ==> r@ == "swarm not initialized"@,
            *self == NodeError::InvalidExecFunction ==> r@ == "invalid exec function name"@,
    {
        match self {
            NodeError::SwarmNotInitialized => "swarm not initialized".to_owned(),
            NodeError::InvalidExecFunction => "invalid exec function name".to_owned(),
        }
    }
}

} // verus!
