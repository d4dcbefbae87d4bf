use vstd::prelude::*;

verus! {

/// Failures of graph construction and parent generation.
#[derive(Clone, Copy, Debug, PartialEq, Eq, Structural)]
pub enum GraphError {
    /// A node index at or beyond the size of the graph.
    OutOfRange,
    /// The degree leaves no room for the required number of distinct
    /// parents.
    DegreeTooLarge,
    /// A parameter tuple no graph can be built from.
    MalformedParameters,
}

/// Failures of tree construction and inclusion-path handling.
#[derive(Clone, Copy, Debug, PartialEq, Eq, Structural)]
pub enum StructuralError {
    /// Raw leaf data whose length disagrees with the configured graph.
    DataSizeMismatch,
    /// A tree cannot be built without leaves.
    EmptyTree,
}

/// Failures of compound-proof assembly. Lower-layer failures are carried
/// inside the variant that wraps them.
#[derive(Clone, Copy, Debug, PartialEq, Eq, Structural)]
pub enum CompoundError {
    /// The public inputs carry no replica id.
    MissingReplicaId,
    /// The privacy flag disagrees with the presence of the commitments.
    PrivacyMismatch,
    /// More challenged nodes than the parameters allow.
    TooManyChallenges,
    /// The per-challenge parent bundles do not match the challenge count.
    ParentCountMismatch,
    /// The replica-node entries do not match the challenge count.
    NodeCountMismatch,
    /// Private mode without privately supplied commitment roots.
    MissingPrivateRoot,
    /// A graph failure met while expanding a challenge.
    Graph(GraphError),
}

impl GraphError {
    /// A short description, for callers that render failures.
    pub fn message(&self) -> (r: &'static str)
        ensures
            r@ == (match *self {
                GraphError::OutOfRange => "node index out of range"@,
                GraphError::DegreeTooLarge => "degree too large"@,
                GraphError::MalformedParameters => "malformed graph parameters"@,
            }),
    {
        match self {
            GraphError::OutOfRange => "node index out of range",
            GraphError::DegreeTooLarge => "degree too large",
            GraphError::MalformedParameters => "malformed graph parameters",
        }
    }
}

} // verus!
