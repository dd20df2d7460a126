use vstd::prelude::*;

verus! {

/// The attribute maps that make up a neuron.
#[derive(Debug, Clone, Copy, PartialEq, Eq, Structural)]
pub enum NeuronMap {
    Keys,
    Active,
    Rank,
    Trust,
    Emission,
    Consensus,
    Incentive,
    Dividends,
    LastUpdate,
    PruningScores,
    ValidatorTrust,
    ValidatorPermit,
    Weights,
    Bonds,
}

/// The ways a snapshot operation fails. Every failure is terminal.
#[derive(Debug, Clone, PartialEq, Eq)]
pub enum SnapshotError {
    /// The reference point or an account identifier is malformed.
    Input,
    /// A raw key is shorter than the identifiers read from its end, or an
    /// account value is not 32 bytes long.
    Protocol { len: usize, needed: usize },
    /// An overlay entry addresses a composite key the identity map never produced.
    Consistency { map: NeuronMap, subnet: u16, position: usize },
}

} // verus!
