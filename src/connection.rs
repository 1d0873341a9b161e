use vstd::prelude::*;

use crate::neuron::NeuronID;

verus! {

/// The five relations that an edge can carry.
#[derive(Debug, Clone, Copy, PartialEq, Eq, Structural)]
pub enum ConnectionKind {
    /// Vertical: a generalisation link, weighted `1 / counter(to)`.
    Defining,
    /// Vertical: a justification link, weight fixed at creation.
    Explanatory,
    /// Horizontal: a suppressing link, whose signal is subtracted.
    Inhibitory,
    /// Horizontal: closeness of values.
    Similarity,
    /// Horizontal: observed order.
    Sequential,
}

impl ConnectionKind {
    pub open spec fn horizontal(self) -> bool {
        self == ConnectionKind::Inhibitory || self == ConnectionKind::Similarity || self
            == ConnectionKind::Sequential
    }

    /// Whether the kind relates nodes of one level (similarity, inhibition,
    /// sequence) rather than across levels (definition, explanation).
    pub fn is_horizontal(&self) -> (r: bool)
        ensures
            r == self.horizontal(),
    {
        match self {
            ConnectionKind::Inhibitory | ConnectionKind::Similarity | ConnectionKind::Sequential => true,
            _ => false,
        }
    }
}

/// The identity of an edge: the identities of its two ends.
pub struct ConnectionID {
    pub from: NeuronID,
    pub to: NeuronID,
}

/// A directed, weighted, kinded edge between two nodes, named by their handles
/// in the network. The weight, in millionths, is unused for `Defining` edges,
/// whose weight follows the target's counter.
#[derive(Debug, Clone, Copy, PartialEq, Eq, Structural)]
pub struct Connection {
    pub from: usize,
    pub to: usize,
    pub kind: ConnectionKind,
    pub weight: u32,
}

} // verus!
