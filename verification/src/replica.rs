//! The contract between the engine and a CRDT replica.
//!
//! A replica wraps one state of a replicated type. It stamps a local
//! instruction with a causal identity, integrates stamped instructions in
//! whatever order they arrive, and logs what it has integrated.
//!
//! For replicas to end up equal, integration has to give the same state
//! for every order of arrival, and to leave the state as it is when an
//! instruction arrives a second time. The instructions of one replica are
//! expected to arrive in the order in which that replica stamped them; those
//! of different replicas may arrive in any order. The engine delivers
//! accordingly and proves nothing about a replica.

use crate::state::State;
use vstd::prelude::*;

verus! {

/// The instructions of the replicated type that the replica `R` wraps.
pub type InstrOf<R> = <<R as Replica>::State as State>::Instr;

/// What a CRDT replica offers to the engine.
pub trait Replica: Sized {
    /// The replicated type that the replica wraps.
    type State: State;

    /// An instruction together with its causal identity.
    type CrdtInstr: Clone;

    /// A replica that starts from `state`, with an empty log. Replicas
    /// that are to converge start from equal states.
    fn new(state: Self::State) -> Self;

    /// The visible state.
    fn state(&self) -> &Self::State;

    /// The number of entries in the replica's log.
    fn log_len(&self) -> usize;

    /// Stamps `instr`, which is written against the current state, with the
    /// replica's next causal identity. The replica stays as it is.
    fn instr_to_crdt_instr(&self, instr: <Self::State as State>::Instr) -> Self::CrdtInstr;

    /// The instruction that folds `crdt_instr` into the current state. The
    /// replica stays as it is.
    fn instr_from_crdt_instr(&self, crdt_instr: Self::CrdtInstr) -> <Self::State as State>::Instr;

    /// The stamped instruction that undoes the entry at position `entry` of
    /// the log, and nothing where the log has no such entry. The replica
    /// stays as it is.
    fn inverse(&self, entry: usize) -> Option<Self::CrdtInstr>;

    /// Integrates `crdt_instr` and appends it to the log.
    fn apply(&mut self, crdt_instr: Self::CrdtInstr);
}

} // verus!
