//! The contract between the engine and a replicated data type.
//!
//! A replicated type is edited through instructions. An instruction is
//! written against one state of the type, its coordinate space, and the
//! engine never applies it to another: it first asks the type to rebase or
//! converge it. What a type makes of an instruction is its own affair; the
//! engine settles which instruction meets which others, and in what order.
//!
//! The engine proves nothing about a type and asks nothing of it that it
//! could check. Its contracts speak of what a type's functions hand back for
//! the arguments that the engine hands them. For the replicas of a document
//! to end up equal, a type has to transform instructions so that the order
//! in which concurrent instructions meet does not matter.

use vstd::prelude::*;

verus! {

/// What a replicated data type offers to the engine.
pub trait State: Sized {
    /// One edit, written against one state of the type.
    type Instr: Clone;

    /// Carries out `instr`, which is written against this state. A type
    /// must refuse an instruction that is written against another state
    /// rather than corrupt itself.
    fn apply(&mut self, instr: &Self::Instr);

    /// Writes anew `instr`, which is written against a base state, against
    /// the state that the instructions of `committed` lead to from that
    /// base. This is the server's half of the transformation: instructions
    /// are ordered as they arrive.
    fn insert_and_rebase_forward(instr: Self::Instr, committed: &[Self::Instr]) -> Self::Instr;

    /// Writes anew `instr`, which is written against the state that the
    /// instructions of `pending` lead to, against the state before them,
    /// for a party that has not seen them.
    fn insert_and_rebase_back(instr: Self::Instr, pending: &[Self::Instr]) -> Self::Instr;

    /// Folds in `instr`, an instruction of another party that is written
    /// against the state before the local instructions of `pending`: hands
    /// back the instruction to apply to the state after them, and alters
    /// them so that they follow it.
    fn converge(instr: Self::Instr, pending: &mut [Self::Instr]) -> Self::Instr;
}

/// True iff `rebased` is what the type hands back when it rebases `instr`
/// forward over the instructions `committed`.
pub open spec fn rebased_forward<T: State>(
    instr: T::Instr,
    committed: Seq<T::Instr>,
    rebased: T::Instr,
) -> bool {
    exists|entries: &[T::Instr]| #[trigger]
        entries@ == committed && call_ensures(
            T::insert_and_rebase_forward,
            (instr, entries),
            rebased,
        )
}

/// True iff `rebased` is what the type hands back when it rebases `instr`
/// back over the instructions `pending`.
pub open spec fn rebased_back<T: State>(
    instr: T::Instr,
    pending: Seq<T::Instr>,
    rebased: T::Instr,
) -> bool {
    exists|entries: &[T::Instr]| #[trigger]
        entries@ == pending && call_ensures(T::insert_and_rebase_back, (instr, entries), rebased)
}

} // verus!
