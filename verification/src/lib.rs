//! A convergent-replication engine for documents that several parties edit
//! at once.
//!
//! The engine joins the replicas of one document to each other in two ways.
//! In the peer-to-peer way every replica sends each of its instructions to
//! all the others, and a replica integrates what arrives in whatever order
//! it arrives ([`crdt_client`]). In the sequenced way a server puts the
//! instructions of its clients into one order, and server and clients
//! transform instructions so that each party can apply them to the state it
//! is in ([`ot_server`], [`ot_client`]). A [`bridge`] lets both ways serve
//! one document.
//!
//! What an instruction is and what it does to a document is up to the
//! replicated type, which the engine knows through the contracts of
//! [`state`] and [`replica`] alone. The engine settles who is handed which
//! instruction, rebased over which others, and in what order. Its functions
//! say so in their contracts, and [`protocol`] proves what follows for a
//! server and its clients however their steps interleave.
//!
//! The parties share no memory. They exchange messages through the mailboxes
//! of a network ([`channel`]), which whoever drives them passes to each step.

pub mod bridge;
pub mod channel;
pub mod crdt_client;
mod deque;
pub mod message;
pub mod ot_client;
pub mod ot_server;
pub mod protocol;
mod random;
pub mod replica;
pub mod state;
