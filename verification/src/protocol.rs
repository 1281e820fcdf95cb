//! What holds of a server and its clients whatever the order of their steps.
//!
//! The server and its clients take turns in any order. Two equations between
//! what they hold and what waits in the mailboxes survive every step, and so
//! does the correspondence between the messages under way and the entries of
//! the log. They imply that each step finds what it needs, that every client
//! is handed every entry of the log once and in the order of the log, and
//! that nothing is left over once the mailboxes are empty.
//!
//! Whether the documents of the clients are then equal is up to the
//! replicated type: the engine hands every party the same instructions in the
//! same order, and the type decides what they mean.
//!
//! The steps of a [`System`] are what the functions of the engine promise:
//! [`serves`] is a step of `OtServer::try_recv_and_send`, [`originates`] one
//! of `OtClient::gen_and_send`, `System::takes` one of
//! `OtClient::try_recv_and_commit`, and `System::publishes` a commit by the
//! server of a bridge.

use crate::channel::{popped, pushed};
use crate::message::{
    acks, carries, edits, lemma_acks_bounded, lemma_acks_drop_first, lemma_acks_push,
};
use crate::ot_client::{generated, taken, ClientView};
use crate::ot_server::{lemma_least, lemma_trim, stepped, ServerView};
use crate::state::State;
use vstd::prelude::*;

verus! {

/// Every entry of the log that a client has not acknowledged is on its way
/// to that client, or its acknowledgment is on its way back: for each client
/// the offset, the messages that wait for the client and the acknowledgments
/// that wait for the server add up to the length of the log.
pub open spec fn in_step<I>(server: ServerView<I>, net: Seq<Seq<Option<I>>>) -> bool {
    forall|k: int|
        0 <= k < server.links.len() ==> {
            let link = #[trigger] server.links[k];
            link.offset + net[link.to_client].len() + acks(net[link.from_client])
                == server.log.len()
        }
}

/// Every instruction in a client's buffer is on its way to the server, or
/// its acknowledgment is on its way back: the instructions that wait for the
/// server and the acknowledgments that wait for the client add up to the
/// length of the buffer.
pub open spec fn buffer_in_step<I>(client: ClientView<I>, net: Seq<Seq<Option<I>>>) -> bool {
    client.buffer.len() == edits(net[client.to_server]) + acks(net[client.from_server])
}

/// True iff `client` is the client at position `k` of `server`: the two use
/// the same pair of mailboxes, each from its own end.
pub open spec fn linked<I>(server: ServerView<I>, k: int, client: ClientView<I>) -> bool {
    &&& 0 <= k < server.links.len()
    &&& client.from_server == server.links[k].to_client
    &&& client.to_server == server.links[k].from_client
}

/// A server that is in step with the mailboxes can serve every client: an
/// acknowledgment never arrives for an entry that the log does not hold.
pub proof fn lemma_in_step_may_receive<I>(server: ServerView<I>, net: Seq<Seq<Option<I>>>, k: int)
    requires
        server.attached(net),
        in_step(server, net),
        0 <= k < server.links.len(),
    ensures
        server.may_receive(net, k),
        server.links[k].offset <= server.log.len(),
{
    let inbox = net[server.links[k].from_client];
    if inbox.len() > 0 && inbox[0] is None {
        lemma_acks_drop_first(inbox);
    }
}

/// A client whose buffer is in step with the mailboxes can receive: an
/// acknowledgment never arrives for an empty buffer.
pub proof fn lemma_buffer_in_step_may_receive<I>(client: ClientView<I>, net: Seq<Seq<Option<I>>>)
    requires
        client.attached(net),
        buffer_in_step(client, net),
    ensures
        client.may_receive(net),
{
    let inbox = net[client.from_server];
    if inbox.len() > 0 && inbox[0] is None {
        lemma_acks_drop_first(inbox);
    }
}

/// A step of the server keeps the server in step with the mailboxes.
pub proof fn lemma_step_keeps_in_step<T: State>(
    server: ServerView<T::Instr>,
    net: Seq<Seq<Option<T::Instr>>>,
    k: int,
    after: ServerView<T::Instr>,
    net_after: Seq<Seq<Option<T::Instr>>>,
)
    requires
        server.wired(net),
        server.wf(),
        in_step(server, net),
        0 <= k < server.links.len(),
        stepped::<T>(server, net, k, after, net_after),
    ensures
        after.wired(net_after),
        after.wf(),
        in_step(after, net_after),
{
    let inbox = net[server.links[k].from_client];
    lemma_acks_drop_first(inbox);
    if inbox[0] is None {
        // The acknowledgment moves from the mailbox into the offset, and
        // trimming lowers the offsets and the length of the log alike.
        lemma_in_step_may_receive(server, net, k);
        lemma_trim(server.advance(k));
        lemma_least(server.advance(k).links);
    }
}

/// A step of the server never lowers the number of entries that a client
/// has acknowledged: an acknowledgment raises the number of its sender by
/// one, and nothing else changes any of them.
pub proof fn lemma_step_counts_acknowledgments<T: State>(
    server: ServerView<T::Instr>,
    net: Seq<Seq<Option<T::Instr>>>,
    k: int,
    after: ServerView<T::Instr>,
    net_after: Seq<Seq<Option<T::Instr>>>,
)
    requires
        server.fits(),
        0 <= k < server.links.len(),
        server.may_receive(net, k),
        stepped::<T>(server, net, k, after, net_after),
    ensures
        after.links.len() == server.links.len(),
        forall|j: int|
            0 <= j < server.links.len() ==> #[trigger] after.acknowledged(j) == server.acknowledged(
                j,
            ) + if j == k && net[server.links[k].from_client][0] is None {
                1nat
            } else {
                0nat
            },
{
    if net[server.links[k].from_client][0] is None {
        lemma_trim(server.advance(k));
    }
}

/// What a broadcast does to the mailboxes of one client: a message enters
/// the mailbox that leads to the client, an acknowledgment if the client is
/// the origin and an instruction otherwise, and the mailbox that leads back
/// stays as it is.
proof fn lemma_broadcast_at<I: Clone>(
    server: ServerView<I>,
    net: Seq<Seq<Option<I>>>,
    origin: Option<int>,
    instr: I,
    net_after: Seq<Seq<Option<I>>>,
    k: int,
)
    requires
        server.wired(net),
        server.broadcast(net, origin, instr, net_after),
        0 <= k < server.links.len(),
    ensures
        net_after[server.links[k].from_client] == net[server.links[k].from_client],
        net_after[server.links[k].to_client].len() == net[server.links[k].to_client].len() + 1,
        acks(net_after[server.links[k].to_client]) == acks(net[server.links[k].to_client])
            + if origin == Some(k) {
            1nat
        } else {
            0nat
        },
{
    let to_client = server.links[k].to_client;
    lemma_acks_push(net[to_client], net_after[to_client].last());
}

/// Committing an instruction and broadcasting it keeps the server in step
/// with the mailboxes, whoever its origin is.
pub proof fn lemma_broadcast_keeps_in_step<I: Clone>(
    server: ServerView<I>,
    net: Seq<Seq<Option<I>>>,
    origin: Option<int>,
    instr: I,
    net_after: Seq<Seq<Option<I>>>,
)
    requires
        server.wired(net),
        in_step(server, net),
        server.broadcast(net, origin, instr, net_after),
    ensures
        server.commit(origin, instr).wired(net_after),
        in_step(server.commit(origin, instr), net_after),
{
}

/// A client that takes a message and acknowledges it keeps the server in
/// step with the mailboxes.
pub proof fn lemma_receive_keeps_in_step<I>(
    server: ServerView<I>,
    net: Seq<Seq<Option<I>>>,
    k: int,
    client: ClientView<I>,
    net_after: Seq<Seq<Option<I>>>,
)
    requires
        server.wired(net),
        in_step(server, net),
        linked(server, k, client),
        net[client.from_server].len() > 0,
        net_after == pushed(popped(net, client.from_server), client.to_server, None),
    ensures
        server.wired(net_after),
        in_step(server, net_after),
{
    lemma_acks_push(popped(net, client.from_server)[client.to_server], None::<I>);
}

/// A client that sends an instruction keeps the server in step with the
/// mailboxes.
pub proof fn lemma_send_keeps_in_step<I>(
    server: ServerView<I>,
    net: Seq<Seq<Option<I>>>,
    k: int,
    client: ClientView<I>,
    instr: I,
    net_after: Seq<Seq<Option<I>>>,
)
    requires
        server.wired(net),
        in_step(server, net),
        linked(server, k, client),
        net_after == pushed(net, client.to_server, Some(instr)),
    ensures
        server.wired(net_after),
        in_step(server, net_after),
{
    lemma_acks_push(net[client.to_server], Some(instr));
}

/// Once no message waits for the server or for any of its clients, the
/// log of the server is empty: every client has acknowledged every entry.
pub proof fn lemma_quiescent<I>(server: ServerView<I>, net: Seq<Seq<Option<I>>>)
    requires
        server.attached(net),
        server.wf(),
        in_step(server, net),
        server.links.len() > 0,
        forall|k: int|
            0 <= k < server.links.len() ==> net[(#[trigger] server.links[k]).to_client].len() == 0
                && net[server.links[k].from_client].len() == 0,
    ensures
        server.log.len() == 0,
{
    // Some client has offset 0, and nothing of the log is on its way to it.
    lemma_least(server.links);
}

/// A client that sends a local instruction keeps its buffer in step with
/// the mailboxes.
pub proof fn lemma_record_keeps_buffer_in_step<I>(
    client: ClientView<I>,
    net: Seq<Seq<Option<I>>>,
    kept: I,
    rebased: I,
)
    requires
        client.attached(net),
        client.from_server != client.to_server,
        buffer_in_step(client, net),
    ensures
        buffer_in_step(client.record(kept), pushed(net, client.to_server, Some(rebased))),
{
    lemma_acks_push(net[client.to_server], Some(rebased));
    lemma_acks_bounded(net[client.to_server]);
}

/// A client that takes a message and acknowledges it keeps its buffer in
/// step with the mailboxes: an acknowledgment releases one instruction of
/// the buffer, and a foreign instruction leaves the length of the buffer
/// as it is.
pub proof fn lemma_receive_keeps_buffer_in_step<I>(
    client: ClientView<I>,
    net: Seq<Seq<Option<I>>>,
    after: ClientView<I>,
)
    requires
        client.attached(net),
        client.from_server != client.to_server,
        buffer_in_step(client, net),
        net[client.from_server].len() > 0,
        after.from_server == client.from_server,
        after.to_server == client.to_server,
        after.buffer.len() + if net[client.from_server][0] is None {
            1nat
        } else {
            0nat
        } == client.buffer.len(),
    ensures
        buffer_in_step(
            after,
            pushed(popped(net, client.from_server), client.to_server, None),
        ),
{
    lemma_acks_drop_first(net[client.from_server]);
    lemma_acks_push(popped(net, client.from_server)[client.to_server], None::<I>);
}

/// A step of the server keeps the buffer of each of its clients in step
/// with the mailboxes.
pub proof fn lemma_step_keeps_buffer_in_step<T: State>(
    server: ServerView<T::Instr>,
    net: Seq<Seq<Option<T::Instr>>>,
    served: int,
    after: ServerView<T::Instr>,
    net_after: Seq<Seq<Option<T::Instr>>>,
    k: int,
    client: ClientView<T::Instr>,
)
    requires
        server.wired(net),
        0 <= served < server.links.len(),
        stepped::<T>(server, net, served, after, net_after),
        linked(server, k, client),
        buffer_in_step(client, net),
    ensures
        buffer_in_step(client, net_after),
{
    let from = server.links[served].from_client;
    let inbox = net[from];
    lemma_acks_drop_first(inbox);
    lemma_acks_bounded(inbox);
    lemma_acks_bounded(inbox.drop_first());
    if inbox[0] is Some {
        // An instruction of this client comes back as an acknowledgment,
        // and one of another client as an instruction.
        lemma_broadcast_at(
            server,
            popped(net, from),
            Some(served),
            after.log.last(),
            net_after,
            k,
        );
    }
}

/// A broadcast that no client originated keeps the buffer of each client
/// in step with the mailboxes.
pub proof fn lemma_broadcast_keeps_buffer_in_step<I: Clone>(
    server: ServerView<I>,
    net: Seq<Seq<Option<I>>>,
    instr: I,
    net_after: Seq<Seq<Option<I>>>,
    k: int,
    client: ClientView<I>,
)
    requires
        server.wired(net),
        server.broadcast(net, None, instr, net_after),
        linked(server, k, client),
        buffer_in_step(client, net),
    ensures
        buffer_in_step(client, net_after),
{
    lemma_broadcast_at(server, net, None, instr, net_after, k);
}

/// Once no message waits for a client or for the server, the buffer of the
/// client is empty: the server has acknowledged every instruction.
pub proof fn lemma_buffer_quiescent<I>(client: ClientView<I>, net: Seq<Seq<Option<I>>>)
    requires
        buffer_in_step(client, net),
        net[client.from_server].len() == 0,
        net[client.to_server].len() == 0,
    ensures
        client.buffer.len() == 0,
{
}

/// The position in the log of the entry that the message at position `j` of
/// the mailbox to client `k` answers: the messages that wait for a client
/// follow the entries that the client has acknowledged or is about to.
pub open spec fn answered<I>(
    server: ServerView<I>,
    net: Seq<Seq<Option<I>>>,
    k: int,
    j: int,
) -> int {
    server.links[k].offset + acks(net[server.links[k].from_client]) + j
}

/// True iff `msg` is what client `k` is owed for the entry at position
/// `entry` of the log: an acknowledgment if the client sent the entry, and a
/// copy of the entry otherwise.
pub open spec fn owed<I: Clone>(server: ServerView<I>, k: int, entry: int, msg: Option<I>) -> bool {
    if server.authors[entry] == Some(k) {
        msg is None
    } else {
        carries(msg, server.log[entry])
    }
}

/// The mailboxes carry the log: every message that waits for a client is
/// what the client is owed for the entry that the message answers. So each
/// client is handed, in the order of the log and each once, a copy of every
/// entry that it did not send and an acknowledgment of every entry that it
/// sent.
pub open spec fn faithful<I: Clone>(server: ServerView<I>, net: Seq<Seq<Option<I>>>) -> bool {
    forall|k: int, j: int|
        0 <= k < server.links.len() && 0 <= j < net[server.links[k].to_client].len() ==> owed(
            server,
            k,
            answered(server, net, k, j),
            #[trigger] net[server.links[k].to_client][j],
        )
}

/// Committing an instruction and broadcasting it keeps the mailboxes
/// faithful to the log.
pub proof fn lemma_broadcast_keeps_faithful<I: Clone>(
    server: ServerView<I>,
    net: Seq<Seq<Option<I>>>,
    origin: Option<int>,
    instr: I,
    net_after: Seq<Seq<Option<I>>>,
)
    requires
        server.wired(net),
        server.fits(),
        in_step(server, net),
        faithful(server, net),
        server.broadcast(net, origin, instr, net_after),
    ensures
        faithful(server.commit(origin, instr), net_after),
{
    let after = server.commit(origin, instr);
    assert forall|k: int, j: int|
        0 <= k < after.links.len() && 0 <= j < net_after[after.links[k].to_client].len()
        implies owed(
        after,
        k,
        answered(after, net_after, k, j),
        #[trigger] net_after[after.links[k].to_client][j],
    ) by {
        lemma_broadcast_at(server, net, origin, instr, net_after, k);
        if j < net[server.links[k].to_client].len() {
            // An older message answers the entry that it answered before;
            // the new message answers the new entry.
            assert(owed(server, k, answered(server, net, k, j), net[server.links[k].to_client][j]));
        }
    }
}

/// A step of the server keeps the mailboxes faithful to the log.
pub proof fn lemma_step_keeps_faithful<T: State>(
    server: ServerView<T::Instr>,
    net: Seq<Seq<Option<T::Instr>>>,
    k: int,
    after: ServerView<T::Instr>,
    net_after: Seq<Seq<Option<T::Instr>>>,
)
    requires
        server.wired(net),
        server.wf(),
        in_step(server, net),
        faithful(server, net),
        0 <= k < server.links.len(),
        stepped::<T>(server, net, k, after, net_after),
    ensures
        faithful(after, net_after),
{
    let from = server.links[k].from_client;
    lemma_acks_drop_first(net[from]);
    if net[from][0] is None {
        // Offsets, acknowledgments under way and the log move together.
        lemma_in_step_may_receive(server, net, k);
        lemma_least(server.advance(k).links);
    } else {
        lemma_broadcast_keeps_faithful(
            server,
            popped(net, from),
            Some(k),
            after.log.last(),
            net_after,
        );
    }
}

/// A client that takes a message and acknowledges it keeps the mailboxes
/// faithful to the log.
pub proof fn lemma_receive_keeps_faithful<I: Clone>(
    server: ServerView<I>,
    net: Seq<Seq<Option<I>>>,
    k: int,
    client: ClientView<I>,
    net_after: Seq<Seq<Option<I>>>,
)
    requires
        server.wired(net),
        faithful(server, net),
        linked(server, k, client),
        net[client.from_server].len() > 0,
        net_after == pushed(popped(net, client.from_server), client.to_server, None),
    ensures
        faithful(server, net_after),
{
    lemma_acks_push(popped(net, client.from_server)[client.to_server], None::<I>);
}

/// A client that sends an instruction keeps the mailboxes faithful to the
/// log.
pub proof fn lemma_send_keeps_faithful<I: Clone>(
    server: ServerView<I>,
    net: Seq<Seq<Option<I>>>,
    k: int,
    client: ClientView<I>,
    instr: I,
    net_after: Seq<Seq<Option<I>>>,
)
    requires
        server.wired(net),
        faithful(server, net),
        linked(server, k, client),
        net_after == pushed(net, client.to_server, Some(instr)),
    ensures
        faithful(server, net_after),
{
    lemma_acks_push(net[client.to_server], Some(instr));
}

/// One server, its clients and the mailboxes between them.
pub struct System<I> {
    /// The server.
    pub server: ServerView<I>,
    /// The clients, in the order in which the server knows them.
    pub clients: Seq<ClientView<I>>,
    /// The mailboxes.
    pub net: Seq<Seq<Option<I>>>,
}

impl<I: Clone> System<I> {
    /// What holds of a system whatever steps were taken: the server and its
    /// clients are joined through mailboxes of their own, the server is
    /// well formed and in step with the mailboxes, the mailboxes are
    /// faithful to the log, and the buffer of every client is in step with
    /// the mailboxes.
    pub open spec fn sound(self) -> bool {
        &&& self.server.wired(self.net)
        &&& self.server.wf()
        &&& in_step(self.server, self.net)
        &&& faithful(self.server, self.net)
        &&& self.clients.len() == self.server.links.len()
        &&& forall|k: int|
            0 <= k < self.clients.len() ==> linked(self.server, k, #[trigger] self.clients[k])
                && buffer_in_step(self.clients[k], self.net)
    }

    /// A system at its start: nothing is logged, buffered or under way.
    pub open spec fn fresh(self) -> bool {
        &&& self.server.wired(self.net)
        &&& self.server.log.len() == 0
        &&& self.server.authors.len() == 0
        &&& forall|k: int|
            0 <= k < self.server.links.len() ==> (#[trigger] self.server.links[k]).offset == 0
        &&& self.clients.len() == self.server.links.len()
        &&& forall|k: int|
            0 <= k < self.clients.len() ==> linked(self.server, k, #[trigger] self.clients[k])
                && self.clients[k].buffer.len() == 0
        &&& forall|queue: int|
            0 <= queue < self.net.len() ==> (#[trigger] self.net[queue]).len() == 0
    }

    /// No message waits for the server or for any client.
    pub open spec fn quiet(self) -> bool {
        forall|k: int|
            0 <= k < self.server.links.len() ==> self.net[(
            #[trigger] self.server.links[k]).to_client].len() == 0
                && self.net[self.server.links[k].from_client].len() == 0
    }

    /// The server commits an instruction that none of its clients sent, as
    /// the server of a bridge does.
    pub open spec fn publishes(self, instr: I, after: Self) -> bool {
        &&& after.server == self.server.commit(None, instr)
        &&& self.server.broadcast(self.net, None, instr, after.net)
        &&& after.clients == self.clients
    }

    /// Client `k` takes a message of the server.
    pub open spec fn takes(self, k: int, after: Self) -> bool {
        &&& 0 <= k < self.clients.len()
        &&& after.server == self.server
        &&& after.clients == self.clients.update(k, after.clients[k])
        &&& taken(self.clients[k], self.net, after.clients[k], after.net)
    }
}

/// The server of `before` serves client `k`.
pub open spec fn serves<T: State>(
    before: System<T::Instr>,
    k: int,
    after: System<T::Instr>,
) -> bool {
    &&& 0 <= k < before.server.links.len()
    &&& stepped::<T>(before.server, before.net, k, after.server, after.net)
    &&& after.clients == before.clients
}

/// Client `k` of `before` originates the instruction `instr`.
pub open spec fn originates<T: State>(
    before: System<T::Instr>,
    k: int,
    instr: T::Instr,
    after: System<T::Instr>,
) -> bool {
    &&& 0 <= k < before.clients.len()
    &&& after.server == before.server
    &&& after.clients == before.clients.update(k, after.clients[k])
    &&& generated::<T>(before.clients[k], before.net, instr, after.clients[k], after.net)
}

/// One step of a system: the server serves a client or commits an
/// instruction of its own, or a client originates an instruction or takes
/// a message.
pub open spec fn next<T: State>(before: System<T::Instr>, after: System<T::Instr>) -> bool {
    ||| exists|k: int| #[trigger] serves::<T>(before, k, after)
    ||| exists|instr: T::Instr| #[trigger] before.publishes(instr, after)
    ||| exists|k: int, instr: T::Instr| #[trigger] originates::<T>(before, k, instr, after)
    ||| exists|k: int| #[trigger] before.takes(k, after)
}

/// A system is sound at its start.
pub proof fn lemma_fresh_is_sound<I: Clone>(system: System<I>)
    requires
        system.fresh(),
    ensures
        system.sound(),
{
    lemma_least(system.server.links);
}

/// Every step keeps a system sound.
pub proof fn lemma_next_keeps_sound<T: State>(before: System<T::Instr>, after: System<T::Instr>)
    requires
        before.sound(),
        next::<T>(before, after),
    ensures
        after.sound(),
{
    if exists|k: int| #[trigger] serves::<T>(before, k, after) {
        let k = choose|k: int| #[trigger] serves::<T>(before, k, after);
        lemma_step_keeps_in_step::<T>(before.server, before.net, k, after.server, after.net);
        lemma_step_keeps_faithful::<T>(before.server, before.net, k, after.server, after.net);
        lemma_step_keeps_links::<T>(before.server, before.net, k, after.server, after.net);
        assert forall|j: int| 0 <= j < after.clients.len() implies linked(
            after.server,
            j,
            #[trigger] after.clients[j],
        ) && buffer_in_step(after.clients[j], after.net) by {
            lemma_step_keeps_buffer_in_step::<T>(
                before.server,
                before.net,
                k,
                after.server,
                after.net,
                j,
                before.clients[j],
            );
        }
    } else if exists|instr: T::Instr| #[trigger] before.publishes(instr, after) {
        let instr = choose|instr: T::Instr| #[trigger] before.publishes(instr, after);
        lemma_broadcast_keeps_in_step(before.server, before.net, None, instr, after.net);
        lemma_broadcast_keeps_faithful(before.server, before.net, None, instr, after.net);
    } else if exists|k: int, instr: T::Instr| #[trigger] originates::<T>(before, k, instr, after) {
        let (k, instr) = choose|k: int, instr: T::Instr| #[trigger]
            originates::<T>(before, k, instr, after);
        let client = before.clients[k];
        let (kept, rebased) = choose|kept: T::Instr, rebased: T::Instr|
            {
                &&& cloned(instr, kept)
                &&& crate::state::rebased_back::<T>(instr, client.buffer, rebased)
                &&& #[trigger] client.record(kept) == after.clients[k]
                &&& after.net == #[trigger] pushed(before.net, client.to_server, Some(rebased))
            };
        lemma_send_keeps_in_step(before.server, before.net, k, client, rebased, after.net);
        lemma_send_keeps_faithful(before.server, before.net, k, client, rebased, after.net);
        lemma_record_keeps_buffer_in_step(client, before.net, kept, rebased);
    } else {
        let k = choose|k: int| #[trigger] before.takes(k, after);
        let client = before.clients[k];
        lemma_receive_keeps_in_step(before.server, before.net, k, client, after.net);
        lemma_receive_keeps_faithful(before.server, before.net, k, client, after.net);
        lemma_acks_drop_first(before.net[client.from_server]);
        lemma_receive_keeps_buffer_in_step(client, before.net, after.clients[k]);
    }
}

/// A step of the server leaves the mailboxes of every client as they are.
proof fn lemma_step_keeps_links<T: State>(
    server: ServerView<T::Instr>,
    net: Seq<Seq<Option<T::Instr>>>,
    k: int,
    after: ServerView<T::Instr>,
    net_after: Seq<Seq<Option<T::Instr>>>,
)
    requires
        0 <= k < server.links.len(),
        stepped::<T>(server, net, k, after, net_after),
    ensures
        after.links.len() == server.links.len(),
        forall|j: int|
            0 <= j < server.links.len() ==> (#[trigger] after.links[j]).to_client
                == server.links[j].to_client && after.links[j].from_client
                == server.links[j].from_client,
{
}

/// In a sound system every party can take its next step: no acknowledgment
/// waits that answers nothing.
pub proof fn lemma_sound_can_step<I: Clone>(system: System<I>)
    requires
        system.sound(),
    ensures
        system.server.fits(),
        forall|k: int|
            0 <= k < system.server.links.len() ==> system.server.may_receive(system.net, k),
        forall|k: int|
            0 <= k < system.clients.len() ==> (#[trigger] system.clients[k]).attached(system.net)
                && system.clients[k].may_receive(system.net),
{
    assert forall|k: int| 0 <= k < system.server.links.len() implies system.server.may_receive(
        system.net,
        k,
    ) by {
        lemma_in_step_may_receive(system.server, system.net, k);
    }
    assert forall|k: int| 0 <= k < system.clients.len() implies (
    #[trigger] system.clients[k]).attached(system.net) && system.clients[k].may_receive(
        system.net,
    ) by {
        lemma_buffer_in_step_may_receive(system.clients[k], system.net);
    }
}

/// Once no message waits in a sound system that has a client, nothing is
/// left over: the log of the server is empty, and so is the buffer of
/// every client.
pub proof fn lemma_sound_and_quiet<I: Clone>(system: System<I>)
    requires
        system.sound(),
        system.quiet(),
        system.clients.len() > 0,
    ensures
        system.server.log.len() == 0,
        forall|k: int|
            0 <= k < system.clients.len() ==> (#[trigger] system.clients[k]).buffer.len() == 0,
{
    lemma_quiescent(system.server, system.net);
}

/// Trimming the log changes no rebase: what the replicated type hands back
/// for an instruction of client `k` is settled by the entries that the
/// client has not acknowledged, and those are the same before and after.
pub proof fn lemma_trim_changes_no_rebase<T: State>(
    server: ServerView<T::Instr>,
    k: int,
    instr: T::Instr,
    rebased: T::Instr,
)
    requires
        server.fits(),
        0 <= k < server.links.len(),
    ensures
        crate::state::rebased_forward::<T>(instr, server.trim().unacknowledged(k), rebased)
            == crate::state::rebased_forward::<T>(instr, server.unacknowledged(k), rebased),
{
    lemma_trim(server);
}

/// True iff `states` is a run: a system at its start, and every state that
/// it went through, each one step after the one before.
pub open spec fn is_run<T: State>(states: Seq<System<T::Instr>>) -> bool {
    &&& states.len() > 0
    &&& states[0].fresh()
    &&& forall|i: int|
        0 <= i < states.len() - 1 ==> next::<T>(#[trigger] states[i], states[i + 1])
}

/// Every state of a run is sound, whatever the order of the steps.
pub proof fn lemma_run_is_sound<T: State>(states: Seq<System<T::Instr>>, i: int)
    requires
        is_run::<T>(states),
        0 <= i < states.len(),
    ensures
        states[i].sound(),
    decreases i,
{
    if i == 0 {
        lemma_fresh_is_sound(states[0]);
    } else {
        lemma_run_is_sound::<T>(states, i - 1);
        lemma_next_keeps_sound::<T>(states[i - 1], states[i]);
    }
}

/// Whatever the order of the steps of a run, once no message waits nothing
/// is left over: the log of the server is empty, and so is the buffer of
/// every client.
pub proof fn lemma_run_drains<T: State>(states: Seq<System<T::Instr>>, i: int)
    requires
        is_run::<T>(states),
        0 <= i < states.len(),
        states[i].quiet(),
        states[i].clients.len() > 0,
    ensures
        states[i].server.log.len() == 0,
        forall|k: int|
            0 <= k < states[i].clients.len() ==> (#[trigger] states[i].clients[k]).buffer.len()
                == 0,
{
    lemma_run_is_sound::<T>(states, i);
    lemma_sound_and_quiet(states[i]);
}

} // verus!
