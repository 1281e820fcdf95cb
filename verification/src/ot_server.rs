//! The operational-transform server: one total order of committed
//! instructions and one replay cursor for each client.
//!
//! The server keeps the instructions that some client has not acknowledged
//! yet, the pending log, and for each client the number of log entries that
//! the client has acknowledged, its offset. An instruction that arrives from a
//! client is written against the log up to that client's offset: the server
//! rebases it forward over the rest of the log, appends the result and sends
//! it on.

use crate::channel::{all_distinct, popped, Mailboxes, Receiver, Sender};
use crate::deque::contiguous;
use crate::message::carries;
use crate::random::pick_one;
use crate::state::{rebased_forward, State};
use rand::rngs::SmallRng;
use std::collections::VecDeque;
use vstd::prelude::*;

verus! {

/// What the server knows of one client.
pub struct Link {
    /// How many entries of the pending log the client has acknowledged.
    pub offset: nat,
    /// The mailbox that carries messages to the client.
    pub to_client: int,
    /// The mailbox that carries the client's messages.
    pub from_client: int,
}

/// The least offset among `links`, and 0 where there is none.
pub open spec fn least(links: Seq<Link>) -> nat
    decreases links.len(),
{
    if links.len() == 0 {
        0
    } else if links.len() == 1 {
        links[0].offset
    } else if links.last().offset < least(links.drop_last()) {
        links.last().offset
    } else {
        least(links.drop_last())
    }
}

/// `least` is a lower bound of the offsets, and one of them.
pub proof fn lemma_least(links: Seq<Link>)
    ensures
        forall|k: int| 0 <= k < links.len() ==> least(links) <= (#[trigger] links[k]).offset,
        links.len() > 0 ==> exists|k: int|
            0 <= k < links.len() && (#[trigger] links[k]).offset == least(links),
    decreases links.len(),
{
    if links.len() > 1 {
        let front = links.drop_last();
        lemma_least(front);
        assert forall|k: int| 0 <= k < links.len() implies least(links) <= (
        #[trigger] links[k]).offset by {
            if k < front.len() {
                assert(front[k] == links[k]);
            }
        }
        if links.last().offset < least(front) {
            assert(links[links.len() - 1].offset == least(links));
        } else {
            let k = choose|k: int|
                0 <= k < front.len() && (#[trigger] front[k]).offset == least(front);
            assert(links[k].offset == least(links));
        }
    } else if links.len() == 1 {
        assert(links[0].offset == least(links));
    }
}

/// The state of a server: its pending log and what it knows of each client.
pub struct ServerView<I> {
    /// The committed instructions that some client has not acknowledged yet,
    /// oldest first.
    pub log: Seq<I>,
    /// One entry for each client, in the order in which they were connected.
    pub links: Seq<Link>,
    /// Who sent each entry of the log: the position of a client among the
    /// links, or nothing for an entry that no client of the server sent.
    pub authors: Seq<Option<int>>,
    /// How many entries have left the front of the log since the server
    /// started.
    pub dropped: nat,
}

impl<I> ServerView<I> {
    /// No client has acknowledged more than the log holds, and every entry
    /// of the log has its author on record.
    pub open spec fn fits(self) -> bool {
        &&& self.authors.len() == self.log.len()
        &&& forall|k: int|
            0 <= k < self.links.len() ==> (#[trigger] self.links[k]).offset <= self.log.len()
    }

    /// The server's invariant: every offset lies within the log, and the log
    /// starts at the least of them.
    pub open spec fn wf(self) -> bool {
        self.fits() && least(self.links) == 0
    }

    /// Every mailbox of the server is one of `net`.
    pub open spec fn attached(self, net: Seq<Seq<Option<I>>>) -> bool {
        forall|k: int|
            0 <= k < self.links.len() ==> 0 <= (#[trigger] self.links[k]).to_client < net.len() && 0
                <= self.links[k].from_client < net.len()
    }

    /// Every mailbox of the server is one of `net`, and no two of them are
    /// the same.
    pub open spec fn wired(self, net: Seq<Seq<Option<I>>>) -> bool {
        &&& self.attached(net)
        &&& forall|j: int, k: int|
            0 <= j < self.links.len() && 0 <= k < self.links.len() ==> (
            #[trigger] self.links[j]).to_client != (#[trigger] self.links[k]).from_client
        &&& forall|j: int, k: int|
            0 <= j < k < self.links.len() ==> (#[trigger] self.links[j]).to_client != (
            #[trigger] self.links[k]).to_client && self.links[j].from_client
                != self.links[k].from_client
    }

    /// True iff mailbox `queue` carries messages to one of the clients.
    pub open spec fn is_outbox(self, queue: int) -> bool {
        exists|k: int| 0 <= k < self.links.len() && (#[trigger] self.links[k]).to_client == queue
    }

    /// How many of the entries that the server ever committed client `k`
    /// has acknowledged. Trimming lowers an offset and never this number.
    pub open spec fn acknowledged(self, k: int) -> nat {
        self.dropped + self.links[k].offset
    }

    /// The entries of the log that client `k` has not acknowledged: what an
    /// instruction from that client is rebased over.
    pub open spec fn unacknowledged(self, k: int) -> Seq<I> {
        self.log.skip(self.links[k].offset as int)
    }

    /// The state after `instr`, which `origin` sent, was appended to the
    /// log.
    pub open spec fn commit(self, origin: Option<int>, instr: I) -> Self {
        ServerView { log: self.log.push(instr), authors: self.authors.push(origin), ..self }
    }

    /// The state after client `k` acknowledged one more entry.
    pub open spec fn advance(self, k: int) -> Self {
        ServerView {
            links: self.links.update(
                k,
                Link { offset: self.links[k].offset + 1, ..self.links[k] },
            ),
            ..self
        }
    }

    /// The state after the entries that every client has acknowledged were
    /// dropped from the front of the log, and every offset lowered by their
    /// number.
    pub open spec fn trim(self) -> Self {
        let gone = least(self.links);
        ServerView {
            log: self.log.skip(gone as int),
            authors: self.authors.skip(gone as int),
            links: Seq::new(
                self.links.len(),
                |k: int| Link { offset: (self.links[k].offset - gone) as nat, ..self.links[k] },
            ),
            dropped: self.dropped + gone,
        }
    }

    /// The state after client `k` acknowledged one more entry and the log was
    /// trimmed.
    pub open spec fn acknowledge(self, k: int) -> Self {
        self.advance(k).trim()
    }

    /// An acknowledgment at the front of client `k`'s mailbox answers an
    /// entry of the log that the client has not acknowledged before.
    pub open spec fn may_receive(self, net: Seq<Seq<Option<I>>>, k: int) -> bool {
        let inbox = net[self.links[k].from_client];
        inbox.len() > 0 && inbox[0] is None ==> self.links[k].offset < self.log.len()
    }

    /// What receiving from client `k` does: `got` is what the server hands
    /// back, `after` its next state and `net_after` the mailboxes then.
    pub open spec fn received(
        self,
        net: Seq<Seq<Option<I>>>,
        k: int,
        got: Received<I>,
        after: Self,
        net_after: Seq<Seq<Option<I>>>,
    ) -> bool {
        let inbox = net[self.links[k].from_client];
        if inbox.len() == 0 {
            got is Nothing && after == self && net_after == net
        } else {
            &&& net_after == popped(net, self.links[k].from_client)
            &&& match inbox[0] {
                None => got == (Received::<I>::Acknowledged { client: k as usize }) && after
                    == self.acknowledge(k),
                Some(instr) => got == (Received::Edit { client: k as usize, instr }) && after
                    == self,
            }
        }
    }

    /// What a broadcast of `instr` does to the mailboxes: each client's
    /// mailbox gains one message at its back, an acknowledgment for
    /// `origin` and a copy of `instr` for every other client, and no other
    /// mailbox changes.
    pub open spec fn broadcast(
        self,
        net: Seq<Seq<Option<I>>>,
        origin: Option<int>,
        instr: I,
        net_after: Seq<Seq<Option<I>>>,
    ) -> bool where I: Clone {
        &&& net_after.len() == net.len()
        &&& forall|queue: int|
            0 <= queue < net.len() && !self.is_outbox(queue) ==> #[trigger] net_after[queue]
                == net[queue]
        &&& forall|k: int|
            0 <= k < self.links.len() ==> {
                let queue = (#[trigger] self.links[k]).to_client;
                &&& net_after[queue].len() == net[queue].len() + 1
                &&& net_after[queue].drop_last() == net[queue]
                &&& if origin == Some(k) {
                    net_after[queue].last() is None
                } else {
                    carries(net_after[queue].last(), instr)
                }
            }
    }

    /// What one step of the server does: `got` is what it hands back, `after`
    /// its next state and `net_after` the mailboxes then. Nothing comes back
    /// iff no client has sent anything; otherwise the step receives from the
    /// client that `got` names, one whose mailbox is not empty.
    pub open spec fn served(
        self,
        net: Seq<Seq<Option<I>>>,
        got: Received<I>,
        after: Self,
        net_after: Seq<Seq<Option<I>>>,
    ) -> bool {
        match got {
            Received::Nothing => {
                &&& after == self
                &&& net_after == net
                &&& forall|k: int|
                    0 <= k < self.links.len() ==> net[(#[trigger] self.links[k]).from_client].len()
                        == 0
            },
            Received::Acknowledged { client } => {
                &&& client < self.links.len()
                &&& net[self.links[client as int].from_client].len() > 0
                &&& self.received(net, client as int, got, after, net_after)
            },
            Received::Edit { client, instr } => {
                &&& client < self.links.len()
                &&& net[self.links[client as int].from_client].len() > 0
                &&& self.received(net, client as int, got, after, net_after)
            },
        }
    }
}

/// What one step of a server of the replicated type `T` does when it serves
/// client `k`, whose mailbox is not empty: `after` is the server's next
/// state and `net_after` the mailboxes then. The message leaves the mailbox.
/// An acknowledgment advances the client's offset, and the log is trimmed.
/// An instruction is rebased forward over what the client has not
/// acknowledged, appended to the log, and broadcast with `k` as its origin.
pub open spec fn stepped<T: State>(
    before: ServerView<T::Instr>,
    net: Seq<Seq<Option<T::Instr>>>,
    k: int,
    after: ServerView<T::Instr>,
    net_after: Seq<Seq<Option<T::Instr>>>,
) -> bool {
    let inbox = net[before.links[k].from_client];
    &&& inbox.len() > 0
    &&& match inbox[0] {
        None => after == before.acknowledge(k) && net_after == popped(
            net,
            before.links[k].from_client,
        ),
        Some(instr) => {
            let rebased = after.log.last();
            &&& rebased_forward::<T>(instr, before.unacknowledged(k), rebased)
            &&& after == before.commit(Some(k), rebased)
            &&& before.broadcast(
                popped(net, before.links[k].from_client),
                Some(k),
                rebased,
                net_after,
            )
        },
    }
}

/// The client that a broadcast leaves out, as a position among the links.
pub open spec fn origin_of(origin: Option<usize>) -> Option<int> {
    match origin {
        Some(client) => Some(client as int),
        None => None,
    }
}

/// What the server took from a client's mailbox.
#[derive(Debug, PartialEq, Eq)]
pub enum Received<I> {
    /// No client had sent anything.
    Nothing,
    /// An acknowledgment from `client`. The server has advanced that client's
    /// offset and trimmed its log.
    Acknowledged { client: usize },
    /// The instruction `instr` from `client`, written against the log up to
    /// that client's offset. The server has not changed.
    Edit { client: usize, instr: I },
}

struct OtServerClient<I> {
    offset: usize,
    to_client: Sender<Option<I>>,
    from_client: Receiver<Option<I>>,
}

impl<I> OtServerClient<I> {
    fn new(to_client: Sender<Option<I>>, from_client: Receiver<Option<I>>) -> (client: Self)
        ensures
            client.link() == (Link {
                offset: 0,
                to_client: to_client.queue(),
                from_client: from_client.queue(),
            }),
    {
        Self { offset: 0, to_client, from_client }
    }

    spec fn link(self) -> Link {
        Link {
            offset: self.offset as nat,
            to_client: self.to_client.queue(),
            from_client: self.from_client.queue(),
        }
    }
}

/// The central sequencer of the operational-transform protocol.
pub struct OtServer<T: State> {
    pending: VecDeque<T::Instr>,
    clients: Vec<OtServerClient<T::Instr>>,
    authors: Ghost<Seq<Option<int>>>,
    dropped: Ghost<nat>,
}

impl<T: State> View for OtServer<T> {
    type V = ServerView<T::Instr>;

    closed spec fn view(&self) -> ServerView<T::Instr> {
        ServerView {
            log: self.pending@,
            links: Seq::new(self.clients@.len(), |k: int| self.clients@[k].link()),
            authors: if self.authors@.len() == self.pending@.len() {
                self.authors@
            } else {
                Seq::new(self.pending@.len(), |entry: int| None)
            },
            dropped: self.dropped@,
        }
    }
}

impl<T: State> OtServer<T> {
    /// A server with an empty log and one client for each pair of handles:
    /// the first of a pair carries messages to that client, the second the
    /// client's messages.
    pub fn new(channels: Vec<(Sender<Option<T::Instr>>, Receiver<Option<T::Instr>>)>) -> (server:
        Self)
        ensures
            server@.log == Seq::<T::Instr>::empty(),
            server@.authors == Seq::<Option<int>>::empty(),
            server@.dropped == 0,
            server@.links.len() == channels@.len(),
            forall|k: int|
                0 <= k < channels@.len() ==> #[trigger] server@.links[k] == (Link {
                    offset: 0,
                    to_client: channels@[k].0.queue(),
                    from_client: channels@[k].1.queue(),
                }),
            server@.wf(),
    {
        let mut clients: Vec<OtServerClient<T::Instr>> = Vec::new();
        let ghost handles = channels@;
        for pair in it: channels
            invariant
                it.seq() == handles,
                clients@.len() == it.index(),
                forall|k: int|
                    0 <= k < clients@.len() ==> (#[trigger] clients@[k]).link() == (Link {
                        offset: 0,
                        to_client: handles[k].0.queue(),
                        from_client: handles[k].1.queue(),
                    }),
        {
            clients.push(OtServerClient::new(pair.0, pair.1));
        }
        let server = OtServer {
            pending: VecDeque::new(),
            clients,
            authors: Ghost(Seq::empty()),
            dropped: Ghost(0),
        };
        proof {
            lemma_least(server@.links);
        }
        server
    }

    /// True iff the pending log is empty: no client has anything left to
    /// acknowledge.
    pub fn drained(&self) -> (b: bool)
        ensures
            b == (self@.log.len() == 0),
    {
        self.pending.len() == 0
    }

    /// The number of clients.
    pub fn client_count(&self) -> (n: usize)
        ensures
            n == self@.links.len(),
    {
        self.clients.len()
    }

    /// The entries of the log that `client` has not acknowledged, oldest
    /// first.
    pub fn unacknowledged(&mut self, client: usize) -> (entries: &[T::Instr])
        requires
            client < old(self)@.links.len(),
            old(self)@.fits(),
        ensures
            entries@ == old(self)@.unacknowledged(client as int),
            final(self)@ == old(self)@,
    {
        let offset = self.clients[client].offset;
        assert(self@.links[client as int].offset == offset);
        let log = contiguous(&mut self.pending);
        let log: &[T::Instr] = &*log;
        vstd::slice::slice_subrange(log, offset, log.len())
    }

    /// True iff the server can take a step in `net`: its mailboxes are
    /// mailboxes of `net` and no two of them are the same, no offset lies
    /// beyond the log, and no acknowledgment waits that the log has no entry
    /// for.
    pub fn in_order(&self, net: &Mailboxes<Option<T::Instr>>) -> (ok: bool)
        ensures
            ok == (self@.wired(net@) && self@.fits() && forall|k: int|
                0 <= k < self@.links.len() ==> self@.may_receive(net@, k)),
    {
        let mut queues: Vec<usize> = Vec::new();
        let mut k: usize = 0;
        while k < self.clients.len()
            invariant
                k <= self.clients@.len(),
                queues@.len() == 2 * k,
                forall|j: int|
                    0 <= j < k ==> queues@[2 * j] == (#[trigger] self@.links[j]).to_client
                        && queues@[2 * j + 1] == self@.links[j].from_client,
                forall|j: int|
                    0 <= j < k ==> 0 <= (#[trigger] self@.links[j]).to_client < net@.len() && 0
                        <= self@.links[j].from_client < net@.len(),
                forall|j: int|
                    0 <= j < k ==> (#[trigger] self@.links[j]).offset <= self@.log.len(),
                forall|j: int| 0 <= j < k ==> self@.may_receive(net@, j),
            decreases self.clients@.len() - k,
        {
            assert(self@.links[k as int] == self.clients@[k as int].link());
            let client = &self.clients[k];
            let to_client = client.to_client.mailbox();
            let from_client = client.from_client.mailbox();
            if to_client >= net.count() || from_client >= net.count() {
                return false;
            }
            if client.offset > self.pending.len() {
                return false;
            }
            match client.from_client.peek(net) {
                Some(None) => {
                    if client.offset >= self.pending.len() {
                        assert(!self@.may_receive(net@, k as int));
                        return false;
                    }
                },
                _ => {},
            }
            queues.push(to_client);
            queues.push(from_client);
            k += 1;
        }
        let distinct = all_distinct(&queues);
        proof {
            if !distinct {
                let (a, b) = choose|a: int, b: int|
                    0 <= a < b < queues@.len() && queues@[a] == queues@[b];
                assert(queues@[2 * (a / 2) + 1] == self@.links[a / 2].from_client);
                assert(queues@[2 * (b / 2) + 1] == self@.links[b / 2].from_client);
            }
        }
        distinct
    }

    /// The least offset among the clients, and 0 where there is none.
    fn least_offset(&self) -> (gone: usize)
        ensures
            gone == least(self@.links),
    {
        let mut gone: usize = 0;
        let mut k: usize = 0;
        while k < self.clients.len()
            invariant
                k <= self.clients@.len(),
                gone == least(self@.links.take(k as int)),
            decreases self.clients@.len() - k,
        {
            let offset = self.clients[k].offset;
            proof {
                let upto = self@.links.take(k as int + 1);
                assert(upto.drop_last() =~= self@.links.take(k as int));
            }
            if k == 0 || offset < gone {
                gone = offset;
            }
            k += 1;
        }
        assert(self@.links.take(k as int) =~= self@.links);
        gone
    }

    /// Garbage collection: drops from the front of the log the entries that
    /// every client has acknowledged, and lowers every offset by their
    /// number. What each client has not acknowledged stays as it is.
    pub fn trim(&mut self)
        requires
            old(self)@.fits(),
        ensures
            final(self)@ == old(self)@.trim(),
            final(self)@.wf(),
            forall|k: int|
                0 <= k < old(self)@.links.len() ==> #[trigger] final(self)@.unacknowledged(k)
                    == old(self)@.unacknowledged(k),
            forall|k: int|
                0 <= k < old(self)@.links.len() ==> #[trigger] final(self)@.acknowledged(k)
                    == old(self)@.acknowledged(k),
    {
        let ghost before = self@;
        let gone = self.least_offset();
        proof {
            lemma_least(before.links);
            lemma_trim(before);
        }
        let mut popped: usize = 0;
        while popped < gone
            invariant
                popped <= gone <= before.log.len(),
                self.pending@ == before.log.skip(popped as int),
                self@.links == before.links,
                self.dropped@ == before.dropped,
            decreases gone - popped,
        {
            let _ = self.pending.pop_front();
            popped += 1;
        }
        proof {
            self.authors = Ghost(before.authors.skip(gone as int));
            self.dropped = Ghost((before.dropped + gone) as nat);
        }
        let mut k: usize = 0;
        while k < self.clients.len()
            invariant
                k <= self.clients@.len(),
                self.clients@.len() == before.links.len(),
                self.pending@ == before.log.skip(gone as int),
                self.authors@ == before.authors.skip(gone as int),
                self.dropped@ == before.dropped + gone,
                forall|j: int|
                    0 <= j < before.links.len() ==> gone <= (#[trigger] before.links[j]).offset,
                forall|j: int|
                    0 <= j < k ==> (#[trigger] self.clients@[j]).link() == (Link {
                        offset: (before.links[j].offset - gone) as nat,
                        ..before.links[j]
                    }),
                forall|j: int|
                    k <= j < before.links.len() ==> (#[trigger] self.clients@[j]).link()
                        == before.links[j],
            decreases self.clients@.len() - k,
        {
            self.clients[k].offset -= gone;
            k += 1;
        }
        assert(self@.links =~= before.trim().links);
    }

    /// Takes note that `client` has acknowledged one more entry of the log,
    /// then trims the log.
    pub fn acknowledge(&mut self, client: usize)
        requires
            old(self)@.fits(),
            client < old(self)@.links.len(),
            old(self)@.links[client as int].offset < old(self)@.log.len(),
        ensures
            final(self)@ == old(self)@.acknowledge(client as int),
            final(self)@.wf(),
            final(self)@.unacknowledged(client as int) == old(self)@.unacknowledged(
                client as int,
            ).drop_first(),
            forall|k: int|
                0 <= k < old(self)@.links.len() && k != client
                    ==> #[trigger] final(self)@.unacknowledged(k) == old(self)@.unacknowledged(k),
            forall|k: int|
                0 <= k < old(self)@.links.len() ==> #[trigger] final(self)@.acknowledged(k)
                    == old(self)@.acknowledged(k) + if k == client {
                    1nat
                } else {
                    0nat
                },
    {
        let ghost before = self@;
        assert(self.pending.len() == self@.log.len());
        self.clients[client].offset += 1;
        assert(self@.links =~= before.advance(client as int).links);
        self.trim();
    }

    /// The clients whose mailbox holds a message for the server, in
    /// ascending order.
    pub fn ready(&self, net: &Mailboxes<Option<T::Instr>>) -> (clients: Vec<usize>)
        requires
            self@.attached(net@),
        ensures
            forall|i: int, j: int| 0 <= i < j < clients@.len() ==> clients@[i] < clients@[j],
            forall|i: int|
                0 <= i < clients@.len() ==> (#[trigger] clients@[i]) < self@.links.len()
                    && net@[self@.links[clients@[i] as int].from_client].len() > 0,
            forall|k: int|
                0 <= k < self@.links.len() && net@[(#[trigger] self@.links[k]).from_client].len()
                    > 0 ==> clients@.contains(k as usize),
    {
        let mut clients: Vec<usize> = Vec::new();
        let mut k: usize = 0;
        while k < self.clients.len()
            invariant
                k <= self.clients@.len(),
                self@.attached(net@),
                forall|i: int, j: int| 0 <= i < j < clients@.len() ==> clients@[i] < clients@[j],
                forall|i: int| 0 <= i < clients@.len() ==> clients@[i] < k,
                forall|i: int|
                    0 <= i < clients@.len() ==> (#[trigger] clients@[i]) < self@.links.len()
                        && net@[self@.links[clients@[i] as int].from_client].len() > 0,
                forall|j: int|
                    0 <= j < k && net@[(#[trigger] self@.links[j]).from_client].len() > 0
                        ==> clients@.contains(j as usize),
            decreases self.clients@.len() - k,
        {
            assert(self@.links[k as int] == self.clients@[k as int].link());
            if !self.clients[k].from_client.is_empty(net) {
                let ghost found = clients@;
                clients.push(k);
                assert(clients@[found.len() as int] == k);
                assert forall|j: int|
                    0 <= j < k + 1 && net@[(#[trigger] self@.links[j]).from_client].len()
                        > 0 implies clients@.contains(j as usize) by {
                    if j < k {
                        let i = choose|i: int| 0 <= i < found.len() && found[i] == j as usize;
                        assert(clients@[i] == j as usize);
                    }
                }
            }
            k += 1;
        }
        clients
    }

    /// Takes the message at the front of `client`'s mailbox, if there is
    /// one. An acknowledgment is counted at once. An instruction is handed
    /// back as it came, for the caller to rebase and commit.
    pub fn recv_from(&mut self, net: &mut Mailboxes<Option<T::Instr>>, client: usize) -> (got:
        Received<T::Instr>)
        requires
            old(self)@.attached(old(net)@),
            old(self)@.fits(),
            client < old(self)@.links.len(),
            old(self)@.may_receive(old(net)@, client as int),
        ensures
            old(self)@.received(old(net)@, client as int, got, final(self)@, final(net)@),
            final(self)@.fits(),
            old(self)@.wf() ==> final(self)@.wf(),
    {
        match self.clients[client].from_client.try_receive(net) {
            None => Received::Nothing,
            Some(None) => {
                self.acknowledge(client);
                Received::Acknowledged { client }
            },
            Some(Some(instr)) => Received::Edit { client, instr },
        }
    }

    /// Picks at random a client that has sent something and receives from
    /// it.
    pub fn try_recv(&mut self, net: &mut Mailboxes<Option<T::Instr>>, rng: &mut SmallRng) -> (got:
        Received<T::Instr>)
        requires
            old(self)@.attached(old(net)@),
            old(self)@.fits(),
            forall|k: int| 0 <= k < old(self)@.links.len() ==> old(self)@.may_receive(old(net)@, k),
        ensures
            old(self)@.served(old(net)@, got, final(self)@, final(net)@),
            final(self)@.fits(),
            old(self)@.wf() ==> final(self)@.wf(),
    {
        let ready = self.ready(net);
        match pick_one(rng, &ready) {
            None => Received::Nothing,
            Some(client) => self.recv_from(net, client),
        }
    }

    /// Sends a copy of `instr` to every client but `origin`, and an
    /// acknowledgment to `origin`.
    fn send_all(
        &self,
        net: &mut Mailboxes<Option<T::Instr>>,
        origin: Option<usize>,
        instr: &T::Instr,
    )
        requires
            self@.wired(old(net)@),
        ensures
            self@.broadcast(old(net)@, origin_of(origin), *instr, final(net)@),
    {
        let ghost before = net@;
        let mut k: usize = 0;
        while k < self.clients.len()
            invariant
                k <= self.clients@.len(),
                self@.wired(before),
                net@.len() == before.len(),
                forall|queue: int|
                    0 <= queue < before.len() && !(exists|j: int|
                        0 <= j < k && (#[trigger] self@.links[j]).to_client == queue)
                        ==> #[trigger] net@[queue] == before[queue],
                forall|j: int|
                    0 <= j < k ==> {
                        let queue = (#[trigger] self@.links[j]).to_client;
                        &&& net@[queue].len() == before[queue].len() + 1
                        &&& net@[queue].drop_last() == before[queue]
                        &&& if origin_of(origin) == Some(j) {
                            net@[queue].last() is None
                        } else {
                            carries(net@[queue].last(), *instr)
                        }
                    },
            decreases self.clients@.len() - k,
        {
            assert(self@.links[k as int] == self.clients@[k as int].link());
            let to_origin = match origin {
                Some(client) => client == k,
                None => false,
            };
            let msg = if to_origin {
                None
            } else {
                Some(instr.clone())
            };
            self.clients[k].to_client.send(net, msg);
            k += 1;
        }
    }

    /// Commits `instr`, the rebased form of an instruction that `client`
    /// sent: appends it to the log, sends a copy to every other client and
    /// an acknowledgment to `client`.
    pub fn commit(&mut self, net: &mut Mailboxes<Option<T::Instr>>, client: usize, instr: T::Instr)
        requires
            old(self)@.wired(old(net)@),
            client < old(self)@.links.len(),
        ensures
            final(self)@ == old(self)@.commit(Some(client as int), instr),
            old(self)@.broadcast(old(net)@, Some(client as int), instr, final(net)@),
            old(self)@.fits() ==> final(self)@.fits(),
            old(self)@.wf() ==> final(self)@.wf(),
    {
        let ghost authors = self@.authors;
        self.send_all(net, Some(client), &instr);
        self.pending.push_back(instr);
        proof {
            self.authors = Ghost(authors.push(Some(client as int)));
        }
    }

    /// Commits `instr`, an instruction that no client of this server sent:
    /// appends it to the log and sends a copy to every client.
    pub fn publish(&mut self, net: &mut Mailboxes<Option<T::Instr>>, instr: T::Instr)
        requires
            old(self)@.wired(old(net)@),
        ensures
            final(self)@ == old(self)@.commit(None, instr),
            old(self)@.broadcast(old(net)@, None, instr, final(net)@),
            old(self)@.fits() ==> final(self)@.fits(),
            old(self)@.wf() ==> final(self)@.wf(),
    {
        let ghost authors = self@.authors;
        self.send_all(net, None, &instr);
        self.pending.push_back(instr);
        proof {
            self.authors = Ghost(authors.push(None));
        }
    }

    /// One step of the server: picks at random a client that has sent
    /// something, and serves it. Returns false, and changes nothing, iff no
    /// client has sent anything.
    pub fn try_recv_and_send(
        &mut self,
        net: &mut Mailboxes<Option<T::Instr>>,
        rng: &mut SmallRng,
    ) -> (worked: bool)
        requires
            old(self)@.wired(old(net)@),
            old(self)@.fits(),
            forall|k: int| 0 <= k < old(self)@.links.len() ==> old(self)@.may_receive(old(net)@, k),
        ensures
            worked == exists|k: int|
                0 <= k < old(self)@.links.len() && old(net)@[(
                #[trigger] old(self)@.links[k]).from_client].len() > 0,
            !worked ==> final(self)@ == old(self)@ && final(net)@ == old(net)@,
            worked ==> exists|k: int|
                0 <= k < old(self)@.links.len() && #[trigger] stepped::<T>(
                    old(self)@,
                    old(net)@,
                    k,
                    final(self)@,
                    final(net)@,
                ),
            final(self)@.fits(),
            old(self)@.wf() ==> final(self)@.wf(),
    {
        match self.try_recv(net, rng) {
            Received::Nothing => false,
            Received::Acknowledged { client } => {
                assert(stepped::<T>(old(self)@, old(net)@, client as int, self@, net@));
                true
            },
            Received::Edit { client, instr } => {
                let rebased = T::insert_and_rebase_forward(instr, self.unacknowledged(client));
                self.commit(net, client, rebased);
                assert(stepped::<T>(old(self)@, old(net)@, client as int, self@, net@));
                true
            },
        }
    }
}

/// Trimming keeps the invariant, and leaves to each client the entries that
/// it has not acknowledged: an instruction from that client is rebased over
/// the same entries before and after. Nor does it change how many entries a
/// client has acknowledged in all.
pub proof fn lemma_trim<I>(server: ServerView<I>)
    requires
        server.fits(),
    ensures
        server.trim().wf(),
        forall|k: int|
            0 <= k < server.links.len() ==> #[trigger] server.trim().unacknowledged(k)
                == server.unacknowledged(k),
        forall|k: int|
            0 <= k < server.links.len() ==> #[trigger] server.trim().acknowledged(k)
                == server.acknowledged(k),
{
    let gone = least(server.links);
    let after = server.trim();
    lemma_least(server.links);
    lemma_least(after.links);
    if server.links.len() > 0 {
        // The client that has acknowledged least is left with offset 0.
        let k = choose|k: int|
            0 <= k < server.links.len() && (#[trigger] server.links[k]).offset == gone;
        assert(after.links[k].offset == 0);
    }
}

} // verus!
