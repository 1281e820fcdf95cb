//! The operational-transform client: one optimistic copy of the document,
//! the buffer of the client's own instructions that the server has not
//! acknowledged yet, and the two mailboxes that join the client to the
//! server.
//!
//! A local instruction is applied at once. It goes to the server rebased back
//! over the buffer, that is, as the server can read it, and stays in the
//! buffer as it was applied until the server acknowledges it. A foreign
//! instruction is converged with the buffer before it is applied.

use crate::channel::{popped, pushed, Mailboxes, Receiver, Sender};
use crate::deque::contiguous;
use crate::state::{rebased_back, State};
use std::collections::VecDeque;
use vstd::prelude::*;

verus! {

/// The state of a client, but for its document: its buffer and the
/// mailboxes it uses.
pub struct ClientView<I> {
    /// The client's own instructions that the server has not acknowledged,
    /// oldest first, each as it applies to the client's document.
    pub buffer: Seq<I>,
    /// The mailbox that carries the server's messages.
    pub from_server: int,
    /// The mailbox that carries messages to the server.
    pub to_server: int,
}

impl<I> ClientView<I> {
    /// Both mailboxes of the client are mailboxes of `net`.
    pub open spec fn attached(self, net: Seq<Seq<Option<I>>>) -> bool {
        &&& 0 <= self.from_server < net.len()
        &&& 0 <= self.to_server < net.len()
    }

    /// An acknowledgment at the front of the client's mailbox answers an
    /// instruction in its buffer.
    pub open spec fn may_receive(self, net: Seq<Seq<Option<I>>>) -> bool {
        let inbox = net[self.from_server];
        inbox.len() > 0 && inbox[0] is None ==> self.buffer.len() > 0
    }

    /// The state after `instr` entered the buffer.
    pub open spec fn record(self, instr: I) -> Self {
        ClientView { buffer: self.buffer.push(instr), ..self }
    }

    /// The state after the oldest instruction of the buffer was
    /// acknowledged.
    pub open spec fn release(self) -> Self {
        ClientView { buffer: self.buffer.drop_first(), ..self }
    }

    /// What receiving does: `got` is what the client hands back, `after`
    /// its next state and `net_after` the mailboxes then. Nothing comes back
    /// iff the server has sent nothing. Otherwise the message leaves the
    /// mailbox and an acknowledgment goes to the server; an acknowledgment
    /// from the server releases the oldest instruction of the buffer, and a
    /// foreign instruction is handed back as it came.
    pub open spec fn received(
        self,
        net: Seq<Seq<Option<I>>>,
        got: Incoming<I>,
        after: Self,
        net_after: Seq<Seq<Option<I>>>,
    ) -> bool {
        let inbox = net[self.from_server];
        if inbox.len() == 0 {
            got is Nothing && after == self && net_after == net
        } else {
            &&& net_after == pushed(popped(net, self.from_server), self.to_server, None)
            &&& match inbox[0] {
                None => got is Acknowledged && after == self.release(),
                Some(instr) => got == Incoming::Foreign(instr) && after == self,
            }
        }
    }
}

/// What sending the local instruction `instr` does to a client of the
/// replicated type `T`: a copy of `instr` enters the buffer, and what the
/// type hands back when it rebases `instr` back over the buffer goes to the
/// server.
pub open spec fn generated<T: State>(
    before: ClientView<T::Instr>,
    net: Seq<Seq<Option<T::Instr>>>,
    instr: T::Instr,
    after: ClientView<T::Instr>,
    net_after: Seq<Seq<Option<T::Instr>>>,
) -> bool {
    exists|kept: T::Instr, rebased: T::Instr|
        {
            &&& cloned(instr, kept)
            &&& rebased_back::<T>(instr, before.buffer, rebased)
            &&& #[trigger] before.record(kept) == after
            &&& net_after == #[trigger] pushed(net, before.to_server, Some(rebased))
        }
}

/// What taking a message does to a client, whatever the replicated type
/// makes of it: the message leaves the mailbox and an acknowledgment goes to
/// the server. An acknowledgment from the server releases the oldest
/// instruction of the buffer; a foreign instruction leaves the buffer as
/// long as it was.
pub open spec fn taken<I>(
    before: ClientView<I>,
    net: Seq<Seq<Option<I>>>,
    after: ClientView<I>,
    net_after: Seq<Seq<Option<I>>>,
) -> bool {
    let inbox = net[before.from_server];
    &&& inbox.len() > 0
    &&& net_after == pushed(popped(net, before.from_server), before.to_server, None)
    &&& after.from_server == before.from_server
    &&& after.to_server == before.to_server
    &&& match inbox[0] {
        None => after == before.release(),
        Some(instr) => after.buffer.len() == before.buffer.len(),
    }
}

/// What the client took from the server's mailbox.
#[derive(Debug, PartialEq, Eq)]
pub enum Incoming<I> {
    /// The server had sent nothing.
    Nothing,
    /// The server acknowledged the client's oldest pending instruction,
    /// which has left the buffer.
    Acknowledged,
    /// An instruction of another party, written against the state that the
    /// server last confirmed to this client.
    Foreign(I),
}

/// One client of the operational-transform protocol.
#[derive(Debug)]
pub struct OtClient<T: State> {
    state: T,
    pending: VecDeque<T::Instr>,
    from_server: Receiver<Option<T::Instr>>,
    to_server: Sender<Option<T::Instr>>,
}

impl<T: State> View for OtClient<T> {
    type V = ClientView<T::Instr>;

    closed spec fn view(&self) -> ClientView<T::Instr> {
        ClientView {
            buffer: self.pending@,
            from_server: self.from_server.queue(),
            to_server: self.to_server.queue(),
        }
    }
}

impl<T: State> OtClient<T> {
    /// The client's copy of the document.
    pub closed spec fn document(&self) -> T {
        self.state
    }

    /// A client that starts from `state`, with an empty buffer.
    pub fn new(
        state: T,
        from_server: Receiver<Option<T::Instr>>,
        to_server: Sender<Option<T::Instr>>,
    ) -> (client: Self)
        ensures
            client.document() == state,
            client@ == (ClientView {
                buffer: Seq::<T::Instr>::empty(),
                from_server: from_server.queue(),
                to_server: to_server.queue(),
            }),
    {
        Self { state, pending: VecDeque::new(), from_server, to_server }
    }

    /// The client's copy of the document.
    pub fn state(&self) -> (state: &T)
        ensures
            *state == self.document(),
    {
        &self.state
    }

    /// The buffer: what a new local instruction is rebased back over.
    pub fn pending(&mut self) -> (buffer: &[T::Instr])
        ensures
            buffer@ == old(self)@.buffer,
            final(self)@ == old(self)@,
            final(self).document() == old(self).document(),
    {
        let buffer = contiguous(&mut self.pending);
        &*buffer
    }

    /// The buffer, open to the changes that convergence with a foreign
    /// instruction asks for. Its length stays.
    pub fn pending_mut(&mut self) -> (buffer: &mut [T::Instr])
        ensures
            buffer@ == old(self)@.buffer,
            final(buffer)@.len() == buffer@.len(),
            final(self)@ == (ClientView { buffer: final(buffer)@, ..old(self)@ }),
            final(self).document() == old(self).document(),
    {
        contiguous(&mut self.pending)
    }

    /// Puts `instr` into the buffer and sends `rebased` to the server.
    pub fn record_and_send(
        &mut self,
        net: &mut Mailboxes<Option<T::Instr>>,
        instr: T::Instr,
        rebased: T::Instr,
    )
        requires
            old(self)@.attached(old(net)@),
        ensures
            final(self)@ == old(self)@.record(instr),
            final(self).document() == old(self).document(),
            final(net)@ == pushed(old(net)@, old(self)@.to_server, Some(rebased)),
    {
        self.pending.push_back(instr);
        self.to_server.send(net, Some(rebased));
    }

    /// Takes the next message of the server, if there is one, and
    /// acknowledges it. A foreign instruction is handed back as it came,
    /// neither converged nor applied.
    pub fn receive(&mut self, net: &mut Mailboxes<Option<T::Instr>>) -> (got: Incoming<T::Instr>)
        requires
            old(self)@.attached(old(net)@),
            old(self)@.may_receive(old(net)@),
        ensures
            old(self)@.received(old(net)@, got, final(self)@, final(net)@),
            final(self).document() == old(self).document(),
    {
        match self.from_server.try_receive(net) {
            None => Incoming::Nothing,
            Some(None) => {
                let _ = self.pending.pop_front();
                self.to_server.send(net, None);
                Incoming::Acknowledged
            },
            Some(Some(instr)) => {
                self.to_server.send(net, None);
                Incoming::Foreign(instr)
            },
        }
    }

    /// Carries out the new local instruction `instr`, which is written
    /// against the client's document as it is: applies it, sends it to the
    /// server rebased back over the buffer, and keeps a copy in the buffer.
    pub fn gen_and_send(&mut self, net: &mut Mailboxes<Option<T::Instr>>, instr: T::Instr)
        requires
            old(self)@.attached(old(net)@),
        ensures
            exists|document: &mut T|
                *document == old(self).document() && *final(document) == final(self).document()
                    && #[trigger] call_ensures(
                    T::apply,
                    (document, &instr),
                    (),
                ),
            generated::<T>(old(self)@, old(net)@, instr, final(self)@, final(net)@),
    {
        self.state.apply(&instr);
        let kept = instr.clone();
        let rebased = T::insert_and_rebase_back(instr, &*contiguous(&mut self.pending));
        self.pending.push_back(kept);
        self.to_server.send(net, Some(rebased));
        assert(old(self)@.record(kept) == self@);
    }

    /// Takes the next message of the server, if there is one, and
    /// acknowledges it. A foreign instruction is converged with the buffer,
    /// which convergence may alter, and the outcome is applied to the
    /// document. An acknowledgment releases the oldest instruction of the
    /// buffer. Returns false, and changes nothing, iff the server has sent
    /// nothing.
    pub fn try_recv_and_commit(&mut self, net: &mut Mailboxes<Option<T::Instr>>) -> (worked: bool)
        requires
            old(self)@.attached(old(net)@),
            old(self)@.may_receive(old(net)@),
        ensures
            worked == (old(net)@[old(self)@.from_server].len() > 0),
            !worked ==> final(self)@ == old(self)@ && final(self).document() == old(
                self,
            ).document() && final(net)@ == old(net)@,
            worked ==> taken(old(self)@, old(net)@, final(self)@, final(net)@),
            worked && old(net)@[old(self)@.from_server][0] is None ==> final(self).document()
                == old(self).document(),
            worked && old(net)@[old(self)@.from_server][0] is Some ==> {
                let foreign = old(net)@[old(self)@.from_server][0]->Some_0;
                exists|buffer: &mut [T::Instr], document: &mut T, folded: T::Instr|
                    {
                        &&& buffer@ == old(self)@.buffer
                        &&& final(buffer)@ == final(self)@.buffer
                        &&& #[trigger] call_ensures(T::converge, (foreign, buffer), folded)
                        &&& *document == old(self).document()
                        &&& *final(document) == final(self).document()
                        &&& #[trigger] call_ensures(T::apply, (document, &folded), ())
                    }
            },
    {
        match self.from_server.try_receive(net) {
            None => false,
            Some(None) => {
                let _ = self.pending.pop_front();
                self.to_server.send(net, None);
                true
            },
            Some(Some(instr)) => {
                let folded = T::converge(instr, contiguous(&mut self.pending));
                self.state.apply(&folded);
                self.to_server.send(net, None);
                true
            },
        }
    }

    /// True iff the client can take a step in `net`: its mailboxes are
    /// mailboxes of `net`, and no acknowledgment waits for an empty buffer.
    pub fn in_order(&self, net: &Mailboxes<Option<T::Instr>>) -> (ok: bool)
        ensures
            ok == (self@.attached(net@) && self@.may_receive(net@)),
    {
        if self.from_server.mailbox() >= net.count() || self.to_server.mailbox() >= net.count() {
            return false;
        }
        match self.from_server.peek(net) {
            Some(None) => self.pending.len() > 0,
            _ => true,
        }
    }

    /// True iff nothing of this client is under way: its buffer and both its
    /// mailboxes are empty.
    pub fn drained(&self, net: &Mailboxes<Option<T::Instr>>) -> (b: bool)
        requires
            self@.attached(net@),
        ensures
            b == (self@.buffer.len() == 0 && net@[self@.from_server].len() == 0
                && net@[self@.to_server].len() == 0),
    {
        self.pending.len() == 0 && self.from_server.is_empty(net) && self.to_server.is_empty(net)
    }
}

} // verus!
