//! The bridge between the two protocols: a CRDT client and an
//! operational-transform server that keep one document for both kinds of
//! peers.
//!
//! Every instruction crosses the bridge. One that a CRDT peer sent, or that
//! the bridge originates, is put into its plain form and committed to
//! the server's log for the server's clients. One that a client of the
//! server sent is rebased forward, stamped and sent to the CRDT peers. Each
//! is integrated into the bridge's own replica.

use crate::channel::{popped, Mailboxes, Receiver, Sender};
use crate::crdt_client::{planned, CrdtClient, Edit, PeerView};
use crate::ot_server::{stepped, Link, OtServer, Received, ServerView};
use crate::replica::{InstrOf, Replica};
use crate::state::State;
use rand::rngs::SmallRng;
use vstd::prelude::*;

verus! {

/// What committing the stamped instruction `crdt_instr` to the server of a
/// bridge does: what `replica` makes of a copy of `crdt_instr` is appended
/// to the log, and a copy of that goes to every client of the server.
pub open spec fn published<R: Replica>(
    replica: R,
    before: ServerView<InstrOf<R>>,
    net: Seq<Seq<Option<InstrOf<R>>>>,
    crdt_instr: R::CrdtInstr,
    after: ServerView<InstrOf<R>>,
    net_after: Seq<Seq<Option<InstrOf<R>>>>,
) -> bool {
    let instr = after.log.last();
    &&& exists|copy: R::CrdtInstr|
        cloned(crdt_instr, copy) && #[trigger] call_ensures(
            R::instr_from_crdt_instr,
            (&replica, copy),
            instr,
        )
    &&& after == before.commit(None, instr)
    &&& before.broadcast(net, None, instr, net_after)
}

/// A CRDT client with an operational-transform server on its other side.
pub struct CrdtClientOtServer<R: Replica> {
    crdt: CrdtClient<R>,
    ot: OtServer<R::State>,
}

impl<R: Replica> CrdtClientOtServer<R> {
    /// The mailboxes that join the bridge to the CRDT peers.
    pub closed spec fn peer(&self) -> PeerView {
        self.crdt@
    }

    /// The bridge's replica.
    pub closed spec fn replica(&self) -> R {
        self.crdt.replica()
    }

    /// The state of the bridge's server.
    pub closed spec fn server(&self) -> ServerView<InstrOf<R>> {
        self.ot@
    }

    /// A bridge whose replica starts from `state`, which receives from the
    /// CRDT peers through `inbox`, sends to them through `outboxes`, and
    /// serves one client for each pair of `channels`, with an empty log.
    pub fn new(
        state: R::State,
        inbox: Receiver<R::CrdtInstr>,
        outboxes: Vec<Sender<R::CrdtInstr>>,
        channels: Vec<
            (
                Sender<Option<InstrOf<R>>>,
                Receiver<Option<InstrOf<R>>>,
            ),
        >,
    ) -> (bridge: Self)
        ensures
            call_ensures(R::new, (state,), bridge.replica()),
            bridge.peer().inbox == inbox.queue(),
            bridge.peer().outboxes.len() == outboxes@.len(),
            forall|k: int|
                0 <= k < outboxes@.len() ==> #[trigger] bridge.peer().outboxes[k]
                    == outboxes@[k].queue(),
            bridge.server().log == Seq::<InstrOf<R>>::empty(),
            bridge.server().authors == Seq::<Option<int>>::empty(),
            bridge.server().dropped == 0,
            bridge.server().links.len() == channels@.len(),
            forall|k: int|
                0 <= k < channels@.len() ==> #[trigger] bridge.server().links[k] == (Link {
                    offset: 0,
                    to_client: channels@[k].0.queue(),
                    from_client: channels@[k].1.queue(),
                }),
            bridge.server().wf(),
    {
        Self { crdt: CrdtClient::new(state, inbox, outboxes), ot: OtServer::new(channels) }
    }

    /// Draws the next edit of the bridge's replica: an undo of an entry of
    /// its log, or a new instruction.
    pub fn next_edit(&self, rng: &mut SmallRng) -> (edit: Edit)
        ensures
            planned(self.replica(), edit),
    {
        self.crdt.next_edit(rng)
    }

    /// Stamps `instr`, which is written against the replica's current
    /// state, with the replica's next causal identity.
    pub fn stamp(&self, instr: InstrOf<R>) -> (crdt_instr: R::CrdtInstr)
        ensures
            call_ensures(R::instr_to_crdt_instr, (&self.replica(), instr), crdt_instr),
    {
        self.crdt.stamp(instr)
    }

    /// The stamped instruction that undoes the entry at position `entry` of
    /// the replica's log, if there is such an entry.
    pub fn undo(&self, entry: usize) -> (crdt_instr: Option<R::CrdtInstr>)
        ensures
            call_ensures(R::inverse, (&self.replica(), entry), crdt_instr),
    {
        self.crdt.undo(entry)
    }

    /// The bridge's replica.
    pub fn crdt(&self) -> (replica: &R)
        ensures
            *replica == self.replica(),
    {
        self.crdt.crdt()
    }

    /// The visible state of the bridge's replica.
    pub fn state(&self) -> (state: &R::State)
        ensures
            call_ensures(R::state, (&self.replica(),), state),
    {
        self.crdt.state()
    }

    /// Originates `crdt_instr`: sends a copy to every CRDT peer, commits its
    /// plain form to the server's log for every client of the server, and
    /// integrates it into the replica.
    pub fn gen_and_send(
        &mut self,
        crdt_net: &mut Mailboxes<R::CrdtInstr>,
        ot_net: &mut Mailboxes<Option<InstrOf<R>>>,
        crdt_instr: R::CrdtInstr,
    )
        requires
            old(self).peer().wired(old(crdt_net)@),
            old(self).server().wired(old(ot_net)@),
        ensures
            final(self).peer() == old(self).peer(),
            old(self).peer().sent(old(crdt_net)@, crdt_instr, final(crdt_net)@),
            published::<R>(
                old(self).replica(),
                old(self).server(),
                old(ot_net)@,
                crdt_instr,
                final(self).server(),
                final(ot_net)@,
            ),
            exists|replica: &mut R|
                *replica == old(self).replica() && *final(replica) == final(self).replica()
                    && #[trigger] call_ensures(R::apply, (replica, crdt_instr), ()),
            old(self).server().fits() ==> final(self).server().fits(),
            old(self).server().wf() ==> final(self).server().wf(),
    {
        self.crdt.send(crdt_net, &crdt_instr);
        self.commit_foreign(ot_net, crdt_instr);
    }

    /// Commits the plain form of `crdt_instr` to the server's log for every
    /// client of the server, and integrates `crdt_instr` into the replica.
    fn commit_foreign(
        &mut self,
        ot_net: &mut Mailboxes<Option<InstrOf<R>>>,
        crdt_instr: R::CrdtInstr,
    )
        requires
            old(self).server().wired(old(ot_net)@),
        ensures
            final(self).peer() == old(self).peer(),
            published::<R>(
                old(self).replica(),
                old(self).server(),
                old(ot_net)@,
                crdt_instr,
                final(self).server(),
                final(ot_net)@,
            ),
            exists|replica: &mut R|
                *replica == old(self).replica() && *final(replica) == final(self).replica()
                    && #[trigger] call_ensures(R::apply, (replica, crdt_instr), ()),
            old(self).server().fits() ==> final(self).server().fits(),
            old(self).server().wf() ==> final(self).server().wf(),
    {
        let ot_instr = self.crdt.localize(crdt_instr.clone());
        self.ot.publish(ot_net, ot_instr);
        self.crdt.integrate(crdt_instr);
    }

    /// Takes the next instruction that a CRDT peer sent, if there is one:
    /// commits its plain form to the server's log for every client of the
    /// server, and integrates it into the replica. Returns false, and
    /// changes nothing, iff no CRDT peer has sent anything.
    pub fn try_recv_and_commit(
        &mut self,
        crdt_net: &mut Mailboxes<R::CrdtInstr>,
        ot_net: &mut Mailboxes<Option<InstrOf<R>>>,
    ) -> (worked: bool)
        requires
            old(self).peer().attached(old(crdt_net)@),
            old(self).server().wired(old(ot_net)@),
        ensures
            final(self).peer() == old(self).peer(),
            worked == (old(crdt_net)@[old(self).peer().inbox].len() > 0),
            !worked ==> {
                &&& final(self).replica() == old(self).replica()
                &&& final(self).server() == old(self).server()
                &&& final(crdt_net)@ == old(crdt_net)@
                &&& final(ot_net)@ == old(ot_net)@
            },
            worked ==> {
                &&& final(crdt_net)@ == popped(old(crdt_net)@, old(self).peer().inbox)
                &&& published::<R>(
                    old(self).replica(),
                    old(self).server(),
                    old(ot_net)@,
                    old(crdt_net)@[old(self).peer().inbox][0],
                    final(self).server(),
                    final(ot_net)@,
                )
                &&& exists|replica: &mut R|
                    *replica == old(self).replica() && *final(replica) == final(self).replica()
                        && #[trigger] call_ensures(
                        R::apply,
                        (replica, old(crdt_net)@[old(self).peer().inbox][0]),
                        (),
                    )
            },
            old(self).server().fits() ==> final(self).server().fits(),
            old(self).server().wf() ==> final(self).server().wf(),
    {
        match self.crdt.receive(crdt_net) {
            Some(crdt_instr) => {
                self.commit_foreign(ot_net, crdt_instr);
                true
            },
            None => false,
        }
    }

    /// One step of the server side: picks at random a client of the server
    /// that has sent something, and serves it as the server does. An
    /// instruction that is committed is also stamped, sent to every CRDT
    /// peer and integrated into the replica. Returns false, and changes
    /// nothing, iff no client has sent anything.
    pub fn try_recv_and_send(
        &mut self,
        crdt_net: &mut Mailboxes<R::CrdtInstr>,
        ot_net: &mut Mailboxes<Option<InstrOf<R>>>,
        rng: &mut SmallRng,
    ) -> (worked: bool)
        requires
            old(self).peer().wired(old(crdt_net)@),
            old(self).server().wired(old(ot_net)@),
            old(self).server().fits(),
            forall|k: int|
                0 <= k < old(self).server().links.len() ==> old(self).server().may_receive(
                    old(ot_net)@,
                    k,
                ),
        ensures
            final(self).peer() == old(self).peer(),
            worked == exists|k: int|
                0 <= k < old(self).server().links.len() && old(ot_net)@[(
                #[trigger] old(self).server().links[k]).from_client].len() > 0,
            !worked ==> {
                &&& final(self).replica() == old(self).replica()
                &&& final(self).server() == old(self).server()
                &&& final(crdt_net)@ == old(crdt_net)@
                &&& final(ot_net)@ == old(ot_net)@
            },
            worked ==> exists|k: int|
                {
                    &&& 0 <= k < old(self).server().links.len()
                    &&& #[trigger] stepped::<R::State>(
                        old(self).server(),
                        old(ot_net)@,
                        k,
                        final(self).server(),
                        final(ot_net)@,
                    )
                    &&& old(ot_net)@[old(self).server().links[k].from_client][0] is None ==> {
                        &&& final(self).replica() == old(self).replica()
                        &&& final(crdt_net)@ == old(crdt_net)@
                    }
                    &&& old(ot_net)@[old(self).server().links[k].from_client][0] is Some
                        ==> exists|
                        copy: InstrOf<R>,
                        crdt_instr: R::CrdtInstr,
                        replica: &mut R,
                    |
                        {
                            &&& cloned(final(self).server().log.last(), copy)
                            &&& #[trigger] call_ensures(
                                R::instr_to_crdt_instr,
                                (&old(self).replica(), copy),
                                crdt_instr,
                            )
                            &&& old(self).peer().sent(
                                old(crdt_net)@,
                                crdt_instr,
                                final(crdt_net)@,
                            )
                            &&& *replica == old(self).replica()
                            &&& *final(replica) == final(self).replica()
                            &&& #[trigger] call_ensures(R::apply, (replica, crdt_instr), ())
                        }
                },
            final(self).server().fits(),
            old(self).server().wf() ==> final(self).server().wf(),
    {
        match self.ot.try_recv(ot_net, rng) {
            Received::Nothing => false,
            Received::Acknowledged { client } => {
                assert(stepped::<R::State>(
                    old(self).server(),
                    old(ot_net)@,
                    client as int,
                    self.server(),
                    ot_net@,
                ));
                true
            },
            Received::Edit { client, instr } => {
                let rebased = <R::State as State>::insert_and_rebase_forward(
                    instr,
                    self.ot.unacknowledged(client),
                );
                let copy = rebased.clone();
                let crdt_instr = self.crdt.stamp(copy);
                self.crdt.send(crdt_net, &crdt_instr);
                self.ot.commit(ot_net, client, rebased);
                self.crdt.integrate(crdt_instr);
                proof {
                    assert(stepped::<R::State>(
                        old(self).server(),
                        old(ot_net)@,
                        client as int,
                        self.server(),
                        ot_net@,
                    ));
                    assert(call_ensures(
                        R::instr_to_crdt_instr,
                        (&old(self).replica(), copy),
                        crdt_instr,
                    ));
                }
                true
            },
        }
    }

    /// The entries of the server's log that `client` has not acknowledged,
    /// oldest first.
    pub fn unacknowledged(&mut self, client: usize) -> (entries: &[InstrOf<R>])
        requires
            client < old(self).server().links.len(),
            old(self).server().fits(),
        ensures
            entries@ == old(self).server().unacknowledged(client as int),
            final(self).server() == old(self).server(),
            final(self).peer() == old(self).peer(),
            final(self).replica() == old(self).replica(),
    {
        self.ot.unacknowledged(client)
    }

    /// True iff the bridge can take a step in the two networks: each side
    /// is in order in its network.
    pub fn in_order(
        &self,
        crdt_net: &Mailboxes<R::CrdtInstr>,
        ot_net: &Mailboxes<Option<InstrOf<R>>>,
    ) -> (ok: bool)
        ensures
            ok == (self.peer().wired(crdt_net@) && self.server().wired(ot_net@)
                && self.server().fits() && forall|k: int|
                0 <= k < self.server().links.len() ==> self.server().may_receive(ot_net@, k)),
    {
        self.crdt.in_order(crdt_net) && self.ot.in_order(ot_net)
    }

    /// True iff both sides have nothing under way: no instruction of a CRDT
    /// peer waits, and the server's log is empty.
    pub fn drained(&self, crdt_net: &Mailboxes<R::CrdtInstr>) -> (b: bool)
        requires
            self.peer().attached(crdt_net@),
        ensures
            b == (crdt_net@[self.peer().inbox].len() == 0 && self.server().log.len() == 0),
    {
        self.crdt.drained(crdt_net) && self.ot.drained()
    }
}

} // verus!
