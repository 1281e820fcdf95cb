//! The CRDT client: one replica in a mesh of peers, each of which sends
//! every instruction that it originates to all the others.

use crate::channel::{all_distinct, popped, Mailboxes, Receiver, Sender};
use crate::random::gen_range;
use crate::replica::{InstrOf, Replica};
use rand::rngs::SmallRng;
use vstd::prelude::*;

verus! {

/// One in this many edits undoes an entry of the replica's log, as long as
/// there is one.
pub const UNDO_ODDS: usize = 5;

/// The next edit of a replica.
#[derive(Clone, Copy, Debug, PartialEq, Eq, Structural)]
pub enum Edit {
    /// A new instruction against the replica's current state.
    Fresh,
    /// The inverse of the entry at position `entry` of the replica's log.
    Undo { entry: usize },
}

/// The edit that the draws `coin` and `entry` stand for, for a replica whose
/// log holds `log_len` entries: an undo of `entry` where the log is not
/// empty and `coin` is 0, and a new instruction otherwise.
pub fn plan_edit(log_len: usize, coin: usize, entry: usize) -> (edit: Edit)
    ensures
        edit == if log_len == 0 || coin != 0 {
            Edit::Fresh
        } else {
            Edit::Undo { entry }
        },
{
    if log_len == 0 || coin != 0 {
        Edit::Fresh
    } else {
        Edit::Undo { entry }
    }
}

/// Draws the next edit of a replica whose log holds `log_len` entries. An
/// undo names an entry of the log; with an empty log the edit is a new
/// instruction.
pub fn choose_edit(log_len: usize, rng: &mut SmallRng) -> (edit: Edit)
    ensures
        log_len == 0 ==> edit is Fresh,
        edit matches Edit::Undo { entry } ==> entry < log_len,
{
    if log_len == 0 {
        Edit::Fresh
    } else {
        let coin = gen_range(rng, 0, UNDO_ODDS);
        let entry = if coin == 0 {
            gen_range(rng, 0, log_len)
        } else {
            0
        };
        plan_edit(log_len, coin, entry)
    }
}

/// True iff `edit` fits `replica`: an undo names an entry of the replica's
/// log, and with an empty log the edit is a new instruction.
pub open spec fn planned<R: Replica>(replica: R, edit: Edit) -> bool {
    exists|log_len: usize|
        {
            &&& #[trigger] call_ensures(R::log_len, (&replica,), log_len)
            &&& log_len == 0 ==> edit is Fresh
            &&& edit matches Edit::Undo { entry } ==> entry < log_len
        }
}

/// The mailboxes of a CRDT client.
pub struct PeerView {
    /// The mailbox that carries what the peers sent.
    pub inbox: int,
    /// One mailbox for each peer, which carries this client's instructions.
    pub outboxes: Seq<int>,
}

impl PeerView {
    /// Every mailbox of the client is one of `net`.
    pub open spec fn attached<C>(self, net: Seq<Seq<C>>) -> bool {
        &&& 0 <= self.inbox < net.len()
        &&& forall|k: int|
            0 <= k < self.outboxes.len() ==> 0 <= #[trigger] self.outboxes[k] < net.len()
    }

    /// Every mailbox of the client is one of `net`, and no two outboxes are
    /// the same.
    pub open spec fn wired<C>(self, net: Seq<Seq<C>>) -> bool {
        &&& self.attached(net)
        &&& forall|j: int, k: int|
            0 <= j < k < self.outboxes.len() ==> #[trigger] self.outboxes[j]
                != #[trigger] self.outboxes[k]
    }

    /// What sending `instr` to every peer does to the mailboxes: each outbox
    /// gains a copy of `instr` at its back, and no other mailbox changes.
    pub open spec fn sent<C: Clone>(
        self,
        net: Seq<Seq<C>>,
        instr: C,
        net_after: Seq<Seq<C>>,
    ) -> bool {
        &&& net_after.len() == net.len()
        &&& forall|queue: int|
            0 <= queue < net.len() && !self.outboxes.contains(queue) ==> #[trigger] net_after[queue]
                == net[queue]
        &&& forall|k: int|
            0 <= k < self.outboxes.len() ==> {
                let queue = #[trigger] self.outboxes[k];
                &&& net_after[queue].len() == net[queue].len() + 1
                &&& net_after[queue].drop_last() == net[queue]
                &&& cloned(instr, net_after[queue].last())
            }
    }
}

/// One peer of the CRDT mesh.
#[derive(Debug)]
pub struct CrdtClient<R: Replica> {
    crdt: R,
    inbox: Receiver<R::CrdtInstr>,
    outboxes: Vec<Sender<R::CrdtInstr>>,
}

impl<R: Replica> View for CrdtClient<R> {
    type V = PeerView;

    closed spec fn view(&self) -> PeerView {
        PeerView {
            inbox: self.inbox.queue(),
            outboxes: Seq::new(self.outboxes@.len(), |k: int| self.outboxes@[k].queue()),
        }
    }
}

impl<R: Replica> CrdtClient<R> {
    /// The client's replica.
    pub closed spec fn replica(&self) -> R {
        self.crdt
    }

    /// A client whose replica starts from `state`, which receives through
    /// `inbox` and sends through each of `outboxes`.
    pub fn new(
        state: R::State,
        inbox: Receiver<R::CrdtInstr>,
        outboxes: Vec<Sender<R::CrdtInstr>>,
    ) -> (client: Self)
        ensures
            call_ensures(R::new, (state,), client.replica()),
            client@.inbox == inbox.queue(),
            client@.outboxes.len() == outboxes@.len(),
            forall|k: int|
                0 <= k < outboxes@.len() ==> #[trigger] client@.outboxes[k] == outboxes@[k].queue(),
    {
        Self { crdt: R::new(state), inbox, outboxes }
    }

    /// The client's replica.
    pub fn crdt(&self) -> (replica: &R)
        ensures
            *replica == self.replica(),
    {
        &self.crdt
    }

    /// The visible state of the client's replica.
    pub fn state(&self) -> (state: &R::State)
        ensures
            call_ensures(R::state, (&self.replica(),), state),
    {
        self.crdt.state()
    }

    /// Draws the next edit of the client's replica: an undo of an entry of
    /// its log, or a new instruction.
    pub fn next_edit(&self, rng: &mut SmallRng) -> (edit: Edit)
        ensures
            planned(self.replica(), edit),
    {
        let log_len = self.crdt.log_len();
        choose_edit(log_len, rng)
    }

    /// Stamps `instr`, which is written against the replica's current
    /// state, with the replica's next causal identity.
    pub fn stamp(&self, instr: InstrOf<R>) -> (crdt_instr: R::CrdtInstr)
        ensures
            call_ensures(R::instr_to_crdt_instr, (&self.replica(), instr), crdt_instr),
    {
        self.crdt.instr_to_crdt_instr(instr)
    }

    /// The stamped instruction that undoes the entry at position `entry` of
    /// the replica's log, if there is such an entry.
    pub fn undo(&self, entry: usize) -> (crdt_instr: Option<R::CrdtInstr>)
        ensures
            call_ensures(R::inverse, (&self.replica(), entry), crdt_instr),
    {
        self.crdt.inverse(entry)
    }

    /// The instruction that folds `crdt_instr` into the replica's current
    /// state.
    pub fn localize(&self, crdt_instr: R::CrdtInstr) -> (instr: InstrOf<R>)
        ensures
            call_ensures(R::instr_from_crdt_instr, (&self.replica(), crdt_instr), instr),
    {
        self.crdt.instr_from_crdt_instr(crdt_instr)
    }

    /// Integrates `crdt_instr` into the replica.
    pub fn integrate(&mut self, crdt_instr: R::CrdtInstr)
        ensures
            final(self)@ == old(self)@,
            exists|replica: &mut R|
                *replica == old(self).replica() && *final(replica) == final(self).replica()
                    && #[trigger] call_ensures(R::apply, (replica, crdt_instr), ()),
    {
        self.crdt.apply(crdt_instr);
    }

    /// Sends a copy of `instr` to every peer.
    pub fn send(&self, net: &mut Mailboxes<R::CrdtInstr>, instr: &R::CrdtInstr)
        requires
            self@.wired(old(net)@),
        ensures
            self@.sent(old(net)@, *instr, final(net)@),
    {
        let ghost before = net@;
        let mut k: usize = 0;
        while k < self.outboxes.len()
            invariant
                k <= self.outboxes@.len(),
                self@.wired(before),
                net@.len() == before.len(),
                forall|queue: int|
                    0 <= queue < before.len() && !self@.outboxes.take(k as int).contains(queue)
                        ==> #[trigger] net@[queue] == before[queue],
                forall|j: int|
                    0 <= j < k ==> {
                        let queue = #[trigger] self@.outboxes[j];
                        &&& net@[queue].len() == before[queue].len() + 1
                        &&& net@[queue].drop_last() == before[queue]
                        &&& cloned(*instr, net@[queue].last())
                    },
            decreases self.outboxes@.len() - k,
        {
            let ghost target = self@.outboxes[k as int];
            self.outboxes[k].send(net, instr.clone());
            assert forall|queue: int|
                0 <= queue < before.len() && !self@.outboxes.take(k as int + 1).contains(
                    queue,
                ) implies #[trigger] net@[queue] == before[queue] by {
                assert(self@.outboxes.take(k as int + 1)[k as int] == target);
            }
            k += 1;
        }
    }

    /// Takes the next instruction that a peer sent, if there is one, and
    /// hands it back as it came.
    pub fn receive(&self, net: &mut Mailboxes<R::CrdtInstr>) -> (got: Option<R::CrdtInstr>)
        requires
            self@.attached(old(net)@),
        ensures
            old(net)@[self@.inbox].len() == 0 ==> got is None && final(net)@ == old(net)@,
            old(net)@[self@.inbox].len() > 0 ==> got == Some(old(net)@[self@.inbox][0])
                && final(net)@ == popped(old(net)@, self@.inbox),
    {
        self.inbox.try_receive(net)
    }

    /// Originates `instr`: integrates a copy of it into the replica and
    /// sends a copy to every peer.
    pub fn gen_and_send(&mut self, net: &mut Mailboxes<R::CrdtInstr>, instr: R::CrdtInstr)
        requires
            old(self)@.wired(old(net)@),
        ensures
            final(self)@ == old(self)@,
            exists|replica: &mut R, copy: R::CrdtInstr|
                {
                    &&& cloned(instr, copy)
                    &&& *replica == old(self).replica()
                    &&& *final(replica) == final(self).replica()
                    &&& #[trigger] call_ensures(R::apply, (replica, copy), ())
                },
            old(self)@.sent(old(net)@, instr, final(net)@),
    {
        self.integrate(instr.clone());
        self.send(net, &instr);
    }

    /// Takes the next instruction that a peer sent, if there is one, and
    /// integrates it into the replica. Returns false, and changes nothing,
    /// iff no peer has sent anything.
    pub fn try_recv_and_commit(&mut self, net: &mut Mailboxes<R::CrdtInstr>) -> (worked: bool)
        requires
            old(self)@.attached(old(net)@),
        ensures
            final(self)@ == old(self)@,
            worked == (old(net)@[old(self)@.inbox].len() > 0),
            !worked ==> final(self).replica() == old(self).replica() && final(net)@ == old(net)@,
            worked ==> final(net)@ == popped(old(net)@, old(self)@.inbox) && exists|replica: &mut R|
                {
                    &&& *replica == old(self).replica()
                    &&& *final(replica) == final(self).replica()
                    &&& #[trigger] call_ensures(
                        R::apply,
                        (replica, old(net)@[old(self)@.inbox][0]),
                        (),
                    )
                },
    {
        match self.receive(net) {
            Some(instr) => {
                self.integrate(instr);
                true
            },
            None => false,
        }
    }

    /// True iff the client can take a step in `net`: its mailboxes are
    /// mailboxes of `net`, and no two of its outboxes are the same.
    pub fn in_order(&self, net: &Mailboxes<R::CrdtInstr>) -> (ok: bool)
        ensures
            ok == self@.wired(net@),
    {
        if self.inbox.mailbox() >= net.count() {
            return false;
        }
        let mut queues: Vec<usize> = Vec::new();
        let mut k: usize = 0;
        while k < self.outboxes.len()
            invariant
                k <= self.outboxes@.len(),
                queues@.len() == k,
                forall|j: int| 0 <= j < k ==> queues@[j] == #[trigger] self@.outboxes[j],
                forall|j: int| 0 <= j < k ==> 0 <= #[trigger] self@.outboxes[j] < net@.len(),
            decreases self.outboxes@.len() - k,
        {
            assert(self@.outboxes[k as int] == self.outboxes@[k as int].queue());
            let queue = self.outboxes[k].mailbox();
            if queue >= net.count() {
                return false;
            }
            queues.push(queue);
            k += 1;
        }
        let distinct = all_distinct(&queues);
        proof {
            if !distinct {
                let (a, b) = choose|a: int, b: int|
                    0 <= a < b < queues@.len() && queues@[a] == queues@[b];
                assert(self@.outboxes[a] == self@.outboxes[b]);
            }
        }
        distinct
    }

    /// True iff no instruction of a peer waits for this client.
    pub fn drained(&self, net: &Mailboxes<R::CrdtInstr>) -> (b: bool)
        requires
            self@.attached(net@),
        ensures
            b == (net@[self@.inbox].len() == 0),
    {
        self.inbox.is_empty(net)
    }
}

/// True iff `peers` form a mesh: each has an inbox of its own and sends to
/// the inbox of every other peer, and to no other mailbox.
pub open spec fn meshed(peers: Seq<PeerView>) -> bool {
    &&& forall|i: int, j: int|
        0 <= i < j < peers.len() ==> (#[trigger] peers[i]).inbox != (#[trigger] peers[j]).inbox
    &&& forall|i: int, j: int|
        0 <= i < peers.len() && 0 <= j < peers.len() && i != j ==> (
        #[trigger] peers[i]).outboxes.contains((#[trigger] peers[j]).inbox)
    &&& forall|i: int|
        0 <= i < peers.len() ==> !(#[trigger] peers[i]).outboxes.contains(peers[i].inbox)
}

/// In a mesh, what one peer sends reaches every other peer once: the inbox
/// of each other peer gains a copy at its back, and the sender's own inbox
/// stays as it is.
pub proof fn lemma_mesh_delivers<C: Clone>(
    peers: Seq<PeerView>,
    sender: int,
    net: Seq<Seq<C>>,
    instr: C,
    net_after: Seq<Seq<C>>,
)
    requires
        meshed(peers),
        0 <= sender < peers.len(),
        peers[sender].wired(net),
        peers[sender].sent(net, instr, net_after),
    ensures
        net_after[peers[sender].inbox] == net[peers[sender].inbox],
        forall|j: int|
            0 <= j < peers.len() && j != sender ==> {
                let inbox = (#[trigger] peers[j]).inbox;
                &&& net_after[inbox].len() == net[inbox].len() + 1
                &&& net_after[inbox].drop_last() == net[inbox]
                &&& cloned(instr, net_after[inbox].last())
            },
{
    assert forall|j: int| 0 <= j < peers.len() && j != sender implies {
        let inbox = (#[trigger] peers[j]).inbox;
        &&& net_after[inbox].len() == net[inbox].len() + 1
        &&& net_after[inbox].drop_last() == net[inbox]
        &&& cloned(instr, net_after[inbox].last())
    } by {
        let inbox = peers[j].inbox;
        assert(peers[sender].outboxes.contains(inbox));
        let outboxes = peers[sender].outboxes;
        let k = choose|k: int| 0 <= k < outboxes.len() && outboxes[k] == inbox;
        assert(outboxes[k] == inbox);
    }
}

} // verus!
