//! The engine on two replicated types: a text that grows by one character at
//! a time, and a tally of amounts.

use otto_test::bridge::CrdtClientOtServer;
use otto_test::channel::{channel, Mailboxes, Receiver, Sender};
use otto_test::crdt_client::{choose_edit, plan_edit, CrdtClient, Edit, UNDO_ODDS};
use otto_test::ot_client::{Incoming, OtClient};
use otto_test::ot_server::{OtServer, Received};
use otto_test::replica::Replica;
use otto_test::state::State;
use rand::rngs::SmallRng;
use rand::{Rng, SeedableRng};
use std::fmt::Debug;

// ---------------------------------------------------------------------------
// A text.

#[derive(Clone, Debug, PartialEq, Eq)]
struct Text(String);

/// The author of an instruction that comes from no client of a server.
const NOBODY: usize = usize::MAX;

/// The insertion of `ch` before the character at position `pos`.
///
/// As a client sends it, `pos` counts the characters to the left that the
/// server has confirmed, and `left_of` says of each instruction in the
/// client's buffer whether its character stands to the left as well. As the
/// server commits it, `pos` is a position in the server's text.
#[derive(Clone, Debug, PartialEq, Eq)]
struct Insert {
    author: usize,
    pos: usize,
    ch: char,
    left_of: Vec<bool>,
}

fn insert(author: usize, pos: usize, ch: char) -> Insert {
    Insert { author, pos, ch, left_of: Vec::new() }
}

fn text(s: &str) -> Text {
    Text(s.to_string())
}

impl State for Text {
    type Instr = Insert;

    fn apply(&mut self, instr: &Insert) {
        let mut chars: Vec<char> = self.0.chars().collect();
        assert!(instr.pos <= chars.len(), "an instruction against another state");
        chars.insert(instr.pos, instr.ch);
        self.0 = chars.into_iter().collect();
    }

    fn insert_and_rebase_forward(instr: Insert, committed: &[Insert]) -> Insert {
        let mut pos = instr.pos;
        let mut own = 0;
        for entry in committed {
            if entry.author == instr.author {
                if instr.left_of[own] {
                    pos += 1;
                }
                own += 1;
            } else if entry.pos <= pos {
                pos += 1;
            }
        }
        assert_eq!(own, instr.left_of.len(), "rebased over another part of the log");
        insert(instr.author, pos, instr.ch)
    }

    fn insert_and_rebase_back(instr: Insert, pending: &[Insert]) -> Insert {
        let mut pos = instr.pos;
        let mut left_of = vec![false; pending.len()];
        for (i, entry) in pending.iter().enumerate().rev() {
            if entry.pos < pos {
                left_of[i] = true;
                pos -= 1;
            }
        }
        Insert { author: instr.author, pos, ch: instr.ch, left_of }
    }

    fn converge(instr: Insert, pending: &mut [Insert]) -> Insert {
        let mut pos = instr.pos;
        for entry in pending.iter_mut() {
            if entry.pos < pos {
                pos += 1;
            } else {
                entry.pos += 1;
            }
        }
        insert(instr.author, pos, instr.ch)
    }
}

/// The place of a character among all the characters that any replica ever
/// inserted: places compare as the characters stand.
type Place = Vec<(u16, u64)>;

/// A place after `left` and before `right`, which no other replica makes.
fn between(left: Option<&Place>, right: Option<&Place>, origin: u64) -> Place {
    let empty = Vec::new();
    let left = left.unwrap_or(&empty);
    let mut right = right;
    let mut place = Vec::new();
    let mut level = 0;
    loop {
        let lo = left.get(level).copied().unwrap_or((0, 0));
        let hi = right.and_then(|right| right.get(level).copied());
        let room = hi.map_or(1 << 16, |hi| hi.0 as u32) - lo.0 as u32;
        if Some(lo) == hi {
            place.push(lo);
        } else if room > 1 {
            place.push(((lo.0 as u32 + room / 2) as u16, origin));
            return place;
        } else {
            place.push(lo);
            right = None;
        }
        level += 1;
    }
}

/// A character with its place.
#[derive(Clone, Debug, PartialEq, Eq)]
struct Placed {
    place: Place,
    ch: char,
}

#[derive(Clone, Debug)]
struct TextReplica {
    state: Text,
    places: Vec<Place>,
    origin: u64,
    log: Vec<Placed>,
}

impl Replica for TextReplica {
    type State = Text;
    type CrdtInstr = Placed;

    fn new(state: Text) -> Self {
        // Replicas start from equal states, so the characters of the start
        // have the same places everywhere.
        let mut places: Vec<Place> = Vec::new();
        for _ in state.0.chars() {
            let next = between(places.last(), None, 1);
            places.push(next);
        }
        TextReplica { state, places, origin: rand::random::<u64>() | 2, log: Vec::new() }
    }

    fn state(&self) -> &Text {
        &self.state
    }

    fn log_len(&self) -> usize {
        self.log.len()
    }

    fn instr_to_crdt_instr(&self, instr: Insert) -> Placed {
        let left = if instr.pos == 0 { None } else { self.places.get(instr.pos - 1) };
        Placed { place: between(left, self.places.get(instr.pos), self.origin), ch: instr.ch }
    }

    fn instr_from_crdt_instr(&self, crdt_instr: Placed) -> Insert {
        let pos = self.places.partition_point(|place| *place < crdt_instr.place);
        assert!(self.places.get(pos) != Some(&crdt_instr.place), "the same character twice");
        insert(NOBODY, pos, crdt_instr.ch)
    }

    fn inverse(&self, _entry: usize) -> Option<Placed> {
        None
    }

    fn apply(&mut self, crdt_instr: Placed) {
        let instr = self.instr_from_crdt_instr(crdt_instr.clone());
        self.state.apply(&instr);
        self.places.insert(instr.pos, crdt_instr.place.clone());
        self.log.push(crdt_instr);
    }
}

// ---------------------------------------------------------------------------
// A tally.

/// The sum of all the amounts that were ever added.
#[derive(Clone, Debug, PartialEq, Eq)]
struct Tally(i64);

impl State for Tally {
    type Instr = i64;

    fn apply(&mut self, instr: &i64) {
        self.0 += *instr;
    }

    fn insert_and_rebase_forward(instr: i64, _committed: &[i64]) -> i64 {
        instr
    }

    fn insert_and_rebase_back(instr: i64, _pending: &[i64]) -> i64 {
        instr
    }

    fn converge(instr: i64, _pending: &mut [i64]) -> i64 {
        instr
    }
}

/// An amount with the replica and the sequence number that it comes from.
#[derive(Clone, Debug, PartialEq, Eq)]
struct Stamped {
    origin: u64,
    seq: u64,
    amount: i64,
}

#[derive(Clone, Debug)]
struct TallyReplica {
    state: Tally,
    origin: u64,
    next: u64,
    log: Vec<Stamped>,
}

impl TallyReplica {
    fn seen(&self, instr: &Stamped) -> bool {
        self.log.iter().any(|entry| entry.origin == instr.origin && entry.seq == instr.seq)
    }
}

impl Replica for TallyReplica {
    type State = Tally;
    type CrdtInstr = Stamped;

    fn new(state: Tally) -> Self {
        TallyReplica { state, origin: rand::random(), next: 0, log: Vec::new() }
    }

    fn state(&self) -> &Tally {
        &self.state
    }

    fn log_len(&self) -> usize {
        self.log.len()
    }

    fn instr_to_crdt_instr(&self, instr: i64) -> Stamped {
        Stamped { origin: self.origin, seq: self.next, amount: instr }
    }

    fn instr_from_crdt_instr(&self, crdt_instr: Stamped) -> i64 {
        if self.seen(&crdt_instr) {
            0
        } else {
            crdt_instr.amount
        }
    }

    fn inverse(&self, entry: usize) -> Option<Stamped> {
        let undone = self.log.get(entry)?;
        Some(Stamped { origin: self.origin, seq: self.next, amount: -undone.amount })
    }

    fn apply(&mut self, crdt_instr: Stamped) {
        let amount = self.instr_from_crdt_instr(crdt_instr.clone());
        self.state.apply(&amount);
        if !self.seen(&crdt_instr) {
            if crdt_instr.origin == self.origin {
                self.next = self.next.max(crdt_instr.seq + 1);
            }
            self.log.push(crdt_instr);
        }
    }
}

// ---------------------------------------------------------------------------
// Random states and instructions.

trait Trial: State + Clone + Debug + PartialEq {
    fn gen(rng: &mut SmallRng) -> Self;
    fn gen_trivial_instr(&self, author: usize, rng: &mut SmallRng) -> Self::Instr;
}

impl Trial for Text {
    fn gen(rng: &mut SmallRng) -> Self {
        Text((0..rng.gen_range(0..4)).map(|_| rng.gen_range('a'..='z')).collect())
    }

    fn gen_trivial_instr(&self, author: usize, rng: &mut SmallRng) -> Insert {
        insert(author, rng.gen_range(0..self.0.chars().count() + 1), rng.gen_range('a'..='z'))
    }
}

impl Trial for Tally {
    fn gen(rng: &mut SmallRng) -> Self {
        Tally(rng.gen_range(-100..100))
    }

    fn gen_trivial_instr(&self, _author: usize, rng: &mut SmallRng) -> i64 {
        rng.gen_range(-9..10)
    }
}

/// The stamped instruction that `edit` stands for: a random new instruction,
/// also where the replica has no inverse to offer.
fn originate<R>(replica: &R, edit: Edit, rng: &mut SmallRng) -> R::CrdtInstr
where
    R: Replica,
    R::State: Trial,
{
    let undo = match edit {
        Edit::Fresh => None,
        Edit::Undo { entry } => replica.inverse(entry),
    };
    undo.unwrap_or_else(|| {
        let instr = replica.state().gen_trivial_instr(NOBODY, rng);
        replica.instr_to_crdt_instr(instr)
    })
}

// ---------------------------------------------------------------------------
// A server and its clients.

struct Table<T: State> {
    net: Mailboxes<Option<T::Instr>>,
    server: OtServer<T>,
    clients: Vec<OtClient<T>>,
    /// The server's end of the mailbox to each client, and the client's end.
    down: Vec<(Sender<Option<T::Instr>>, Receiver<Option<T::Instr>>)>,
    /// The client's end of the mailbox to the server, and the server's end.
    up: Vec<(Sender<Option<T::Instr>>, Receiver<Option<T::Instr>>)>,
}

/// One server and `n` clients that start from `start`. Client `k` receives
/// through mailbox `2 * k` and sends through mailbox `2 * k + 1`.
fn table<T: State + Clone>(n: usize, start: &T) -> Table<T> {
    let mut net = Mailboxes::new();
    let mut clients = Vec::new();
    let mut channels = Vec::new();
    let mut down = Vec::new();
    let mut up = Vec::new();
    for _ in 0..n {
        let (to_client, from_server) = channel(&mut net);
        let (to_server, from_client) = channel(&mut net);
        down.push((to_client.clone(), from_server.clone()));
        up.push((to_server.clone(), from_client.clone()));
        clients.push(OtClient::new(start.clone(), from_server, to_server));
        channels.push((to_client, from_client));
    }
    let server = OtServer::new(channels);
    Table { net, server, clients, down, up }
}

/// What waits in a mailbox, front first. The mailbox stays as it is.
fn waiting<M: Clone>(ends: &(Sender<M>, Receiver<M>), net: &mut Mailboxes<M>) -> Vec<M> {
    let mut seen = Vec::new();
    while let Some(msg) = ends.1.try_receive(net) {
        seen.push(msg);
    }
    for msg in &seen {
        ends.0.send(net, msg.clone());
    }
    seen
}

#[test]
fn two_clients_insert_at_the_same_place() {
    let mut rng = SmallRng::seed_from_u64(7);
    let mut t = table(2, &text(""));

    // The first client sends its insertion; before it receives that, the
    // second client sends another at the same place.
    t.clients[0].gen_and_send(&mut t.net, insert(0, 0, 'a'));
    t.clients[1].gen_and_send(&mut t.net, insert(1, 0, 'b'));
    assert_eq!(t.clients[0].state(), &text("a"));
    assert_eq!(t.clients[1].state(), &text("b"));

    // The server takes the first client's insertion first.
    assert_eq!(
        t.server.recv_from(&mut t.net, 0),
        Received::Edit { client: 0, instr: insert(0, 0, 'a') }
    );
    let rebased = Text::insert_and_rebase_forward(insert(0, 0, 'a'), t.server.unacknowledged(0));
    assert_eq!(rebased, insert(0, 0, 'a'));
    t.server.commit(&mut t.net, 0, rebased);
    assert_eq!(t.server.unacknowledged(0).to_vec(), vec![insert(0, 0, 'a')]);
    assert_eq!(waiting(&t.down[0], &mut t.net), vec![None]);
    assert_eq!(waiting(&t.down[1], &mut t.net), vec![Some(insert(0, 0, 'a'))]);

    // It then rebases the second client's insertion forward over that entry.
    assert!(t.server.in_order(&t.net));
    assert!(t.server.try_recv_and_send(&mut t.net, &mut rng));
    assert_eq!(
        t.server.unacknowledged(1).to_vec(),
        vec![insert(0, 0, 'a'), insert(1, 1, 'b')]
    );
    assert_eq!(waiting(&t.down[0], &mut t.net), vec![None, Some(insert(1, 1, 'b'))]);
    assert_eq!(waiting(&t.down[1], &mut t.net), vec![Some(insert(0, 0, 'a')), None]);
    assert!(!t.server.try_recv_and_send(&mut t.net, &mut rng));
    assert!(!t.server.drained());

    // Both acknowledgments drain.
    while !t.clients.iter().all(|client| client.drained(&t.net)) {
        for client in t.clients.iter_mut() {
            assert!(client.in_order(&t.net));
            client.try_recv_and_commit(&mut t.net);
        }
        assert!(t.server.in_order(&t.net));
        t.server.try_recv_and_send(&mut t.net, &mut rng);
    }
    assert_eq!(t.clients[0].state(), &text("ab"));
    assert_eq!(t.clients[1].state(), &text("ab"));
    assert!(t.server.drained());
    assert!(t.net.all_empty());
}

#[test]
fn client_keeps_what_it_sent_until_acknowledged() {
    let mut t = table(1, &text("xy"));
    let client = &mut t.clients[0];
    assert_eq!(client.pending().to_vec(), Vec::<Insert>::new());
    client.gen_and_send(&mut t.net, insert(0, 1, 'a'));
    client.gen_and_send(&mut t.net, insert(0, 1, 'b'));
    client.gen_and_send(&mut t.net, insert(0, 4, 'c'));
    assert_eq!(client.state(), &text("xbayc"));
    // The buffer holds each instruction as it was applied.
    assert_eq!(
        client.pending().to_vec(),
        vec![insert(0, 1, 'a'), insert(0, 1, 'b'), insert(0, 4, 'c')]
    );
    // The server reads each as written against the text "xy".
    assert_eq!(
        waiting(&t.up[0], &mut t.net),
        vec![
            Some(insert(0, 1, 'a')),
            Some(Insert { author: 0, pos: 1, ch: 'b', left_of: vec![false] }),
            Some(Insert { author: 0, pos: 2, ch: 'c', left_of: vec![true, true] }),
        ]
    );
    assert!(!t.clients[0].drained(&t.net));
}

#[test]
fn client_steps_one_by_one() {
    let mut t = table(1, &text(""));
    let client = &mut t.clients[0];
    assert_eq!(client.receive(&mut t.net), Incoming::Nothing);
    assert!(!client.try_recv_and_commit(&mut t.net));
    assert!(client.drained(&t.net));

    client.record_and_send(&mut t.net, insert(0, 0, 'p'), insert(0, 0, 'q'));
    assert_eq!(client.pending().to_vec(), vec![insert(0, 0, 'p')]);
    assert_eq!(client.state(), &text(""));
    assert_eq!(
        t.server.recv_from(&mut t.net, 0),
        Received::Edit { client: 0, instr: insert(0, 0, 'q') }
    );

    // A foreign instruction is handed back as it came and acknowledged.
    t.down[0].0.send(&mut t.net, Some(insert(9, 0, 'z')));
    assert!(client.in_order(&t.net));
    assert_eq!(client.receive(&mut t.net), Incoming::Foreign(insert(9, 0, 'z')));
    assert_eq!(client.pending().to_vec(), vec![insert(0, 0, 'p')]);
    assert_eq!(waiting(&t.up[0], &mut t.net), vec![None]);
    // Whoever took it converges it with the buffer.
    assert_eq!(Text::converge(insert(9, 0, 'z'), client.pending_mut()), insert(9, 0, 'z'));
    assert_eq!(client.pending().to_vec(), vec![insert(0, 1, 'p')]);

    // An acknowledgment releases the oldest instruction.
    t.down[0].0.send(&mut t.net, None);
    assert!(client.in_order(&t.net));
    assert_eq!(client.receive(&mut t.net), Incoming::Acknowledged);
    assert_eq!(client.pending().to_vec(), Vec::<Insert>::new());
    assert_eq!(waiting(&t.up[0], &mut t.net), vec![None, None]);

    // An acknowledgment that answers nothing is out of order.
    t.down[0].0.send(&mut t.net, None);
    assert!(!client.in_order(&t.net));
}

#[test]
fn foreign_instruction_is_converged_with_the_buffer() {
    let mut t = table(1, &text(""));
    let client = &mut t.clients[0];
    client.gen_and_send(&mut t.net, insert(0, 0, 'a'));
    client.gen_and_send(&mut t.net, insert(0, 1, 'c'));
    t.down[0].0.send(&mut t.net, Some(insert(1, 0, 'z')));
    assert!(client.try_recv_and_commit(&mut t.net));
    assert_eq!(client.state(), &text("zac"));
    // The buffer now follows the foreign instruction.
    assert_eq!(client.pending().to_vec(), vec![insert(0, 1, 'a'), insert(0, 2, 'c')]);
    // The next local instruction is rebased back over the buffer as it is now.
    client.gen_and_send(&mut t.net, insert(0, 2, 'b'));
    assert_eq!(client.state(), &text("zabc"));
    assert_eq!(
        waiting(&t.up[0], &mut t.net).last(),
        Some(&Some(Insert { author: 0, pos: 1, ch: 'b', left_of: vec![true, false] }))
    );
}

#[test]
fn server_counts_acknowledgments_and_trims() {
    let mut rng = SmallRng::seed_from_u64(3);
    let mut t = table(3, &text(""));
    assert_eq!(t.server.client_count(), 3);
    assert!(t.server.drained());
    assert_eq!(t.server.ready(&t.net), Vec::<usize>::new());
    assert!(!t.server.try_recv_and_send(&mut t.net, &mut rng));

    t.server.publish(&mut t.net, insert(NOBODY, 0, 'a'));
    t.server.publish(&mut t.net, insert(NOBODY, 1, 'b'));
    t.server.publish(&mut t.net, insert(NOBODY, 2, 'c'));
    let (a, b, c) = (insert(NOBODY, 0, 'a'), insert(NOBODY, 1, 'b'), insert(NOBODY, 2, 'c'));
    assert!(!t.server.drained());
    for k in 0..3 {
        assert_eq!(t.server.unacknowledged(k).to_vec(), vec![a.clone(), b.clone(), c.clone()]);
        assert_eq!(
            waiting(&t.down[k], &mut t.net),
            vec![Some(a.clone()), Some(b.clone()), Some(c.clone())]
        );
    }

    // The first client acknowledges two entries, the second one: nothing
    // can go yet.
    t.server.acknowledge(0);
    t.server.acknowledge(0);
    t.server.acknowledge(1);
    assert_eq!(t.server.unacknowledged(0).to_vec(), vec![c.clone()]);
    assert_eq!(t.server.unacknowledged(1).to_vec(), vec![b.clone(), c.clone()]);
    assert_eq!(t.server.unacknowledged(2).to_vec(), vec![a.clone(), b.clone(), c.clone()]);

    // The third client acknowledges one entry: the first entry has gone,
    // and each client is left with what it had not acknowledged.
    t.server.acknowledge(2);
    assert_eq!(t.server.unacknowledged(0).to_vec(), vec![c.clone()]);
    assert_eq!(t.server.unacknowledged(1).to_vec(), vec![b.clone(), c.clone()]);
    assert_eq!(t.server.unacknowledged(2).to_vec(), vec![b.clone(), c.clone()]);

    // Acknowledgments that arrive through the mailboxes count the same way.
    t.up[1].0.send(&mut t.net, None);
    t.up[2].0.send(&mut t.net, None);
    t.up[2].0.send(&mut t.net, None);
    assert_eq!(t.server.ready(&t.net), vec![1, 2]);
    assert_eq!(t.server.recv_from(&mut t.net, 1), Received::Acknowledged { client: 1 });
    assert_eq!(t.server.recv_from(&mut t.net, 1), Received::Nothing);
    assert!(t.server.try_recv_and_send(&mut t.net, &mut rng));
    assert!(t.server.try_recv_and_send(&mut t.net, &mut rng));
    assert!(!t.server.try_recv_and_send(&mut t.net, &mut rng));
    assert_eq!(t.server.unacknowledged(0).to_vec(), vec![c.clone()]);
    assert_eq!(t.server.unacknowledged(1).to_vec(), vec![c.clone()]);
    assert_eq!(t.server.unacknowledged(2).to_vec(), Vec::<Insert>::new());
    t.server.acknowledge(0);
    assert!(!t.server.drained());
    t.server.acknowledge(1);
    assert!(t.server.drained());
    t.server.trim();
    assert!(t.server.drained());
}

#[test]
fn trimming_changes_no_rebase() {
    let mut rng = SmallRng::seed_from_u64(17);
    for _ in 0..200 {
        let n = rng.gen_range(1..5);
        let mut t = table(n, &Tally(0));
        let mut offsets = vec![0; n];
        let mut log: Vec<i64> = Vec::new();
        let mut dropped = 0;
        for amount in 0..rng.gen_range(1..30) {
            if rng.gen_range(0..3) == 0 {
                t.server.publish(&mut t.net, amount);
                log.push(amount);
            } else {
                let k = rng.gen_range(0..n);
                if offsets[k] < log.len() {
                    offsets[k] += 1;
                    t.server.acknowledge(k);
                }
            }
            // What a client's next instruction is rebased over is what the
            // client has not acknowledged, however much of the log has gone.
            for k in 0..n {
                assert_eq!(t.server.unacknowledged(k).to_vec(), log[offsets[k]..].to_vec());
            }
            let gone = *offsets.iter().min().unwrap();
            assert!(gone >= dropped);
            dropped = gone;
            assert_eq!(t.server.drained(), gone == log.len());
        }
    }
}

#[test]
fn server_tells_what_is_out_of_order() {
    let mut t = table(2, &text(""));
    assert!(t.server.in_order(&t.net));
    // An acknowledgment for an empty log.
    t.up[0].0.send(&mut t.net, None);
    assert!(!t.server.in_order(&t.net));
    t.server.publish(&mut t.net, insert(NOBODY, 0, 'a'));
    assert!(t.server.in_order(&t.net));

    // A server whose mailboxes are not mailboxes of the network.
    let empty: Mailboxes<Option<Insert>> = Mailboxes::new();
    assert!(!t.server.in_order(&empty));
    assert!(!t.clients[0].in_order(&empty));

    // A server with one mailbox for two clients.
    let mut net: Mailboxes<Option<Insert>> = Mailboxes::new();
    let (down, _) = channel(&mut net);
    let (_, up_a) = channel(&mut net);
    let (_, up_b) = channel(&mut net);
    let twice: OtServer<Text> = OtServer::new(vec![(down.clone(), up_a), (down, up_b)]);
    assert!(!twice.in_order(&net));
}

#[test]
fn server_picks_only_clients_that_sent() {
    let mut rng = SmallRng::seed_from_u64(11);
    for _ in 0..50 {
        let mut t = table(4, &text(""));
        t.clients[2].gen_and_send(&mut t.net, insert(2, 0, 'x'));
        assert_eq!(t.server.ready(&t.net), vec![2]);
        assert_eq!(
            t.server.try_recv(&mut t.net, &mut rng),
            Received::Edit { client: 2, instr: insert(2, 0, 'x') }
        );
        assert_eq!(t.server.try_recv(&mut t.net, &mut rng), Received::Nothing);
    }
    // Every client that has sent is picked sooner or later.
    let mut picked = [false; 4];
    for _ in 0..200 {
        let mut t = table(4, &text(""));
        for k in [0, 1, 3] {
            t.clients[k].gen_and_send(&mut t.net, insert(k, 0, 'x'));
        }
        match t.server.try_recv(&mut t.net, &mut rng) {
            Received::Edit { client, .. } => picked[client] = true,
            other => panic!("{other:?}"),
        }
    }
    assert_eq!(picked, [true, true, false, true]);
}

fn test_ot<T: Trial>(rng: &mut SmallRng) {
    let clients = 5;
    let mut iters = 100usize;
    let start = T::gen(rng);
    let mut t = table(clients, &start);
    while iters != 0 || !t.clients.iter().all(|client| client.drained(&t.net)) {
        loop {
            let author = rng.gen_range(0..clients);
            match rng.gen_range(0..3) {
                0 => {
                    if iters == 0 {
                        continue;
                    }
                    let client = &mut t.clients[author];
                    let instr = client.state().gen_trivial_instr(author, rng);
                    client.gen_and_send(&mut t.net, instr);
                }
                1 => {
                    assert!(t.server.in_order(&t.net));
                    if !t.server.try_recv_and_send(&mut t.net, rng) {
                        continue;
                    }
                }
                _ => {
                    let client = &mut t.clients[author];
                    assert!(client.in_order(&t.net));
                    if !client.try_recv_and_commit(&mut t.net) {
                        continue;
                    }
                }
            }
            break;
        }
        iters = iters.saturating_sub(1);
    }
    let first = t.clients[0].state();
    assert!(t.clients.iter().all(|client| client.state() == first));
    assert!(t.server.drained());
    assert!(t.net.all_empty());
}

#[test]
fn fuzz_ot_short() {
    let seed = rand::random();
    println!("seed: {seed}");
    let rng = &mut SmallRng::seed_from_u64(seed);
    for _ in 0..100 {
        test_ot::<Text>(rng);
        test_ot::<Tally>(rng);
    }
}

// ---------------------------------------------------------------------------
// A mesh of CRDT clients.

type Ends<M> = (Sender<M>, Receiver<M>);

/// A mesh of `n` clients that start from `start`: client `k` receives
/// through mailbox `k` and sends to every other mailbox.
fn mesh<R>(n: usize, start: &R::State) -> (Mailboxes<R::CrdtInstr>, Vec<CrdtClient<R>>, Vec<Ends<R::CrdtInstr>>)
where
    R: Replica,
    R::State: Clone,
{
    let mut net = Mailboxes::new();
    let ends: Vec<Ends<R::CrdtInstr>> = (0..n).map(|_| channel(&mut net)).collect();
    let clients = (0..n)
        .map(|i| {
            let outboxes = (0..n).filter(|j| *j != i).map(|j| ends[j].0.clone()).collect();
            CrdtClient::new(start.clone(), ends[i].1.clone(), outboxes)
        })
        .collect();
    (net, clients, ends)
}

#[test]
fn plan_edit_follows_the_draws() {
    assert_eq!(plan_edit(0, 0, 0), Edit::Fresh);
    assert_eq!(plan_edit(0, 3, 0), Edit::Fresh);
    assert_eq!(plan_edit(4, 1, 2), Edit::Fresh);
    assert_eq!(plan_edit(4, 4, 3), Edit::Fresh);
    assert_eq!(plan_edit(4, 0, 2), Edit::Undo { entry: 2 });
    assert_eq!(plan_edit(1, 0, 0), Edit::Undo { entry: 0 });
    assert_eq!(UNDO_ODDS, 5);
}

#[test]
fn choose_edit_stays_within_the_log() {
    let mut rng = SmallRng::seed_from_u64(5);
    for _ in 0..200 {
        assert_eq!(choose_edit(0, &mut rng), Edit::Fresh);
    }
    let mut undone = [0usize; 3];
    let mut fresh = 0;
    for _ in 0..3000 {
        match choose_edit(3, &mut rng) {
            Edit::Fresh => fresh += 1,
            Edit::Undo { entry } => undone[entry] += 1,
        }
    }
    // About four edits in five are new instructions, and every entry of the
    // log is undone now and then.
    assert!(fresh > 2100 && fresh < 2700, "{fresh}");
    assert!(undone.iter().all(|n| *n > 100), "{undone:?}");
}

#[test]
fn an_edit_reaches_every_peer_once() {
    let (mut net, mut clients, ends) = mesh::<TallyReplica>(3, &Tally(10));
    assert!(clients.iter().all(|client| client.in_order(&net)));
    let instr = clients[1].stamp(5);
    clients[1].gen_and_send(&mut net, instr.clone());
    assert_eq!(clients[1].state(), &Tally(15));
    assert_eq!(clients[1].crdt().log_len(), 1);
    assert_eq!(waiting(&ends[0], &mut net), vec![instr.clone()]);
    assert_eq!(waiting(&ends[1], &mut net), vec![]);
    assert_eq!(waiting(&ends[2], &mut net), vec![instr.clone()]);
    assert!(clients[1].drained(&net));
    assert!(!clients[0].drained(&net));

    assert_eq!(clients[2].receive(&mut net), Some(instr.clone()));
    assert_eq!(clients[2].receive(&mut net), None);
    assert_eq!(clients[2].state(), &Tally(10));
    clients[2].integrate(instr);
    assert_eq!(clients[2].state(), &Tally(15));

    assert!(clients[0].try_recv_and_commit(&mut net));
    assert!(!clients[0].try_recv_and_commit(&mut net));
    assert_eq!(clients[0].state(), &Tally(15));
    assert!(net.all_empty());
}

#[test]
fn send_copies_to_the_outboxes_only() {
    let (mut net, clients, ends) = mesh::<TallyReplica>(4, &Tally(0));
    let instr = clients[0].stamp(7);
    clients[0].send(&mut net, &instr);
    clients[0].send(&mut net, &instr);
    assert_eq!(clients[0].state(), &Tally(0));
    assert_eq!(waiting(&ends[0], &mut net), vec![]);
    for k in 1..4 {
        assert_eq!(waiting(&ends[k], &mut net), vec![instr.clone(), instr.clone()]);
    }
}

#[test]
fn a_client_out_of_order_is_told_apart() {
    let (net, clients, _) = mesh::<TallyReplica>(2, &Tally(0));
    assert!(clients[0].in_order(&net));
    let empty: Mailboxes<Stamped> = Mailboxes::new();
    assert!(!clients[0].in_order(&empty));
    let mut net = Mailboxes::new();
    let (outbox, inbox) = channel(&mut net);
    let twice: CrdtClient<TallyReplica> =
        CrdtClient::new(Tally(0), inbox, vec![outbox.clone(), outbox]);
    assert!(!twice.in_order(&net));
}

#[test]
fn next_edit_names_an_entry_of_the_log() {
    let mut rng = SmallRng::seed_from_u64(9);
    let (mut net, mut clients, _) = mesh::<TallyReplica>(2, &Tally(0));
    for _ in 0..50 {
        assert_eq!(clients[0].next_edit(&mut rng), Edit::Fresh);
    }
    for amount in 1..4 {
        let instr = clients[0].stamp(amount);
        clients[0].gen_and_send(&mut net, instr);
    }
    let mut undos = 0;
    for _ in 0..500 {
        match clients[0].next_edit(&mut rng) {
            Edit::Fresh => {}
            Edit::Undo { entry } => {
                assert!(entry < 3);
                undos += 1;
            }
        }
    }
    assert!(undos > 50, "{undos}");
}

#[test]
fn stamping_and_reading_back_is_the_instruction_itself() {
    let (_, clients, _) = mesh::<TextReplica>(1, &text("abc"));
    for pos in 0..4 {
        let stamped = clients[0].stamp(insert(NOBODY, pos, 'x'));
        assert_eq!(clients[0].localize(stamped), insert(NOBODY, pos, 'x'));
    }
    let (_, clients, _) = mesh::<TallyReplica>(1, &Tally(3));
    let stamped = clients[0].stamp(-4);
    assert_eq!(clients[0].localize(stamped), -4);
}

#[test]
fn the_same_instruction_twice_counts_once() {
    let (mut net, mut clients, _) = mesh::<TallyReplica>(2, &Tally(0));
    let instr = clients[0].stamp(4);
    clients[0].gen_and_send(&mut net, instr.clone());
    assert!(clients[1].try_recv_and_commit(&mut net));
    clients[1].integrate(instr.clone());
    clients[1].integrate(instr);
    assert_eq!(clients[1].state(), &Tally(4));
    assert_eq!(clients[1].crdt().log_len(), 1);
    assert_eq!(clients[0].state(), clients[1].state());
}

#[test]
fn an_undo_restores_what_was_there() {
    let (mut net, mut clients, _) = mesh::<TallyReplica>(2, &Tally(1));
    assert_eq!(clients[0].undo(0), None);
    let first = clients[0].stamp(5);
    clients[0].gen_and_send(&mut net, first);
    let second = clients[0].stamp(-2);
    clients[0].gen_and_send(&mut net, second);
    assert_eq!(clients[0].state(), &Tally(4));
    assert_eq!(clients[0].crdt().log_len(), 2);
    assert_eq!(clients[0].undo(2), None);

    // Undoing the second entry restores what the first had made, and
    // undoing the first then restores the start.
    let undo = clients[0].undo(1).unwrap();
    clients[0].gen_and_send(&mut net, undo);
    assert_eq!(clients[0].state(), &Tally(6));
    let undo = clients[0].undo(0).unwrap();
    clients[0].gen_and_send(&mut net, undo);
    assert_eq!(clients[0].state(), &Tally(1));

    while clients[1].try_recv_and_commit(&mut net) {}
    assert_eq!(clients[1].state(), &Tally(1));
    assert_eq!(clients[1].crdt().log_len(), 4);
}

#[test]
fn any_order_of_arrival_gives_the_same_text() {
    let mut rng = SmallRng::seed_from_u64(23);
    for _ in 0..100 {
        let start = Text::gen(&mut rng);
        let mut author = TextReplica::new(start.clone());
        let mut instrs = Vec::new();
        for _ in 0..rng.gen_range(1..8) {
            let instr = originate(&author, Edit::Fresh, &mut rng);
            author.apply(instr.clone());
            instrs.push(instr);
        }
        // Another replica integrates the same instructions in another order.
        let (mut net, mut clients, _) = mesh::<TextReplica>(1, &start);
        while !instrs.is_empty() {
            let instr = instrs.swap_remove(rng.gen_range(0..instrs.len()));
            clients[0].integrate(instr);
        }
        assert_eq!(clients[0].state(), author.state());
        assert!(!clients[0].try_recv_and_commit(&mut net));
    }
}

fn test_crdt<R>(rng: &mut SmallRng)
where
    R: Replica,
    R::State: Trial,
{
    let n = 5;
    let mut iters = 16usize;
    let start = <R::State as Trial>::gen(rng);
    let (mut net, mut clients, _) = mesh::<R>(n, &start);
    while iters != 0 || !clients.iter().all(|client| client.drained(&net)) {
        loop {
            let client = &mut clients[rng.gen_range(0..n)];
            assert!(client.in_order(&net));
            match rng.gen_range(0..2) {
                0 => {
                    if iters == 0 {
                        continue;
                    }
                    let edit = client.next_edit(rng);
                    let instr = originate(client.crdt(), edit, rng);
                    client.gen_and_send(&mut net, instr);
                }
                _ => {
                    if !client.try_recv_and_commit(&mut net) {
                        continue;
                    }
                }
            }
            break;
        }
        iters = iters.saturating_sub(1);
    }
    let first = clients[0].state();
    assert!(clients.iter().all(|client| client.state() == first));
    let entries = clients[0].crdt().log_len();
    assert!(clients.iter().all(|client| client.crdt().log_len() == entries));
}

#[test]
fn fuzz_crdt_short() {
    let seed = rand::random();
    println!("seed: {seed}");
    let rng = &mut SmallRng::seed_from_u64(seed);
    for _ in 0..100 {
        test_crdt::<TextReplica>(rng);
        test_crdt::<TallyReplica>(rng);
    }
}

// ---------------------------------------------------------------------------
// A bridge between a mesh and the clients of its server.

struct Town<R: Replica> {
    crdt_net: Mailboxes<R::CrdtInstr>,
    ot_net: Mailboxes<Option<<R::State as State>::Instr>>,
    bridge: CrdtClientOtServer<R>,
    peers: Vec<CrdtClient<R>>,
    clients: Vec<OtClient<R::State>>,
    /// The mailbox of each peer, and last that of the bridge.
    inboxes: Vec<Ends<R::CrdtInstr>>,
    down: Vec<Ends<Option<<R::State as State>::Instr>>>,
    up: Vec<Ends<Option<<R::State as State>::Instr>>>,
}

/// A bridge between `n_peers` CRDT clients and `n_clients` clients of its
/// server, all of which start from `start`.
fn town<R>(n_peers: usize, n_clients: usize, start: &R::State) -> Town<R>
where
    R: Replica,
    R::State: Clone,
{
    let Table { net: ot_net, server: _, clients, down, up } = table(n_clients, start);
    let channels = (0..n_clients).map(|k| (down[k].0.clone(), up[k].1.clone())).collect();
    let mut crdt_net = Mailboxes::new();
    let inboxes: Vec<Ends<R::CrdtInstr>> =
        (0..n_peers + 1).map(|_| channel(&mut crdt_net)).collect();
    let bridge = CrdtClientOtServer::new(
        start.clone(),
        inboxes[n_peers].1.clone(),
        inboxes[..n_peers].iter().map(|ends| ends.0.clone()).collect(),
        channels,
    );
    let peers = (0..n_peers)
        .map(|i| {
            let outboxes =
                (0..n_peers + 1).filter(|j| *j != i).map(|j| inboxes[j].0.clone()).collect();
            CrdtClient::new(start.clone(), inboxes[i].1.clone(), outboxes)
        })
        .collect();
    Town { crdt_net, ot_net, bridge, peers, clients, inboxes, down, up }
}

#[test]
fn an_edit_of_the_bridge_reaches_both_sides() {
    let mut t = town::<TallyReplica>(2, 2, &Tally(100));
    assert!(t.bridge.in_order(&t.crdt_net, &t.ot_net));
    assert!(t.bridge.drained(&t.crdt_net));
    let instr = t.bridge.stamp(5);
    t.bridge.gen_and_send(&mut t.crdt_net, &mut t.ot_net, instr.clone());
    assert_eq!(t.bridge.state(), &Tally(105));
    assert_eq!(t.bridge.crdt().log, vec![instr.clone()]);
    assert!(!t.bridge.drained(&t.crdt_net));
    assert_eq!(waiting(&t.inboxes[0], &mut t.crdt_net), vec![instr.clone()]);
    assert_eq!(waiting(&t.inboxes[1], &mut t.crdt_net), vec![instr.clone()]);
    assert_eq!(waiting(&t.inboxes[2], &mut t.crdt_net), vec![]);
    assert_eq!(waiting(&t.down[0], &mut t.ot_net), vec![Some(5)]);
    assert_eq!(waiting(&t.down[1], &mut t.ot_net), vec![Some(5)]);
    assert_eq!(t.bridge.unacknowledged(1).to_vec(), vec![5]);
    assert_eq!(t.bridge.undo(0).map(|undo| undo.amount), Some(-5));
}

#[test]
fn an_edit_of_a_peer_reaches_the_clients_of_the_server() {
    let mut rng = SmallRng::seed_from_u64(1);
    let mut t = town::<TextReplica>(2, 2, &text("ab"));
    let instr = t.peers[0].stamp(insert(NOBODY, 1, 'x'));
    t.peers[0].gen_and_send(&mut t.crdt_net, instr.clone());
    assert!(!t.bridge.drained(&t.crdt_net));
    assert!(t.bridge.try_recv_and_commit(&mut t.crdt_net, &mut t.ot_net));
    assert!(!t.bridge.try_recv_and_commit(&mut t.crdt_net, &mut t.ot_net));
    assert_eq!(t.bridge.state(), &text("axb"));
    // The other peer has it from the first peer, not from the bridge.
    assert_eq!(waiting(&t.inboxes[1], &mut t.crdt_net), vec![instr]);
    for k in 0..2 {
        assert_eq!(waiting(&t.down[k], &mut t.ot_net), vec![Some(insert(NOBODY, 1, 'x'))]);
        assert!(t.clients[k].try_recv_and_commit(&mut t.ot_net));
        assert_eq!(t.clients[k].state(), &text("axb"));
    }
    // Both clients have acknowledged, and the log of the server empties.
    assert!(t.bridge.in_order(&t.crdt_net, &t.ot_net));
    assert!(t.bridge.try_recv_and_send(&mut t.crdt_net, &mut t.ot_net, &mut rng));
    assert!(!t.bridge.drained(&t.crdt_net));
    assert!(t.bridge.try_recv_and_send(&mut t.crdt_net, &mut t.ot_net, &mut rng));
    assert!(!t.bridge.try_recv_and_send(&mut t.crdt_net, &mut t.ot_net, &mut rng));
    assert!(t.bridge.drained(&t.crdt_net));
}

#[test]
fn an_edit_of_a_client_reaches_the_peers() {
    let mut rng = SmallRng::seed_from_u64(2);
    let mut t = town::<TextReplica>(2, 2, &text("ab"));
    // The bridge commits an insertion that the client has not seen yet.
    let ahead = t.bridge.stamp(insert(NOBODY, 0, 'z'));
    t.bridge.gen_and_send(&mut t.crdt_net, &mut t.ot_net, ahead.clone());
    t.clients[1].gen_and_send(&mut t.ot_net, insert(1, 1, 'x'));
    assert_eq!(t.clients[1].state(), &text("axb"));
    assert!(t.bridge.try_recv_and_send(&mut t.crdt_net, &mut t.ot_net, &mut rng));
    assert_eq!(t.bridge.state(), &text("zaxb"));
    assert_eq!(
        t.bridge.unacknowledged(0).to_vec(),
        vec![insert(NOBODY, 0, 'z'), insert(1, 2, 'x')]
    );
    // The peers receive both in their stamped form.
    let stamped = waiting(&t.inboxes[0], &mut t.crdt_net);
    assert_eq!(stamped.len(), 2);
    assert_eq!(stamped[0], ahead);
    assert_eq!(stamped[1].ch, 'x');
    assert_eq!(stamped, t.bridge.crdt().log);
    assert_eq!(waiting(&t.inboxes[1], &mut t.crdt_net), stamped);
    while t.peers[0].try_recv_and_commit(&mut t.crdt_net) {}
    assert_eq!(t.peers[0].state(), &text("zaxb"));
    // The other client receives the rebased form, the sender an
    // acknowledgment.
    assert_eq!(
        waiting(&t.down[0], &mut t.ot_net),
        vec![Some(insert(NOBODY, 0, 'z')), Some(insert(1, 2, 'x'))]
    );
    assert_eq!(waiting(&t.down[1], &mut t.ot_net), vec![Some(insert(NOBODY, 0, 'z')), None]);
    while t.clients[1].try_recv_and_commit(&mut t.ot_net) {}
    assert_eq!(t.clients[1].state(), &text("zaxb"));
    // An acknowledgment for an entry that is not there is out of order.
    t.up[0].0.send(&mut t.ot_net, None);
    t.up[0].0.send(&mut t.ot_net, None);
    t.up[0].0.send(&mut t.ot_net, None);
    assert!(t.bridge.in_order(&t.crdt_net, &t.ot_net));
    while t.bridge.in_order(&t.crdt_net, &t.ot_net)
        && t.bridge.try_recv_and_send(&mut t.crdt_net, &mut t.ot_net, &mut rng)
    {}
    assert!(!t.bridge.in_order(&t.crdt_net, &t.ot_net));
}

fn test_crdt_ot<R>(rng: &mut SmallRng)
where
    R: Replica,
    R::State: Trial,
{
    let n_peers = 5;
    let n_clients = 6;
    let mut iters = 50usize;
    let start = <R::State as Trial>::gen(rng);
    let mut t = town::<R>(n_peers, n_clients, &start);
    while iters != 0
        || !t.peers.iter().all(|peer| peer.drained(&t.crdt_net))
        || !t.bridge.drained(&t.crdt_net)
        || !t.clients.iter().all(|client| client.drained(&t.ot_net))
    {
        loop {
            let peer = &mut t.peers[rng.gen_range(0..n_peers)];
            let author = rng.gen_range(0..n_clients);
            let client = &mut t.clients[author];
            assert!(t.bridge.in_order(&t.crdt_net, &t.ot_net));
            assert!(client.in_order(&t.ot_net));
            match rng.gen_range(0..7) {
                0 => {
                    if iters == 0 {
                        continue;
                    }
                    let edit = peer.next_edit(rng);
                    let instr = originate(peer.crdt(), edit, rng);
                    peer.gen_and_send(&mut t.crdt_net, instr);
                }
                1 => {
                    if !peer.try_recv_and_commit(&mut t.crdt_net) {
                        continue;
                    }
                }
                2 => {
                    if iters == 0 {
                        continue;
                    }
                    let edit = t.bridge.next_edit(rng);
                    let instr = originate(t.bridge.crdt(), edit, rng);
                    t.bridge.gen_and_send(&mut t.crdt_net, &mut t.ot_net, instr);
                }
                3 => {
                    if !t.bridge.try_recv_and_send(&mut t.crdt_net, &mut t.ot_net, rng) {
                        continue;
                    }
                }
                4 => {
                    if !t.bridge.try_recv_and_commit(&mut t.crdt_net, &mut t.ot_net) {
                        continue;
                    }
                }
                5 => {
                    if iters == 0 {
                        continue;
                    }
                    let instr = client.state().gen_trivial_instr(author, rng);
                    client.gen_and_send(&mut t.ot_net, instr);
                }
                _ => {
                    if !client.try_recv_and_commit(&mut t.ot_net) {
                        continue;
                    }
                }
            }
            break;
        }
        iters = iters.saturating_sub(1);
    }
    let first = t.bridge.state();
    assert!(t.peers.iter().all(|peer| peer.state() == first));
    assert!(t.clients.iter().all(|client| client.state() == first));
    assert!(t.crdt_net.all_empty());
    assert!(t.ot_net.all_empty());
}

#[test]
fn fuzz_ot_crdt_short() {
    let seed = rand::random();
    println!("seed: {seed}");
    let rng = &mut SmallRng::seed_from_u64(seed);
    for _ in 0..100 {
        test_crdt_ot::<TextReplica>(rng);
        test_crdt_ot::<TallyReplica>(rng);
    }
}

/// One replica follows another: each instruction of the first is stamped
/// there and read back here, against a state that has gone its own way.
fn test_crdt_differential_dataflow<R>(rng: &mut SmallRng)
where
    R: Replica,
    R::State: Trial,
    R::CrdtInstr: Debug + PartialEq,
{
    let start = <R::State as Trial>::gen(rng);
    let (mut net, mut clients, _) = mesh::<R>(2, &start);
    let (upstream, downstream) = clients.split_at_mut(1);
    let (upstream, downstream) = (&mut upstream[0], &mut downstream[0]);
    for _ in 0..rng.gen_range(0..20) {
        let instr = originate(downstream.crdt(), Edit::Fresh, rng);
        downstream.integrate(instr);
    }
    let mut sent = Vec::new();
    for _ in 0..rng.gen_range(0..20) {
        let instr = originate(upstream.crdt(), Edit::Fresh, rng);
        upstream.gen_and_send(&mut net, instr.clone());
        sent.push(instr);
    }
    for instr in sent {
        let before = downstream.state().clone();
        let local = downstream.localize(instr.clone());
        assert_eq!(downstream.receive(&mut net), Some(instr.clone()));
        downstream.integrate(instr);
        let mut expected = before;
        expected.apply(&local);
        assert_eq!(downstream.state(), &expected);
    }
    assert!(downstream.drained(&net));
}

#[test]
fn fuzz_crdt_differential_dataflow_short() {
    let seed = rand::random();
    println!("seed: {seed}");
    let rng = &mut SmallRng::seed_from_u64(seed);
    for _ in 0..100 {
        test_crdt_differential_dataflow::<TextReplica>(rng);
    }
}

#[test]
fn test_client_server_mock_short() {
    let seed = rand::random();
    println!("seed: {seed}");
    let rng = &mut SmallRng::seed_from_u64(seed);
    for _ in 0..100 {
        test_crdt::<TextReplica>(rng);
        test_crdt_ot::<TallyReplica>(rng);
        test_ot::<Text>(rng);
        test_crdt_differential_dataflow::<TextReplica>(rng);
    }
}

#[test]
fn fuzz_many_seeds() {
    for seed in 0..200 {
        let rng = &mut SmallRng::seed_from_u64(seed);
        test_ot::<Text>(rng);
        test_crdt::<TextReplica>(rng);
        test_crdt_ot::<TextReplica>(rng);
        test_crdt_ot::<TallyReplica>(rng);
    }
}
