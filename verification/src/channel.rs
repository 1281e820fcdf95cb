//! First-in first-out mailboxes, addressed through sender and receiver handles.
//!
//! A [`Mailboxes`] value owns every queue of one network. A [`Sender`] and a
//! [`Receiver`] name one of its queues; whoever holds one of them and the
//! network can append to that queue or take from its front. Messages leave a
//! queue in the order in which they entered it, each exactly once.

use std::collections::VecDeque;
use std::marker::PhantomData;
use vstd::prelude::*;

verus! {

/// The mailboxes of one network: every queue that a handle can name.
#[derive(Debug)]
pub struct Mailboxes<T> {
    queues: Vec<VecDeque<T>>,
}

impl<T> View for Mailboxes<T> {
    type V = Seq<Seq<T>>;

    /// The queues in the order of their creation, each from front to back.
    closed spec fn view(&self) -> Seq<Seq<T>> {
        Seq::new(self.queues@.len(), |i: int| self.queues@[i]@)
    }
}

/// The network `net` after `val` entered the back of queue `queue`.
pub open spec fn pushed<T>(net: Seq<Seq<T>>, queue: int, val: T) -> Seq<Seq<T>> {
    net.update(queue, net[queue].push(val))
}

/// The network `net` after the front of queue `queue` left it.
pub open spec fn popped<T>(net: Seq<Seq<T>>, queue: int) -> Seq<Seq<T>> {
    net.update(queue, net[queue].drop_first())
}

/// First in, first out: a message that enters a mailbox in which others
/// wait leaves it after them, whether it enters before or after the first of
/// them has left.
pub proof fn lemma_first_in_first_out<T>(net: Seq<Seq<T>>, queue: int, val: T)
    requires
        0 <= queue < net.len(),
        net[queue].len() > 0,
    ensures
        pushed(net, queue, val)[queue][0] == net[queue][0],
        popped(pushed(net, queue, val), queue) == pushed(popped(net, queue), queue, val),
{
    assert(net[queue].push(val).drop_first() =~= net[queue].drop_first().push(val));
    assert(popped(pushed(net, queue, val), queue) =~= pushed(popped(net, queue), queue, val));
}

impl<T> Mailboxes<T> {
    /// A network without any mailbox.
    pub fn new() -> (net: Self)
        ensures
            net@ == Seq::<Seq<T>>::empty(),
    {
        let net = Mailboxes { queues: Vec::new() };
        net
    }

    /// The number of mailboxes.
    pub fn count(&self) -> (n: usize)
        ensures
            n == self@.len(),
    {
        self.queues.len()
    }

    /// True iff no mailbox holds a message.
    pub fn all_empty(&self) -> (b: bool)
        ensures
            b == (forall|q: int| 0 <= q < self@.len() ==> (#[trigger] self@[q]).len() == 0),
    {
        let mut q: usize = 0;
        while q < self.queues.len()
            invariant
                q <= self.queues@.len(),
                forall|k: int| 0 <= k < q ==> (#[trigger] self@[k]).len() == 0,
            decreases self.queues@.len() - q,
        {
            if self.queues[q].len() != 0 {
                assert(self@[q as int].len() != 0);
                return false;
            }
            q += 1;
        }
        true
    }

    fn queue_len(&self, queue: usize) -> (n: usize)
        requires
            queue < self@.len(),
        ensures
            n == self@[queue as int].len(),
    {
        self.queues[queue].len()
    }

    fn front(&self, queue: usize) -> (val: Option<&T>)
        requires
            queue < self@.len(),
        ensures
            self@[queue as int].len() == 0 ==> val is None,
            self@[queue as int].len() > 0 ==> val == Some(&self@[queue as int][0]),
    {
        if self.queues[queue].len() == 0 {
            None
        } else {
            Some(&self.queues[queue][0])
        }
    }

    fn push(&mut self, queue: usize, val: T)
        requires
            queue < old(self)@.len(),
        ensures
            final(self)@ == pushed(old(self)@, queue as int, val),
    {
        self.queues[queue].push_back(val);
    }

    fn pop(&mut self, queue: usize) -> (val: Option<T>)
        requires
            queue < old(self)@.len(),
        ensures
            old(self)@[queue as int].len() == 0 ==> val is None && final(self)@ == old(self)@,
            old(self)@[queue as int].len() > 0 ==> val == Some(old(self)@[queue as int][0])
                && final(self)@ == popped(old(self)@, queue as int),
    {
        self.queues[queue].pop_front()
    }
}

/// Opens a new, empty mailbox in `net` and returns the two handles to it.
pub fn channel<T>(net: &mut Mailboxes<T>) -> (ends: (Sender<T>, Receiver<T>))
    ensures
        final(net)@ == old(net)@.push(Seq::<T>::empty()),
        ends.0.queue() == old(net)@.len(),
        ends.1.queue() == old(net)@.len(),
{
    let queue = net.queues.len();
    net.queues.push(VecDeque::new());
    (Sender { queue, marker: PhantomData }, Receiver { queue, marker: PhantomData })
}

/// The handle through which messages enter a mailbox.
#[derive(Debug)]
pub struct Sender<T> {
    queue: usize,
    marker: PhantomData<T>,
}

/// The handle through which messages leave a mailbox.
#[derive(Debug)]
pub struct Receiver<T> {
    queue: usize,
    marker: PhantomData<T>,
}

impl<T> Clone for Sender<T> {
    fn clone(&self) -> (other: Self)
        ensures
            other == *self,
    {
        Sender { queue: self.queue, marker: PhantomData }
    }
}

impl<T> Clone for Receiver<T> {
    fn clone(&self) -> (other: Self)
        ensures
            other == *self,
    {
        Receiver { queue: self.queue, marker: PhantomData }
    }
}

impl<T> Sender<T> {
    /// The position of this handle's mailbox in a network.
    pub closed spec fn queue(&self) -> int {
        self.queue as int
    }

    /// True iff `net` has the mailbox that this handle names.
    pub open spec fn attached(&self, net: Seq<Seq<T>>) -> bool {
        0 <= self.queue() < net.len()
    }

    /// The position of this handle's mailbox in a network.
    pub fn mailbox(&self) -> (queue: usize)
        ensures
            queue == self.queue(),
    {
        self.queue
    }

    /// The number of messages that wait in the mailbox.
    pub fn len(&self, net: &Mailboxes<T>) -> (n: usize)
        requires
            self.attached(net@),
        ensures
            n == net@[self.queue()].len(),
    {
        net.queue_len(self.queue)
    }

    /// True iff no message waits in the mailbox.
    pub fn is_empty(&self, net: &Mailboxes<T>) -> (b: bool)
        requires
            self.attached(net@),
        ensures
            b == (net@[self.queue()].len() == 0),
    {
        self.len(net) == 0
    }

    /// Puts `val` at the back of the mailbox. No other mailbox changes.
    pub fn send(&self, net: &mut Mailboxes<T>, val: T)
        requires
            self.attached(old(net)@),
        ensures
            final(net)@ == pushed(old(net)@, self.queue(), val),
    {
        net.push(self.queue, val)
    }
}

impl<T> Receiver<T> {
    /// The position of this handle's mailbox in a network.
    pub closed spec fn queue(&self) -> int {
        self.queue as int
    }

    /// True iff `net` has the mailbox that this handle names.
    pub open spec fn attached(&self, net: Seq<Seq<T>>) -> bool {
        0 <= self.queue() < net.len()
    }

    /// The position of this handle's mailbox in a network.
    pub fn mailbox(&self) -> (queue: usize)
        ensures
            queue == self.queue(),
    {
        self.queue
    }

    /// The number of messages that wait in the mailbox.
    pub fn len(&self, net: &Mailboxes<T>) -> (n: usize)
        requires
            self.attached(net@),
        ensures
            n == net@[self.queue()].len(),
    {
        net.queue_len(self.queue)
    }

    /// True iff no message waits in the mailbox.
    pub fn is_empty(&self, net: &Mailboxes<T>) -> (b: bool)
        requires
            self.attached(net@),
        ensures
            b == (net@[self.queue()].len() == 0),
    {
        self.len(net) == 0
    }

    /// The message at the front of the mailbox, if there is one. The mailbox
    /// stays as it is.
    pub fn peek<'a>(&self, net: &'a Mailboxes<T>) -> (val: Option<&'a T>)
        requires
            self.attached(net@),
        ensures
            net@[self.queue()].len() == 0 ==> val is None,
            net@[self.queue()].len() > 0 ==> val == Some(&net@[self.queue()][0]),
    {
        net.front(self.queue)
    }

    /// Takes the message at the front of the mailbox, if there is one. No
    /// other mailbox changes, and an empty mailbox stays as it is.
    pub fn try_receive(&self, net: &mut Mailboxes<T>) -> (val: Option<T>)
        requires
            self.attached(old(net)@),
        ensures
            old(net)@[self.queue()].len() == 0 ==> val is None && final(net)@ == old(net)@,
            old(net)@[self.queue()].len() > 0 ==> val == Some(old(net)@[self.queue()][0])
                && final(net)@ == popped(old(net)@, self.queue()),
    {
        net.pop(self.queue)
    }
}

/// True iff no number occurs twice in `queues`.
pub fn all_distinct(queues: &Vec<usize>) -> (b: bool)
    ensures
        b == (forall|i: int, j: int| 0 <= i < j < queues@.len() ==> queues@[i] != queues@[j]),
{
    let mut j: usize = 0;
    while j < queues.len()
        invariant
            j <= queues@.len(),
            forall|a: int, b: int| 0 <= a < b < j ==> queues@[a] != queues@[b],
        decreases queues@.len() - j,
    {
        let mut i: usize = 0;
        while i < j
            invariant
                i <= j < queues@.len(),
                forall|a: int| 0 <= a < i ==> queues@[a] != queues@[j as int],
            decreases j - i,
        {
            if queues[i] == queues[j] {
                return false;
            }
            i += 1;
        }
        j += 1;
    }
    true
}

} // verus!
