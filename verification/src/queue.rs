//! The bounded queue between the thread that produces byte chunks and the one
//! that consumes them.
//!
//! What the queue answers depends on both threads. What this side does to it does
//! not: each half that is held here keeps a log of the calls made on it, so that a
//! contract can say which calls were made, in which order and with which answers.
use crossbeam_channel::{Receiver, Sender, TryRecvError, TrySendError};
use vstd::prelude::*;

verus! {

/// The sending half of a `crossbeam_channel` queue.
#[verifier::external_type_specification]
#[verifier::external_body]
#[verifier::reject_recursive_types(T)]
pub struct ExSender<T>(crossbeam_channel::Sender<T>);

/// The receiving half of a `crossbeam_channel` queue.
#[verifier::external_type_specification]
#[verifier::external_body]
#[verifier::reject_recursive_types(T)]
pub struct ExReceiver<T>(crossbeam_channel::Receiver<T>);

/// What became of a chunk that was offered to the queue.
pub enum SendOutcome {
    /// It is in the queue.
    Sent,
    /// The queue is full; the chunk comes back.
    Full(Vec<u8>),
    /// The other side is gone; the chunk comes back.
    Disconnected(Vec<u8>),
}

/// What taking a chunk off the queue gave.
pub enum TakeOutcome {
    /// The oldest chunk.
    Took(Vec<u8>),
    /// Nothing: the queue was empty.
    Empty,
    /// Nothing: the queue was empty, and the other side is gone.
    Disconnected,
}

/// A call on the queue, with its answer.
pub enum Call {
    /// A chunk was offered.
    Offered(Seq<u8>, SendOutcome),
    /// A chunk was asked for.
    Taken(TakeOutcome),
}

/// The sending half of a queue, with a log of the calls made on it.
pub struct Feed {
    tx: Sender<Vec<u8>>,
    log: Ghost<Seq<Call>>,
}

impl Feed {
    /// The calls that were made, in order.
    pub closed spec fn calls(self) -> Seq<Call> {
        self.log@
    }

    /// A sending half on which no call was made yet.
    pub fn new(tx: Sender<Vec<u8>>) -> (f: Self)
        ensures
            f.calls() == Seq::<Call>::empty(),
    {
        Feed { tx, log: Ghost(Seq::empty()) }
    }

    /// `crossbeam_channel::Sender::try_send`, once: it never waits, and a chunk that
    /// does not go into the queue comes back as it was. The log gains this call with
    /// its answer. Which of the three outcomes it is depends on what the other threads
    /// have done and is left open; so is what the queue holds afterwards.
    #[verifier::external_body]
    pub(crate) fn try_send(&mut self, chunk: Vec<u8>) -> (r: SendOutcome)
        ensures
            final(self).calls() == old(self).calls().push(Call::Offered(chunk@, r)),
            r matches SendOutcome::Full(c) ==> c == chunk,
            r matches SendOutcome::Disconnected(c) ==> c == chunk,
    {
        match self.tx.try_send(chunk) {
            Ok(()) => SendOutcome::Sent,
            Err(TrySendError::Full(c)) => SendOutcome::Full(c),
            Err(TrySendError::Disconnected(c)) => SendOutcome::Disconnected(c),
        }
    }
}

/// Both halves of a queue, for a producer that may also take chunks off it, with a
/// log of the calls made on them.
pub struct Ring {
    feed: Feed,
    rx: Receiver<Vec<u8>>,
}

impl Ring {
    /// The calls that were made, in order.
    pub closed spec fn calls(self) -> Seq<Call> {
        self.feed.calls()
    }

    /// The two halves of a queue, on which no call was made yet.
    pub fn new(tx: Sender<Vec<u8>>, rx: Receiver<Vec<u8>>) -> (q: Self)
        ensures
            q.calls() == Seq::<Call>::empty(),
    {
        Ring { feed: Feed::new(tx), rx }
    }

    /// Offers a chunk to the queue, once.
    pub(crate) fn offer(&mut self, chunk: Vec<u8>) -> (r: SendOutcome)
        ensures
            final(self).calls() == old(self).calls().push(Call::Offered(chunk@, r)),
            r matches SendOutcome::Full(c) ==> c == chunk,
            r matches SendOutcome::Disconnected(c) ==> c == chunk,
    {
        self.feed.try_send(chunk)
    }

    /// `crossbeam_channel::Receiver::try_recv`, once: it never waits. The log gains this
    /// call with its answer. Whether there is a chunk, and which, depends on what the
    /// other threads have done and is left open; so is what the queue holds afterwards.
    #[verifier::external_body]
    pub(crate) fn try_recv(&mut self) -> (r: TakeOutcome)
        ensures
            final(self).calls() == old(self).calls().push(Call::Taken(r)),
    {
        match self.rx.try_recv() {
            Ok(c) => TakeOutcome::Took(c),
            Err(TryRecvError::Empty) => TakeOutcome::Empty,
            Err(TryRecvError::Disconnected) => TakeOutcome::Disconnected,
        }
    }
}

/// What a queue that holds `held`, and that nobody else touches meanwhile, answers
/// to a call while both its sides are alive.
pub open spec fn answers(held: Seq<Seq<u8>>, capacity: nat, call: Call) -> bool {
    match call {
        Call::Offered(_, SendOutcome::Sent) => held.len() < capacity,
        Call::Offered(_, SendOutcome::Full(_)) => held.len() >= capacity,
        Call::Offered(_, SendOutcome::Disconnected(_)) => false,
        Call::Taken(TakeOutcome::Took(c)) => held.len() > 0 && c@ == held[0],
        Call::Taken(TakeOutcome::Empty) => held.len() == 0,
        Call::Taken(TakeOutcome::Disconnected) => false,
    }
}

/// What such a queue holds after the call: first in, first out.
pub open spec fn held_after(held: Seq<Seq<u8>>, call: Call) -> Seq<Seq<u8>> {
    match call {
        Call::Offered(chunk, SendOutcome::Sent) => held.push(chunk),
        Call::Taken(TakeOutcome::Took(_)) => held.skip(1),
        _ => held,
    }
}

/// Such a queue answers to each of the calls.
pub open spec fn answers_all(held: Seq<Seq<u8>>, capacity: nat, calls: Seq<Call>) -> bool
    decreases calls.len(),
{
    calls.len() > 0 ==> {
        &&& answers(held, capacity, calls[0])
        &&& answers_all(held_after(held, calls[0]), capacity, calls.skip(1))
    }
}

/// What such a queue holds after all the calls.
pub open spec fn held_after_all(held: Seq<Seq<u8>>, calls: Seq<Call>) -> Seq<Seq<u8>>
    decreases calls.len(),
{
    if calls.len() == 0 {
        held
    } else {
        held_after_all(held_after(held, calls[0]), calls.skip(1))
    }
}

} // verus!
