//! The receiver's network pump: it reads from the connection and offers what it
//! read to the playback queue.
//!
//! When the queue is full the pump waits for room rather than drop anything:
//! meanwhile TCP holds the sender back.
use vstd::prelude::*;

use crate::queue::{Call, Feed, SendOutcome};

verus! {

/// How much is read at most at a time.
pub const READ_CHUNK: usize = 65536;

/// How long a read may wait.
pub const READ_TIMEOUT_MS: u64 = 5000;

/// What a read gave.
pub enum ReadOutcome<'a> {
    /// These bytes; none at all if the peer has closed the connection.
    Data(&'a [u8]),
    /// Nothing in time.
    Idle,
    /// A failure.
    Broken,
}

/// What the pump does next.
pub enum ReadStep {
    /// Read on.
    Read,
    /// Wait until the queue takes the chunk.
    Wait(Vec<u8>),
    /// End.
    End,
}

/// The pump of one connection.
#[derive(Debug, Clone, Copy, PartialEq, Eq, Structural)]
pub struct NetIn {
    /// How many bytes were read.
    pub total: u64,
}

/// What follows from what the queue says of a chunk.
pub open spec fn step_of(outcome: SendOutcome) -> ReadStep {
    match outcome {
        SendOutcome::Sent => ReadStep::Read,
        SendOutcome::Full(c) => ReadStep::Wait(c),
        SendOutcome::Disconnected(_) => ReadStep::End,
    }
}

/// What follows when the wait for room is over.
pub open spec fn step_after_wait(sent: bool) -> ReadStep {
    if sent {
        ReadStep::Read
    } else {
        ReadStep::End
    }
}

/// What follows from what the queue said of a chunk: a chunk that it has no room
/// for is waited with, and without a reader there is nothing more to do.
pub fn offered(outcome: SendOutcome) -> (step: ReadStep)
    ensures
        step == step_of(outcome),
{
    match outcome {
        SendOutcome::Sent => ReadStep::Read,
        SendOutcome::Full(c) => ReadStep::Wait(c),
        SendOutcome::Disconnected(_) => ReadStep::End,
    }
}

/// What follows when the wait for room is over: whether the queue took the chunk,
/// or has no reader any more.
pub fn waited(sent: bool) -> (step: ReadStep)
    ensures
        step == step_after_wait(sent),
{
    if sent {
        ReadStep::Read
    } else {
        ReadStep::End
    }
}

fn copy_of(data: &[u8]) -> (r: Vec<u8>)
    ensures
        r@ == data@,
{
    let mut r: Vec<u8> = Vec::new();
    let n: usize = data.len();
    for i in 0..n
        invariant
            n == data@.len(),
            r@ == data@.take(i as int),
    {
        r.push(data[i]);
        assert(data@.take(i + 1) =~= data@.take(i as int).push(data@[i as int]));
    }
    assert(data@.take(n as int) =~= data@);
    r
}

/// What a read comes to before the queue is asked.
pub enum Taken {
    /// A chunk to offer to the queue.
    Offer(Vec<u8>),
    /// Nothing to offer.
    Step(ReadStep),
}

impl NetIn {
    /// A pump that has read nothing.
    pub fn new() -> (p: Self)
        ensures
            p.total == 0,
    {
        NetIn { total: 0 }
    }

    /// Takes in what a read gave: the bytes are counted and become a chunk.
    pub fn take(&mut self, read: ReadOutcome) -> (r: Taken)
        requires
            read matches ReadOutcome::Data(d) ==> old(self).total + d@.len() <= u64::MAX,
        ensures
            match read {
                ReadOutcome::Data(d) => {
                    &&& final(self).total == old(self).total + d@.len()
                    &&& if d@.len() == 0 {
                        r == Taken::Step(ReadStep::End)
                    } else {
                        r matches Taken::Offer(c) && c@ == d@
                    }
                },
                ReadOutcome::Idle => *final(self) == *old(self) && r == Taken::Step(ReadStep::Read),
                ReadOutcome::Broken => *final(self) == *old(self) && r == Taken::Step(ReadStep::End),
            },
    {
        match read {
            ReadOutcome::Data(d) => {
                let n: usize = d.len();
                if n == 0 {
                    return Taken::Step(ReadStep::End);
                }
                self.total = self.total + n as u64;
                Taken::Offer(copy_of(d))
            },
            ReadOutcome::Idle => Taken::Step(ReadStep::Read),
            ReadOutcome::Broken => Taken::Step(ReadStep::End),
        }
    }
}

/// What happened to the pump, as plain values.
pub enum PumpEvent {
    /// A read gave these bytes, and the queue said this of them.
    Data(Seq<u8>, SendOutcome),
    /// The peer has closed the connection.
    Closed,
    /// Nothing came in time.
    Idle,
    /// A read failed.
    Broken,
    /// The wait for room is over: whether the queue took the chunk.
    Waited(bool),
}

/// What follows an event.
pub open spec fn pump_step(event: PumpEvent) -> ReadStep {
    match event {
        PumpEvent::Data(_, outcome) => step_of(outcome),
        PumpEvent::Closed => ReadStep::End,
        PumpEvent::Idle => ReadStep::Read,
        PumpEvent::Broken => ReadStep::End,
        PumpEvent::Waited(sent) => step_after_wait(sent),
    }
}

/// The event is how the pump takes what a read gave: bytes go with what the queue
/// said of them, and what it did not take is what was read.
pub open spec fn read_as(read: ReadOutcome, event: PumpEvent) -> bool {
    match read {
        ReadOutcome::Data(d) => if d@.len() == 0 {
            event is Closed
        } else {
            &&& event matches PumpEvent::Data(bytes, outcome)
            &&& bytes == d@
            &&& outcome matches SendOutcome::Full(c) ==> c@ == d@
        },
        ReadOutcome::Idle => event is Idle,
        ReadOutcome::Broken => event is Broken,
    }
}

/// The calls that an event makes on the sending half: bytes that were read are offered
/// once, all of them and as one chunk. The wait for room is not the pump's.
pub open spec fn calls_of(event: PumpEvent) -> Seq<Call> {
    match event {
        PumpEvent::Data(d, outcome) => seq![Call::Offered(d, outcome)],
        _ => Seq::empty(),
    }
}

/// How many bytes an event brings.
pub open spec fn bytes_of(event: PumpEvent) -> nat {
    match event {
        PumpEvent::Data(d, _) => d.len(),
        _ => 0,
    }
}

/// Pumping took what a read gave as that event.
pub open spec fn pumps(
    p: NetIn,
    q: Feed,
    read: ReadOutcome,
    event: PumpEvent,
    step: ReadStep,
    then_p: NetIn,
    then_q: Feed,
) -> bool {
    &&& read_as(read, event)
    &&& step == pump_step(event)
    &&& then_p.total == p.total + bytes_of(event)
    &&& then_q.calls() == q.calls() + calls_of(event)
}

/// Takes in what a read gave, offers the chunk to the queue once, and says what is
/// next. No other call is made on the queue.
pub fn pump(p: &mut NetIn, read: ReadOutcome, q: &mut Feed) -> (step: ReadStep)
    requires
        read matches ReadOutcome::Data(d) ==> old(p).total + d@.len() <= u64::MAX,
    ensures
        exists|event: PumpEvent| #[trigger]
            pumps(*old(p), *old(q), read, event, step, *final(p), *final(q)),
{
    let ghost before = (*p, *q);
    let ghost given = read;
    match p.take(read) {
        Taken::Step(step) => {
            proof {
                let event = match given {
                    ReadOutcome::Data(_) => PumpEvent::Closed,
                    ReadOutcome::Idle => PumpEvent::Idle,
                    ReadOutcome::Broken => PumpEvent::Broken,
                };
                assert(q.calls() =~= before.1.calls() + calls_of(event));
                assert(pumps(before.0, before.1, given, event, step, *p, *q));
            }
            step
        },
        Taken::Offer(chunk) => {
            let ghost bytes = chunk@;
            let outcome = q.try_send(chunk);
            let ghost event = PumpEvent::Data(bytes, outcome);
            let step = offered(outcome);
            proof {
                assert(q.calls() =~= before.1.calls() + calls_of(event));
                assert(pumps(before.0, before.1, given, event, step, *p, *q));
            }
            step
        },
    }
}

/// What the pump stands at after `events`.
pub open spec fn standing(events: Seq<PumpEvent>) -> ReadStep {
    if events.len() == 0 {
        ReadStep::Read
    } else {
        pump_step(events.last())
    }
}

/// The event can happen where the pump stands at `step`: a read gives at most so
/// many bytes as are asked for, and a chunk that the queue does not take comes back
/// as it was.
pub open spec fn can_follow(step: ReadStep, event: PumpEvent) -> bool {
    match event {
        PumpEvent::Data(d, outcome) => {
            &&& step is Read
            &&& 0 < d.len() <= READ_CHUNK
            &&& outcome matches SendOutcome::Full(c) ==> c@ == d
        },
        PumpEvent::Waited(_) => step is Wait,
        _ => step is Read,
    }
}

/// Each event can happen where it stands.
pub open spec fn all_follow(events: Seq<PumpEvent>) -> bool
    decreases events.len(),
{
    events.len() > 0 ==> {
        &&& all_follow(events.drop_last())
        &&& can_follow(standing(events.drop_last()), events.last())
    }
}

/// The other side of the queue is alive throughout.
pub open spec fn reader_stays(events: Seq<PumpEvent>) -> bool {
    forall|i: int|
        0 <= i < events.len() ==> !(#[trigger] events[i] matches PumpEvent::Waited(false)) && !(
        events[i] matches PumpEvent::Data(_, SendOutcome::Disconnected(_)))
}

/// What was read over `events`.
pub open spec fn read_in(events: Seq<PumpEvent>) -> Seq<u8>
    decreases events.len(),
{
    if events.len() == 0 {
        Seq::empty()
    } else {
        match events.last() {
            PumpEvent::Data(d, _) => read_in(events.drop_last()) + d,
            _ => read_in(events.drop_last()),
        }
    }
}

/// The chunk that waits for room after `events`.
pub open spec fn waiting(events: Seq<PumpEvent>) -> Seq<u8> {
    match standing(events) {
        ReadStep::Wait(c) => c@,
        _ => Seq::empty(),
    }
}

/// The chunks that went into the queue over `events`, in order.
pub open spec fn queued(events: Seq<PumpEvent>) -> Seq<Seq<u8>>
    decreases events.len(),
{
    if events.len() == 0 {
        Seq::empty()
    } else {
        let before = queued(events.drop_last());
        match events.last() {
            PumpEvent::Data(d, SendOutcome::Sent) => before.push(d),
            PumpEvent::Waited(true) => before.push(waiting(events.drop_last())),
            _ => before,
        }
    }
}

/// The calls that were made on the queue over `events`.
pub open spec fn calls_in(events: Seq<PumpEvent>) -> Seq<Call>
    decreases events.len(),
{
    if events.len() == 0 {
        Seq::empty()
    } else {
        calls_in(events.drop_last()) + calls_of(events.last())
    }
}

/// The bytes that were offered to the queue in `calls`, in order.
pub open spec fn offered_in(calls: Seq<Call>) -> Seq<u8>
    decreases calls.len(),
{
    if calls.len() == 0 {
        Seq::empty()
    } else {
        match calls.last() {
            Call::Offered(d, _) => offered_in(calls.drop_last()) + d,
            Call::Taken(_) => offered_in(calls.drop_last()),
        }
    }
}

/// The bytes of the chunks, one after the other.
pub open spec fn joined(chunks: Seq<Seq<u8>>) -> Seq<u8>
    decreases chunks.len(),
{
    if chunks.len() == 0 {
        Seq::empty()
    } else {
        joined(chunks.drop_last()) + chunks.last()
    }
}

/// The count after `events`.
pub open spec fn counted(events: Seq<PumpEvent>) -> nat
    decreases events.len(),
{
    if events.len() == 0 {
        0
    } else {
        counted(events.drop_last()) + bytes_of(events.last())
    }
}

/// The pump and its sending half are where `events` bring them.
pub open spec fn pumped(p: NetIn, q: Feed, events: Seq<PumpEvent>) -> bool {
    &&& p.total == counted(events)
    &&& q.calls() == calls_in(events)
}

/// Pumping goes by the events: where it stood after some of them, it stands after one
/// more when it has taken what a read gave, and that one could happen there. A wait
/// for room changes neither the count nor the log.
pub proof fn law_pump_goes_by_events(
    p: NetIn,
    q: Feed,
    events: Seq<PumpEvent>,
    read: ReadOutcome,
    event: PumpEvent,
    step: ReadStep,
    then_p: NetIn,
    then_q: Feed,
)
    requires
        pumped(p, q, events),
        pumps(p, q, read, event, step, then_p, then_q),
    ensures
        pumped(then_p, then_q, events.push(event)),
        standing(events.push(event)) == step,
        all_follow(events) && standing(events) is Read && (read matches ReadOutcome::Data(d)
            ==> d@.len() <= READ_CHUNK) ==> all_follow(events.push(event)),
        forall|sent: bool| #[trigger] pumped(p, q, events.push(PumpEvent::Waited(sent))),
{
    assert(events.push(event).drop_last() =~= events);
    assert forall|sent: bool| #[trigger]
        pumped(p, q, events.push(PumpEvent::Waited(sent))) by {
        let then = events.push(PumpEvent::Waited(sent));
        assert(then.drop_last() =~= events);
        assert(calls_in(then) =~= calls_in(events));
    }
}

/// Before anything is read, there are no events.
pub proof fn law_pump_starts_empty(p: NetIn, q: Feed)
    requires
        p.total == 0,
        q.calls() == Seq::<Call>::empty(),
    ensures
        pumped(p, q, Seq::<PumpEvent>::empty()),
        all_follow(Seq::<PumpEvent>::empty()),
{
}

/// Every byte that was read is offered to the queue exactly once, in order, and nothing
/// else is; nothing is taken off the queue. The count is the number of those bytes.
pub proof fn law_each_byte_is_offered_once(p: NetIn, q: Feed, events: Seq<PumpEvent>)
    requires
        pumped(p, q, events),
    ensures
        offered_in(q.calls()) == read_in(events),
        p.total == offered_in(q.calls()).len(),
        forall|i: int| 0 <= i < q.calls().len() ==> #[trigger] q.calls()[i] is Offered,
{
    lemma_each_byte_is_offered_once(events);
}

proof fn lemma_each_byte_is_offered_once(events: Seq<PumpEvent>)
    ensures
        offered_in(calls_in(events)) == read_in(events),
        counted(events) == read_in(events).len(),
        forall|i: int| 0 <= i < calls_in(events).len() ==> #[trigger] calls_in(events)[i] is Offered,
    decreases events.len(),
{
    if events.len() > 0 {
        let before = calls_in(events.drop_last());
        lemma_each_byte_is_offered_once(events.drop_last());
        match events.last() {
            PumpEvent::Data(d, outcome) => {
                assert(calls_in(events) =~= before.push(Call::Offered(d, outcome)));
                assert(calls_in(events).drop_last() =~= before);
            },
            _ => {
                assert(calls_in(events) =~= before);
            },
        }
    }
}

/// Nothing that was read is dropped, even where the queue is full: while the queue
/// has a reader, what went into it, followed by the chunk that waits for room, is
/// what was read, in order. Each chunk holds at least one byte and no more than a
/// read asks for. The count is the number of bytes read, however the connection
/// ends.
pub proof fn law_what_is_read_is_queued(events: Seq<PumpEvent>)
    requires
        all_follow(events),
    ensures
        counted(events) == read_in(events).len(),
        reader_stays(events) ==> joined(queued(events)) + waiting(events) == read_in(events),
        forall|i: int|
            0 <= i < queued(events).len() ==> 0 < (#[trigger] queued(events)[i]).len()
                <= READ_CHUNK,
        standing(events) is Wait ==> 0 < waiting(events).len() <= READ_CHUNK,
    decreases events.len(),
{
    if events.len() == 0 {
        assert(joined(queued(events)) + waiting(events) =~= read_in(events));
    } else {
        let before = events.drop_last();
        law_what_is_read_is_queued(before);
        let q = queued(before);
        let now = queued(events);
        if reader_stays(events) {
            assert(reader_stays(before)) by {
                assert forall|i: int| 0 <= i < before.len() implies !(
                #[trigger] before[i] matches PumpEvent::Waited(false)) && !(
                before[i] matches PumpEvent::Data(_, SendOutcome::Disconnected(_))) by {
                    assert(events[i] == before[i]);
                }
            }
            assert(events[events.len() - 1] == events.last());
            assert(!(events.last() matches PumpEvent::Waited(false)));
        }
        match events.last() {
            PumpEvent::Data(d, outcome) => {
                assert(waiting(before) =~= Seq::empty());
                match outcome {
                    SendOutcome::Sent => {
                        assert(now.drop_last() =~= q);
                        assert(now.last() == d);
                        assert(joined(now) + waiting(events) =~= joined(q) + waiting(before) + d);
                    },
                    SendOutcome::Full(c) => {
                        assert(joined(now) + waiting(events) =~= joined(q) + waiting(before) + d);
                    },
                    SendOutcome::Disconnected(_) => {},
                }
            },
            PumpEvent::Waited(sent) => {
                if sent {
                    assert(now.drop_last() =~= q);
                    assert(now.last() == waiting(before));
                    assert(joined(now) + waiting(events) =~= joined(q) + waiting(before));
                }
            },
            _ => {
                assert(waiting(before) =~= Seq::empty());
                assert(waiting(events) =~= Seq::empty());
            },
        }
    }
}

/// What a read gave is offered to the queue as it is, as one chunk and once, and counted;
/// nothing is offered when nothing came. The pump reads on when the queue took the chunk
/// or nothing came in time, waits with the chunk when there is no room for it, and ends
/// when there is no reader, the peer has closed the connection, or the read failed.
pub proof fn law_read_is_offered_as_it_is(
    p: &mut NetIn,
    read: ReadOutcome,
    q: &mut Feed,
    step: ReadStep,
)
    requires
        call_ensures(pump, (p, read, q), step),
    ensures
        match read {
            ReadOutcome::Data(d) => if d@.len() == 0 {
                &&& step is End
                &&& final(q).calls() == old(q).calls()
                &&& final(p).total == old(p).total
            } else {
                let n = old(q).calls().len() as int;
                &&& final(p).total == old(p).total + d@.len()
                &&& final(q).calls().len() == n + 1
                &&& final(q).calls().take(n) == old(q).calls()
                &&& final(q).calls()[n] matches Call::Offered(bytes, outcome)
                &&& bytes == d@
                &&& step is Read <==> outcome is Sent
                &&& step is Wait <==> outcome is Full
                &&& step is End <==> outcome is Disconnected
                &&& step matches ReadStep::Wait(c) ==> c@ == d@
            },
            ReadOutcome::Idle => {
                &&& step is Read
                &&& final(q).calls() == old(q).calls()
                &&& final(p).total == old(p).total
            },
            ReadOutcome::Broken => {
                &&& step is End
                &&& final(q).calls() == old(q).calls()
                &&& final(p).total == old(p).total
            },
        },
{
    let event = choose|event: PumpEvent| #[trigger]
        pumps(*old(p), *old(q), read, event, step, *final(p), *final(q));
    assert(pumps(*old(p), *old(q), read, event, step, *final(p), *final(q)));
    let n = old(q).calls().len() as int;
    match event {
        PumpEvent::Data(d, outcome) => {
            assert(final(q).calls().take(n) =~= old(q).calls());
            assert(final(q).calls()[n] == Call::Offered(d, outcome));
        },
        _ => {
            assert(final(q).calls() =~= old(q).calls());
        },
    }
}

/// When the wait for room is over, the pump reads on exactly if the queue took the chunk.
pub proof fn law_pump_reads_on_after_a_wait(sent: bool, step: ReadStep)
    requires
        call_ensures(waited, (sent,), step),
    ensures
        sent ==> step is Read,
        !sent ==> step is End,
{
}

/// What the queue says of a chunk decides: taken, the pump reads on; no room, it waits
/// with that chunk; no reader, it ends.
pub proof fn law_queue_decides(outcome: SendOutcome, step: ReadStep)
    requires
        call_ensures(offered, (outcome,), step),
    ensures
        step is Read <==> outcome is Sent,
        step is End <==> outcome is Disconnected,
        outcome matches SendOutcome::Full(c) ==> step == ReadStep::Wait(c),
{
}

/// A read is taken in as one chunk with the bytes that came, all of them and counted.
pub proof fn law_read_is_taken_in(p: &mut NetIn, read: ReadOutcome, r: Taken)
    requires
        call_ensures(NetIn::take, (p, read), r),
    ensures
        read matches ReadOutcome::Data(d) ==> final(p).total == old(p).total + d@.len(),
        !(read is Data) ==> final(p).total == old(p).total,
        r is Offer <==> read is Data && read->Data_0@.len() > 0,
        r matches Taken::Offer(c) ==> c@ == read->Data_0@,
        read is Idle ==> r == Taken::Step(ReadStep::Read),
        read is Broken || (read is Data && read->Data_0@.len() == 0) ==> r == Taken::Step(
            ReadStep::End,
        ),
{
}

} // verus!
