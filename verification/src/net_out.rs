//! The sender's network pump: it takes chunks off the capture queue and writes
//! them to the connection.
//!
//! It ends when the capture side closes the queue, when a write fails, or when
//! the program is asked to stop, which is looked at before every wait.
use vstd::prelude::*;

verus! {

/// How long a chunk is waited for before the stop flag is looked at again.
pub const POLL_TICK_MS: u64 = 100;

/// What happened to the pump.
pub enum SendEvent {
    /// The stop flag was looked at: whether it is set.
    Stop(bool),
    /// A chunk came off the queue.
    Received(Vec<u8>),
    /// No chunk came in time.
    Timeout,
    /// The queue is closed and empty.
    Disconnected,
    /// The chunk was written.
    Written,
    /// Writing the chunk failed, for this reason.
    WriteFailed(String),
}

/// What the pump does next.
pub enum SendStep {
    /// Look at the stop flag.
    Check,
    /// Wait for a chunk.
    Receive,
    /// Write the chunk that is pending.
    Write,
    /// End; so many bytes were written.
    Done(u64),
    /// End with this reason.
    Fail(String),
}

/// The pump of one connection.
pub struct NetOut {
    /// How many bytes were written.
    pub total: u64,
    /// The chunk that is being written.
    pub pending: Option<Vec<u8>>,
}

/// The event can happen to the pump.
pub open spec fn can_happen(p: NetOut, event: SendEvent) -> bool {
    match event {
        SendEvent::Written => p.pending is Some && p.total + p.pending->0@.len() <= u64::MAX,
        SendEvent::WriteFailed(_) => p.pending is Some,
        _ => p.pending is None,
    }
}

/// The pump after an event.
pub open spec fn after(p: NetOut, event: SendEvent) -> NetOut {
    match event {
        SendEvent::Received(chunk) => NetOut { total: p.total, pending: Some(chunk) },
        SendEvent::Written => NetOut {
            total: (p.total + p.pending->0@.len()) as u64,
            pending: None,
        },
        SendEvent::WriteFailed(_) => NetOut { total: p.total, pending: None },
        _ => p,
    }
}

/// What follows an event.
pub open spec fn step_after(p: NetOut, event: SendEvent) -> SendStep {
    match event {
        SendEvent::Stop(true) => SendStep::Done(p.total),
        SendEvent::Stop(false) => SendStep::Receive,
        SendEvent::Received(_) => SendStep::Write,
        SendEvent::Timeout => SendStep::Check,
        SendEvent::Disconnected => SendStep::Done(p.total),
        SendEvent::Written => SendStep::Check,
        SendEvent::WriteFailed(why) => SendStep::Fail(why),
    }
}

impl NetOut {
    /// A pump that has written nothing.
    pub fn new() -> (p: Self)
        ensures
            p.total == 0,
            p.pending is None,
    {
        NetOut { total: 0, pending: None }
    }
}

/// Takes an event in and says what is next.
pub fn pump(p: &mut NetOut, event: SendEvent) -> (step: SendStep)
    requires
        can_happen(*old(p), event),
    ensures
        *final(p) == after(*old(p), event),
        step == step_after(*old(p), event),
{
    match event {
        SendEvent::Stop(stop) => if stop {
            SendStep::Done(p.total)
        } else {
            SendStep::Receive
        },
        SendEvent::Received(chunk) => {
            p.pending = Some(chunk);
            SendStep::Write
        },
        SendEvent::Timeout => SendStep::Check,
        SendEvent::Disconnected => SendStep::Done(p.total),
        SendEvent::Written => {
            let n: usize = match &p.pending {
                Some(chunk) => chunk.len(),
                None => 0,
            };
            p.total = p.total + n as u64;
            p.pending = None;
            SendStep::Check
        },
        SendEvent::WriteFailed(why) => {
            p.pending = None;
            SendStep::Fail(why)
        },
    }
}

/// The pump after `events`.
pub open spec fn after_all(events: Seq<SendEvent>) -> NetOut
    decreases events.len(),
{
    if events.len() == 0 {
        NetOut { total: 0, pending: None }
    } else {
        after(after_all(events.drop_last()), events.last())
    }
}

/// Each event can happen where it stands.
pub open spec fn all_can_happen(events: Seq<SendEvent>) -> bool
    decreases events.len(),
{
    events.len() > 0 ==> {
        &&& all_can_happen(events.drop_last())
        &&& can_happen(after_all(events.drop_last()), events.last())
    }
}

/// What was written over `events`.
pub open spec fn sent(events: Seq<SendEvent>) -> Seq<u8>
    decreases events.len(),
{
    if events.len() == 0 {
        Seq::empty()
    } else {
        let before = sent(events.drop_last());
        match events.last() {
            SendEvent::Written => before + after_all(events.drop_last()).pending->0@,
            _ => before,
        }
    }
}

/// What came off the queue over `events`.
pub open spec fn taken(events: Seq<SendEvent>) -> Seq<u8>
    decreases events.len(),
{
    if events.len() == 0 {
        Seq::empty()
    } else {
        let before = taken(events.drop_last());
        match events.last() {
            SendEvent::Received(chunk) => before + chunk@,
            _ => before,
        }
    }
}

/// The chunk that is being written.
pub open spec fn in_flight(p: NetOut) -> Seq<u8> {
    match p.pending {
        Some(chunk) => chunk@,
        None => Seq::empty(),
    }
}

/// The count is the number of bytes written. While no write fails, what was
/// written, followed by what is being written, is what came off the queue.
pub proof fn law_what_came_is_sent(events: Seq<SendEvent>)
    requires
        all_can_happen(events),
    ensures
        after_all(events).total == sent(events).len(),
        (forall|i: int| 0 <= i < events.len() ==> !(#[trigger] events[i] is WriteFailed)) ==> sent(
            events,
        ) + in_flight(after_all(events)) == taken(events),
    decreases events.len(),
{
    if events.len() > 0 {
        let before = events.drop_last();
        law_what_came_is_sent(before);
        let p = after_all(before);
        if forall|i: int| 0 <= i < events.len() ==> !(#[trigger] events[i] is WriteFailed) {
            assert forall|i: int| 0 <= i < before.len() implies !(
            #[trigger] before[i] is WriteFailed) by {
                assert(events[i] == before[i]);
            }
            assert(!(events[events.len() - 1] is WriteFailed));
            assert(sent(events) + in_flight(after_all(events)) =~= taken(events));
        }
    } else {
        assert(sent(events) + in_flight(after_all(events)) =~= taken(events));
    }
}

/// The pump writes each chunk that comes, counts it once it is written, and looks at the
/// stop flag before it waits again. It ends exactly when it is asked to stop, when the
/// queue is closed, or when a write fails; and what it ends with is the count, or the
/// reason.
pub proof fn law_pump_writes_what_comes(p: &mut NetOut, event: SendEvent, step: SendStep)
    requires
        call_ensures(pump, (p, event), step),
        can_happen(*old(p), event),
    ensures
        step is Write <==> event is Received,
        event matches SendEvent::Received(chunk) ==> final(p).pending == Some(chunk)
            && final(p).total == old(p).total,
        event is Written ==> final(p).pending is None && final(p).total == old(p).total
            + old(p).pending->0@.len() && step is Check,
        event matches SendEvent::Stop(stop) ==> (step is Done <==> stop) && (step is Receive
            <==> !stop),
        event is Timeout ==> step is Check,
        event is Disconnected ==> step is Done,
        event is Stop || event is Timeout || event is Disconnected ==> *final(p) == *old(p),
        step matches SendStep::Done(n) ==> n == old(p).total && (event is Disconnected
            || event == SendEvent::Stop(true)),
        event matches SendEvent::WriteFailed(why) ==> step == SendStep::Fail(why)
            && final(p).total == old(p).total,
        step is Fail ==> event is WriteFailed,
{
}

/// Whatever the pump is doing, nothing keeps a chunk, a timeout, a look at the stop flag
/// or the end of the queue from happening while nothing is being written, nor the end of
/// a write while something is.
pub proof fn law_pump_takes_what_happens(p: NetOut, chunk: Vec<u8>, stop: bool, why: String)
    ensures
        p.pending is None ==> {
            &&& can_happen(p, SendEvent::Received(chunk))
            &&& can_happen(p, SendEvent::Timeout)
            &&& can_happen(p, SendEvent::Stop(stop))
            &&& can_happen(p, SendEvent::Disconnected)
        },
        p.pending matches Some(c) ==> {
            &&& can_happen(p, SendEvent::WriteFailed(why))
            &&& p.total + c@.len() <= u64::MAX ==> can_happen(p, SendEvent::Written)
        },
{
}

} // verus!
