//! The sender's sessions: when to reconnect, what to announce to the receiver,
//! and what to tell the user.
use vstd::arithmetic::power2::{lemma2_to64, lemma_pow2_pos, lemma_pow2_unfold, pow2};
use vstd::prelude::*;

use crate::audio_in::CaptureSpec;
use crate::decimal::{decimal, lemma_decimal_reads, to_decimal};
use crate::net_out::{
    after_all, all_can_happen, in_flight, law_what_came_is_sent, sent, taken, SendEvent,
};
use crate::plain::{number, numeric, stands_at, unsigned2, unsigned4};
use crate::proto::{law_written_header_is_read_back, Format, Header, ProtoError};
use crate::session::ThreadEnd;
use crate::text::{chars_of, lemma_strip_back, lemma_strip_back_once, same_text, string_of, strip_back, without_back};

verus! {

/// The longest pause between two attempts to connect.
pub const MAX_BACKOFF_MS: u64 = 5000;

/// How many chunks the queue between capture and network holds.
pub const QUEUE_CHUNKS: usize = 64;

/// The lesser of the two.
pub open spec fn at_most(n: int, max: int) -> int {
    if n < max {
        n
    } else {
        max
    }
}

/// The pauses between attempts to connect.
#[derive(Debug, Clone, Copy, PartialEq, Eq, Structural)]
pub struct Reconnect {
    /// The pause after a session that ended well, and after the first failure that
    /// follows one.
    pub initial_ms: u64,
    /// The pause after the next failure, before it is bounded.
    pub backoff_ms: u64,
}

impl Reconnect {
    /// Doubling a pause does not overflow.
    pub open spec fn wf(self) -> bool {
        &&& self.initial_ms * 2 <= u64::MAX
        &&& self.backoff_ms * 2 <= u64::MAX
    }

    /// The pause after a session, before it is bounded.
    pub open spec fn base(self, ok: bool) -> int {
        if ok {
            self.initial_ms as int
        } else {
            self.backoff_ms as int
        }
    }

    /// The state after a session that ended well or not: every failure doubles the
    /// pause for the next one, and a session that ended well takes it back.
    pub open spec fn next(self, ok: bool) -> Reconnect {
        Reconnect {
            initial_ms: self.initial_ms,
            backoff_ms: if ok {
                self.initial_ms
            } else {
                at_most(self.backoff_ms * 2, MAX_BACKOFF_MS as int) as u64
            },
        }
    }

    /// The pause after a session that ended well or not.
    pub open spec fn pause(self, ok: bool) -> int {
        at_most(self.base(ok), MAX_BACKOFF_MS as int)
    }

    /// No session has ended yet.
    pub fn new(initial_ms: u64) -> (r: Self)
        requires
            initial_ms * 2 <= u64::MAX,
        ensures
            r == (Reconnect { initial_ms, backoff_ms: initial_ms }),
            r.wf(),
    {
        Reconnect { initial_ms, backoff_ms: initial_ms }
    }

    /// The pause after a session: the initial one after a session that ended well
    /// and after a first failure, and twice as long with every further failure in a
    /// row, up to the longest.
    pub fn after_session(&mut self, ok: bool) -> (sleep_ms: u64)
        requires
            old(self).wf(),
        ensures
            *final(self) == old(self).next(ok),
            sleep_ms == old(self).pause(ok),
            final(self).wf(),
    {
        let base: u64 = if ok {
            self.initial_ms
        } else {
            self.backoff_ms
        };
        if ok {
            self.backoff_ms = self.initial_ms;
        } else {
            let doubled: u64 = self.backoff_ms * 2;
            self.backoff_ms = if doubled < MAX_BACKOFF_MS {
                doubled
            } else {
                MAX_BACKOFF_MS
            };
        }
        if base < MAX_BACKOFF_MS {
            base
        } else {
            MAX_BACKOFF_MS
        }
    }
}

/// The state after `n` failures in a row.
pub open spec fn after_failures(start: Reconnect, n: nat) -> Reconnect
    decreases n,
{
    if n == 0 {
        start
    } else {
        after_failures(start, (n - 1) as nat).next(false)
    }
}

/// After `n` failures in a row, the next one is followed by the initial pause
/// doubled `n` times, but by no more than the longest.
pub proof fn law_pause_doubles(initial_ms: u64, n: nat)
    requires
        initial_ms * 2 <= u64::MAX,
    ensures
        after_failures(Reconnect { initial_ms, backoff_ms: initial_ms }, n).wf(),
        after_failures(Reconnect { initial_ms, backoff_ms: initial_ms }, n).pause(false) == at_most(
            initial_ms * pow2(n),
            MAX_BACKOFF_MS as int,
        ),
    decreases n,
{
    let start = Reconnect { initial_ms, backoff_ms: initial_ms };
    lemma2_to64();
    if n > 0 {
        let m = (n - 1) as nat;
        law_pause_doubles(initial_ms, m);
        lemma_pow2_unfold(n);
        lemma_pow2_pos(m);
        let before = after_failures(start, m);
        let power = pow2(m) as int;
        let grown: int = initial_ms * power;
        assert(initial_ms * pow2(n) == 2 * grown) by (nonlinear_arith)
            requires
                pow2(n) == 2 * power,
                grown == initial_ms * power,
        ;
        assert(grown >= 0) by (nonlinear_arith)
            requires
                grown == initial_ms * power,
                power >= 0,
        ;
        assert(before.pause(false) == at_most(grown, MAX_BACKOFF_MS as int));
        assert(at_most(before.backoff_ms * 2, MAX_BACKOFF_MS as int) == at_most(
            2 * grown,
            MAX_BACKOFF_MS as int,
        ));
    } else {
        assert(initial_ms * pow2(0) == initial_ms);
    }
}

/// A session that ended well takes the pause back to the initial one, for itself
/// and for the first failure that follows; and no pause is ever longer than the
/// longest.
pub proof fn law_success_resets_the_pause(r: Reconnect, ok: bool)
    ensures
        r.pause(true) == at_most(r.initial_ms as int, MAX_BACKOFF_MS as int),
        r.next(true) == (Reconnect { initial_ms: r.initial_ms, backoff_ms: r.initial_ms }),
        r.next(true).pause(false) == r.pause(true),
        r.pause(ok) <= MAX_BACKOFF_MS,
{
}

/// What happened to the loop that keeps the sender connected.
#[derive(Debug, Clone, Copy, PartialEq, Eq, Structural)]
pub enum RunEvent {
    /// The loop stands at its start; whether the program is asked to stop.
    Start { stop: bool },
    /// A session ended, well or not; whether the program is asked to stop.
    Ended { ok: bool, stop: bool },
    /// The pause is looked at; whether it is over and whether the program is
    /// asked to stop.
    Paused { over: bool, stop: bool },
}

/// What the loop does next.
#[derive(Debug, Clone, Copy, PartialEq, Eq, Structural)]
pub enum RunStep {
    /// Run a session.
    Connect,
    /// Begin a pause of so many milliseconds.
    Pause(u64),
    /// Go on with the pause for so many milliseconds, then look again.
    Nap(u64),
    /// Go back to the start.
    Again,
    /// End.
    Exit,
}

/// How long the loop naps before it looks at the stop flag again.
pub const NAP_MS: u64 = 50;

/// Takes an event in and says what is next. The program is never kept from
/// stopping for longer than a nap.
pub fn run(r: &mut Reconnect, event: RunEvent) -> (step: RunStep)
    requires
        old(r).wf(),
    ensures
        final(r).wf(),
        match event {
            RunEvent::Start { stop } => *final(r) == *old(r) && step == if stop {
                RunStep::Exit
            } else {
                RunStep::Connect
            },
            RunEvent::Ended { ok, stop } => if stop {
                *final(r) == *old(r) && step is Exit
            } else {
                *final(r) == old(r).next(ok) && step == RunStep::Pause(old(r).pause(ok) as u64)
            },
            RunEvent::Paused { over, stop } => *final(r) == *old(r) && step == if over || stop {
                RunStep::Again
            } else {
                RunStep::Nap(NAP_MS)
            },
        },
{
    match event {
        RunEvent::Start { stop } => if stop {
            RunStep::Exit
        } else {
            RunStep::Connect
        },
        RunEvent::Ended { ok, stop } => if stop {
            RunStep::Exit
        } else {
            RunStep::Pause(r.after_session(ok))
        },
        RunEvent::Paused { over, stop } => if over || stop {
            RunStep::Again
        } else {
            RunStep::Nap(NAP_MS)
        },
    }
}

/// What a session comes to: the bytes sent, or why it failed.
pub fn try_session(writer: ThreadEnd<u64>) -> (r: Result<u64, String>)
    ensures
        session_result(writer, r),
{
    match writer {
        ThreadEnd::Value(total) => Ok(total),
        ThreadEnd::Error(why) => Err(why),
        ThreadEnd::Panicked => Err("writer panicked".to_owned()),
    }
}

/// Whether to make a virtual output: unless it is declined, or another device
/// than the default one is to be captured.
pub fn wants_virtual_sink(no_virtual_sink: bool, device: &str) -> (r: bool)
    ensures
        r == (!no_virtual_sink && device@ == "default"@),
{
    !no_virtual_sink && same_text(device, "default")
}

/// What a watcher of a worker thread does next.
#[derive(Debug, Clone, Copy, PartialEq, Eq, Structural)]
pub enum WatchStep {
    /// The worker has ended; collect its result.
    Join,
    /// Shut the connection down, so that the worker ends, and collect its result.
    Shutdown,
    /// Look again a little later.
    Sleep,
}

/// A worker is watched until it ends or the program is asked to stop. Then the
/// connection is shut down, or a blocked call would hold the worker for seconds.
pub fn watch(finished: bool, stop: bool) -> (step: WatchStep)
    ensures
        step == if finished {
            WatchStep::Join
        } else if stop {
            WatchStep::Shutdown
        } else {
            WatchStep::Sleep
        },
{
    if finished {
        WatchStep::Join
    } else if stop {
        WatchStep::Shutdown
    } else {
        WatchStep::Sleep
    }
}

/// The header that announces a stream.
pub open spec fn announced(spec: CaptureSpec) -> Header {
    Header { format: spec.wire_format, channels: spec.channels, sample_rate: spec.rate }
}

/// The header that announces the stream.
pub fn session_header(spec: &CaptureSpec) -> (h: Header)
    ensures
        h == announced(*spec),
{
    Header { format: spec.wire_format, channels: spec.channels, sample_rate: spec.rate }
}

/// How far a session has come.
#[derive(Debug, Clone, Copy, PartialEq, Eq, Structural)]
pub enum SessionStage {
    /// The connection is being made.
    Connecting,
    /// The header is being written.
    Header,
    /// Chunks that piled up before are taken off the queue and thrown away.
    Draining,
    /// The pump sends what comes off the queue.
    Pumping,
    /// The session is over.
    Ended,
}

/// What happened to a session.
pub enum SessionEvent {
    /// Connecting succeeded, or failed for this reason.
    Connected(Result<(), String>),
    /// Writing the header succeeded, or failed for this reason.
    HeaderWritten(Result<(), String>),
    /// The queue was looked at without waiting: the chunk that came off it, or
    /// `None` if it was empty.
    Stale(Option<Vec<u8>>),
    /// The thread that runs the pump ended.
    WriterEnded(ThreadEnd<u64>),
}

/// What a session does next.
pub enum SessionStep {
    /// Write these bytes.
    Send(Vec<u8>),
    /// Take a chunk off the queue without waiting.
    Drain,
    /// Run the pump.
    Pump,
    /// The session is over: the bytes that the pump sent, or why it failed.
    Done(Result<u64, String>),
}

/// The event can happen at that stage.
pub open spec fn session_fits(stage: SessionStage, event: SessionEvent) -> bool {
    match event {
        SessionEvent::Connected(_) => stage is Connecting,
        SessionEvent::HeaderWritten(_) => stage is Header,
        SessionEvent::Stale(_) => stage is Draining,
        SessionEvent::WriterEnded(_) => stage is Pumping,
    }
}

/// The stage after an event.
pub open spec fn session_stage(event: SessionEvent) -> SessionStage {
    match event {
        SessionEvent::Connected(Ok(_)) => SessionStage::Header,
        SessionEvent::HeaderWritten(Ok(_)) => SessionStage::Draining,
        SessionEvent::Stale(Some(_)) => SessionStage::Draining,
        SessionEvent::Stale(None) => SessionStage::Pumping,
        _ => SessionStage::Ended,
    }
}

/// What a writer's end comes to.
pub open spec fn session_result(writer: ThreadEnd<u64>, r: Result<u64, String>) -> bool {
    match writer {
        ThreadEnd::Value(total) => r matches Ok(n) && n == total,
        ThreadEnd::Error(why) => r matches Err(e) && e@ == why@,
        ThreadEnd::Panicked => r matches Err(e) && e@ == "writer panicked"@,
    }
}

/// `step` is what follows an event.
pub open spec fn session_follows(
    spec: CaptureSpec,
    event: SessionEvent,
    step: SessionStep,
) -> bool {
    match event {
        SessionEvent::Connected(Ok(_)) => step matches SessionStep::Send(bytes) && bytes@
            == announced(spec).wire(),
        SessionEvent::HeaderWritten(Ok(_)) => step is Drain,
        SessionEvent::Stale(Some(_)) => step is Drain,
        SessionEvent::Stale(None) => step is Pump,
        SessionEvent::Connected(Err(why)) => step matches SessionStep::Done(Err(e)) && e@ == why@,
        SessionEvent::HeaderWritten(Err(why)) => step matches SessionStep::Done(Err(e)) && e@
            == why@,
        SessionEvent::WriterEnded(writer) => step matches SessionStep::Done(r) && session_result(
            writer,
            r,
        ),
    }
}

/// Takes a session one step on. The header goes first; then what piled up in the
/// queue while there was no connection is thrown away, so that the stream starts
/// close to real time; and only then is anything off the queue sent.
pub fn session_step(
    stage: &mut SessionStage,
    spec: &CaptureSpec,
    event: SessionEvent,
) -> (step: SessionStep)
    requires
        session_fits(*old(stage), event),
    ensures
        *final(stage) == session_stage(event),
        session_follows(*spec, event, step),
{
    *stage = SessionStage::Ended;
    match event {
        SessionEvent::Connected(Ok(_)) => {
            let mut bytes: Vec<u8> = Vec::new();
            match session_header(spec).write_to(&mut bytes) {
                Ok(_) => {
                    assert(bytes@ =~= announced(*spec).wire());
                    *stage = SessionStage::Header;
                    SessionStep::Send(bytes)
                },
                Err(e) => SessionStep::Done(Err(e.message())),
            }
        },
        SessionEvent::Connected(Err(why)) => SessionStep::Done(Err(why)),
        SessionEvent::HeaderWritten(Ok(_)) => {
            *stage = SessionStage::Draining;
            SessionStep::Drain
        },
        SessionEvent::HeaderWritten(Err(why)) => SessionStep::Done(Err(why)),
        SessionEvent::Stale(Some(_)) => {
            *stage = SessionStage::Draining;
            SessionStep::Drain
        },
        SessionEvent::Stale(None) => {
            *stage = SessionStage::Pumping;
            SessionStep::Pump
        },
        SessionEvent::WriterEnded(writer) => SessionStep::Done(try_session(writer)),
    }
}

/// The stage after `events`.
pub open spec fn stage_in(events: Seq<SessionEvent>) -> SessionStage {
    if events.len() == 0 {
        SessionStage::Connecting
    } else {
        session_stage(events.last())
    }
}

/// Each event can happen where it stands.
pub open spec fn session_events(events: Seq<SessionEvent>) -> bool
    decreases events.len(),
{
    events.len() > 0 ==> {
        &&& session_events(events.drop_last())
        &&& session_fits(stage_in(events.drop_last()), events.last())
    }
}

/// What the steps after `events` sent before the pump ran.
pub open spec fn opening(spec: CaptureSpec, events: Seq<SessionEvent>) -> Seq<u8>
    decreases events.len(),
{
    if events.len() == 0 {
        Seq::empty()
    } else {
        match events.last() {
            SessionEvent::Connected(Ok(_)) => opening(spec, events.drop_last())
                + announced(spec).wire(),
            _ => opening(spec, events.drop_last()),
        }
    }
}

/// What was taken off the queue and thrown away.
pub open spec fn discarded(events: Seq<SessionEvent>) -> Seq<u8>
    decreases events.len(),
{
    if events.len() == 0 {
        Seq::empty()
    } else {
        match events.last() {
            SessionEvent::Stale(Some(chunk)) => discarded(events.drop_last()) + chunk@,
            _ => discarded(events.drop_last()),
        }
    }
}

/// The connection was made.
pub open spec fn connected(events: Seq<SessionEvent>) -> bool {
    events.len() > 0 && events[0] is Connected && events[0]->Connected_0 is Ok
}

/// The header is sent once, if there is a connection, and nothing else before the
/// pump runs. Nothing is taken off the queue before the header is written, so
/// without a connection the queue is left alone. The pump runs only once the queue
/// was found empty.
pub proof fn law_header_goes_first(spec: CaptureSpec, events: Seq<SessionEvent>)
    requires
        session_events(events),
    ensures
        opening(spec, events) == if connected(events) {
            announced(spec).wire()
        } else {
            Seq::empty()
        },
        forall|i: int|
            0 <= i < events.len() && #[trigger] events[i] is Stale ==> i >= 2 && connected(events)
                && events[1] is HeaderWritten && events[1]->HeaderWritten_0 is Ok,
        !connected(events) ==> discarded(events) == Seq::<u8>::empty(),
        stage_in(events) is Pumping ==> connected(events) && events.last() == SessionEvent::Stale(
            None,
        ),
{
    lemma_session(spec, events);
}

/// The shape of a session, by its length.
proof fn lemma_session(spec: CaptureSpec, events: Seq<SessionEvent>)
    requires
        session_events(events),
    ensures
        events.len() > 0 ==> events[0] is Connected,
        events.len() > 1 ==> events[0]->Connected_0 is Ok && events[1] is HeaderWritten,
        events.len() > 2 ==> events[1]->HeaderWritten_0 is Ok,
        forall|i: int| 0 <= i < events.len() && #[trigger] events[i] is Stale ==> i >= 2,
        opening(spec, events) == if events.len() > 0 && events[0]->Connected_0 is Ok {
            announced(spec).wire()
        } else {
            Seq::empty()
        },
        events.len() < 3 ==> discarded(events) == Seq::<u8>::empty(),
        events.len() == 1 ==> stage_in(events) is Header || stage_in(events) is Ended,
        events.len() == 2 ==> stage_in(events) is Draining || stage_in(events) is Ended,
        events.len() > 2 ==> !(stage_in(events) is Connecting) && !(stage_in(events) is Header),
        stage_in(events) is Pumping ==> events.len() > 2,
    decreases events.len(),
{
    if events.len() > 0 {
        let before = events.drop_last();
        lemma_session(spec, before);
        assert(forall|i: int| 0 <= i < before.len() ==> #[trigger] events[i] == before[i]);
        assert(events[events.len() - 1] == events.last());
        if events.len() == 1 {
            assert(opening(spec, before) == Seq::<u8>::empty());
            assert(opening(spec, events) =~= if events[0]->Connected_0 is Ok {
                announced(spec).wire()
            } else {
                Seq::empty()
            });
        }
        assert(before.len() > 0 ==> before[0] == events[0]);
        assert(before.len() > 1 ==> before[1] == events[1]);
    }
}

/// The whole stream of a session: the header of what is captured, once, and then
/// only whole chunks that came off the queue after it was found empty, in order.
/// What was in the queue before is thrown away, and none of it is sent.
pub proof fn law_session_stream(
    spec: CaptureSpec,
    events: Seq<SessionEvent>,
    pumping: Seq<SendEvent>,
)
    requires
        session_events(events),
        stage_in(events) is Pumping,
        all_can_happen(pumping),
        forall|i: int| 0 <= i < pumping.len() ==> !(#[trigger] pumping[i] is WriteFailed),
    ensures
        opening(spec, events) + sent(pumping) + in_flight(after_all(pumping)) == announced(
            spec,
        ).wire() + taken(pumping),
{
    law_header_goes_first(spec, events);
    law_what_came_is_sent(pumping);
    assert(opening(spec, events) + sent(pumping) + in_flight(after_all(pumping)) =~= announced(
        spec,
    ).wire() + (sent(pumping) + in_flight(after_all(pumping))));
}

/// The label of the virtual output: the one asked for, or one made of the host.
pub open spec fn label_of(host: Seq<char>, name: Option<Seq<char>>) -> Seq<char> {
    match name {
        Some(n) => n,
        None => "Raspberry Pi ("@ + strip_back(host, ".local"@) + ")"@,
    }
}

/// The label of the virtual output.
pub fn output_label(host: &str, name: Option<&str>) -> (r: String)
    ensures
        r@ == label_of(
            host@,
            match name {
                Some(n) => Some(n@),
                None => None,
            },
        ),
{
    match name {
        Some(n) => n.to_owned(),
        None => {
            let mut r: String = "Raspberry Pi (".to_owned();
            r.append(string_of(&without_back(&chars_of(host), &chars_of(".local"))).as_str());
            r.append(")");
            r
        },
    }
}

/// The name of a wire format.
pub open spec fn format_name(f: Format) -> Seq<char> {
    match f {
        Format::S16LE => "S16LE"@,
        Format::S32LE => "S32LE"@,
        Format::F32LE => "F32LE"@,
    }
}

/// What the user is told when a session begins.
pub fn streaming_text(host: &str, port: u16, header: &Header) -> (r: String)
    ensures
        r@ == "Streaming to "@ + host@ + ":"@ + decimal(port as nat) + " — "@ + format_name(
            header.format,
        ) + " / "@ + decimal(header.sample_rate as nat) + " Hz / "@ + decimal(
            header.channels as nat,
        ) + "ch"@,
{
    let mut r: String = "Streaming to ".to_owned();
    r.append(host);
    r.append(":");
    r.append(to_decimal(port as u64).as_str());
    r.append(" — ");
    r.append(
        match header.format {
            Format::S16LE => "S16LE",
            Format::S32LE => "S32LE",
            Format::F32LE => "F32LE",
        },
    );
    r.append(" / ");
    r.append(to_decimal(header.sample_rate as u64).as_str());
    r.append(" Hz / ");
    r.append(to_decimal(header.channels as u64).as_str());
    r.append("ch");
    r
}

/// The header declares the rate, the channels and the format that are captured.
pub proof fn law_header_declares_the_capture(spec: &CaptureSpec, h: Header)
    requires
        call_ensures(session_header, (spec,), h),
    ensures
        h.sample_rate == spec.rate,
        h.channels == spec.channels,
        h.format == spec.wire_format,
{
}

/// What a session sends first is sixteen bytes that declare the capture, and a receiver
/// that parses them, with the stream behind them, learns the rate, the channels and the
/// format that are captured, and stands at the first byte of the stream.
pub proof fn law_receiver_learns_the_capture(
    stage: &mut SessionStage,
    spec: &CaptureSpec,
    step: SessionStep,
    src: &mut &[u8],
    stream: Seq<u8>,
    r: Result<Header, ProtoError>,
)
    requires
        call_ensures(session_step, (stage, spec, SessionEvent::Connected(Ok(()))), step),
    ensures
        step matches SessionStep::Send(bytes) && {
            &&& bytes@.len() == 16
            &&& unsigned2(bytes@, 6) == spec.channels
            &&& unsigned4(bytes@, 8) == spec.rate
            &&& spec.wire_format is S16LE <==> bytes@[5] == 0
            &&& spec.wire_format is S32LE <==> bytes@[5] == 1
            &&& spec.wire_format is F32LE <==> bytes@[5] == 2
            &&& call_ensures(Header::read_from, (src,), r) && (*old(src))@ == bytes@ + stream
                && spec.channels > 0 && spec.rate > 0 ==> {
                &&& r matches Ok(h)
                &&& h.sample_rate == spec.rate
                &&& h.channels == spec.channels
                &&& h.format == spec.wire_format
                &&& (*final(src))@ == stream
            }
        },
{
    let h = announced(*spec);
    let b = h.wire();
    let c = crate::proto::le16(h.channels);
    let s = crate::proto::le32(h.sample_rate);
    assert(b[6] == c[0] && b[7] == c[1]);
    assert(b[8] == s[0] && b[9] == s[1] && b[10] == s[2] && b[11] == s[3]);
    assert(crate::proto::of_le32(s) == h.sample_rate);
    if spec.channels > 0 && spec.rate > 0 {
        law_written_header_is_read_back(h, stream);
    }
}

/// A session goes on after what went well, and is over, for the reason given, after what
/// failed: the header is sent when the connection is made, the queue is emptied when the
/// header was written, until nothing comes off it, and only then does the pump run.
pub proof fn law_session_goes_on_in_order(
    stage: &mut SessionStage,
    spec: &CaptureSpec,
    event: SessionEvent,
    step: SessionStep,
)
    requires
        call_ensures(session_step, (stage, spec, event), step),
    ensures
        step is Send <==> event matches SessionEvent::Connected(Ok(_)),
        step is Drain <==> (event matches SessionEvent::HeaderWritten(Ok(_))) || (
        event matches SessionEvent::Stale(Some(_))),
        step is Pump <==> event matches SessionEvent::Stale(None),
        event matches SessionEvent::Connected(Err(why)) ==> (
        step matches SessionStep::Done(Err(e)) && e@ == why@),
        event matches SessionEvent::HeaderWritten(Err(why)) ==> (
        step matches SessionStep::Done(Err(e)) && e@ == why@),
        event matches SessionEvent::WriterEnded(ThreadEnd::Value(total)) ==> (
        step matches SessionStep::Done(Ok(n)) && n == total),
        event matches SessionEvent::WriterEnded(ThreadEnd::Error(why)) ==> (
        step matches SessionStep::Done(Err(e)) && e@ == why@),
        event matches SessionEvent::WriterEnded(ThreadEnd::Panicked) ==> (
        step matches SessionStep::Done(Err(e)) && e@ == "writer panicked"@),
        *final(stage) == match step {
            SessionStep::Send(_) => SessionStage::Header,
            SessionStep::Drain => SessionStage::Draining,
            SessionStep::Pump => SessionStage::Pumping,
            SessionStep::Done(_) => SessionStage::Ended,
        },
{
}

/// A session comes to what its writer came to: the bytes sent, or why it failed.
pub proof fn law_session_comes_to_what_its_writer_did(
    writer: ThreadEnd<u64>,
    r: Result<u64, String>,
)
    requires
        call_ensures(try_session, (writer,), r),
    ensures
        r is Ok <==> writer is Value,
        writer matches ThreadEnd::Value(total) ==> r->Ok_0 == total,
        writer matches ThreadEnd::Error(why) ==> r->Err_0@ == why@,
        writer is Panicked ==> r->Err_0@ == "writer panicked"@,
{
}

/// The pause after a session that ended well is the initial one, and after a failure the
/// one that stands, never more than five seconds; a failure doubles the one that stands,
/// up to that, and a session that ended well sets it back.
pub proof fn law_pause_after_a_session(r: &mut Reconnect, ok: bool, pause: u64)
    requires
        call_ensures(Reconnect::after_session, (r, ok), pause),
    ensures
        pause <= 5000,
        final(r).initial_ms == old(r).initial_ms,
        ok && old(r).initial_ms <= 5000 ==> pause == old(r).initial_ms,
        ok && old(r).initial_ms > 5000 ==> pause == 5000,
        !ok && old(r).backoff_ms <= 5000 ==> pause == old(r).backoff_ms,
        !ok && old(r).backoff_ms > 5000 ==> pause == 5000,
        ok ==> final(r).backoff_ms == old(r).initial_ms,
        !ok && old(r).backoff_ms <= 2500 ==> final(r).backoff_ms == 2 * old(r).backoff_ms,
        !ok && old(r).backoff_ms > 2500 ==> final(r).backoff_ms == 5000,
{
}

/// Two failures in a row: the second pause is twice the first, or five seconds. A session
/// that ends well between them makes it the first again.
pub proof fn law_second_failure_waits_twice_as_long(
    initial: u64,
    start: Reconnect,
    a: &mut Reconnect,
    b: &mut Reconnect,
    ok: bool,
    first: u64,
    second: u64,
)
    requires
        call_ensures(Reconnect::new, (initial,), start),
        *old(a) == start,
        call_ensures(Reconnect::after_session, (a, ok), first),
        *old(b) == *final(a),
        call_ensures(Reconnect::after_session, (b, false), second),
    ensures
        initial <= 5000 ==> first == initial,
        initial > 5000 ==> first == 5000,
        !ok && 2 * initial <= 5000 ==> second == 2 * initial,
        !ok && 2 * initial > 5000 ==> second == 5000,
        ok ==> second == first,
{
}

/// The loop connects unless it is asked to stop, pauses after each session as long as
/// the session calls for, and goes back to its start when the pause is over or the
/// program is asked to stop; between two looks it naps for less than a tenth of a second.
pub proof fn law_loop_stops_when_asked(
    r: &mut Reconnect,
    event: RunEvent,
    step: RunStep,
    again: &mut Reconnect,
    pause: u64,
)
    requires
        call_ensures(run, (r, event), step),
    ensures
        event matches RunEvent::Start { stop } ==> (step is Exit <==> stop) && (step is Connect
            <==> !stop) && *final(r) == *old(r),
        event matches RunEvent::Ended { ok, stop } ==> {
            &&& step is Exit <==> stop
            &&& step is Pause <==> !stop
            &&& stop ==> *final(r) == *old(r)
            &&& !stop && *old(again) == *old(r) && call_ensures(
                Reconnect::after_session,
                (again, ok),
                pause,
            ) ==> step == RunStep::Pause(pause) && *final(r) == *final(again)
        },
        event matches RunEvent::Paused { over, stop } ==> (step is Again <==> over || stop) && (
        step is Nap <==> !over && !stop) && *final(r) == *old(r),
        step matches RunStep::Nap(ms) ==> 0 < ms < 100,
{
}

/// A worker that has ended is joined; one that has not is let alone unless the program is
/// asked to stop, and then the connection is shut down.
pub proof fn law_worker_is_watched(finished: bool, stop: bool, step: WatchStep)
    requires
        call_ensures(watch, (finished, stop), step),
    ensures
        step is Join <==> finished,
        step is Shutdown <==> !finished && stop,
        step is Sleep <==> !finished && !stop,
{
}

/// A virtual output is made exactly if it is not declined and the device is called
/// `default`.
pub proof fn law_virtual_output_is_for_the_default(declined: bool, device: &str, r: bool)
    requires
        call_ensures(wants_virtual_sink, (declined, device), r),
    ensures
        declined ==> !r,
        !declined ==> (r <==> device@ == seq!['d', 'e', 'f', 'a', 'u', 'l', 't']),
{
    reveal_strlit("default");
    assert("default"@ =~= seq!['d', 'e', 'f', 'a', 'u', 'l', 't']);
}

/// The virtual output has the label asked for, whatever the host. Without one it is
/// labelled by the host, without `.local` at its end.
pub proof fn law_output_is_labelled(
    host: &str,
    name: Option<&str>,
    r: String,
    short: Seq<char>,
)
    requires
        call_ensures(output_label, (host, name), r),
        !stands_at(short, ".local"@, short.len() - 6),
    ensures
        name is Some ==> r@ == name->0@,
        name is None && (host@ == short || host@ == short + ".local"@) ==> r@ == "Raspberry Pi ("@
            + short + ")"@,
        name is None ==> exists|h: Seq<char>|
            {
                &&& r@ == #[trigger] ("Raspberry Pi ("@ + h + ")"@)
                &&& h.len() <= host@.len() && host@.take(h.len() as int) == h
                &&& !stands_at(h, ".local"@, h.len() - 6)
                &&& (host@.len() - h.len()) % 6 == 0
                &&& forall|k: int|
                    h.len() <= k < host@.len() ==> #[trigger] host@[k] == ".local"@[(k - h.len())
                        % 6]
            },
{
    reveal_strlit(".local");
    lemma_strip_back_once(short, ".local"@);
    lemma_strip_back(host@, ".local"@);
    if name is None {
        let h = strip_back(host@, ".local"@);
        assert(r@ == "Raspberry Pi ("@ + h + ")"@);
    }
}

/// When a session begins the user is told the host, the port, and the format, rate and
/// channels that were announced.
pub proof fn law_user_is_told_of_the_stream(host: &str, port: u16, header: &Header, r: String)
    requires
        call_ensures(streaming_text, (host, port, header), r),
    ensures
        exists|p: Seq<char>, rate: Seq<char>, channels: Seq<char>|
            {
                &&& numeric(p) && number(p) == port
                &&& numeric(rate) && number(rate) == header.sample_rate
                &&& numeric(channels) && number(channels) == header.channels
                &&& r@ == #[trigger] told_stream(host@, p, header.format, rate, channels)
            },
{
    lemma_decimal_reads(port as nat);
    lemma_decimal_reads(header.sample_rate as nat);
    lemma_decimal_reads(header.channels as nat);
    let p = decimal(port as nat);
    let rate = decimal(header.sample_rate as nat);
    let channels = decimal(header.channels as nat);
    assert(r@ == told_stream(host@, p, header.format, rate, channels));
}

/// What the user is told, from its parts.
pub open spec fn told_stream(
    host: Seq<char>,
    port: Seq<char>,
    format: Format,
    rate: Seq<char>,
    channels: Seq<char>,
) -> Seq<char> {
    "Streaming to "@ + host + ":"@ + port + " — "@ + match format {
        Format::S16LE => "S16LE"@,
        Format::S32LE => "S32LE"@,
        Format::F32LE => "F32LE"@,
    } + " / "@ + rate + " Hz / "@ + channels
        + "ch"@
}

} // verus!
