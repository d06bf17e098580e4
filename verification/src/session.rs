//! The receiver's sessions: one connection at a time, with CamillaDSP on the
//! bridge configuration while it lasts.
use vstd::prelude::*;

use crate::alsa_out::{all_possible, law_stream_is_kept, received, written, PlaybackEvent};
use crate::audio_in::CaptureSpec;
use crate::net_in::{
    all_follow, joined, law_what_is_read_is_queued, queued, read_in, reader_stays, PumpEvent,
};
use crate::net_out::{all_can_happen, law_what_came_is_sent, sent, taken, SendEvent};
use crate::proto::{
    header_of, law_written_header_is_read_back, Header, ProtoError, HEADER_LEN,
};
use crate::sender::{
    announced, law_header_goes_first, opening, session_events, stage_in, SessionEvent,
};

verus! {

/// How many chunks the queue between network and playback holds.
pub const QUEUE_CHUNKS: usize = 32;

/// How long CamillaDSP gets to open its capture again after a swap.
pub const SETTLE_MS: u64 = 500;

/// What accepting a connection gave.
#[derive(Debug, Clone, Copy, PartialEq, Eq, Structural)]
pub enum Accepted {
    /// A connection.
    Connection,
    /// None is waiting.
    WouldBlock,
    /// A failure.
    Failed,
}

/// What the accept loop does next.
#[derive(Debug, Clone, Copy, PartialEq, Eq, Structural)]
pub enum AcceptStep {
    /// Serve the connection, then go on.
    Serve,
    /// Sleep so many milliseconds, then go on.
    Sleep(u64),
}

/// What follows an attempt to accept a connection.
pub fn accept_loop(outcome: Accepted) -> (step: AcceptStep)
    ensures
        step == match outcome {
            Accepted::Connection => AcceptStep::Serve,
            Accepted::WouldBlock => AcceptStep::Sleep(50),
            Accepted::Failed => AcceptStep::Sleep(200),
        },
{
    match outcome {
        Accepted::Connection => AcceptStep::Serve,
        Accepted::WouldBlock => AcceptStep::Sleep(50),
        Accepted::Failed => AcceptStep::Sleep(200),
    }
}

/// Which configurations to swap in, and where CamillaDSP is.
pub struct SwapOpts<'a> {
    pub bridge_config: Option<&'a str>,
    pub idle_config: Option<&'a str>,
    /// Empty if nothing is to be swapped.
    pub camilla_host: &'a str,
}

/// One action of a session.
pub enum Action<'a> {
    /// Swap in the configuration at `path`.
    Swap { path: &'a str, label: &'static str },
    /// Wait so many milliseconds.
    Settle(u64),
    /// Play what the connection brings until it ends.
    Play,
}

/// One action of a session, as plain values.
pub enum ActionView {
    Swap { path: Seq<char>, label: Seq<char> },
    Settle(nat),
    Play,
}

impl<'a> View for Action<'a> {
    type V = ActionView;

    open spec fn view(&self) -> ActionView {
        match self {
            Action::Swap { path, label } => ActionView::Swap { path: path@, label: label@ },
            Action::Settle(ms) => ActionView::Settle(*ms as nat),
            Action::Play => ActionView::Play,
        }
    }
}

/// The actions that a list holds.
pub open spec fn action_views(v: Seq<Action>) -> Seq<ActionView> {
    Seq::new(v.len(), |i: int| v[i]@)
}

/// What comes before playing: the bridge configuration is swapped in, and given
/// time, if there is one and a CamillaDSP to swap it into.
pub open spec fn before_play(opts: SwapOpts) -> Seq<ActionView> {
    match opts.bridge_config {
        Some(path) => if opts.camilla_host@.len() > 0 {
            seq![
                ActionView::Swap { path: path@, label: "bridge"@ },
                ActionView::Settle(SETTLE_MS as nat),
            ]
        } else {
            Seq::empty()
        },
        None => Seq::empty(),
    }
}

/// What comes after playing: the idle configuration is swapped in, if there is
/// one and a CamillaDSP to swap it into.
pub open spec fn after_play(opts: SwapOpts) -> Seq<ActionView> {
    match opts.idle_config {
        Some(path) => if opts.camilla_host@.len() > 0 {
            seq![ActionView::Swap { path: path@, label: "idle"@ }]
        } else {
            Seq::empty()
        },
        None => Seq::empty(),
    }
}

/// The actions of a session, in order.
pub open spec fn session_actions(opts: SwapOpts) -> Seq<ActionView> {
    before_play(opts) + seq![ActionView::Play] + after_play(opts)
}

/// The actions of a session whose header has been read. Each is taken whatever
/// came of the one before. Without a header there is no session.
pub fn handle_session<'a>(header: Result<Header, ProtoError>, opts: &SwapOpts<'a>) -> (r: Result<
    (Header, Vec<Action<'a>>),
    ProtoError,
>)
    ensures
        match header {
            Ok(h) => r matches Ok((g, actions)) && g == h && action_views(actions@)
                == session_actions(*opts),
            Err(e) => r matches Err(f) && f == e,
        },
{
    let h = match header {
        Ok(h) => h,
        Err(e) => {
            return Err(e);
        },
    };
    let mut actions: Vec<Action<'a>> = Vec::new();
    let swaps: bool = !opts.camilla_host.is_empty();
    match opts.bridge_config {
        Some(path) => if swaps {
            actions.push(Action::Swap { path, label: "bridge" });
            actions.push(Action::Settle(SETTLE_MS));
        },
        None => {},
    }
    assert(action_views(actions@) =~= before_play(*opts));
    actions.push(Action::Play);
    assert(action_views(actions@) =~= before_play(*opts) + seq![ActionView::Play]);
    match opts.idle_config {
        Some(path) => if swaps {
            actions.push(Action::Swap { path, label: "idle" });
        },
        None => {},
    }
    assert(action_views(actions@) =~= session_actions(*opts));
    Ok((h, actions))
}

/// Every session plays exactly once. The bridge configuration is swapped in
/// before that and the idle one after it, and no other time.
pub proof fn law_session_restores_the_idle_config(opts: SwapOpts)
    ensures
        ({
            let s = session_actions(opts);
            let k = before_play(opts).len() as int;
            &&& 0 <= k < s.len()
            &&& forall|i: int| 0 <= i < s.len() ==> (#[trigger] s[i] is Play <==> i == k)
            &&& forall|i: int|
                0 <= i < s.len() ==> (#[trigger] s[i] matches ActionView::Swap { path, label } ==> {
                    &&& i != k
                    &&& i < k ==> label == "bridge"@ && opts.bridge_config is Some && path
                        == opts.bridge_config->0@
                    &&& i > k ==> label == "idle"@ && opts.idle_config is Some && path
                        == opts.idle_config->0@
                })
            &&& opts.camilla_host@.len() > 0 && opts.idle_config is Some ==> s.last() == (
            ActionView::Swap { path: opts.idle_config->0@, label: "idle"@ })
            &&& opts.camilla_host@.len() > 0 && opts.bridge_config is Some ==> s[0] == (
            ActionView::Swap { path: opts.bridge_config->0@, label: "bridge"@ })
            &&& opts.camilla_host@.len() == 0 ==> s == seq![ActionView::Play]
        }),
{
    let s = session_actions(opts);
    if opts.camilla_host@.len() == 0 {
        assert(s =~= seq![ActionView::Play]);
    }
}

/// What became of an action.
pub enum ServeEvent {
    /// A swap was tried, or a wait is over. What came of a swap makes no difference.
    Taken,
    /// Playing ended with this.
    Played(Result<u64, String>),
}

/// What a session does next.
pub enum ServeStep {
    /// Take the action with this number.
    Act(usize),
    /// The session is over, with this.
    Done(Result<u64, String>),
}

/// The event is one that the action ends with.
pub open spec fn ends_action(action: ActionView, event: ServeEvent) -> bool {
    action is Play <==> event is Played
}

/// What playing gave, if the event tells.
pub open spec fn told(before: Option<Result<u64, String>>, event: ServeEvent) -> Option<
    Result<u64, String>,
> {
    match event {
        ServeEvent::Played(r) => Some(r),
        ServeEvent::Taken => before,
    }
}

/// One of the first `n` actions is to play.
pub open spec fn plays_within(actions: Seq<Action>, n: int) -> bool {
    exists|i: int| 0 <= i < n && i < actions.len() && #[trigger] actions[i]@ is Play
}

/// A session that is under way.
pub struct Serving<'a> {
    /// The actions, in order.
    pub actions: Vec<Action<'a>>,
    /// The number of the action that is being taken.
    pub at: usize,
    /// What playing gave, once it ended.
    pub outcome: Option<Result<u64, String>>,
}

impl<'a> Serving<'a> {
    /// There is something to play, and what it gave is known once it was played.
    pub open spec fn wf(self) -> bool {
        &&& self.at < self.actions@.len()
        &&& plays_within(self.actions@, self.actions@.len() as int)
        &&& self.outcome is Some <==> plays_within(self.actions@, self.at as int)
    }

    /// Begins a session whose header has been read, with its first action. Without
    /// a header there is no session, and no swap.
    pub fn begin(header: Result<Header, ProtoError>, opts: &SwapOpts<'a>) -> (r: Result<
        (Header, Serving<'a>),
        ProtoError,
    >)
        ensures
            match header {
                Ok(h) => {
                    &&& r matches Ok((g, s))
                    &&& g == h
                    &&& s.wf()
                    &&& s.at == 0
                    &&& s.outcome is None
                    &&& action_views(s.actions@) == session_actions(*opts)
                },
                Err(e) => r matches Err(f) && f == e,
            },
    {
        match handle_session(header, opts) {
            Ok((h, actions)) => {
                proof {
                    let k = before_play(*opts).len() as int;
                    assert(action_views(actions@).len() == actions@.len());
                    assert(action_views(actions@)[k] is Play);
                    assert(actions@[k]@ is Play);
                }
                Ok((h, Serving { actions, at: 0, outcome: None }))
            },
            Err(e) => Err(e),
        }
    }

    /// Takes in what became of the action that was taken, and says what is next. The
    /// session ends with what playing gave, whatever came of anything else.
    pub fn step(&mut self, event: ServeEvent) -> (step: ServeStep)
        requires
            old(self).wf(),
            ends_action(old(self).actions@[old(self).at as int]@, event),
        ensures
            final(self).actions == old(self).actions,
            final(self).at == old(self).at + 1,
            if old(self).at + 1 < old(self).actions@.len() {
                &&& step == ServeStep::Act((old(self).at + 1) as usize)
                &&& final(self).wf()
                &&& final(self).outcome == told(old(self).outcome, event)
            } else {
                &&& told(old(self).outcome, event) is Some
                &&& step == ServeStep::Done(told(old(self).outcome, event)->0)
            },
    {
        let ghost here = self.at as int;
        let ghost all = self.actions@;
        let n: usize = self.actions.len();
        match event {
            ServeEvent::Played(r) => {
                self.outcome = Some(r);
                assert(all[here]@ is Play);
            },
            ServeEvent::Taken => {},
        }
        self.at = self.at + 1;
        proof {
            assert(plays_within(all, here + 1) <==> plays_within(all, here) || all[here]@ is Play);
        }
        if self.at < n {
            return ServeStep::Act(self.at);
        }
        ServeStep::Done(self.outcome.take().unwrap())
    }
}

/// What playing gave, as far as `events` tell.
pub open spec fn told_in(events: Seq<ServeEvent>) -> Option<Result<u64, String>>
    decreases events.len(),
{
    if events.len() == 0 {
        None
    } else {
        told(told_in(events.drop_last()), events.last())
    }
}

/// A session ends with the result of playing, whatever the swaps did, and the swap
/// back to the idle configuration is tried whatever that result is.
pub proof fn law_session_ends_as_it_played(opts: SwapOpts, events: Seq<ServeEvent>)
    requires
        events.len() == session_actions(opts).len(),
        forall|i: int|
            0 <= i < events.len() ==> ends_action(session_actions(opts)[i], #[trigger] events[i]),
    ensures
        ({
            let k = before_play(opts).len() as int;
            &&& 0 <= k < events.len()
            &&& events[k] is Played
            &&& told_in(events) == Some(events[k]->Played_0)
        }),
{
    let k = before_play(opts).len() as int;
    law_session_restores_the_idle_config(opts);
    assert(session_actions(opts)[k] is Play);
    assert(ends_action(session_actions(opts)[k], events[k]));
    lemma_told(opts, events, events.len() as int);
    assert(events.take(events.len() as int) =~= events);
}

proof fn lemma_told(opts: SwapOpts, events: Seq<ServeEvent>, n: int)
    requires
        0 <= n <= events.len(),
        events.len() == session_actions(opts).len(),
        forall|i: int|
            0 <= i < events.len() ==> ends_action(session_actions(opts)[i], #[trigger] events[i]),
    ensures
        ({
            let k = before_play(opts).len() as int;
            told_in(events.take(n)) == if k < n {
                Some(events[k]->Played_0)
            } else {
                None
            }
        }),
    decreases n,
{
    let s = session_actions(opts);
    let k = before_play(opts).len() as int;
    law_session_restores_the_idle_config(opts);
    if n > 0 {
        lemma_told(opts, events, n - 1);
        assert(events.take(n).drop_last() =~= events.take(n - 1));
        assert(events.take(n).last() == events[n - 1]);
        assert(ends_action(s[n - 1], events[n - 1]));
        assert(s[n - 1] is Play <==> n - 1 == k);
    }
}

/// How a worker thread ended.
pub enum ThreadEnd<T> {
    /// With this result.
    Value(T),
    /// With this error.
    Error(String),
    /// In a panic.
    Panicked,
}

/// What went wrong in a session.
#[derive(Debug)]
pub enum SessionError {
    NetPanicked,
    Net(String),
    AlsaPanicked,
    Alsa(String),
}

/// What a session comes to: the bytes received, unless a worker failed. The
/// network worker is asked first.
pub fn run_session(net: ThreadEnd<u64>, alsa: ThreadEnd<()>) -> (r: Result<u64, SessionError>)
    ensures
        match net {
            ThreadEnd::Panicked => r matches Err(e) && e is NetPanicked,
            ThreadEnd::Error(w) => r matches Err(e) && e == SessionError::Net(w),
            ThreadEnd::Value(total) => match alsa {
                ThreadEnd::Panicked => r matches Err(e) && e is AlsaPanicked,
                ThreadEnd::Error(w) => r matches Err(e) && e == SessionError::Alsa(w),
                ThreadEnd::Value(_) => r matches Ok(n) && n == total,
            },
        },
{
    let total: u64 = match net {
        ThreadEnd::Panicked => {
            return Err(SessionError::NetPanicked);
        },
        ThreadEnd::Error(w) => {
            return Err(SessionError::Net(w));
        },
        ThreadEnd::Value(n) => n,
    };
    match alsa {
        ThreadEnd::Panicked => Err(SessionError::AlsaPanicked),
        ThreadEnd::Error(w) => Err(SessionError::Alsa(w)),
        ThreadEnd::Value(_) => Ok(total),
    }
}

/// What the user is told of a session that failed.
pub fn explain(e: SessionError) -> (r: String)
    ensures
        r@ == match e {
            SessionError::NetPanicked => "net thread panicked"@,
            SessionError::Net(_) => "net thread errored"@,
            SessionError::AlsaPanicked => "alsa thread panicked"@,
            SessionError::Alsa(w) => w@,
        },
{
    match e {
        SessionError::NetPanicked => "net thread panicked".to_owned(),
        SessionError::Net(_) => "net thread errored".to_owned(),
        SessionError::AlsaPanicked => "alsa thread panicked".to_owned(),
        SessionError::Alsa(w) => w,
    }
}

proof fn lemma_prefix_of_prefix(a: Seq<u8>, b: Seq<u8>, c: Seq<u8>)
    requires
        a.is_prefix_of(b),
        b.is_prefix_of(c),
    ensures
        a.is_prefix_of(c),
{
    assert(a =~= c.subrange(0, a.len() as int)) by {
        assert forall|k: int| 0 <= k < a.len() implies a[k] == c[k] by {
            assert(b.subrange(0, a.len() as int)[k] == b[k]);
            assert(c.subrange(0, b.len() as int)[k] == c[k]);
        }
    }
}

/// From end to end. A sender has connected, written its header, emptied its queue
/// and run its pump; `line` is what the transport has delivered of that; a receiver
/// has read its header and run its own pump and its playback worker, and the queue
/// between those two hands out what went in. Then the receiver knows what the sender
/// captures, and what the device has played is a beginning of what the sender's
/// pump took off its queue, unchanged and in whole frames.
pub proof fn law_what_is_played_was_captured(
    spec: CaptureSpec,
    session: Seq<SessionEvent>,
    sending: Seq<SendEvent>,
    line: Seq<u8>,
    reading: Seq<PumpEvent>,
    playing: Seq<PlaybackEvent>,
)
    requires
        announced(spec).valid(),
        session_events(session),
        stage_in(session) is Pumping,
        all_can_happen(sending),
        forall|i: int| 0 <= i < sending.len() ==> !(#[trigger] sending[i] is WriteFailed),
        HEADER_LEN <= line.len(),
        line.is_prefix_of(opening(spec, session) + sent(sending)),
        all_follow(reading),
        reader_stays(reading),
        read_in(reading) == line.skip(HEADER_LEN as int),
        received(playing).is_prefix_of(joined(queued(reading))),
        all_possible(playing, spec.wire_format.sample_size() * spec.channels as nat),
    ensures
        header_of(line) == Ok::<Header, ProtoError>(announced(spec)),
        written(
            playing,
            spec.wire_format.sample_size() * spec.channels as nat,
        ).is_prefix_of(taken(sending)),
        written(playing, spec.wire_format.sample_size() * spec.channels as nat).len() % (
        spec.wire_format.sample_size() * spec.channels as nat) == 0,
{
    let frame = spec.wire_format.sample_size() * spec.channels as nat;
    let header = announced(spec);
    assert(frame > 0) by (nonlinear_arith)
        requires
            frame == spec.wire_format.sample_size() * spec.channels as nat,
            spec.wire_format.sample_size() > 0,
            spec.channels > 0,
    ;
    law_header_goes_first(spec, session);
    law_what_came_is_sent(sending);
    law_what_is_read_is_queued(reading);
    law_stream_is_kept(playing, frame);

    let stream = line.skip(HEADER_LEN as int);
    let all = header.wire() + sent(sending);
    law_written_header_is_read_back(header, sent(sending));
    assert(all.skip(HEADER_LEN as int) =~= sent(sending));
    assert(header.wire().len() == HEADER_LEN);
    assert(line =~= header.wire() + stream) by {
        assert forall|k: int| 0 <= k < line.len() implies line[k] == (header.wire() + stream)[k] by {
            assert(all.subrange(0, line.len() as int)[k] == all[k]);
        }
    }
    law_written_header_is_read_back(header, stream);
    assert(stream.is_prefix_of(sent(sending))) by {
        assert forall|k: int| 0 <= k < stream.len() implies stream[k] == sent(sending)[k] by {
            assert(stream[k] == line[k + HEADER_LEN]);
            assert(all.subrange(0, line.len() as int)[k + HEADER_LEN] == all[k + HEADER_LEN]);
        }
        assert(stream =~= sent(sending).subrange(0, stream.len() as int));
    }

    let played = written(playing, frame);
    let into = joined(queued(reading));
    assert(played.is_prefix_of(received(playing))) by {
        assert(played =~= received(playing).subrange(0, played.len() as int));
    }
    assert(into.is_prefix_of(stream)) by {
        assert(into =~= stream.subrange(0, into.len() as int));
    }
    assert(sent(sending).is_prefix_of(taken(sending))) by {
        assert(sent(sending) =~= taken(sending).subrange(0, sent(sending).len() as int));
    }
    lemma_prefix_of_prefix(played, received(playing), into);
    lemma_prefix_of_prefix(played, into, stream);
    lemma_prefix_of_prefix(played, stream, sent(sending));
    lemma_prefix_of_prefix(played, sent(sending), taken(sending));
}

/// A connection is served; else the loop sleeps, longer after a failure, and never longer
/// than a second.
pub proof fn law_connections_are_served(a: AcceptStep, b: AcceptStep, c: AcceptStep)
    requires
        call_ensures(accept_loop, (Accepted::Connection,), a),
        call_ensures(accept_loop, (Accepted::WouldBlock,), b),
        call_ensures(accept_loop, (Accepted::Failed,), c),
    ensures
        a is Serve,
        b matches AcceptStep::Sleep(m) && c matches AcceptStep::Sleep(n) && 0 < m < n < 1000,
{
}

/// A session with a header takes, in this order: the swap to the bridge configuration and
/// half a second for it to settle, if there is one and a host; playing, once; and the
/// swap to the idle configuration, if there is one and a host. Without a header nothing
/// is done.
pub proof fn law_session_takes_these_actions(
    header: Result<Header, ProtoError>,
    opts: &SwapOpts,
    r: Result<(Header, Vec<Action>), ProtoError>,
)
    requires
        call_ensures(handle_session, (header, opts), r),
    ensures
        header matches Err(e) ==> (r matches Err(f) && f == e),
        header matches Ok(h) ==> {
            let swaps = opts.camilla_host@.len() > 0;
            let k: int = if swaps && opts.bridge_config is Some {
                2
            } else {
                0
            };
            let n: int = k + 1 + if swaps && opts.idle_config is Some {
                1int
            } else {
                0
            };
            &&& r matches Ok((g, actions))
            &&& g == h
            &&& actions@.len() == n
            &&& actions@[k] is Play
            &&& k > 0 ==> {
                &&& actions@[0] matches Action::Swap { path, label }
                &&& path@ == opts.bridge_config->0@
                &&& label@ == "bridge"@
                &&& actions@[1] == Action::Settle(500)
            }
            &&& n > k + 1 ==> {
                &&& actions@[k + 1] matches Action::Swap { path, label }
                &&& path@ == opts.idle_config->0@
                &&& label@ == "idle"@
            }
        },
{
    if header is Ok {
        let actions = r->Ok_0.1;
        let v = action_views(actions@);
        assert(v == session_actions(*opts));
        assert(v.len() == actions@.len());
        let k = before_play(*opts).len() as int;
        assert(v[k] == actions@[k]@);
        if k > 0 {
            assert(v[0] == actions@[0]@);
            assert(v[1] == actions@[1]@);
        }
        if after_play(*opts).len() > 0 {
            assert(v[k + 1] == actions@[k + 1]@);
        }
    }
}

/// A session under way goes from action to action, and ends after the last with what
/// playing gave, whether it was the last action or one before.
pub proof fn law_session_goes_through_its_actions(
    s: &mut Serving,
    event: ServeEvent,
    step: ServeStep,
)
    requires
        call_ensures(Serving::step, (s, event), step),
    ensures
        step is Done <==> old(s).at + 1 >= old(s).actions@.len(),
        step matches ServeStep::Act(i) ==> i == old(s).at + 1 && final(s).at == i,
        final(s).actions == old(s).actions,
        event matches ServeEvent::Played(r) ==> {
            &&& step matches ServeStep::Done(d) ==> d == r
            &&& step is Act ==> final(s).outcome == Some(r)
        },
        event is Taken ==> {
            &&& step matches ServeStep::Done(d) ==> old(s).outcome == Some(d)
            &&& step is Act ==> final(s).outcome == old(s).outcome
        },
{
}

/// A session comes to the bytes received exactly if both its workers ended well. Else the
/// network worker is blamed first, for what befell it.
pub proof fn law_session_needs_both_workers(
    net: ThreadEnd<u64>,
    alsa: ThreadEnd<()>,
    r: Result<u64, SessionError>,
)
    requires
        call_ensures(run_session, (net, alsa), r),
    ensures
        r is Ok <==> net is Value && alsa is Value,
        r matches Ok(n) ==> net == ThreadEnd::Value(n),
        r matches Err(e) ==> {
            &&& e is NetPanicked <==> net is Panicked
            &&& e matches SessionError::Net(w) ==> net == ThreadEnd::<u64>::Error(w)
            &&& net is Error ==> e is Net
            &&& e is AlsaPanicked ==> net is Value && alsa is Panicked
            &&& e matches SessionError::Alsa(w) ==> net is Value && alsa == ThreadEnd::<()>::Error(
                w,
            )
        },
{
}

/// The user is told which worker failed and how.
pub proof fn law_failed_session_is_explained(e: SessionError, r: String)
    requires
        call_ensures(explain, (e,), r),
    ensures
        e is NetPanicked ==> r@ == "net thread panicked"@,
        e is Net ==> r@ == "net thread errored"@,
        e is AlsaPanicked ==> r@ == "alsa thread panicked"@,
        e matches SessionError::Alsa(w) ==> r@ == w@,
{
}

/// A session begins at its first action with nothing played, and not at all without a
/// header; its actions are those of the session, and it tells the header that was read.
pub proof fn law_session_begins_at_its_first_action(
    header: Result<Header, ProtoError>,
    opts: &SwapOpts,
    r: Result<(Header, Serving), ProtoError>,
    actions: Result<(Header, Vec<Action>), ProtoError>,
)
    requires
        call_ensures(Serving::begin, (header, opts), r),
        call_ensures(handle_session, (header, opts), actions),
    ensures
        header matches Err(e) ==> (r matches Err(f) && f == e),
        header matches Ok(h) ==> {
            &&& r matches Ok((g, s))
            &&& g == h
            &&& s.at == 0
            &&& s.outcome is None
            &&& s.actions@.len() == actions->Ok_0.1@.len()
            &&& forall|i: int|
                0 <= i < s.actions@.len() ==> (#[trigger] s.actions@[i])@
                    == actions->Ok_0.1@[i]@
        },
{
    if header is Ok {
        let s = r->Ok_0.1;
        let a = action_views(s.actions@);
        let b = action_views(actions->Ok_0.1@);
        assert(a == b);
        assert(a.len() == s.actions@.len() && b.len() == actions->Ok_0.1@.len());
        assert forall|i: int| 0 <= i < s.actions@.len() implies (#[trigger] s.actions@[i])@
            == actions->Ok_0.1@[i]@ by {
            assert(a[i] == s.actions@[i]@ && b[i] == actions->Ok_0.1@[i]@);
        }
    }
}

} // verus!
