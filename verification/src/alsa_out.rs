//! The playback worker: it takes byte chunks off the network queue and hands
//! them to the sound device in whole frames.
//!
//! The device may consume only part of what it is offered, and a chunk may end
//! in the middle of a frame. What is left of a chunk is held until the next one
//! comes, so that the device never sees a torn frame.
use vstd::arithmetic::div_mod::{
    lemma_basic_div, lemma_fundamental_div_mod, lemma_mod_multiples_basic,
    lemma_mod_multiples_vanish, lemma_small_mod,
};
use vstd::prelude::*;
use vstd::slice::slice_subrange;

use crate::proto::Header;

verus! {

/// How long opening the device is tried before it is given up.
pub const OPEN_TIMEOUT_MS: u64 = 3000;

/// The pause between two attempts to open the device.
pub const OPEN_PAUSE_MS: u64 = 150;

/// The buffer that is asked of the device, in frames.
#[derive(Debug, Clone, Copy, PartialEq, Eq, Structural)]
pub struct BufferPlan {
    pub buffer_frames: u64,
    pub period_frames: u64,
}

/// The frames that last `buffer_ms` milliseconds, and a quarter of them, but at
/// least 64, as the period.
pub fn plan_buffer(header: &Header, buffer_ms: u32) -> (p: BufferPlan)
    ensures
        p.buffer_frames == header.sample_rate * buffer_ms / 1000,
        p.period_frames == if p.buffer_frames / 4 >= 64 {
            (p.buffer_frames / 4) as u64
        } else {
            64
        },
        p.buffer_frames <= i64::MAX,
        p.period_frames <= i64::MAX,
{
    let rate: u64 = header.sample_rate as u64;
    let ms: u64 = buffer_ms as u64;
    assert(0 <= rate * ms <= 0xffff_ffff * 0xffff_ffff) by (nonlinear_arith)
        requires
            0 <= rate <= 0xffff_ffff,
            0 <= ms <= 0xffff_ffff,
    ;
    let buffer_frames: u64 = rate * ms / 1000;
    let quarter: u64 = buffer_frames / 4;
    let period_frames: u64 = if quarter >= 64 {
        quarter
    } else {
        64
    };
    BufferPlan { buffer_frames, period_frames }
}

/// What happened to the worker.
pub enum PlaybackEvent {
    /// A chunk came off the queue.
    Chunk(Vec<u8>),
    /// The queue is closed and empty.
    Closed,
    /// The device took this many frames of what it was offered.
    Wrote(usize),
    /// The device failed and recovered.
    Recovered,
    /// The device failed and did not recover.
    Lost,
}

/// What the worker does next.
#[derive(Debug, Clone, Copy, PartialEq, Eq, Structural)]
pub enum PlaybackStep {
    /// Wait for a chunk.
    Receive,
    /// Offer the device the ready bytes.
    Write,
    /// Let the device play what it holds, and end.
    Drain,
    /// End with an error.
    Fail,
}

/// The part of `held` that is whole frames of `frame` bytes.
pub open spec fn whole(held: Seq<u8>, frame: nat) -> int {
    (held.len() / frame * frame) as int
}

/// What is held after an event.
pub open spec fn held_after(held: Seq<u8>, frame: nat, event: PlaybackEvent) -> Seq<u8> {
    match event {
        PlaybackEvent::Chunk(c) => held + c@,
        PlaybackEvent::Wrote(frames) => held.skip(frames * frame),
        _ => held,
    }
}

/// The device takes no more than it was offered.
pub open spec fn possible(held: Seq<u8>, frame: nat, event: PlaybackEvent) -> bool {
    event matches PlaybackEvent::Wrote(frames) ==> frames * frame <= whole(held, frame)
}

proof fn lemma_whole(held: Seq<u8>, frame: nat)
    requires
        frame > 0,
    ensures
        0 <= whole(held, frame) <= held.len(),
        held.len() - whole(held, frame) < frame,
        whole(held, frame) % frame as int == 0,
        whole(held, frame) == 0 <==> held.len() < frame,
{
    lemma_fundamental_div_mod(held.len() as int, frame as int);
    assert(held.len() / frame * frame == frame * (held.len() / frame)) by (nonlinear_arith);
    lemma_mod_multiples_basic((held.len() / frame) as int, frame as int);
    if held.len() < frame {
        lemma_basic_div(held.len() as int, frame as int);
    }
    let n: nat = held.len();
    let q: nat = n / frame;
    assert(q * frame == 0 <==> q == 0) by (nonlinear_arith)
        requires
            frame > 0,
    ;
    assert(n == frame * q + n % frame);
    assert(q == 0 ==> frame * q == 0) by (nonlinear_arith);
}

/// The playback worker of one session.
pub struct AlsaPlayback {
    bytes_per_frame: usize,
    bytes: Vec<u8>,
    offset: usize,
}

impl AlsaPlayback {
    /// The bytes that came and were not written yet.
    pub closed spec fn held(self) -> Seq<u8> {
        self.bytes@.skip(self.offset as int)
    }

    /// The size of a frame.
    pub closed spec fn frame(self) -> nat {
        self.bytes_per_frame as nat
    }

    pub closed spec fn wf(self) -> bool {
        &&& self.bytes_per_frame > 0
        &&& self.offset <= self.bytes@.len()
    }

    /// A worker for the stream that `header` declares, with nothing held.
    pub fn open(header: &Header) -> (w: Self)
        requires
            header.channels > 0,
        ensures
            w.wf(),
            w.frame() == header.format.sample_size() * header.channels,
            w.held() == Seq::<u8>::empty(),
    {
        let w = AlsaPlayback {
            bytes_per_frame: header.frame_bytes(),
            bytes: Vec::new(),
            offset: 0,
        };
        assert(w.held() =~= Seq::<u8>::empty());
        w
    }

    /// The size of a frame in bytes.
    pub fn bytes_per_frame(&self) -> (n: usize)
        requires
            self.wf(),
        ensures
            n == self.frame(),
            n > 0,
    {
        self.bytes_per_frame
    }

    /// The number of bytes at the front of what is held that make whole frames.
    fn usable(&self) -> (n: usize)
        requires
            self.wf(),
        ensures
            n == whole(self.held(), self.frame()),
            n <= self.held().len(),
            n % self.bytes_per_frame == 0,
            n == 0 <==> self.held().len() < self.frame(),
    {
        proof {
            lemma_whole(self.held(), self.frame());
        }
        let rest: usize = self.bytes.len() - self.offset;
        rest / self.bytes_per_frame * self.bytes_per_frame
    }

    /// The bytes to offer the device: all that is held, in whole frames.
    pub fn ready(&self) -> (s: &[u8])
        requires
            self.wf(),
        ensures
            s@ == self.held().take(whole(self.held(), self.frame())),
            s@.len() % self.frame() == 0,
            self.held().len() - s@.len() < self.frame(),
    {
        let n: usize = self.usable();
        let total: usize = self.bytes.len();
        proof {
            assert(self.offset + n <= total);
            lemma_whole(self.held(), self.frame());
            assert(self.bytes@.subrange(self.offset as int, self.offset + n) =~= self.held().take(
                n as int,
            ));
        }
        slice_subrange(self.bytes.as_slice(), self.offset, self.offset + n)
    }

    /// Takes an event in and says what is next: a chunk is waited for exactly
    /// while less than a frame is held.
    pub fn run(&mut self, event: PlaybackEvent) -> (step: PlaybackStep)
        requires
            old(self).wf(),
            possible(old(self).held(), old(self).frame(), event),
        ensures
            final(self).wf(),
            final(self).frame() == old(self).frame(),
            final(self).held() == held_after(old(self).held(), old(self).frame(), event),
            step == match event {
                PlaybackEvent::Closed => PlaybackStep::Drain,
                PlaybackEvent::Lost => PlaybackStep::Fail,
                _ => if final(self).held().len() < final(self).frame() {
                    PlaybackStep::Receive
                } else {
                    PlaybackStep::Write
                },
            },
    {
        proof {
            lemma_whole(self.held(), self.frame());
        }
        match event {
            PlaybackEvent::Closed => {
                return PlaybackStep::Drain;
            },
            PlaybackEvent::Lost => {
                return PlaybackStep::Fail;
            },
            PlaybackEvent::Recovered => {},
            PlaybackEvent::Wrote(frames) => {
                let total: usize = self.bytes.len();
                assert(0 <= frames * self.bytes_per_frame) by (nonlinear_arith)
                    requires
                        0 <= frames,
                        0 < self.bytes_per_frame,
                ;
                assert(self.offset + frames * self.bytes_per_frame <= total);
                let taken: usize = frames * self.bytes_per_frame;
                assert(self.bytes@.skip(self.offset + taken) =~= self.held().skip(taken as int));
                self.offset = self.offset + taken;
            },
            PlaybackEvent::Chunk(chunk) => {
                let mut joined = tail_of(&self.bytes, self.offset);
                join(&mut joined, chunk.as_slice());
                assert(joined@.skip(0) =~= self.held() + chunk@);
                self.bytes = joined;
                self.offset = 0;
            },
        }
        if self.usable() == 0 {
            PlaybackStep::Receive
        } else {
            PlaybackStep::Write
        }
    }
}

/// The bytes of `v` from `from` on.
fn tail_of(v: &Vec<u8>, from: usize) -> (r: Vec<u8>)
    requires
        from <= v@.len(),
    ensures
        r@ == v@.skip(from as int),
{
    let mut r: Vec<u8> = Vec::new();
    let n: usize = v.len();
    for i in from..n
        invariant
            from <= i <= n == v@.len(),
            r@ == v@.subrange(from as int, i as int),
    {
        r.push(v[i]);
    }
    assert(v@.subrange(from as int, n as int) =~= v@.skip(from as int));
    r
}

/// Puts `more` behind the bytes of `v`.
fn join(v: &mut Vec<u8>, more: &[u8])
    ensures
        final(v)@ == old(v)@ + more@,
{
    let n: usize = more.len();
    for i in 0..n
        invariant
            n == more@.len(),
            v@ == old(v)@ + more@.take(i as int),
    {
        v.push(more[i]);
        assert(more@.take(i + 1) =~= more@.take(i as int).push(more@[i as int]));
    }
    assert(more@.take(n as int) =~= more@);
}

/// The bytes of the chunks among `events`, in order.
pub open spec fn received(events: Seq<PlaybackEvent>) -> Seq<u8>
    decreases events.len(),
{
    if events.len() == 0 {
        Seq::empty()
    } else {
        let before = received(events.drop_last());
        match events.last() {
            PlaybackEvent::Chunk(c) => before + c@,
            _ => before,
        }
    }
}

/// What is held after `events`.
pub open spec fn held_in(events: Seq<PlaybackEvent>, frame: nat) -> Seq<u8>
    decreases events.len(),
{
    if events.len() == 0 {
        Seq::empty()
    } else {
        held_after(held_in(events.drop_last(), frame), frame, events.last())
    }
}

/// What the device has taken after `events`.
pub open spec fn written(events: Seq<PlaybackEvent>, frame: nat) -> Seq<u8>
    decreases events.len(),
{
    if events.len() == 0 {
        Seq::empty()
    } else {
        let before = written(events.drop_last(), frame);
        match events.last() {
            PlaybackEvent::Wrote(frames) => before + held_in(events.drop_last(), frame).take(
                frames * frame,
            ),
            _ => before,
        }
    }
}

/// Each event of `events` is possible where it stands.
pub open spec fn all_possible(events: Seq<PlaybackEvent>, frame: nat) -> bool
    decreases events.len(),
{
    events.len() > 0 ==> {
        &&& all_possible(events.drop_last(), frame)
        &&& possible(held_in(events.drop_last(), frame), frame, events.last())
    }
}

/// Over a whole session nothing is lost, repeated or reordered: what the device
/// took, followed by what is held, is what came. The device has only ever taken
/// whole frames.
pub proof fn law_stream_is_kept(events: Seq<PlaybackEvent>, frame: nat)
    requires
        frame > 0,
        all_possible(events, frame),
    ensures
        written(events, frame) + held_in(events, frame) == received(events),
        written(events, frame).len() % frame == 0,
    decreases events.len(),
{
    if events.len() > 0 {
        let before = events.drop_last();
        let held = held_in(before, frame);
        law_stream_is_kept(before, frame);
        lemma_whole(held, frame);
        match events.last() {
            PlaybackEvent::Wrote(frames) => {
                let n: int = frames * frame;
                assert(0 <= n) by (nonlinear_arith)
                    requires
                        n == frames * frame,
                ;
                assert(held.take(n) + held.skip(n) =~= held);
                assert(written(events, frame) + held_in(events, frame) =~= written(before, frame)
                    + held);
                assert((written(before, frame).len() + n) % frame as int == 0) by {
                    lemma_mod_multiples_vanish(
                        frames as int,
                        written(before, frame).len() as int,
                        frame as int,
                    );
                    assert(n == frame * frames) by (nonlinear_arith)
                        requires
                            n == frames * frame,
                    ;
                }
            },
            PlaybackEvent::Chunk(c) => {
                assert(written(events, frame) + held_in(events, frame) =~= received(before) + c@);
            },
            _ => {},
        }
    } else {
        assert(written(events, frame) + held_in(events, frame) =~= received(events));
        lemma_small_mod(0, frame);
    }
}

/// Attempts to open the device, with the reason of the last failure.
pub struct OpenRetry {
    pub last_err: Option<String>,
}

/// What follows a failed attempt.
pub enum RetryStep {
    /// Try again after the pause.
    Retry,
    /// Give up with this message.
    GiveUp(String),
}

/// The message of an attempt that is given up.
pub open spec fn open_failure(device: Seq<char>, elapsed: Seq<char>, reason: Seq<char>) -> Seq<
    char,
> {
    "opening ALSA `"@ + device + "` after "@ + elapsed + ": "@ + reason + " (last error)"@
}

impl OpenRetry {
    /// No attempt has failed yet.
    pub fn new() -> (r: Self)
        ensures
            r.last_err is None,
    {
        OpenRetry { last_err: None }
    }

    /// An attempt failed with `msg` when `elapsed_ns` had gone by since the
    /// first; `elapsed` is that time as text. Before the time is up the failure
    /// is remembered and the device tried again. Then the reason given is that
    /// of the failure before this one, if there was one.
    pub fn open_configured_with_retry(
        &mut self,
        device: &str,
        msg: String,
        elapsed_ns: u128,
        elapsed: &str,
    ) -> (step: RetryStep)
        ensures
            elapsed_ns < 3_000_000_000 ==> step is Retry && final(self).last_err == Some(msg),
            elapsed_ns >= 3_000_000_000 ==> {
                &&& *final(self) == *old(self)
                &&& step matches RetryStep::GiveUp(text)
                &&& text@ == open_failure(
                    device@,
                    elapsed@,
                    if old(self).last_err is Some {
                        old(self).last_err->0@
                    } else {
                        msg@
                    },
                )
            },
    {
        if elapsed_ns >= OPEN_TIMEOUT_MS as u128 * 1_000_000 {
            let mut text: String = "opening ALSA `".to_owned();
            text.append(device);
            text.append("` after ");
            text.append(elapsed);
            text.append(": ");
            match &self.last_err {
                Some(e) => text.append(e.as_str()),
                None => text.append(msg.as_str()),
            }
            text.append(" (last error)");
            RetryStep::GiveUp(text)
        } else {
            self.last_err = Some(msg);
            RetryStep::Retry
        }
    }
}

/// The buffer lasts as long as is asked for, to within a frame, and the period is a
/// quarter of it but not below 64 frames.
pub proof fn law_buffer_lasts_as_long_as_asked(header: &Header, ms: u32, p: BufferPlan)
    requires
        call_ensures(plan_buffer, (header, ms), p),
    ensures
        1000 * p.buffer_frames <= header.sample_rate * ms < 1000 * (p.buffer_frames + 1),
        p.period_frames >= 64,
        p.period_frames > 64 ==> 4 * p.period_frames <= p.buffer_frames < 4 * (p.period_frames
            + 1),
        p.buffer_frames >= 256 ==> 4 * p.period_frames <= p.buffer_frames,
{
    let total: int = header.sample_rate * ms;
    assert(total >= 0) by (nonlinear_arith)
        requires
            total == header.sample_rate * ms,
            header.sample_rate >= 0,
            ms >= 0,
    ;
    assert(p.buffer_frames == total / 1000);
}

/// The worker ends, with what is left played out, when the queue is closed, and fails
/// when the device is lost; neither touches what is held. Else it writes exactly while a
/// whole frame is held.
pub proof fn law_worker_ends_when_it_must(
    w: &mut AlsaPlayback,
    event: PlaybackEvent,
    step: PlaybackStep,
)
    requires
        call_ensures(AlsaPlayback::run, (w, event), step),
    ensures
        step is Drain <==> event is Closed,
        step is Fail <==> event is Lost,
        event is Closed || event is Lost || event is Recovered ==> final(w).held()
            == old(w).held(),
        final(w).frame() == old(w).frame(),
        !(event is Closed) && !(event is Lost) ==> (step is Write <==> final(w).held().len()
            >= final(w).frame()),
{
}

/// From a fresh worker: of a first chunk the device has taken some frames, and a second
/// has come. Then the device is offered what is left of the first and behind it the
/// second, up to the last whole frame. A frame has two or four bytes for each channel.
pub proof fn law_device_is_offered_what_came(
    header: &Header,
    fresh: AlsaPlayback,
    x: &mut AlsaPlayback,
    y: &mut AlsaPlayback,
    z: &mut AlsaPlayback,
    first: Vec<u8>,
    frames: usize,
    second: Vec<u8>,
    steps: (PlaybackStep, PlaybackStep, PlaybackStep),
    size: usize,
    offered: &[u8],
)
    requires
        header.channels > 0,
        call_ensures(AlsaPlayback::open, (header,), fresh),
        *old(x) == fresh,
        call_ensures(AlsaPlayback::run, (x, PlaybackEvent::Chunk(first)), steps.0),
        *old(y) == *final(x),
        call_ensures(AlsaPlayback::run, (y, PlaybackEvent::Wrote(frames)), steps.1),
        *old(z) == *final(y),
        call_ensures(AlsaPlayback::run, (z, PlaybackEvent::Chunk(second)), steps.2),
        call_ensures(AlsaPlayback::bytes_per_frame, (final(z),), size),
        call_ensures(AlsaPlayback::ready, (final(z),), offered),
        frames * size <= first@.len(),
    ensures
        header.format is S16LE ==> size == 2 * header.channels,
        !(header.format is S16LE) ==> size == 4 * header.channels,
        ({
            let came = first@.skip(frames * size) + second@;
            &&& offered@ == came.take(offered@.len() as int)
            &&& offered@.len() <= came.len()
            &&& offered@.len() % size as nat == 0
            &&& came.len() - offered@.len() < size
            &&& steps.2 is Write <==> came.len() >= size
        }),
        steps.0 is Write <==> first@.len() >= size,
{
    let f = size as nat;
    let came = first@.skip(frames * size) + second@;
    assert(Seq::<u8>::empty() + first@ =~= first@);
    assert(final(z).held() =~= came);
    assert(header.format.sample_size() * header.channels == size);
    assert(header.format is S16LE ==> header.format.sample_size() * header.channels == 2
        * header.channels);
    assert(!(header.format is S16LE) ==> header.format.sample_size() * header.channels == 4
        * header.channels);
    assert(f > 0) by (nonlinear_arith)
        requires
            f == header.format.sample_size() * header.channels,
            header.format.sample_size() >= 2,
            header.channels > 0,
    ;
    lemma_whole(came, f);
}

/// The device may take any number of whole frames of what is held.
pub proof fn law_any_whole_frames_can_be_taken(held: Seq<u8>, frame: nat, frames: usize)
    requires
        frame > 0,
        frames * frame <= held.len(),
    ensures
        possible(held, frame, PlaybackEvent::Wrote(frames)),
{
    lemma_whole(held, frame);
    let n = whole(held, frame);
    let f = frame as int;
    lemma_fundamental_div_mod(n, f);
    let b = n / f;
    assert(n == f * b);
    assert(frames * f <= n) by (nonlinear_arith)
        requires
            f > 0,
            n == f * b,
            frames * f <= held.len(),
            held.len() - n < f,
    ;
}

/// Opening is tried again, with the failure remembered, for three seconds. Then it is
/// given up, with the device named and the failure before this one, or else this one,
/// as the reason.
pub proof fn law_opening_is_given_up_after_three_seconds(
    retry: &mut OpenRetry,
    device: &str,
    msg: String,
    elapsed_ns: u128,
    elapsed: &str,
    step: RetryStep,
)
    requires
        call_ensures(
            OpenRetry::open_configured_with_retry,
            (retry, device, msg, elapsed_ns, elapsed),
            step,
        ),
    ensures
        step is Retry <==> elapsed_ns < 3_000_000_000,
        step is Retry ==> final(retry).last_err == Some(msg),
        step matches RetryStep::GiveUp(text) ==> text@ == "opening ALSA `"@ + device@ + "` after "@
            + elapsed@ + ": "@ + match old(retry).last_err {
            Some(e) => e@,
            None => msg@,
        } + " (last error)"@,
{
}

} // verus!
