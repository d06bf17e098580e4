//! The activity detector behind "smart sleep": the virtual output stays visible
//! in the sound settings always, but the connection is only held open while
//! audio is flowing, so that other sources can use the loopback meanwhile.
use vstd::prelude::*;

use crate::observe::observed;

verus! {

/// When the last chunk that could be heard went by. There is one tracker for one
/// stream, and it cannot be copied: a copy would not see what is noted on the
/// other. Threads that share a tracker share its time stamp.
#[derive(Debug, PartialEq, Eq, Structural)]
pub struct ActivityTracker {
    /// Milliseconds since the Unix epoch.
    pub last_active_ms: i64,
}

/// `a - b`, held within the bounds of 64 bits.
pub open spec fn bounded_difference(a: i64, b: i64) -> int {
    if a - b > i64::MAX {
        i64::MAX as int
    } else if a - b < i64::MIN {
        i64::MIN as int
    } else {
        a - b
    }
}

/// A window of so many milliseconds, held within the bounds of 64 bits.
pub open spec fn window_of(idle_after_ms: u128) -> i64 {
    if idle_after_ms > i64::MAX {
        i64::MAX
    } else {
        idle_after_ms as i64
    }
}

/// At `now_ms` less than `window_ms` has gone by since `last_ms`.
pub open spec fn active_at(last_ms: i64, now_ms: i64, window_ms: i64) -> bool {
    bounded_difference(now_ms, last_ms) < window_ms
}

/// `std::time::SystemTime::now`, as whole milliseconds since the Unix epoch;
/// `None` if the clock stands before it. What time it is depends on the machine.
#[verifier::external_body]
fn clock_ms() -> (r: Option<u128>) {
    match std::time::SystemTime::now().duration_since(std::time::UNIX_EPOCH) {
        Ok(d) => Some(d.as_millis()),
        Err(_) => None,
    }
}

/// `clock` is what a reading of the clock can give.
pub closed spec fn clock_read(clock: Option<u128>) -> bool {
    call_ensures(clock_ms, (), clock)
}

/// `ms` is the time stamp of what a reading of the clock can give.
pub open spec fn stamped(ms: i64) -> bool {
    exists|clock: Option<u128>| #[trigger] clock_read(clock) && ms == stamp_of(clock)
}

/// A reading of the clock as a time stamp.
pub open spec fn stamp_of(clock: Option<u128>) -> i64 {
    match clock {
        Some(t) => t as i64,
        None => 0,
    }
}

/// A reading of the clock as a time stamp; a clock before the epoch counts as 0.
pub fn stamp(clock: Option<u128>) -> (ms: i64)
    ensures
        ms == stamp_of(clock),
{
    match clock {
        Some(t) => #[verifier::truncate] (t as i64),
        None => 0,
    }
}

/// The time now.
pub fn now_ms() -> (ms: i64)
    ensures
        stamped(ms),
{
    let clock = observed(clock_ms);
    assert(clock_read(clock));
    stamp(clock)
}

impl ActivityTracker {
    /// A tracker that counts as active from now on.
    pub fn new() -> (t: Self)
        ensures
            stamped(t.last_active_ms),
    {
        ActivityTracker { last_active_ms: now_ms() }
    }

    /// Notes a chunk that went by at `now_ms`: one that could be heard is the
    /// last activity, a silent one changes nothing.
    pub fn note_peak_at(&mut self, audible: bool, now_ms: i64)
        ensures
            final(self).last_active_ms == if audible {
                now_ms
            } else {
                old(self).last_active_ms
            },
    {
        if audible {
            self.last_active_ms = now_ms;
        }
    }

    /// Notes a chunk that goes by now.
    pub fn note_peak(&mut self, audible: bool)
        ensures
            !audible ==> *final(self) == *old(self),
            audible ==> stamped(final(self).last_active_ms),
    {
        if audible {
            let now: i64 = now_ms();
            self.note_peak_at(audible, now);
        }
    }

    /// Whether, at `now_ms`, a chunk that could be heard went by within the last
    /// `idle_after_ms` milliseconds.
    pub fn is_active_at(&self, idle_after_ms: u128, now_ms: i64) -> (r: bool)
        ensures
            r == active_at(self.last_active_ms, now_ms, window_of(idle_after_ms)),
    {
        let window: i64 = if idle_after_ms > i64::MAX as u128 {
            i64::MAX
        } else {
            idle_after_ms as i64
        };
        let last: i64 = self.last_active_ms;
        let gone: i64 = match now_ms.checked_sub(last) {
            Some(d) => d,
            None => if now_ms > last {
                i64::MAX
            } else {
                i64::MIN
            },
        };
        gone < window
    }

    /// Whether a chunk that could be heard went by within the last
    /// `idle_after_ms` milliseconds.
    pub fn is_active(&self, idle_after_ms: u128) -> (r: bool)
        ensures
            exists|clock: Option<u128>| #[trigger]
                clock_read(clock) && r == active_at(
                    self.last_active_ms,
                    stamp_of(clock),
                    window_of(idle_after_ms),
                ),
    {
        let now: i64 = now_ms();
        self.is_active_at(idle_after_ms, now)
    }
}

/// What to do with the connection.
#[derive(Debug, Clone, Copy, PartialEq, Eq, Structural)]
pub enum LinkStep {
    /// Open it.
    Engage,
    /// Keep it.
    Keep,
    /// Close it, so that other sources can use the loopback.
    Release,
    /// Leave it closed.
    Stay,
}

/// The connection is open exactly while audio is flowing.
pub fn link_step(open: bool, active: bool) -> (step: LinkStep)
    ensures
        step == match (open, active) {
            (false, true) => LinkStep::Engage,
            (true, true) => LinkStep::Keep,
            (true, false) => LinkStep::Release,
            (false, false) => LinkStep::Stay,
        },
{
    if active {
        if open {
            LinkStep::Keep
        } else {
            LinkStep::Engage
        }
    } else if open {
        LinkStep::Release
    } else {
        LinkStep::Stay
    }
}

/// After a chunk that could be heard, the tracker is active exactly until the
/// window has gone by.
pub proof fn law_active_until_the_window_ends(heard_ms: i64, later_ms: int, window_ms: i64)
    requires
        heard_ms <= later_ms <= i64::MAX,
        later_ms - heard_ms <= i64::MAX,
    ensures
        active_at(heard_ms, later_ms as i64, window_ms) <==> later_ms < heard_ms + window_ms,
{
}

/// A window of any length holds: while less time than the window has gone by since
/// the last chunk that could be heard, the tracker is active, and then no more.
pub proof fn law_window_of_any_length_holds(heard_ms: i64, now_ms: i64, idle_after_ms: u128)
    requires
        0 <= now_ms - heard_ms < i64::MAX,
    ensures
        active_at(heard_ms, now_ms, window_of(idle_after_ms)) <==> now_ms - heard_ms
            < idle_after_ms,
{
}

/// A longer window never turns activity into idleness, and neither does a later
/// chunk.
pub proof fn law_activity_is_monotone(
    last_ms: i64,
    later_ms: i64,
    now_ms: i64,
    window_ms: i64,
    longer_ms: i64,
)
    requires
        last_ms <= later_ms,
        window_ms <= longer_ms,
        active_at(last_ms, now_ms, window_ms),
    ensures
        active_at(later_ms, now_ms, longer_ms),
{
}

/// A tracker is active exactly while less time than the window has gone by since the last
/// chunk that could be heard, whatever the window. While the clock stands before that
/// chunk, it is active.
pub proof fn law_tracker_is_active_within_the_window(
    t: &ActivityTracker,
    window: u128,
    now: i64,
    r: bool,
)
    requires
        call_ensures(ActivityTracker::is_active_at, (t, window, now), r),
        now - t.last_active_ms < 9223372036854775807,
    ensures
        r <==> now - t.last_active_ms < window,
{
}

/// A chunk that can be heard makes the tracker active for the whole window from then on,
/// and a silent one makes no difference.
pub proof fn law_heard_chunk_opens_a_window(
    t: &mut ActivityTracker,
    audible: bool,
    at: i64,
    window: u128,
    now: i64,
    before: bool,
    after: bool,
)
    requires
        call_ensures(ActivityTracker::note_peak_at, (t, audible, at), ()),
        call_ensures(ActivityTracker::is_active_at, (old(t), window, now), before),
        call_ensures(ActivityTracker::is_active_at, (final(t), window, now), after),
    ensures
        !audible ==> after == before,
        audible && at <= now && now - at < 9223372036854775807 ==> (after <==> now - at < window),
{
}

/// The clock counts milliseconds since the epoch, and 0 before it.
pub proof fn law_stamp_is_the_clock(clock: Option<u128>, ms: i64)
    requires
        call_ensures(stamp, (clock,), ms),
    ensures
        clock matches Some(t) ==> (t <= 9223372036854775807 ==> ms == t),
        clock is None ==> ms == 0,
{
}

/// Whatever it was before, the connection is open after the step exactly if audio is
/// flowing, and it is only touched if it was not so already.
pub proof fn law_link_is_open_while_audio_flows(open: bool, active: bool, step: LinkStep)
    requires
        call_ensures(link_step, (open, active), step),
    ensures
        active <==> step is Engage || step is Keep,
        step is Engage || step is Release <==> open != active,
{
}

/// Whether a tracker is active now is told by the clock: by the milliseconds since the
/// epoch, or 0 before it.
pub proof fn law_active_now_goes_by_the_clock(t: &ActivityTracker, window: u128, r: bool)
    requires
        call_ensures(ActivityTracker::is_active, (t, window), r),
    ensures
        exists|clock: Option<u128>|
            {
                &&& #[trigger] clock_read(clock)
                &&& clock is None && 0 - t.last_active_ms < 9223372036854775807 ==> (r <==> 0
                    - t.last_active_ms < window)
                &&& clock is Some && clock->0 <= 9223372036854775807 && clock->0 - t.last_active_ms
                    < 9223372036854775807 ==> (r <==> clock->0 - t.last_active_ms < window)
            },
{
    let clock = choose|clock: Option<u128>| #[trigger]
        clock_read(clock) && r == active_at(
            t.last_active_ms,
            stamp_of(clock),
            window_of(window),
        );
    assert(clock_read(clock));
}

/// A chunk that can be heard now is stamped with the clock, and so is a new tracker.
pub proof fn law_now_is_the_clock(t: &mut ActivityTracker, audible: bool, fresh: ActivityTracker)
    requires
        call_ensures(ActivityTracker::note_peak, (t, audible), ()),
        call_ensures(ActivityTracker::new, (), fresh),
    ensures
        !audible ==> final(t).last_active_ms == old(t).last_active_ms,
        audible ==> exists|clock: Option<u128>|
            {
                &&& #[trigger] clock_read(clock)
                &&& clock is None ==> final(t).last_active_ms == 0
                &&& clock is Some && clock->0 <= 9223372036854775807 ==> final(t).last_active_ms
                    == clock->0
            },
        exists|clock: Option<u128>|
            {
                &&& #[trigger] clock_read(clock)
                &&& clock is None ==> fresh.last_active_ms == 0
                &&& clock is Some && clock->0 <= 9223372036854775807 ==> fresh.last_active_ms
                    == clock->0
            },
{
    let a = choose|clock: Option<u128>| #[trigger]
        clock_read(clock) && fresh.last_active_ms == stamp_of(clock);
    assert(clock_read(a));
    if audible {
        let b = choose|clock: Option<u128>| #[trigger]
            clock_read(clock) && final(t).last_active_ms == stamp_of(clock);
        assert(clock_read(b));
    }
}

/// The time now is the clock's.
pub proof fn law_time_is_the_clock(ms: i64)
    requires
        call_ensures(now_ms, (), ms),
    ensures
        exists|clock: Option<u128>|
            {
                &&& #[trigger] clock_read(clock)
                &&& clock is None ==> ms == 0
                &&& clock is Some && clock->0 <= 9223372036854775807 ==> ms == clock->0
            },
{
    let a = choose|clock: Option<u128>| #[trigger] clock_read(clock) && ms == stamp_of(clock);
    assert(clock_read(a));
}

} // verus!
