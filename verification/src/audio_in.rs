//! Capture: which device and stream to open, and how captured samples become
//! bytes on the wire.
//!
//! The audio callback never blocks. Each batch of samples is converted to the
//! wire format and put in a bounded queue; if the network side falls behind, the
//! oldest chunk is dropped.
use vstd::prelude::*;

use crate::plain::{alike, signed2, signed4};
use crate::proto::Format;
use crate::queue::{answers, answers_all, held_after_all, Call, Ring, SendOutcome, TakeOutcome};
use crate::samples::{
    center_u16, center_u8, encode_pcm, farthest, is_peak, lemma_captured_is_told, lemma_farthest,
    peak_abs, tells16, tells32, Pcm,
};
use crate::text::{lemma_alike, lowercase, same_ignoring_case, same_text};

verus! {

/// The stream that a sender is asked for.
#[derive(Debug, Clone, Copy, PartialEq, Eq, Structural)]
pub struct CaptureSpec {
    pub rate: u32,
    pub channels: u16,
    pub wire_format: Format,
}

/// The sample formats in which devices deliver audio.
#[derive(Debug, Clone, Copy, PartialEq, Eq, Structural)]
pub enum SampleKind {
    F64,
    F32,
    I32,
    U32,
    I16,
    U16,
    U8,
    I8,
    Other,
}

/// One range of streams that a device supports.
#[derive(Debug, Clone, Copy, PartialEq, Eq, Structural)]
pub struct ConfigRange {
    pub channels: u16,
    pub min_rate: u32,
    pub max_rate: u32,
    pub format: SampleKind,
}

/// A stream to open.
#[derive(Debug, Clone, Copy, PartialEq, Eq, Structural)]
pub struct StreamPlan {
    pub channels: u16,
    pub rate: u32,
    pub format: SampleKind,
}

/// How well a format serves music; more is better. Formats that no stream can be
/// opened with come last.
pub open spec fn quality(f: SampleKind) -> u8 {
    match f {
        SampleKind::F32 => 50,
        SampleKind::I32 => 40,
        SampleKind::I16 => 30,
        SampleKind::U16 => 20,
        SampleKind::U8 => 10,
        SampleKind::I8 => 5,
        SampleKind::F64 => 3,
        SampleKind::U32 => 2,
        SampleKind::Other => 1,
    }
}

/// Scores a sample format by the fidelity it gives. Higher is better.
pub fn format_quality(f: SampleKind) -> (q: u8)
    ensures
        q == quality(f),
{
    match f {
        SampleKind::F32 => 50,
        SampleKind::I32 => 40,
        SampleKind::I16 => 30,
        SampleKind::U16 => 20,
        SampleKind::U8 => 10,
        SampleKind::I8 => 5,
        SampleKind::F64 => 3,
        SampleKind::U32 => 2,
        SampleKind::Other => 1,
    }
}

/// The range covers what is asked for.
pub open spec fn covers(range: ConfigRange, spec: CaptureSpec) -> bool {
    &&& range.channels == spec.channels
    &&& range.min_rate <= spec.rate <= range.max_rate
}

/// Range `i` is the best for `spec`: it covers it, no other that does is
/// better, and none behind it is as good.
pub open spec fn best_range(ranges: Seq<ConfigRange>, spec: CaptureSpec, i: int) -> bool {
    &&& 0 <= i < ranges.len()
    &&& covers(ranges[i], spec)
    &&& forall|j: int|
        0 <= j < ranges.len() && covers(ranges[j], spec) ==> {
            &&& quality(#[trigger] ranges[j].format) <= quality(ranges[i].format)
            &&& i < j ==> quality(ranges[j].format) < quality(ranges[i].format)
        }
}

/// None of the ranges covers what is asked for.
pub open spec fn none_covers(ranges: Seq<ConfigRange>, spec: CaptureSpec) -> bool {
    forall|j: int| 0 <= j < ranges.len() ==> !covers(#[trigger] ranges[j], spec)
}

/// The index of the best range for `spec`, if any covers it.
pub fn choose_config(ranges: &[ConfigRange], spec: &CaptureSpec) -> (r: Option<usize>)
    ensures
        r matches Some(i) ==> best_range(ranges@, *spec, i as int),
        r is None <==> forall|j: int| 0 <= j < ranges@.len() ==> !covers(#[trigger] ranges@[j], *spec),
        r is None <==> none_covers(ranges@, *spec),
{
    let n: usize = ranges.len();
    let mut best: Option<usize> = None;
    for k in 0..n
        invariant
            n == ranges@.len(),
            best matches Some(i) ==> i < k && best_range(ranges@.take(k as int), *spec, i as int),
            best is None <==> forall|j: int|
                0 <= j < k ==> !covers(#[trigger] ranges@[j], *spec),
    {
        let range = ranges[k];
        let ghost before = ranges@.take(k as int);
        let ghost after = ranges@.take(k + 1);
        assert(forall|j: int| 0 <= j < k ==> #[trigger] after[j] == before[j]);
        assert(after[k as int] == range);
        if range.channels == spec.channels && range.min_rate <= spec.rate && spec.rate
            <= range.max_rate {
            match best {
                Some(i) => {
                    assert(before[i as int] == ranges@[i as int]);
                    if format_quality(range.format) >= format_quality(ranges[i].format) {
                        best = Some(k);
                        assert(best_range(after, *spec, k as int));
                    } else {
                        assert(best_range(after, *spec, i as int));
                    }
                },
                None => {
                    best = Some(k);
                    assert forall|j: int| 0 <= j < after.len() && covers(after[j], *spec) implies j
                        == k by {
                        if j < k {
                            assert(after[j] == ranges@[j]);
                        }
                    }
                    assert(best_range(after, *spec, k as int));
                },
            }
            assert(covers(ranges@[k as int], *spec));
        } else {
            match best {
                Some(i) => {
                    assert(best_range(after, *spec, i as int));
                },
                None => {},
            }
        }
    }
    assert(ranges@.take(n as int) =~= ranges@);
    best
}

/// The formats that a capture stream can be opened with.
pub open spec fn capturable(f: SampleKind) -> bool {
    f is F32 || f is I32 || f is I16 || f is U16 || f is U8 || f is I8
}

/// Some range that covers what is asked for has a format that can be captured.
pub open spec fn offers_capturable(ranges: Seq<ConfigRange>, spec: CaptureSpec) -> bool {
    exists|j: int|
        0 <= j < ranges.len() && covers(#[trigger] ranges[j], spec) && capturable(ranges[j].format)
}

/// The stream to open for `spec`: the best of the ranges that cover it, at the
/// rate asked for. `None` means that the device's default stream has to do.
pub fn open_capture(ranges: &[ConfigRange], spec: &CaptureSpec) -> (r: Option<StreamPlan>)
    ensures
        r is None <==> forall|j: int| 0 <= j < ranges@.len() ==> !covers(#[trigger] ranges@[j], *spec),
        r is None <==> none_covers(ranges@, *spec),
        r matches Some(p) ==> {
            &&& p.channels == spec.channels
            &&& p.rate == spec.rate
            &&& exists|i: int| best_range(ranges@, *spec, i) && p.format == ranges@[i].format
            &&& offers_capturable(ranges@, *spec) ==> capturable(p.format)
        },
{
    match choose_config(ranges, spec) {
        Some(i) => {
            proof {
                if offers_capturable(ranges@, *spec) {
                    let j = choose|j: int|
                        0 <= j < ranges@.len() && covers(#[trigger] ranges@[j], *spec)
                            && capturable(ranges@[j].format);
                    assert(quality(ranges@[j].format) <= quality(ranges@[i as int].format));
                }
            }
            assert(best_range(ranges@, *spec, i as int));
            Some(
                StreamPlan {
                    channels: ranges[i].channels,
                    rate: spec.rate,
                    format: ranges[i].format,
                },
            )
        },
        None => None,
    }
}

/// Where several formats that can be captured cover what is asked for, the first of
/// 32-bit float, then 32-, 16-bit signed, 16-bit unsigned, 8-bit unsigned and 8-bit
/// signed integers is chosen, whatever the order of the ranges.
pub proof fn law_best_format_is_chosen(
    ranges: Seq<ConfigRange>,
    spec: CaptureSpec,
    best: int,
    other: int,
)
    requires
        best_range(ranges, spec, best),
        0 <= other < ranges.len(),
        covers(ranges[other], spec),
        capturable(ranges[other].format),
    ensures
        capturable(ranges[best].format),
        rank(ranges[best].format) <= rank(ranges[other].format),
{
    assert(quality(ranges[other].format) <= quality(ranges[best].format));
}

/// The place of a format in the order of fidelity.
pub open spec fn rank(f: SampleKind) -> int {
    match f {
        SampleKind::F32 => 0,
        SampleKind::I32 => 1,
        SampleKind::I16 => 2,
        SampleKind::U16 => 3,
        SampleKind::U8 => 4,
        SampleKind::I8 => 5,
        _ => 6,
    }
}

/// Whether a stream of this format can be captured; any other is an error.
pub fn can_capture(f: SampleKind) -> (r: bool)
    ensures
        r == capturable(f),
{
    match f {
        SampleKind::F32 | SampleKind::I32 | SampleKind::I16 | SampleKind::U16 | SampleKind::U8
        | SampleKind::I8 => true,
        _ => false,
    }
}

/// The stream that is opened: the one that was chosen, or else the device's default
/// one, with its own channels, rate and format; or the format that rules it out.
pub open spec fn accepted_stream(chosen: Option<StreamPlan>, default: StreamPlan) -> Result<
    StreamPlan,
    SampleKind,
> {
    let plan = match chosen {
        Some(p) => p,
        None => default,
    };
    if capturable(plan.format) {
        Ok(plan)
    } else {
        Err(plan.format)
    }
}

/// The stream to open, given what was chosen and the device's default stream. That
/// nothing covers what was asked for is no error; a format that cannot be captured
/// is one.
pub fn accept_stream(chosen: Option<StreamPlan>, default: StreamPlan) -> (r: Result<
    StreamPlan,
    SampleKind,
>)
    ensures
        r == accepted_stream(chosen, default),
{
    let plan = match chosen {
        Some(p) => p,
        None => default,
    };
    if can_capture(plan.format) {
        Ok(plan)
    } else {
        Err(plan.format)
    }
}

/// The label of a device: its description, else its name, else a placeholder.
pub fn device_label(description: Option<&str>, name: Option<&str>) -> (r: String)
    ensures
        r@ == match (description, name) {
            (Some(d), _) => d@,
            (None, Some(n)) => n@,
            (None, None) => "<unknown>"@,
        },
{
    match description {
        Some(d) => d.to_owned(),
        None => match name {
            Some(n) => n.to_owned(),
            None => "<unknown>".to_owned(),
        },
    }
}

/// Entry `i` is the first whose name is `name` but for the case of letters.
pub open spec fn first_named(names: Seq<String>, name: Seq<char>, i: int) -> bool {
    &&& 0 <= i < names.len()
    &&& lowercase(names[i]@) == lowercase(name)
    &&& forall|j: int|
        0 <= j < i ==> lowercase(#[trigger] names[j]@) != lowercase(name)
}

/// No entry is called `name`, whatever the case of letters.
pub open spec fn none_named(names: Seq<String>, name: Seq<char>) -> bool {
    forall|j: int|
        0 <= j < names.len() ==> lowercase(#[trigger] names[j]@)
            != lowercase(name)
}

/// The first entry with the given name; ASCII letters match in either case.
pub fn find_named(names: &[String], name: &str) -> (r: Option<usize>)
    ensures
        r matches Some(i) ==> first_named(names@, name@, i as int),
        r is None <==> none_named(names@, name@),
{
    let n: usize = names.len();
    for i in 0..n
        invariant
            n == names@.len(),
            forall|j: int|
                0 <= j < i ==> lowercase(#[trigger] names@[j]@)
                    != lowercase(name@),
    {
        if same_ignoring_case(names[i].as_str(), name) {
            return Some(i);
        }
    }
    None
}

/// Which of a host's things was asked for.
#[derive(Debug, Clone, Copy, PartialEq, Eq, Structural)]
pub enum Pick {
    /// The default one.
    Default,
    /// The one at this place in the list.
    Entry(usize),
    /// One that is not there.
    Missing,
}

/// The audio host to use: the platform's own unless one is named. An empty name
/// names none.
pub fn pick_host(hosts: &[String], host_name: Option<&str>) -> (r: Pick)
    ensures
        match host_name {
            None => r is Default,
            Some(name) => if name@.len() == 0 {
                r is Default
            } else {
                match r {
                    Pick::Entry(i) => first_named(hosts@, name@, i as int),
                    Pick::Missing => none_named(hosts@, name@),
                    Pick::Default => false,
                }
            },
        },
{
    match host_name {
        None => Pick::Default,
        Some(name) => if name.is_empty() {
            Pick::Default
        } else {
            match find_named(hosts, name) {
                Some(i) => Pick::Entry(i),
                None => Pick::Missing,
            }
        },
    }
}

/// The input device to use: the host's default for the name `default`, else the
/// first with that label.
pub fn pick_device(labels: &[String], device_name: &str) -> (r: Pick)
    ensures
        r is Default <==> device_name@ == "default"@,
        device_name@ != "default"@ ==> match r {
            Pick::Entry(i) => first_named(labels@, device_name@, i as int),
            Pick::Missing => none_named(labels@, device_name@),
            Pick::Default => false,
        },
{
    if same_text(device_name, "default") {
        return Pick::Default;
    }
    match find_named(labels, device_name) {
        Some(i) => Pick::Entry(i),
        None => Pick::Missing,
    }
}

/// What a batch of captured integer samples comes to.
pub enum Forwarded {
    /// The batch was empty.
    Nothing,
    /// The bytes to send and the largest magnitude among the samples.
    Chunk { bytes: Vec<u8>, peak: u32 },
    /// The wire wants floats, which are made from the samples elsewhere.
    WantsFloat { peak: u32 },
}

/// `f` is what the samples come to in the wire format.
pub open spec fn forwards(pcm: Pcm, wire: Format, f: Forwarded) -> bool {
    match f {
        Forwarded::Nothing => pcm.count() == 0,
        Forwarded::Chunk { bytes, peak } => {
            &&& pcm.count() > 0
            &&& wire !is F32LE
            &&& bytes@ == pcm.bytes(wire, pcm.count())
            &&& is_peak(pcm, pcm.count() as int, peak as int)
        },
        Forwarded::WantsFloat { peak } => {
            &&& pcm.count() > 0
            &&& wire is F32LE
            &&& is_peak(pcm, pcm.count() as int, peak as int)
        },
    }
}

/// Turns a batch of signed samples into a chunk for the wire.
pub fn forward(pcm: &Pcm, wire: Format) -> (f: Forwarded)
    ensures
        forwards(*pcm, wire, f),
{
    let n: usize = match pcm {
        Pcm::I8(v) => v.len(),
        Pcm::I16(v) => v.len(),
        Pcm::I32(v) => v.len(),
    };
    if n == 0 {
        return Forwarded::Nothing;
    }
    let peak: u32 = peak_abs(pcm);
    match encode_pcm(pcm, wire) {
        Some(bytes) => Forwarded::Chunk { bytes, peak },
        None => Forwarded::WantsFloat { peak },
    }
}

/// Turns a batch of unsigned 16-bit samples into a chunk for the wire, by way
/// of the signed samples that come back with it.
pub fn forward_u16(samples: &[u16], wire: Format) -> (r: (Pcm, Forwarded))
    ensures
        forwards(r.0, wire, r.1),
        r.0 matches Pcm::I16(v) && v@.len() == samples@.len() && forall|i: int|
            0 <= i < v@.len() ==> #[trigger] v@[i] == samples@[i] - 32768,
{
    let pcm = Pcm::I16(center_u16(samples));
    let f = forward(&pcm, wire);
    (pcm, f)
}

/// Turns a batch of unsigned 8-bit samples into a chunk for the wire, by way of
/// the signed samples that come back with it.
pub fn forward_u8(samples: &[u8], wire: Format) -> (r: (Pcm, Forwarded))
    ensures
        forwards(r.0, wire, r.1),
        r.0 matches Pcm::I8(v) && v@.len() == samples@.len() && forall|i: int|
            0 <= i < v@.len() ==> #[trigger] v@[i] == samples@[i] - 128,
{
    let pcm = Pcm::I8(center_u8(samples));
    let f = forward(&pcm, wire);
    (pcm, f)
}

/// What became of a chunk in the audio callback. Every drop is to be logged; where
/// it is `audible`, it is worth a warning. While the connection is released the
/// queue is full of silence, and nobody needs a warning of that.
#[derive(Debug, Clone, Copy, PartialEq, Eq, Structural)]
pub enum Pushed {
    /// It is in the queue.
    Queued,
    /// It is in the queue, and the oldest chunk was dropped to make room.
    OldestDropped { audible: bool },
    /// There was no room even so, and it is gone.
    Dropped { audible: bool },
    /// Nobody reads the queue any more.
    Closed,
}

/// What a chunk comes to that found the queue full: given what was taken off the
/// queue to make room, and what the queue said to the second offer.
pub open spec fn pushed(gone: TakeOutcome, second: SendOutcome, audible: bool) -> Pushed {
    match (second, gone) {
        (SendOutcome::Sent, TakeOutcome::Took(_)) => Pushed::OldestDropped { audible },
        (SendOutcome::Sent, _) => Pushed::Queued,
        (SendOutcome::Full(_), _) => Pushed::Dropped { audible },
        (SendOutcome::Disconnected(_), _) => Pushed::Closed,
    }
}

/// What a chunk came to that found the queue full.
pub fn push_result(gone: &TakeOutcome, second: &SendOutcome, audible: bool) -> (r: Pushed)
    ensures
        r == pushed(*gone, *second, audible),
{
    match second {
        SendOutcome::Sent => match gone {
            TakeOutcome::Took(_) => Pushed::OldestDropped { audible },
            _ => Pushed::Queued,
        },
        SendOutcome::Full(_) => Pushed::Dropped { audible },
        SendOutcome::Disconnected(_) => Pushed::Closed,
    }
}

/// `made` are the calls with which a chunk is put in the queue, and `r` is what they
/// come to: one offer, unless the queue was full; then one chunk was taken off, and
/// this one offered once more.
pub open spec fn push_calls(made: Seq<Call>, chunk: Seq<u8>, audible: bool, r: Pushed) -> bool {
    &&& made.len() > 0
    &&& made[0] matches Call::Offered(it, first)
    &&& it == chunk
    &&& match first {
        SendOutcome::Sent => made.len() == 1 && r is Queued,
        SendOutcome::Disconnected(_) => made.len() == 1 && r is Closed,
        SendOutcome::Full(_) => {
            &&& made.len() == 3
            &&& made[1] matches Call::Taken(gone)
            &&& made[2] matches Call::Offered(again, second)
            &&& again == chunk
            &&& r == pushed(gone, second, audible)
        },
    }
}

/// Puts a chunk in the queue without ever waiting. If the queue is full, its oldest
/// chunk is dropped to make room. No other call is made on the queue.
pub fn push(q: &mut Ring, chunk: Vec<u8>, audible: bool) -> (r: Pushed)
    ensures
        exists|made: Seq<Call>|
            final(q).calls() == old(q).calls() + made && #[trigger] push_calls(
                made,
                chunk@,
                audible,
                r,
            ),
{
    let ghost it = chunk@;
    let ghost before = q.calls();
    let first = q.offer(chunk);
    let ghost opening = Call::Offered(it, first);
    match first {
        SendOutcome::Sent => {
            let r = Pushed::Queued;
            proof {
                assert(q.calls() =~= before + seq![opening]);
                assert(push_calls(seq![opening], it, audible, r));
            }
            r
        },
        SendOutcome::Disconnected(_) => {
            let r = Pushed::Closed;
            proof {
                assert(q.calls() =~= before + seq![opening]);
                assert(push_calls(seq![opening], it, audible, r));
            }
            r
        },
        SendOutcome::Full(again) => {
            let gone = q.try_recv();
            let second = q.offer(again);
            let r = push_result(&gone, &second, audible);
            proof {
                let made = seq![opening, Call::Taken(gone), Call::Offered(it, second)];
                assert(q.calls() =~= before + made);
                assert(push_calls(made, it, audible, r));
            }
            r
        },
    }
}

/// A queue that is full loses its oldest chunk and gets the new one; one that has room
/// gets the new chunk and keeps the others. That is so while nobody else touches the
/// queue and both its sides are alive.
pub proof fn law_full_queue_loses_its_oldest(
    made: Seq<Call>,
    chunk: Seq<u8>,
    audible: bool,
    r: Pushed,
    held: Seq<Seq<u8>>,
    capacity: nat,
)
    requires
        push_calls(made, chunk, audible, r),
        0 < capacity,
        held.len() <= capacity,
        answers_all(held, capacity, made),
    ensures
        held.len() == capacity ==> r == (Pushed::OldestDropped { audible }) && held_after_all(
            held,
            made,
        ) == held.skip(1).push(chunk),
        held.len() < capacity ==> r is Queued && held_after_all(held, made) == held.push(chunk),
{
    reveal_with_fuel(answers_all, 4);
    reveal_with_fuel(held_after_all, 4);
    assert(answers(held, capacity, made[0]));
    if made.len() == 1 {
        assert(made.skip(1) =~= Seq::empty());
    } else {
        assert(made.skip(1)[0] == made[1]);
        assert(made.skip(1).skip(1)[0] == made[2]);
        assert(made.skip(1).skip(1).skip(1) =~= Seq::empty());
    }
}

/// A stream is chosen exactly if some range has the channel count asked for, a lowest
/// rate at or below the rate asked for and a highest rate at or above it. The range that
/// is chosen is one of these; of these none has a better format, and none behind it has
/// the same.
pub proof fn law_range_is_chosen_by_its_fields(
    ranges: &[ConfigRange],
    spec: &CaptureSpec,
    r: Option<usize>,
    k: int,
)
    requires
        call_ensures(choose_config, (ranges, spec), r),
        0 <= k < ranges@.len(),
    ensures
        ranges@[k].channels == spec.channels && ranges@[k].min_rate <= spec.rate
            && ranges@[k].max_rate >= spec.rate ==> {
            &&& r matches Some(i)
            &&& i < ranges@.len()
            &&& rank(ranges@[i as int].format) <= rank(ranges@[k].format)
            &&& k > i ==> ranges@[k].format != ranges@[i as int].format
        },
        r matches Some(i) ==> {
            &&& i < ranges@.len()
            &&& ranges@[i as int].channels == spec.channels
            &&& ranges@[i as int].min_rate <= spec.rate
            &&& ranges@[i as int].max_rate >= spec.rate
        },
{
    let x = ranges@[k];
    if x.channels == spec.channels && x.min_rate <= spec.rate && x.max_rate >= spec.rate {
        assert(covers(ranges@[k], *spec));
        let i = r->0 as int;
        assert(best_range(ranges@, *spec, i));
        assert(quality(ranges@[k].format) <= quality(ranges@[i].format));
    }
}

/// The stream that is opened has the channels and the rate asked for, and the format of
/// a range that has both within it; no such range has a better one. Only where there is
/// no such range is there none to open.
pub proof fn law_stream_is_what_was_asked_for(
    ranges: &[ConfigRange],
    spec: &CaptureSpec,
    r: Option<StreamPlan>,
    k: int,
)
    requires
        call_ensures(open_capture, (ranges, spec), r),
        0 <= k < ranges@.len(),
    ensures
        ranges@[k].channels == spec.channels && ranges@[k].min_rate <= spec.rate
            && ranges@[k].max_rate >= spec.rate ==> (r matches Some(p) && rank(p.format) <= rank(
            ranges@[k].format,
        )),
        r matches Some(p) ==> {
            &&& p.channels == spec.channels
            &&& p.rate == spec.rate
            &&& exists|i: int|
                {
                    &&& 0 <= i < ranges@.len()
                    &&& (#[trigger] ranges@[i]).format == p.format
                    &&& ranges@[i].channels == spec.channels
                    &&& ranges@[i].min_rate <= spec.rate
                    &&& ranges@[i].max_rate >= spec.rate
                }
        },
{
    let x = ranges@[k];
    if x.channels == spec.channels && x.min_rate <= spec.rate && x.max_rate >= spec.rate {
        assert(covers(ranges@[k], *spec));
    }
    if r is Some {
        let p = r->0;
        let i = choose|i: int| best_range(ranges@, *spec, i) && p.format == ranges@[i].format;
        assert(covers(ranges@[i], *spec));
        assert(ranges@[i].format == p.format);
        if covers(ranges@[k], *spec) {
            assert(quality(ranges@[k].format) <= quality(ranges@[i].format));
        }
    }
}

/// Without ranges there is nothing to choose from.
pub proof fn law_no_range_no_choice(
    ranges: &[ConfigRange],
    spec: &CaptureSpec,
    a: Option<usize>,
    b: Option<StreamPlan>,
)
    requires
        call_ensures(choose_config, (ranges, spec), a),
        call_ensures(open_capture, (ranges, spec), b),
        ranges@.len() == 0,
    ensures
        a is None,
        b is None,
{
}

/// A format scores the more the better it is: 32-bit float before 32-bit integers,
/// these before 16-bit ones, signed before unsigned, and these before 8-bit ones,
/// unsigned before signed; and any that can be captured before any that cannot.
pub proof fn law_better_formats_score_more(f: SampleKind, g: SampleKind, a: u8, b: u8)
    requires
        call_ensures(format_quality, (f,), a),
        call_ensures(format_quality, (g,), b),
        rank(f) < rank(g),
    ensures
        a > b,
{
}

/// What is opened is the stream that was chosen, whole, or else the default one, whole;
/// and it is refused, by its format, exactly if that is none of the six that can be
/// captured.
pub proof fn law_stream_is_accepted_whole(
    chosen: Option<StreamPlan>,
    default: StreamPlan,
    r: Result<StreamPlan, SampleKind>,
)
    requires
        call_ensures(accept_stream, (chosen, default), r),
    ensures
        ({
            let plan = if chosen is Some {
                chosen->0
            } else {
                default
            };
            &&& r matches Ok(p) ==> p == plan && rank(plan.format) < 6
            &&& r matches Err(f) ==> f == plan.format && rank(plan.format) == 6
        }),
{
}

/// A name picks the first entry that is the same but for the case of ASCII letters; no
/// entry is picked exactly if there is none.
pub proof fn law_name_picks_the_first_like_it(names: &[String], name: &str, r: Option<usize>)
    requires
        call_ensures(find_named, (names, name), r),
    ensures
        match r {
            Some(i) => {
                &&& i < names@.len()
                &&& alike(names@[i as int]@, name@)
                &&& forall|j: int| 0 <= j < i ==> !alike(#[trigger] names@[j]@, name@)
            },
            None => forall|j: int| 0 <= j < names@.len() ==> !alike(#[trigger] names@[j]@, name@),
        },
{
    assert forall|j: int| 0 <= j < names@.len() implies (lowercase(#[trigger] names@[j]@)
        == lowercase(name@) <==> alike(names@[j]@, name@)) by {
        lemma_alike(names@[j]@, name@);
    }
}

/// The host is the platform's own exactly if none is named; else it is the first with
/// the name, in either case, or missing if there is none.
pub proof fn law_host_is_picked_by_name(hosts: &[String], name: Option<&str>, r: Pick)
    requires
        call_ensures(pick_host, (hosts, name), r),
    ensures
        r is Default <==> (name is None || name->0@.len() == 0),
        r matches Pick::Entry(i) ==> {
            &&& i < hosts@.len()
            &&& alike(hosts@[i as int]@, name->0@)
            &&& forall|j: int| 0 <= j < i ==> !alike(#[trigger] hosts@[j]@, name->0@)
        },
        r is Missing ==> forall|j: int|
            0 <= j < hosts@.len() ==> !alike(#[trigger] hosts@[j]@, name->0@),
{
    if name is Some {
        assert forall|j: int| 0 <= j < hosts@.len() implies (lowercase(#[trigger] hosts@[j]@)
            == lowercase(name->0@) <==> alike(hosts@[j]@, name->0@)) by {
            lemma_alike(hosts@[j]@, name->0@);
        }
    }
}

/// The device is the default one exactly if that is its name; else it is the first with
/// the name, in either case, or missing if there is none.
pub proof fn law_device_is_picked_by_name(labels: &[String], name: &str, r: Pick)
    requires
        call_ensures(pick_device, (labels, name), r),
    ensures
        r is Default <==> name@ == "default"@,
        r matches Pick::Entry(i) ==> {
            &&& i < labels@.len()
            &&& alike(labels@[i as int]@, name@)
            &&& forall|j: int| 0 <= j < i ==> !alike(#[trigger] labels@[j]@, name@)
        },
        r is Missing ==> forall|j: int|
            0 <= j < labels@.len() ==> !alike(#[trigger] labels@[j]@, name@),
{
    assert forall|j: int| 0 <= j < labels@.len() implies (lowercase(#[trigger] labels@[j]@)
        == lowercase(name@) <==> alike(labels@[j]@, name@)) by {
        lemma_alike(labels@[j]@, name@);
    }
}

/// A device goes by its description, by its name only where it has none, and by the
/// placeholder only where it has neither.
pub proof fn law_label_prefers_the_description(
    description: Option<&str>,
    name: Option<&str>,
    r: String,
)
    requires
        call_ensures(device_label, (description, name), r),
    ensures
        description is Some ==> r@ == description->0@,
        description is None && name is Some ==> r@ == name->0@,
        description is None && name is None ==> r@ == "<unknown>"@,
{
}

/// A batch is sent sample by sample: from the chunk each captured sample can be read off
/// in its place, at the width of the wire format, and the peak is that of the batch.
/// Nothing is sent exactly if nothing was captured.
pub proof fn law_batch_is_forwarded_whole(pcm: &Pcm, wire: Format, f: Forwarded)
    requires
        call_ensures(forward, (pcm, wire), f),
    ensures
        f is Nothing <==> match *pcm {
            Pcm::I8(v) => v@.len() == 0,
            Pcm::I16(v) => v@.len() == 0,
            Pcm::I32(v) => v@.len() == 0,
        },
        f is Chunk ==> wire !is F32LE,
        f is WantsFloat ==> wire is F32LE,
        f matches Forwarded::Chunk { bytes, peak } ==> {
            &&& wire is S16LE ==> tells16(bytes@, *pcm)
            &&& wire is S32LE ==> tells32(bytes@, *pcm)
            &&& farthest(*pcm, peak as int)
        },
        f matches Forwarded::WantsFloat { peak } ==> farthest(*pcm, peak as int),
{
    lemma_captured_is_told(*pcm, wire);
    match f {
        Forwarded::Nothing => {},
        Forwarded::Chunk { bytes, peak } => {
            lemma_farthest(*pcm, peak as int);
        },
        Forwarded::WantsFloat { peak } => {
            lemma_farthest(*pcm, peak as int);
        },
    }
}

/// Unsigned samples are sent as their distance from the middle of their scale: each in
/// its place, at the width of the wire format.
pub proof fn law_unsigned_samples_are_centered(
    a: &[u16],
    b: &[u8],
    wire: Format,
    ra: (Pcm, Forwarded),
    rb: (Pcm, Forwarded),
    i: int,
)
    requires
        call_ensures(forward_u16, (a, wire), ra),
        call_ensures(forward_u8, (b, wire), rb),
    ensures
        ra.1 is Nothing <==> a@.len() == 0,
        rb.1 is Nothing <==> b@.len() == 0,
        ra.1 matches Forwarded::Chunk { bytes, peak } ==> {
            &&& wire is S16LE ==> bytes@.len() == 2 * a@.len()
            &&& wire is S32LE ==> bytes@.len() == 4 * a@.len()
            &&& 0 <= i < a@.len() && wire is S16LE ==> signed2(bytes@, 2 * i) == a@[i] - 32768
            &&& 0 <= i < a@.len() && wire is S32LE ==> signed4(bytes@, 4 * i) == 65536 * (a@[i]
                - 32768)
        },
        rb.1 matches Forwarded::Chunk { bytes, peak } ==> {
            &&& wire is S16LE ==> bytes@.len() == 2 * b@.len()
            &&& wire is S32LE ==> bytes@.len() == 4 * b@.len()
            &&& 0 <= i < b@.len() && wire is S16LE ==> signed2(bytes@, 2 * i) == 256 * (b@[i]
                - 128)
            &&& 0 <= i < b@.len() && wire is S32LE ==> signed4(bytes@, 4 * i) == 16777216 * (b@[i]
                - 128)
        },
        ra.0 matches Pcm::I16(v) && v@.len() == a@.len() && (0 <= i < a@.len() ==> v@[i] == a@[i]
            - 32768),
        rb.0 matches Pcm::I8(v) && v@.len() == b@.len() && (0 <= i < b@.len() ==> v@[i] == b@[i]
            - 128),
        ra.1 matches Forwarded::Chunk { bytes, peak } ==> farthest(ra.0, peak as int),
        rb.1 matches Forwarded::Chunk { bytes, peak } ==> farthest(rb.0, peak as int),
        ra.1 matches Forwarded::WantsFloat { peak } ==> farthest(ra.0, peak as int),
        rb.1 matches Forwarded::WantsFloat { peak } ==> farthest(rb.0, peak as int),
        wire is F32LE && a@.len() > 0 ==> ra.1 is WantsFloat,
        wire is F32LE && b@.len() > 0 ==> rb.1 is WantsFloat,
        wire !is F32LE && a@.len() > 0 ==> ra.1 is Chunk,
        wire !is F32LE && b@.len() > 0 ==> rb.1 is Chunk,
{
    lemma_captured_is_told(ra.0, wire);
    lemma_captured_is_told(rb.0, wire);
    match ra.1 {
        Forwarded::Chunk { bytes, peak } => lemma_farthest(ra.0, peak as int),
        Forwarded::WantsFloat { peak } => lemma_farthest(ra.0, peak as int),
        _ => {},
    }
    match rb.1 {
        Forwarded::Chunk { bytes, peak } => lemma_farthest(rb.0, peak as int),
        Forwarded::WantsFloat { peak } => lemma_farthest(rb.0, peak as int),
        _ => {},
    }
    let va = ra.0->I16_0;
    let vb = rb.0->I8_0;
    if 0 <= i < a@.len() {
        assert(va@[i] == a@[i] - 32768);
    }
    if 0 <= i < b@.len() {
        assert(vb@[i] == b@[i] - 128);
    }
}

/// What is said of a chunk that found the queue full is what became of it: that it is in
/// the queue exactly if the second offer was taken, that a chunk was lost for it exactly
/// if one was taken off as well, and that it is gone, or nobody reads any more, exactly
/// if the queue said so. Whether it is worth a warning goes by whether it is audible.
pub proof fn law_push_says_what_became(
    gone: &TakeOutcome,
    second: &SendOutcome,
    audible: bool,
    r: Pushed,
)
    requires
        call_ensures(push_result, (gone, second, audible), r),
    ensures
        r is Queued || r is OldestDropped <==> second is Sent,
        r is OldestDropped <==> second is Sent && gone is Took,
        r is Dropped <==> second is Full,
        r is Closed <==> second is Disconnected,
        r matches Pushed::OldestDropped { audible: a } ==> a == audible,
        r matches Pushed::Dropped { audible: a } ==> a == audible,
{
}

/// No queue holds more than it can after a chunk is pushed, and whatever it is that
/// holds, the chunk is the last of it if it went in. A queue without room for anything
/// takes nothing.
pub proof fn law_push_goes_by_its_calls(
    q: &mut Ring,
    chunk: Vec<u8>,
    audible: bool,
    r: Pushed,
    made: Seq<Call>,
    held: Seq<Seq<u8>>,
    capacity: nat,
)
    requires
        call_ensures(crate::audio_in::push, (q, chunk, audible), r),
        final(q).calls() == old(q).calls() + made,
        held.len() <= capacity,
        answers_all(held, capacity, made),
    ensures
        made.len() == 1 || made.len() == 3,
        capacity == 0 ==> r == (Pushed::Dropped { audible }) && held_after_all(held, made) == held,
        0 < capacity && held.len() == capacity ==> {
            &&& r == (Pushed::OldestDropped { audible })
            &&& held_after_all(held, made) == held.skip(1).push(chunk@)
        },
        held.len() < capacity ==> r is Queued && held_after_all(held, made) == held.push(chunk@),
{
    let other = choose|other: Seq<Call>|
        final(q).calls() == old(q).calls() + other && #[trigger] push_calls(
            other,
            chunk@,
            audible,
            r,
        );
    assert(made =~= other) by {
        let n = old(q).calls().len() as int;
        assert(made =~= final(q).calls().skip(n));
        assert(other =~= final(q).calls().skip(n));
    }
    if capacity > 0 {
        law_full_queue_loses_its_oldest(made, chunk@, audible, r, held, capacity);
    } else {
        reveal_with_fuel(answers_all, 4);
        reveal_with_fuel(held_after_all, 4);
        assert(answers(held, capacity, made[0]));
        assert(made.skip(1)[0] == made[1]);
        assert(made.skip(1).skip(1)[0] == made[2]);
        assert(made.skip(1).skip(1).skip(1) =~= Seq::empty());
    }
}

/// Six formats can be captured: 32-bit float, and integers of 32, 16 and 8 bits, those of
/// 16 and 8 signed or not.
pub proof fn law_six_formats_can_be_captured(f: SampleKind, r: bool)
    requires
        call_ensures(can_capture, (f,), r),
    ensures
        r <==> f is F32 || f is I32 || f is I16 || f is U16 || f is U8 || f is I8,
{
}

} // verus!
