//! The virtual output on Linux: a null sink of PulseAudio or PipeWire that shows
//! up in the sound settings as a speaker, and whose monitor becomes the default
//! source, so that capturing the default input captures what is played to it.
//!
//! All of it is done by running `pactl`. The default source from before is noted
//! when the sink is made, and restored when it is taken down.
use vstd::prelude::*;

use crate::decimal::{all_digits, is_digit, is_digit_char, lemma_numeric};
use crate::plain::{all_white, bare, numeric};
use crate::text::{
    append, chars_of, lemma_trim_is, replace_all, replaced, starts_with, string_of, texts, trim,
    trim_text, trimmed,
};

verus! {

/// What a run of `pactl` gave: its output, or why it failed.
pub type PactlResult = Result<String, String>;

/// The description as `pactl` can take it. It would end a property at a quote or
/// a blank: quotes are left out, and blanks become non-breaking ones.
pub open spec fn safe_description(description: Seq<char>) -> Seq<char> {
    replace_all(replace_all(description, "\""@, ""@), " "@, "\u{a0}"@)
}

/// The arguments that ask whether `pactl` is there.
pub open spec fn probe_args() -> Seq<Seq<char>> {
    seq!["--version"@]
}

/// The arguments that ask for the default source.
pub open spec fn source_args() -> Seq<Seq<char>> {
    seq!["get-default-source"@]
}

/// The arguments that make the sink.
pub open spec fn load_args(description: Seq<char>) -> Seq<Seq<char>> {
    seq![
        "load-module"@,
        "module-null-sink"@,
        "sink_name=rpi_camilla_bridge"@,
        "sink_properties=device.description="@ + safe_description(description),
    ]
}

/// The arguments that make a source the default one.
pub open spec fn route_args(source: Seq<char>) -> Seq<Seq<char>> {
    seq!["set-default-source"@, source]
}

/// The arguments that take the sink down.
pub open spec fn unload_args(module_id: Seq<char>) -> Seq<Seq<char>> {
    seq!["unload-module"@, module_id]
}

/// The monitor of the sink.
pub open spec fn monitor() -> Seq<char> {
    "rpi_camilla_bridge.monitor"@
}

/// The text is the id of a module: digits, and at least one.
pub open spec fn is_module_id(s: Seq<char>) -> bool {
    s.len() > 0 && all_digits(s)
}

/// The source that `pactl` named, if it named one.
pub open spec fn named_source(out: PactlResult) -> Option<Seq<char>> {
    match out {
        Ok(s) => if trim(s@).len() > 0 {
            Some(trim(s@))
        } else {
            None
        },
        Err(_) => None,
    }
}

/// A virtual output that is in place.
#[derive(Debug)]
pub struct VirtualSink {
    /// The module that makes the sink.
    pub module_id: String,
    /// The default source from before, if there was one.
    pub previous_default_source: Option<String>,
}

/// How far making the sink has come.
#[derive(Debug, Clone, Copy, PartialEq, Eq, Structural)]
pub enum SetupStage {
    /// `pactl` is looked for.
    Probe,
    /// The default source is asked for.
    Source,
    /// The sink is made.
    Load,
    /// The monitor is made the default source.
    Route,
    /// Nothing more is to be done.
    Ended,
}

/// A virtual output that is being made.
#[derive(Debug)]
pub struct SinkSetup {
    pub stage: SetupStage,
    /// The label that the sink gets.
    pub description: String,
    /// The default source from before, once it was asked for.
    pub previous: Option<String>,
    /// The module that makes the sink, once it was made.
    pub module_id: String,
}

/// What making the sink does next.
#[derive(Debug)]
pub enum SetupStep {
    /// Run `pactl` with these arguments.
    Run(Vec<String>),
    /// There is no `pactl`; the sink has to be done without.
    Unavailable,
    /// The sink could not be made, for this reason.
    LoadFailed(String),
    /// `pactl` gave something that is no module id.
    BadModuleId(String),
    /// The sink is in place. Where the second part is a reason, it could not be
    /// made the default source.
    Ready(VirtualSink, Option<String>),
}

/// The view of an optional text.
pub open spec fn opt_text(s: Option<String>) -> Option<Seq<char>> {
    match s {
        Some(t) => Some(t@),
        None => None,
    }
}

fn args1(a: &str) -> (r: Vec<String>)
    ensures
        texts(r@) == seq![a@],
{
    let mut r: Vec<String> = Vec::new();
    r.push(a.to_owned());
    assert(texts(r@) =~= seq![a@]);
    r
}

fn args2(a: &str, b: &str) -> (r: Vec<String>)
    ensures
        texts(r@) == seq![a@, b@],
{
    let mut r: Vec<String> = Vec::new();
    r.push(a.to_owned());
    r.push(b.to_owned());
    assert(texts(r@) =~= seq![a@, b@]);
    r
}

fn load_command(description: &str) -> (r: Vec<String>)
    ensures
        texts(r@) == load_args(description@),
{
    let unquoted = replaced(&chars_of(description), &chars_of("\""), &chars_of(""));
    let safe = replaced(&unquoted, &chars_of(" "), &chars_of("\u{a0}"));
    let mut property: String = "sink_properties=device.description=".to_owned();
    property.append(string_of(&safe).as_str());
    let mut r: Vec<String> = Vec::new();
    r.push("load-module".to_owned());
    r.push("module-null-sink".to_owned());
    r.push("sink_name=rpi_camilla_bridge".to_owned());
    r.push(property);
    assert(texts(r@) =~= load_args(description@));
    r
}

fn looks_like_id(s: &str) -> (r: bool)
    ensures
        r == is_module_id(s@),
{
    let v = chars_of(s);
    let n: usize = v.len();
    if n == 0 {
        return false;
    }
    for i in 0..n
        invariant
            n == v@.len(),
            v@ == s@,
            forall|j: int| 0 <= j < i ==> is_digit(#[trigger] s@[j]),
    {
        if !is_digit_char(v[i]) {
            assert(!is_digit(s@[i as int]));
            return false;
        }
    }
    true
}

/// What follows the output of `pactl` at a stage.
pub open spec fn setup_follows(before: SinkSetup, out: PactlResult, step: SetupStep) -> bool {
    match before.stage {
        SetupStage::Probe => if out is Ok {
            step matches SetupStep::Run(args) && texts(args@) == source_args()
        } else {
            step is Unavailable
        },
        SetupStage::Source => step matches SetupStep::Run(args) && texts(args@) == load_args(
            before.description@,
        ),
        SetupStage::Load => match out {
            Err(why) => step == SetupStep::LoadFailed(why),
            Ok(s) => if is_module_id(trim(s@)) {
                step matches SetupStep::Run(args) && texts(args@) == route_args(monitor())
            } else {
                step matches SetupStep::BadModuleId(id) && id@ == trim(s@)
            },
        },
        SetupStage::Route => {
            &&& step matches SetupStep::Ready(sink, why)
            &&& sink.module_id@ == before.module_id@
            &&& opt_text(sink.previous_default_source) == opt_text(before.previous)
            &&& opt_text(why) == match out {
                Ok(_) => None,
                Err(e) => Some(e@),
            }
        },
        SetupStage::Ended => true,
    }
}

/// The stage that follows the output of `pactl`.
pub open spec fn setup_stage(stage: SetupStage, out: PactlResult) -> SetupStage {
    match stage {
        SetupStage::Probe => if out is Ok {
            SetupStage::Source
        } else {
            SetupStage::Ended
        },
        SetupStage::Source => SetupStage::Load,
        SetupStage::Load => match out {
            Ok(s) => if is_module_id(trim(s@)) {
                SetupStage::Route
            } else {
                SetupStage::Ended
            },
            Err(_) => SetupStage::Ended,
        },
        _ => SetupStage::Ended,
    }
}

/// From `before`, the output of `pactl` leads to `after` and to `step`.
pub open spec fn advances(
    before: SinkSetup,
    out: PactlResult,
    after: SinkSetup,
    step: SetupStep,
) -> bool {
    &&& after.description@ == before.description@
    &&& after.stage == setup_stage(before.stage, out)
    &&& setup_follows(before, out, step)
    &&& opt_text(after.previous) == match before.stage {
        SetupStage::Source => named_source(out),
        SetupStage::Route => None,
        _ => opt_text(before.previous),
    }
    &&& after.stage is Route ==> after.module_id@ == trim(out->Ok_0@)
}

impl SinkSetup {
    /// What is known fits the stage.
    pub open spec fn wf(self) -> bool {
        self.stage is Route ==> is_module_id(self.module_id@)
    }

    /// Takes in the output of `pactl` and says what is next.
    pub fn advance(&mut self, out: PactlResult) -> (step: SetupStep)
        requires
            old(self).stage !is Ended,
            old(self).wf(),
        ensures
            final(self).wf(),
            advances(*old(self), out, *final(self), step),
            step matches SetupStep::Ready(sink, _) ==> is_module_id(sink.module_id@),
    {
        match self.stage {
            SetupStage::Probe => match out {
                Ok(_) => {
                    self.stage = SetupStage::Source;
                    SetupStep::Run(args1("get-default-source"))
                },
                Err(_) => {
                    self.stage = SetupStage::Ended;
                    SetupStep::Unavailable
                },
            },
            SetupStage::Source => {
                self.previous = match out {
                    Ok(s) => {
                        let t: String = trim_text(s.as_str());
                        if t.as_str().is_empty() {
                            None
                        } else {
                            Some(t)
                        }
                    },
                    Err(_) => None,
                };
                self.stage = SetupStage::Load;
                SetupStep::Run(load_command(self.description.as_str()))
            },
            SetupStage::Load => {
                self.stage = SetupStage::Ended;
                match out {
                    Err(why) => SetupStep::LoadFailed(why),
                    Ok(s) => {
                        let id: String = trim_text(s.as_str());
                        if looks_like_id(id.as_str()) {
                            self.module_id = id;
                            self.stage = SetupStage::Route;
                            SetupStep::Run(
                                args2("set-default-source", "rpi_camilla_bridge.monitor"),
                            )
                        } else {
                            SetupStep::BadModuleId(id)
                        }
                    },
                }
            },
            _ => {
                self.stage = SetupStage::Ended;
                let sink = VirtualSink {
                    module_id: self.module_id.clone(),
                    previous_default_source: self.previous.take(),
                };
                SetupStep::Ready(
                    sink,
                    match out {
                        Ok(_) => None,
                        Err(e) => Some(e),
                    },
                )
            },
        }
    }
}

/// The runs of `pactl` that take a sink down: the default source from before is
/// restored, if there was one, and then the module is unloaded.
pub open spec fn teardown_args(module_id: Seq<char>, previous: Option<Seq<char>>) -> Seq<
    Seq<Seq<char>>,
> {
    match previous {
        Some(p) => seq![route_args(p), unload_args(module_id)],
        None => seq![unload_args(module_id)],
    }
}

/// The texts of several runs.
pub open spec fn runs(v: Seq<Vec<String>>) -> Seq<Seq<Seq<char>>> {
    Seq::new(v.len(), |i: int| texts(v[i]@))
}

impl VirtualSink {
    /// Begins to make a virtual output with the given label: the first thing is
    /// to look for `pactl`.
    pub fn try_create(description: &str) -> (r: (SinkSetup, Vec<String>))
        ensures
            r.0.stage is Probe,
            r.0.wf(),
            r.0.description@ == description@,
            r.0.previous is None,
            texts(r.1@) == probe_args(),
    {
        (
            SinkSetup {
                stage: SetupStage::Probe,
                description: description.to_owned(),
                previous: None,
                module_id: String::new(),
            },
            args1("--version"),
        )
    }

    /// The runs of `pactl` that take the sink down.
    pub fn teardown(&self) -> (r: Vec<Vec<String>>)
        ensures
            runs(r@) == teardown_args(self.module_id@, opt_text(self.previous_default_source)),
    {
        let mut r: Vec<Vec<String>> = Vec::new();
        match &self.previous_default_source {
            Some(p) => {
                r.push(args2("set-default-source", p.as_str()));
            },
            None => {},
        }
        r.push(args2("unload-module", self.module_id.as_str()));
        assert(runs(r@) =~= teardown_args(
            self.module_id@,
            opt_text(self.previous_default_source),
        ));
        r
    }
}

/// The arguments with blanks between them.
pub open spec fn joined(args: Seq<Seq<char>>) -> Seq<char>
    decreases args.len(),
{
    if args.len() == 0 {
        Seq::empty()
    } else if args.len() == 1 {
        args[0]
    } else {
        joined(args.drop_last()) + " "@ + args.last()
    }
}

/// What a run of `pactl` that ended comes to: its output, or a message with the
/// arguments, the exit status and what it complained of.
pub fn run_pactl(args: &[String], success: bool, status: &str, stdout: &str, stderr: &str) -> (r:
    PactlResult)
    ensures
        success ==> r is Ok && r->Ok_0@ == stdout@,
        !success ==> r is Err && r->Err_0@ == "pactl "@ + joined(texts(args@)) + " exited "@
            + status@ + ": "@ + trim(stderr@),
{
    if success {
        return Ok(stdout.to_owned());
    }
    let n: usize = args.len();
    let mut all: Vec<char> = Vec::new();
    let blank = chars_of(" ");
    let ghost list = texts(args@);
    assert(list.take(0) =~= Seq::empty());
    for i in 0..n
        invariant
            n == args@.len(),
            list == texts(args@),
            blank@ == " "@,
            all@ == joined(list.take(i as int)),
    {
        let ghost before = all@;
        assert(list.take(i + 1).drop_last() =~= list.take(i as int));
        assert(list.take(i + 1).last() == args@[i as int]@);
        if i > 0 {
            append(&mut all, &blank);
        }
        append(&mut all, &chars_of(args[i].as_str()));
        if i == 0 {
            assert(all@ =~= args@[0]@);
            assert(list.take(1)[0] == args@[0]@);
        }
    }
    assert(list.take(n as int) =~= list);
    let mut t: String = "pactl ".to_owned();
    t.append(string_of(&all).as_str());
    t.append(" exited ");
    t.append(status);
    t.append(": ");
    t.append(string_of(&trimmed(&chars_of(stderr))).as_str());
    Err(t)
}

proof fn lemma_replaced_char_is_gone(s: Seq<char>, c: char, to: Seq<char>)
    requires
        forall|i: int| 0 <= i < to.len() ==> to[i] != c,
    ensures
        forall|i: int|
            0 <= i < replace_all(s, seq![c], to).len() ==> #[trigger] replace_all(s, seq![c], to)[i]
                != c,
        forall|d: char|
            (forall|i: int| 0 <= i < s.len() ==> s[i] != d) && (forall|i: int|
                0 <= i < to.len() ==> to[i] != d) ==> !#[trigger] replace_all(
                s,
                seq![c],
                to,
            ).contains(d),
    decreases s.len(),
{
    let from = seq![c];
    let r = replace_all(s, from, to);
    if s.len() > 0 {
        let rest = replace_all(s.skip(1), from, to);
        lemma_replaced_char_is_gone(s.skip(1), c, to);
        assert(s.subrange(0, 1) =~= seq![s[0]]);
        let head = if s[0] == c {
            assert(s.subrange(0, 1) =~= from);
            to
        } else {
            assert(s.subrange(0, 1)[0] != from[0]);
            seq![s[0]]
        };
        assert(r == head + rest);
        assert forall|d: char|
            (forall|i: int| 0 <= i < s.len() ==> s[i] != d) && (forall|i: int|
                0 <= i < to.len() ==> to[i] != d) implies !#[trigger] r.contains(d) by {
            assert forall|i: int| 0 <= i < s.skip(1).len() implies s.skip(1)[i] != d by {
                assert(s.skip(1)[i] == s[i + 1]);
            }
            assert(!rest.contains(d));
            if r.contains(d) {
                let k = choose|k: int| 0 <= k < r.len() && r[k] == d;
                if k >= head.len() {
                    assert(rest[k - head.len()] == d);
                }
            }
        }
    }
}

/// Whatever the label, the property that `pactl` gets holds neither a quote nor
/// a blank.
pub proof fn law_description_is_safe(description: Seq<char>)
    ensures
        !safe_description(description).contains('"'),
        !safe_description(description).contains(' '),
{
    reveal_strlit("\"");
    reveal_strlit("");
    reveal_strlit(" ");
    reveal_strlit("\u{a0}");
    assert("\""@ =~= seq!['"']);
    assert(" "@ =~= seq![' ']);
    assert("\u{a0}"@ =~= seq!['\u{a0}']);
    let unquoted = replace_all(description, "\""@, ""@);
    lemma_replaced_char_is_gone(description, '"', ""@);
    lemma_replaced_char_is_gone(unquoted, ' ', "\u{a0}"@);
}

/// Taking a sink down undoes making it: the module that was loaded is unloaded,
/// and the source that was the default before is the default again.
pub proof fn law_teardown_undoes_setup(
    states: Seq<SinkSetup>,
    outs: Seq<PactlResult>,
    steps: Seq<SetupStep>,
)
    requires
        states.len() == 5,
        outs.len() == 4,
        steps.len() == 4,
        states[0].stage is Probe,
        forall|i: int|
            0 <= i < 4 ==> advances(#[trigger] states[i], outs[i], states[i + 1], steps[i]),
        steps[3] is Ready,
        states[3].stage is Route,
    ensures
        ({
            let sink = steps[3]->Ready_0;
            teardown_args(sink.module_id@, opt_text(sink.previous_default_source))
                == teardown_args(trim(outs[2]->Ok_0@), named_source(outs[1]))
        }),
        texts(steps[0]->Run_0@) == source_args(),
        texts(steps[1]->Run_0@) == load_args(states[0].description@),
        texts(steps[2]->Run_0@) == route_args(monitor()),
{
    assert(advances(states[0], outs[0], states[1], steps[0]));
    assert(advances(states[1], outs[1], states[2], steps[1]));
    assert(advances(states[2], outs[2], states[3], steps[2]));
    assert(advances(states[3], outs[3], states[4], steps[3]));
}

/// The description character by character: quotes go, blanks become non-breaking ones, and
/// everything else stays.
pub open spec fn tame(s: Seq<char>) -> Seq<char>
    decreases s.len(),
{
    if s.len() == 0 {
        Seq::empty()
    } else if s[0] == '"' {
        tame(s.skip(1))
    } else if s[0] == ' ' {
        seq!['\u{a0}'] + tame(s.skip(1))
    } else {
        seq![s[0]] + tame(s.skip(1))
    }
}

proof fn lemma_replaced_one(s: Seq<char>, c: char, to: Seq<char>)
    requires
        s.len() > 0,
    ensures
        replace_all(s, seq![c], to) == if s[0] == c {
            to + replace_all(s.skip(1), seq![c], to)
        } else {
            seq![s[0]] + replace_all(s.skip(1), seq![c], to)
        },
{
    assert(s.subrange(0, 1) =~= seq![s[0]]);
    if s[0] != c {
        assert(s.subrange(0, 1)[0] != seq![c][0]);
        assert(!starts_with(s, seq![c]));
    } else {
        assert(s.subrange(0, 1) =~= seq![c]);
        assert(starts_with(s, seq![c]));
    }
}

proof fn lemma_tame(s: Seq<char>)
    ensures
        replace_all(replace_all(s, seq!['"'], Seq::empty()), seq![' '], seq!['\u{a0}']) == tame(s),
    decreases s.len(),
{
    let none = Seq::<char>::empty();
    let nb = seq!['\u{a0}'];
    if s.len() > 0 {
        let rest = replace_all(s.skip(1), seq!['"'], none);
        lemma_tame(s.skip(1));
        lemma_replaced_one(s, '"', none);
        if s[0] == '"' {
            assert(none + rest =~= rest);
        } else {
            let t = seq![s[0]] + rest;
            assert(t.skip(1) =~= rest);
            lemma_replaced_one(t, ' ', nb);
        }
    } else {
        assert(replace_all(s, seq!['"'], none) =~= none);
    }
}

/// The sink is asked for by these arguments, with the label character by character but for
/// quotes, which go, and blanks, which become non-breaking.
proof fn lemma_load_args(description: Seq<char>)
    ensures
        safe_description(description) == tame(description),
{
    reveal_strlit("\"");
    reveal_strlit("");
    reveal_strlit(" ");
    reveal_strlit("\u{a0}");
    assert("\""@ =~= seq!['"']);
    assert(""@ =~= Seq::empty());
    assert(" "@ =~= seq![' ']);
    assert("\u{a0}"@ =~= seq!['\u{a0}']);
    lemma_tame(description);
}

/// The arguments of a run are these texts, in order.
pub open spec fn is_run(step: SetupStep, args: Seq<Seq<char>>) -> bool {
    &&& step matches SetupStep::Run(v)
    &&& v@.len() == args.len()
    &&& forall|i: int| 0 <= i < args.len() ==> (#[trigger] v@[i])@ == args[i]
}

proof fn lemma_is_run(step: SetupStep, args: Seq<Seq<char>>)
    requires
        step matches SetupStep::Run(v) && texts(v@) == args,
    ensures
        is_run(step, args),
{
    let v = step->Run_0;
    assert(texts(v@).len() == v@.len());
    assert forall|i: int| 0 <= i < args.len() implies (#[trigger] v@[i])@ == args[i] by {
        assert(texts(v@)[i] == v@[i]@);
    }
}

/// Making the sink goes on after each run of `pactl`: once it is there the default source
/// is asked for and noted, whatever it is; the sink is made with the label asked for; its
/// id must be digits, and then its monitor is made the default source; and the sink is in
/// place whatever came of that.
pub proof fn law_sink_is_made_step_by_step(
    s: &mut SinkSetup,
    out: PactlResult,
    step: SetupStep,
    before: Seq<char>,
    said: Seq<char>,
    after: Seq<char>,
)
    requires
        call_ensures(SinkSetup::advance, (s, out), step),
        out matches Ok(o) ==> o@ == before + said + after,
        all_white(before),
        all_white(after),
        bare(said),
    ensures
        final(s).description@ == old(s).description@,
        old(s).stage is Probe ==> {
            &&& out is Ok ==> is_run(step, seq!["get-default-source"@]) && final(s).stage is Source
            &&& out is Err ==> step is Unavailable && final(s).stage is Ended
        },
        old(s).stage is Source ==> {
            &&& is_run(
                step,
                seq![
                    "load-module"@,
                    "module-null-sink"@,
                    "sink_name=rpi_camilla_bridge"@,
                    "sink_properties=device.description="@ + tame(old(s).description@),
                ],
            )
            &&& final(s).stage is Load
            &&& out is Ok && said.len() > 0 ==> (final(s).previous matches Some(p) && p@ == said)
            &&& out is Err || said.len() == 0 ==> final(s).previous is None
        },
        old(s).stage is Load ==> {
            &&& out matches Err(why) ==> step == SetupStep::LoadFailed(why)
            &&& out is Ok && numeric(said) ==> {
                &&& is_run(step, seq!["set-default-source"@, "rpi_camilla_bridge.monitor"@])
                &&& final(s).stage is Route
                &&& final(s).module_id@ == said
            }
            &&& out is Ok && !numeric(said) ==> (step matches SetupStep::BadModuleId(id) && id@
                == said)
        },
        old(s).stage is Route ==> {
            &&& step matches SetupStep::Ready(sink, why)
            &&& sink.module_id@ == old(s).module_id@
            &&& match old(s).previous {
                Some(p) => sink.previous_default_source matches Some(q) && q@ == p@,
                None => sink.previous_default_source is None,
            }
            &&& why is Some <==> out is Err
            &&& out matches Err(e) ==> why->0@ == e@
        },
{
    if out is Ok {
        lemma_trim_is(before, said, after);
    }
    lemma_numeric(said);
    lemma_load_args(old(s).description@);
    match old(s).stage {
        SetupStage::Probe => {
            if out is Ok {
                lemma_is_run(step, seq!["get-default-source"@]);
            }
        },
        SetupStage::Source => {
            lemma_is_run(
                step,
                seq![
                    "load-module"@,
                    "module-null-sink"@,
                    "sink_name=rpi_camilla_bridge"@,
                    "sink_properties=device.description="@ + tame(old(s).description@),
                ],
            );
        },
        SetupStage::Load => {
            if out is Ok && numeric(said) {
                lemma_is_run(step, seq!["set-default-source"@, "rpi_camilla_bridge.monitor"@]);
            }
        },
        _ => {},
    }
}

/// The first thing is to look for `pactl`, with the label kept for later.
pub proof fn law_sink_begins_with_a_look(
    description: &str,
    r: (SinkSetup, Vec<String>),
)
    requires
        call_ensures(VirtualSink::try_create, (description,), r),
    ensures
        r.0.stage is Probe,
        r.0.description@ == description@,
        r.0.previous is None,
        r.1@.len() == 1,
        r.1@[0]@ == "--version"@,
{
    assert(texts(r.1@).len() == r.1@.len());
    assert(texts(r.1@)[0] == r.1@[0]@);
}

/// Taking the sink down sets the default source from before, if there was one, and then
/// unloads the module that made it.
pub proof fn law_sink_is_taken_down(sink: &VirtualSink, r: Vec<Vec<String>>)
    requires
        call_ensures(VirtualSink::teardown, (sink,), r),
    ensures
        r@.len() == if sink.previous_default_source is Some {
            2int
        } else {
            1
        },
        sink.previous_default_source matches Some(p) ==> {
            &&& r@[0]@.len() == 2
            &&& r@[0]@[0]@ == "set-default-source"@
            &&& r@[0]@[1]@ == p@
        },
        ({
            let last = r@[r@.len() - 1]@;
            &&& last.len() == 2
            &&& last[0]@ == "unload-module"@
            &&& last[1]@ == sink.module_id@
        }),
{
    let v = runs(r@);
    assert(v.len() == r@.len());
    assert forall|i: int| 0 <= i < r@.len() implies v[i] == texts((#[trigger] r@[i])@) by {}
    let last = r@[r@.len() - 1]@;
    assert(texts(last).len() == last.len());
    assert(texts(last)[0] == last[0]@ && texts(last)[1] == last[1]@);
    let first = r@[0]@;
    assert(texts(first).len() == first.len());
    assert(texts(first)[0] == first[0]@ && texts(first)[1] == first[1]@);
}

/// Texts with one blank between any two.
pub open spec fn spaced(args: Seq<String>) -> Seq<char>
    decreases args.len(),
{
    if args.len() == 0 {
        Seq::empty()
    } else if args.len() == 1 {
        args[0]@
    } else {
        args[0]@ + seq![' '] + spaced(args.skip(1))
    }
}

proof fn lemma_spaced(args: Seq<String>)
    ensures
        joined(texts(args)) == spaced(args),
    decreases args.len(),
{
    reveal_strlit(" ");
    assert(" "@ =~= seq![' ']);
    let v = texts(args);
    if args.len() >= 2 {
        lemma_joined_front(v);
        lemma_spaced(args.skip(1));
        assert(v.skip(1) =~= texts(args.skip(1)));
    } else if args.len() == 1 {
        assert(v[0] == args[0]@);
    }
}

proof fn lemma_joined_front(v: Seq<Seq<char>>)
    requires
        v.len() >= 2,
    ensures
        joined(v) == v[0] + " "@ + joined(v.skip(1)),
    decreases v.len(),
{
    let t = v.skip(1);
    assert(t.last() == v.last());
    if v.len() == 2 {
        assert(v.drop_last()[0] == v[0]);
        assert(joined(v.drop_last()) == v[0]);
        assert(t[0] == v[1]);
        assert(joined(t) == v[1]);
        assert(v.last() == v[1]);
    } else {
        lemma_joined_front(v.drop_last());
        assert(v.drop_last().skip(1) =~= t.drop_last());
        assert(joined(v) =~= v[0] + " "@ + joined(t));
    }
}

/// A run that went well comes to its output, all of it; one that failed to a message with
/// the arguments, the exit status and the complaint, without the white space around it.
pub proof fn law_run_comes_to_its_output(
    args: &[String],
    success: bool,
    status: &str,
    stdout: &str,
    stderr: &str,
    r: PactlResult,
    before: Seq<char>,
    said: Seq<char>,
    after: Seq<char>,
)
    requires
        call_ensures(run_pactl, (args, success, status, stdout, stderr), r),
        stderr@ == before + said + after,
        all_white(before),
        all_white(after),
        bare(said),
    ensures
        success ==> (r matches Ok(o) && o@ == stdout@),
        !success ==> (r matches Err(e) && e@ == "pactl "@ + spaced(args@) + " exited "@ + status@
            + ": "@ + said),
{
    lemma_trim_is(before, said, after);
    lemma_spaced(args@);
}

} // verus!
