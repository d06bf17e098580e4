//! The health check of an installation.
//!
//! It goes through the failures that waste time in practice: is the loopback
//! module loaded, is there a loopback card and a DAC, does CamillaDSP answer, are
//! the configurations there and plausible, does the device pass the guard, and
//! does anything listen for mDNS. Each check gives one line; nothing is changed.
use vstd::prelude::*;

use crate::decimal::{decimal, lemma_decimal_reads, to_decimal};
use crate::guard::{
    banned_pattern, banned_patterns, enforce_loopback_only, lemma_verdict_spelling, spells_danger,
    verdict, Refusal,
};
use crate::plain::{
    all_white, free_of, number, numeric, spelled_at, spelled_in, stands_at, stands_in, white,
};
use crate::status::{fmt, status_line};
use crate::text::{
    chars_of, contains, found_at, holds, lemma_line_is_cut, lemma_stands_at, lemma_stands_in,
    lemma_word_is_cut, lines, lowercase, pad, padded, same, split_lines, split_words, starts_with,
    strip_cr, text_has, texts, to_lower, views, words,
};

verus! {

/// What a check found.
#[derive(Debug)]
pub enum Status {
    Pass(String),
    Warn(String),
    Fail(String),
}

/// What a check found, as plain values.
pub enum StatusView {
    Pass(Seq<char>),
    Warn(Seq<char>),
    Fail(Seq<char>),
}

impl View for Status {
    type V = StatusView;

    open spec fn view(&self) -> StatusView {
        match self {
            Status::Pass(t) => StatusView::Pass(t@),
            Status::Warn(t) => StatusView::Warn(t@),
            Status::Fail(t) => StatusView::Fail(t@),
        }
    }
}

/// What there is to check.
pub struct DoctorOpts<'a> {
    pub bridge_config: Option<&'a str>,
    pub idle_config: Option<&'a str>,
    pub camilla_host: &'a str,
    pub camilla_port: u16,
    pub device: &'a str,
}

/// The text of a file, or why it could not be read.
pub type FileText<'a> = Result<&'a str, &'a str>;

/// The line of the module table is that of the loopback module.
pub open spec fn names_aloop(line: Seq<char>) -> bool {
    words(line).len() > 0 && words(line)[0] == "snd_aloop"@
}

/// The module table has a line for the loopback module.
pub open spec fn loads_aloop(table: Seq<char>) -> bool {
    exists|i: int| 0 <= i < lines(table).len() && names_aloop(#[trigger] lines(table)[i])
}

/// Some line of `text` holds `pat`.
pub open spec fn line_has(text: Seq<char>, pat: Seq<char>) -> bool {
    exists|i: int| 0 <= i < lines(text).len() && contains(#[trigger] lines(text)[i], pat)
}

/// The line of the card table describes a card that is not the loopback.
pub open spec fn is_dac_line(line: Seq<char>) -> bool {
    &&& starts_with(line, " "@)
    &&& contains(line, "["@)
    &&& !contains(line, "[Loopback "@)
}

/// How many of the lines describe a card that is not the loopback.
pub open spec fn dac_count(table: Seq<Seq<char>>) -> nat
    decreases table.len(),
{
    if table.len() == 0 {
        0
    } else {
        dac_count(table.drop_last()) + if is_dac_line(table.last()) {
            1nat
        } else {
            0nat
        }
    }
}

/// `name` could not be read because of `why`.
pub open spec fn unreadable(name: Seq<char>, why: Seq<char>) -> StatusView {
    StatusView::Warn("can't read "@ + name + ": "@ + why)
}

fn cannot_read(name: &str, why: &str) -> (s: Status)
    ensures
        s@ == unreadable(name@, why@),
{
    let mut t: String = "can't read ".to_owned();
    t.append(name);
    t.append(": ");
    t.append(why);
    Status::Warn(t)
}

fn any_line_has(text: &str, pat: &str) -> (r: bool)
    ensures
        r == line_has(text@, pat@),
{
    let table = split_lines(&chars_of(text));
    let needle = chars_of(pat);
    let n: usize = table.len();
    for i in 0..n
        invariant
            n == table@.len(),
            views(table@) == lines(text@),
            needle@ == pat@,
            forall|j: int| 0 <= j < i ==> !contains(#[trigger] lines(text@)[j], pat@),
    {
        assert(lines(text@)[i as int] == table@[i as int]@);
        if holds(&table[i], &needle) {
            return true;
        }
    }
    false
}

fn aloop_loaded(text: &str) -> (r: bool)
    ensures
        r == loads_aloop(text@),
{
    let table = split_lines(&chars_of(text));
    let name = chars_of("snd_aloop");
    let n: usize = table.len();
    for i in 0..n
        invariant
            n == table@.len(),
            views(table@) == lines(text@),
            name@ == "snd_aloop"@,
            forall|j: int| 0 <= j < i ==> !names_aloop(#[trigger] lines(text@)[j]),
    {
        let found = split_words(&table[i]);
        assert(lines(text@)[i as int] == table@[i as int]@);
        assert(views(found@).len() == found@.len());
        assert(found@.len() > 0 ==> views(found@)[0] == found@[0]@);
        if found.len() > 0 && same(&found[0], &name) {
            return true;
        }
    }
    false
}

/// What the check of the loopback module finds.
pub open spec fn aloop_status(modules: FileText) -> StatusView {
    match modules {
        Ok(t) => if loads_aloop(t@) {
            StatusView::Pass("loaded"@)
        } else {
            StatusView::Fail(
                "kernel module not loaded — `sudo modprobe snd-aloop`, or add `dtoverlay=snd-aloop` to /boot/firmware/config.txt and reboot"@,
            )
        },
        Err(e) => unreadable("/proc/modules"@, e@),
    }
}

/// Is the loopback module loaded?
pub fn check_snd_aloop(modules: FileText) -> (s: Status)
    ensures
        s@ == aloop_status(modules),
{
    match modules {
        Ok(t) => if aloop_loaded(t) {
            Status::Pass("loaded".to_owned())
        } else {
            Status::Fail(
                "kernel module not loaded — `sudo modprobe snd-aloop`, or add `dtoverlay=snd-aloop` to /boot/firmware/config.txt and reboot".to_owned(),
            )
        },
        Err(e) => cannot_read("/proc/modules", e),
    }
}

/// What the check for a loopback card finds.
pub open spec fn loopback_status(cards: FileText) -> StatusView {
    match cards {
        Ok(t) => if line_has(t@, "[Loopback "@) {
            StatusView::Pass("found in /proc/asound/cards"@)
        } else {
            StatusView::Fail(
                "no Loopback card visible — load snd-aloop, then verify with `cat /proc/asound/cards`"@,
            )
        },
        Err(e) => unreadable("/proc/asound/cards"@, e@),
    }
}

/// Is there a loopback card?
pub fn check_loopback_card(cards: FileText) -> (s: Status)
    ensures
        s@ == loopback_status(cards),
{
    match cards {
        Ok(t) => if any_line_has(t, "[Loopback ") {
            Status::Pass("found in /proc/asound/cards".to_owned())
        } else {
            Status::Fail(
                "no Loopback card visible — load snd-aloop, then verify with `cat /proc/asound/cards`".to_owned(),
            )
        },
        Err(e) => cannot_read("/proc/asound/cards", e),
    }
}

fn count_dacs(text: &str) -> (n: usize)
    ensures
        n == dac_count(lines(text@)),
{
    let table = split_lines(&chars_of(text));
    let blank = chars_of(" ");
    let bracket = chars_of("[");
    let loopback = chars_of("[Loopback ");
    let n: usize = table.len();
    let ghost all = lines(text@);
    let mut count: usize = 0;
    assert(all.take(0) =~= Seq::empty());
    for i in 0..n
        invariant
            n == table@.len(),
            all == views(table@),
            blank@ == " "@,
            bracket@ == "["@,
            loopback@ == "[Loopback "@,
            count <= i,
            count == dac_count(all.take(i as int)),
    {
        let line = &table[i];
        assert(all.take(i + 1).drop_last() =~= all.take(i as int));
        assert(all.take(i + 1).last() == line@);
        if found_at(line, &blank, 0) && holds(line, &bracket) && !holds(
            line,
            &loopback,
        ) {
            count = count + 1;
        }
    }
    assert(all.take(n as int) =~= all);
    count
}

/// What the check for a DAC finds.
pub open spec fn dac_status(cards: FileText) -> StatusView {
    match cards {
        Ok(t) => if dac_count(lines(t@)) == 0 {
            StatusView::Warn(
                "no non-Loopback card present — bridge can run but won't reach a DAC until one shows up"@,
            )
        } else {
            StatusView::Pass(decimal(dac_count(lines(t@))) + " non-loopback card(s) present"@)
        },
        Err(e) => unreadable("/proc/asound/cards"@, e@),
    }
}

/// Is there a DAC?
pub fn check_dac_card(cards: FileText) -> (s: Status)
    ensures
        s@ == dac_status(cards),
{
    match cards {
        Ok(t) => {
            let n: usize = count_dacs(t);
            if n == 0 {
                Status::Warn(
                    "no non-Loopback card present — bridge can run but won't reach a DAC until one shows up".to_owned(),
                )
            } else {
                let mut r: String = to_decimal(n as u64);
                r.append(" non-loopback card(s) present");
                Status::Pass(r)
            }
        },
        Err(e) => cannot_read("/proc/asound/cards", e),
    }
}

/// What the check of CamillaDSP finds.
pub open spec fn camilla_status(host: Seq<char>, port: u16, outcome: Result<(), &str>) -> StatusView {
    match outcome {
        Ok(_) => StatusView::Pass("port "@ + decimal(port as nat) + " open at "@ + host),
        Err(e) => StatusView::Fail(
            host + ":"@ + decimal(port as nat) + " not reachable ("@ + e@
                + ") — is camilladsp.service running?"@,
        ),
    }
}

/// Does CamillaDSP answer? `outcome` is what connecting to it gave.
pub fn check_camilla_ws(host: &str, port: u16, outcome: Result<(), &str>) -> (s: Status)
    ensures
        s@ == camilla_status(host@, port, outcome),
{
    match outcome {
        Ok(_) => {
            let mut t: String = "port ".to_owned();
            t.append(to_decimal(port as u64).as_str());
            t.append(" open at ");
            t.append(host);
            Status::Pass(t)
        },
        Err(e) => {
            let mut t: String = host.to_owned();
            t.append(":");
            t.append(to_decimal(port as u64).as_str());
            t.append(" not reachable (");
            t.append(e);
            t.append(") — is camilladsp.service running?");
            Status::Fail(t)
        },
    }
}

/// What is found at the path of a configuration.
pub enum ConfigFile<'a> {
    /// Nothing.
    Missing,
    /// A text.
    Text(&'a str),
    /// Something that cannot be read, and why.
    Unreadable(&'a str),
}

/// The text has the two sections without which CamillaDSP rejects it.
pub open spec fn plausible(text: Seq<char>) -> bool {
    contains(text, "devices:"@) && contains(text, "playback:"@)
}

/// What the doctor says of a configuration.
pub open spec fn config_status(
    path: Option<&str>,
    label: Seq<char>,
    file: ConfigFile,
) -> StatusView {
    match path {
        None => StatusView::Warn(
            "no --"@ + label + "-config given on the CLI; doctor is checking only what you told it"@,
        ),
        Some(p) => match file {
            ConfigFile::Missing => StatusView::Fail(p@ + " does not exist"@),
            ConfigFile::Text(text) => if plausible(text@) {
                StatusView::Pass(
                    p@ + " ("@ + decimal(text.len() as nat)
                        + " bytes) looks like a CamillaDSP config"@,
                )
            } else {
                StatusView::Warn(
                    p@
                        + " is readable but doesn't have `devices:` + `playback:` — CamillaDSP will reject it"@,
                )
            },
            ConfigFile::Unreadable(why) => StatusView::Fail(p@ + ": "@ + why@),
        },
    }
}

/// Is the configuration there and plausible? `file` is what is found at `path`.
pub fn check_yaml_path(path: Option<&str>, label: &str, file: &ConfigFile) -> (s: Status)
    ensures
        s@ == config_status(path, label@, *file),
{
    let p = match path {
        None => {
            let mut t: String = "no --".to_owned();
            t.append(label);
            t.append("-config given on the CLI; doctor is checking only what you told it");
            return Status::Warn(t);
        },
        Some(p) => p,
    };
    let mut t: String = p.to_owned();
    match file {
        ConfigFile::Missing => {
            t.append(" does not exist");
            Status::Fail(t)
        },
        ConfigFile::Text(text) => {
            if text_has(text, "devices:") && text_has(text, "playback:") {
                t.append(" (");
                t.append(to_decimal(text.len() as u64).as_str());
                t.append(" bytes) looks like a CamillaDSP config");
                Status::Pass(t)
            } else {
                t.append(
                    " is readable but doesn't have `devices:` + `playback:` — CamillaDSP will reject it",
                );
                Status::Warn(t)
            }
        },
        ConfigFile::Unreadable(why) => {
            t.append(": ");
            t.append(why);
            Status::Fail(t)
        },
    }
}

/// What the doctor says of a device.
pub open spec fn device_status(device: Seq<char>) -> StatusView {
    if !contains(lowercase(device), "loopback"@) {
        StatusView::Fail(
            "--device `"@ + device
                + "` does not contain `loopback`; the bridge will refuse to open it"@,
        )
    } else if starts_with(lowercase(device), "plug"@) {
        StatusView::Fail(
            "--device `"@ + device
                + "` is a `plug*` alias which would silently insert format conversion; use a raw `hw:Loopback,...`"@,
        )
    } else {
        match verdict(device) {
            Err(Refusal::Banned(i)) => StatusView::Fail(
                "--device `"@ + device + "` matches banned pattern `"@
                    + banned_patterns()[i as int] + "`; the bridge will refuse to open it"@,
            ),
            _ => StatusView::Pass("`"@ + device + "` will pass the bridge's loopback guard"@),
        }
    }
}

/// Does the device pass the guard?
pub fn check_device_guard(device: &str) -> (s: Status)
    ensures
        s@ == device_status(device@),
{
    let lower = to_lower(&chars_of(device));
    let mut t: String = "--device `".to_owned();
    t.append(device);
    if !holds(&lower, &chars_of("loopback")) {
        t.append("` does not contain `loopback`; the bridge will refuse to open it");
        return Status::Fail(t);
    }
    if found_at(&lower, &chars_of("plug"), 0) {
        t.append(
            "` is a `plug*` alias which would silently insert format conversion; use a raw `hw:Loopback,...`",
        );
        return Status::Fail(t);
    }
    match enforce_loopback_only(device) {
        Err(Refusal::Banned(i)) => {
            t.append("` matches banned pattern `");
            t.append(banned_pattern(i));
            t.append("`; the bridge will refuse to open it");
            Status::Fail(t)
        },
        _ => {
            let mut t: String = "`".to_owned();
            t.append(device);
            t.append("` will pass the bridge's loopback guard");
            Status::Pass(t)
        },
    }
}

/// What listing the UDP listeners gave.
pub enum SocketList<'a> {
    /// The list.
    Listed(&'a str),
    /// The tool ran and failed.
    Failed,
    /// The tool did not run.
    NotRun(&'a str),
}

/// What the check for an mDNS listener finds.
pub open spec fn mdns_status(list: SocketList) -> StatusView {
    match list {
        SocketList::Listed(t) => if line_has(t@, ":5353 "@) {
            StatusView::Pass("UDP 5353 in use (avahi or pi-receiver)"@)
        } else {
            StatusView::Warn(
                "no listener on UDP 5353 — pc-sender's mDNS auto-discovery won't find this Pi until pi-receiver starts (or avahi-daemon)"@,
            )
        },
        SocketList::Failed => StatusView::Warn("`ss -Hulnp` exited non-zero"@),
        SocketList::NotRun(e) => StatusView::Warn("can't run `ss`: "@ + e@),
    }
}

/// Does anything listen for mDNS?
pub fn check_mdns_daemon(list: &SocketList) -> (s: Status)
    ensures
        s@ == mdns_status(*list),
{
    match list {
        SocketList::Listed(t) => if any_line_has(t, ":5353 ") {
            Status::Pass("UDP 5353 in use (avahi or pi-receiver)".to_owned())
        } else {
            Status::Warn(
                "no listener on UDP 5353 — pc-sender's mDNS auto-discovery won't find this Pi until pi-receiver starts (or avahi-daemon)".to_owned(),
            )
        },
        SocketList::Failed => Status::Warn("`ss -Hulnp` exited non-zero".to_owned()),
        SocketList::NotRun(e) => {
            let mut t: String = "can't run `ss`: ".to_owned();
            t.append(e);
            Status::Warn(t)
        },
    }
}

/// What the machine was found to be like.
pub struct Findings<'a> {
    /// The text of `/proc/modules`.
    pub modules: FileText<'a>,
    /// The text of `/proc/asound/cards`.
    pub cards: FileText<'a>,
    /// What connecting to CamillaDSP gave.
    pub camilla: Result<(), &'a str>,
    /// What is at the path of the bridge configuration.
    pub bridge: ConfigFile<'a>,
    /// What is at the path of the idle configuration.
    pub idle: ConfigFile<'a>,
    /// The UDP listeners.
    pub sockets: SocketList<'a>,
}

/// The labels of the checks, in order.
pub open spec fn labels() -> Seq<Seq<char>> {
    seq![
        "snd-aloop module"@,
        "loopback card present"@,
        "DAC card present"@,
        "CamillaDSP websocket"@,
        "bridge config"@,
        "idle config"@,
        "device flag is loopback"@,
        "mDNS daemon reachable"@,
    ]
}

/// What the checks find, in order.
pub open spec fn statuses(opts: DoctorOpts, found: Findings) -> Seq<StatusView> {
    seq![
        aloop_status(found.modules),
        loopback_status(found.cards),
        dac_status(found.cards),
        camilla_status(opts.camilla_host@, opts.camilla_port, found.camilla),
        config_status(opts.bridge_config, "bridge"@, found.bridge),
        config_status(opts.idle_config, "idle"@, found.idle),
        device_status(opts.device@),
        mdns_status(found.sockets),
    ]
}

/// How many of the checks end in a failure.
pub open spec fn failures(s: Seq<StatusView>) -> nat
    decreases s.len(),
{
    if s.len() == 0 {
        0
    } else {
        failures(s.drop_last()) + if s.last() is Fail {
            1nat
        } else {
            0nat
        }
    }
}

/// How many of the checks end in a warning.
pub open spec fn warnings(s: Seq<StatusView>) -> nat
    decreases s.len(),
{
    if s.len() == 0 {
        0
    } else {
        warnings(s.drop_last()) + if s.last() is Warn {
            1nat
        } else {
            0nat
        }
    }
}

/// The line for a check.
pub open spec fn check_line(label: Seq<char>, s: StatusView, terminal: bool) -> Seq<char> {
    match s {
        StatusView::Pass(t) => status_line("✓"@, "1;32"@, padded(label, 32) + " "@ + t, terminal),
        StatusView::Warn(t) => status_line("!"@, "1;33"@, padded(label, 32) + " "@ + t, terminal),
        StatusView::Fail(t) => status_line("✗"@, "1;31"@, padded(label, 32) + " "@ + t, terminal),
    }
}

/// The line that sums up `f` failures and `w` warnings.
pub open spec fn summary(f: nat, w: nat) -> Seq<char> {
    if f == 0 && w == 0 {
        "All checks passed."@
    } else if f == 0 {
        decimal(w)
            + " warning(s); the bridge is likely usable but watch the lines marked `!`."@
    } else {
        decimal(f) + " failure(s) and "@ + decimal(w)
            + " warning(s) — fix the `✗` lines before expecting audio to flow."@
    }
}

/// The line for a check.
pub fn run_check(label: &str, status: &Status, terminal: bool) -> (line: String)
    ensures
        line@ == check_line(label@, status@, terminal),
{
    let mut msg: String = pad(label, 32);
    msg.append(" ");
    match status {
        Status::Pass(t) => {
            msg.append(t.as_str());
            fmt("✓", "1;32", msg.as_str(), terminal)
        },
        Status::Warn(t) => {
            msg.append(t.as_str());
            fmt("!", "1;33", msg.as_str(), terminal)
        },
        Status::Fail(t) => {
            msg.append(t.as_str());
            fmt("✗", "1;31", msg.as_str(), terminal)
        },
    }
}

/// The line that sums the checks up.
pub fn sum_up(failures: u32, warnings: u32) -> (r: String)
    ensures
        r@ == summary(failures as nat, warnings as nat),
{
    if failures == 0 && warnings == 0 {
        "All checks passed.".to_owned()
    } else if failures == 0 {
        let mut r: String = to_decimal(warnings as u64);
        r.append(" warning(s); the bridge is likely usable but watch the lines marked `!`.");
        r
    } else {
        let mut r: String = to_decimal(failures as u64);
        r.append(" failure(s) and ");
        r.append(to_decimal(warnings as u64).as_str());
        r.append(" warning(s) — fix the `✗` lines before expecting audio to flow.");
        r
    }
}

/// What the doctor has to say.
pub struct Report {
    /// One line for each check.
    pub lines: Vec<String>,
    /// The line that sums them up.
    pub summary: String,
    /// Whether any check failed, so that the command has to fail too.
    pub failed: bool,
}

/// Goes through all checks.
pub fn run(opts: &DoctorOpts, found: &Findings, terminal: bool) -> (r: Report)
    ensures
        ({
            let s = statuses(*opts, *found);
            &&& texts(r.lines@) == Seq::new(8, |i: int| check_line(labels()[i], s[i], terminal))
            &&& r.summary@ == summary(failures(s), warnings(s))
            &&& r.failed == (failures(s) > 0)
        }),
{
    let mut checks: Vec<(&str, Status)> = Vec::new();
    checks.push(("snd-aloop module", check_snd_aloop(found.modules)));
    checks.push(("loopback card present", check_loopback_card(found.cards)));
    checks.push(("DAC card present", check_dac_card(found.cards)));
    checks.push(
        (
            "CamillaDSP websocket",
            check_camilla_ws(opts.camilla_host, opts.camilla_port, found.camilla),
        ),
    );
    checks.push(
        ("bridge config", check_yaml_path(opts.bridge_config, "bridge", &found.bridge)),
    );
    checks.push(("idle config", check_yaml_path(opts.idle_config, "idle", &found.idle)));
    checks.push(("device flag is loopback", check_device_guard(opts.device)));
    checks.push(("mDNS daemon reachable", check_mdns_daemon(&found.sockets)));

    let ghost s = statuses(*opts, *found);
    assert(forall|i: int| 0 <= i < 8 ==> (#[trigger] checks@[i]).0@ == labels()[i]);
    assert(forall|i: int| 0 <= i < 8 ==> (#[trigger] checks@[i]).1@ == s[i]);
    let mut lines: Vec<String> = Vec::new();
    let mut bad: u32 = 0;
    let mut odd: u32 = 0;
    assert(s.take(0) =~= Seq::empty());
    for i in 0..8usize
        invariant
            checks@.len() == 8,
            s.len() == 8,
            forall|j: int| 0 <= j < 8 ==> (#[trigger] checks@[j]).0@ == labels()[j],
            forall|j: int| 0 <= j < 8 ==> (#[trigger] checks@[j]).1@ == s[j],
            texts(lines@) == Seq::new(i as nat, |j: int| check_line(labels()[j], s[j], terminal)),
            bad <= i,
            odd <= i,
            bad == failures(s.take(i as int)),
            odd == warnings(s.take(i as int)),
    {
        let ghost before = lines@;
        assert(s.take(i + 1).drop_last() =~= s.take(i as int));
        let check = &checks[i];
        lines.push(run_check(check.0, &check.1, terminal));
        assert(texts(lines@) =~= texts(before).push(check_line(labels()[i as int], s[i as int], terminal)));
        match check.1 {
            Status::Warn(_) => {
                odd = odd + 1;
            },
            Status::Fail(_) => {
                bad = bad + 1;
            },
            Status::Pass(_) => {},
        }
    }
    assert(s.take(8) =~= s);
    Report { lines, summary: sum_up(bad, odd), failed: bad > 0 }
}

proof fn lemma_failures(s: Seq<StatusView>)
    ensures
        failures(s) > 0 <==> exists|i: int| 0 <= i < s.len() && s[i] is Fail,
    decreases s.len(),
{
    if s.len() > 0 {
        let before = s.drop_last();
        lemma_failures(before);
        if exists|i: int| 0 <= i < before.len() && before[i] is Fail {
            let i = choose|i: int| 0 <= i < before.len() && before[i] is Fail;
            assert(s[i] is Fail);
        }
        if exists|i: int| 0 <= i < s.len() && s[i] is Fail {
            let i = choose|i: int| 0 <= i < s.len() && s[i] is Fail;
            if i < before.len() {
                assert(before[i] is Fail);
            }
        }
    }
}

/// The device is called fit exactly if the guard lets it pass.
pub proof fn law_doctor_agrees_with_guard(device: Seq<char>)
    ensures
        device_status(device) is Pass <==> verdict(device) is Ok,
        device_status(device) is Fail <==> verdict(device) is Err,
{
}

/// The command fails exactly if some check does, so a device that the guard
/// refuses makes it fail.
pub proof fn law_doctor_fails_if_a_check_fails(opts: DoctorOpts, found: Findings)
    ensures
        failures(statuses(opts, found)) > 0 <==> exists|i: int|
            0 <= i < 8 && statuses(opts, found)[i] is Fail,
        verdict(opts.device@) is Err ==> failures(statuses(opts, found)) > 0,
{
    let s = statuses(opts, found);
    lemma_failures(s);
    assert(s[6] == device_status(opts.device@));
    if verdict(opts.device@) is Err {
        assert(s[6] is Fail);
    }
}

/// A configuration that can be read passes exactly if the text `devices:` and the text
/// `playback:` each stand at some position of it, and else is warned of. One that is not
/// there or cannot be read fails, and one that is not named is warned of.
pub proof fn law_config_is_judged_by_its_sections(
    path: Option<&str>,
    label: &str,
    file: &ConfigFile,
    s: Status,
)
    requires
        call_ensures(check_yaml_path, (path, label, file), s),
    ensures
        path is None ==> s is Warn,
        path is Some ==> match *file {
            ConfigFile::Missing => s is Fail,
            ConfigFile::Unreadable(_) => s is Fail,
            ConfigFile::Text(text) => {
                let whole = (exists|i: int| stands_at(text@, "devices:"@, i)) && (exists|i: int|
                    stands_at(text@, "playback:"@, i));
                &&& whole ==> s is Pass
                &&& !whole ==> s is Warn
            },
        },
{
    if path is Some && file is Text {
        let t = file->Text_0@;
        lemma_stands_in(t, "devices:"@);
        lemma_stands_in(t, "playback:"@);
    }
}

/// A configuration that passes still passes with any text put before it, or behind.
pub proof fn law_config_passes_wherever_its_sections_are(
    path: &str,
    label: &str,
    text: &str,
    more: &str,
    before: Seq<char>,
    after: Seq<char>,
    a: Status,
    b: Status,
)
    requires
        call_ensures(check_yaml_path, (Some(path), label, &ConfigFile::Text(text)), a),
        call_ensures(check_yaml_path, (Some(path), label, &ConfigFile::Text(more)), b),
        a is Pass,
        more@ == before + text@ + after,
    ensures
        b is Pass,
{
    lemma_stands_in(text@, "devices:"@);
    lemma_stands_in(text@, "playback:"@);
    lemma_still_stands(before, text@, after, "devices:"@);
    lemma_still_stands(before, text@, after, "playback:"@);
    lemma_stands_in(more@, "devices:"@);
    lemma_stands_in(more@, "playback:"@);
}

proof fn lemma_still_stands(a: Seq<char>, s: Seq<char>, b: Seq<char>, pat: Seq<char>)
    requires
        stands_in(s, pat),
    ensures
        stands_in(a + s + b, pat),
{
    let i = choose|i: int| stands_at(s, pat, i);
    assert(stands_at(a + s + b, pat, a.len() + i)) by {
        assert forall|k: int| 0 <= k < pat.len() implies (a + s + b)[a.len() + i + k]
            == #[trigger] pat[k] by {
            assert(s[i + k] == pat[k]);
        }
    }
}

/// What a check says of a file speaks of that file.
pub proof fn law_config_status_names_the_file(
    path: &str,
    label: &str,
    file: &ConfigFile,
    s: Status,
)
    requires
        call_ensures(check_yaml_path, (Some(path), label, file), s),
    ensures
        match s {
            Status::Pass(t) => stands_at(t@, path@, 0),
            Status::Warn(t) => stands_at(t@, path@, 0),
            Status::Fail(t) => stands_at(t@, path@, 0),
        },
        s is Pass ==> file is Text && exists|d: Seq<char>|
            numeric(d) && number(d) == file->Text_0.len() && s->Pass_0@ == #[trigger] (path@ + " ("@
                + d + " bytes) looks like a CamillaDSP config"@),
{
    if s is Pass {
        let n = file->Text_0.len() as nat;
        lemma_decimal_reads(n);
        assert(s->Pass_0@ == path@ + " ("@ + decimal(n)
            + " bytes) looks like a CamillaDSP config"@);
    }
}

/// A text without line ends stands in some line exactly if it stands in the whole text.
proof fn lemma_some_line_has(text: Seq<char>, pat: Seq<char>)
    requires
        pat.len() > 0,
        free_of(pat, '\n'),
        free_of(pat, '\r'),
    ensures
        line_has(text, pat) <==> stands_in(text, pat),
    decreases text.len(),
{
    let ls = lines(text);
    let k = crate::text::first_of(text, '\n');
    crate::text::lemma_first_of(text, '\n');
    if text.len() == 0 {
        if stands_in(text, pat) {
            let i = choose|i: int| stands_at(text, pat, i);
            assert(false);
        }
    } else if k >= text.len() {
        assert(ls =~= seq![text]);
        lemma_stands_in(text, pat);
        if stands_in(text, pat) {
            assert(contains(ls[0], pat));
        }
    } else {
        let head = text.take(k);
        let rest = text.skip(k + 1);
        lemma_some_line_has(rest, pat);
        assert(ls == seq![strip_cr(head)] + lines(rest));
        lemma_without_cr(head, pat);
        lemma_stands_in(strip_cr(head), pat);
        // A line before the first line feed, or one behind it.
        assert(line_has(text, pat) <==> stands_in(head, pat) || line_has(rest, pat)) by {
            if line_has(text, pat) {
                let i = choose|i: int| 0 <= i < ls.len() && contains(#[trigger] ls[i], pat);
                if i > 0 {
                    assert(lines(rest)[i - 1] == ls[i]);
                } else {
                    assert(ls[0] == strip_cr(head));
                }
            }
            if stands_in(head, pat) {
                assert(contains(ls[0], pat));
            }
            if line_has(rest, pat) {
                let i = choose|i: int|
                    0 <= i < lines(rest).len() && contains(#[trigger] lines(rest)[i], pat);
                assert(ls[i + 1] == lines(rest)[i]);
            }
        }
        assert(stands_in(text, pat) <==> stands_in(head, pat) || stands_in(rest, pat)) by {
            if stands_in(text, pat) {
                let i = choose|i: int| stands_at(text, pat, i);
                if i + pat.len() <= k {
                    assert(stands_at(head, pat, i)) by {
                        assert forall|j: int| 0 <= j < pat.len() implies head[i + j]
                            == #[trigger] pat[j] by {
                            assert(text[i + j] == pat[j]);
                        }
                    }
                } else if i > k {
                    assert(stands_at(rest, pat, i - k - 1)) by {
                        assert forall|j: int| 0 <= j < pat.len() implies rest[i - k - 1 + j]
                            == #[trigger] pat[j] by {
                            assert(text[i + j] == pat[j]);
                        }
                    }
                } else {
                    assert(text[i + (k - i)] == pat[k - i]);
                }
            }
            assert(head + text.subrange(k, k + 1) + rest =~= text);
            if stands_in(head, pat) {
                lemma_still_stands(Seq::empty(), head, text.skip(k), pat);
                assert(Seq::<char>::empty() + head + text.skip(k) =~= text);
            }
            if stands_in(rest, pat) {
                lemma_still_stands(text.take(k + 1), rest, Seq::empty(), pat);
                assert(text.take(k + 1) + rest + Seq::<char>::empty() =~= text);
            }
        }
    }
}

proof fn lemma_without_cr(line: Seq<char>, pat: Seq<char>)
    requires
        pat.len() > 0,
        free_of(pat, '\r'),
    ensures
        stands_in(strip_cr(line), pat) <==> stands_in(line, pat),
{
    if line.len() > 0 && line.last() == '\r' {
        let s = strip_cr(line);
        if stands_in(line, pat) {
            let i = choose|i: int| stands_at(line, pat, i);
            if i + pat.len() == line.len() {
                assert(line[i + (pat.len() - 1)] == pat[pat.len() - 1]);
            }
            assert(stands_at(s, pat, i)) by {
                assert forall|j: int| 0 <= j < pat.len() implies s[i + j] == #[trigger] pat[j] by {
                    assert(line[i + j] == pat[j]);
                }
            }
        }
        if stands_in(s, pat) {
            lemma_still_stands(Seq::empty(), s, seq!['\r'], pat);
            assert(Seq::<char>::empty() + s + seq!['\r'] =~= line);
        }
    }
}

/// There is a loopback card exactly if `[Loopback ` stands in the table, and something
/// listens for mDNS exactly if `:5353 ` stands in the list. Without the loopback the
/// check fails; without a listener, or what could not be read or run, it warns.
pub proof fn law_card_and_listener_are_found_by_their_marks(
    cards: FileText,
    list: &SocketList,
    a: Status,
    b: Status,
)
    requires
        call_ensures(check_loopback_card, (cards,), a),
        call_ensures(check_mdns_daemon, (list,), b),
    ensures
        match cards {
            Ok(t) => {
                &&& stands_in(t@, "[Loopback "@) ==> a is Pass
                &&& !stands_in(t@, "[Loopback "@) ==> a is Fail
            },
            Err(_) => a is Warn,
        },
        match *list {
            SocketList::Listed(t) => {
                &&& stands_in(t@, ":5353 "@) ==> b is Pass
                &&& !stands_in(t@, ":5353 "@) ==> b is Warn
            },
            _ => b is Warn,
        },
{
    reveal_strlit("[Loopback ");
    reveal_strlit(":5353 ");
    if cards is Ok {
        lemma_some_line_has(cards->Ok_0@, "[Loopback "@);
    }
    if list is Listed {
        lemma_some_line_has(list->Listed_0@, ":5353 "@);
    }
}

/// The first word of the line is `snd_aloop`.
pub open spec fn begins_with_aloop(line: Seq<char>) -> bool {
    exists|i: int|
        {
            &&& #[trigger] stands_at(line, "snd_aloop"@, i)
            &&& all_white(line.take(i))
            &&& i + 9 < line.len() ==> white(line[i + 9])
        }
}

proof fn lemma_aloop_line(line: Seq<char>)
    ensures
        names_aloop(line) <==> begins_with_aloop(line),
{
    reveal_strlit("snd_aloop");
    let name = "snd_aloop"@;
    if begins_with_aloop(line) {
        let i = choose|i: int|
            {
                &&& #[trigger] stands_at(line, "snd_aloop"@, i)
                &&& all_white(line.take(i))
                &&& i + 9 < line.len() ==> white(line[i + 9])
            };
        let rest = line.skip(i + 9);
        assert(line =~= line.take(i) + name + rest);
        lemma_word_is_cut(line.take(i), name, rest);
        assert(words(line)[0] == name);
    }
    if names_aloop(line) {
        let t = crate::text::trim_start(line);
        crate::text::lemma_trim_start(line);
        crate::text::lemma_word_len(t);
        let w = crate::text::word_len(t);
        assert(t.len() > 0);
        assert(words(line)[0] == t.take(w));
        assert(w == 9);
        let i = line.len() - t.len();
        lemma_trimmed_front(line);
        assert(stands_at(line, name, i)) by {
            assert forall|k: int| 0 <= k < name.len() implies line[i + k] == #[trigger] name[k] by {
                assert(t[k] == t.take(w)[k]);
                assert(t[k] == line[i + k]);
            }
        }
        if i + 9 < line.len() {
            assert(crate::text::is_space(t[9]));
            assert(t[9] == line[i + 9]);
        }
    }
}

proof fn lemma_trimmed_front(s: Seq<char>)
    ensures
        crate::text::trim_start(s).len() <= s.len(),
        crate::text::trim_start(s) == s.skip(s.len() - crate::text::trim_start(s).len()),
        all_white(s.take(s.len() - crate::text::trim_start(s).len())),
    decreases s.len(),
{
    if s.len() > 0 && crate::text::is_space(s[0]) {
        let u = s.skip(1);
        lemma_trimmed_front(u);
        let t = crate::text::trim_start(s);
        let n = s.len() - t.len();
        assert(u.skip(n - 1) =~= s.skip(n));
        assert forall|k: int| 0 <= k < s.take(n).len() implies white(#[trigger] s.take(n)[k]) by {
            if k > 0 {
                assert(u.take(n - 1)[k - 1] == s[k]);
            }
        }
    } else {
        assert(s.skip(0) =~= s);
    }
}

/// The loopback module is loaded exactly if some line of the table begins with
/// `snd_aloop` as a word of its own: the first line, or one of those behind it.
pub proof fn law_module_is_found_by_its_name(
    table: &str,
    a: Status,
    head: Seq<char>,
    rest: &str,
    b: Status,
)
    requires
        call_ensures(check_snd_aloop, (Ok::<&str, &str>(table),), a),
        call_ensures(check_snd_aloop, (Ok::<&str, &str>(rest),), b),
        free_of(head, '\n'),
        head.len() > 0 ==> head[head.len() - 1] != '\r',
    ensures
        a is Pass || a is Fail,
        table@ == head.push('\n') + rest@ ==> (a is Pass <==> begins_with_aloop(head) || b is Pass),
        table@ == head ==> (a is Pass <==> begins_with_aloop(head)),
{
    lemma_aloop_line(head);
    if table@ == head.push('\n') + rest@ {
        lemma_line_is_cut(head, rest@);
        let ls = lines(table@);
        assert(ls == seq![head] + lines(rest@));
        if loads_aloop(table@) {
            let i = choose|i: int| 0 <= i < ls.len() && names_aloop(#[trigger] ls[i]);
            if i > 0 {
                assert(lines(rest@)[i - 1] == ls[i]);
            }
        }
        if names_aloop(head) {
            assert(names_aloop(ls[0]));
        }
        if loads_aloop(rest@) {
            let i = choose|i: int|
                0 <= i < lines(rest@).len() && names_aloop(#[trigger] lines(rest@)[i]);
            assert(names_aloop(ls[i + 1]));
        }
    }
    if table@ == head {
        let ls = lines(table@);
        if head.len() > 0 {
            crate::text::lemma_first_of_is(head, '\n', head.len() as int);
            assert(ls == seq![head]);
            assert(ls[0] == head);
        } else {
            reveal_strlit("snd_aloop");
            assert(!begins_with_aloop(head));
        }
    }
}

/// What cannot be read is warned of, and what can is not.
pub proof fn law_unreadable_tables_are_warned_of(
    why: &str,
    a: Status,
    b: Status,
    c: Status,
)
    requires
        call_ensures(check_snd_aloop, (Err::<&str, &str>(why),), a),
        call_ensures(check_loopback_card, (Err::<&str, &str>(why),), b),
        call_ensures(check_dac_card, (Err::<&str, &str>(why),), c),
    ensures
        a is Warn && b is Warn && c is Warn,
{
}

/// The line is that of a card which is not the loopback: it begins with a blank and has a
/// bracket, but not that of the loopback.
pub open spec fn shows_dac(line: Seq<char>) -> bool {
    &&& line.len() > 0 && line[0] == ' '
    &&& !free_of(line, '[')
    &&& !stands_in(line, "[Loopback "@)
}

proof fn lemma_dac_line(line: Seq<char>)
    ensures
        is_dac_line(line) <==> shows_dac(line),
{
    reveal_strlit(" ");
    reveal_strlit("[");
    lemma_stands_at(line, " "@, 0);
    lemma_stands_in(line, "["@);
    lemma_stands_in(line, "[Loopback "@);
    if line.len() > 0 && line[0] == ' ' {
        assert(stands_at(line, " "@, 0));
    }
    if starts_with(line, " "@) {
        assert(line.subrange(0, 1)[0] == " "@[0]);
    }
    if !free_of(line, '[') {
        let k = choose|k: int| 0 <= k < line.len() && line[k] == '[';
        assert(stands_at(line, "["@, k));
    }
    if stands_in(line, "["@) {
        let k = choose|k: int| stands_at(line, "["@, k);
        assert(line[k + 0] == "["@[0]);
    }
}

/// The check for a DAC tells of `n` cards: it passes with their number, or warns of none.
pub open spec fn tells_of_dacs(s: Status, n: int) -> bool {
    if n == 0 {
        s is Warn
    } else {
        s matches Status::Pass(t) && exists|d: Seq<char>|
            numeric(d) && number(d) == n && t@ == #[trigger] (d + " non-loopback card(s) present"@)
    }
}

proof fn lemma_tells_of_dacs(s: Status, count: nat, n: int)
    requires
        s@ == if count == 0 {
            StatusView::Warn(
                "no non-Loopback card present — bridge can run but won't reach a DAC until one shows up"@,
            )
        } else {
            StatusView::Pass(decimal(count) + " non-loopback card(s) present"@)
        },
    ensures
        tells_of_dacs(s, n) <==> count == n,
{
    lemma_decimal_reads(count);
    let end = " non-loopback card(s) present"@;
    if count > 0 {
        let t = s->Pass_0@;
        assert(t == decimal(count) + end);
        if tells_of_dacs(s, n) {
            let d = choose|d: Seq<char>|
                numeric(d) && number(d) == n && t == #[trigger] (d + end);
            assert(d =~= t.take(t.len() - end.len()));
            assert(decimal(count) =~= t.take(t.len() - end.len()));
        }
    }
}

/// Each line of a card that is not the loopback counts for one, wherever it stands.
pub proof fn law_dacs_are_counted_by_their_lines(
    table: &str,
    a: Status,
    head: Seq<char>,
    rest: &str,
    b: Status,
    n: int,
)
    requires
        call_ensures(check_dac_card, (Ok::<&str, &str>(table),), a),
        call_ensures(check_dac_card, (Ok::<&str, &str>(rest),), b),
        free_of(head, '\n'),
        head.len() > 0 ==> head[head.len() - 1] != '\r',
    ensures
        table@ == head.push('\n') + rest@ && tells_of_dacs(b, n) ==> tells_of_dacs(
            a,
            n + if shows_dac(head) {
                1int
            } else {
                0
            },
        ),
        table@ == head ==> tells_of_dacs(
            a,
            if shows_dac(head) {
                1int
            } else {
                0
            },
        ),
{
    lemma_dac_line(head);
    let ls = lines(table@);
    if table@ == head.push('\n') + rest@ && tells_of_dacs(b, n) {
        lemma_line_is_cut(head, rest@);
        assert(ls == seq![head] + lines(rest@));
        lemma_dacs_add(head, lines(rest@));
        lemma_tells_of_dacs(b, dac_count(lines(rest@)), n);
        lemma_tells_of_dacs(
            a,
            dac_count(ls),
            n + if shows_dac(head) {
                1int
            } else {
                0
            },
        );
    }
    if table@ == head {
        if head.len() > 0 {
            crate::text::lemma_first_of_is(head, '\n', head.len() as int);
            assert(ls =~= seq![head] + Seq::<Seq<char>>::empty());
            lemma_dacs_add(head, Seq::empty());
        }
        lemma_tells_of_dacs(
            a,
            dac_count(ls),
            if shows_dac(head) {
                1int
            } else {
                0
            },
        );
    }
}

proof fn lemma_dacs_add(head: Seq<char>, rest: Seq<Seq<char>>)
    ensures
        dac_count(seq![head] + rest) == dac_count(rest) + if is_dac_line(head) {
            1nat
        } else {
            0nat
        },
    decreases rest.len(),
{
    let all = seq![head] + rest;
    if rest.len() > 0 {
        lemma_dacs_add(head, rest.drop_last());
        assert(all.drop_last() =~= seq![head] + rest.drop_last());
        assert(all.last() == rest.last());
    } else {
        assert(all.drop_last() =~= Seq::empty());
        assert(dac_count(all.drop_last()) == 0);
        assert(all.last() == head);
    }
}

/// CamillaDSP is reported as reachable exactly if connecting to it succeeded, and a
/// failure to reach it makes the check fail; either way the host is named.
pub proof fn law_camilla_is_reachable_if_it_answers(
    host: &str,
    port: u16,
    outcome: Result<(), &str>,
    s: Status,
)
    requires
        call_ensures(check_camilla_ws, (host, port, outcome), s),
    ensures
        s is Pass <==> outcome is Ok,
        s is Fail <==> outcome is Err,
        exists|d: Seq<char>|
            {
                &&& numeric(d) && number(d) == port
                &&& s matches Status::Pass(t) ==> t@ == "port "@ + d + " open at "@ + host@
                &&& s matches Status::Fail(t) ==> stands_at(t@, #[trigger] (host@ + ":"@ + d), 0)
                    && stands_in(t@, outcome->Err_0@)
            },
{
    lemma_decimal_reads(port as nat);
    let d = decimal(port as nat);
    if outcome is Err {
        let t = s->Fail_0@;
        let e = outcome->Err_0@;
        let front = host@ + ":"@ + d + " not reachable ("@;
        assert(t == front + e + ") — is camilladsp.service running?"@);
        assert(stands_at(t, host@ + ":"@ + d, 0));
        assert(stands_at(t, e, front.len() as int));
    } else {
        assert(s->Pass_0@ == "port "@ + d + " open at "@ + host@);
        assert(stands_at(host@ + ":"@ + d, host@ + ":"@ + d, 0));
    }
}

/// The device is called fit exactly if it spells `loopback`, does not begin with `plug`
/// and spells nothing dangerous, as the guard wants it; else the check fails.
pub proof fn law_device_is_fit_if_the_guard_lets_it_pass(
    device: &str,
    s: Status,
    r: Result<(), Refusal>,
)
    requires
        call_ensures(check_device_guard, (device,), s),
        call_ensures(enforce_loopback_only, (device,), r),
    ensures
        s is Pass <==> r is Ok,
        s is Pass <==> spelled_in(device@, "loopback"@) && !spelled_at(device@, "plug"@, 0)
            && !spells_danger(device@),
        s is Pass || s is Fail,
{
    law_doctor_agrees_with_guard(device@);
    lemma_verdict_spelling(device@);
}

/// The line for a check: the mark of what it found, which alone is coloured on a terminal,
/// its label, filled up with blanks to 32 characters, and what it said.
pub open spec fn plain_line(line: Seq<char>, label: Seq<char>, s: Status, terminal: bool) -> bool {
    exists|blanks: Seq<char>|
        {
            &&& forall|k: int| 0 <= k < blanks.len() ==> #[trigger] blanks[k] == ' '
            &&& label.len() + blanks.len() == 32
            &&& line == #[trigger] marked(s, terminal, label + blanks)
        }
}

/// A line with its mark, from its parts.
pub open spec fn marked(s: Status, terminal: bool, label: Seq<char>) -> Seq<char> {
    match s {
        Status::Pass(t) => if terminal {
            "\x1b["@ + "1;32"@ + "m"@ + "✓"@ + "\x1b[0m "@ + (label + " "@ + t@)
        } else {
            "✓"@ + " "@ + (label + " "@ + t@)
        },
        Status::Warn(t) => if terminal {
            "\x1b["@ + "1;33"@ + "m"@ + "!"@ + "\x1b[0m "@ + (label + " "@ + t@)
        } else {
            "!"@ + " "@ + (label + " "@ + t@)
        },
        Status::Fail(t) => if terminal {
            "\x1b["@ + "1;31"@ + "m"@ + "✗"@ + "\x1b[0m "@ + (label + " "@ + t@)
        } else {
            "✗"@ + " "@ + (label + " "@ + t@)
        },
    }
}

proof fn lemma_plain_line(label: Seq<char>, s: Status, terminal: bool)
    requires
        label.len() <= 32,
    ensures
        plain_line(check_line(label, s@, terminal), label, s, terminal),
{
    let blanks = Seq::new((32 - label.len()) as nat, |k: int| ' ');
    assert(padded(label, 32) =~= label + blanks);
    assert(check_line(label, s@, terminal) == marked(s, terminal, label + blanks));
}

/// The line of a check carries its mark, its label and what it said.
pub proof fn law_check_has_its_line(label: &str, s: &Status, terminal: bool, r: String)
    requires
        call_ensures(run_check, (label, s, terminal), r),
        label@.len() <= 32,
    ensures
        plain_line(r@, label@, *s, terminal),
{
    lemma_plain_line(label@, *s, terminal);
}

/// The report has a line for each of the eight checks, in order, with what that check
/// found. It fails exactly if some check fails, and says that all passed exactly if all
/// did.
pub proof fn law_report_is_that_of_the_checks(
    opts: &DoctorOpts,
    found: &Findings,
    r: Report,
    s: Seq<Status>,
    bridge: &str,
    idle: &str,
    terminal: bool,
)
    requires
        call_ensures(run, (opts, found, terminal), r),
        s.len() == 8,
        call_ensures(check_snd_aloop, (found.modules,), s[0]),
        call_ensures(check_loopback_card, (found.cards,), s[1]),
        call_ensures(check_dac_card, (found.cards,), s[2]),
        call_ensures(
            check_camilla_ws,
            (opts.camilla_host, opts.camilla_port, found.camilla),
            s[3],
        ),
        call_ensures(check_yaml_path, (opts.bridge_config, bridge, &found.bridge), s[4]),
        call_ensures(check_yaml_path, (opts.idle_config, idle, &found.idle), s[5]),
        bridge@ == "bridge"@,
        idle@ == "idle"@,
        call_ensures(check_device_guard, (opts.device,), s[6]),
        call_ensures(check_mdns_daemon, (&found.sockets,), s[7]),
    ensures
        r.lines@.len() == 8,
        plain_line(r.lines@[0]@, "snd-aloop module"@, s[0], terminal),
        plain_line(r.lines@[1]@, "loopback card present"@, s[1], terminal),
        plain_line(r.lines@[2]@, "DAC card present"@, s[2], terminal),
        plain_line(r.lines@[3]@, "CamillaDSP websocket"@, s[3], terminal),
        plain_line(r.lines@[4]@, "bridge config"@, s[4], terminal),
        plain_line(r.lines@[5]@, "idle config"@, s[5], terminal),
        plain_line(r.lines@[6]@, "device flag is loopback"@, s[6], terminal),
        plain_line(r.lines@[7]@, "mDNS daemon reachable"@, s[7], terminal),
        r.failed <==> exists|i: int| 0 <= i < 8 && #[trigger] s[i] is Fail,
        r.summary@ == "All checks passed."@ <==> forall|i: int|
            0 <= i < 8 ==> #[trigger] s[i] is Pass,
{
    let v = statuses(*opts, *found);
    assert(v[0] == s[0]@ && v[1] == s[1]@ && v[2] == s[2]@ && v[3] == s[3]@);
    assert(v[4] == s[4]@ && v[5] == s[5]@ && v[6] == s[6]@ && v[7] == s[7]@);
    assert(forall|i: int| 0 <= i < 8 ==> v[i] == (#[trigger] s[i])@);
    lemma_failures(v);
    lemma_warnings(v);
    lemma_summary(failures(v), warnings(v));
    reveal_strlit("snd-aloop module");
    reveal_strlit("loopback card present");
    reveal_strlit("DAC card present");
    reveal_strlit("CamillaDSP websocket");
    reveal_strlit("bridge config");
    reveal_strlit("idle config");
    reveal_strlit("device flag is loopback");
    reveal_strlit("mDNS daemon reachable");
    assert(texts(r.lines@).len() == r.lines@.len());
    assert forall|i: int| 0 <= i < 8 implies plain_line(
        (#[trigger] r.lines@[i])@,
        labels()[i],
        s[i],
        terminal,
    ) by {
        assert(texts(r.lines@)[i] == r.lines@[i]@);
        lemma_plain_line(labels()[i], s[i], terminal);
    }
    assert(plain_line(r.lines@[0]@, labels()[0], s[0], terminal));
    assert(plain_line(r.lines@[1]@, labels()[1], s[1], terminal));
    assert(plain_line(r.lines@[2]@, labels()[2], s[2], terminal));
    assert(plain_line(r.lines@[3]@, labels()[3], s[3], terminal));
    assert(plain_line(r.lines@[4]@, labels()[4], s[4], terminal));
    assert(plain_line(r.lines@[5]@, labels()[5], s[5], terminal));
    assert(plain_line(r.lines@[6]@, labels()[6], s[6], terminal));
    assert(plain_line(r.lines@[7]@, labels()[7], s[7], terminal));
    if r.failed {
        let i = choose|i: int| 0 <= i < v.len() && v[i] is Fail;
        assert(s[i] is Fail);
    }
    if exists|i: int| 0 <= i < 8 && #[trigger] s[i] is Fail {
        let i = choose|i: int| 0 <= i < 8 && #[trigger] s[i] is Fail;
        assert(v[i] is Fail);
    }
    if failures(v) == 0 && warnings(v) == 0 {
        assert forall|i: int| 0 <= i < 8 implies #[trigger] s[i] is Pass by {
            assert(!(v[i] is Fail) && !(v[i] is Warn));
        }
    }
    if forall|i: int| 0 <= i < 8 ==> #[trigger] s[i] is Pass {
        assert forall|i: int| 0 <= i < v.len() implies !(v[i] is Fail) && !(v[i] is Warn) by {
            assert(s[i] is Pass);
        }
    }
}

proof fn lemma_warnings(s: Seq<StatusView>)
    ensures
        warnings(s) > 0 <==> exists|i: int| 0 <= i < s.len() && s[i] is Warn,
    decreases s.len(),
{
    if s.len() > 0 {
        let before = s.drop_last();
        lemma_warnings(before);
        if exists|i: int| 0 <= i < before.len() && before[i] is Warn {
            let i = choose|i: int| 0 <= i < before.len() && before[i] is Warn;
            assert(s[i] is Warn);
        }
        if exists|i: int| 0 <= i < s.len() && s[i] is Warn {
            let i = choose|i: int| 0 <= i < s.len() && s[i] is Warn;
            if i < before.len() {
                assert(before[i] is Warn);
            }
        }
    }
}

proof fn lemma_summary(f: nat, w: nat)
    ensures
        summary(f, w) == "All checks passed."@ <==> f == 0 && w == 0,
{
    reveal_strlit("All checks passed.");
    lemma_decimal_reads(f);
    lemma_decimal_reads(w);
    if f > 0 {
        assert(summary(f, w)[0] == decimal(f)[0]);
    } else if w > 0 {
        assert(summary(f, w)[0] == decimal(w)[0]);
    }
}

/// The last line says how many checks failed and how many warned.
pub proof fn law_summary_tells_the_numbers(f: u32, w: u32, r: String)
    requires
        call_ensures(sum_up, (f, w), r),
    ensures
        f == 0 && w == 0 ==> r@ == "All checks passed."@,
        f == 0 && w > 0 ==> exists|d: Seq<char>|
            numeric(d) && number(d) == w && r@ == #[trigger] (d
                + " warning(s); the bridge is likely usable but watch the lines marked `!`."@),
        f > 0 ==> exists|c: Seq<char>, d: Seq<char>|
            numeric(c) && number(c) == f && numeric(d) && number(d) == w && r@ == #[trigger] (c
                + " failure(s) and "@ + d)
                + " warning(s) — fix the `✗` lines before expecting audio to flow."@,
{
    lemma_decimal_reads(f as nat);
    lemma_decimal_reads(w as nat);
    let c = decimal(f as nat);
    let d = decimal(w as nat);
    if f > 0 {
        assert(r@ == (c + " failure(s) and "@ + d)
            + " warning(s) — fix the `✗` lines before expecting audio to flow."@);
    } else if w > 0 {
        assert(r@ == d
            + " warning(s); the bridge is likely usable but watch the lines marked `!`."@);
    }
}

} // verus!
