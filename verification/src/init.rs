//! The `bridge.yml` wizard.
//!
//! It lists the sound cards of the machine, leaves the loopback out (writing
//! into one's own loopback is the one thing the bridge must never do), asks for
//! a card, a channel count and a sample rate, and fills them into a template.
//! Everything else of the template is kept as it is.
use vstd::prelude::*;

use crate::decimal::{
    decimal, lemma_decimal_reads, lemma_numeric, parse_unsigned, to_decimal, unsigned,
};
use crate::plain::{
    alike, all_white, bare, free_of, number, numeric, stands_at, stands_in, white,
};
use crate::text::{
    chars_of, contains, find_char, first_of, lemma_alike, lemma_cut_at, lemma_first_of_is, lemma_first_place,
    lemma_line_is_cut, lemma_nothing_to_replace, lemma_replace_keeps_head,
    lemma_replace_keeps_last, lemma_replace_keeps_tail, lemma_stands_at, lemma_stands_in,
    lemma_strip_front_once, lemma_trim_is, lines, lowercase, occurs_at, pad, padded,
    part, replace_all, replace_first, replaced, replaced_first, same_ignoring_case, same_text,
    skip_space, split_lines, starts_with, string_of, strip_front, texts, trim, trim_start, trim_text,
    trimmed, views, without_front,
};

verus! {

/// A sound card of the machine.
#[derive(Debug)]
pub struct Card {
    /// The number of the card.
    pub index: u32,
    /// The id of the card, as `hw:CARD=` wants it.
    pub id: String,
    /// A description for people.
    pub name: String,
}

/// A sound card, seen as plain values.
pub struct CardView {
    pub index: nat,
    pub id: Seq<char>,
    pub name: Seq<char>,
}

impl View for Card {
    type V = CardView;

    open spec fn view(&self) -> CardView {
        CardView { index: self.index as nat, id: self.id@, name: self.name@ }
    }
}

/// The cards that a list of cards holds.
pub open spec fn card_views(cards: Seq<Card>) -> Seq<CardView> {
    Seq::new(cards.len(), |i: int| cards[i]@)
}

/// The card that two lines of the kernel's table describe. The first looks like
/// ` 0 [Loopback       ]: Loopback - Loopback`, the second adds a description.
pub open spec fn card_of(header: Seq<char>, body: Seq<char>) -> Option<CardView> {
    let h = trim_start(header);
    let blank = first_of(h, ' ');
    let rest = h.skip(blank + 1);
    let open = first_of(rest, '[');
    let inner = rest.skip(open + 1);
    let close = first_of(inner, ']');
    let after = strip_front(inner.skip(close + 1), ": "@);
    if blank >= h.len() || unsigned(h.take(blank), u32::MAX as nat) is None || open >= rest.len()
        || close >= inner.len() {
        None
    } else {
        Some(
            CardView {
                index: unsigned(h.take(blank), u32::MAX as nat)->0,
                id: trim(inner.take(close)),
                name: if body.len() == 0 {
                    after
                } else {
                    after + " ("@ + body + ")"@
                },
            },
        )
    }
}

/// The cards of the kernel's table, which spends two lines on each. A pair of
/// lines that describes no card is passed over.
pub open spec fn cards_of(table: Seq<Seq<char>>) -> Seq<CardView>
    decreases table.len(),
{
    if table.len() == 0 {
        Seq::empty()
    } else {
        let body = if table.len() > 1 {
            trim(table[1])
        } else {
            Seq::empty()
        };
        let rest = if table.len() > 1 {
            cards_of(table.skip(2))
        } else {
            Seq::empty()
        };
        match card_of(table[0], body) {
            Some(card) => seq![card] + rest,
            None => rest,
        }
    }
}

/// The card that two lines describe.
pub fn parse_card(header: &[char], body: &[char]) -> (r: Option<Card>)
    ensures
        r matches Some(c) ==> card_of(header@, body@) == Some(c@),
        r is None ==> card_of(header@, body@) is None,
{
    let h = skip_space(header);
    let blank: usize = find_char(&h, ' ', 0);
    assert(h@.skip(0) =~= h@);
    if blank >= h.len() {
        return None;
    }
    let number = string_of(&part(&h, 0, blank));
    assert(h@.subrange(0, blank as int) =~= h@.take(blank as int));
    let rest = part(&h, blank + 1, h.len());
    assert(rest@ =~= h@.skip(blank + 1));
    let index: u32 = match parse_unsigned(number.as_str(), u32::MAX as u64) {
        Some(n) => n as u32,
        None => {
            return None;
        },
    };
    let open: usize = find_char(&rest, '[', 0);
    assert(rest@.skip(0) =~= rest@);
    if open >= rest.len() {
        return None;
    }
    let inner = part(&rest, open + 1, rest.len());
    assert(inner@ =~= rest@.skip(open + 1));
    let close: usize = find_char(&inner, ']', 0);
    assert(inner@.skip(0) =~= inner@);
    if close >= inner.len() {
        return None;
    }
    let id = string_of(&trimmed(&part(&inner, 0, close)));
    assert(inner@.subrange(0, close as int) =~= inner@.take(close as int));
    let behind = part(&inner, close + 1, inner.len());
    assert(behind@ =~= inner@.skip(close + 1));
    let mut name: String = string_of(&without_front(&behind, &chars_of(": ")));
    if body.len() > 0 {
        name.append(" (");
        name.append(string_of(body).as_str());
        name.append(")");
    }
    Some(Card { index, id, name })
}

/// The cards that the text of the kernel's table describes.
pub fn read_cards(raw: &str) -> (r: Vec<Card>)
    ensures
        card_views(r@) == cards_of(lines(raw@)),
{
    let table = split_lines(&chars_of(raw));
    let n: usize = table.len();
    let mut out: Vec<Card> = Vec::new();
    let mut i: usize = 0;
    let ghost all = views(table@);
    assert(all.skip(0) =~= all);
    assert(card_views(out@) + cards_of(all) =~= cards_of(all));
    while i < n
        invariant
            n == table@.len(),
            i <= n,
            all == views(table@),
            card_views(out@) + cards_of(all.skip(i as int)) == cards_of(all),
        decreases n - i,
    {
        let ghost rest = all.skip(i as int);
        let ghost before = out@;
        let body: Vec<char> = if i + 1 < n {
            trimmed(&table[i + 1])
        } else {
            Vec::new()
        };
        let ghost tail = if i + 1 < n {
            cards_of(all.skip(i + 2))
        } else {
            Seq::empty()
        };
        proof {
            assert(rest[0] == table@[i as int]@);
            if i + 1 < n {
                assert(rest[1] == table@[i + 1]@);
                assert(rest.skip(2) =~= all.skip(i + 2));
            } else {
                assert(body@ =~= Seq::<char>::empty());
            }
        }
        match parse_card(&table[i], &body) {
            Some(card) => {
                let ghost c = card@;
                out.push(card);
                proof {
                    assert(card_views(out@) =~= card_views(before).push(c));
                    assert(card_views(out@) + tail =~= card_views(before) + (seq![c] + tail));
                }
            },
            None => {},
        }
        if i + 1 < n {
            i = i + 2;
        } else {
            i = n;
            assert(all.skip(n as int) =~= Seq::empty());
        }
    }
    assert(all.skip(n as int) =~= Seq::empty());
    assert(card_views(out@) + cards_of(all.skip(n as int)) =~= card_views(out@));
    out
}

/// The card is no loopback.
pub open spec fn is_candidate(card: CardView) -> bool {
    lowercase(card.id) != lowercase("Loopback"@)
}

/// The cards to choose from: all but the loopback, in order.
pub fn candidates(cards: Vec<Card>) -> (r: Vec<Card>)
    ensures
        card_views(r@) == card_views(cards@).filter(|c: CardView| is_candidate(c)),
{
    let ghost pred = |c: CardView| is_candidate(c);
    let ghost all = card_views(cards@);
    let n: usize = cards.len();
    let mut r: Vec<Card> = Vec::new();
    for i in 0..n
        invariant
            n == cards@.len(),
            all == card_views(cards@),
            pred == (|c: CardView| is_candidate(c)),
            card_views(r@) == all.take(i as int).filter(pred),
    {
        reveal(Seq::filter);
        let ghost before = r@;
        assert(all.take(i + 1).drop_last() =~= all.take(i as int));
        let c = &cards[i];
        if !same_ignoring_case(c.id.as_str(), "Loopback") {
            let copy = Card { index: c.index, id: c.id.clone(), name: c.name.clone() };
            r.push(copy);
            assert(card_views(r@) =~= card_views(before).push(copy@));
            assert(copy@ == all[i as int]);
        }
    }
    assert(all.take(n as int) =~= all);
    r
}

/// The line of the template that names the DAC.
pub open spec fn dac_line() -> Seq<char> {
    "device: hw:CARD=YourDAC,DEV=0   # ← change to your DAC card name"@
}

/// The line that names the card instead.
pub open spec fn card_line(card: CardView) -> Seq<char> {
    "device: hw:CARD="@ + card.id + ",DEV=0   # auto-detected: card "@ + decimal(card.index) + " ("@
        + card.name + ")"@
}

/// The playback channel count of the template; the capture side has another.
pub open spec fn channels_line() -> Seq<char> {
    "channels: 2\n  device: hw:CARD="@
}

/// The playback channel count that was asked for.
pub open spec fn new_channels_line(channels: nat) -> Seq<char> {
    "channels: "@ + decimal(channels) + "\n  device: hw:CARD="@
}

/// The capture rate of the template.
pub open spec fn capture_rate() -> Seq<char> {
    "capture_samplerate: 48000"@
}

/// The rate of the template.
pub open spec fn rate_line() -> Seq<char> {
    "samplerate: 48000           # raise to your DAC's preferred rate (96000, etc.)"@
}

/// The rate that was asked for.
pub open spec fn new_rate_line(rate: nat) -> Seq<char> {
    "samplerate: "@ + decimal(rate) + "           # auto-set by `pi-receiver init`"@
}

/// The template with the card, the playback channels and the rate filled in.
pub open spec fn rendered(
    template: Seq<char>,
    card: CardView,
    channels: nat,
    rate: nat,
) -> Seq<char> {
    let a = replace_all(template, dac_line(), card_line(card));
    let b = replace_first(a, channels_line(), new_channels_line(channels));
    let c = replace_all(b, capture_rate(), "capture_samplerate: "@ + decimal(rate));
    replace_all(c, rate_line(), new_rate_line(rate))
}

/// Fills the card, the playback channels and the rate into the template.
pub fn render(template: &str, card: &Card, channels: u16, rate: u32) -> (yaml: String)
    ensures
        yaml@ == rendered(template@, card@, channels as nat, rate as nat),
{
    let rate_text: String = to_decimal(rate as u64);

    let mut line: String = "device: hw:CARD=".to_owned();
    line.append(card.id.as_str());
    line.append(",DEV=0   # auto-detected: card ");
    line.append(to_decimal(card.index as u64).as_str());
    line.append(" (");
    line.append(card.name.as_str());
    line.append(")");
    let a = replaced(
        &chars_of(template),
        &chars_of("device: hw:CARD=YourDAC,DEV=0   # ← change to your DAC card name"),
        &chars_of(line.as_str()),
    );

    let mut count: String = "channels: ".to_owned();
    count.append(to_decimal(channels as u64).as_str());
    count.append("\n  device: hw:CARD=");
    let b = replaced_first(
        &a,
        &chars_of("channels: 2\n  device: hw:CARD="),
        &chars_of(count.as_str()),
    );

    let mut capture: String = "capture_samplerate: ".to_owned();
    capture.append(rate_text.as_str());
    let c = replaced(&b, &chars_of("capture_samplerate: 48000"), &chars_of(capture.as_str()));

    let mut playback: String = "samplerate: ".to_owned();
    playback.append(rate_text.as_str());
    playback.append("           # auto-set by `pi-receiver init`");
    let d = replaced(
        &c,
        &chars_of("samplerate: 48000           # raise to your DAC's preferred rate (96000, etc.)"),
        &chars_of(playback.as_str()),
    );
    string_of(&d)
}

/// What an answer comes to: the default if nothing was typed.
pub open spec fn answered(line: Seq<char>, default: Seq<char>) -> Seq<char> {
    if trim(line).len() == 0 {
        default
    } else {
        trim(line)
    }
}

/// The answer on `line`, or the default for an empty one.
pub fn prompt_with_default(line: &str, default: &str) -> (r: String)
    ensures
        r@ == answered(line@, default@),
{
    let t: String = trim_text(line);
    if t.as_str().is_empty() {
        default.to_owned()
    } else {
        t
    }
}

/// Why the wizard stops.
#[derive(Debug, Clone, Copy, PartialEq, Eq, Structural)]
pub enum WizardError {
    /// There is no card but the loopback.
    NoCards,
    /// The choice of a card is not a number.
    NotANumber,
    /// The choice of a card, and how many there are.
    OutOfRange(usize, usize),
    /// The channel count is not a number that fits.
    BadChannels,
    /// The channel count is zero.
    NoChannels,
    /// The sample rate is not a number that fits.
    BadRate,
    /// The sample rate is zero.
    NoRate,
}

/// What the user is told when the wizard stops.
pub open spec fn stop_text(e: WizardError) -> Seq<char> {
    match e {
        WizardError::NoCards =>
        "no DAC cards found in /proc/asound/cards (only `Loopback`); did you load your DAC kernel module?"@,
        WizardError::NotANumber => "not a number"@,
        WizardError::OutOfRange(n, max) => "choice "@ + decimal(n as nat)
            + " is out of range (have "@ + decimal(max as nat) + " candidates, indices 0.."@
            + decimal((max - 1) as nat) + ")"@,
        WizardError::BadChannels => "invalid channel count"@,
        WizardError::NoChannels => "channel count must be > 0"@,
        WizardError::BadRate => "invalid sample rate"@,
        WizardError::NoRate => "sample rate must be > 0"@,
    }
}

/// What to tell the user when the wizard stops.
pub fn explain(e: WizardError) -> (r: String)
    requires
        e matches WizardError::OutOfRange(_, max) ==> max > 0,
    ensures
        r@ == stop_text(e),
{
    match e {
        WizardError::NoCards =>
        "no DAC cards found in /proc/asound/cards (only `Loopback`); did you load your DAC kernel module?".to_owned(),
        WizardError::NotANumber => "not a number".to_owned(),
        WizardError::OutOfRange(n, max) => {
            let mut r: String = "choice ".to_owned();
            r.append(to_decimal(n as u64).as_str());
            r.append(" is out of range (have ");
            r.append(to_decimal(max as u64).as_str());
            r.append(" candidates, indices 0..");
            r.append(to_decimal((max - 1) as u64).as_str());
            r.append(")");
            r
        },
        WizardError::BadChannels => "invalid channel count".to_owned(),
        WizardError::NoChannels => "channel count must be > 0".to_owned(),
        WizardError::BadRate => "invalid sample rate".to_owned(),
        WizardError::NoRate => "sample rate must be > 0".to_owned(),
    }
}

/// The line that offers card `i`.
pub open spec fn menu_line(i: nat, card: CardView) -> Seq<char> {
    "  ["@ + decimal(i) + "] "@ + padded(card.id, 24) + "  "@ + card.name
}

/// The lines that offer the cards, each with its number.
pub fn menu(cards: &[Card]) -> (r: Vec<String>)
    ensures
        texts(r@) == Seq::new(cards@.len(), |i: int| menu_line(i as nat, cards@[i]@)),
{
    let mut r: Vec<String> = Vec::new();
    let n: usize = cards.len();
    for i in 0..n
        invariant
            n == cards@.len(),
            texts(r@) == Seq::new(i as nat, |j: int| menu_line(j as nat, cards@[j]@)),
    {
        let ghost before = r@;
        let c = &cards[i];
        let mut line: String = "  [".to_owned();
        line.append(to_decimal(i as u64).as_str());
        line.append("] ");
        line.append(pad(c.id.as_str(), 24).as_str());
        line.append("  ");
        line.append(c.name.as_str());
        let ghost t = line@;
        r.push(line);
        assert(texts(r@) =~= texts(before).push(t));
    }
    r
}

/// The card that an answer chooses among `max`.
pub open spec fn chosen(line: Seq<char>, max: nat) -> Result<nat, WizardError> {
    match unsigned(answered(line, "0"@), usize::MAX as nat) {
        None => Err(WizardError::NotANumber),
        Some(n) => if n >= max {
            Err(WizardError::OutOfRange(n as usize, max as usize))
        } else {
            Ok(n)
        },
    }
}

/// The card that the answer on `line` chooses among `max`.
pub fn prompt_index(line: &str, max: usize) -> (r: Result<usize, WizardError>)
    requires
        max > 0,
    ensures
        r matches Ok(n) ==> chosen(line@, max as nat) == Ok::<nat, WizardError>(n as nat) && n < max,
        r matches Err(e) ==> chosen(line@, max as nat) == Err::<nat, WizardError>(e),
        r matches Err(WizardError::OutOfRange(_, m)) ==> m > 0,
{
    let raw = prompt_with_default(line, "0");
    match parse_unsigned(raw.as_str(), usize::MAX as u64) {
        None => Err(WizardError::NotANumber),
        Some(n) => {
            let n: usize = n as usize;
            if n >= max {
                Err(WizardError::OutOfRange(n, max))
            } else {
                Ok(n)
            }
        },
    }
}

/// The channel count that an answer asks for.
pub open spec fn channels_asked(line: Seq<char>) -> Result<nat, WizardError> {
    match unsigned(answered(line, "2"@), u16::MAX as nat) {
        None => Err(WizardError::BadChannels),
        Some(n) => if n == 0 {
            Err(WizardError::NoChannels)
        } else {
            Ok(n)
        },
    }
}

/// The channel count that the answer on `line` asks for.
pub fn prompt_channels(line: &str) -> (r: Result<u16, WizardError>)
    ensures
        r matches Ok(n) ==> channels_asked(line@) == Ok::<nat, WizardError>(n as nat),
        r matches Err(e) ==> channels_asked(line@) == Err::<nat, WizardError>(e),
{
    let raw = prompt_with_default(line, "2");
    match parse_unsigned(raw.as_str(), u16::MAX as u64) {
        None => Err(WizardError::BadChannels),
        Some(n) => if n == 0 {
            Err(WizardError::NoChannels)
        } else {
            Ok(n as u16)
        },
    }
}

/// The sample rate that an answer asks for.
pub open spec fn rate_asked(line: Seq<char>) -> Result<nat, WizardError> {
    match unsigned(answered(line, "48000"@), u32::MAX as nat) {
        None => Err(WizardError::BadRate),
        Some(n) => if n == 0 {
            Err(WizardError::NoRate)
        } else {
            Ok(n)
        },
    }
}

/// The sample rate that the answer on `line` asks for.
pub fn prompt_rate(line: &str) -> (r: Result<u32, WizardError>)
    ensures
        r matches Ok(n) ==> rate_asked(line@) == Ok::<nat, WizardError>(n as nat),
        r matches Err(e) ==> rate_asked(line@) == Err::<nat, WizardError>(e),
{
    let raw = prompt_with_default(line, "48000");
    match parse_unsigned(raw.as_str(), u32::MAX as u64) {
        None => Err(WizardError::BadRate),
        Some(n) => if n == 0 {
            Err(WizardError::NoRate)
        } else {
            Ok(n as u32)
        },
    }
}

/// What `str::to_lowercase` makes of a text: Unicode has pages on it.
pub uninterp spec fn unicode_lowercase(s: Seq<char>) -> Seq<char>;

/// `str::to_lowercase`: the text in small letters, as Unicode has them. What
/// the letters are is left open.
#[verifier::external_body]
fn to_lowercase(s: &str) -> (r: String)
    ensures
        r@ == unicode_lowercase(s@),
{
    s.to_lowercase()
}

/// Whether an answer in small letters means yes. One that means neither yes nor
/// no leaves it at the default.
pub open spec fn means_yes(answer: Seq<char>, default: bool) -> bool {
    if answer == "y"@ || answer == "yes"@ || answer == "s"@ || answer == "sim"@ {
        true
    } else if answer == "n"@ || answer == "no"@ || answer == "não"@ || answer == "nao"@ {
        false
    } else {
        default
    }
}

/// Whether an answer in small letters means yes.
pub fn is_yes(answer: &str, default: bool) -> (r: bool)
    ensures
        r == means_yes(answer@, default),
{
    if same_text(answer, "y") || same_text(answer, "yes") || same_text(answer, "s") || same_text(
        answer,
        "sim",
    ) {
        true
    } else if same_text(answer, "n") || same_text(answer, "no") || same_text(answer, "não")
        || same_text(answer, "nao") {
        false
    } else {
        default
    }
}

/// Whether the answer on `line` means yes.
pub fn prompt_yes(line: &str, default: bool) -> (r: bool)
    ensures
        r == means_yes(unicode_lowercase(trim(line@)), default),
{
    let t: String = trim_text(line);
    is_yes(to_lowercase(t.as_str()).as_str(), default)
}

/// What the wizard makes of its answers.
pub open spec fn wizard(
    template: Seq<char>,
    table: Seq<char>,
    pick: Seq<char>,
    channels: Seq<char>,
    rate: Seq<char>,
) -> Result<Seq<char>, WizardError> {
    let cards = cards_of(lines(table)).filter(|c: CardView| is_candidate(c));
    if cards.len() == 0 {
        Err(WizardError::NoCards)
    } else {
        match (chosen(pick, cards.len()), channels_asked(channels), rate_asked(rate)) {
            (Err(e), _, _) => Err(e),
            (_, Err(e), _) => Err(e),
            (_, _, Err(e)) => Err(e),
            (Ok(i), Ok(n), Ok(r)) => Ok(rendered(template, cards[i as int], n, r)),
        }
    }
}

/// The `bridge.yml` that the answers come to, for the cards of the kernel's
/// table, or the first thing that is wrong.
pub fn run_wizard(template: &str, table: &str, pick: &str, channels: &str, rate: &str) -> (r:
    Result<String, WizardError>)
    ensures
        r matches Ok(yaml) ==> wizard(template@, table@, pick@, channels@, rate@)
            == Ok::<Seq<char>, WizardError>(yaml@),
        r matches Err(e) ==> wizard(template@, table@, pick@, channels@, rate@)
            == Err::<Seq<char>, WizardError>(e),
        r matches Err(WizardError::OutOfRange(_, m)) ==> m > 0,
{
    let cards = candidates(read_cards(table));
    let ghost all = cards_of(lines(table@)).filter(|c: CardView| is_candidate(c));
    assert(card_views(cards@) == all);
    if cards.len() == 0 {
        return Err(WizardError::NoCards);
    }
    let i: usize = match prompt_index(pick, cards.len()) {
        Ok(i) => i,
        Err(e) => {
            return Err(e);
        },
    };
    let n: u16 = match prompt_channels(channels) {
        Ok(n) => n,
        Err(e) => {
            return Err(e);
        },
    };
    let r: u32 = match prompt_rate(rate) {
        Ok(r) => r,
        Err(e) => {
            return Err(e);
        },
    };
    assert(all[i as int] == cards@[i as int]@);
    Ok(render(template, &cards[i], n, r))
}

/// The file that is written: the one given beforehand, or else the one answered, or
/// else the default one.
pub open spec fn target(output: Option<&str>, line: Seq<char>) -> Seq<char> {
    match output {
        Some(p) => p@,
        None => answered(line, "/etc/rpi-camilla-bridge/bridge.yml"@),
    }
}

/// The path of the file to write. `line` is the answer to the question for it, which
/// is only asked if no path was given beforehand.
pub fn target_path(output: Option<&str>, line: &str) -> (r: String)
    ensures
        r@ == target(output, line@),
{
    match output {
        Some(p) => p.to_owned(),
        None => prompt_with_default(line, "/etc/rpi-camilla-bridge/bridge.yml"),
    }
}

/// What to do with the generated file.
#[derive(Debug, Clone, Copy, PartialEq, Eq, Structural)]
pub enum WriteDecision {
    /// Leave the file that is there.
    Abort,
    /// The directory is not there.
    NoParent,
    /// Write it.
    Write,
}

/// A file that exists is only overwritten if the user says so, and a file is
/// only written into a directory that exists.
pub fn decide_write(
    target_exists: bool,
    overwrite: bool,
    names_parent: bool,
    parent_exists: bool,
) -> (r: WriteDecision)
    ensures
        r == if target_exists && !overwrite {
            WriteDecision::Abort
        } else if names_parent && !parent_exists {
            WriteDecision::NoParent
        } else {
            WriteDecision::Write
        },
{
    if target_exists && !overwrite {
        WriteDecision::Abort
    } else if names_parent && !parent_exists {
        WriteDecision::NoParent
    } else {
        WriteDecision::Write
    }
}

/// The wizard never offers the loopback: the file it writes plays into a card of
/// the machine that is not the loopback.
pub proof fn law_loopback_is_never_chosen(
    template: Seq<char>,
    table: Seq<char>,
    pick: Seq<char>,
    channels: Seq<char>,
    rate: Seq<char>,
)
    ensures
        wizard(template, table, pick, channels, rate) matches Ok(yaml) ==> exists|
            card: CardView,
            n: nat,
            r: nat,
        |
            {
                &&& is_candidate(card)
                &&& cards_of(lines(table)).contains(card)
                &&& 0 < n <= u16::MAX
                &&& 0 < r <= u32::MAX
                &&& yaml == #[trigger] rendered(template, card, n, r)
            },
{
    let pred = |c: CardView| is_candidate(c);
    let all = cards_of(lines(table));
    let cards = all.filter(pred);
    if wizard(template, table, pick, channels, rate) is Ok {
        let i = chosen(pick, cards.len())->Ok_0 as int;
        let card = cards[i];
        assert(pred(card) && all.contains(card)) by {
            all.lemma_filter_pred(pred, i);
            assert(cards.contains(card));
            all.lemma_filter_contains_rev(pred, card);
        }
        assert(wizard(template, table, pick, channels, rate)->Ok_0 == rendered(
            template,
            card,
            channels_asked(channels)->Ok_0,
            rate_asked(rate)->Ok_0,
        ));
    }
}

/// A text that holds none of the four places to fill in comes out as it was:
/// nothing else of a template is touched.
pub proof fn law_the_rest_is_kept(template: Seq<char>, card: CardView, channels: nat, rate: nat)
    requires
        !contains(template, dac_line()),
        !contains(template, channels_line()),
        !contains(template, capture_rate()),
        !contains(template, rate_line()),
    ensures
        rendered(template, card, channels, rate) == template,
{
    lemma_nothing_to_replace(template, dac_line(), card_line(card));
    lemma_nothing_to_replace(template, channels_line(), new_channels_line(channels));
    lemma_nothing_to_replace(
        template,
        capture_rate(),
        "capture_samplerate: "@ + decimal(rate),
    );
    lemma_nothing_to_replace(template, rate_line(), new_rate_line(rate));
}

/// What the second half of the place for the channel count begins with.
pub open spec fn device_start() -> Seq<char> {
    "  device: hw:CARD="@
}

/// What the first half of the place for the channel count is.
pub open spec fn count_line() -> Seq<char> {
    "channels: 2\n"@
}

/// The text is whole lines.
pub open spec fn whole_lines(s: Seq<char>) -> bool {
    s.len() == 0 || s.last() == '\n'
}

/// None of the places to fill in stands in the text.
pub open spec fn no_place_in(s: Seq<char>) -> bool {
    &&& !contains(s, dac_line())
    &&& !contains(s, channels_line())
    &&& !contains(s, capture_rate())
    &&& !contains(s, rate_line())
}

/// `pat` goes over the end of a line in no place but one, which splits it in `a`
/// and `b`; or in none, if `a` is empty.
spec fn breaks_at(pat: Seq<char>, a: Seq<char>, b: Seq<char>) -> bool {
    &&& pat.len() > 0
    &&& pat.last() != '\n'
    &&& a.len() > 0 ==> pat == a + b
    &&& forall|k: int| 0 <= k < pat.len() && #[trigger] pat[k] == '\n' ==> a.len() > 0 && k
        == a.len() - 1
}

proof fn lemma_places()
    ensures
        breaks_at(dac_line(), Seq::empty(), Seq::empty()),
        breaks_at(channels_line(), count_line(), device_start()),
        breaks_at(capture_rate(), Seq::empty(), Seq::empty()),
        breaks_at(rate_line(), Seq::empty(), Seq::empty()),
{
    reveal_strlit("device: hw:CARD=YourDAC,DEV=0   # ← change to your DAC card name");
    reveal_strlit("channels: 2\n  device: hw:CARD=");
    reveal_strlit("channels: 2\n");
    reveal_strlit("  device: hw:CARD=");
    reveal_strlit("capture_samplerate: 48000");
    reveal_strlit("samplerate: 48000           # raise to your DAC's preferred rate (96000, etc.)");
    assert(channels_line() =~= count_line() + device_start());
}

/// Lines behind all places are kept by a replacement.
proof fn lemma_tail_kept(
    front: Seq<char>,
    tail: Seq<char>,
    pat: Seq<char>,
    a: Seq<char>,
    b: Seq<char>,
    to: Seq<char>,
)
    requires
        breaks_at(pat, a, b),
        whole_lines(front),
        !contains(tail, pat),
        a.len() > 0 ==> !starts_with(tail, b),
    ensures
        replace_all(front + tail, pat, to) == replace_all(front, pat, to) + tail,
        replace_first(front + tail, pat, to) == replace_first(front, pat, to) + tail,
        whole_lines(replace_all(front, pat, to)),
        whole_lines(replace_first(front, pat, to)),
{
    let s = front + tail;
    let n = pat.len() as int;
    let f = front.len() as int;
    assert forall|i: int| occurs_at(s, pat, i) implies i + n <= f by {
        if i + n > f {
            if i >= f {
                assert(tail.subrange(i - f, i - f + n) =~= s.subrange(i, i + n));
                assert(occurs_at(tail, pat, i - f));
            } else {
                assert(s.subrange(i, i + n)[f - 1 - i] == s[f - 1]);
                assert(pat[f - 1 - i] == '\n');
                assert(tail.subrange(0, b.len() as int) =~= b) by {
                    assert forall|k: int| 0 <= k < b.len() implies tail[k] == b[k] by {
                        assert(s.subrange(i, i + n)[a.len() + k] == s[f + k]);
                    }
                }
                assert(occurs_at(tail, b, 0));
            }
        }
    }
    lemma_replace_keeps_tail(front, tail, pat, to);
    if front.len() > 0 {
        lemma_replace_keeps_last(front, pat, to);
    } else {
        assert(!starts_with(front, pat));
    }
}

/// Lines before all places are kept by a replacement.
proof fn lemma_head_kept(
    head: Seq<char>,
    rest: Seq<char>,
    pat: Seq<char>,
    a: Seq<char>,
    b: Seq<char>,
    to: Seq<char>,
)
    requires
        breaks_at(pat, a, b),
        whole_lines(head),
        !contains(head, pat),
        a.len() > 0 ==> !occurs_at(head, a, head.len() - a.len()),
    ensures
        replace_all(head + rest, pat, to) == head + replace_all(rest, pat, to),
        replace_first(head + rest, pat, to) == head + replace_first(rest, pat, to),
{
    let s = head + rest;
    let n = pat.len() as int;
    let h = head.len() as int;
    assert forall|i: int| occurs_at(s, pat, i) implies h <= i by {
        if i < h {
            if i + n <= h {
                assert(head.subrange(i, i + n) =~= s.subrange(i, i + n));
                assert(occurs_at(head, pat, i));
            } else {
                assert(s.subrange(i, i + n)[h - 1 - i] == s[h - 1]);
                assert(pat[h - 1 - i] == '\n');
                assert(head.subrange(h - a.len(), h) =~= a) by {
                    assert forall|k: int| 0 <= k < a.len() implies head[i + k] == a[k] by {
                        assert(s.subrange(i, i + n)[k] == s[i + k]);
                    }
                }
                assert(occurs_at(head, a, h - a.len()));
            }
        }
    }
    lemma_replace_keeps_head(head, rest, pat, to);
}

/// Whole lines that hold none of the places to fill in are kept as they are,
/// wherever they stand in the template. (The place for the channel count is two
/// lines; neither half of it may be cut off.)
pub proof fn law_other_lines_are_kept(
    head: Seq<char>,
    middle: Seq<char>,
    tail: Seq<char>,
    card: CardView,
    channels: nat,
    rate: nat,
)
    requires
        whole_lines(head),
        whole_lines(middle),
        no_place_in(head),
        no_place_in(tail),
        !occurs_at(head, count_line(), head.len() - count_line().len()),
        !starts_with(tail, device_start()),
    ensures
        rendered(head + middle + tail, card, channels, rate) == head + rendered(
            middle,
            card,
            channels,
            rate,
        ) + tail,
{
    lemma_places();
    reveal_strlit("channels: 2\n");
    let none = Seq::<char>::empty();
    let capture = "capture_samplerate: "@ + decimal(rate);

    let m1 = replace_all(middle, dac_line(), card_line(card));
    let m2 = replace_first(m1, channels_line(), new_channels_line(channels));
    let m3 = replace_all(m2, capture_rate(), capture);
    let m4 = replace_all(m3, rate_line(), new_rate_line(rate));

    lemma_tail_kept(middle, tail, dac_line(), none, none, card_line(card));
    lemma_tail_kept(
        m1,
        tail,
        channels_line(),
        count_line(),
        device_start(),
        new_channels_line(channels),
    );
    lemma_tail_kept(m2, tail, capture_rate(), none, none, capture);
    lemma_tail_kept(m3, tail, rate_line(), none, none, new_rate_line(rate));

    lemma_head_kept(head, middle + tail, dac_line(), none, none, card_line(card));
    lemma_head_kept(
        head,
        m1 + tail,
        channels_line(),
        count_line(),
        device_start(),
        new_channels_line(channels),
    );
    lemma_head_kept(head, m2 + tail, capture_rate(), none, none, capture);
    lemma_head_kept(head, m3 + tail, rate_line(), none, none, new_rate_line(rate));

    assert(head + middle + tail =~= head + (middle + tail));
    assert(head + m4 + tail =~= head + (m4 + tail));
}

/// The two are the same card: the same number, id and description.
pub open spec fn same_card(a: Card, b: Card) -> bool {
    a.index == b.index && a.id@ == b.id@ && a.name@ == b.name@
}

/// A card is offered exactly if its id is not `Loopback`, in any case of its letters and
/// whatever its number; and what is offered is a card of the table.
pub proof fn law_all_but_the_loopback_are_offered(cards: Vec<Card>, r: Vec<Card>)
    requires
        call_ensures(candidates, (cards,), r),
    ensures
        forall|i: int|
            0 <= i < cards@.len() ==> (!alike((#[trigger] cards@[i]).id@, "Loopback"@) <==> exists|
                j: int,
            |
                0 <= j < r@.len() && same_card(#[trigger] r@[j], cards@[i])),
        forall|j: int|
            0 <= j < r@.len() ==> !alike((#[trigger] r@[j]).id@, "Loopback"@) && exists|i: int|
                0 <= i < cards@.len() && same_card(r@[j], #[trigger] cards@[i]),
{
    let pred = |c: CardView| is_candidate(c);
    let all = card_views(cards@);
    let kept = card_views(r@);
    assert(kept == all.filter(pred));
    assert forall|j: int| 0 <= j < r@.len() implies !alike((#[trigger] r@[j]).id@, "Loopback"@)
        && exists|i: int| 0 <= i < cards@.len() && same_card(r@[j], #[trigger] cards@[i]) by {
        assert(kept[j] == r@[j]@);
        all.lemma_filter_pred(pred, j);
        assert(pred(kept[j]));
        lemma_alike(r@[j].id@, "Loopback"@);
        assert(kept.contains(kept[j]));
        all.lemma_filter_contains_rev(pred, kept[j]);
        let i = choose|i: int| 0 <= i < all.len() && all[i] == kept[j];
        assert(cards@[i]@ == r@[j]@);
        assert(same_card(r@[j], cards@[i]));
    }
    assert forall|i: int| 0 <= i < cards@.len() implies (!alike(
        (#[trigger] cards@[i]).id@,
        "Loopback"@,
    ) <==> exists|j: int| 0 <= j < r@.len() && same_card(#[trigger] r@[j], cards@[i])) by {
        lemma_alike(cards@[i].id@, "Loopback"@);
        assert(all[i] == cards@[i]@);
        if !alike(cards@[i].id@, "Loopback"@) {
            assert(pred(all[i]));
            all.lemma_filter_contains(pred, i);
            let j = choose|j: int| 0 <= j < kept.len() && kept[j] == all[i];
            assert(r@[j]@ == cards@[i]@);
            assert(same_card(r@[j], cards@[i]));
        }
        if exists|j: int| 0 <= j < r@.len() && same_card(#[trigger] r@[j], cards@[i]) {
            let j = choose|j: int| 0 <= j < r@.len() && same_card(#[trigger] r@[j], cards@[i]);
            assert(!alike(r@[j].id@, "Loopback"@));
        }
    }
}

/// The cards are offered in the order of the table: those of its first part, and then
/// those of the rest.
pub proof fn law_cards_are_offered_in_order(
    front: Vec<Card>,
    back: Vec<Card>,
    whole: Vec<Card>,
    a: Vec<Card>,
    b: Vec<Card>,
    r: Vec<Card>,
)
    requires
        call_ensures(candidates, (front,), a),
        call_ensures(candidates, (back,), b),
        call_ensures(candidates, (whole,), r),
        whole@ == front@ + back@,
    ensures
        r@.len() == a@.len() + b@.len(),
        forall|j: int| 0 <= j < a@.len() ==> same_card(r@[j], #[trigger] a@[j]),
        forall|j: int| 0 <= j < b@.len() ==> same_card(r@[a@.len() + j], #[trigger] b@[j]),
{
    let pred = |c: CardView| is_candidate(c);
    let x = card_views(front@);
    let y = card_views(back@);
    assert(card_views(whole@) =~= x + y);
    Seq::filter_distributes_over_add(x, y, pred);
    let va = card_views(a@);
    let vb = card_views(b@);
    let vr = card_views(r@);
    assert(vr == va + vb);
    assert(va.len() == a@.len() && vb.len() == b@.len() && vr.len() == r@.len());
    assert forall|j: int| 0 <= j < a@.len() implies same_card(r@[j], #[trigger] a@[j]) by {
        assert(vr[j] == r@[j]@ && va[j] == a@[j]@);
    }
    assert forall|j: int| 0 <= j < b@.len() implies same_card(
        r@[a@.len() + j],
        #[trigger] b@[j],
    ) by {
        assert(vr[a@.len() + j] == r@[a@.len() + j]@ && vb[j] == b@[j]@);
    }
}

/// A file is only made for a card of the table whose id is not `Loopback`, in any case of
/// its letters: none that is made plays into the loopback.
pub proof fn law_no_file_plays_into_the_loopback(
    template: &str,
    table: &str,
    pick: &str,
    channels: &str,
    rate: &str,
    r: Result<String, WizardError>,
    cards: Vec<Card>,
)
    requires
        call_ensures(run_wizard, (template, table, pick, channels, rate), r),
        call_ensures(read_cards, (table,), cards),
    ensures
        r matches Ok(yaml) ==> exists|i: int, n: nat, hz: nat|
            {
                &&& 0 <= i < cards@.len()
                &&& !alike(cards@[i].id@, "Loopback"@)
                &&& 0 < n <= 65535
                &&& 0 < hz <= 4294967295
                &&& yaml@ == #[trigger] rendered(template@, cards@[i]@, n, hz)
            },
        (forall|i: int|
            0 <= i < cards@.len() ==> alike((#[trigger] cards@[i]).id@, "Loopback"@)) ==> r == Err::<
            String,
            WizardError,
        >(WizardError::NoCards),
{
    let pred = |c: CardView| is_candidate(c);
    let all = cards_of(lines(table@));
    assert(card_views(cards@) == all);
    if r is Ok {
        law_loopback_is_never_chosen(template@, table@, pick@, channels@, rate@);
        let yaml = r->Ok_0@;
        let (card, n, hz) = choose|card: CardView, n: nat, hz: nat|
            {
                &&& is_candidate(card)
                &&& cards_of(lines(table@)).contains(card)
                &&& 0 < n <= u16::MAX
                &&& 0 < hz <= u32::MAX
                &&& yaml == #[trigger] rendered(template@, card, n, hz)
            };
        let i = choose|i: int| 0 <= i < all.len() && all[i] == card;
        assert(cards@[i]@ == card);
        lemma_alike(cards@[i].id@, "Loopback"@);
        assert(yaml == rendered(template@, cards@[i]@, n, hz));
    }
    if forall|i: int| 0 <= i < cards@.len() ==> alike((#[trigger] cards@[i]).id@, "Loopback"@) {
        let kept = all.filter(pred);
        if kept.len() > 0 {
            all.lemma_filter_pred(pred, 0);
            assert(kept.contains(kept[0]));
            all.lemma_filter_contains_rev(pred, kept[0]);
            let i = choose|i: int| 0 <= i < all.len() && all[i] == kept[0];
            assert(cards@[i]@ == all[i]);
            lemma_alike(cards@[i].id@, "Loopback"@);
        }
    }
}

/// A card is read off its two lines: the number before the first blank, the id between
/// the brackets, without the white space that fills it up, and the description behind
/// `]`, or `]: `, with the second line in round brackets behind it if there is one.
pub proof fn law_card_is_read_off_its_lines(
    header: &[char],
    body: &[char],
    r: Option<Card>,
    before: Seq<char>,
    digits: Seq<char>,
    between: Seq<char>,
    lead: Seq<char>,
    id: Seq<char>,
    fill: Seq<char>,
    colon: Seq<char>,
    name: Seq<char>,
)
    requires
        call_ensures(parse_card, (header, body), r),
        header@ == before + digits + " "@ + between + "["@ + lead + id + fill + "]"@ + colon + name,
        colon == Seq::<char>::empty() || colon == ": "@,
        all_white(before),
        numeric(digits),
        number(digits) <= 4294967295,
        free_of(between, '['),
        free_of(id, ']'),
        bare(id),
        all_white(lead),
        all_white(fill),
        free_of(lead, ']'),
        free_of(fill, ']'),
        !stands_at(name, ": "@, 0),
    ensures
        r matches Some(card) && {
            &&& card.index == number(digits)
            &&& card.id@ == id
            &&& body@.len() == 0 ==> card.name@ == name
            &&& body@.len() > 0 ==> card.name@ == name + " ("@ + body@ + ")"@
        },
{
    reveal_strlit(" ");
    reveal_strlit("[");
    reveal_strlit("]");
    reveal_strlit(": ");
    let within = lead + id + fill;
    let behind = colon + name;
    let inner = within + seq![']'] + behind;
    let rest = between + seq!['['] + inner;
    let h = digits + seq![' '] + rest;
    assert(header@ =~= before + h);
    assert('0' <= digits[0] <= '9');
    assert(h[0] == digits[0]);
    lemma_skips_white(before, h);
    assert(free_of(digits, ' ')) by {
        assert forall|j: int| 0 <= j < digits.len() implies #[trigger] digits[j] != ' ' by {
            assert('0' <= digits[j] <= '9');
        }
    }
    lemma_cut_at(digits, ' ', rest);
    lemma_numeric(digits);
    assert(unsigned(digits, u32::MAX as nat) == Some(number(digits) as nat));
    lemma_cut_at(between, '[', inner);
    assert(free_of(within, ']')) by {
        assert forall|j: int| 0 <= j < within.len() implies #[trigger] within[j] != ']' by {
            if j < lead.len() {
                assert(within[j] == lead[j]);
            } else if j < lead.len() + id.len() {
                assert(within[j] == id[j - lead.len()]);
            } else {
                assert(within[j] == fill[j - lead.len() - id.len()]);
            }
        }
    }
    lemma_cut_at(within, ']', behind);
    lemma_trim_is(lead, id, fill);
    lemma_strip_front_once(name, ": "@);
    assert(Seq::<char>::empty() + name =~= name);
}

/// A line describes no card if nothing but white space stands before its number, and the
/// number is none or too large, or no bracket opens behind it, or the bracket is not
/// closed.
pub proof fn law_other_lines_describe_no_card(
    header: &[char],
    body: &[char],
    r: Option<Card>,
    before: Seq<char>,
    digits: Seq<char>,
    rest: Seq<char>,
)
    requires
        call_ensures(parse_card, (header, body), r),
        all_white(before),
        free_of(digits, ' '),
        digits.len() > 0 && !white(digits[0]),
    ensures
        header@ == before + digits ==> r is None,
        header@ == before + digits + " "@ + rest ==> {
            &&& !numeric(digits) && digits[0] != '+' ==> r is None
            &&& numeric(digits) && number(digits) > 4294967295 ==> r is None
            &&& free_of(rest, '[') ==> r is None
            &&& free_of(rest, ']') ==> r is None
        },
{
    reveal_strlit(" ");
    lemma_numeric(digits);
    let line = header@;
    if line == before + digits {
        lemma_skips_white(before, digits);
        lemma_first_of_is(digits, ' ', digits.len() as int);
    }
    if line == before + digits + " "@ + rest {
        let h = digits + " "@ + rest;
        assert(line =~= before + h);
        lemma_skips_white(before, h);
        let blank = digits.len() as int;
        assert forall|j: int| 0 <= j < blank implies h[j] != ' ' by {
            assert(h[j] == digits[j]);
        }
        assert(h[blank] == ' ');
        lemma_first_of_is(h, ' ', blank);
        assert(h.take(blank) =~= digits);
        if numeric(digits) {
            assert('0' <= digits[0] <= '9');
        }
        assert(h.skip(blank + 1) =~= rest);
        if free_of(rest, '[') {
            lemma_first_of_is(rest, '[', rest.len() as int);
        }
        if free_of(rest, ']') {
            let open = first_of(rest, '[');
            crate::text::lemma_first_of(rest, '[');
            if open < rest.len() {
                let inner = rest.skip(open + 1);
                assert forall|j: int| 0 <= j < inner.len() implies inner[j] != ']' by {
                    assert(inner[j] == rest[open + 1 + j]);
                }
                lemma_first_of_is(inner, ']', inner.len() as int);
            }
        }
    }
}

proof fn lemma_skips_white(before: Seq<char>, s: Seq<char>)
    requires
        all_white(before),
        s.len() > 0,
        !white(s[0]),
    ensures
        trim_start(before + s) == s,
    decreases before.len(),
{
    let t = before + s;
    if before.len() > 0 {
        assert(white(before[0]));
        assert(t.skip(1) =~= before.skip(1) + s);
        assert forall|k: int| 0 <= k < before.skip(1).len() implies white(
            #[trigger] before.skip(1)[k],
        ) by {
            assert(white(before[k + 1]));
        }
        lemma_skips_white(before.skip(1), s);
    } else {
        assert(t =~= s);
    }
}

/// The table holds a card for every two lines that describe one, in order: the first two
/// lines give the first card, or none, and the others are those of what is behind.
pub proof fn law_table_is_read_by_pairs_of_lines(
    table: &str,
    all: Vec<Card>,
    first: &[char],
    second: Seq<char>,
    before: Seq<char>,
    body: &[char],
    after: Seq<char>,
    card: Option<Card>,
    rest: &str,
    others: Vec<Card>,
)
    requires
        call_ensures(read_cards, (table,), all),
        call_ensures(read_cards, (rest,), others),
        call_ensures(parse_card, (first, body), card),
        table@ == first@.push('\n') + (second.push('\n') + rest@),
        second == before + body@ + after,
        free_of(first@, '\n') && free_of(first@, '\r'),
        free_of(second, '\n') && free_of(second, '\r'),
        all_white(before),
        all_white(after),
        bare(body@),
    ensures
        card is None ==> {
            &&& all@.len() == others@.len()
            &&& forall|i: int| 0 <= i < others@.len() ==> same_card(all@[i], #[trigger] others@[i])
        },
        card is Some ==> {
            &&& all@.len() == others@.len() + 1
            &&& same_card(all@[0], card->0)
            &&& forall|i: int|
                0 <= i < others@.len() ==> same_card(all@[i + 1], #[trigger] others@[i])
        },
{
    let tail = second.push('\n') + rest@;
    lemma_line_is_cut(first@, tail);
    lemma_line_is_cut(second, rest@);
    assert(crate::text::strip_cr(first@) == first@) by {
        if first@.len() > 0 {
            assert(first@[first@.len() - 1] != '\r');
        }
    }
    assert(crate::text::strip_cr(second) == second) by {
        if second.len() > 0 {
            assert(second[second.len() - 1] != '\r');
        }
    }
    let ls = lines(table@);
    assert(ls =~= seq![first@, second] + lines(rest@));
    assert(ls[0] == first@ && ls[1] == second);
    assert(ls.skip(2) =~= lines(rest@));
    lemma_trim_is(before, body@, after);
    let va = card_views(all@);
    let vo = card_views(others@);
    assert(va.len() == all@.len() && vo.len() == others@.len());
    assert(va == cards_of(ls) && vo == cards_of(lines(rest@)));
    if card is None {
        assert(va == vo);
        assert forall|i: int| 0 <= i < others@.len() implies same_card(
            all@[i],
            #[trigger] others@[i],
        ) by {
            assert(va[i] == all@[i]@ && vo[i] == others@[i]@);
        }
    } else {
        assert(va == seq![card->0@] + vo);
        assert(va[0] == all@[0]@);
        assert forall|i: int| 0 <= i < others@.len() implies same_card(
            all@[i + 1],
            #[trigger] others@[i],
        ) by {
            assert(va[i + 1] == all@[i + 1]@ && vo[i] == others@[i]@);
        }
    }
}

/// None of the four places of a template stands in the text.
pub open spec fn without_places(s: Seq<char>) -> bool {
    &&& !stands_in(s, "device: hw:CARD=YourDAC,DEV=0   # ← change to your DAC card name"@)
    &&& !stands_in(s, "channels: 2\n  device: hw:CARD="@)
    &&& !stands_in(s, "capture_samplerate: 48000"@)
    &&& !stands_in(
        s,
        "samplerate: 48000           # raise to your DAC's preferred rate (96000, etc.)"@,
    )
}

/// `head` and `tail` are whole lines around a part of a template that hold no place.
pub open spec fn around(head: Seq<char>, tail: Seq<char>) -> bool {
    &&& head.len() > 0 ==> head[head.len() - 1] == '\n'
    &&& without_places(head)
    &&& without_places(tail)
    &&& !stands_at(head, "channels: 2\n"@, head.len() - 12)
    &&& !stands_at(tail, "  device: hw:CARD="@, 0)
}

proof fn lemma_around(
    head: Seq<char>,
    middle: Seq<char>,
    tail: Seq<char>,
    card: CardView,
    channels: nat,
    rate: nat,
)
    requires
        around(head, tail),
        whole_lines(middle),
    ensures
        rendered(head + middle + tail, card, channels, rate) == head + rendered(
            middle,
            card,
            channels,
            rate,
        ) + tail,
{
    lemma_stands_in(head, dac_line());
    lemma_stands_in(head, channels_line());
    lemma_stands_in(head, capture_rate());
    lemma_stands_in(head, rate_line());
    lemma_stands_in(tail, dac_line());
    lemma_stands_in(tail, channels_line());
    lemma_stands_in(tail, capture_rate());
    lemma_stands_in(tail, rate_line());
    reveal_strlit("channels: 2\n");
    assert(count_line().len() == 12);
    lemma_stands_at(head, count_line(), head.len() - 12);
    lemma_stands_at(tail, device_start(), 0);
    law_other_lines_are_kept(head, middle, tail, card, channels, rate);
}

/// What has a character that the text has not does not stand in the text.
proof fn lemma_cannot_stand(s: Seq<char>, pat: Seq<char>, k: int)
    requires
        0 <= k < pat.len(),
        free_of(s, pat[k]),
    ensures
        !contains(s, pat),
{
    lemma_stands_in(s, pat);
    if stands_in(s, pat) {
        let i = choose|i: int| stands_at(s, pat, i);
        assert(s[i + k] == pat[k]);
    }
}

/// What holds a text holds every part of it.
proof fn lemma_part_stands(s: Seq<char>, a: Seq<char>, b: Seq<char>, c: Seq<char>)
    requires
        contains(s, a + b + c),
    ensures
        stands_in(s, b),
{
    let pat = a + b + c;
    lemma_stands_in(s, pat);
    let i = choose|i: int| stands_at(s, pat, i);
    assert(stands_at(s, b, i + a.len())) by {
        assert forall|k: int| 0 <= k < b.len() implies s[i + a.len() + k] == #[trigger] b[k] by {
            assert(pat[a.len() + k] == b[k]);
            assert(s[i + (a.len() + k)] == pat[a.len() + k]);
        }
    }
}

proof fn lemma_device_place()
    ensures
        "channels: 2\n  device: hw:CARD=YourDAC,DEV=0   # ← change to your DAC card name\n"@
            == "channels: 2\n  "@ + dac_line() + "\n"@,
        dac_line().len() > 0,
        dac_line()[0] == 'd',
        free_of("channels: 2\n  "@, 'd'),
        free_of("\n"@, 'd'),
        whole_lines(
            "channels: 2\n  device: hw:CARD=YourDAC,DEV=0   # ← change to your DAC card name\n"@,
        ),
{
    reveal_strlit(
        "channels: 2\n  device: hw:CARD=YourDAC,DEV=0   # ← change to your DAC card name\n",
    );
    reveal_strlit("device: hw:CARD=YourDAC,DEV=0   # ← change to your DAC card name");
    reveal_strlit("channels: 2\n  ");
    reveal_strlit("\n");
    assert("channels: 2\n  device: hw:CARD=YourDAC,DEV=0   # ← change to your DAC card name\n"@
        =~= "channels: 2\n  "@ + dac_line() + "\n"@);
}

proof fn lemma_channels_place()
    ensures
        channels_line() == "channels: 2\n  "@ + "device: hw:CARD="@,
        ")"@ + "\n"@ == ")\n"@,
{
    reveal_strlit("channels: 2\n  device: hw:CARD=");
    reveal_strlit("channels: 2\n  ");
    reveal_strlit("device: hw:CARD=");
    reveal_strlit(")\n");
    reveal_strlit(")");
    reveal_strlit("\n");
    assert(channels_line() =~= "channels: 2\n  "@ + "device: hw:CARD="@);
    assert(")"@ + "\n"@ =~= ")\n"@);
}

proof fn lemma_rate_places()
    ensures
        capture_rate() == "capture_"@ + "samplerate: 48000"@ + Seq::<char>::empty(),
        rate_line() == Seq::<char>::empty() + "samplerate: 48000"@
            + "           # raise to your DAC's preferred rate (96000, etc.)"@,
{
    reveal_strlit("capture_samplerate: 48000");
    reveal_strlit("capture_");
    reveal_strlit("samplerate: 48000");
    assert(capture_rate() =~= "capture_"@ + "samplerate: 48000"@ + Seq::<char>::empty());
    reveal_strlit("samplerate: 48000           # raise to your DAC's preferred rate (96000, etc.)");
    reveal_strlit("           # raise to your DAC's preferred rate (96000, etc.)");
    assert(rate_line() =~= Seq::<char>::empty() + "samplerate: 48000"@
        + "           # raise to your DAC's preferred rate (96000, etc.)"@);
}

/// A character by which each of the first three places is told from the lines of the
/// rates, and the last from that of the capture.
proof fn lemma_place_marks()
    ensures
        dac_line().len() > 34 && dac_line()[34] == '←',
        channels_line().len() > 29 && channels_line()[29] == '=',
        capture_rate().len() > 7 && capture_rate()[7] == '_',
        rate_line().len() > 28 && rate_line()[28] == '#',
{
    reveal_strlit("device: hw:CARD=YourDAC,DEV=0   # ← change to your DAC card name");
    reveal_strlit("channels: 2\n  device: hw:CARD=");
    reveal_strlit("capture_samplerate: 48000");
    reveal_strlit("samplerate: 48000           # raise to your DAC's preferred rate (96000, etc.)");
}

proof fn lemma_rate_line_alone()
    ensures
        ({
            let m =
                "samplerate: 48000           # raise to your DAC's preferred rate (96000, etc.)\n"@;
            &&& m == Seq::<char>::empty() + rate_line() + "\n"@
            &&& free_of(m, '←') && free_of(m, '=') && free_of(m, '_')
            &&& whole_lines(m)
            &&& free_of("\n"@, '#')
        }),
        "           # auto-set by `pi-receiver init`"@ + "\n"@
            == "           # auto-set by `pi-receiver init`\n"@,
{
    reveal_strlit("\n");
    reveal_strlit(
        "samplerate: 48000           # raise to your DAC's preferred rate (96000, etc.)\n",
    );
    reveal_strlit("samplerate: 48000           # raise to your DAC's preferred rate (96000, etc.)");
    assert("samplerate: 48000           # raise to your DAC's preferred rate (96000, etc.)\n"@
        =~= Seq::<char>::empty() + rate_line() + "\n"@);
    reveal_strlit("           # auto-set by `pi-receiver init`\n");
    reveal_strlit("           # auto-set by `pi-receiver init`");
    assert("           # auto-set by `pi-receiver init`"@ + "\n"@
        =~= "           # auto-set by `pi-receiver init`\n"@);
}

proof fn lemma_capture_line_alone()
    ensures
        ({
            let m = "capture_samplerate: 48000\n"@;
            &&& m == Seq::<char>::empty() + capture_rate() + "\n"@
            &&& free_of(m, '←') && free_of(m, '=')
            &&& whole_lines(m)
        }),
        free_of("\n"@, '_') && free_of("\n"@, '#'),
        free_of("capture_samplerate: "@, '#'),
{
    reveal_strlit("\n");
    reveal_strlit("capture_samplerate: 48000\n");
    reveal_strlit("capture_samplerate: 48000");
    reveal_strlit("capture_samplerate: ");
    assert("capture_samplerate: 48000\n"@ =~= Seq::<char>::empty() + capture_rate() + "\n"@);
}

/// The part of the generated file that names the card and the playback channels.
pub open spec fn device_part(
    channels: Seq<char>,
    id: Seq<char>,
    index: Seq<char>,
    name: Seq<char>,
) -> Seq<char> {
    "channels: "@ + channels + "\n  device: hw:CARD="@ + id + ",DEV=0   # auto-detected: card "@
        + index + " ("@ + name + ")\n"@
}

/// The file plays into the card that was chosen, by its id, with the channels asked for:
/// they take the place of those of the template, with the number and the description of
/// the card in a remark, and the lines before and behind are kept. (A card that is itself
/// described by the rate line of a template is left out.)
pub proof fn law_file_plays_into_the_chosen_card(
    template: &str,
    card: &Card,
    channels: u16,
    rate: u32,
    yaml: String,
    head: Seq<char>,
    tail: Seq<char>,
)
    requires
        call_ensures(render, (template, card, channels, rate), yaml),
        template@ == head
            + "channels: 2\n  device: hw:CARD=YourDAC,DEV=0   # ← change to your DAC card name\n"@
            + tail,
        around(head, tail),
        forall|n: Seq<char>, i: Seq<char>|
            numeric(n) && numeric(i) ==> !stands_in(
                #[trigger] device_part(n, card.id@, i, card.name@),
                "samplerate: 48000"@,
            ),
    ensures
        exists|n: Seq<char>, i: Seq<char>|
            {
                &&& numeric(n) && number(n) == channels
                &&& numeric(i) && number(i) == card.index
                &&& yaml@ == head + #[trigger] device_part(n, card.id@, i, card.name@) + tail
            },
{
    let m =
        "channels: 2\n  device: hw:CARD=YourDAC,DEV=0   # ← change to your DAC card name\n"@;
    let c = card@;
    let ch = channels as nat;
    let hz = rate as nat;
    lemma_decimal_reads(ch);
    lemma_decimal_reads(c.index);
    let n = decimal(ch);
    let i = decimal(c.index);
    let out = device_part(n, card.id@, i, card.name@);
    lemma_device_place();
    lemma_around(head, m, tail, c, ch, hz);
    lemma_device_part(c, ch, hz);
    assert(rendered(m, c, ch, hz) == out);
    assert(yaml@ == head + out + tail);
}

proof fn lemma_device_part(c: CardView, ch: nat, hz: nat)
    requires
        !stands_in(device_part(decimal(ch), c.id, decimal(c.index), c.name), "samplerate: 48000"@),
    ensures
        rendered(
            "channels: 2\n  device: hw:CARD=YourDAC,DEV=0   # ← change to your DAC card name\n"@,
            c,
            ch,
            hz,
        ) == device_part(decimal(ch), c.id, decimal(c.index), c.name),
        replace_first(
            replace_all(
                "channels: 2\n  device: hw:CARD=YourDAC,DEV=0   # ← change to your DAC card name\n"@,
                dac_line(),
                card_line(c),
            ),
            channels_line(),
            new_channels_line(ch),
        ) == device_part(decimal(ch), c.id, decimal(c.index), c.name),
        !contains(device_part(decimal(ch), c.id, decimal(c.index), c.name), capture_rate()),
        !contains(device_part(decimal(ch), c.id, decimal(c.index), c.name), rate_line()),
        whole_lines(device_part(decimal(ch), c.id, decimal(c.index), c.name)),
{
    let m =
        "channels: 2\n  device: hw:CARD=YourDAC,DEV=0   # ← change to your DAC card name\n"@;
    let i = decimal(c.index);
    let out = device_part(decimal(ch), c.id, i, c.name);
    let front = "channels: 2\n  "@;
    let last = "\n"@;
    lemma_device_place();
    assert forall|k: int| stands_at(front + dac_line() + last, dac_line(), k) implies k
        >= front.len() by {
        if k < front.len() {
            assert((front + dac_line() + last)[k + 0] == dac_line()[0]);
            assert((front + dac_line() + last)[k] == front[k]);
        }
    }
    lemma_first_place(front, dac_line(), last, card_line(c));
    lemma_cannot_stand(last, dac_line(), 0);
    lemma_nothing_to_replace(last, dac_line(), card_line(c));
    let a = replace_all(m, dac_line(), card_line(c));
    assert(a == front + card_line(c) + last);

    lemma_channels_place();
    let behind = c.id + ",DEV=0   # auto-detected: card "@ + i + " ("@ + c.name + ")\n"@;
    assert(a =~= channels_line() + behind);
    assert(a.subrange(0, channels_line().len() as int) =~= channels_line());
    assert(starts_with(a, channels_line()));
    assert(a.skip(channels_line().len() as int) =~= behind);
    let b = replace_first(a, channels_line(), new_channels_line(ch));
    assert(b == new_channels_line(ch) + behind);
    assert(b =~= out);
    reveal_strlit(")\n");
    assert(out.last() == '\n');

    lemma_rate_places();
    let none = Seq::<char>::empty();
    if contains(out, capture_rate()) {
        lemma_part_stands(out, "capture_"@, "samplerate: 48000"@, none);
    }
    if contains(out, rate_line()) {
        lemma_part_stands(
            out,
            none,
            "samplerate: 48000"@,
            "           # raise to your DAC's preferred rate (96000, etc.)"@,
        );
    }
    lemma_nothing_to_replace(out, capture_rate(), "capture_samplerate: "@ + decimal(hz));
    lemma_nothing_to_replace(out, rate_line(), new_rate_line(hz));
}

/// The file runs at the rate asked for: it takes the place of the rate of the template,
/// and the lines before and behind are kept.
pub proof fn law_file_runs_at_the_rate_asked_for(
    template: &str,
    card: &Card,
    channels: u16,
    rate: u32,
    yaml: String,
    head: Seq<char>,
    tail: Seq<char>,
)
    requires
        call_ensures(render, (template, card, channels, rate), yaml),
        around(head, tail),
    ensures
        template@ == head
            + "samplerate: 48000           # raise to your DAC's preferred rate (96000, etc.)\n"@
            + tail ==> exists|d: Seq<char>|
            numeric(d) && number(d) == rate && yaml@ == #[trigger] (head + ("samplerate: "@ + d
                + "           # auto-set by `pi-receiver init`\n"@) + tail),
        template@ == head + "capture_samplerate: 48000\n"@ + tail ==> exists|d: Seq<char>|
            numeric(d) && number(d) == rate && yaml@ == #[trigger] (head + (
            "capture_samplerate: "@ + d + "\n"@) + tail),
{
    let c = card@;
    let ch = channels as nat;
    let hz = rate as nat;
    let d = decimal(hz);
    lemma_decimal_reads(hz);
    let m = "samplerate: 48000           # raise to your DAC's preferred rate (96000, etc.)\n"@;
    if template@ == head + m + tail {
        lemma_rate_line_alone();
        lemma_around(head, m, tail, c, ch, hz);
        lemma_rate_part(c, ch, hz);
        assert(yaml@ == head + ("samplerate: "@ + d
            + "           # auto-set by `pi-receiver init`\n"@) + tail);
    }
    let m = "capture_samplerate: 48000\n"@;
    if template@ == head + m + tail {
        lemma_capture_line_alone();
        lemma_around(head, m, tail, c, ch, hz);
        lemma_capture_part(c, ch, hz);
        assert(yaml@ == head + ("capture_samplerate: "@ + d + "\n"@) + tail);
    }
}

proof fn lemma_rate_part(c: CardView, ch: nat, hz: nat)
    ensures
        rendered(
            "samplerate: 48000           # raise to your DAC's preferred rate (96000, etc.)\n"@,
            c,
            ch,
            hz,
        ) == "samplerate: "@ + decimal(hz) + "           # auto-set by `pi-receiver init`\n"@,
        replace_all(
            "samplerate: 48000           # raise to your DAC's preferred rate (96000, etc.)\n"@,
            rate_line(),
            new_rate_line(hz),
        ) == "samplerate: "@ + decimal(hz) + "           # auto-set by `pi-receiver init`\n"@,
{
    let m = "samplerate: 48000           # raise to your DAC's preferred rate (96000, etc.)\n"@;
    let none = Seq::<char>::empty();
    let last = "\n"@;
    lemma_rate_line_alone();
    lemma_place_marks();
    lemma_cannot_stand(m, dac_line(), 34);
    lemma_nothing_to_replace(m, dac_line(), card_line(c));
    lemma_cannot_stand(m, channels_line(), 29);
    lemma_nothing_to_replace(m, channels_line(), new_channels_line(ch));
    lemma_cannot_stand(m, capture_rate(), 7);
    lemma_nothing_to_replace(m, capture_rate(), "capture_samplerate: "@ + decimal(hz));
    lemma_first_place(none, rate_line(), last, new_rate_line(hz));
    lemma_cannot_stand(last, rate_line(), 28);
    lemma_nothing_to_replace(last, rate_line(), new_rate_line(hz));
    assert(none + new_rate_line(hz) + last =~= "samplerate: "@ + decimal(hz)
        + ("           # auto-set by `pi-receiver init`"@ + last));
}

proof fn lemma_capture_part(c: CardView, ch: nat, hz: nat)
    ensures
        rendered("capture_samplerate: 48000\n"@, c, ch, hz) == "capture_samplerate: "@ + decimal(hz)
            + "\n"@,
        replace_all(
            "capture_samplerate: 48000\n"@,
            capture_rate(),
            "capture_samplerate: "@ + decimal(hz),
        ) == "capture_samplerate: "@ + decimal(hz) + "\n"@,
{
    let m = "capture_samplerate: 48000\n"@;
    let d = decimal(hz);
    let capture = "capture_samplerate: "@ + d;
    let none = Seq::<char>::empty();
    let last = "\n"@;
    lemma_decimal_reads(hz);
    lemma_capture_line_alone();
    lemma_place_marks();
    lemma_cannot_stand(m, dac_line(), 34);
    lemma_nothing_to_replace(m, dac_line(), card_line(c));
    lemma_cannot_stand(m, channels_line(), 29);
    lemma_nothing_to_replace(m, channels_line(), new_channels_line(ch));
    lemma_first_place(none, capture_rate(), last, capture);
    lemma_cannot_stand(last, capture_rate(), 7);
    lemma_nothing_to_replace(last, capture_rate(), capture);
    let out = capture + last;
    assert(none + capture + last =~= out);
    assert forall|k: int| 0 <= k < out.len() implies #[trigger] out[k] != '#' by {
        let f = "capture_samplerate: "@;
        if k < f.len() {
            assert(out[k] == f[k]);
        } else if k < f.len() + d.len() {
            assert(out[k] == d[k - f.len()]);
            assert('0' <= d[k - f.len()] <= '9');
        } else {
            assert(out[k] == last[k - f.len() - d.len()]);
        }
    }
    lemma_cannot_stand(out, rate_line(), 28);
    lemma_nothing_to_replace(out, rate_line(), new_rate_line(hz));
}

proof fn lemma_answer(line: Seq<char>, before: Seq<char>, t: Seq<char>, after: Seq<char>, default: Seq<char>)
    requires
        line == before + t + after,
        all_white(before),
        all_white(after),
        bare(t),
    ensures
        answered(line, default) == if t.len() == 0 {
            default
        } else {
            t
        },
{
    lemma_trim_is(before, t, after);
}

/// An answer is what was typed, without the white space around it; the default exactly if
/// nothing but white space was typed.
pub proof fn law_answer_is_what_was_typed(
    line: &str,
    default: &str,
    r: String,
    before: Seq<char>,
    typed: Seq<char>,
    after: Seq<char>,
)
    requires
        call_ensures(prompt_with_default, (line, default), r),
        line@ == before + typed + after,
        all_white(before),
        all_white(after),
        bare(typed),
    ensures
        typed.len() > 0 ==> r@ == typed,
        typed.len() == 0 ==> r@ == default@,
{
    lemma_answer(line@, before, typed, after, default@);
}

/// Numbers are taken as typed, within their bounds; nothing typed means the first card,
/// two channels and 48000 Hz; what is no number is refused, and so is a card that is not
/// there, no channel and no rate.
pub proof fn law_numbers_are_taken_as_typed(
    line: &str,
    max: usize,
    card: Result<usize, WizardError>,
    channels: Result<u16, WizardError>,
    rate: Result<u32, WizardError>,
    before: Seq<char>,
    typed: Seq<char>,
    after: Seq<char>,
)
    requires
        0 < max <= 4294967295,
        call_ensures(prompt_index, (line, max), card),
        call_ensures(prompt_channels, (line,), channels),
        call_ensures(prompt_rate, (line,), rate),
        line@ == before + typed + after,
        all_white(before),
        all_white(after),
        bare(typed),
    ensures
        typed.len() == 0 ==> card == Ok::<usize, WizardError>(0) && channels == Ok::<
            u16,
            WizardError,
        >(2) && rate == Ok::<u32, WizardError>(48000),
        numeric(typed) && number(typed) < max ==> (card matches Ok(i) && i == number(typed)),
        numeric(typed) && max <= number(typed) <= 4294967295 ==> (card matches Err(
            WizardError::OutOfRange(i, m),
        ) && i == number(typed) && m == max),
        numeric(typed) && 0 < number(typed) <= 65535 ==> (channels matches Ok(n) && n == number(
            typed,
        )),
        numeric(typed) && number(typed) > 65535 ==> channels == Err::<u16, WizardError>(
            WizardError::BadChannels,
        ),
        numeric(typed) && number(typed) == 0 ==> channels == Err::<u16, WizardError>(
            WizardError::NoChannels,
        ) && rate == Err::<u32, WizardError>(WizardError::NoRate),
        numeric(typed) && 0 < number(typed) <= 4294967295 ==> (rate matches Ok(n) && n == number(
            typed,
        )),
        numeric(typed) && number(typed) > 4294967295 ==> rate == Err::<u32, WizardError>(
            WizardError::BadRate,
        ),
        typed.len() > 0 && typed[0] == '+' && numeric(typed.skip(1)) ==> {
            let n = number(typed.skip(1));
            &&& n < max ==> (card matches Ok(i) && i == n)
            &&& 0 < n <= 65535 ==> (channels matches Ok(k) && k == n)
            &&& 0 < n <= 4294967295 ==> (rate matches Ok(k) && k == n)
        },
        typed.len() > 0 && !numeric(typed) && typed[0] != '+' ==> card == Err::<
            usize,
            WizardError,
        >(WizardError::NotANumber) && channels == Err::<u16, WizardError>(
            WizardError::BadChannels,
        ) && rate == Err::<u32, WizardError>(WizardError::BadRate),
{
    lemma_answer(line@, before, typed, after, "0"@);
    lemma_answer(line@, before, typed, after, "2"@);
    lemma_answer(line@, before, typed, after, "48000"@);
    lemma_numeric(typed);
    if numeric(typed) {
        assert('0' <= typed[0] <= '9');
    }
    if typed.len() > 0 {
        lemma_numeric(typed.skip(1));
    }
    reveal_strlit("0");
    reveal_strlit("2");
    reveal_strlit("48000");
    assert(decimal(0) =~= "0"@);
    assert(decimal(2) =~= "2"@);
    reveal_with_fuel(decimal, 6);
    assert(decimal(48000) =~= "48000"@);
    crate::decimal::law_written_number_is_read_back(0, usize::MAX as nat);
    crate::decimal::law_written_number_is_read_back(2, u16::MAX as nat);
    crate::decimal::law_written_number_is_read_back(48000, u32::MAX as nat);
}

/// Only `y`, `yes`, `s` and `sim` mean yes whatever the default, only `n`, `no`, `não`
/// and `nao` mean no, and anything else leaves it at the default.
pub proof fn law_yes_and_no(answer: &str, default: bool, r: bool)
    requires
        call_ensures(is_yes, (answer, default), r),
    ensures
        ({
            let a = answer@;
            let yes = a == seq!['y'] || a == seq!['y', 'e', 's'] || a == seq!['s'] || a == seq![
                's',
                'i',
                'm',
            ];
            let no = a == seq!['n'] || a == seq!['n', 'o'] || a == seq!['n', '\u{e3}', 'o'] || a
                == seq!['n', 'a', 'o'];
            &&& yes ==> r
            &&& no ==> !r
            &&& !yes && !no ==> r == default
        }),
{
    reveal_strlit("y");
    reveal_strlit("yes");
    reveal_strlit("s");
    reveal_strlit("sim");
    reveal_strlit("n");
    reveal_strlit("no");
    reveal_strlit("não");
    reveal_strlit("nao");
    assert("y"@ =~= seq!['y']);
    assert("yes"@ =~= seq!['y', 'e', 's']);
    assert("s"@ =~= seq!['s']);
    assert("sim"@ =~= seq!['s', 'i', 'm']);
    assert("n"@ =~= seq!['n']);
    assert("no"@ =~= seq!['n', 'o']);
    assert("não"@ =~= seq!['n', '\u{e3}', 'o']);
    assert("nao"@ =~= seq!['n', 'a', 'o']);
    let a = answer@;
    assert(seq!['n'][0] == 'n' && seq!['n', 'o'][0] == 'n' && seq!['n', '\u{e3}', 'o'][0] == 'n'
        && seq!['n', 'a', 'o'][0] == 'n');
    assert(seq!['y'][0] == 'y' && seq!['y', 'e', 's'][0] == 'y' && seq!['s'][0] == 's' && seq![
        's',
        'i',
        'm',
    ][0] == 's');
}

/// The file goes where it was sent beforehand, whatever is typed; else where the answer
/// says, and to the default place if there is none.
pub proof fn law_file_goes_where_it_is_sent(
    output: Option<&str>,
    line: &str,
    r: String,
    before: Seq<char>,
    typed: Seq<char>,
    after: Seq<char>,
)
    requires
        call_ensures(target_path, (output, line), r),
        line@ == before + typed + after,
        all_white(before),
        all_white(after),
        bare(typed),
    ensures
        output is Some ==> r@ == output->0@,
        output is None && typed.len() > 0 ==> r@ == typed,
        output is None && typed.len() == 0 ==> r@ == "/etc/rpi-camilla-bridge/bridge.yml"@,
{
    lemma_answer(line@, before, typed, after, "/etc/rpi-camilla-bridge/bridge.yml"@);
}

/// A file that is there is never overwritten against the user's will, and nothing is
/// written into a directory that is not there; else the file is written.
pub proof fn law_nothing_is_overwritten_unasked(
    there: bool,
    overwrite: bool,
    names_parent: bool,
    parent_there: bool,
    r: WriteDecision,
)
    requires
        call_ensures(decide_write, (there, overwrite, names_parent, parent_there), r),
    ensures
        r is Write <==> (!there || overwrite) && (!names_parent || parent_there),
        r is Abort <==> there && !overwrite,
{
}

/// The menu has a line for each card, in order, with the number to type for it, its id
/// and its description.
pub proof fn law_menu_offers_each_card(cards: &[Card], r: Vec<String>, i: int)
    requires
        call_ensures(menu, (cards,), r),
        0 <= i < cards@.len(),
    ensures
        r@.len() == cards@.len(),
        exists|d: Seq<char>, blanks: Seq<char>|
            {
                &&& numeric(d) && number(d) == i
                &&& only_blanks(blanks)
                &&& cards@[i].id@.len() + blanks.len() >= 24
                &&& blanks.len() > 0 ==> cards@[i].id@.len() + blanks.len() == 24
                &&& r@[i]@ == #[trigger] offer_of(d, cards@[i].id@, blanks, cards@[i].name@)
            },
{
    assert(texts(r@).len() == r@.len());
    assert(texts(r@)[i] == r@[i]@);
    lemma_decimal_reads(i as nat);
    let id = cards@[i].id@;
    let blanks = Seq::new(
        if id.len() < 24 {
            (24 - id.len()) as nat
        } else {
            0
        },
        |k: int| ' ',
    );
    assert(padded(id, 24) =~= id + blanks);
    assert(r@[i]@ =~= offer_of(decimal(i as nat), id, blanks, cards@[i].name@));
}

/// The text is blanks throughout.
pub open spec fn only_blanks(s: Seq<char>) -> bool {
    forall|k: int| 0 <= k < s.len() ==> #[trigger] s[k] == ' '
}

/// A line of the menu, from its parts.
pub open spec fn offer_of(
    digits: Seq<char>,
    id: Seq<char>,
    blanks: Seq<char>,
    name: Seq<char>,
) -> Seq<char> {
    "  ["@ + digits + "] "@ + (id + blanks) + "  "@ + name
}

/// The wizard fills in the card that was picked among those offered, and the channels and
/// the rate that were typed. Where none is offered it says so; else the first answer that
/// is wrong, in that order, is the error.
pub proof fn law_wizard_goes_by_its_answers(
    template: &str,
    table: &str,
    pick: &str,
    channels: &str,
    rate: &str,
    r: Result<String, WizardError>,
    cards: Vec<Card>,
    offered: Vec<Card>,
    count: usize,
    i: Result<usize, WizardError>,
    n: Result<u16, WizardError>,
    hz: Result<u32, WizardError>,
    text: String,
)
    requires
        call_ensures(run_wizard, (template, table, pick, channels, rate), r),
        call_ensures(read_cards, (table,), cards),
        call_ensures(candidates, (cards,), offered),
        count == offered@.len(),
        call_ensures(prompt_index, (pick, count), i),
        call_ensures(prompt_channels, (channels,), n),
        call_ensures(prompt_rate, (rate,), hz),
    ensures
        count == 0 ==> r == Err::<String, WizardError>(WizardError::NoCards),
        count > 0 && i is Err ==> r == Err::<String, WizardError>(i->Err_0),
        count > 0 && i is Ok && n is Err ==> r == Err::<String, WizardError>(n->Err_0),
        count > 0 && i is Ok && n is Ok && hz is Err ==> r == Err::<String, WizardError>(
            hz->Err_0,
        ),
        count > 0 && i is Ok && n is Ok && hz is Ok ==> i->Ok_0 < count && r is Ok,
        count > 0 && i is Ok && n is Ok && hz is Ok && call_ensures(
            render,
            (template, &offered@[i->Ok_0 as int], n->Ok_0, hz->Ok_0),
            text,
        ) ==> (r matches Ok(yaml) && yaml@ == text@),
{
    let pred = |c: CardView| is_candidate(c);
    let all = cards_of(lines(table@)).filter(pred);
    assert(card_views(offered@) == all);
    assert(all.len() == offered@.len());
    if i is Ok && count > 0 {
        assert(all[i->Ok_0 as int] == offered@[i->Ok_0 as int]@);
    }
}

/// Yes and no are taken in either case and with white space around them: what counts is
/// the answer in small letters.
pub proof fn law_typed_yes_counts(
    line: &str,
    default: bool,
    r: bool,
    before: Seq<char>,
    typed: Seq<char>,
    after: Seq<char>,
    small: &str,
    s: bool,
)
    requires
        call_ensures(prompt_yes, (line, default), r),
        line@ == before + typed + after,
        all_white(before),
        all_white(after),
        bare(typed),
        small@ == unicode_lowercase(typed),
        call_ensures(is_yes, (small, default), s),
    ensures
        r == s,
{
    lemma_trim_is(before, typed, after);
}

/// Why the wizard stops is told by what was wrong.
pub proof fn law_stop_is_explained(e: WizardError, r: String)
    requires
        call_ensures(explain, (e,), r),
        e matches WizardError::OutOfRange(_, max) ==> max > 0,
    ensures
        e is NotANumber ==> r@ == "not a number"@,
        e is BadChannels ==> r@ == "invalid channel count"@,
        e is NoChannels ==> r@ == "channel count must be > 0"@,
        e is BadRate ==> r@ == "invalid sample rate"@,
        e is NoRate ==> r@ == "sample rate must be > 0"@,
        e is NoCards ==> r@
            == "no DAC cards found in /proc/asound/cards (only `Loopback`); did you load your DAC kernel module?"@,
        e matches WizardError::OutOfRange(n, max) ==> exists|a: Seq<char>, b: Seq<char>, c: Seq<char>|
            {
                &&& numeric(a) && number(a) == n
                &&& numeric(b) && number(b) == max
                &&& numeric(c) && number(c) == max - 1
                &&& r@ == #[trigger] range_text(a, b, c)
            },
{
    if let WizardError::OutOfRange(n, max) = e {
        lemma_decimal_reads(n as nat);
        lemma_decimal_reads(max as nat);
        lemma_decimal_reads((max - 1) as nat);
        assert(r@ == range_text(decimal(n as nat), decimal(max as nat), decimal((max - 1) as nat)));
    }
}

/// What is said of a choice out of range, from its numbers.
pub open spec fn range_text(a: Seq<char>, b: Seq<char>, c: Seq<char>) -> Seq<char> {
    "choice "@ + a + " is out of range (have "@ + b + " candidates, indices 0.."@ + c + ")"@
}

/// A text without line feeds that stands in neither of two texts, of which the first is
/// whole lines, does not stand in both together.
proof fn lemma_none_in_both(x: Seq<char>, y: Seq<char>, pat: Seq<char>)
    requires
        whole_lines(x),
        pat.len() > 0,
        free_of(pat, '\n'),
        !contains(x, pat),
        !contains(y, pat),
    ensures
        !contains(x + y, pat),
{
    let s = x + y;
    let n = x.len() as int;
    lemma_stands_in(s, pat);
    lemma_stands_in(x, pat);
    lemma_stands_in(y, pat);
    if stands_in(s, pat) {
        let i = choose|i: int| stands_at(s, pat, i);
        if i + pat.len() <= n {
            assert(stands_at(x, pat, i)) by {
                assert forall|k: int| 0 <= k < pat.len() implies x[i + k] == #[trigger] pat[k] by {
                    assert(s[i + k] == pat[k]);
                }
            }
        } else if i >= n {
            assert(stands_at(y, pat, i - n)) by {
                assert forall|k: int| 0 <= k < pat.len() implies y[i - n + k]
                    == #[trigger] pat[k] by {
                    assert(s[i + k] == pat[k]);
                }
            }
        } else {
            assert(s[i + (n - 1 - i)] == pat[n - 1 - i]);
        }
    }
}

/// The place of the channels stands in neither of two texts; then it stands in both
/// together only if it goes over from one to the other.
proof fn lemma_no_channels_in_both(x: Seq<char>, y: Seq<char>)
    requires
        whole_lines(x),
        !contains(x, channels_line()),
        !contains(y, channels_line()),
        !occurs_at(x, count_line(), x.len() - count_line().len()) || !starts_with(
            y,
            device_start(),
        ),
    ensures
        !contains(x + y, channels_line()),
{
    lemma_places();
    let pat = channels_line();
    let a = count_line();
    let b = device_start();
    let s = x + y;
    let n = x.len() as int;
    if contains(s, pat) {
        let i = choose|i: int| occurs_at(s, pat, i);
        lemma_stands_at(s, pat, i);
        if i + pat.len() <= n {
            assert(x.subrange(i, i + pat.len()) =~= s.subrange(i, i + pat.len()));
            assert(occurs_at(x, pat, i));
        } else if i >= n {
            assert(y.subrange(i - n, i - n + pat.len()) =~= s.subrange(i, i + pat.len()));
            assert(occurs_at(y, pat, i - n));
        } else {
            let k = n - 1 - i;
            assert(s[i + k] == pat[k]);
            assert(pat[k] == '\n');
            assert(k == a.len() - 1);
            assert(x.subrange(n - a.len(), n) =~= a) by {
                assert forall|j: int| 0 <= j < a.len() implies x[n - a.len() + j] == a[j] by {
                    assert(s[i + j] == pat[j]);
                }
            }
            assert(y.subrange(0, b.len() as int) =~= b) by {
                assert forall|j: int| 0 <= j < b.len() implies y[j] == b[j] by {
                    assert(s[i + (a.len() + j)] == pat[a.len() + j]);
                }
            }
        }
    }
}

proof fn lemma_rate_line_keeps_off(d: Seq<char>, hz: nat)
    requires
        d == decimal(hz),
    ensures
        ({
            let r = "samplerate: 48000           # raise to your DAC's preferred rate (96000, etc.)\n"@;
            &&& whole_lines(r)
            &&& !contains(r, dac_line()) && !contains(r, channels_line()) && !contains(
                r,
                capture_rate(),
            )
            &&& r.len() > 1 && r[r.len() - 2] == ')'
        }),
        ({
            let c = "capture_samplerate: 48000\n"@;
            &&& whole_lines(c)
            &&& !contains(c, dac_line()) && !contains(c, channels_line()) && !contains(c, rate_line())
            &&& c.len() > 1 && c[c.len() - 2] == '0'
        }),
        ({
            let out = "capture_samplerate: "@ + d + "\n"@;
            &&& whole_lines(out)
            &&& !contains(out, rate_line())
        }),
{
    lemma_decimal_reads(hz);
    lemma_place_marks();
    lemma_rate_line_alone();
    lemma_capture_line_alone();
    let r = "samplerate: 48000           # raise to your DAC's preferred rate (96000, etc.)\n"@;
    let c = "capture_samplerate: 48000\n"@;
    lemma_cannot_stand(r, dac_line(), 34);
    lemma_cannot_stand(r, channels_line(), 29);
    lemma_cannot_stand(r, capture_rate(), 7);
    lemma_cannot_stand(c, dac_line(), 34);
    lemma_cannot_stand(c, channels_line(), 29);
    reveal_strlit(
        "samplerate: 48000           # raise to your DAC's preferred rate (96000, etc.)\n",
    );
    reveal_strlit("capture_samplerate: 48000\n");
    reveal_strlit("\n");
    assert(free_of(c, '#'));
    lemma_cannot_stand(c, rate_line(), 28);
    let f = "capture_samplerate: "@;
    let out = f + d + "\n"@;
    assert forall|k: int| 0 <= k < out.len() implies #[trigger] out[k] != '#' by {
        if k < f.len() {
            assert(out[k] == f[k]);
        } else if k < f.len() + d.len() {
            assert(out[k] == d[k - f.len()]);
            assert('0' <= d[k - f.len()] <= '9');
        }
    }
    lemma_cannot_stand(out, rate_line(), 28);
}

proof fn lemma_no_place(s: Seq<char>)
    requires
        without_places(s),
    ensures
        no_place_in(s),
{
    lemma_stands_in(s, dac_line());
    lemma_stands_in(s, channels_line());
    lemma_stands_in(s, capture_rate());
    lemma_stands_in(s, rate_line());
}

proof fn lemma_lines_join(x: Seq<char>, y: Seq<char>)
    requires
        whole_lines(x),
        whole_lines(y),
    ensures
        whole_lines(x + y),
{
    if y.len() > 0 {
        assert((x + y).last() == y.last());
    } else {
        assert(x + y =~= x);
    }
}

proof fn lemma_patterns_are_lines()
    ensures
        free_of(dac_line(), '\n') && dac_line().len() > 0,
        free_of(capture_rate(), '\n') && capture_rate().len() > 0,
        free_of(rate_line(), '\n') && rate_line().len() > 0,
{
    lemma_places();
    assert forall|k: int| 0 <= k < dac_line().len() implies #[trigger] dac_line()[k] != '\n' by {}
    assert forall|k: int| 0 <= k < capture_rate().len() implies #[trigger] capture_rate()[k]
        != '\n' by {}
    assert forall|k: int| 0 <= k < rate_line().len() implies #[trigger] rate_line()[k] != '\n' by {}
}

/// Lines before the place of the channels: behind a line that is not `channels: 2`, a
/// text ends with `channels: 2` only if it does so itself.
proof fn lemma_count_is_not_cut(x: Seq<char>, y: Seq<char>)
    requires
        x.len() > 1,
        x[x.len() - 1] == '\n',
        x[x.len() - 2] != '2',
        !occurs_at(y, count_line(), y.len() - count_line().len()),
    ensures
        !occurs_at(x + y, count_line(), (x + y).len() - count_line().len()),
{
    reveal_strlit("channels: 2\n");
    let s = x + y;
    let a = count_line();
    assert(a.len() == 12);
    let i = s.len() - 12;
    if occurs_at(s, a, i) {
        lemma_stands_at(s, a, i);
        if y.len() >= 12 {
            assert(y.subrange(y.len() - 12, y.len() as int) =~= s.subrange(i, i + 12));
        } else if y.len() > 0 {
            let k = x.len() - 1 - i;
            assert(s[i + k] == a[k]);
            assert(a[k] != '\n');
        } else {
            assert(s[i + 10] == a[10]);
        }
    }
}

/// The whole of a template: the rate, the rate of the capture, and the channels and the
/// card of the playback are filled in, each in its place, and every other line is kept.
pub proof fn law_whole_template_is_filled_in(
    template: &str,
    card: &Card,
    channels: u16,
    rate: u32,
    yaml: String,
    h0: Seq<char>,
    h1: Seq<char>,
    h2: Seq<char>,
    h3: Seq<char>,
)
    requires
        call_ensures(render, (template, card, channels, rate), yaml),
        template@ == h0
            + "samplerate: 48000           # raise to your DAC's preferred rate (96000, etc.)\n"@ + h1
            + "capture_samplerate: 48000\n"@ + h2
            + "channels: 2\n  device: hw:CARD=YourDAC,DEV=0   # ← change to your DAC card name\n"@
            + h3,
        without_places(h0) && without_places(h1) && without_places(h2) && without_places(h3),
        h0.len() > 0 ==> h0[h0.len() - 1] == '\n',
        h1.len() > 0 ==> h1[h1.len() - 1] == '\n',
        h2.len() > 0 ==> h2[h2.len() - 1] == '\n',
        !stands_at(h2, "channels: 2\n"@, h2.len() - 12),
        !stands_at(h3, "  device: hw:CARD="@, 0),
        forall|n: Seq<char>, i: Seq<char>|
            numeric(n) && numeric(i) ==> !stands_in(
                #[trigger] device_part(n, card.id@, i, card.name@),
                "samplerate: 48000"@,
            ),
    ensures
        exists|d: Seq<char>, n: Seq<char>, i: Seq<char>|
            {
                &&& numeric(d) && number(d) == rate
                &&& numeric(n) && number(n) == channels
                &&& numeric(i) && number(i) == card.index
                &&& yaml@ == h0 + #[trigger] rate_part(d) + h1 + ("capture_samplerate: "@ + d + "\n"@)
                    + h2 + #[trigger] device_part(n, card.id@, i, card.name@) + h3
            },
{
    let c = card@;
    let ch = channels as nat;
    let hz = rate as nat;
    let d = decimal(hz);
    lemma_decimal_reads(hz);
    lemma_decimal_reads(ch);
    lemma_decimal_reads(c.index);
    lemma_no_place(h0);
    lemma_no_place(h1);
    lemma_no_place(h2);
    lemma_no_place(h3);
    reveal_strlit("channels: 2\n");
    assert(count_line().len() == 12);
    lemma_stands_at(h2, count_line(), h2.len() - 12);
    lemma_stands_at(h3, device_start(), 0);
    let out = device_part(decimal(ch), c.id, decimal(c.index), c.name);
    assert(!stands_in(out, "samplerate: 48000"@));
    lemma_whole_template(h0, h1, h2, h3, c, ch, hz);
    let r = "samplerate: 48000           # raise to your DAC's preferred rate (96000, etc.)\n"@;
    let p = "capture_samplerate: 48000\n"@;
    let m =
        "channels: 2\n  device: hw:CARD=YourDAC,DEV=0   # ← change to your DAC card name\n"@;
    assert(template@ == h0 + r + h1 + p + h2 + m + h3);
    assert(yaml@ == h0 + rate_part(d) + h1 + ("capture_samplerate: "@ + d + "\n"@) + h2 + out + h3);
}

/// The part of the generated file that sets the rate.
pub open spec fn rate_part(rate: Seq<char>) -> Seq<char> {
    "samplerate: "@ + rate + "           # auto-set by `pi-receiver init`\n"@
}

proof fn lemma_whole_template(
    h0: Seq<char>,
    h1: Seq<char>,
    h2: Seq<char>,
    h3: Seq<char>,
    c: CardView,
    ch: nat,
    hz: nat,
)
    requires
        whole_lines(h0) && whole_lines(h1) && whole_lines(h2),
        no_place_in(h0) && no_place_in(h1) && no_place_in(h2) && no_place_in(h3),
        !occurs_at(h2, count_line(), h2.len() - count_line().len()),
        !starts_with(h3, device_start()),
        !stands_in(device_part(decimal(ch), c.id, decimal(c.index), c.name), "samplerate: 48000"@),
    ensures
        rendered(
            h0 + "samplerate: 48000           # raise to your DAC's preferred rate (96000, etc.)\n"@
                + h1 + "capture_samplerate: 48000\n"@ + h2
                + "channels: 2\n  device: hw:CARD=YourDAC,DEV=0   # ← change to your DAC card name\n"@
                + h3,
            c,
            ch,
            hz,
        ) == h0 + rate_part(decimal(hz)) + h1 + ("capture_samplerate: "@ + decimal(hz) + "\n"@) + h2
            + device_part(decimal(ch), c.id, decimal(c.index), c.name) + h3,
{
    let r = "samplerate: 48000           # raise to your DAC's preferred rate (96000, etc.)\n"@;
    let p = "capture_samplerate: 48000\n"@;
    let m =
        "channels: 2\n  device: hw:CARD=YourDAC,DEV=0   # ← change to your DAC card name\n"@;
    let d = decimal(hz);
    let out = device_part(decimal(ch), c.id, decimal(c.index), c.name);
    let q = "capture_samplerate: "@ + d + "\n"@;
    lemma_rate_line_keeps_off(d, hz);
    lemma_device_place();
    lemma_device_part(c, ch, hz);
    lemma_rate_part(c, ch, hz);
    lemma_capture_part(c, ch, hz);
    lemma_first_characters();
    lemma_before_device(h0, r, h1, p, h2);
    let x = h0 + r + h1 + p + h2;
    lemma_fill_device(x, m, h3, c, ch, out);
    let t1 = replace_all(x + m + h3, dac_line(), card_line(c));
    let t2 = replace_first(t1, channels_line(), new_channels_line(ch));
    assert(t2 == x + out + h3);
    lemma_fill_capture(h0, r, h1, p, h2, out, h3, q, "capture_samplerate: "@ + d);
    lemma_fill_rate(h0, r, h1, q, h2, out, h3, rate_part(d), new_rate_line(hz));
}

/// The lines before the place of the device hold neither it nor that of the channels.
#[verifier::rlimit(40)]
proof fn lemma_before_device(
    h0: Seq<char>,
    r: Seq<char>,
    h1: Seq<char>,
    p: Seq<char>,
    h2: Seq<char>,
)
    requires
        whole_lines(h0) && whole_lines(r) && whole_lines(h1) && whole_lines(p) && whole_lines(h2),
        no_place_in(h0) && no_place_in(h1) && no_place_in(h2),
        !contains(r, dac_line()) && !contains(r, channels_line()),
        !contains(p, dac_line()) && !contains(p, channels_line()),
        !starts_with(r, device_start()) && !starts_with(p, device_start()),
        r.len() > 1 && r[r.len() - 2] != '2',
        p.len() > 1 && p[p.len() - 2] != '2',
        !occurs_at(h2, count_line(), h2.len() - count_line().len()),
    ensures
        ({
            let x = h0 + r + h1 + p + h2;
            &&& whole_lines(x)
            &&& !contains(x, dac_line())
            &&& !contains(x, channels_line())
            &&& !occurs_at(x, count_line(), x.len() - count_line().len())
        }),
{
    let x1 = h0 + r;
    let x2 = x1 + h1;
    let x3 = x2 + p;
    lemma_patterns_are_lines();
    lemma_lines_join(h0, r);
    lemma_lines_join(x1, h1);
    lemma_lines_join(x2, p);
    lemma_lines_join(x3, h2);
    lemma_none_in_both(h0, r, dac_line());
    lemma_none_in_both(x1, h1, dac_line());
    lemma_none_in_both(x2, p, dac_line());
    lemma_none_in_both(x3, h2, dac_line());
    lemma_count_after(x1, h0, r);
    lemma_count_after(x3, x2, p);
    lemma_no_channels_in_both(h0, r);
    lemma_no_channels_in_both(x1, h1);
    lemma_no_channels_in_both(x2, p);
    lemma_no_channels_in_both(x3, h2);
    assert(x3[x3.len() - 1] == p[p.len() - 1] && x3[x3.len() - 2] == p[p.len() - 2]);
    lemma_count_is_not_cut(x3, h2);
}

#[verifier::rlimit(40)]
proof fn lemma_fill_device(
    x: Seq<char>,
    m: Seq<char>,
    h3: Seq<char>,
    c: CardView,
    ch: nat,
    out: Seq<char>,
)
    requires
        whole_lines(x) && whole_lines(m),
        !contains(x, dac_line()),
        !contains(x, channels_line()),
        !occurs_at(x, count_line(), x.len() - count_line().len()),
        no_place_in(h3),
        !starts_with(h3, device_start()),
        replace_first(
            replace_all(m, dac_line(), card_line(c)),
            channels_line(),
            new_channels_line(ch),
        ) == out,
    ensures
        replace_first(
            replace_all(x + m + h3, dac_line(), card_line(c)),
            channels_line(),
            new_channels_line(ch),
        ) == x + out + h3,
{
    lemma_places();
    let none = Seq::<char>::empty();
    let m1 = replace_all(m, dac_line(), card_line(c));
    assert(x + m + h3 =~= x + (m + h3));
    lemma_tail_kept(m, h3, dac_line(), none, none, card_line(c));
    lemma_head_kept(x, m + h3, dac_line(), none, none, card_line(c));
    lemma_tail_kept(m1, h3, channels_line(), count_line(), device_start(), new_channels_line(ch));
    lemma_head_kept(
        x,
        m1 + h3,
        channels_line(),
        count_line(),
        device_start(),
        new_channels_line(ch),
    );
    assert(x + out + h3 =~= x + (out + h3));
}

#[verifier::rlimit(40)]
proof fn lemma_fill_capture(
    h0: Seq<char>,
    r: Seq<char>,
    h1: Seq<char>,
    p: Seq<char>,
    h2: Seq<char>,
    out: Seq<char>,
    h3: Seq<char>,
    q: Seq<char>,
    to: Seq<char>,
)
    requires
        whole_lines(h0) && whole_lines(r) && whole_lines(h1) && whole_lines(p) && whole_lines(h2)
            && whole_lines(out),
        no_place_in(h0) && no_place_in(h1) && no_place_in(h2) && no_place_in(h3),
        !contains(r, capture_rate()) && !contains(out, capture_rate()),
        replace_all(p, capture_rate(), to) == q,
    ensures
        replace_all(h0 + r + h1 + p + h2 + out + h3, capture_rate(), to) == h0 + r + h1 + q + h2
            + out + h3,
{
    lemma_places();
    lemma_patterns_are_lines();
    let none = Seq::<char>::empty();
    let y = h0 + r + h1;
    let tail = h2 + (out + h3);
    lemma_lines_join(h0, r);
    lemma_lines_join(h0 + r, h1);
    lemma_none_in_both(h0, r, capture_rate());
    lemma_none_in_both(h0 + r, h1, capture_rate());
    lemma_none_in_both(out, h3, capture_rate());
    lemma_none_in_both(h2, out + h3, capture_rate());
    assert(h0 + r + h1 + p + h2 + out + h3 =~= y + (p + tail));
    lemma_tail_kept(p, tail, capture_rate(), none, none, to);
    lemma_head_kept(y, p + tail, capture_rate(), none, none, to);
    assert(h0 + r + h1 + q + h2 + out + h3 =~= y + (q + tail));
}

#[verifier::rlimit(40)]
proof fn lemma_fill_rate(
    h0: Seq<char>,
    r: Seq<char>,
    h1: Seq<char>,
    q: Seq<char>,
    h2: Seq<char>,
    out: Seq<char>,
    h3: Seq<char>,
    new: Seq<char>,
    to: Seq<char>,
)
    requires
        whole_lines(h0) && whole_lines(r) && whole_lines(h1) && whole_lines(q) && whole_lines(h2)
            && whole_lines(out),
        no_place_in(h0) && no_place_in(h1) && no_place_in(h2) && no_place_in(h3),
        !contains(q, rate_line()) && !contains(out, rate_line()),
        replace_all(r, rate_line(), to) == new,
    ensures
        replace_all(h0 + r + h1 + q + h2 + out + h3, rate_line(), to) == h0 + new + h1 + q + h2 + out
            + h3,
{
    lemma_places();
    lemma_patterns_are_lines();
    let none = Seq::<char>::empty();
    let tail = h2 + (out + h3);
    let behind = h1 + (q + tail);
    lemma_none_in_both(out, h3, rate_line());
    lemma_none_in_both(h2, out + h3, rate_line());
    lemma_none_in_both(q, tail, rate_line());
    lemma_none_in_both(h1, q + tail, rate_line());
    assert(h0 + r + h1 + q + h2 + out + h3 =~= h0 + (r + behind));
    lemma_tail_kept(r, behind, rate_line(), none, none, to);
    lemma_head_kept(h0, r + behind, rate_line(), none, none, to);
    assert(h0 + new + h1 + q + h2 + out + h3 =~= h0 + (new + behind));
}

proof fn lemma_first_characters()
    ensures
        !starts_with(
            "samplerate: 48000           # raise to your DAC's preferred rate (96000, etc.)\n"@,
            device_start(),
        ),
        !starts_with("capture_samplerate: 48000\n"@, device_start()),
{
    reveal_strlit("  device: hw:CARD=");
    reveal_strlit(
        "samplerate: 48000           # raise to your DAC's preferred rate (96000, etc.)\n",
    );
    reveal_strlit("capture_samplerate: 48000\n");
    let r = "samplerate: 48000           # raise to your DAC's preferred rate (96000, etc.)\n"@;
    let p = "capture_samplerate: 48000\n"@;
    lemma_stands_at(r, device_start(), 0);
    lemma_stands_at(p, device_start(), 0);
    if stands_at(r, device_start(), 0) {
        assert(r[0int + 0int] == device_start()[0]);
    }
    if stands_at(p, device_start(), 0) {
        assert(p[0int + 0int] == device_start()[0]);
    }
}

/// A text whose last line does not end with `2` does not end with `channels: 2`.
proof fn lemma_count_after(s: Seq<char>, x: Seq<char>, y: Seq<char>)
    requires
        s == x + y,
        y.len() > 1,
        y[y.len() - 2] != '2',
    ensures
        !occurs_at(s, count_line(), s.len() - count_line().len()),
{
    reveal_strlit("channels: 2\n");
    let i = s.len() - 12;
    lemma_stands_at(s, count_line(), i);
    if stands_at(s, count_line(), i) {
        assert(s[i + 10] == count_line()[10]);
        assert(s[i + 10] == y[y.len() - 2]);
    }
}

} // verus!
