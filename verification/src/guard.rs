//! The speaker-protection guard.
//!
//! The DAC must always be reached through CamillaDSP and its limiters and
//! crossovers, never directly. So the receiver only ever opens the ALSA loopback
//! that feeds CamillaDSP: the device string must name the loopback, and must
//! match none of the patterns that could lead anywhere else.
use vstd::prelude::*;

use crate::plain::{spelled_at, spelled_in, stands_at, stands_in};
use crate::text::{
    chars_of, contains, found_at, holds, lemma_spelled_at, lemma_spelled_in, lowercase, starts_with,
    to_lower,
};

verus! {

/// Why a device is refused.
#[derive(Debug, Clone, Copy, PartialEq, Eq, Structural)]
pub enum Refusal {
    /// It matches the banned pattern with this number.
    Banned(usize),
    /// It is a `plug*` device, which converts formats silently.
    Plug,
    /// It does not name the loopback.
    NotLoopback,
}

/// What no device string may hold: names of DAC cards, and ALSA aliases that
/// route anywhere.
pub open spec fn banned_patterns() -> Seq<Seq<char>> {
    seq![
        "hifiberry"@,
        "dac"@,
        "sndrpi"@,
        "default"@,
        "null"@,
        "sysdefault"@,
        "pulse"@,
        "pipewire"@,
    ]
}

/// The number of banned patterns.
pub const BANNED: usize = 8;

/// Banned pattern `i`.
pub fn banned_pattern(i: usize) -> (r: &'static str)
    requires
        i < BANNED,
    ensures
        r@ == banned_patterns()[i as int],
{
    match i {
        0 => "hifiberry",
        1 => "dac",
        2 => "sndrpi",
        3 => "default",
        4 => "null",
        5 => "sysdefault",
        6 => "pulse",
        _ => "pipewire",
    }
}

/// The first banned pattern, from `i` on, that `lower` holds.
pub open spec fn first_banned(lower: Seq<char>, i: int) -> Option<usize>
    decreases BANNED - i,
{
    if i < 0 || i >= BANNED {
        None
    } else if contains(lower, banned_patterns()[i]) {
        Some(i as usize)
    } else {
        first_banned(lower, i + 1)
    }
}

/// What the guard says of a device string.
pub open spec fn verdict(device: Seq<char>) -> Result<(), Refusal> {
    let lower = lowercase(device);
    if first_banned(lower, 0) is Some {
        Err(Refusal::Banned(first_banned(lower, 0)->0))
    } else if starts_with(lower, "plug"@) {
        Err(Refusal::Plug)
    } else if !contains(lower, "loopback"@) {
        Err(Refusal::NotLoopback)
    } else {
        Ok(())
    }
}

/// Refuses every device but an ALSA loopback.
pub fn enforce_loopback_only(device: &str) -> (r: Result<(), Refusal>)
    ensures
        r == verdict(device@),
        r matches Err(Refusal::Banned(i)) ==> i < BANNED,
{
    let lower = to_lower(&chars_of(device));
    for i in 0..BANNED
        invariant
            lower@ == lowercase(device@),
            first_banned(lower@, 0) == first_banned(lower@, i as int),
    {
        let needle = chars_of(banned_pattern(i));
        if holds(&lower, &needle) {
            return Err(Refusal::Banned(i));
        }
    }
    if found_at(&lower, &chars_of("plug"), 0) {
        return Err(Refusal::Plug);
    }
    if !holds(&lower, &chars_of("loopback")) {
        return Err(Refusal::NotLoopback);
    }
    Ok(())
}

/// What the user is told of a refusal.
pub open spec fn refusal_text(device: Seq<char>, why: Refusal) -> Seq<char> {
    "refusing to open `"@ + device + "`: "@ + match why {
        Refusal::Banned(i) => "matches banned pattern `"@ + banned_patterns()[i as int]
            + "`. The bridge only writes to ALSA loopback devices so audio always passes through CamillaDSP (limiters/crossovers)."@,
        Refusal::Plug =>
        "`plug*` devices silently insert ALSA format conversion that bypasses our format negotiation. Use a raw `hw:Loopback,0,0` device instead."@,
        Refusal::NotLoopback =>
        "device string must contain `loopback` (case-insensitive). The bridge is hard-locked to ALSA loopback so audio always passes through CamillaDSP. If you need to debug, edit pi-receiver's source — there is no CLI escape hatch on purpose."@,
    }
}

/// What to tell the user of a refusal.
pub fn explain(device: &str, why: Refusal) -> (r: String)
    requires
        why matches Refusal::Banned(i) ==> i < BANNED,
    ensures
        r@ == refusal_text(device@, why),
{
    let mut r: String = "refusing to open `".to_owned();
    r.append(device);
    r.append("`: ");
    match why {
        Refusal::Banned(i) => {
            let mut reason: String = "matches banned pattern `".to_owned();
            reason.append(banned_pattern(i));
            reason.append(
                "`. The bridge only writes to ALSA loopback devices so audio always passes through CamillaDSP (limiters/crossovers).",
            );
            r.append(reason.as_str());
        },
        Refusal::Plug => {
            r.append(
                "`plug*` devices silently insert ALSA format conversion that bypasses our format negotiation. Use a raw `hw:Loopback,0,0` device instead.",
            );
        },
        Refusal::NotLoopback => {
            r.append(
                "device string must contain `loopback` (case-insensitive). The bridge is hard-locked to ALSA loopback so audio always passes through CamillaDSP. If you need to debug, edit pi-receiver's source — there is no CLI escape hatch on purpose.",
            );
        },
    }
    r
}

proof fn lemma_first_banned(lower: Seq<char>, from: int)
    requires
        0 <= from <= BANNED,
    ensures
        first_banned(lower, from) is None <==> forall|j: int|
            from <= j < BANNED ==> !contains(lower, #[trigger] banned_patterns()[j]),
        first_banned(lower, from) matches Some(i) ==> from <= i < BANNED && contains(
            lower,
            banned_patterns()[i as int],
        ),
    decreases BANNED - from,
{
    if from < BANNED {
        lemma_first_banned(lower, from + 1);
        assert(contains(lower, banned_patterns()[from]) ==> first_banned(lower, from) is Some);
    }
}

/// A device passes exactly if it names the loopback, holds no banned pattern
/// and is no `plug*` device, whatever the case of its letters. There is no
/// other way past the guard.
pub proof fn law_only_the_loopback_passes(device: Seq<char>)
    ensures
        verdict(device) is Ok <==> {
            &&& contains(lowercase(device), "loopback"@)
            &&& !starts_with(lowercase(device), "plug"@)
            &&& forall|j: int|
                0 <= j < BANNED ==> !contains(lowercase(device), #[trigger] banned_patterns()[j])
        },
{
    lemma_first_banned(lowercase(device), 0);
}

/// The case of letters makes no difference to the guard.
pub proof fn law_case_makes_no_difference(a: Seq<char>, b: Seq<char>)
    requires
        lowercase(a) == lowercase(b),
    ensures
        verdict(a) == verdict(b),
{
}

/// Adding to a device string that holds a banned pattern never makes it pass.
pub proof fn law_banned_stays_banned(device: Seq<char>, before: Seq<char>, after: Seq<char>)
    requires
        verdict(device) matches Err(Refusal::Banned(_)),
    ensures
        verdict(before + device + after) matches Err(Refusal::Banned(_)),
{
    let lower = lowercase(device);
    let longer = lowercase(before + device + after);
    lemma_first_banned(lower, 0);
    let k = first_banned(lower, 0)->0 as int;
    let pat = banned_patterns()[k];
    let i = choose|i: int| crate::text::occurs_at(lower, pat, i);
    let at: int = before.len() + i;
    assert(longer.subrange(at, at + pat.len()) =~= lower.subrange(i, i + pat.len()));
    assert(crate::text::occurs_at(longer, pat, at));
    lemma_first_banned(longer, 0);
}

proof fn lemma_banned_spelling(device: Seq<char>)
    ensures
        contains(lowercase(device), banned_patterns()[0]) <==> spelled_in(device, "hifiberry"@),
        contains(lowercase(device), banned_patterns()[1]) <==> spelled_in(device, "dac"@),
        contains(lowercase(device), banned_patterns()[2]) <==> spelled_in(device, "sndrpi"@),
        contains(lowercase(device), banned_patterns()[3]) <==> spelled_in(device, "default"@),
        contains(lowercase(device), banned_patterns()[4]) <==> spelled_in(device, "null"@),
        contains(lowercase(device), banned_patterns()[5]) <==> spelled_in(device, "sysdefault"@),
        contains(lowercase(device), banned_patterns()[6]) <==> spelled_in(device, "pulse"@),
        contains(lowercase(device), banned_patterns()[7]) <==> spelled_in(device, "pipewire"@),
        contains(lowercase(device), "loopback"@) <==> spelled_in(device, "loopback"@),
        starts_with(lowercase(device), "plug"@) <==> spelled_at(device, "plug"@, 0),
{
    reveal_strlit("hifiberry");
    reveal_strlit("dac");
    reveal_strlit("sndrpi");
    reveal_strlit("default");
    reveal_strlit("null");
    reveal_strlit("sysdefault");
    reveal_strlit("pulse");
    reveal_strlit("pipewire");
    reveal_strlit("loopback");
    reveal_strlit("plug");
    lemma_spelled_in(device, "hifiberry"@);
    lemma_spelled_in(device, "dac"@);
    lemma_spelled_in(device, "sndrpi"@);
    lemma_spelled_in(device, "default"@);
    lemma_spelled_in(device, "null"@);
    lemma_spelled_in(device, "sysdefault"@);
    lemma_spelled_in(device, "pulse"@);
    lemma_spelled_in(device, "pipewire"@);
    lemma_spelled_in(device, "loopback"@);
    lemma_spelled_at(device, "plug"@, 0);
}

/// The name of a DAC, or an alias that leads anywhere, is spelled in the device string,
/// in either case.
pub open spec fn spells_danger(device: Seq<char>) -> bool {
    ||| spelled_in(device, "hifiberry"@)
    ||| spelled_in(device, "dac"@)
    ||| spelled_in(device, "sndrpi"@)
    ||| spelled_in(device, "default"@)
    ||| spelled_in(device, "null"@)
    ||| spelled_in(device, "sysdefault"@)
    ||| spelled_in(device, "pulse"@)
    ||| spelled_in(device, "pipewire"@)
}

/// A device is opened exactly if its string spells `loopback`, in either case, does not
/// begin with `plug`, and spells none of `hifiberry`, `dac`, `sndrpi`, `default`, `null`,
/// `sysdefault`, `pulse` and `pipewire`. A refusal names the first of these that it
/// spells, in that order; or else that it begins with `plug`; or else that it does not
/// spell `loopback`.
pub proof fn law_device_is_judged_by_its_spelling(device: &str, r: Result<(), Refusal>)
    requires
        call_ensures(enforce_loopback_only, (device,), r),
    ensures
        r is Ok <==> {
            &&& spelled_in(device@, "loopback"@)
            &&& !spelled_at(device@, "plug"@, 0)
            &&& !spells_danger(device@)
        },
        r matches Err(Refusal::Banned(_)) <==> spells_danger(device@),
        spelled_in(device@, "hifiberry"@) ==> r == Err::<(), Refusal>(Refusal::Banned(0)),
        spelled_in(device@, "dac"@) ==> (r matches Err(Refusal::Banned(i)) && i <= 1),
        spelled_in(device@, "sndrpi"@) ==> (r matches Err(Refusal::Banned(i)) && i <= 2),
        spelled_in(device@, "default"@) ==> (r matches Err(Refusal::Banned(i)) && i <= 3),
        spelled_in(device@, "null"@) ==> (r matches Err(Refusal::Banned(i)) && i <= 4),
        spelled_in(device@, "pulse"@) ==> (r matches Err(Refusal::Banned(i)) && i <= 6),
        spelled_in(device@, "pipewire"@) ==> (r matches Err(Refusal::Banned(i)) && i <= 7),
        r matches Err(Refusal::Banned(i)) ==> {
            &&& i == 0 ==> spelled_in(device@, "hifiberry"@)
            &&& i == 1 ==> spelled_in(device@, "dac"@)
            &&& i == 2 ==> spelled_in(device@, "sndrpi"@)
            &&& i == 3 ==> spelled_in(device@, "default"@)
            &&& i == 4 ==> spelled_in(device@, "null"@)
            &&& i == 5 ==> spelled_in(device@, "sysdefault"@)
            &&& i == 6 ==> spelled_in(device@, "pulse"@)
            &&& i >= 7 ==> i == 7 && spelled_in(device@, "pipewire"@)
        },
        r == Err::<(), Refusal>(Refusal::Plug) <==> !spells_danger(device@) && spelled_at(
            device@,
            "plug"@,
            0,
        ),
        r == Err::<(), Refusal>(Refusal::NotLoopback) <==> !spells_danger(device@) && !spelled_at(
            device@,
            "plug"@,
            0,
        ) && !spelled_in(device@, "loopback"@),
{
    lemma_verdict_spelling(device@);
}

pub proof fn lemma_verdict_spelling(device: Seq<char>)
    ensures
        verdict(device) is Ok <==> spelled_in(device, "loopback"@) && !spelled_at(
            device,
            "plug"@,
            0,
        ) && !spells_danger(device),
        verdict(device) matches Err(Refusal::Banned(_)) <==> spells_danger(device),
        verdict(device) == Err::<(), Refusal>(Refusal::Plug) <==> !spells_danger(device)
            && spelled_at(device, "plug"@, 0),
        verdict(device) == Err::<(), Refusal>(Refusal::NotLoopback) <==> !spells_danger(device)
            && !spelled_at(device, "plug"@, 0) && !spelled_in(device, "loopback"@),
        spelled_in(device, "hifiberry"@) ==> verdict(device) == Err::<(), Refusal>(
            Refusal::Banned(0),
        ),
        spelled_in(device, "dac"@) ==> (verdict(device) matches Err(Refusal::Banned(i)) && i <= 1),
        spelled_in(device, "sndrpi"@) ==> (verdict(device) matches Err(Refusal::Banned(i)) && i
            <= 2),
        spelled_in(device, "default"@) ==> (verdict(device) matches Err(Refusal::Banned(i)) && i
            <= 3),
        spelled_in(device, "null"@) ==> (verdict(device) matches Err(Refusal::Banned(i)) && i
            <= 4),
        spelled_in(device, "pulse"@) ==> (verdict(device) matches Err(Refusal::Banned(i)) && i
            <= 6),
        spelled_in(device, "pipewire"@) ==> (verdict(device) matches Err(Refusal::Banned(i)) && i
            <= 7),
        verdict(device) matches Err(Refusal::Banned(i)) ==> {
            &&& i == 0 ==> spelled_in(device, "hifiberry"@)
            &&& i == 1 ==> spelled_in(device, "dac"@)
            &&& i == 2 ==> spelled_in(device, "sndrpi"@)
            &&& i == 3 ==> spelled_in(device, "default"@)
            &&& i == 4 ==> spelled_in(device, "null"@)
            &&& i == 5 ==> spelled_in(device, "sysdefault"@)
            &&& i == 6 ==> spelled_in(device, "pulse"@)
            &&& i >= 7 ==> i == 7 && spelled_in(device, "pipewire"@)
        },
{
    lemma_banned_spelling(device);
    reveal_with_fuel(first_banned, 9);
}

/// The user is told which device is refused, and which pattern it holds if that is why.
pub proof fn law_refusal_names_the_device(device: &str, why: Refusal, r: String, pat: &str)
    requires
        call_ensures(explain, (device, why), r),
        why matches Refusal::Banned(i) ==> i < 8 && call_ensures(banned_pattern, (i,), pat),
    ensures
        stands_at(r@, "refusing to open `"@ + device@ + "`: "@, 0),
        why is Banned ==> stands_in(r@, pat@),
{
    let head = "refusing to open `"@ + device@ + "`: "@;
    assert(stands_at(r@, head, 0));
    if why is Banned {
        let a = head + "matches banned pattern `"@;
        assert(stands_at(r@, pat@, a.len() as int)) by {
            assert forall|k: int| 0 <= k < pat@.len() implies r@[a.len() + k] == #[trigger] pat@[k] by {
                assert(r@[head.len() + ("matches banned pattern `"@.len() + k)] == pat@[k]);
            }
        }
    }
}

/// The patterns that are refused, by number.
pub proof fn law_banned_patterns(i: usize, pat: &'static str)
    requires
        i < 8,
        call_ensures(banned_pattern, (i,), pat),
    ensures
        i == 0 ==> pat@ == "hifiberry"@,
        i == 1 ==> pat@ == "dac"@,
        i == 2 ==> pat@ == "sndrpi"@,
        i == 3 ==> pat@ == "default"@,
        i == 4 ==> pat@ == "null"@,
        i == 5 ==> pat@ == "sysdefault"@,
        i == 6 ==> pat@ == "pulse"@,
        i == 7 ==> pat@ == "pipewire"@,
{
}

} // verus!
