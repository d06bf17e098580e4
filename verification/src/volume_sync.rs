//! Keeping CamillaDSP's volume in step with that of the virtual output: which
//! lines of `pactl subscribe` matter, and where the decibels stand in the output
//! of `pactl get-sink-volume`.
use vstd::prelude::*;

use crate::plain::{stands_at, stands_in};
use crate::text::{
    chars_of, found_at, lemma_stands_at, lemma_stands_in, lemma_strip_back, split_words, starts_with, string_of, strip_back, text_has, texts, views,
    without_back, words,
};

verus! {

/// How long to wait before subscribing again after a failure.
pub const RETRY_MS: u64 = 1000;

/// What to do with a line of `pactl subscribe`.
#[derive(Debug, Clone, Copy, PartialEq, Eq, Structural)]
pub enum LineStep {
    /// End the subscription.
    Stop,
    /// Go on to the next line.
    Ignore,
    /// Read the volume of the sink and pass it on.
    Sync,
}

/// A line that could be read, or `None`, and whether the program is asked to
/// stop: every change of a sink counts, whichever sink it is.
pub fn run_subscribe_loop(stop: bool, line: Option<&str>) -> (step: LineStep)
    ensures
        step == if stop {
            LineStep::Stop
        } else {
            match line {
                Some(l) => if crate::text::contains(l@, "change' on sink"@) {
                    LineStep::Sync
                } else {
                    LineStep::Ignore
                },
                None => LineStep::Ignore,
            }
        },
{
    if stop {
        return LineStep::Stop;
    }
    match line {
        Some(l) => if text_has(l, "change' on sink") {
            LineStep::Sync
        } else {
            LineStep::Ignore
        },
        None => LineStep::Ignore,
    }
}

/// The words that stand before a word beginning with `dB`, without the commas
/// that they end with.
pub open spec fn db_tokens(words: Seq<Seq<char>>) -> Seq<Seq<char>>
    decreases words.len(),
{
    if words.len() < 2 {
        Seq::empty()
    } else {
        let before = db_tokens(words.drop_last());
        if starts_with(words.last(), "dB"@) {
            before.push(strip_back(words[words.len() - 2], ","@))
        } else {
            before
        }
    }
}

/// The texts in the output of `pactl` that stand for decibels, in order.
pub fn parse_db(text: &str) -> (r: Vec<String>)
    ensures
        texts(r@) == db_tokens(words(text@)),
{
    let found = split_words(&chars_of(text));
    let n: usize = found.len();
    let unit = chars_of("dB");
    let comma = chars_of(",");
    let mut r: Vec<String> = Vec::new();
    let ghost all = views(found@);
    assert(all.len() == n);
    assert(texts(r@) =~= db_tokens(all.take(0)));
    for i in 0..n
        invariant
            n == found@.len(),
            all == views(found@),
            unit@ == "dB"@,
            comma@ == ","@,
            texts(r@) == db_tokens(all.take(i as int)),
    {
        let ghost before = r@;
        let ghost next = all.take(i + 1);
        assert(next.drop_last() =~= all.take(i as int));
        assert(next.last() == found@[i as int]@);
        if i > 0 && found_at(&found[i], &unit, 0) {
            assert(next[next.len() - 2] == found@[i - 1]@);
            let token = string_of(&without_back(&found[i - 1], &comma));
            let ghost t = token@;
            r.push(token);
            assert(texts(r@) =~= texts(before).push(t));
        }
    }
    assert(all.take(n as int) =~= all);
    r
}

/// The subscription ends exactly if the program is asked to stop. Else the volume is read
/// exactly after a line in which `change' on sink` stands, wherever it stands.
pub proof fn law_sink_changes_are_followed(stop: bool, line: Option<&str>, step: LineStep)
    requires
        call_ensures(run_subscribe_loop, (stop, line), step),
    ensures
        step is Stop <==> stop,
        step is Sync <==> !stop && line is Some && stands_in(line->0@, "change' on sink"@),
{
    if line is Some {
        lemma_stands_in(line->0@, "change' on sink"@);
    }
}

/// The token is the word without the commas that it ends with.
pub open spec fn without_commas(token: Seq<char>, word: Seq<char>) -> bool {
    &&& token.len() <= word.len()
    &&& word.take(token.len() as int) == token
    &&& forall|k: int| token.len() <= k < word.len() ==> #[trigger] word[k] == ','
    &&& token.len() > 0 ==> token[token.len() - 1] != ','
}

/// The decibels are the words before a word that begins with `dB`, in order and without
/// the commas that they end with: one more word at the end of a text adds the one before
/// it if it begins so, and nothing else.
pub proof fn law_decibels_stand_before_their_unit(
    short: &str,
    long: &str,
    short_chars: &[char],
    long_chars: &[char],
    a: Vec<Vec<char>>,
    b: Vec<Vec<char>>,
    r: Vec<String>,
    s: Vec<String>,
)
    requires
        call_ensures(parse_db, (short,), r),
        call_ensures(parse_db, (long,), s),
        short_chars@ == short@,
        long_chars@ == long@,
        call_ensures(split_words, (short_chars,), a),
        call_ensures(split_words, (long_chars,), b),
    ensures
        a@.len() == 0 ==> r@.len() == 0,
        b@.len() == a@.len() + 1 && (forall|i: int|
            0 <= i < a@.len() ==> (#[trigger] b@[i])@ == a@[i]@) ==> {
            let unit = a@.len() > 0 && stands_at(b@[a@.len() as int]@, "dB"@, 0);
            &&& s@.len() == r@.len() + if unit {
                1int
            } else {
                0
            }
            &&& forall|i: int| 0 <= i < r@.len() ==> (#[trigger] s@[i])@ == r@[i]@
            &&& unit ==> without_commas(s@[r@.len() as int]@, a@[a@.len() - 1]@)
        },
{
    let va = views(a@);
    let vb = views(b@);
    let vr = texts(r@);
    let vs = texts(s@);
    assert(va == words(short@) && vb == words(long@));
    assert(va.len() == a@.len() && vb.len() == b@.len());
    assert(vr.len() == r@.len() && vs.len() == s@.len());
    if b@.len() == a@.len() + 1 && (forall|i: int|
        0 <= i < a@.len() ==> (#[trigger] b@[i])@ == a@[i]@) {
        let n = a@.len() as int;
        assert(vb.drop_last() =~= va) by {
            assert forall|i: int| 0 <= i < n implies vb[i] == va[i] by {
                assert(b@[i]@ == a@[i]@);
            }
        }
        assert(vb.last() == b@[n]@);
        lemma_stands_at(b@[n]@, "dB"@, 0);
        assert forall|i: int| 0 <= i < r@.len() implies (#[trigger] s@[i])@ == r@[i]@ by {
            assert(vs[i] == s@[i]@ && vr[i] == r@[i]@);
            if n == 0 {
                assert(vr.len() == 0);
            }
        }
        if n > 0 && stands_at(b@[n]@, "dB"@, 0) {
            let word = a@[n - 1]@;
            assert(vb[n - 1] == word);
            reveal_strlit(",");
            lemma_strip_back(word, ","@);
            let token = strip_back(word, ","@);
            assert(vs == vr.push(token));
            assert(vs[r@.len() as int] == s@[r@.len() as int]@);
            assert forall|k: int| token.len() <= k < word.len() implies #[trigger] word[k]
                == ',' by {
                assert(word[k] == ","@[(k - token.len()) % 1]);
                assert((k - token.len()) % 1 == 0);
            }
            if token.len() > 0 && token[token.len() - 1] == ',' {
                assert(stands_at(token, ","@, token.len() - 1));
            }
        }
    }
}

} // verus!
