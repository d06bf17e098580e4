//! Bytes and texts read one by one: what a byte, a character or a digit stands for
//! where it stands. The laws of the other modules say in these terms what their
//! functions do; no function is defined by them.
use vstd::prelude::*;

verus! {

/// The number at `k` in two bytes, the low one first.
pub open spec fn unsigned2(b: Seq<u8>, k: int) -> int {
    b[k] + 256 * b[k + 1]
}

/// The number at `k` in four bytes, the low one first.
pub open spec fn unsigned4(b: Seq<u8>, k: int) -> int {
    b[k] + 256 * b[k + 1] + 65536 * b[k + 2] + 16777216 * b[k + 3]
}

/// The number at `k` in two bytes, the low one first, whose top bit counts negative.
pub open spec fn signed2(b: Seq<u8>, k: int) -> int {
    unsigned2(b, k) - if b[k + 1] >= 128 {
        65536int
    } else {
        0
    }
}

/// The number at `k` in four bytes, the low one first, whose top bit counts negative.
pub open spec fn signed4(b: Seq<u8>, k: int) -> int {
    unsigned4(b, k) - if b[k + 3] >= 128 {
        4294967296int
    } else {
        0
    }
}

/// The distance of a number from zero.
pub open spec fn distance(x: int) -> int {
    if x >= 0 {
        x
    } else {
        -x
    }
}

/// The same character, or the capital and the small form of one ASCII letter.
pub open spec fn twins(c: char, d: char) -> bool {
    ||| c == d
    ||| 'A' <= c <= 'Z' && d as int == c as int + 32
    ||| 'A' <= d <= 'Z' && c as int == d as int + 32
}

/// The same text but for the case of ASCII letters.
pub open spec fn alike(a: Seq<char>, b: Seq<char>) -> bool {
    &&& a.len() == b.len()
    &&& forall|k: int| 0 <= k < a.len() ==> twins(#[trigger] a[k], b[k])
}

/// The characters of `pat` stand in `s` from position `i` on.
pub open spec fn stands_at(s: Seq<char>, pat: Seq<char>, i: int) -> bool {
    &&& 0 <= i <= s.len() - pat.len()
    &&& forall|k: int| 0 <= k < pat.len() ==> s[i + k] == #[trigger] pat[k]
}

/// The characters of `pat` stand in `s` from some position on.
pub open spec fn stands_in(s: Seq<char>, pat: Seq<char>) -> bool {
    exists|i: int| stands_at(s, pat, i)
}

/// The characters of `pat` stand in `s` from position `i` on, in either case.
pub open spec fn spelled_at(s: Seq<char>, pat: Seq<char>, i: int) -> bool {
    &&& 0 <= i <= s.len() - pat.len()
    &&& forall|k: int| 0 <= k < pat.len() ==> twins(s[i + k], #[trigger] pat[k])
}

/// The characters of `pat` stand in `s` from some position on, in either case.
pub open spec fn spelled_in(s: Seq<char>, pat: Seq<char>) -> bool {
    exists|i: int| spelled_at(s, pat, i)
}

/// The text holds no ASCII capital.
pub open spec fn no_capital(s: Seq<char>) -> bool {
    forall|k: int| 0 <= k < s.len() ==> !('A' <= #[trigger] s[k] <= 'Z')
}

/// White space: tab to carriage return, the blank, and what Unicode adds.
pub open spec fn white(c: char) -> bool {
    ||| '\u{9}' <= c <= '\u{d}'
    ||| c == ' ' || c == '\u{85}' || c == '\u{a0}' || c == '\u{1680}'
    ||| '\u{2000}' <= c <= '\u{200a}'
    ||| c == '\u{2028}' || c == '\u{2029}' || c == '\u{202f}' || c == '\u{205f}' || c == '\u{3000}'
}

/// The text is white space throughout.
pub open spec fn all_white(s: Seq<char>) -> bool {
    forall|k: int| 0 <= k < s.len() ==> white(#[trigger] s[k])
}

/// The text neither begins nor ends with white space.
pub open spec fn bare(s: Seq<char>) -> bool {
    s.len() > 0 ==> !white(s[0]) && !white(s[s.len() - 1])
}

/// The text has the character nowhere.
pub open spec fn free_of(s: Seq<char>, c: char) -> bool {
    forall|k: int| 0 <= k < s.len() ==> #[trigger] s[k] != c
}

/// The text is digits, and there is at least one.
pub open spec fn numeric(s: Seq<char>) -> bool {
    &&& s.len() > 0
    &&& forall|k: int| 0 <= k < s.len() ==> '0' <= #[trigger] s[k] <= '9'
}

/// The number that digits stand for: each is worth ten times the one behind it.
pub open spec fn number(s: Seq<char>) -> int
    decreases s.len(),
{
    if s.len() == 0 {
        0
    } else {
        10 * number(s.drop_last()) + (s.last() as int - '0' as int)
    }
}

} // verus!
