//! Text as a sequence of characters: the searching, trimming, splitting and
//! replacing that the bridge does on device names, kernel tables and replies.
use vstd::prelude::*;

use crate::plain::{
    alike, all_white, bare, free_of, no_capital, spelled_at, spelled_in, stands_at, stands_in, twins,
    white,
};

verus! {

/// `String::push`: the character ends up behind what the string held.
pub assume_specification[ String::push ](s: &mut String, c: char)
    ensures
        final(s)@ == old(s)@.push(c),
;

/// The characters of the Unicode `White_Space` property.
pub open spec fn is_space(c: char) -> bool {
    let n = c as int;
    ||| 0x09 <= n <= 0x0d
    ||| n == 0x20
    ||| n == 0x85
    ||| n == 0xa0
    ||| n == 0x1680
    ||| 0x2000 <= n <= 0x200a
    ||| n == 0x2028
    ||| n == 0x2029
    ||| n == 0x202f
    ||| n == 0x205f
    ||| n == 0x3000
}

/// Whether `c` is white space.
pub fn is_space_char(c: char) -> (r: bool)
    ensures
        r == is_space(c),
{
    let n: u32 = c as u32;
    (0x09 <= n && n <= 0x0d) || n == 0x20 || n == 0x85 || n == 0xa0 || n == 0x1680 || (0x2000 <= n
        && n <= 0x200a) || n == 0x2028 || n == 0x2029 || n == 0x202f || n == 0x205f || n == 0x3000
}

/// `A`..`Z` become `a`..`z`, every other character stays.
pub open spec fn lower_char(c: char) -> char {
    if 0x41 <= c as int <= 0x5a {
        ((c as u8) + 32u8) as u8 as char
    } else {
        c
    }
}

/// `s` with its ASCII capitals made small.
pub open spec fn lowercase(s: Seq<char>) -> Seq<char> {
    Seq::new(s.len(), |i: int| lower_char(s[i]))
}

/// `pat` stands in `s` at position `i`.
pub open spec fn occurs_at(s: Seq<char>, pat: Seq<char>, i: int) -> bool {
    &&& 0 <= i
    &&& i + pat.len() <= s.len()
    &&& s.subrange(i, i + pat.len()) == pat
}

/// `pat` stands somewhere in `s`.
pub open spec fn contains(s: Seq<char>, pat: Seq<char>) -> bool {
    exists|i: int| occurs_at(s, pat, i)
}

/// `s` begins with `pat`.
pub open spec fn starts_with(s: Seq<char>, pat: Seq<char>) -> bool {
    occurs_at(s, pat, 0)
}

/// The characters of a string.
pub fn chars_of(s: &str) -> (v: Vec<char>)
    ensures
        v@ == s@,
{
    let mut v: Vec<char> = Vec::new();
    for c in it: s.chars()
        invariant
            v@ == it.seq().take(it.index() as int),
            it.seq() == s@,
    {
        v.push(c);
    }
    v
}

/// A string of the given characters.
pub fn string_of(v: &[char]) -> (s: String)
    ensures
        s@ == v@,
{
    let mut s: String = String::new();
    let n: usize = v.len();
    for i in 0..n
        invariant
            n == v@.len(),
            s@ == v@.take(i as int),
    {
        s.push(v[i]);
        assert(v@.take(i + 1) =~= v@.take(i as int).push(v@[i as int]));
    }
    assert(v@.take(n as int) =~= v@);
    s
}

/// The characters from `from` up to `to`.
pub fn part(s: &[char], from: usize, to: usize) -> (r: Vec<char>)
    requires
        from <= to <= s@.len(),
    ensures
        r@ == s@.subrange(from as int, to as int),
{
    let mut r: Vec<char> = Vec::new();
    for i in from..to
        invariant
            from <= i <= to <= s@.len(),
            r@ == s@.subrange(from as int, i as int),
    {
        r.push(s[i]);
        assert(s@.subrange(from as int, i + 1) =~= s@.subrange(from as int, i as int).push(
            s@[i as int],
        ));
    }
    r
}

/// Whether the two character sequences are the same.
pub fn same(a: &[char], b: &[char]) -> (r: bool)
    ensures
        r == (a@ == b@),
{
    if a.len() != b.len() {
        return false;
    }
    let n: usize = a.len();
    for i in 0..n
        invariant
            n == a@.len() == b@.len(),
            forall|j: int| 0 <= j < i ==> a@[j] == b@[j],
    {
        if a[i] != b[i] {
            return false;
        }
    }
    assert(a@ =~= b@);
    true
}

/// Whether `pat` stands in `s` at `i`.
pub fn found_at(s: &[char], pat: &[char], i: usize) -> (r: bool)
    requires
        i <= s@.len(),
    ensures
        r == occurs_at(s@, pat@, i as int),
{
    if pat.len() > s.len() - i {
        return false;
    }
    let n: usize = pat.len();
    let total: usize = s.len();
    for j in 0..n
        invariant
            n == pat@.len(),
            total == s@.len(),
            i + n <= total,
            forall|k: int| 0 <= k < j ==> s@[i + k] == pat@[k],
    {
        if s[i + j] != pat[j] {
            proof {
                if occurs_at(s@, pat@, i as int) {
                    assert(s@.subrange(i as int, i + n)[j as int] == pat@[j as int]);
                }
            }
            return false;
        }
    }
    assert(s@.subrange(i as int, i + n) =~= pat@);
    true
}

/// Whether `pat` stands anywhere in `s`.
pub fn holds(s: &[char], pat: &[char]) -> (r: bool)
    ensures
        r == contains(s@, pat@),
{
    let n: usize = s.len();
    let mut i: usize = 0;
    while i <= n
        invariant
            n == s@.len(),
            i <= n + 1,
            forall|k: int| 0 <= k < i ==> !occurs_at(s@, pat@, k),
        decreases n + 1 - i,
    {
        if found_at(s, pat, i) {
            return true;
        }
        if i == n {
            return false;
        }
        i = i + 1;
    }
    false
}

/// Whether the text `s` holds the text `pat`.
pub fn text_has(s: &str, pat: &str) -> (r: bool)
    ensures
        r == contains(s@, pat@),
{
    let a = chars_of(s);
    let b = chars_of(pat);
    holds(&a, &b)
}

/// One character with its ASCII capital made small.
pub fn to_lower_char(c: char) -> (r: char)
    ensures
        r == lower_char(c),
{
    let n: u32 = c as u32;
    if 0x41 <= n && n <= 0x5a {
        ((c as u8) + 32u8) as char
    } else {
        c
    }
}

/// The characters with ASCII capitals made small.
pub fn to_lower(s: &[char]) -> (r: Vec<char>)
    ensures
        r@ == lowercase(s@),
{
    let mut r: Vec<char> = Vec::new();
    let n: usize = s.len();
    for i in 0..n
        invariant
            n == s@.len(),
            r@ == lowercase(s@).take(i as int),
    {
        r.push(to_lower_char(s[i]));
        assert(lowercase(s@).take(i + 1) =~= lowercase(s@).take(i as int).push(
            lowercase(s@)[i as int],
        ));
    }
    assert(lowercase(s@).take(n as int) =~= lowercase(s@));
    r
}

/// Whether the two texts are the same but for the case of ASCII letters.
pub fn same_ignoring_case(a: &str, b: &str) -> (r: bool)
    ensures
        r == (lowercase(a@) == lowercase(b@)),
{
    let x = to_lower(&chars_of(a));
    let y = to_lower(&chars_of(b));
    same(&x, &y)
}

/// Whether the two texts are the same.
pub fn same_text(a: &str, b: &str) -> (r: bool)
    ensures
        r == (a@ == b@),
{
    same(&chars_of(a), &chars_of(b))
}

/// `s` without the white space it begins with.
pub open spec fn trim_start(s: Seq<char>) -> Seq<char>
    decreases s.len(),
{
    if s.len() > 0 && is_space(s[0]) {
        trim_start(s.skip(1))
    } else {
        s
    }
}

/// `s` without the white space it ends with.
pub open spec fn trim_end(s: Seq<char>) -> Seq<char>
    decreases s.len(),
{
    if s.len() > 0 && is_space(s.last()) {
        trim_end(s.drop_last())
    } else {
        s
    }
}

/// `s` without white space at either end.
pub open spec fn trim(s: Seq<char>) -> Seq<char> {
    trim_end(trim_start(s))
}

/// `s` without any copies of `pat` that it begins with.
pub open spec fn strip_front(s: Seq<char>, pat: Seq<char>) -> Seq<char>
    decreases s.len(),
{
    if pat.len() > 0 && starts_with(s, pat) {
        strip_front(s.skip(pat.len() as int), pat)
    } else {
        s
    }
}

/// `s` without any copies of `pat` that it ends with.
pub open spec fn strip_back(s: Seq<char>, pat: Seq<char>) -> Seq<char>
    decreases s.len(),
{
    if pat.len() > 0 && occurs_at(s, pat, s.len() - pat.len()) {
        strip_back(s.take(s.len() - pat.len()), pat)
    } else {
        s
    }
}

/// The position of the first `c` in `s`, or the length of `s` where there is none.
pub open spec fn first_of(s: Seq<char>, c: char) -> int
    decreases s.len(),
{
    if s.len() == 0 || s[0] == c {
        0
    } else {
        1 + first_of(s.skip(1), c)
    }
}

/// The length of the run of characters before the first white space.
pub open spec fn word_len(s: Seq<char>) -> int
    decreases s.len(),
{
    if s.len() == 0 || is_space(s[0]) {
        0
    } else {
        1 + word_len(s.skip(1))
    }
}

pub proof fn lemma_first_of(s: Seq<char>, c: char)
    ensures
        0 <= first_of(s, c) <= s.len(),
        forall|j: int| 0 <= j < first_of(s, c) ==> s[j] != c,
        first_of(s, c) < s.len() ==> s[first_of(s, c)] == c,
    decreases s.len(),
{
    if s.len() > 0 && s[0] != c {
        lemma_first_of(s.skip(1), c);
        assert forall|j: int| 0 <= j < first_of(s, c) implies s[j] != c by {
            if j > 0 {
                assert(s.skip(1)[j - 1] == s[j]);
            }
        }
    }
}

/// The position that the three facts of `lemma_first_of` describe is the first.
pub proof fn lemma_first_of_is(s: Seq<char>, c: char, k: int)
    requires
        0 <= k <= s.len(),
        forall|j: int| 0 <= j < k ==> s[j] != c,
        k < s.len() ==> s[k] == c,
    ensures
        first_of(s, c) == k,
{
    lemma_first_of(s, c);
    let f = first_of(s, c);
    if f < k {
        assert(s[f] != c);
    }
    if k < f {
        assert(s[k] != c);
    }
}

pub proof fn lemma_word_len(s: Seq<char>)
    ensures
        0 <= word_len(s) <= s.len(),
        forall|j: int| 0 <= j < word_len(s) ==> !is_space(s[j]),
        word_len(s) < s.len() ==> is_space(s[word_len(s)]),
    decreases s.len(),
{
    if s.len() > 0 && !is_space(s[0]) {
        lemma_word_len(s.skip(1));
        assert forall|j: int| 0 <= j < word_len(s) implies !is_space(s[j]) by {
            if j > 0 {
                assert(s.skip(1)[j - 1] == s[j]);
            }
        }
    }
}

pub proof fn lemma_trim_start(s: Seq<char>)
    ensures
        trim_start(s).len() <= s.len(),
        trim_start(s).len() > 0 ==> !is_space(trim_start(s)[0]),
    decreases s.len(),
{
    if s.len() > 0 && is_space(s[0]) {
        lemma_trim_start(s.skip(1));
    }
}

/// The line `s` without a carriage return at its end.
pub open spec fn strip_cr(s: Seq<char>) -> Seq<char> {
    if s.len() > 0 && s.last() == '\r' {
        s.drop_last()
    } else {
        s
    }
}

/// The lines of a text: each ends at a line feed, or a carriage return and a
/// line feed, and the last one may end with the text.
pub open spec fn lines(s: Seq<char>) -> Seq<Seq<char>>
    decreases s.len(),
{
    let k = first_of(s, '\n');
    if s.len() == 0 {
        Seq::empty()
    } else if k < s.len() {
        proof {
            lemma_first_of(s, '\n');
        }
        seq![strip_cr(s.take(k))] + lines(s.skip(k + 1))
    } else {
        seq![s]
    }
}

/// The maximal runs of characters that are no white space, in order.
pub open spec fn words(s: Seq<char>) -> Seq<Seq<char>>
    decreases s.len(),
{
    let t = trim_start(s);
    if t.len() == 0 {
        Seq::empty()
    } else {
        proof {
            lemma_trim_start(s);
            lemma_word_len(t);
        }
        seq![t.take(word_len(t))] + words(t.skip(word_len(t)))
    }
}

/// `s` with every occurrence of `from`, taken from the left and without
/// overlap, replaced by `to`.
pub open spec fn replace_all(s: Seq<char>, from: Seq<char>, to: Seq<char>) -> Seq<char>
    decreases s.len(),
{
    if s.len() == 0 {
        Seq::empty()
    } else if from.len() > 0 && starts_with(s, from) {
        to + replace_all(s.skip(from.len() as int), from, to)
    } else {
        seq![s[0]] + replace_all(s.skip(1), from, to)
    }
}

/// `s` with its first occurrence of `from` replaced by `to`.
pub open spec fn replace_first(s: Seq<char>, from: Seq<char>, to: Seq<char>) -> Seq<char>
    decreases s.len(),
{
    if starts_with(s, from) {
        to + s.skip(from.len() as int)
    } else if s.len() == 0 {
        Seq::empty()
    } else {
        seq![s[0]] + replace_first(s.skip(1), from, to)
    }
}

/// What is not in a text cannot be replaced in it.
pub proof fn lemma_nothing_to_replace(s: Seq<char>, from: Seq<char>, to: Seq<char>)
    requires
        !contains(s, from),
    ensures
        replace_all(s, from, to) == s,
        replace_first(s, from, to) == s,
    decreases s.len(),
{
    if starts_with(s, from) {
        assert(occurs_at(s, from, 0));
    }
    if s.len() > 0 {
        let t = s.skip(1);
        if contains(t, from) {
            let i = choose|i: int| occurs_at(t, from, i);
            assert(s.subrange(i + 1, i + 1 + from.len()) =~= t.subrange(i, i + from.len()));
            assert(occurs_at(s, from, i + 1));
        }
        lemma_nothing_to_replace(t, from, to);
        assert(seq![s[0]] + t =~= s);
    } else {
        assert(replace_all(s, from, to) =~= s);
        assert(replace_first(s, from, to) =~= s);
    }
}

/// Where a text holds `from` in just one place, that place is replaced and the
/// rest is kept, on either side.
pub proof fn law_single_place_is_replaced(
    a: Seq<char>,
    from: Seq<char>,
    b: Seq<char>,
    to: Seq<char>,
)
    requires
        from.len() > 0,
        forall|i: int| occurs_at(a + from + b, from, i) ==> i == a.len(),
    ensures
        replace_all(a + from + b, from, to) == a + to + b,
        replace_first(a + from + b, from, to) == a + to + b,
    decreases a.len(),
{
    let s = a + from + b;
    if a.len() == 0 {
        assert(s.subrange(0, from.len() as int) =~= from);
        assert(s.skip(from.len() as int) =~= b);
        if contains(b, from) {
            let j = choose|j: int| occurs_at(b, from, j);
            let i: int = from.len() + j;
            assert(s.subrange(i, i + from.len()) =~= b.subrange(j, j + from.len()));
            assert(occurs_at(s, from, i));
        }
        lemma_nothing_to_replace(b, from, to);
        assert(to + b =~= a + to + b);
    } else {
        let t = a.skip(1) + from + b;
        assert(s.skip(1) =~= t);
        assert forall|i: int| occurs_at(t, from, i) implies i == a.skip(1).len() by {
            assert(s.subrange(i + 1, i + 1 + from.len()) =~= t.subrange(i, i + from.len()));
            assert(occurs_at(s, from, i + 1));
        }
        law_single_place_is_replaced(a.skip(1), from, b, to);
        assert(seq![s[0]] + (a.skip(1) + to + b) =~= a + to + b);
    }
}

/// What stands behind every occurrence of `from` is kept.
pub proof fn lemma_replace_keeps_tail(
    front: Seq<char>,
    tail: Seq<char>,
    from: Seq<char>,
    to: Seq<char>,
)
    requires
        from.len() > 0,
        forall|i: int| occurs_at(front + tail, from, i) ==> i + from.len() <= front.len(),
    ensures
        replace_all(front + tail, from, to) == replace_all(front, from, to) + tail,
        replace_first(front + tail, from, to) == replace_first(front, from, to) + tail,
    decreases front.len(),
{
    let s = front + tail;
    let n = from.len() as int;
    if front.len() == 0 {
        assert(s =~= tail);
        assert(!contains(tail, from));
        lemma_nothing_to_replace(tail, from, to);
        assert(replace_all(front, from, to) + tail =~= tail);
        assert(replace_first(front, from, to) + tail =~= tail);
    } else {
        assert(starts_with(s, from) <==> starts_with(front, from)) by {
            if starts_with(s, from) || starts_with(front, from) {
                assert(s.subrange(0, n) =~= front.subrange(0, n));
            }
        }
        if starts_with(s, from) {
            let rest = front.skip(n);
            assert(s.skip(n) =~= rest + tail);
            assert forall|i: int| occurs_at(rest + tail, from, i) implies i + n <= rest.len() by {
                assert(s.subrange(i + n, i + n + n) =~= (rest + tail).subrange(i, i + n));
                assert(occurs_at(s, from, i + n));
            }
            lemma_replace_keeps_tail(rest, tail, from, to);
            assert(to + (replace_all(rest, from, to) + tail) =~= to + replace_all(rest, from, to)
                + tail);
            assert(to + (rest + tail) =~= to + rest + tail);
        } else {
            let rest = front.skip(1);
            assert(s.skip(1) =~= rest + tail);
            assert forall|i: int| occurs_at(rest + tail, from, i) implies i + n <= rest.len() by {
                assert(s.subrange(i + 1, i + 1 + n) =~= (rest + tail).subrange(i, i + n));
                assert(occurs_at(s, from, i + 1));
            }
            lemma_replace_keeps_tail(rest, tail, from, to);
            assert(seq![s[0]] + (replace_all(rest, from, to) + tail) =~= seq![front[0]]
                + replace_all(rest, from, to) + tail);
            assert(seq![s[0]] + (replace_first(rest, from, to) + tail) =~= seq![front[0]]
                + replace_first(rest, from, to) + tail);
        }
    }
}

/// What stands before every occurrence of `from` is kept.
pub proof fn lemma_replace_keeps_head(
    head: Seq<char>,
    rest: Seq<char>,
    from: Seq<char>,
    to: Seq<char>,
)
    requires
        from.len() > 0,
        forall|i: int| occurs_at(head + rest, from, i) ==> head.len() <= i,
    ensures
        replace_all(head + rest, from, to) == head + replace_all(rest, from, to),
        replace_first(head + rest, from, to) == head + replace_first(rest, from, to),
    decreases head.len(),
{
    let s = head + rest;
    if head.len() == 0 {
        assert(s =~= rest);
        assert(head + replace_all(rest, from, to) =~= replace_all(rest, from, to));
        assert(head + replace_first(rest, from, to) =~= replace_first(rest, from, to));
    } else {
        let shorter = head.skip(1);
        assert(s.skip(1) =~= shorter + rest);
        assert forall|i: int| occurs_at(shorter + rest, from, i) implies shorter.len() <= i by {
            assert(s.subrange(i + 1, i + 1 + from.len()) =~= (shorter + rest).subrange(
                i,
                i + from.len(),
            ));
            assert(occurs_at(s, from, i + 1));
        }
        lemma_replace_keeps_head(shorter, rest, from, to);
        assert(seq![s[0]] + (shorter + replace_all(rest, from, to)) =~= head + replace_all(
            rest,
            from,
            to,
        ));
        assert(seq![s[0]] + (shorter + replace_first(rest, from, to)) =~= head + replace_first(
            rest,
            from,
            to,
        ));
    }
}

/// A last character with which no occurrence ends stays the last.
pub proof fn lemma_replace_keeps_last(s: Seq<char>, from: Seq<char>, to: Seq<char>)
    requires
        from.len() > 0,
        s.len() > 0,
        s.last() != from.last(),
    ensures
        replace_all(s, from, to).len() > 0,
        replace_all(s, from, to).last() == s.last(),
        replace_first(s, from, to).len() > 0,
        replace_first(s, from, to).last() == s.last(),
    decreases s.len(),
{
    let n = from.len() as int;
    if starts_with(s, from) {
        assert(s.subrange(0, n).last() == s[n - 1]);
        assert(n < s.len());
        lemma_replace_keeps_last(s.skip(n), from, to);
        assert(s.skip(n).last() == s.last());
        assert(replace_all(s, from, to) == to + replace_all(s.skip(n), from, to));
    } else if s.len() > 1 {
        lemma_replace_keeps_last(s.skip(1), from, to);
        assert(s.skip(1).last() == s.last());
    } else {
        let none = s.skip(1);
        assert(!starts_with(none, from));
        assert(replace_all(none, from, to) =~= Seq::empty());
        assert(replace_first(none, from, to) =~= Seq::empty());
    }
}

/// The character sequences that a list of character vectors holds.
pub open spec fn views(v: Seq<Vec<char>>) -> Seq<Seq<char>> {
    Seq::new(v.len(), |i: int| v[i]@)
}

/// The texts that a list of strings holds.
pub open spec fn texts(v: Seq<String>) -> Seq<Seq<char>> {
    Seq::new(v.len(), |i: int| v[i]@)
}

/// `s` without the white space it begins with.
pub fn skip_space(s: &[char]) -> (r: Vec<char>)
    ensures
        r@ == trim_start(s@),
{
    let n: usize = s.len();
    let mut i: usize = 0;
    assert(s@.skip(0) =~= s@);
    while i < n && is_space_char(s[i])
        invariant
            n == s@.len(),
            i <= n,
            trim_start(s@.skip(i as int)) == trim_start(s@),
        decreases n - i,
    {
        assert(s@.skip(i as int).skip(1) =~= s@.skip(i + 1));
        i = i + 1;
    }
    assert(s@.subrange(i as int, n as int) =~= s@.skip(i as int));
    part(s, i, n)
}

/// `s` without the white space it ends with.
pub fn drop_space(s: &[char]) -> (r: Vec<char>)
    ensures
        r@ == trim_end(s@),
{
    let mut n: usize = s.len();
    assert(s@.take(n as int) =~= s@);
    while n > 0 && is_space_char(s[n - 1])
        invariant
            n <= s@.len(),
            trim_end(s@.take(n as int)) == trim_end(s@),
        decreases n,
    {
        assert(s@.take(n as int).drop_last() =~= s@.take(n - 1));
        n = n - 1;
    }
    assert(s@.subrange(0, n as int) =~= s@.take(n as int));
    part(s, 0, n)
}

/// `s` without white space at either end.
pub fn trimmed(s: &[char]) -> (r: Vec<char>)
    ensures
        r@ == trim(s@),
{
    drop_space(&skip_space(s))
}

/// The text `s` without white space at either end.
pub fn trim_text(s: &str) -> (r: String)
    ensures
        r@ == trim(s@),
{
    string_of(&trimmed(&chars_of(s)))
}

/// `s` without any copies of `pat` that it begins with.
pub fn without_front(s: &[char], pat: &[char]) -> (r: Vec<char>)
    ensures
        r@ == strip_front(s@, pat@),
{
    let n: usize = s.len();
    let mut i: usize = 0;
    assert(s@.skip(0) =~= s@);
    while pat.len() > 0 && found_at(s, pat, i)
        invariant
            n == s@.len(),
            i <= n,
            strip_front(s@.skip(i as int), pat@) == strip_front(s@, pat@),
        decreases n - i,
    {
        assert(s@.skip(i as int).subrange(0, pat@.len() as int) =~= s@.subrange(
            i as int,
            i + pat@.len(),
        ));
        assert(s@.skip(i as int).skip(pat@.len() as int) =~= s@.skip(i + pat@.len()));
        i = i + pat.len();
    }
    assert(!(pat@.len() > 0 && starts_with(s@.skip(i as int), pat@))) by {
        if pat@.len() > 0 && starts_with(s@.skip(i as int), pat@) {
            assert(s@.skip(i as int).subrange(0, pat@.len() as int) =~= s@.subrange(
                i as int,
                i + pat@.len(),
            ));
        }
    }
    assert(s@.subrange(i as int, n as int) =~= s@.skip(i as int));
    part(s, i, n)
}

/// `s` without any copies of `pat` that it ends with.
pub fn without_back(s: &[char], pat: &[char]) -> (r: Vec<char>)
    ensures
        r@ == strip_back(s@, pat@),
{
    let mut n: usize = s.len();
    assert(s@.take(n as int) =~= s@);
    while pat.len() > 0 && pat.len() <= n && found_at(s, pat, n - pat.len())
        invariant
            n <= s@.len(),
            strip_back(s@.take(n as int), pat@) == strip_back(s@, pat@),
        decreases n,
    {
        let ghost k = n - pat@.len();
        assert(s@.take(n as int).subrange(k, k + pat@.len()) =~= s@.subrange(k, k + pat@.len()));
        assert(s@.take(n as int).take(k) =~= s@.take(k));
        n = n - pat.len();
    }
    proof {
        let t = s@.take(n as int);
        let k = n - pat@.len();
        if pat@.len() > 0 && occurs_at(t, pat@, k) {
            assert(t.subrange(k, k + pat@.len()) =~= s@.subrange(k, k + pat@.len()));
        }
        assert(s@.subrange(0, n as int) =~= t);
    }
    part(s, 0, n)
}

/// The position of the first `c` in `s` at or behind `from`, or the length of `s`.
pub fn find_char(s: &[char], c: char, from: usize) -> (k: usize)
    requires
        from <= s@.len(),
    ensures
        from <= k <= s@.len(),
        k - from == first_of(s@.skip(from as int), c),
        forall|j: int| from <= j < k ==> s@[j] != c,
        k < s@.len() ==> s@[k as int] == c,
{
    let n: usize = s.len();
    let mut k: usize = from;
    while k < n && s[k] != c
        invariant
            n == s@.len(),
            from <= k <= n,
            forall|j: int| from <= j < k ==> s@[j] != c,
        decreases n - k,
    {
        k = k + 1;
    }
    proof {
        let t = s@.skip(from as int);
        assert forall|j: int| 0 <= j < k - from implies t[j] != c by {
            assert(t[j] == s@[from + j]);
        }
        lemma_first_of_is(t, c, k - from);
    }
    k
}

/// The lines of `s`.
pub fn split_lines(s: &[char]) -> (r: Vec<Vec<char>>)
    ensures
        views(r@) == lines(s@),
{
    let n: usize = s.len();
    let mut r: Vec<Vec<char>> = Vec::new();
    let mut i: usize = 0;
    assert(s@.skip(0) =~= s@);
    assert(views(r@) + lines(s@) =~= lines(s@));
    while i < n
        invariant
            n == s@.len(),
            i <= n,
            views(r@) + lines(s@.skip(i as int)) == lines(s@),
        decreases n - i,
    {
        let ghost rest = s@.skip(i as int);
        let ghost before = r@;
        let k: usize = find_char(s, '\n', i);
        if k < n {
            let end: usize = if k > i && s[k - 1] == '\r' {
                k - 1
            } else {
                k
            };
            let line = part(s, i, end);
            proof {
                assert(rest.take(k - i) =~= s@.subrange(i as int, k as int));
                if k > i {
                    assert(rest.take(k - i).last() == s@[k - 1]);
                    assert(rest.take(k - i).drop_last() =~= s@.subrange(i as int, k - 1));
                }
                assert(line@ == strip_cr(rest.take(k - i)));
                assert(rest.skip(k - i + 1) =~= s@.skip(k + 1));
            }
            r.push(line);
            proof {
                assert(views(r@) =~= views(before).push(line@));
                assert(views(r@) + lines(s@.skip(k + 1)) =~= views(before) + (seq![line@] + lines(
                    s@.skip(k + 1),
                )));
            }
            i = k + 1;
        } else {
            let line = part(s, i, n);
            r.push(line);
            proof {
                assert(line@ =~= rest);
                assert(views(r@) =~= views(before).push(line@));
                assert(s@.skip(n as int) =~= Seq::<char>::empty());
                assert(views(r@) + lines(s@.skip(n as int)) =~= views(before) + lines(rest));
            }
            i = n;
        }
    }
    assert(s@.skip(n as int) =~= Seq::<char>::empty());
    assert(views(r@) + lines(s@.skip(n as int)) =~= views(r@));
    r
}

/// The words of `s`.
pub fn split_words(s: &[char]) -> (r: Vec<Vec<char>>)
    ensures
        views(r@) == words(s@),
{
    let n: usize = s.len();
    let mut r: Vec<Vec<char>> = Vec::new();
    let mut i: usize = 0;
    assert(s@.skip(0) =~= s@);
    assert(views(r@) + words(s@) =~= words(s@));
    loop
        invariant
            n == s@.len(),
            i <= n,
            views(r@) + words(s@.skip(i as int)) == words(s@),
        ensures
            views(r@) == words(s@),
        decreases n - i,
    {
        let ghost rest = s@.skip(i as int);
        let ghost before = r@;
        let start: usize = i;
        while i < n && is_space_char(s[i])
            invariant
                n == s@.len(),
                start <= i <= n,
                rest == s@.skip(start as int),
                trim_start(s@.skip(i as int)) == trim_start(rest),
            decreases n - i,
        {
            assert(s@.skip(i as int).skip(1) =~= s@.skip(i + 1));
            i = i + 1;
        }
        let ghost t = s@.skip(i as int);
        assert(trim_start(rest) == t);
        if i == n {
            proof {
                assert(views(r@) + words(rest) =~= views(r@));
            }
            break;
        }
        let from: usize = i;
        while i < n && !is_space_char(s[i])
            invariant
                n == s@.len(),
                from <= i <= n,
                t == s@.skip(from as int),
                word_len(t) == (i - from) + word_len(s@.skip(i as int)),
            decreases n - i,
        {
            assert(s@.skip(i as int).skip(1) =~= s@.skip(i + 1));
            i = i + 1;
        }
        let word = part(s, from, i);
        r.push(word);
        proof {
            assert(word_len(t) == i - from);
            assert(t.take(i - from) =~= word@);
            assert(t.skip(i - from) =~= s@.skip(i as int));
            assert(views(r@) =~= views(before).push(word@));
            assert(views(r@) + words(s@.skip(i as int)) =~= views(before) + (seq![word@] + words(
                s@.skip(i as int),
            )));
        }
    }
    r
}

/// `s` with every occurrence of `from` replaced by `to`.
pub fn replaced(s: &[char], from: &[char], to: &[char]) -> (r: Vec<char>)
    ensures
        r@ == replace_all(s@, from@, to@),
{
    let n: usize = s.len();
    let mut r: Vec<char> = Vec::new();
    let mut i: usize = 0;
    assert(s@.skip(0) =~= s@);
    assert(r@ + replace_all(s@, from@, to@) =~= replace_all(s@, from@, to@));
    while i < n
        invariant
            n == s@.len(),
            i <= n,
            r@ + replace_all(s@.skip(i as int), from@, to@) == replace_all(s@, from@, to@),
        decreases n - i,
    {
        let ghost rest = s@.skip(i as int);
        let ghost before = r@;
        if from.len() > 0 && found_at(s, from, i) {
            proof {
                assert(rest.subrange(0, from@.len() as int) =~= s@.subrange(
                    i as int,
                    i + from@.len(),
                ));
                assert(rest.skip(from@.len() as int) =~= s@.skip(i + from@.len()));
            }
            append(&mut r, to);
            i = i + from.len();
            assert(r@ + replace_all(s@.skip(i as int), from@, to@) =~= before + (to@ + replace_all(
                s@.skip(i as int),
                from@,
                to@,
            )));
        } else {
            proof {
                if from@.len() > 0 && starts_with(rest, from@) {
                    assert(rest.subrange(0, from@.len() as int) =~= s@.subrange(
                        i as int,
                        i + from@.len(),
                    ));
                }
                assert(rest.skip(1) =~= s@.skip(i + 1));
            }
            r.push(s[i]);
            i = i + 1;
            assert(r@ + replace_all(s@.skip(i as int), from@, to@) =~= before + (seq![rest[0]]
                + replace_all(s@.skip(i as int), from@, to@)));
        }
    }
    assert(r@ + replace_all(s@.skip(n as int), from@, to@) =~= r@);
    r
}

/// `s` with its first occurrence of `from` replaced by `to`.
pub fn replaced_first(s: &[char], from: &[char], to: &[char]) -> (r: Vec<char>)
    ensures
        r@ == replace_first(s@, from@, to@),
{
    let n: usize = s.len();
    let mut r: Vec<char> = Vec::new();
    let mut i: usize = 0;
    assert(s@.skip(0) =~= s@);
    assert(r@ + replace_first(s@, from@, to@) =~= replace_first(s@, from@, to@));
    loop
        invariant
            n == s@.len(),
            i <= n,
            r@ + replace_first(s@.skip(i as int), from@, to@) == replace_first(s@, from@, to@),
        decreases n - i,
    {
        let ghost rest = s@.skip(i as int);
        let ghost before = r@;
        if found_at(s, from, i) {
            assert(rest.subrange(0, from@.len() as int) =~= s@.subrange(
                i as int,
                i + from@.len(),
            ));
            append(&mut r, to);
            let tail = part(s, i + from.len(), n);
            append(&mut r, &tail);
            assert(r@ =~= before + (to@ + rest.skip(from@.len() as int)));
            return r;
        }
        proof {
            if starts_with(rest, from@) {
                assert(rest.subrange(0, from@.len() as int) =~= s@.subrange(
                    i as int,
                    i + from@.len(),
                ));
            }
        }
        if i == n {
            assert(r@ + replace_first(rest, from@, to@) =~= r@);
            return r;
        }
        assert(rest.skip(1) =~= s@.skip(i + 1));
        r.push(s[i]);
        i = i + 1;
        assert(r@ + replace_first(s@.skip(i as int), from@, to@) =~= before + (seq![rest[0]]
            + replace_first(s@.skip(i as int), from@, to@)));
    }
}

/// `s` with blanks behind it up to the given width.
pub open spec fn padded(s: Seq<char>, width: nat) -> Seq<char> {
    s + Seq::new(
        if s.len() < width {
            (width - s.len()) as nat
        } else {
            0
        },
        |i: int| ' ',
    )
}

/// The text `s` with blanks behind it up to the given width.
pub fn pad(s: &str, width: usize) -> (r: String)
    ensures
        r@ == padded(s@, width as nat),
{
    let mut r: String = s.to_owned();
    let mut n: usize = chars_of(s).len();
    while n < width
        invariant
            s@.len() <= n,
            n <= width || n == s@.len(),
            r@ == s@ + Seq::new((n - s@.len()) as nat, |i: int| ' '),
        decreases width - n,
    {
        r.push(' ');
        n = n + 1;
        assert(r@ =~= s@ + Seq::new((n - s@.len()) as nat, |i: int| ' '));
    }
    r
}

/// Puts the characters `more` behind those of `v`.
pub fn append(v: &mut Vec<char>, more: &[char])
    ensures
        final(v)@ == old(v)@ + more@,
{
    let n: usize = more.len();
    for i in 0..n
        invariant
            n == more@.len(),
            v@ == old(v)@ + more@.take(i as int),
    {
        v.push(more[i]);
        assert(more@.take(i + 1) =~= more@.take(i as int).push(more@[i as int]));
    }
    assert(more@.take(n as int) =~= more@);
}

/// Two characters have the same small form exactly if they are twins.
proof fn lemma_twins(c: char, d: char)
    ensures
        lower_char(c) == lower_char(d) <==> twins(c, d),
{
}

pub proof fn lemma_alike(a: Seq<char>, b: Seq<char>)
    ensures
        lowercase(a) == lowercase(b) <==> alike(a, b),
{
    if lowercase(a) == lowercase(b) {
        assert(lowercase(a).len() == a.len() && lowercase(b).len() == b.len());
        assert forall|k: int| 0 <= k < a.len() implies twins(#[trigger] a[k], b[k]) by {
            assert(lowercase(a)[k] == lowercase(b)[k]);
            lemma_twins(a[k], b[k]);
        }
    }
    if alike(a, b) {
        assert forall|k: int| 0 <= k < a.len() implies lowercase(a)[k] == lowercase(b)[k] by {
            assert(twins(a[k], b[k]));
            lemma_twins(a[k], b[k]);
        }
        assert(lowercase(a) =~= lowercase(b));
    }
}

pub proof fn lemma_stands_at(s: Seq<char>, pat: Seq<char>, i: int)
    ensures
        occurs_at(s, pat, i) <==> stands_at(s, pat, i),
{
    if occurs_at(s, pat, i) {
        assert forall|k: int| 0 <= k < pat.len() implies s[i + k] == #[trigger] pat[k] by {
            assert(s.subrange(i, i + pat.len())[k] == s[i + k]);
        }
    }
    if stands_at(s, pat, i) {
        assert(s.subrange(i, i + pat.len()) =~= pat);
    }
}

pub proof fn lemma_stands_in(s: Seq<char>, pat: Seq<char>)
    ensures
        contains(s, pat) <==> stands_in(s, pat),
{
    if contains(s, pat) {
        let i = choose|i: int| occurs_at(s, pat, i);
        lemma_stands_at(s, pat, i);
    }
    if stands_in(s, pat) {
        let i = choose|i: int| stands_at(s, pat, i);
        lemma_stands_at(s, pat, i);
        assert(occurs_at(s, pat, i));
    }
}

/// A pattern without capitals stands in the small form of a text exactly where it is
/// spelled, in either case, in the text.
pub proof fn lemma_spelled_at(s: Seq<char>, pat: Seq<char>, i: int)
    requires
        no_capital(pat),
    ensures
        occurs_at(lowercase(s), pat, i) <==> spelled_at(s, pat, i),
{
    lemma_stands_at(lowercase(s), pat, i);
    if stands_at(lowercase(s), pat, i) {
        assert forall|k: int| 0 <= k < pat.len() implies twins(s[i + k], #[trigger] pat[k]) by {
            assert(lowercase(s)[i + k] == pat[k]);
        }
    }
    if spelled_at(s, pat, i) {
        assert forall|k: int| 0 <= k < pat.len() implies lowercase(s)[i + k] == #[trigger] pat[k] by {
            assert(twins(s[i + k], pat[k]));
            assert(!('A' <= pat[k] <= 'Z'));
        }
    }
}

pub proof fn lemma_spelled_in(s: Seq<char>, pat: Seq<char>)
    requires
        no_capital(pat),
    ensures
        contains(lowercase(s), pat) <==> spelled_in(s, pat),
{
    if contains(lowercase(s), pat) {
        let i = choose|i: int| occurs_at(lowercase(s), pat, i);
        lemma_spelled_at(s, pat, i);
    }
    if spelled_in(s, pat) {
        let i = choose|i: int| spelled_at(s, pat, i);
        lemma_spelled_at(s, pat, i);
        assert(occurs_at(lowercase(s), pat, i));
    }
}

/// Two texts count as the same exactly if they are of one length and differ at most in
/// the case of ASCII letters.
pub proof fn law_case_is_ignored(a: &str, b: &str, r: bool)
    requires
        call_ensures(same_ignoring_case, (a, b), r),
    ensures
        r <==> alike(a@, b@),
{
    lemma_alike(a@, b@);
}

/// A text is found exactly if its characters stand one behind the other somewhere, and
/// so it is found whatever is put before or behind.
pub proof fn law_text_is_found(s: &str, pat: &str, r: bool)
    requires
        call_ensures(text_has, (s, pat), r),
    ensures
        r <==> exists|i: int| stands_at(s@, pat@, i),
{
    lemma_stands_in(s@, pat@);
}

/// A text is found at a position exactly if its characters stand from there on.
pub proof fn law_text_is_found_at(s: &[char], pat: &[char], i: usize, r: bool)
    requires
        i <= s@.len(),
        call_ensures(found_at, (s, pat, i), r),
    ensures
        r <==> stands_at(s@, pat@, i as int),
{
    lemma_stands_at(s@, pat@, i as int);
}

/// What white space is taken off is a run of it.
proof fn lemma_trim_start_cuts(s: Seq<char>) -> (n: int)
    ensures
        0 <= n <= s.len(),
        trim_start(s) == s.skip(n),
        all_white(s.take(n)),
        n < s.len() ==> !white(s[n]),
    decreases s.len(),
{
    if s.len() > 0 && is_space(s[0]) {
        let m = lemma_trim_start_cuts(s.skip(1));
        assert(s.skip(1).skip(m) =~= s.skip(m + 1));
        assert forall|k: int| 0 <= k < s.take(m + 1).len() implies white(
            #[trigger] s.take(m + 1)[k],
        ) by {
            if k > 0 {
                assert(s.skip(1).take(m)[k - 1] == s[k]);
            }
        }
        m + 1
    } else {
        assert(s.skip(0) =~= s);
        0
    }
}

proof fn lemma_trim_end_cuts(s: Seq<char>) -> (n: int)
    ensures
        0 <= n <= s.len(),
        trim_end(s) == s.take(n),
        all_white(s.skip(n)),
        n > 0 ==> !white(s[n - 1]),
    decreases s.len(),
{
    if s.len() > 0 && is_space(s.last()) {
        let f = s.drop_last();
        let m = lemma_trim_end_cuts(f);
        assert(f.take(m) =~= s.take(m));
        assert forall|k: int| 0 <= k < s.skip(m).len() implies white(#[trigger] s.skip(m)[k]) by {
            if k < f.len() - m {
                assert(f.skip(m)[k] == s[m + k]);
            }
        }
        m
    } else {
        assert(s.take(s.len() as int) =~= s);
        s.len() as int
    }
}

/// White space alone goes, all of it, and what is between is what is left.
pub proof fn lemma_trim(s: Seq<char>) -> (r: (Seq<char>, Seq<char>))
    ensures
        s == r.0 + trim(s) + r.1,
        all_white(r.0),
        all_white(r.1),
        bare(trim(s)),
{
    let n = lemma_trim_start_cuts(s);
    let t = s.skip(n);
    let m = lemma_trim_end_cuts(t);
    assert(s =~= s.take(n) + t.take(m) + t.skip(m));
    if m > 0 {
        assert(t[0] == s[n]);
        assert(trim(s)[0] == t[0] && trim(s)[m - 1] == t[m - 1]);
    }
    (s.take(n), t.skip(m))
}

/// A text between runs of white space is what trimming leaves.
pub proof fn lemma_trim_is(before: Seq<char>, s: Seq<char>, after: Seq<char>)
    requires
        all_white(before),
        all_white(after),
        bare(s),
    ensures
        trim(before + s + after) == s,
{
    let whole = before + s + after;
    let (a, b) = lemma_trim(whole);
    let t = trim(whole);
    assert(whole == a + t + b);
    if s.len() == 0 {
        if t.len() > 0 {
            assert(whole[a.len() as int] == t[0]);
            assert(white(whole[a.len() as int])) by {
                let k = a.len() as int;
                if k < before.len() {
                    assert(white(before[k]));
                } else {
                    assert(white(after[k - before.len()]));
                }
            }
        }
        assert(t =~= s);
    } else {
        let p = before.len() as int;
        let e: int = before.len() + s.len() - 1;
        assert(whole[p] == s[0] && whole[e] == s[s.len() - 1]);
        // `t` reaches over both ends of `s`, and not beyond.
        if p < a.len() {
            assert(a[p] == whole[p]);
        }
        if e >= a.len() + t.len() {
            assert(b[e - a.len() - t.len()] == whole[e]);
        }
        if a.len() < p {
            assert(whole[a.len() as int] == t[0]);
            assert(white(before[a.len() as int]));
        }
        let last: int = a.len() + t.len() - 1;
        if last > e {
            assert(whole[last] == t[t.len() - 1]);
            assert(white(after[last - e - 1]));
        }
        assert(t =~= s) by {
            assert forall|k: int| 0 <= k < s.len() implies t[k] == s[k] by {
                assert(whole[p + k] == s[k]);
            }
        }
    }
}

/// Trimming takes white space off both ends, all of it and nothing else.
pub proof fn law_white_space_goes(s: &str, r: String)
    requires
        call_ensures(trim_text, (s,), r),
    ensures
        exists|before: Seq<char>, after: Seq<char>|
            all_white(before) && all_white(after) && s@ == #[trigger] (before + r@ + after),
        bare(r@),
{
    let (a, b) = lemma_trim(s@);
    assert(s@ == a + r@ + b);
}

/// A text ends a line at each line feed and nowhere else: what is before the first one
/// is the first line, without a carriage return that it ends with, and the other lines
/// are those of what is behind. A text without a line feed is one line, and an empty
/// one is none.
pub proof fn law_lines_end_at_line_feeds(
    s: &[char],
    r: Vec<Vec<char>>,
    head: Seq<char>,
    rest: &[char],
    others: Vec<Vec<char>>,
)
    requires
        call_ensures(split_lines, (s,), r),
        call_ensures(split_lines, (rest,), others),
    ensures
        s@.len() == 0 ==> r@.len() == 0,
        s@.len() > 0 && free_of(s@, '\n') ==> r@.len() == 1 && r@[0]@ == s@,
        free_of(head, '\n') && s@ == head.push('\n') + rest@ ==> {
            &&& r@.len() == others@.len() + 1
            &&& r@[0]@ == if head.len() > 0 && head[head.len() - 1] == '\r' {
                head.take(head.len() - 1)
            } else {
                head
            }
            &&& forall|i: int| 0 <= i < others@.len() ==> r@[i + 1]@ == (#[trigger] others@[i])@
        },
{
    let all = lines(s@);
    assert(all.len() == r@.len() && lines(rest@).len() == others@.len()) by {
        assert(views(r@) == all && views(others@) == lines(rest@));
        assert(views(r@).len() == r@.len() && views(others@).len() == others@.len());
    }
    assert(forall|i: int| 0 <= i < r@.len() ==> (#[trigger] r@[i])@ == views(r@)[i]);
    assert(forall|i: int|
        0 <= i < others@.len() ==> (#[trigger] others@[i])@ == views(others@)[i]);
    if s@.len() > 0 && free_of(s@, '\n') {
        lemma_first_of_is(s@, '\n', s@.len() as int);
        assert(all == seq![s@]);
        assert(r@[0]@ == all[0]);
    }
    if free_of(head, '\n') && s@ == head.push('\n') + rest@ {
        lemma_line_is_cut(head, rest@);
        assert(r@[0]@ == all[0]);
        assert(strip_cr(head) == if head.len() > 0 && head[head.len() - 1] == '\r' {
            head.take(head.len() - 1)
        } else {
            head
        }) by {
            assert(head.len() > 0 ==> head.drop_last() =~= head.take(head.len() - 1));
        }
        assert forall|i: int| 0 <= i < others@.len() implies r@[i + 1]@ == (
        #[trigger] others@[i])@ by {
            assert(all[i + 1] == lines(rest@)[i]);
            assert(r@[i + 1]@ == views(r@)[i + 1]);
        }
    }
}

pub proof fn lemma_line_is_cut(head: Seq<char>, rest: Seq<char>)
    requires
        free_of(head, '\n'),
    ensures
        lines(head.push('\n') + rest) == seq![strip_cr(head)] + lines(rest),
{
    let s = head.push('\n') + rest;
    let k = head.len() as int;
    assert forall|j: int| 0 <= j < k implies s[j] != '\n' by {
        assert(s[j] == head[j]);
    }
    assert(s[k] == '\n');
    lemma_first_of_is(s, '\n', k);
    assert(s.take(k) =~= head);
    assert(s.skip(k + 1) =~= rest);
}

/// A text without white space, with white space or nothing on either side, is a word;
/// the other words are those of what is behind it. White space alone holds no word.
pub proof fn law_words_stand_between_white_space(
    s: &[char],
    r: Vec<Vec<char>>,
    before: Seq<char>,
    word: Seq<char>,
    rest: &[char],
    others: Vec<Vec<char>>,
)
    requires
        call_ensures(split_words, (s,), r),
        call_ensures(split_words, (rest,), others),
    ensures
        all_white(s@) ==> r@.len() == 0,
        ({
            &&& s@ == before + word + rest@
            &&& all_white(before)
            &&& word.len() > 0
            &&& forall|k: int| 0 <= k < word.len() ==> !white(#[trigger] word[k])
            &&& rest@.len() > 0 ==> white(rest@[0])
        }) ==> {
            &&& r@.len() == others@.len() + 1
            &&& r@[0]@ == word
            &&& forall|i: int| 0 <= i < others@.len() ==> r@[i + 1]@ == (#[trigger] others@[i])@
        },
{
    let all = words(s@);
    assert(all.len() == r@.len() && words(rest@).len() == others@.len()) by {
        assert(views(r@) == all && views(others@) == words(rest@));
        assert(views(r@).len() == r@.len() && views(others@).len() == others@.len());
    }
    assert(forall|i: int| 0 <= i < r@.len() ==> (#[trigger] r@[i])@ == views(r@)[i]);
    assert(forall|i: int|
        0 <= i < others@.len() ==> (#[trigger] others@[i])@ == views(others@)[i]);
    let n = lemma_trim_start_cuts(s@);
    if all_white(s@) {
        assert(trim_start(s@).len() == 0);
    }
    if s@ == before + word + rest@ && all_white(before) && word.len() > 0 && (forall|k: int|
        0 <= k < word.len() ==> !white(#[trigger] word[k])) && (rest@.len() > 0 ==> white(rest@[0])) {
        lemma_word_is_cut(before, word, rest@);
        assert(r@[0]@ == all[0]);
        assert forall|i: int| 0 <= i < others@.len() implies r@[i + 1]@ == (
        #[trigger] others@[i])@ by {
            assert(all[i + 1] == words(rest@)[i]);
            assert(r@[i + 1]@ == views(r@)[i + 1]);
        }
    }
}

pub proof fn lemma_word_is_cut(before: Seq<char>, word: Seq<char>, rest: Seq<char>)
    requires
        all_white(before),
        word.len() > 0,
        forall|k: int| 0 <= k < word.len() ==> !white(#[trigger] word[k]),
        rest.len() > 0 ==> white(rest[0]),
    ensures
        words(before + word + rest) == seq![word] + words(rest),
{
    let s = before + word + rest;
    let n = lemma_trim_start_cuts(s);
    assert(n == before.len()) by {
        if n < before.len() {
            assert(white(before[n]));
            assert(s[n] == before[n]);
        }
        if n > before.len() {
            assert(s.take(n)[before.len() as int] == word[0]);
        }
    }
    let t = s.skip(n);
    assert(t =~= word + rest);
    lemma_word_len(t);
    let w = word_len(t);
    assert(w == word.len()) by {
        if w < word.len() {
            assert(t[w] == word[w]);
        }
        if w > word.len() {
            assert(t[word.len() as int] == rest[0]);
        }
    }
    assert(t.take(w) =~= word);
    assert(t.skip(w) =~= rest);
}

/// Copies at the end go, all of them and nothing else: the text is what is left and a
/// row of copies, and what is left does not end with one.
pub proof fn lemma_strip_back(s: Seq<char>, pat: Seq<char>)
    requires
        pat.len() > 0,
    ensures
        strip_back(s, pat).len() <= s.len(),
        s.take(strip_back(s, pat).len() as int) == strip_back(s, pat),
        !stands_at(strip_back(s, pat), pat, strip_back(s, pat).len() - pat.len()),
        (s.len() - strip_back(s, pat).len()) % pat.len() as int == 0,
        forall|i: int|
            strip_back(s, pat).len() <= i < s.len() ==> #[trigger] s[i] == pat[(i
                - strip_back(s, pat).len()) % pat.len() as int],
    decreases s.len(),
{
    let n = pat.len() as int;
    let k = s.len() - n;
    lemma_stands_at(s, pat, k);
    if occurs_at(s, pat, k) {
        let t = s.take(k);
        lemma_strip_back(t, pat);
        let r = strip_back(s, pat);
        let gone = k - r.len();
        assert(t.take(r.len() as int) =~= s.take(r.len() as int));
        vstd::arithmetic::div_mod::lemma_mod_add_multiples_vanish(gone, n);
        assert((gone + n) % n == 0);
        assert forall|i: int| r.len() <= i < s.len() implies #[trigger] s[i] == pat[(i - r.len())
            % n] by {
            if i < k {
                assert(t[i] == s[i]);
            } else {
                assert(s[k + (i - k)] == pat[i - k]);
                let d = i - k;
                assert((gone + d) % n == d) by {
                    vstd::arithmetic::div_mod::lemma_add_mod_noop(gone, d, n);
                    vstd::arithmetic::div_mod::lemma_small_mod(d as nat, n as nat);
                }
            }
        }
    } else {
        assert(s.take(s.len() as int) =~= s);
        vstd::arithmetic::div_mod::lemma_small_mod(0, n as nat);
        lemma_stands_at(s, pat, s.len() - n);
    }
}

/// Blanks are put behind a text until it is as wide as is asked; a text that is wider
/// is left as it is.
pub proof fn law_padding_adds_blanks(s: &str, width: usize, r: String)
    requires
        call_ensures(pad, (s, width), r),
    ensures
        r@.len() == if s@.len() >= width {
            s@.len() as int
        } else {
            width as int
        },
        forall|k: int| 0 <= k < s@.len() ==> #[trigger] r@[k] == s@[k],
        forall|k: int| s@.len() <= k < r@.len() ==> #[trigger] r@[k] == ' ',
{
}

/// Copies of a text are taken off the end, all of them and nothing else.
pub proof fn law_copies_at_the_end_go(s: &[char], pat: &[char], r: Vec<char>)
    requires
        call_ensures(without_back, (s, pat), r),
        pat@.len() > 0,
    ensures
        r@.len() <= s@.len(),
        s@.take(r@.len() as int) == r@,
        !stands_at(r@, pat@, r@.len() - pat@.len()),
        (s@.len() - r@.len()) % pat@.len() as int == 0,
        forall|i: int|
            r@.len() <= i < s@.len() ==> #[trigger] s@[i] == pat@[(i - r@.len())
                % pat@.len() as int],
{
    lemma_strip_back(s@, pat@);
}

/// A text that does not end with `.local`, say, is left as it is, and one copy of it at
/// the end is taken off.
pub proof fn lemma_strip_back_once(s: Seq<char>, pat: Seq<char>)
    requires
        pat.len() > 0,
        !stands_at(s, pat, s.len() - pat.len()),
    ensures
        strip_back(s, pat) == s,
        strip_back(s + pat, pat) == s,
{
    lemma_stands_at(s, pat, s.len() - pat.len());
    let t = s + pat;
    assert(t.subrange(s.len() as int, (s.len() + pat.len()) as int) =~= pat);
    assert(t.take(t.len() - pat.len()) =~= s);
    assert(occurs_at(t, pat, t.len() - pat.len()));
}

/// A text that is not begun by a copy is left as it is, and one copy before it is taken
/// off.
pub proof fn law_copy_at_the_front_goes(s: &[char], pat: &[char], r: Vec<char>)
    requires
        call_ensures(without_front, (s, pat), r),
        pat@.len() > 0,
    ensures
        !stands_at(r@, pat@, 0),
        !stands_at(s@, pat@, 0) ==> r@ == s@,
        forall|t: Seq<char>|
            s@ == #[trigger] (pat@ + t) && !stands_at(t, pat@, 0) ==> r@ == t,
{
    lemma_stands_at(s@, pat@, 0);
    lemma_strip_front_stops(s@, pat@);
    lemma_stands_at(r@, pat@, 0);
    assert forall|t: Seq<char>|
        s@ == #[trigger] (pat@ + t) && !stands_at(t, pat@, 0) implies r@ == t by {
        lemma_strip_front_once(t, pat@);
    }
}

proof fn lemma_strip_front_stops(s: Seq<char>, pat: Seq<char>)
    requires
        pat.len() > 0,
    ensures
        !starts_with(strip_front(s, pat), pat),
    decreases s.len(),
{
    if starts_with(s, pat) {
        lemma_strip_front_stops(s.skip(pat.len() as int), pat);
    }
}

pub proof fn lemma_strip_front_once(t: Seq<char>, pat: Seq<char>)
    requires
        pat.len() > 0,
        !stands_at(t, pat, 0),
    ensures
        strip_front(t, pat) == t,
        strip_front(pat + t, pat) == t,
{
    lemma_stands_at(t, pat, 0);
    let s = pat + t;
    assert(s.subrange(0, pat.len() as int) =~= pat);
    assert(s.skip(pat.len() as int) =~= t);
    assert(starts_with(s, pat));
    assert(strip_front(s, pat) == strip_front(t, pat));
}

/// What stands before the first place is kept, and the place is replaced.
pub proof fn lemma_first_place(a: Seq<char>, from: Seq<char>, b: Seq<char>, to: Seq<char>)
    requires
        from.len() > 0,
        forall|i: int| stands_at(a + from + b, from, i) ==> i >= a.len(),
    ensures
        replace_all(a + from + b, from, to) == a + to + replace_all(b, from, to),
        replace_first(a + from + b, from, to) == a + to + b,
    decreases a.len(),
{
    let s = a + from + b;
    if a.len() == 0 {
        assert(s.subrange(0, from.len() as int) =~= from);
        assert(starts_with(s, from));
        assert(s.skip(from.len() as int) =~= b);
        assert(a + to + replace_all(b, from, to) =~= to + replace_all(b, from, to));
        assert(a + to + b =~= to + b);
    } else {
        lemma_stands_at(s, from, 0);
        let t = a.skip(1) + from + b;
        assert(s.skip(1) =~= t);
        assert forall|i: int| stands_at(t, from, i) implies i >= a.skip(1).len() by {
            assert(stands_at(s, from, i + 1)) by {
                assert forall|k: int| 0 <= k < from.len() implies s[i + 1 + k]
                    == #[trigger] from[k] by {
                    assert(t[i + k] == from[k]);
                }
            }
        }
        lemma_first_place(a.skip(1), from, b, to);
        assert(seq![s[0]] + (a.skip(1) + to + replace_all(b, from, to)) =~= a + to + replace_all(
            b,
            from,
            to,
        ));
        assert(seq![s[0]] + (a.skip(1) + to + b) =~= a + to + b);
    }
}

/// Replacing goes by the first place where the text stands: what is before is kept, the
/// new text takes its place, and the same is done to what is behind. Where it stands
/// nowhere, everything is kept.
pub proof fn law_every_place_is_replaced(
    s: &[char],
    from: &[char],
    to: &[char],
    r: Vec<char>,
    a: Seq<char>,
    b: &[char],
    rest: Vec<char>,
)
    requires
        from@.len() > 0,
        call_ensures(replaced, (s, from, to), r),
        call_ensures(replaced, (b, from, to), rest),
    ensures
        (forall|i: int| !stands_at(s@, from@, i)) ==> r@ == s@,
        s@ == a + from@ + b@ && (forall|i: int| stands_at(s@, from@, i) ==> i >= a.len()) ==> r@
            == a + to@ + rest@,
{
    if forall|i: int| !stands_at(s@, from@, i) {
        lemma_stands_in(s@, from@);
        lemma_nothing_to_replace(s@, from@, to@);
    }
    if s@ == a + from@ + b@ && (forall|i: int| stands_at(s@, from@, i) ==> i >= a.len()) {
        lemma_first_place(a, from@, b@, to@);
    }
}

/// Only the first place where the text stands is replaced.
pub proof fn law_first_place_is_replaced(
    s: &[char],
    from: &[char],
    to: &[char],
    r: Vec<char>,
    a: Seq<char>,
    b: Seq<char>,
)
    requires
        from@.len() > 0,
        call_ensures(replaced_first, (s, from, to), r),
    ensures
        (forall|i: int| !stands_at(s@, from@, i)) ==> r@ == s@,
        s@ == a + from@ + b && (forall|i: int| stands_at(s@, from@, i) ==> i >= a.len()) ==> r@ == a
            + to@ + b,
{
    if forall|i: int| !stands_at(s@, from@, i) {
        lemma_stands_in(s@, from@);
        lemma_nothing_to_replace(s@, from@, to@);
    }
    if s@ == a + from@ + b && (forall|i: int| stands_at(s@, from@, i) ==> i >= a.len()) {
        lemma_first_place(a, from@, b, to@);
    }
}

/// White space is what counts as such, and only `A` to `Z` become small.
pub proof fn law_characters_are_told_apart(c: char, space: bool, small: char)
    requires
        call_ensures(is_space_char, (c,), space),
        call_ensures(to_lower_char, (c,), small),
    ensures
        space <==> white(c),
        'A' <= c <= 'Z' ==> small as int == c as int + 32,
        !('A' <= c <= 'Z') ==> small == c,
{
}

/// Small letters take the place of capitals, character by character.
pub proof fn law_capitals_become_small(s: &[char], r: Vec<char>)
    requires
        call_ensures(to_lower, (s,), r),
    ensures
        r@.len() == s@.len(),
        forall|k: int| 0 <= k < r@.len() ==> twins(#[trigger] r@[k], s@[k]) && !('A' <= r@[k]
            <= 'Z'),
{
    assert forall|k: int| 0 <= k < r@.len() implies twins(#[trigger] r@[k], s@[k]) && !('A' <= r@[k]
        <= 'Z') by {
        assert(r@[k] == lower_char(s@[k]));
    }
}

/// A text is found among characters exactly if they stand one behind the other somewhere.
pub proof fn law_characters_are_found(s: &[char], pat: &[char], r: bool)
    requires
        call_ensures(holds, (s, pat), r),
    ensures
        r <==> exists|i: int| stands_at(s@, pat@, i),
{
    lemma_stands_in(s@, pat@);
}

/// White space goes from the front, from the end, or from both, all of it and nothing
/// else.
pub proof fn law_white_space_goes_where_asked(
    s: &[char],
    a: Vec<char>,
    b: Vec<char>,
    c: Vec<char>,
)
    requires
        call_ensures(skip_space, (s,), a),
        call_ensures(drop_space, (s,), b),
        call_ensures(trimmed, (s,), c),
    ensures
        a@.len() <= s@.len() && b@.len() <= s@.len(),
        a@ == s@.skip(s@.len() - a@.len()) && all_white(s@.take(s@.len() - a@.len())),
        a@.len() > 0 ==> !white(a@[0]),
        b@ == s@.take(b@.len() as int) && all_white(s@.skip(b@.len() as int)),
        b@.len() > 0 ==> !white(b@[b@.len() - 1]),
        exists|x: Seq<char>, y: Seq<char>|
            all_white(x) && all_white(y) && s@ == #[trigger] (x + c@ + y),
        bare(c@),
{
    let n = lemma_trim_start_cuts(s@);
    let m = lemma_trim_end_cuts(s@);
    let (x, y) = lemma_trim(s@);
    assert(s@ == x + c@ + y);
}

/// The first place of a character cuts a text in what is before and what is behind.
pub proof fn lemma_cut_at(a: Seq<char>, c: char, b: Seq<char>)
    requires
        free_of(a, c),
    ensures
        first_of(a + seq![c] + b, c) == a.len(),
        (a + seq![c] + b).take(a.len() as int) == a,
        (a + seq![c] + b).skip(a.len() as int + 1) == b,
        a.len() < (a + seq![c] + b).len(),
{
    let s = a + seq![c] + b;
    assert forall|j: int| 0 <= j < a.len() implies s[j] != c by {
        assert(s[j] == a[j]);
    }
    assert(s[a.len() as int] == c);
    lemma_first_of_is(s, c, a.len() as int);
    assert(s.take(a.len() as int) =~= a);
    assert(s.skip(a.len() as int + 1) =~= b);
}

} // verus!
