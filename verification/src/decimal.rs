//! Numbers written in decimal.
use vstd::prelude::*;

use crate::plain::{number, numeric};
use crate::text::chars_of;

verus! {

/// The character for the digit `d`.
pub open spec fn digit(d: nat) -> char {
    (0x30 + d) as u8 as char
}

/// `n` in decimal, without leading zeros.
pub open spec fn decimal(n: nat) -> Seq<char>
    decreases n,
{
    if n < 10 {
        seq![digit(n)]
    } else {
        decimal(n / 10).push(digit(n % 10))
    }
}

/// `c` is one of `0`..`9`.
pub open spec fn is_digit(c: char) -> bool {
    0x30 <= c as int <= 0x39
}

/// Every character of `s` is a digit.
pub open spec fn all_digits(s: Seq<char>) -> bool {
    forall|i: int| 0 <= i < s.len() ==> is_digit(#[trigger] s[i])
}

/// The number that a sequence of digits stands for.
pub open spec fn value(s: Seq<char>) -> nat
    decreases s.len(),
{
    if s.len() == 0 {
        0
    } else {
        value(s.drop_last()) * 10 + (s.last() as int - 0x30) as nat
    }
}

/// The digits of a number that may be written with a plus sign.
pub open spec fn unsigned_digits(s: Seq<char>) -> Seq<char> {
    if s.len() > 0 && s[0] == '+' {
        s.skip(1)
    } else {
        s
    }
}

/// The number that `s` stands for, if it is digits with at most a plus sign
/// before them and comes to no more than `max`.
pub open spec fn unsigned(s: Seq<char>, max: nat) -> Option<nat> {
    let d = unsigned_digits(s);
    if d.len() > 0 && all_digits(d) && value(d) <= max {
        Some(value(d))
    } else {
        None
    }
}

/// Whether `c` is a digit.
pub fn is_digit_char(c: char) -> (r: bool)
    ensures
        r == is_digit(c),
{
    let n: u32 = c as u32;
    0x30 <= n && n <= 0x39
}

/// `n` in decimal.
pub fn to_decimal(n: u64) -> (s: String)
    ensures
        s@ == decimal(n as nat),
    decreases n,
{
    let c: char = (0x30 + (n % 10) as u8) as char;
    if n < 10 {
        let mut s: String = String::new();
        s.push(c);
        assert(s@ =~= decimal(n as nat));
        s
    } else {
        let mut s: String = to_decimal(n / 10);
        s.push(c);
        s
    }
}

/// The number that `s` stands for, up to `max`.
pub fn parse_unsigned(s: &str, max: u64) -> (r: Option<u64>)
    ensures
        r matches Some(n) ==> unsigned(s@, max as nat) == Some(n as nat),
        r is None ==> unsigned(s@, max as nat) is None,
{
    let v = chars_of(s);
    let n: usize = v.len();
    let from: usize = if n > 0 && v[0] == '+' {
        1
    } else {
        0
    };
    let ghost d = unsigned_digits(s@);
    if from == n {
        return None;
    }
    let mut i: usize = from;
    let mut acc: u128 = 0;
    assert(d.take(0) =~= Seq::<char>::empty());
    while i < n
        invariant
            v@ == s@,
            n == v@.len(),
            from <= i <= n,
            from < n,
            d == unsigned_digits(s@),
            d == v@.skip(from as int),
            all_digits(d.take(i - from)),
            acc == value(d.take(i - from)),
            acc <= max,
        decreases n - i,
    {
        let c: char = v[i];
        let ghost here = d.take(i - from);
        let ghost next = d.take(i - from + 1);
        assert(d[i - from] == c);
        if !is_digit_char(c) {
            return None;
        }
        assert(next =~= here.push(c));
        assert(next.drop_last() =~= here);
        let more: u128 = acc * 10 + (c as u32 - 0x30) as u128;
        assert(more == value(next));
        if more > max as u128 {
            proof {
                lemma_value_grows(d, i - from + 1);
            }
            return None;
        }
        assert forall|j: int| 0 <= j < next.len() implies is_digit(#[trigger] next[j]) by {
            if j < here.len() {
                assert(here[j] == next[j]);
            }
        }
        acc = more;
        i = i + 1;
    }
    assert(d.take(n - from) =~= d);
    Some(acc as u64)
}

/// More digits never make a number smaller.
proof fn lemma_value_grows(d: Seq<char>, k: int)
    requires
        0 <= k <= d.len(),
    ensures
        all_digits(d) ==> value(d.take(k)) <= value(d),
    decreases d.len(),
{
    if k == d.len() {
        assert(d.take(k) =~= d);
    } else if all_digits(d) {
        let f = d.drop_last();
        assert forall|j: int| 0 <= j < f.len() implies is_digit(#[trigger] f[j]) by {
            assert(f[j] == d[j]);
        }
        lemma_value_grows(f, k);
        assert(f.take(k) =~= d.take(k));
        assert(is_digit(d[d.len() - 1]));
    }
}

proof fn lemma_decimal(n: nat)
    ensures
        decimal(n).len() > 0,
        all_digits(decimal(n)),
        value(decimal(n)) == n,
    decreases n,
{
    let last: char = digit(n % 10);
    assert(is_digit(last) && last as int - 0x30 == n % 10);
    if n < 10 {
        assert(decimal(n).drop_last() =~= Seq::<char>::empty());
        assert(value(decimal(n).drop_last()) == 0);
        assert(decimal(n).last() == digit(n));
    } else {
        let front = decimal(n / 10);
        lemma_decimal(n / 10);
        assert(decimal(n).drop_last() =~= front);
        assert forall|j: int| 0 <= j < decimal(n).len() implies is_digit(
            #[trigger] decimal(n)[j],
        ) by {
            if j < front.len() {
                assert(decimal(n)[j] == front[j]);
            }
        }
    }
}

/// A number that was written is read back.
pub proof fn law_written_number_is_read_back(n: nat, max: nat)
    requires
        n <= max,
    ensures
        unsigned(decimal(n), max) == Some(n),
{
    lemma_decimal(n);
    assert(is_digit(decimal(n)[0]));
    assert(unsigned_digits(decimal(n)) == decimal(n));
}

proof fn lemma_number(s: Seq<char>)
    requires
        all_digits(s),
    ensures
        number(s) == value(s),
    decreases s.len(),
{
    if s.len() > 0 {
        let f = s.drop_last();
        assert forall|j: int| 0 <= j < f.len() implies is_digit(#[trigger] f[j]) by {
            assert(f[j] == s[j]);
        }
        lemma_number(f);
        assert(is_digit(s[s.len() - 1]));
    }
}

pub proof fn lemma_numeric(s: Seq<char>)
    ensures
        numeric(s) <==> s.len() > 0 && all_digits(s),
        numeric(s) ==> number(s) == value(s),
{
    if s.len() > 0 && all_digits(s) {
        assert forall|k: int| 0 <= k < s.len() implies '0' <= #[trigger] s[k] <= '9' by {
            assert(is_digit(s[k]));
        }
        lemma_number(s);
    }
    if numeric(s) {
        assert forall|k: int| 0 <= k < s.len() implies is_digit(#[trigger] s[k]) by {
            assert('0' <= s[k] <= '9');
        }
    }
}

/// A number in decimal is digits that stand for it, and begins with a zero only where
/// the zero is all of it.
pub proof fn lemma_decimal_reads(n: nat)
    ensures
        numeric(decimal(n)),
        number(decimal(n)) == n,
        decimal(n)[0] == '0' ==> decimal(n).len() == 1,
    decreases n,
{
    lemma_decimal(n);
    lemma_numeric(decimal(n));
    if n >= 10 {
        lemma_decimal_reads(n / 10);
        assert(decimal(n)[0] == decimal(n / 10)[0]);
        if decimal(n)[0] == '0' {
            assert(decimal(n / 10).len() == 1);
            assert(decimal(n / 10).drop_last() =~= Seq::<char>::empty());
            assert(number(decimal(n / 10).drop_last()) == 0);
            assert(number(decimal(n / 10)) == 0);
        }
    }
}

/// A number is written as the digits that stand for it, without zeros before it.
pub proof fn law_number_is_written(n: u64, s: String)
    requires
        call_ensures(to_decimal, (n,), s),
    ensures
        numeric(s@),
        number(s@) == n,
        s@[0] == '0' ==> s@.len() == 1,
{
    lemma_decimal_reads(n as nat);
}

/// A number is read exactly from digits that stand for one within the bound, with or
/// without a plus sign before them.
pub proof fn law_number_is_read(s: &str, max: u64, r: Option<u64>)
    requires
        call_ensures(parse_unsigned, (s, max), r),
    ensures
        s@.len() > 0 && s@[0] == '+' ==> ({
            let d = s@.skip(1);
            &&& r is Some <==> numeric(d) && number(d) <= max
            &&& r is Some ==> r->0 == number(d)
        }),
        !(s@.len() > 0 && s@[0] == '+') ==> ({
            &&& r is Some <==> numeric(s@) && number(s@) <= max
            &&& r is Some ==> r->0 == number(s@)
        }),
{
    lemma_numeric(s@);
    lemma_numeric(s@.skip(1));
}

/// Ten characters are digits.
pub proof fn law_ten_digits(c: char, r: bool)
    requires
        call_ensures(is_digit_char, (c,), r),
    ensures
        r <==> '0' <= c <= '9',
{
}

} // verus!
