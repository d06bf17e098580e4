//! Captured samples and the bytes that stand for them on the wire.
use vstd::prelude::*;

use crate::plain::{distance, signed2, signed4, unsigned4};
use crate::proto::{le16, le32, of_le16, of_le32, u16_le, u32_le, Format};

verus! {

/// A batch of signed integer samples as a device delivers them.
pub enum Pcm {
    I8(Vec<i8>),
    I16(Vec<i16>),
    I32(Vec<i32>),
}

/// A batch of samples in a wire format. A float sample is its bit pattern.
pub enum WireSamples {
    S16(Vec<i16>),
    S32(Vec<i32>),
    F32(Vec<u32>),
}

/// The sample that an 8-bit value stands for at 16 bits.
pub open spec fn i8_to_i16(s: i8) -> int {
    s * 256
}

/// The sample that an 8-bit value stands for at 32 bits.
pub open spec fn i8_to_i32(s: i8) -> int {
    s * 16777216
}

/// The sample that a 16-bit value stands for at 32 bits.
pub open spec fn i16_to_i32(s: i16) -> int {
    s * 65536
}

/// The sample that a 32-bit value stands for at 16 bits: the lower half is cut off.
pub open spec fn i32_to_i16(s: i32) -> int {
    s as int / 65536
}

impl Pcm {
    /// The number of samples.
    pub open spec fn count(self) -> nat {
        match self {
            Pcm::I8(v) => v@.len(),
            Pcm::I16(v) => v@.len(),
            Pcm::I32(v) => v@.len(),
        }
    }

    /// Sample `i` as a number.
    pub open spec fn at(self, i: int) -> int {
        match self {
            Pcm::I8(v) => v@[i] as int,
            Pcm::I16(v) => v@[i] as int,
            Pcm::I32(v) => v@[i] as int,
        }
    }

    /// Sample `i` at 16 bits.
    pub open spec fn s16_at(self, i: int) -> int {
        match self {
            Pcm::I8(v) => i8_to_i16(v@[i]),
            Pcm::I16(v) => v@[i] as int,
            Pcm::I32(v) => i32_to_i16(v@[i]),
        }
    }

    /// Sample `i` at 32 bits.
    pub open spec fn s32_at(self, i: int) -> int {
        match self {
            Pcm::I8(v) => i8_to_i32(v@[i]),
            Pcm::I16(v) => i16_to_i32(v@[i]),
            Pcm::I32(v) => v@[i] as int,
        }
    }
}

/// Samples that are unsigned with the middle at 32768, made signed.
pub fn center_u16(samples: &[u16]) -> (r: Vec<i16>)
    ensures
        r@.len() == samples@.len(),
        forall|i: int| 0 <= i < r@.len() ==> #[trigger] r@[i] == samples@[i] - 32768,
{
    let mut r: Vec<i16> = Vec::new();
    let n: usize = samples.len();
    for i in 0..n
        invariant
            n == samples@.len(),
            r@.len() == i,
            forall|j: int| 0 <= j < i ==> #[trigger] r@[j] == samples@[j] - 32768,
    {
        r.push((samples[i] as i32 - 32768) as i16);
    }
    r
}

/// Samples that are unsigned with the middle at 128, made signed.
pub fn center_u8(samples: &[u8]) -> (r: Vec<i8>)
    ensures
        r@.len() == samples@.len(),
        forall|i: int| 0 <= i < r@.len() ==> #[trigger] r@[i] == samples@[i] - 128,
{
    let mut r: Vec<i8> = Vec::new();
    let n: usize = samples.len();
    for i in 0..n
        invariant
            n == samples@.len(),
            r@.len() == i,
            forall|j: int| 0 <= j < i ==> #[trigger] r@[j] == samples@[j] - 128,
    {
        r.push((samples[i] as i16 - 128) as i8);
    }
    r
}

fn upper_half(s: i32) -> (r: i16)
    ensures
        r == i32_to_i16(s),
{
    let h: i32 = s >> 16;
    assert(h == s >> 16 ==> -32768 <= h && h <= 32767 && h * 65536 <= s && s < h * 65536 + 65536)
        by (bit_vector);
    h as i16
}

/// The samples at 16 bits.
pub fn to_s16(pcm: &Pcm) -> (r: Vec<i16>)
    ensures
        r@.len() == pcm.count(),
        forall|i: int| 0 <= i < r@.len() ==> #[trigger] r@[i] == pcm.s16_at(i),
{
    let mut r: Vec<i16> = Vec::new();
    match pcm {
        Pcm::I8(v) => {
            let n: usize = v.len();
            for i in 0..n
                invariant
                    n == v@.len(),
                    r@.len() == i,
                    forall|j: int| 0 <= j < i ==> #[trigger] r@[j] == i8_to_i16(v@[j]),
            {
                r.push(v[i] as i16 * 256);
            }
        },
        Pcm::I16(v) => {
            let n: usize = v.len();
            for i in 0..n
                invariant
                    n == v@.len(),
                    r@.len() == i,
                    forall|j: int| 0 <= j < i ==> #[trigger] r@[j] == v@[j],
            {
                r.push(v[i]);
            }
        },
        Pcm::I32(v) => {
            let n: usize = v.len();
            for i in 0..n
                invariant
                    n == v@.len(),
                    r@.len() == i,
                    forall|j: int| 0 <= j < i ==> #[trigger] r@[j] == i32_to_i16(v@[j]),
            {
                r.push(upper_half(v[i]));
            }
        },
    }
    r
}

/// The samples at 32 bits.
pub fn to_s32(pcm: &Pcm) -> (r: Vec<i32>)
    ensures
        r@.len() == pcm.count(),
        forall|i: int| 0 <= i < r@.len() ==> #[trigger] r@[i] == pcm.s32_at(i),
{
    let mut r: Vec<i32> = Vec::new();
    match pcm {
        Pcm::I8(v) => {
            let n: usize = v.len();
            for i in 0..n
                invariant
                    n == v@.len(),
                    r@.len() == i,
                    forall|j: int| 0 <= j < i ==> #[trigger] r@[j] == i8_to_i32(v@[j]),
            {
                r.push(v[i] as i32 * 16777216);
            }
        },
        Pcm::I16(v) => {
            let n: usize = v.len();
            for i in 0..n
                invariant
                    n == v@.len(),
                    r@.len() == i,
                    forall|j: int| 0 <= j < i ==> #[trigger] r@[j] == i16_to_i32(v@[j]),
            {
                r.push(v[i] as i32 * 65536);
            }
        },
        Pcm::I32(v) => {
            let n: usize = v.len();
            for i in 0..n
                invariant
                    n == v@.len(),
                    r@.len() == i,
                    forall|j: int| 0 <= j < i ==> #[trigger] r@[j] == v@[j],
            {
                r.push(v[i]);
            }
        },
    }
    r
}

/// How far a sample is from silence.
pub open spec fn magnitude(v: int) -> int {
    if v < 0 {
        -v
    } else {
        v
    }
}

fn louder(peak: u32, v: i32) -> (r: u32)
    ensures
        r == if magnitude(v as int) > peak {
            magnitude(v as int)
        } else {
            peak as int
        },
{
    let m: u32 = if v < 0 {
        (-(v as i64)) as u32
    } else {
        v as u32
    };
    if m > peak {
        m
    } else {
        peak
    }
}

/// `peak` is the largest magnitude among the first `n` samples, or 0.
pub open spec fn is_peak(pcm: Pcm, n: int, peak: int) -> bool {
    &&& forall|i: int| 0 <= i < n ==> magnitude(#[trigger] pcm.at(i)) <= peak
    &&& peak == 0 || exists|i: int| 0 <= i < n && magnitude(#[trigger] pcm.at(i)) == peak
}

/// The largest magnitude among the samples.
pub fn peak_abs(pcm: &Pcm) -> (peak: u32)
    ensures
        is_peak(*pcm, pcm.count() as int, peak as int),
{
    let mut peak: u32 = 0;
    match pcm {
        Pcm::I8(v) => {
            let n: usize = v.len();
            for i in 0..n
                invariant
                    n == v@.len(),
                    *pcm == Pcm::I8(*v),
                    is_peak(*pcm, i as int, peak as int),
            {
                let ghost before = peak;
                peak = louder(peak, v[i] as i32);
                proof {
                    lemma_peak_step(*pcm, i as int, before as int, peak as int);
                }
            }
        },
        Pcm::I16(v) => {
            let n: usize = v.len();
            for i in 0..n
                invariant
                    n == v@.len(),
                    *pcm == Pcm::I16(*v),
                    is_peak(*pcm, i as int, peak as int),
            {
                let ghost before = peak;
                peak = louder(peak, v[i] as i32);
                proof {
                    lemma_peak_step(*pcm, i as int, before as int, peak as int);
                }
            }
        },
        Pcm::I32(v) => {
            let n: usize = v.len();
            for i in 0..n
                invariant
                    n == v@.len(),
                    *pcm == Pcm::I32(*v),
                    is_peak(*pcm, i as int, peak as int),
            {
                let ghost before = peak;
                peak = louder(peak, v[i]);
                proof {
                    lemma_peak_step(*pcm, i as int, before as int, peak as int);
                }
            }
        },
    }
    peak
}

impl Pcm {
    /// The magnitude that counts as full scale.
    pub open spec fn full_scale(self) -> int {
        match self {
            Pcm::I8(_) => 0x80,
            Pcm::I16(_) => 0x8000,
            Pcm::I32(_) => 0x8000_0000,
        }
    }
}

/// Whether a peak among the samples can be heard: it lies above a thousandth of
/// full scale, which is -60 dB.
pub fn is_audible(pcm: &Pcm, peak: u32) -> (r: bool)
    ensures
        r == (peak * 1000 > pcm.full_scale()),
{
    let full: u64 = match pcm {
        Pcm::I8(_) => 0x80,
        Pcm::I16(_) => 0x8000,
        Pcm::I32(_) => 0x8000_0000,
    };
    peak as u64 * 1000 > full
}

proof fn lemma_peak_step(pcm: Pcm, i: int, before: int, peak: int)
    requires
        0 <= i,
        0 <= before,
        is_peak(pcm, i, before),
        peak == if magnitude(pcm.at(i)) > before {
            magnitude(pcm.at(i))
        } else {
            before
        },
    ensures
        is_peak(pcm, i + 1, peak),
{
    if peak != 0 {
        if peak == before {
            let k = choose|k: int| 0 <= k < i && magnitude(#[trigger] pcm.at(k)) == before;
            assert(magnitude(pcm.at(k)) == peak);
        } else {
            assert(magnitude(pcm.at(i)) == peak);
        }
    }
}

/// The 16-bit pattern of `x` in two's complement.
pub open spec fn bits16(x: i16) -> u16 {
    if x < 0 {
        (x + 65536) as u16
    } else {
        x as u16
    }
}

/// The 32-bit pattern of `x` in two's complement.
pub open spec fn bits32(x: i32) -> u32 {
    if x < 0 {
        (x + 4294967296) as u32
    } else {
        x as u32
    }
}

fn pattern16(x: i16) -> (r: u16)
    ensures
        r == bits16(x),
{
    if x < 0 {
        (x as i32 + 65536) as u16
    } else {
        x as u16
    }
}

fn pattern32(x: i32) -> (r: u32)
    ensures
        r == bits32(x),
{
    if x < 0 {
        (x as i64 + 4294967296) as u32
    } else {
        x as u32
    }
}

impl WireSamples {
    /// The wire format that the samples are in.
    pub open spec fn format(self) -> Format {
        match self {
            WireSamples::S16(_) => Format::S16LE,
            WireSamples::S32(_) => Format::S32LE,
            WireSamples::F32(_) => Format::F32LE,
        }
    }

    /// The number of samples.
    pub open spec fn count(self) -> nat {
        match self {
            WireSamples::S16(v) => v@.len(),
            WireSamples::S32(v) => v@.len(),
            WireSamples::F32(v) => v@.len(),
        }
    }

    /// The bytes of sample `i`, the low one first.
    pub open spec fn sample_bytes(self, i: int) -> Seq<u8> {
        match self {
            WireSamples::S16(v) => le16(bits16(v@[i])),
            WireSamples::S32(v) => le32(bits32(v@[i])),
            WireSamples::F32(v) => le32(v@[i]),
        }
    }

    /// The bytes of the first `n` samples, one sample behind the other.
    pub open spec fn bytes(self, n: nat) -> Seq<u8>
        decreases n,
    {
        if n == 0 {
            Seq::empty()
        } else {
            self.bytes((n - 1) as nat) + self.sample_bytes(n - 1)
        }
    }
}

/// The samples as they go over the wire.
pub fn encode(samples: &WireSamples) -> (out: Vec<u8>)
    ensures
        out@ == samples.bytes(samples.count()),
{
    let mut out: Vec<u8> = Vec::new();
    match samples {
        WireSamples::S16(v) => {
            let n: usize = v.len();
            for i in 0..n
                invariant
                    n == v@.len(),
                    *samples == WireSamples::S16(*v),
                    out@ == samples.bytes(i as nat),
            {
                let b = u16_le(pattern16(v[i]));
                let ghost before = out@;
                out.push(b[0]);
                out.push(b[1]);
                assert(out@ =~= before + b@);
            }
        },
        WireSamples::S32(v) => {
            let n: usize = v.len();
            for i in 0..n
                invariant
                    n == v@.len(),
                    *samples == WireSamples::S32(*v),
                    out@ == samples.bytes(i as nat),
            {
                push4(&mut out, u32_le(pattern32(v[i])));
            }
        },
        WireSamples::F32(v) => {
            let n: usize = v.len();
            for i in 0..n
                invariant
                    n == v@.len(),
                    *samples == WireSamples::F32(*v),
                    out@ == samples.bytes(i as nat),
            {
                push4(&mut out, u32_le(v[i]));
            }
        },
    }
    out
}

fn push4(out: &mut Vec<u8>, b: [u8; 4])
    ensures
        final(out)@ == old(out)@ + b@,
{
    out.push(b[0]);
    out.push(b[1]);
    out.push(b[2]);
    out.push(b[3]);
    assert(out@ =~= old(out)@ + b@);
}

impl Pcm {
    /// The bytes of sample `i` in an integer wire format.
    pub open spec fn sample_bytes(self, wire: Format, i: int) -> Seq<u8> {
        match wire {
            Format::S16LE => le16(bits16(self.s16_at(i) as i16)),
            _ => le32(bits32(self.s32_at(i) as i32)),
        }
    }

    /// The bytes of the first `n` samples in an integer wire format.
    pub open spec fn bytes(self, wire: Format, n: nat) -> Seq<u8>
        decreases n,
    {
        if n == 0 {
            Seq::empty()
        } else {
            self.bytes(wire, (n - 1) as nat) + self.sample_bytes(wire, n - 1)
        }
    }
}

/// `w` holds the samples of `pcm`, each brought to the width of its format.
spec fn carries(w: WireSamples, pcm: Pcm) -> bool {
    match w {
        WireSamples::S16(v) => {
            &&& v@.len() == pcm.count()
            &&& forall|i: int| 0 <= i < v@.len() ==> #[trigger] v@[i] == pcm.s16_at(i)
        },
        WireSamples::S32(v) => {
            &&& v@.len() == pcm.count()
            &&& forall|i: int| 0 <= i < v@.len() ==> #[trigger] v@[i] == pcm.s32_at(i)
        },
        WireSamples::F32(_) => false,
    }
}

proof fn lemma_carried_bytes(w: WireSamples, pcm: Pcm, n: nat)
    requires
        carries(w, pcm),
        n <= pcm.count(),
    ensures
        w.bytes(n) == pcm.bytes(w.format(), n),
    decreases n,
{
    if n > 0 {
        lemma_carried_bytes(w, pcm, (n - 1) as nat);
    }
}

/// The samples in the integer wire format asked for. The float format is not
/// made here: its samples come as bit patterns.
pub fn encode_pcm(pcm: &Pcm, wire: Format) -> (r: Option<Vec<u8>>)
    ensures
        r is None <==> wire is F32LE,
        r matches Some(out) ==> out@ == pcm.bytes(wire, pcm.count()),
{
    match wire {
        Format::S16LE => {
            let w = WireSamples::S16(to_s16(pcm));
            proof {
                lemma_carried_bytes(w, *pcm, pcm.count());
            }
            Some(encode(&w))
        },
        Format::S32LE => {
            let w = WireSamples::S32(to_s32(pcm));
            proof {
                lemma_carried_bytes(w, *pcm, pcm.count());
            }
            Some(encode(&w))
        },
        Format::F32LE => None,
    }
}

/// The 16-bit sample that two bytes stand for.
pub open spec fn s16_of(b: Seq<u8>) -> int {
    if of_le16(b) < 32768 {
        of_le16(b)
    } else {
        of_le16(b) - 65536
    }
}

/// The 32-bit sample that four bytes stand for.
pub open spec fn s32_of(b: Seq<u8>) -> int {
    if of_le32(b) < 2147483648 {
        of_le32(b)
    } else {
        of_le32(b) - 4294967296
    }
}

/// The bytes of a sample give the sample back.
pub proof fn law_sample_is_read_back(a: i16, b: i32, c: u32)
    ensures
        s16_of(le16(bits16(a))) == a,
        s32_of(le32(bits32(b))) == b,
        of_le32(le32(c)) == c,
{
    let x: u32 = bits32(b);
    assert(of_le32(le32(x)) == x);
}

/// Widening a sample and narrowing it again gives it back, so a stream at 32
/// bits loses nothing of samples that were captured at 16 or 8.
pub proof fn law_widening_is_lossless(a: i8, b: i16)
    ensures
        i32_to_i16(i8_to_i32(a) as i32) == i8_to_i16(a),
        i32_to_i16(i16_to_i32(b) as i32) == b,
        i16_to_i32(i8_to_i16(a) as i16) == i8_to_i32(a),
{
}

/// The stream carries its samples one behind the other: it is as long as they
/// are together, and sample `i` stands at `i` times the sample size.
pub proof fn law_samples_stand_in_order(w: WireSamples, n: nat, i: int)
    requires
        0 <= i < n,
    ensures
        w.bytes(n).len() == n * w.format().sample_size(),
        w.bytes(n).subrange(
            i * w.format().sample_size(),
            i * w.format().sample_size() + w.format().sample_size(),
        ) == w.sample_bytes(i),
    decreases n,
{
    let size: int = w.format().sample_size() as int;
    let m: nat = (n - 1) as nat;
    lemma_bytes_len(w, n);
    lemma_bytes_len(w, m);
    assert(m * size + size == n * size) by (nonlinear_arith)
        requires
            n == m + 1,
    ;
    if i == m {
        assert(w.bytes(n).subrange(m * size, m * size + size) =~= w.sample_bytes(i));
    } else {
        law_samples_stand_in_order(w, m, i);
        assert(0 <= i * size && i * size + size <= m * size) by (nonlinear_arith)
            requires
                0 <= i,
                i + 1 <= m,
                size > 0,
        ;
        assert(w.bytes(n).subrange(i * size, i * size + size) =~= w.bytes(m).subrange(
            i * size,
            i * size + size,
        ));
    }
}

proof fn lemma_bytes_len(w: WireSamples, n: nat)
    ensures
        w.bytes(n).len() == n * w.format().sample_size(),
    decreases n,
{
    if n > 0 {
        let m: nat = (n - 1) as nat;
        let size: nat = w.format().sample_size();
        lemma_bytes_len(w, m);
        assert(m * size + size == n * size) by (nonlinear_arith)
            requires
                n == m + 1,
        ;
    } else {
        assert(0 * w.format().sample_size() == 0) by (nonlinear_arith);
    }
}

/// `w` holds the samples of `a` and behind them those of `b`.
pub open spec fn joins(w: WireSamples, a: WireSamples, b: WireSamples) -> bool {
    match (w, a, b) {
        (WireSamples::S16(v), WireSamples::S16(x), WireSamples::S16(y)) => v@ == x@ + y@,
        (WireSamples::S32(v), WireSamples::S32(x), WireSamples::S32(y)) => v@ == x@ + y@,
        (WireSamples::F32(v), WireSamples::F32(x), WireSamples::F32(y)) => v@ == x@ + y@,
        _ => false,
    }
}

/// Encoding two batches and putting the bytes together is encoding the batches
/// together: chunks need no framing.
pub proof fn law_batches_join(w: WireSamples, a: WireSamples, b: WireSamples)
    requires
        joins(w, a, b),
    ensures
        w.bytes(w.count()) == a.bytes(a.count()) + b.bytes(b.count()),
{
    lemma_join(w, a, b, b.count());
}

proof fn lemma_join(w: WireSamples, a: WireSamples, b: WireSamples, k: nat)
    requires
        joins(w, a, b),
        k <= b.count(),
    ensures
        w.bytes(a.count() + k) == a.bytes(a.count()) + b.bytes(k),
    decreases k,
{
    if k == 0 {
        lemma_front(w, a, b, a.count());
        assert(a.bytes(a.count()) + b.bytes(0) =~= a.bytes(a.count()));
    } else {
        let j: nat = (k - 1) as nat;
        lemma_join(w, a, b, j);
        assert(b.sample_bytes(j as int) == w.sample_bytes((a.count() + j) as int));
        assert(w.bytes(a.count() + k) =~= a.bytes(a.count()) + b.bytes(k));
    }
}

proof fn lemma_front(w: WireSamples, a: WireSamples, b: WireSamples, n: nat)
    requires
        joins(w, a, b),
        n <= a.count(),
    ensures
        w.bytes(n) == a.bytes(n),
    decreases n,
{
    if n > 0 {
        lemma_front(w, a, b, (n - 1) as nat);
        assert(w.sample_bytes(n - 1) == a.sample_bytes(n - 1));
    }
}

proof fn lemma_two_bytes(b: Seq<u8>, k: int, x: i16)
    requires
        0 <= k <= b.len() - 2,
        b.subrange(k, k + 2) == le16(bits16(x)),
    ensures
        signed2(b, k) == x,
{
    assert(b[k] == b.subrange(k, k + 2)[0] && b[k + 1] == b.subrange(k, k + 2)[1]);
}

proof fn lemma_four_bytes(b: Seq<u8>, k: int, x: u32)
    requires
        0 <= k <= b.len() - 4,
        b.subrange(k, k + 4) == le32(x),
    ensures
        unsigned4(b, k) == x,
        b[k + 3] >= 128 <==> x >= 2147483648,
{
    assert(b[k] == b.subrange(k, k + 4)[0] && b[k + 1] == b.subrange(k, k + 4)[1]);
    assert(b[k + 2] == b.subrange(k, k + 4)[2] && b[k + 3] == b.subrange(k, k + 4)[3]);
    assert(of_le32(le32(x)) == x);
}

proof fn lemma_times(n: int, size: int, width: int)
    requires
        size == width,
    ensures
        n * size == width * n,
{
    assert(n * size == width * n) by (nonlinear_arith)
        requires
            size == width,
    ;
}

/// What is encoded can be read off the bytes: as many samples as there were, each in its
/// place, and each the number or the bit pattern that it was.
pub proof fn law_encoded_samples_are_read_back(w: &WireSamples, out: Vec<u8>)
    requires
        call_ensures(encode, (w,), out),
    ensures
        match *w {
            WireSamples::S16(v) => {
                &&& out@.len() == 2 * v@.len()
                &&& forall|i: int| 0 <= i < v@.len() ==> signed2(out@, 2 * i) == #[trigger] v@[i]
            },
            WireSamples::S32(v) => {
                &&& out@.len() == 4 * v@.len()
                &&& forall|i: int| 0 <= i < v@.len() ==> signed4(out@, 4 * i) == #[trigger] v@[i]
            },
            WireSamples::F32(v) => {
                &&& out@.len() == 4 * v@.len()
                &&& forall|i: int| 0 <= i < v@.len() ==> unsigned4(out@, 4 * i) == #[trigger] v@[i]
            },
        },
{
    let n = w.count();
    let size = w.format().sample_size() as int;
    lemma_bytes_len(*w, n);
    match *w {
        WireSamples::S16(v) => {
            lemma_times(n as int, size, 2);
            assert forall|i: int| 0 <= i < v@.len() implies signed2(out@, 2 * i)
                == #[trigger] v@[i] by {
                law_samples_stand_in_order(*w, n, i);
                lemma_times(i, size, 2);
                lemma_two_bytes(out@, 2 * i, v@[i]);
            }
        },
        WireSamples::S32(v) => {
            lemma_times(n as int, size, 4);
            assert forall|i: int| 0 <= i < v@.len() implies signed4(out@, 4 * i)
                == #[trigger] v@[i] by {
                law_samples_stand_in_order(*w, n, i);
                lemma_times(i, size, 4);
                lemma_four_bytes(out@, 4 * i, bits32(v@[i]));
            }
        },
        WireSamples::F32(v) => {
            lemma_times(n as int, size, 4);
            assert forall|i: int| 0 <= i < v@.len() implies unsigned4(out@, 4 * i)
                == #[trigger] v@[i] by {
                law_samples_stand_in_order(*w, n, i);
                lemma_times(i, size, 4);
                lemma_four_bytes(out@, 4 * i, v@[i]);
            }
        },
    }
}

/// The bytes are the captured samples at 16 bits, each in its place: 8-bit samples 256
/// times as large, 16-bit ones as they are, and of 32-bit ones the upper half.
pub open spec fn tells16(b: Seq<u8>, pcm: Pcm) -> bool {
    match pcm {
        Pcm::I8(v) => {
            &&& b.len() == 2 * v@.len()
            &&& forall|i: int| 0 <= i < v@.len() ==> signed2(b, 2 * i) == 256 * #[trigger] v@[i]
        },
        Pcm::I16(v) => {
            &&& b.len() == 2 * v@.len()
            &&& forall|i: int| 0 <= i < v@.len() ==> signed2(b, 2 * i) == #[trigger] v@[i]
        },
        Pcm::I32(v) => {
            &&& b.len() == 2 * v@.len()
            &&& forall|i: int|
                0 <= i < v@.len() ==> 0 <= #[trigger] v@[i] - 65536 * signed2(b, 2 * i) < 65536
        },
    }
}

/// The bytes are the captured samples at 32 bits, each in its place: 8-bit samples
/// 16777216 times as large, 16-bit ones 65536 times, and 32-bit ones as they are.
pub open spec fn tells32(b: Seq<u8>, pcm: Pcm) -> bool {
    match pcm {
        Pcm::I8(v) => {
            &&& b.len() == 4 * v@.len()
            &&& forall|i: int|
                0 <= i < v@.len() ==> signed4(b, 4 * i) == 16777216 * #[trigger] v@[i]
        },
        Pcm::I16(v) => {
            &&& b.len() == 4 * v@.len()
            &&& forall|i: int| 0 <= i < v@.len() ==> signed4(b, 4 * i) == 65536 * #[trigger] v@[i]
        },
        Pcm::I32(v) => {
            &&& b.len() == 4 * v@.len()
            &&& forall|i: int| 0 <= i < v@.len() ==> signed4(b, 4 * i) == #[trigger] v@[i]
        },
    }
}

proof fn lemma_captured_in_order(pcm: Pcm, wire: Format, n: nat, i: int)
    requires
        wire !is F32LE,
        0 <= i < n,
    ensures
        pcm.bytes(wire, n).len() == n * wire.sample_size(),
        pcm.bytes(wire, n).subrange(
            i * wire.sample_size(),
            i * wire.sample_size() + wire.sample_size(),
        ) == pcm.sample_bytes(wire, i),
    decreases n,
{
    let size: int = wire.sample_size() as int;
    let m: nat = (n - 1) as nat;
    lemma_captured_len(pcm, wire, n);
    lemma_captured_len(pcm, wire, m);
    assert(m * size + size == n * size) by (nonlinear_arith)
        requires
            n == m + 1,
    ;
    if i == m {
        assert(pcm.bytes(wire, n).subrange(m * size, m * size + size) =~= pcm.sample_bytes(wire, i));
    } else {
        lemma_captured_in_order(pcm, wire, m, i);
        assert(0 <= i * size && i * size + size <= m * size) by (nonlinear_arith)
            requires
                0 <= i,
                i + 1 <= m,
                size > 0,
        ;
        assert(pcm.bytes(wire, n).subrange(i * size, i * size + size) =~= pcm.bytes(
            wire,
            m,
        ).subrange(i * size, i * size + size));
    }
}

proof fn lemma_captured_len(pcm: Pcm, wire: Format, n: nat)
    requires
        wire !is F32LE,
    ensures
        pcm.bytes(wire, n).len() == n * wire.sample_size(),
    decreases n,
{
    let size: nat = wire.sample_size();
    if n > 0 {
        let m: nat = (n - 1) as nat;
        lemma_captured_len(pcm, wire, m);
        assert(m * size + size == n * size) by (nonlinear_arith)
            requires
                n == m + 1,
        ;
    } else {
        assert(0 * size == 0) by (nonlinear_arith);
    }
}

pub proof fn lemma_captured_is_told(pcm: Pcm, wire: Format)
    ensures
        wire is S16LE ==> tells16(pcm.bytes(wire, pcm.count()), pcm),
        wire is S32LE ==> tells32(pcm.bytes(wire, pcm.count()), pcm),
{
    let n = pcm.count();
    let b = pcm.bytes(wire, n);
    let size = wire.sample_size() as int;
    if wire is S16LE {
        lemma_captured_len(pcm, wire, n);
        lemma_times(n as int, size, 2);
        assert forall|i: int| 0 <= i < n implies #[trigger] signed2(b, 2 * i) == pcm.s16_at(i) by {
            lemma_captured_in_order(pcm, wire, n, i);
            lemma_times(i, size, 2);
            lemma_two_bytes(b, 2 * i, pcm.s16_at(i) as i16);
        }
        match pcm {
            Pcm::I8(v) => {
                assert forall|i: int| 0 <= i < n implies signed2(b, 2 * i) == 256
                    * #[trigger] v@[i] by {
                    assert(signed2(b, 2 * i) == pcm.s16_at(i));
                }
            },
            Pcm::I16(v) => {
                assert forall|i: int| 0 <= i < n implies signed2(b, 2 * i) == #[trigger] v@[i] by {
                    assert(signed2(b, 2 * i) == pcm.s16_at(i));
                }
            },
            Pcm::I32(v) => {
                assert forall|i: int| 0 <= i < n implies 0 <= #[trigger] v@[i] - 65536 * signed2(
                    b,
                    2 * i,
                ) < 65536 by {
                    assert(signed2(b, 2 * i) == pcm.s16_at(i));
                }
            },
        }
    }
    if wire is S32LE {
        lemma_captured_len(pcm, wire, n);
        lemma_times(n as int, size, 4);
        assert forall|i: int| 0 <= i < n implies #[trigger] signed4(b, 4 * i) == pcm.s32_at(i) by {
            lemma_captured_in_order(pcm, wire, n, i);
            lemma_times(i, size, 4);
            lemma_four_bytes(b, 4 * i, bits32(pcm.s32_at(i) as i32));
        }
        match pcm {
            Pcm::I8(v) => {
                assert forall|i: int| 0 <= i < n implies signed4(b, 4 * i) == 16777216
                    * #[trigger] v@[i] by {
                    assert(signed4(b, 4 * i) == pcm.s32_at(i));
                }
            },
            Pcm::I16(v) => {
                assert forall|i: int| 0 <= i < n implies signed4(b, 4 * i) == 65536
                    * #[trigger] v@[i] by {
                    assert(signed4(b, 4 * i) == pcm.s32_at(i));
                }
            },
            Pcm::I32(v) => {
                assert forall|i: int| 0 <= i < n implies signed4(b, 4 * i) == #[trigger] v@[i] by {
                    assert(signed4(b, 4 * i) == pcm.s32_at(i));
                }
            },
        }
    }
}

/// Each captured sample is sent, in its place and with its value, at the width of the
/// wire format.
pub proof fn law_captured_samples_are_encoded(pcm: &Pcm, wire: Format, r: Option<Vec<u8>>)
    requires
        call_ensures(encode_pcm, (pcm, wire), r),
    ensures
        wire is F32LE ==> r is None,
        wire is S16LE ==> (r matches Some(b) && tells16(b@, *pcm)),
        wire is S32LE ==> (r matches Some(b) && tells32(b@, *pcm)),
{
    lemma_captured_is_told(*pcm, wire);
}

/// At another width there are as many samples as before, and each keeps its place and
/// its value: widened ones are larger by the same power of two throughout, and narrowed
/// ones are rounded down.
pub proof fn law_width_keeps_place_and_value(pcm: &Pcm, a: Vec<i16>, b: Vec<i32>)
    requires
        call_ensures(to_s16, (pcm,), a),
        call_ensures(to_s32, (pcm,), b),
    ensures
        match *pcm {
            Pcm::I8(v) => {
                &&& a@.len() == v@.len() && b@.len() == v@.len()
                &&& forall|i: int| 0 <= i < v@.len() ==> a@[i] == 256 * #[trigger] v@[i]
                &&& forall|i: int| 0 <= i < v@.len() ==> b@[i] == 16777216 * #[trigger] v@[i]
            },
            Pcm::I16(v) => {
                &&& a@ == v@
                &&& b@.len() == v@.len()
                &&& forall|i: int| 0 <= i < v@.len() ==> b@[i] == 65536 * #[trigger] v@[i]
            },
            Pcm::I32(v) => {
                &&& b@ == v@
                &&& a@.len() == v@.len()
                &&& forall|i: int|
                    0 <= i < v@.len() ==> 0 <= #[trigger] v@[i] - 65536 * a@[i] < 65536
            },
        },
{
    match *pcm {
        Pcm::I8(v) => {
            assert forall|i: int| 0 <= i < v@.len() implies a@[i] == 256 * #[trigger] v@[i] by {
                assert(a@[i] == pcm.s16_at(i));
            }
            assert forall|i: int| 0 <= i < v@.len() implies b@[i] == 16777216 * #[trigger] v@[i] by {
                assert(b@[i] == pcm.s32_at(i));
            }
        },
        Pcm::I16(v) => {
            assert(a@ =~= v@) by {
                assert forall|i: int| 0 <= i < v@.len() implies a@[i] == v@[i] by {
                    assert(a@[i] == pcm.s16_at(i));
                }
            }
            assert forall|i: int| 0 <= i < v@.len() implies b@[i] == 65536 * #[trigger] v@[i] by {
                assert(b@[i] == pcm.s32_at(i));
            }
        },
        Pcm::I32(v) => {
            assert(b@ =~= v@) by {
                assert forall|i: int| 0 <= i < v@.len() implies b@[i] == v@[i] by {
                    assert(b@[i] == pcm.s32_at(i));
                }
            }
            assert forall|i: int| 0 <= i < v@.len() implies 0 <= #[trigger] v@[i] - 65536 * a@[i]
                < 65536 by {
                assert(a@[i] == pcm.s16_at(i));
            }
        },
    }
}

/// `peak` is how far the sample farthest from zero is from it; 0 if there is none.
pub open spec fn farthest(pcm: Pcm, peak: int) -> bool {
    match pcm {
        Pcm::I8(v) => {
            &&& forall|i: int| 0 <= i < v@.len() ==> distance(#[trigger] v@[i] as int) <= peak
            &&& peak == 0 || exists|i: int|
                0 <= i < v@.len() && distance(#[trigger] v@[i] as int) == peak
        },
        Pcm::I16(v) => {
            &&& forall|i: int| 0 <= i < v@.len() ==> distance(#[trigger] v@[i] as int) <= peak
            &&& peak == 0 || exists|i: int|
                0 <= i < v@.len() && distance(#[trigger] v@[i] as int) == peak
        },
        Pcm::I32(v) => {
            &&& forall|i: int| 0 <= i < v@.len() ==> distance(#[trigger] v@[i] as int) <= peak
            &&& peak == 0 || exists|i: int|
                0 <= i < v@.len() && distance(#[trigger] v@[i] as int) == peak
        },
    }
}

pub proof fn lemma_farthest(pcm: Pcm, peak: int)
    requires
        is_peak(pcm, pcm.count() as int, peak),
    ensures
        farthest(pcm, peak),
{
    let n = pcm.count() as int;
    assert forall|i: int| 0 <= i < n implies distance(#[trigger] pcm.at(i)) <= peak by {
        assert(magnitude(pcm.at(i)) <= peak);
    }
    if peak != 0 {
        let k = choose|k: int| 0 <= k < n && magnitude(#[trigger] pcm.at(k)) == peak;
        assert(distance(pcm.at(k)) == peak);
        match pcm {
            Pcm::I8(v) => {
                assert(distance(v@[k] as int) == peak);
            },
            Pcm::I16(v) => {
                assert(distance(v@[k] as int) == peak);
            },
            Pcm::I32(v) => {
                assert(distance(v@[k] as int) == peak);
            },
        }
    }
    match pcm {
        Pcm::I8(v) => {
            assert forall|i: int| 0 <= i < n implies distance(#[trigger] v@[i] as int) <= peak by {
                assert(distance(pcm.at(i)) <= peak);
            }
        },
        Pcm::I16(v) => {
            assert forall|i: int| 0 <= i < n implies distance(#[trigger] v@[i] as int) <= peak by {
                assert(distance(pcm.at(i)) <= peak);
            }
        },
        Pcm::I32(v) => {
            assert forall|i: int| 0 <= i < n implies distance(#[trigger] v@[i] as int) <= peak by {
                assert(distance(pcm.at(i)) <= peak);
            }
        },
    }
}

/// The peak of a batch is how far its farthest sample is from zero. It is audible
/// exactly if that is more than a thousandth of what the width of the samples can hold.
pub proof fn law_peak_is_the_farthest_sample(pcm: &Pcm, peak: u32, r: bool)
    requires
        call_ensures(peak_abs, (pcm,), peak),
        call_ensures(is_audible, (pcm, peak), r),
    ensures
        farthest(*pcm, peak as int),
        pcm is I8 ==> (r <==> 1000 * peak > 128),
        pcm is I16 ==> (r <==> 1000 * peak > 32768),
        pcm is I32 ==> (r <==> 1000 * peak > 2147483648),
{
    lemma_farthest(*pcm, peak as int);
}

/// Unsigned samples become signed by their distance from the middle of their scale, each
/// in its place.
pub proof fn law_middle_becomes_zero(a: &[u16], b: &[u8], x: Vec<i16>, y: Vec<i8>)
    requires
        call_ensures(center_u16, (a,), x),
        call_ensures(center_u8, (b,), y),
    ensures
        x@.len() == a@.len(),
        y@.len() == b@.len(),
        forall|i: int| 0 <= i < a@.len() ==> #[trigger] x@[i] + 32768 == a@[i],
        forall|i: int| 0 <= i < b@.len() ==> #[trigger] y@[i] + 128 == b@[i],
{
}

} // verus!
