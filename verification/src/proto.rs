//! The wire protocol.
//!
//! A fixed header of 16 bytes is sent once at the start of a connection and is
//! followed by a continuous stream of interleaved little-endian PCM frames in
//! the declared format. There is no framing and no checksum: the transport
//! guarantees integrity.
//!
//! ```text
//! offset  size  field
//! 0       4     magic     = b"CDSP"
//! 4       1     version   = 1
//! 5       1     format    (0=S16LE, 1=S32LE, 2=F32LE)
//! 6       2     channels  (u16 LE)
//! 8       4     sample_rate (u32 LE)
//! 12      4     reserved  (u32 LE, zero on send)
//! ```
use vstd::prelude::*;
use vstd::slice::slice_subrange;
use vstd::std_specs::convert::TryFromSpecImpl;

use crate::decimal::{decimal, lemma_decimal_reads, to_decimal};
use crate::plain::{number, numeric, unsigned2, unsigned4};

verus! {

/// The four bytes that every header begins with: `CDSP`.
pub const MAGIC: [u8; 4] = [0x43, 0x44, 0x53, 0x50];

/// The protocol version that is written and understood.
pub const VERSION: u8 = 1;

/// The length of a header in bytes.
pub const HEADER_LEN: usize = 16;

/// The sample format of the stream.
#[derive(Debug, Clone, Copy, PartialEq, Eq, Structural)]
pub enum Format {
    S16LE,
    S32LE,
    F32LE,
}

/// What a connection declares about the stream that follows.
#[derive(Debug, Clone, Copy, PartialEq, Eq, Structural)]
pub struct Header {
    pub format: Format,
    pub channels: u16,
    pub sample_rate: u32,
}

/// Why the byte source failed.
#[derive(Debug, Clone, Copy, PartialEq, Eq, Structural)]
pub enum IoFault {
    /// It ended before a whole header had come.
    UnexpectedEof,
}

/// Why a header could not be read or written.
#[derive(Debug, Clone, Copy, PartialEq, Eq)]
pub enum ProtoError {
    BadMagic([u8; 4]),
    BadVersion(u8),
    BadFormat(u8),
    BadChannels(u16),
    BadSampleRate(u32),
    Io(IoFault),
}

impl Format {
    /// The size of one sample.
    pub open spec fn sample_size(self) -> nat {
        match self {
            Format::S16LE => 2,
            Format::S32LE => 4,
            Format::F32LE => 4,
        }
    }

    /// The byte that stands for the format in a header.
    pub open spec fn code(self) -> u8 {
        match self {
            Format::S16LE => 0,
            Format::S32LE => 1,
            Format::F32LE => 2,
        }
    }

    /// The size of one sample in bytes.
    pub fn bytes_per_sample(self) -> (n: usize)
        ensures
            n == self.sample_size(),
    {
        match self {
            Format::S16LE => 2,
            Format::S32LE => 4,
            Format::F32LE => 4,
        }
    }

    /// The byte that stands for the format in a header.
    pub fn as_u8(self) -> (b: u8)
        ensures
            b == self.code(),
    {
        match self {
            Format::S16LE => 0,
            Format::S32LE => 1,
            Format::F32LE => 2,
        }
    }
}

/// Four bytes as a list of numbers.
pub open spec fn byte_list(b: Seq<u8>) -> Seq<char> {
    "["@ + decimal(b[0] as nat) + ", "@ + decimal(b[1] as nat) + ", "@ + decimal(b[2] as nat)
        + ", "@ + decimal(b[3] as nat) + "]"@
}

fn byte_list_text(b: [u8; 4]) -> (r: String)
    ensures
        r@ == byte_list(b@),
{
    let mut r: String = "[".to_owned();
    r.append(to_decimal(b[0] as u64).as_str());
    r.append(", ");
    r.append(to_decimal(b[1] as u64).as_str());
    r.append(", ");
    r.append(to_decimal(b[2] as u64).as_str());
    r.append(", ");
    r.append(to_decimal(b[3] as u64).as_str());
    r.append("]");
    r
}

impl ProtoError {
    /// What is wrong, for people.
    pub fn message(self) -> (r: String)
        ensures
            r@ == match self {
                ProtoError::BadMagic(m) => "bad magic: expected "@ + byte_list(MAGIC@) + ", got "@
                    + byte_list(m@),
                ProtoError::BadVersion(v) => "unsupported protocol version "@ + decimal(v as nat)
                    + " (this build supports "@ + decimal(VERSION as nat) + ")"@,
                ProtoError::BadFormat(f) => "unsupported format code "@ + decimal(f as nat),
                ProtoError::BadChannels(c) => "invalid channel count "@ + decimal(c as nat),
                ProtoError::BadSampleRate(s) => "invalid sample rate "@ + decimal(s as nat),
                ProtoError::Io(_) => "failed to fill whole buffer"@,
            },
    {
        match self {
            ProtoError::BadMagic(m) => {
                let mut r: String = "bad magic: expected ".to_owned();
                r.append(byte_list_text(MAGIC).as_str());
                r.append(", got ");
                r.append(byte_list_text(m).as_str());
                r
            },
            ProtoError::BadVersion(v) => {
                let mut r: String = "unsupported protocol version ".to_owned();
                r.append(to_decimal(v as u64).as_str());
                r.append(" (this build supports ");
                r.append(to_decimal(VERSION as u64).as_str());
                r.append(")");
                r
            },
            ProtoError::BadFormat(f) => {
                let mut r: String = "unsupported format code ".to_owned();
                r.append(to_decimal(f as u64).as_str());
                r
            },
            ProtoError::BadChannels(c) => {
                let mut r: String = "invalid channel count ".to_owned();
                r.append(to_decimal(c as u64).as_str());
                r
            },
            ProtoError::BadSampleRate(s) => {
                let mut r: String = "invalid sample rate ".to_owned();
                r.append(to_decimal(s as u64).as_str());
                r
            },
            ProtoError::Io(_) => "failed to fill whole buffer".to_owned(),
        }
    }
}

/// The format that a byte stands for.
pub open spec fn format_of(v: u8) -> Result<Format, ProtoError> {
    if v == 0 {
        Ok(Format::S16LE)
    } else if v == 1 {
        Ok(Format::S32LE)
    } else if v == 2 {
        Ok(Format::F32LE)
    } else {
        Err(ProtoError::BadFormat(v))
    }
}

impl TryFromSpecImpl<u8> for Format {
    open spec fn obeys_try_from_spec() -> bool {
        true
    }

    open spec fn try_from_spec(v: u8) -> Result<Self, ProtoError> {
        format_of(v)
    }
}

impl TryFrom<u8> for Format {
    type Error = ProtoError;

    fn try_from(v: u8) -> (r: Result<Self, ProtoError>) {
        match v {
            0 => Ok(Format::S16LE),
            1 => Ok(Format::S32LE),
            2 => Ok(Format::F32LE),
            _ => Err(ProtoError::BadFormat(v)),
        }
    }
}

/// The two bytes of `x`, the low one first.
pub open spec fn le16(x: u16) -> Seq<u8> {
    seq![(x % 256) as u8, (x / 256) as u8]
}

/// The four bytes of `x`, the low one first.
pub open spec fn le32(x: u32) -> Seq<u8> {
    seq![
        (x % 256) as u8,
        (x / 256 % 256) as u8,
        (x / 65536 % 256) as u8,
        (x / 16777216) as u8,
    ]
}

/// The number that two bytes, the low one first, stand for.
pub open spec fn of_le16(s: Seq<u8>) -> int {
    s[0] + 256 * s[1]
}

/// The number that four bytes, the low one first, stand for.
pub open spec fn of_le32(s: Seq<u8>) -> int {
    s[0] + 256 * s[1] + 65536 * s[2] + 16777216 * s[3]
}

/// The two bytes of `x`, the low one first.
pub fn u16_le(x: u16) -> (b: [u8; 2])
    ensures
        b@ == le16(x),
{
    [(x % 256) as u8, (x / 256) as u8]
}

/// The four bytes of `x`, the low one first.
pub fn u32_le(x: u32) -> (b: [u8; 4])
    ensures
        b@ == le32(x),
{
    [
        (x % 256) as u8,
        (x / 256 % 256) as u8,
        (x / 65536 % 256) as u8,
        (x / 16777216) as u8,
    ]
}

impl Header {
    /// The sixteen bytes of the header on the wire.
    pub open spec fn wire(self) -> Seq<u8> {
        MAGIC@ + seq![VERSION, self.format.code()] + le16(self.channels) + le32(self.sample_rate)
            + seq![0u8, 0, 0, 0]
    }

    /// A header that a receiver accepts: it declares a channel and a rate.
    pub open spec fn valid(self) -> bool {
        self.channels > 0 && self.sample_rate > 0
    }

    /// The size of one frame, a sample of each channel, in bytes.
    pub fn frame_bytes(&self) -> (n: usize)
        ensures
            n == self.format.sample_size() * self.channels,
            self.channels > 0 ==> n > 0,
    {
        let size: usize = self.format.bytes_per_sample();
        let channels: usize = self.channels as usize;
        assert(size * channels <= 4 * 65535 && (channels > 0 ==> size * channels > 0))
            by (nonlinear_arith)
            requires
                2 <= size <= 4,
                0 <= channels <= 65535,
        ;
        size * channels
    }

    /// Appends the header to what `w` holds. A byte vector never refuses, so
    /// the result is always `Ok`.
    pub fn write_to(&self, w: &mut Vec<u8>) -> (r: Result<(), ProtoError>)
        ensures
            r is Ok,
            final(w)@ == old(w)@ + self.wire(),
            self.wire().len() == HEADER_LEN,
    {
        let c = u16_le(self.channels);
        let s = u32_le(self.sample_rate);
        w.push(MAGIC[0]);
        w.push(MAGIC[1]);
        w.push(MAGIC[2]);
        w.push(MAGIC[3]);
        w.push(VERSION);
        w.push(self.format.as_u8());
        w.push(c[0]);
        w.push(c[1]);
        w.push(s[0]);
        w.push(s[1]);
        w.push(s[2]);
        w.push(s[3]);
        w.push(0);
        w.push(0);
        w.push(0);
        w.push(0);
        assert(w@ =~= old(w)@ + self.wire());
        Ok(())
    }

    /// Takes a header off the front of `r`.
    ///
    /// The sixteen bytes are consumed whatever they hold, so that after `Ok`
    /// the source stands at the first byte of the stream.
    pub fn read_from(r: &mut &[u8]) -> (h: Result<Self, ProtoError>)
        ensures
            h == header_of((*old(r))@),
            (*old(r))@.len() >= HEADER_LEN ==> (*final(r))@ == (*old(r))@.skip(HEADER_LEN as int),
            (*old(r))@.len() < HEADER_LEN ==> (*final(r))@.len() == 0,
            h matches Err(ProtoError::BadMagic(m)) ==> m@ == (*old(r))@.take(4),
    {
        let buf: &[u8] = *r;
        let total: usize = buf.len();
        if total < HEADER_LEN {
            *r = slice_subrange(buf, total, total);
            return Err(ProtoError::Io(IoFault::UnexpectedEof));
        }
        *r = slice_subrange(buf, HEADER_LEN, total);
        assert((*r)@ =~= buf@.skip(HEADER_LEN as int));

        if buf[0] != MAGIC[0] || buf[1] != MAGIC[1] || buf[2] != MAGIC[2] || buf[3] != MAGIC[3] {
            let got: [u8; 4] = [buf[0], buf[1], buf[2], buf[3]];
            proof {
                assert(got@ =~= buf@.take(4));
                assert(buf@.take(4) != MAGIC@);
                lemma_array4(got, first_four(buf@));
            }
            return Err(ProtoError::BadMagic(got));
        }
        assert(buf@.take(4) =~= MAGIC@);
        if buf[4] != VERSION {
            return Err(ProtoError::BadVersion(buf[4]));
        }
        let format = match Format::try_from(buf[5]) {
            Ok(f) => f,
            Err(e) => {
                return Err(e);
            },
        };
        let channels: u16 = buf[6] as u16 + 256 * (buf[7] as u16);
        let sample_rate: u32 = buf[8] as u32 + 256 * (buf[9] as u32) + 65536 * (buf[10] as u32)
            + 16777216 * (buf[11] as u32);
        if channels == 0 {
            return Err(ProtoError::BadChannels(0));
        }
        if sample_rate == 0 {
            return Err(ProtoError::BadSampleRate(0));
        }
        Ok(Header { format, channels, sample_rate })
    }
}

/// The first four bytes of `s`.
pub open spec fn first_four(s: Seq<u8>) -> [u8; 4] {
    choose|a: [u8; 4]| a@ == s.take(4)
}

proof fn lemma_array4(a: [u8; 4], b: [u8; 4])
    requires
        a@ == b@,
    ensures
        a == b,
{
    assert(a =~= b);
}

/// What the bytes at the front of a source declare: a header, or the first
/// thing that is wrong with them.
pub open spec fn header_of(s: Seq<u8>) -> Result<Header, ProtoError> {
    if s.len() < HEADER_LEN {
        Err(ProtoError::Io(IoFault::UnexpectedEof))
    } else if s.take(4) != MAGIC@ {
        Err(ProtoError::BadMagic(first_four(s)))
    } else if s[4] != VERSION {
        Err(ProtoError::BadVersion(s[4]))
    } else if format_of(s[5]) is Err {
        Err(ProtoError::BadFormat(s[5]))
    } else if of_le16(s.subrange(6, 8)) == 0 {
        Err(ProtoError::BadChannels(0))
    } else if of_le32(s.subrange(8, 12)) == 0 {
        Err(ProtoError::BadSampleRate(0))
    } else {
        Ok(
            Header {
                format: format_of(s[5])->Ok_0,
                channels: of_le16(s.subrange(6, 8)) as u16,
                sample_rate: of_le32(s.subrange(8, 12)) as u32,
            },
        )
    }
}

proof fn lemma_le16(x: u16)
    ensures
        of_le16(le16(x)) == x,
{
}

proof fn lemma_le32(x: u32)
    ensures
        of_le32(le32(x)) == x,
{
}

proof fn lemma_of_le16(s: Seq<u8>)
    requires
        s.len() == 2,
    ensures
        of_le16(s) <= u16::MAX,
        le16(of_le16(s) as u16) == s,
{
    assert(le16(of_le16(s) as u16) =~= s);
}

proof fn lemma_of_le32(s: Seq<u8>)
    requires
        s.len() == 4,
    ensures
        of_le32(s) <= u32::MAX,
        le32(of_le32(s) as u32) == s,
{
    let x: int = of_le32(s);
    let high: int = s[2] + 256 * s[3];
    let upper: int = s[1] + 256 * high;
    assert(x == s[0] + 256 * upper);
    assert(x % 256 == s[0] && x / 256 == upper);
    assert(upper % 256 == s[1] && x / 65536 == high);
    assert(high % 256 == s[2] && x / 16777216 == s[3]);
    assert(le32(x as u32) =~= s);
}

/// The bytes of a header, with the stream behind them, at the places where a
/// reader looks for them.
proof fn lemma_wire_fields(h: Header, stream: Seq<u8>)
    ensures
        h.wire().len() == HEADER_LEN,
        (h.wire() + stream).take(4) == MAGIC@,
        (h.wire() + stream)[4] == VERSION,
        (h.wire() + stream)[5] == h.format.code(),
        (h.wire() + stream).subrange(6, 8) == le16(h.channels),
        (h.wire() + stream).subrange(8, 12) == le32(h.sample_rate),
        (h.wire() + stream).skip(HEADER_LEN as int) == stream,
{
    let s = h.wire() + stream;
    assert(s.take(4) =~= MAGIC@);
    assert(s.subrange(6, 8) =~= le16(h.channels));
    assert(s.subrange(8, 12) =~= le32(h.sample_rate));
    assert(s.skip(HEADER_LEN as int) =~= stream);
}

/// A byte names a format exactly if it is the code of one, and then that one.
pub proof fn law_format_codes(f: Format, v: u8)
    ensures
        format_of(f.code()) == Ok::<Format, ProtoError>(f),
        format_of(v) is Ok <==> v < 3,
        format_of(v) matches Ok(g) ==> g.code() == v,
        v >= 3 ==> format_of(v) == Err::<Format, ProtoError>(ProtoError::BadFormat(v)),
{
}

/// A header that was written is read back, and the source then stands at the
/// first byte of the stream that follows it.
pub proof fn law_written_header_is_read_back(h: Header, stream: Seq<u8>)
    requires
        h.valid(),
    ensures
        header_of(h.wire() + stream) == Ok::<Header, ProtoError>(h),
        (h.wire() + stream).skip(HEADER_LEN as int) == stream,
{
    lemma_wire_fields(h, stream);
    lemma_le16(h.channels);
    lemma_le32(h.sample_rate);
    law_format_codes(h.format, 0);
}

/// A header without channels, or else without a rate, can be written but is
/// refused by every reader.
pub proof fn law_empty_header_is_refused(h: Header, stream: Seq<u8>)
    requires
        !h.valid(),
    ensures
        h.channels == 0 ==> header_of(h.wire() + stream) == Err::<Header, ProtoError>(
            ProtoError::BadChannels(0),
        ),
        h.channels > 0 ==> header_of(h.wire() + stream) == Err::<Header, ProtoError>(
            ProtoError::BadSampleRate(0),
        ),
{
    lemma_wire_fields(h, stream);
    lemma_le16(h.channels);
    lemma_le32(h.sample_rate);
    law_format_codes(h.format, 0);
}

/// What is read is valid, and writing it again gives the bytes that were read
/// back, with the reserved ones set to zero.
pub proof fn law_read_header_is_rewritten(s: Seq<u8>, h: Header)
    requires
        header_of(s) == Ok::<Header, ProtoError>(h),
    ensures
        h.valid(),
        h.wire() == s.take(12) + seq![0u8, 0, 0, 0],
{
    law_format_codes(h.format, s[5]);
    lemma_of_le16(s.subrange(6, 8));
    lemma_of_le32(s.subrange(8, 12));
    assert(s.take(4) == MAGIC@);
    assert(h.wire() =~= s.take(12) + seq![0u8, 0, 0, 0]) by {
        assert forall|i: int| 0 <= i < 12 implies h.wire()[i] == s[i] by {
            if i < 4 {
                assert(s.take(4)[i] == s[i]);
            } else if 6 <= i < 8 {
                assert(s.subrange(6, 8)[i - 6] == s[i]);
            } else if 8 <= i {
                assert(s.subrange(8, 12)[i - 8] == s[i]);
            }
        }
    }
}

/// The reserved bytes and the stream have no say in what a header declares.
pub proof fn law_reserved_bytes_are_ignored(s: Seq<u8>, t: Seq<u8>)
    requires
        s.len() >= HEADER_LEN,
        t.len() >= HEADER_LEN,
        s.take(12) == t.take(12),
    ensures
        header_of(s) == header_of(t),
{
    assert(s.take(4) =~= s.take(12).take(4));
    assert(t.take(4) =~= t.take(12).take(4));
    assert(s[4] == s.take(12)[4] && t[4] == t.take(12)[4]);
    assert(s[5] == s.take(12)[5] && t[5] == t.take(12)[5]);
    assert(s.subrange(6, 8) =~= s.take(12).subrange(6, 8));
    assert(t.subrange(6, 8) =~= t.take(12).subrange(6, 8));
    assert(s.subrange(8, 12) =~= s.take(12).subrange(8, 12));
    assert(t.subrange(8, 12) =~= t.take(12).subrange(8, 12));
}

/// A header is sixteen bytes behind what was there: `CDSP`, the version 1, a byte for
/// the format, the channel count and the rate, each with the low byte first, and four
/// zeros.
pub proof fn law_header_bytes(h: &Header, w: &mut Vec<u8>, r: Result<(), ProtoError>)
    requires
        call_ensures(Header::write_to, (h, w), r),
    ensures
        r is Ok,
        final(w)@.len() == old(w)@.len() + 16,
        final(w)@.take(old(w)@.len() as int) == old(w)@,
        ({
            let b = final(w)@.skip(old(w)@.len() as int);
            &&& b[0] == 'C' as u8 && b[1] == 'D' as u8 && b[2] == 'S' as u8 && b[3] == 'P' as u8
            &&& b[4] == 1
            &&& h.format is S16LE ==> b[5] == 0
            &&& h.format is S32LE ==> b[5] == 1
            &&& h.format is F32LE ==> b[5] == 2
            &&& unsigned2(b, 6) == h.channels
            &&& unsigned4(b, 8) == h.sample_rate
            &&& b[12] == 0 && b[13] == 0 && b[14] == 0 && b[15] == 0
        }),
{
    let b = h.wire();
    assert(final(w)@.skip(old(w)@.len() as int) =~= b);
    assert(final(w)@.take(old(w)@.len() as int) =~= old(w)@);
    lemma_le16(h.channels);
    lemma_le32(h.sample_rate);
    assert(b[6] == le16(h.channels)[0] && b[7] == le16(h.channels)[1]);
    assert(b[8] == le32(h.sample_rate)[0] && b[9] == le32(h.sample_rate)[1]);
    assert(b[10] == le32(h.sample_rate)[2] && b[11] == le32(h.sample_rate)[3]);
}

/// A header is accepted exactly if sixteen bytes have come that begin with `CDSP`, name
/// version 1 and one of the three formats, and declare at least one channel and a rate;
/// and then it is what the bytes declare. Else the first of these that fails is the
/// error. The sixteen bytes are used up in any case.
pub proof fn law_header_is_judged_by_its_bytes(
    src: &mut &[u8],
    r: Result<Header, ProtoError>,
)
    requires
        call_ensures(Header::read_from, (src,), r),
    ensures
        ({
            let b = (*old(src))@;
            let begins = b[0] == 'C' as u8 && b[1] == 'D' as u8 && b[2] == 'S' as u8 && b[3]
                == 'P' as u8;
            &&& b.len() < 16 ==> r == Err::<Header, ProtoError>(
                ProtoError::Io(IoFault::UnexpectedEof),
            )
            &&& b.len() >= 16 && !begins ==> (r matches Err(ProtoError::BadMagic(m)) && m@
                == b.take(4))
            &&& b.len() >= 16 && begins && b[4] != 1 ==> r == Err::<Header, ProtoError>(
                ProtoError::BadVersion(b[4]),
            )
            &&& b.len() >= 16 && begins && b[4] == 1 && b[5] > 2 ==> r == Err::<Header, ProtoError>(
                ProtoError::BadFormat(b[5]),
            )
            &&& b.len() >= 16 && begins && b[4] == 1 && b[5] <= 2 ==> {
                &&& unsigned2(b, 6) == 0 ==> r == Err::<Header, ProtoError>(
                    ProtoError::BadChannels(0),
                )
                &&& unsigned2(b, 6) != 0 && unsigned4(b, 8) == 0 ==> r == Err::<Header, ProtoError>(
                    ProtoError::BadSampleRate(0),
                )
                &&& unsigned2(b, 6) != 0 && unsigned4(b, 8) != 0 ==> {
                    &&& r matches Ok(h)
                    &&& h.channels == unsigned2(b, 6)
                    &&& h.sample_rate == unsigned4(b, 8)
                    &&& h.format is S16LE <==> b[5] == 0
                    &&& h.format is S32LE <==> b[5] == 1
                    &&& h.format is F32LE <==> b[5] == 2
                }
            }
            &&& (*final(src))@ == if b.len() >= 16 {
                b.skip(16)
            } else {
                Seq::empty()
            }
        }),
{
    let b = (*old(src))@;
    if b.len() >= 16 {
        assert(b.take(4)[0] == b[0] && b.take(4)[1] == b[1]);
        assert(b.take(4)[2] == b[2] && b.take(4)[3] == b[3]);
        if b[0] == 0x43 && b[1] == 0x44 && b[2] == 0x53 && b[3] == 0x50 {
            assert(b.take(4) =~= MAGIC@);
        }
        lemma_of_le16(b.subrange(6, 8));
        lemma_of_le32(b.subrange(8, 12));
        assert(of_le16(b.subrange(6, 8)) == unsigned2(b, 6));
        assert(of_le32(b.subrange(8, 12)) == unsigned4(b, 8));
    } else {
        assert((*final(src))@ =~= Seq::empty());
    }
}

/// A sample takes two bytes at 16 bits and four at 32, and a frame one sample for each
/// channel.
pub proof fn law_frame_is_a_sample_of_each_channel(h: Header, size: usize, frame: usize)
    requires
        call_ensures(Format::bytes_per_sample, (h.format,), size),
        call_ensures(Header::frame_bytes, (&h,), frame),
    ensures
        h.format is S16LE ==> size * 8 == 16,
        h.format is S32LE || h.format is F32LE ==> size * 8 == 32,
        frame == size * h.channels,
{
}

/// The text is `front`, a number, and `back`.
pub open spec fn tells_number(s: Seq<char>, front: Seq<char>, n: int, back: Seq<char>) -> bool {
    exists|d: Seq<char>| numeric(d) && number(d) == n && s == #[trigger] (front + d + back)
}

proof fn lemma_tells_number(front: Seq<char>, n: nat, back: Seq<char>)
    ensures
        tells_number(front + decimal(n) + back, front, n as int, back),
{
    lemma_decimal_reads(n);
}

/// What is wrong with a header is told by the value that is wrong.
pub proof fn law_error_tells_the_value(e: ProtoError, r: String)
    requires
        call_ensures(ProtoError::message, (e,), r),
    ensures
        e matches ProtoError::BadVersion(v) ==> tells_number(
            r@,
            "unsupported protocol version "@,
            v as int,
            " (this build supports "@ + seq!['1'] + ")"@,
        ),
        e matches ProtoError::BadFormat(f) ==> tells_number(
            r@,
            "unsupported format code "@,
            f as int,
            Seq::empty(),
        ),
        e matches ProtoError::BadChannels(c) ==> tells_number(
            r@,
            "invalid channel count "@,
            c as int,
            Seq::empty(),
        ),
        e matches ProtoError::BadSampleRate(s) ==> tells_number(
            r@,
            "invalid sample rate "@,
            s as int,
            Seq::empty(),
        ),
        e is Io ==> r@ == "failed to fill whole buffer"@,
        e matches ProtoError::BadMagic(m) ==> exists|a: Seq<char>, b: Seq<char>, c: Seq<char>, d: Seq<
            char,
        >|
            {
                &&& numeric(a) && number(a) == m[0]
                &&& numeric(b) && number(b) == m[1]
                &&& numeric(c) && number(c) == m[2]
                &&& numeric(d) && number(d) == m[3]
                &&& r@ == #[trigger] magic_text(a, b, c, d)
            },
{
    let none = Seq::<char>::empty();
    match e {
        ProtoError::BadVersion(v) => {
            let back = " (this build supports "@ + seq!['1'] + ")"@;
            assert(decimal(1) =~= seq!['1']);
            lemma_tells_number("unsupported protocol version "@, v as nat, back);
            assert(r@ =~= "unsupported protocol version "@ + decimal(v as nat) + back);
        },
        ProtoError::BadFormat(f) => {
            lemma_tells_number("unsupported format code "@, f as nat, none);
            assert(r@ =~= "unsupported format code "@ + decimal(f as nat) + none);
        },
        ProtoError::BadChannels(c) => {
            lemma_tells_number("invalid channel count "@, c as nat, none);
            assert(r@ =~= "invalid channel count "@ + decimal(c as nat) + none);
        },
        ProtoError::BadSampleRate(s) => {
            lemma_tells_number("invalid sample rate "@, s as nat, none);
            assert(r@ =~= "invalid sample rate "@ + decimal(s as nat) + none);
        },
        ProtoError::BadMagic(m) => {
            lemma_decimal_reads(m[0] as nat);
            lemma_decimal_reads(m[1] as nat);
            lemma_decimal_reads(m[2] as nat);
            lemma_decimal_reads(m[3] as nat);
            reveal_with_fuel(decimal, 3);
            reveal_strlit("[");
            reveal_strlit(", ");
            reveal_strlit("]");
            reveal_strlit("[67, 68, 83, 80]");
            assert(byte_list(MAGIC@) =~= "[67, 68, 83, 80]"@);
            assert(r@ =~= magic_text(
                decimal(m[0] as nat),
                decimal(m[1] as nat),
                decimal(m[2] as nat),
                decimal(m[3] as nat),
            ));
        },
        _ => {},
    }
}

/// What is said of four bytes that are not the right ones, from their digits.
pub open spec fn magic_text(a: Seq<char>, b: Seq<char>, c: Seq<char>, d: Seq<char>) -> Seq<char> {
    "bad magic: expected "@ + "[67, 68, 83, 80]"@ + ", got "@ + ("["@ + a + ", "@ + b + ", "@ + c
        + ", "@ + d + "]"@)
}

/// Numbers are written with the low byte first, and formats by their codes, which are read
/// back.
pub proof fn law_low_byte_comes_first(
    x: u16,
    y: u32,
    f: Format,
    a: [u8; 2],
    b: [u8; 4],
    c: u8,
)
    requires
        call_ensures(u16_le, (x,), a),
        call_ensures(u32_le, (y,), b),
        call_ensures(Format::as_u8, (f,), c),
    ensures
        unsigned2(a@, 0) == x,
        unsigned4(b@, 0) == y,
        f is S16LE <==> c == 0,
        f is S32LE <==> c == 1,
        f is F32LE <==> c == 2,
{
    lemma_le16(x);
    lemma_le32(y);
}

} // verus!
