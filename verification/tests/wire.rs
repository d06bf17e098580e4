use rpi_camilla_bridge::proto::{Format, Header, ProtoError, HEADER_LEN, MAGIC, VERSION};

fn read(buf: &[u8]) -> Result<Header, ProtoError> {
    let mut rest = buf;
    Header::read_from(&mut rest)
}

#[test]
fn header_roundtrip() {
    let h = Header {
        format: Format::S32LE,
        channels: 2,
        sample_rate: 96_000,
    };
    let mut buf = Vec::new();
    h.write_to(&mut buf).unwrap();
    assert_eq!(buf.len(), HEADER_LEN);
    assert_eq!(&buf[0..4], &MAGIC);
    assert_eq!(buf[4], VERSION);

    let parsed = read(&buf).unwrap();
    assert_eq!(parsed, h);
}

#[test]
fn header_roundtrip_all_formats() {
    for fmt in [Format::S16LE, Format::S32LE, Format::F32LE] {
        for ch in [1u16, 2, 8] {
            for rate in [44_100u32, 48_000, 96_000, 192_000] {
                let h = Header {
                    format: fmt,
                    channels: ch,
                    sample_rate: rate,
                };
                let mut buf = Vec::new();
                h.write_to(&mut buf).unwrap();
                let parsed = read(&buf).unwrap();
                assert_eq!(parsed, h);
            }
        }
    }
}

#[test]
fn rejects_bad_magic() {
    let buf = vec![
        b'X', b'X', b'X', b'X', VERSION, 0, 2, 0, 0x80, 0xBB, 0, 0, 0, 0, 0, 0,
    ];
    let err = read(&buf).unwrap_err();
    assert!(matches!(err, ProtoError::BadMagic(m) if &m == b"XXXX"));
}

#[test]
fn rejects_bad_version() {
    let mut buf = Vec::with_capacity(HEADER_LEN);
    buf.extend_from_slice(&MAGIC);
    buf.push(99);
    buf.push(0);
    buf.extend_from_slice(&2u16.to_le_bytes());
    buf.extend_from_slice(&48_000u32.to_le_bytes());
    buf.extend_from_slice(&0u32.to_le_bytes());
    let err = read(&buf).unwrap_err();
    assert!(matches!(err, ProtoError::BadVersion(99)));
}

#[test]
fn rejects_bad_format() {
    let mut buf = Vec::with_capacity(HEADER_LEN);
    buf.extend_from_slice(&MAGIC);
    buf.push(VERSION);
    buf.push(7);
    buf.extend_from_slice(&2u16.to_le_bytes());
    buf.extend_from_slice(&48_000u32.to_le_bytes());
    buf.extend_from_slice(&0u32.to_le_bytes());
    let err = read(&buf).unwrap_err();
    assert!(matches!(err, ProtoError::BadFormat(7)));
}

#[test]
fn rejects_zero_channels() {
    let h_buf = {
        let mut b = Vec::with_capacity(HEADER_LEN);
        b.extend_from_slice(&MAGIC);
        b.push(VERSION);
        b.push(Format::S16LE.as_u8());
        b.extend_from_slice(&0u16.to_le_bytes());
        b.extend_from_slice(&48_000u32.to_le_bytes());
        b.extend_from_slice(&0u32.to_le_bytes());
        b
    };
    let err = read(&h_buf).unwrap_err();
    assert!(matches!(err, ProtoError::BadChannels(0)));
}

#[test]
fn rejects_zero_sample_rate() {
    let h_buf = {
        let mut b = Vec::with_capacity(HEADER_LEN);
        b.extend_from_slice(&MAGIC);
        b.push(VERSION);
        b.push(Format::S16LE.as_u8());
        b.extend_from_slice(&2u16.to_le_bytes());
        b.extend_from_slice(&0u32.to_le_bytes());
        b.extend_from_slice(&0u32.to_le_bytes());
        b
    };
    let err = read(&h_buf).unwrap_err();
    assert!(matches!(err, ProtoError::BadSampleRate(0)));
}

#[test]
fn format_u8_roundtrip_exhaustive() {
    for f in [Format::S16LE, Format::S32LE, Format::F32LE] {
        assert_eq!(Format::try_from(f.as_u8()).unwrap(), f);
    }
    for v in 3u8..=255u8 {
        assert!(Format::try_from(v).is_err());
    }
}

#[test]
fn truncated_header_is_io_error() {
    let buf = vec![b'C', b'D', b'S', b'P', VERSION];
    let err = read(&buf).unwrap_err();
    assert!(matches!(err, ProtoError::Io(_)));
}

#[test]
fn frame_bytes_matches_format_and_channels() {
    let h = Header {
        format: Format::S32LE,
        channels: 2,
        sample_rate: 96_000,
    };
    assert_eq!(h.frame_bytes(), 8);
    assert_eq!(
        Header {
            format: Format::S16LE,
            channels: 8,
            sample_rate: 48_000,
        }
        .frame_bytes(),
        16
    );
}

#[test]
fn header_bytes_are_little_endian() {
    let h = Header {
        format: Format::F32LE,
        channels: 0x0102,
        sample_rate: 0x0a0b_0c0d,
    };
    let mut buf = vec![9u8];
    h.write_to(&mut buf).unwrap();
    assert_eq!(
        buf,
        vec![9, b'C', b'D', b'S', b'P', 1, 2, 2, 1, 0x0d, 0x0c, 0x0b, 0x0a, 0, 0, 0, 0]
    );
}

#[test]
fn reading_leaves_the_stream_behind_the_header() {
    let h = Header {
        format: Format::S16LE,
        channels: 1,
        sample_rate: 8000,
    };
    let mut buf = Vec::new();
    h.write_to(&mut buf).unwrap();
    buf.push(7);
    buf.push(8);
    let mut rest = &buf[..];
    assert_eq!(Header::read_from(&mut rest).unwrap(), h);
    assert_eq!(rest, &[7, 8]);
}

#[test]
fn reserved_bytes_may_hold_anything() {
    let h = Header {
        format: Format::S16LE,
        channels: 1,
        sample_rate: 8000,
    };
    let mut buf = Vec::new();
    h.write_to(&mut buf).unwrap();
    buf[12] = 1;
    buf[15] = 255;
    assert_eq!(read(&buf).unwrap(), h);
}

#[test]
fn header_errors_have_messages() {
    assert_eq!(
        ProtoError::BadMagic(*b"XXXX").message(),
        "bad magic: expected [67, 68, 83, 80], got [88, 88, 88, 88]"
    );
    assert_eq!(
        ProtoError::BadVersion(99).message(),
        "unsupported protocol version 99 (this build supports 1)"
    );
    assert_eq!(ProtoError::BadFormat(7).message(), "unsupported format code 7");
    assert_eq!(ProtoError::BadChannels(0).message(), "invalid channel count 0");
    assert_eq!(ProtoError::BadSampleRate(0).message(), "invalid sample rate 0");
    assert_eq!(read(&[]).unwrap_err().message(), "failed to fill whole buffer");
}
