use crossbeam_channel::bounded;
use rpi_camilla_bridge::activity::{link_step, stamp, ActivityTracker, LinkStep};
use rpi_camilla_bridge::audio_in::{
    accept_stream, can_capture, choose_config, device_label, find_named, format_quality, forward, forward_u16,
    forward_u8, open_capture, pick_device, pick_host, push, push_result, CaptureSpec, ConfigRange,
    Forwarded, Pick, Pushed, SampleKind, StreamPlan,
};
use rpi_camilla_bridge::listing::{list_devices, ConfigInfo, DeviceInfo, HostDevices, HostInfo};
use rpi_camilla_bridge::proto::Format;
use rpi_camilla_bridge::queue::{Ring, SendOutcome, TakeOutcome};
use rpi_camilla_bridge::samples::{
    center_u16, center_u8, encode, encode_pcm, is_audible, peak_abs, to_s16, to_s32, Pcm,
    WireSamples,
};

fn spec() -> CaptureSpec {
    CaptureSpec {
        rate: 48_000,
        channels: 2,
        wire_format: Format::S32LE,
    }
}

fn range(channels: u16, min_rate: u32, max_rate: u32, format: SampleKind) -> ConfigRange {
    ConfigRange {
        channels,
        min_rate,
        max_rate,
        format,
    }
}

#[test]
fn formats_rank_by_fidelity() {
    let order = [
        SampleKind::F32,
        SampleKind::I32,
        SampleKind::I16,
        SampleKind::U16,
        SampleKind::U8,
        SampleKind::I8,
    ];
    for pair in order.windows(2) {
        assert!(format_quality(pair[0]) > format_quality(pair[1]));
    }
    for last in [SampleKind::F64, SampleKind::U32, SampleKind::Other] {
        assert!(format_quality(SampleKind::I8) > format_quality(last));
    }
}

#[test]
fn the_best_range_that_covers_the_spec_is_chosen() {
    let ranges = [
        range(2, 8000, 48_000, SampleKind::U8),
        range(2, 44_100, 48_000, SampleKind::I16),
        range(2, 44_100, 47_999, SampleKind::F32),
        range(1, 44_100, 96_000, SampleKind::F32),
        range(2, 48_000, 96_000, SampleKind::U16),
    ];
    assert_eq!(choose_config(&ranges, &spec()), Some(1));
    let plan = open_capture(&ranges, &spec()).unwrap();
    assert_eq!((plan.channels, plan.rate, plan.format), (2, 48_000, SampleKind::I16));
}

#[test]
fn among_equals_the_last_range_is_chosen() {
    let ranges = [
        range(2, 1, 96_000, SampleKind::I32),
        range(2, 1, 48_000, SampleKind::I32),
        range(2, 1, 96_000, SampleKind::I16),
    ];
    assert_eq!(choose_config(&ranges, &spec()), Some(1));
}

#[test]
fn a_format_that_can_be_captured_is_preferred() {
    let plan = |a, b| {
        let ranges = [range(2, 1, 96_000, a), range(2, 1, 96_000, b)];
        open_capture(&ranges, &spec()).unwrap().format
    };
    assert_eq!(plan(SampleKind::F32, SampleKind::F64), SampleKind::F32);
    assert_eq!(plan(SampleKind::F64, SampleKind::I8), SampleKind::I8);
    assert_eq!(plan(SampleKind::I32, SampleKind::U32), SampleKind::I32);
    assert_eq!(plan(SampleKind::U8, SampleKind::I8), SampleKind::U8);
    assert!(!can_capture(plan(SampleKind::U32, SampleKind::Other)));
}

#[test]
fn without_a_range_the_default_has_to_do() {
    assert_eq!(open_capture(&[], &spec()), None);
    assert_eq!(
        open_capture(&[range(2, 48_001, 96_000, SampleKind::F32)], &spec()),
        None
    );
}

#[test]
fn only_some_formats_can_be_captured() {
    for k in [
        SampleKind::F32,
        SampleKind::I32,
        SampleKind::I16,
        SampleKind::U16,
        SampleKind::U8,
        SampleKind::I8,
    ] {
        assert!(can_capture(k));
    }
    for k in [SampleKind::F64, SampleKind::U32, SampleKind::Other] {
        assert!(!can_capture(k));
    }
}

#[test]
fn labels_prefer_the_description() {
    assert_eq!(device_label(Some("Mic"), Some("hw:0")), "Mic");
    assert_eq!(device_label(None, Some("hw:0")), "hw:0");
    assert_eq!(device_label(None, None), "<unknown>");
}

#[test]
fn devices_are_found_by_name_in_either_case() {
    let names = vec!["Mic".to_string(), "Monitor of X".to_string(), "MIC".to_string()];
    assert_eq!(find_named(&names, "mic"), Some(0));
    assert_eq!(pick_device(&names, "monitor OF x"), Pick::Entry(1));
    assert_eq!(pick_device(&names, "default"), Pick::Default);
    assert_eq!(pick_device(&names, "Default"), Pick::Missing);
    assert_eq!(pick_host(&names, None), Pick::Default);
    assert_eq!(pick_host(&names, Some("")), Pick::Default);
    assert_eq!(pick_host(&names, Some("MIC")), Pick::Entry(0));
    assert_eq!(pick_host(&names, Some("jack")), Pick::Missing);
}

#[test]
fn unsigned_samples_are_centred() {
    assert_eq!(center_u16(&[0, 32_768, 65_535]), vec![-32_768, 0, 32_767]);
    assert_eq!(center_u8(&[0, 128, 255]), vec![-128, 0, 127]);
}

#[test]
fn samples_change_width_by_shifting() {
    assert_eq!(to_s16(&Pcm::I8(vec![-128, 1])), vec![-32_768, 256]);
    assert_eq!(to_s16(&Pcm::I16(vec![-3, 7])), vec![-3, 7]);
    assert_eq!(to_s16(&Pcm::I32(vec![-65_536, 65_535, -1])), vec![-1, 0, -1]);
    assert_eq!(to_s32(&Pcm::I8(vec![-1, 127])), vec![-16_777_216, 2_130_706_432]);
    assert_eq!(to_s32(&Pcm::I16(vec![-32_768, 1])), vec![i32::MIN, 65_536]);
    assert_eq!(to_s32(&Pcm::I32(vec![5, -5])), vec![5, -5]);
}

#[test]
fn samples_are_encoded_little_endian() {
    assert_eq!(encode(&WireSamples::S16(vec![1, -2])), vec![1, 0, 0xfe, 0xff]);
    assert_eq!(encode(&WireSamples::S32(vec![-2])), vec![0xfe, 0xff, 0xff, 0xff]);
    assert_eq!(
        encode(&WireSamples::F32(vec![1.0f32.to_bits()])),
        1.0f32.to_le_bytes().to_vec()
    );
    assert_eq!(
        encode_pcm(&Pcm::I16(vec![0x0102]), Format::S32LE),
        Some(vec![0, 0, 2, 1])
    );
    assert_eq!(encode_pcm(&Pcm::I16(vec![1]), Format::F32LE), None);
}

#[test]
fn batches_join_to_one_stream() {
    let mut joined = encode(&WireSamples::S16(vec![1, 2]));
    joined.extend(encode(&WireSamples::S16(vec![3])));
    assert_eq!(joined, encode(&WireSamples::S16(vec![1, 2, 3])));
}

#[test]
fn the_peak_is_the_largest_magnitude() {
    assert_eq!(peak_abs(&Pcm::I16(vec![3, -9, 8])), 9);
    assert_eq!(peak_abs(&Pcm::I16(vec![i16::MIN])), 32_768);
    assert_eq!(peak_abs(&Pcm::I32(vec![i32::MIN, 1])), 2_147_483_648);
    assert_eq!(peak_abs(&Pcm::I8(vec![])), 0);
}

#[test]
fn a_thousandth_of_full_scale_is_silence() {
    assert!(!is_audible(&Pcm::I16(vec![]), 32));
    assert!(is_audible(&Pcm::I16(vec![]), 33));
    assert!(!is_audible(&Pcm::I8(vec![]), 0));
    assert!(is_audible(&Pcm::I8(vec![]), 1));
    assert!(!is_audible(&Pcm::I32(vec![]), 2_147_483));
    assert!(is_audible(&Pcm::I32(vec![]), 2_147_484));
    for peak in [31u32, 32, 33, 34] {
        assert_eq!(is_audible(&Pcm::I16(vec![]), peak), peak as f32 / 32_768.0 > 0.001);
    }
    for peak in [2_147_482u32, 2_147_483, 2_147_484, 2_147_485] {
        assert_eq!(
            is_audible(&Pcm::I32(vec![]), peak),
            peak as f32 / 2_147_483_648.0 > 0.001
        );
    }
}

#[test]
fn batches_are_forwarded_in_the_wire_format() {
    assert!(matches!(
        forward(&Pcm::I16(vec![]), Format::S16LE),
        Forwarded::Nothing
    ));
    match forward(&Pcm::I16(vec![-2, 1]), Format::S16LE) {
        Forwarded::Chunk { bytes, peak } => {
            assert_eq!(bytes, vec![0xfe, 0xff, 1, 0]);
            assert_eq!(peak, 2);
        }
        _ => panic!("a chunk was expected"),
    }
    assert!(matches!(
        forward(&Pcm::I16(vec![-2]), Format::F32LE),
        Forwarded::WantsFloat { peak: 2 }
    ));
    let (pcm, f) = forward_u16(&[32_769], Format::S16LE);
    assert!(matches!(pcm, Pcm::I16(v) if v == vec![1]));
    assert!(matches!(f, Forwarded::Chunk { bytes, peak: 1 } if bytes == vec![1, 0]));
    let (pcm, f) = forward_u8(&[0], Format::S16LE);
    assert!(matches!(pcm, Pcm::I8(v) if v == vec![-128]));
    assert!(matches!(f, Forwarded::Chunk { bytes, peak: 128 } if bytes == vec![0, 0x80]));
}

#[test]
fn a_full_queue_loses_its_oldest_chunk() {
    let (tx, rx) = bounded::<Vec<u8>>(3);
    let mut q = Ring::new(tx, rx.clone());
    for c in 1u8..=3 {
        assert_eq!(push(&mut q, vec![c], true), Pushed::Queued);
    }
    assert_eq!(
        push(&mut q, vec![4], true),
        Pushed::OldestDropped { audible: true }
    );
    assert_eq!(
        push(&mut q, vec![5], false),
        Pushed::OldestDropped { audible: false }
    );
    let held: Vec<Vec<u8>> = rx.try_iter().collect();
    assert_eq!(held, vec![vec![3], vec![4], vec![5]]);
}

#[test]
fn a_queue_without_room_or_reader_takes_nothing() {
    let (tx, rx) = bounded::<Vec<u8>>(0);
    let mut q = Ring::new(tx, rx.clone());
    assert_eq!(push(&mut q, vec![1], true), Pushed::Dropped { audible: true });
    let (tx, gone) = bounded::<Vec<u8>>(1);
    drop(gone);
    let mut q = Ring::new(tx, rx);
    assert_eq!(push(&mut q, vec![2], true), Pushed::Closed);
}

#[test]
fn each_answer_of_a_full_queue_has_its_result() {
    let old = TakeOutcome::Took(vec![1]);
    assert_eq!(
        push_result(&old, &SendOutcome::Sent, true),
        Pushed::OldestDropped { audible: true }
    );
    for none in [TakeOutcome::Empty, TakeOutcome::Disconnected] {
        assert_eq!(push_result(&none, &SendOutcome::Sent, true), Pushed::Queued);
    }
    assert_eq!(
        push_result(&old, &SendOutcome::Full(vec![2]), false),
        Pushed::Dropped { audible: false }
    );
    assert_eq!(
        push_result(&old, &SendOutcome::Disconnected(vec![2]), true),
        Pushed::Closed
    );
}

#[test]
fn a_tracker_is_active_until_the_window_ends() {
    let mut t = ActivityTracker { last_active_ms: 1000 };
    assert!(t.is_active_at(500, 1499));
    assert!(!t.is_active_at(500, 1500));
    t.note_peak_at(false, 1400);
    assert!(!t.is_active_at(500, 1500));
    t.note_peak_at(true, 1400);
    assert!(t.is_active_at(500, 1899));
    assert!(!t.is_active_at(500, 1900));
    assert!(!t.is_active_at(0, 1400));
    let later = ActivityTracker { last_active_ms: 1450 };
    assert!(later.is_active_at(500, 1899));
    assert!(later.is_active_at(600, 1899));
}

#[test]
fn a_window_of_any_length_holds() {
    let t = ActivityTracker { last_active_ms: 1000 };
    for window in [i64::MAX as u128, i64::MAX as u128 + 1, u64::MAX as u128 + 1, u128::MAX] {
        assert!(t.is_active_at(window, 1000));
        assert!(t.is_active_at(window, 2_000_000_000_000));
    }
    let mut t = ActivityTracker::new();
    t.note_peak(true);
    assert!(t.is_active(18_446_744_073_709_551_615_999));
}

#[test]
fn times_far_apart_do_not_overflow() {
    let t = ActivityTracker { last_active_ms: i64::MIN };
    assert!(!t.is_active_at(1000, i64::MAX));
    let t = ActivityTracker { last_active_ms: i64::MAX };
    assert!(t.is_active_at(1000, i64::MIN));
}

#[test]
fn a_new_tracker_is_active() {
    let t = ActivityTracker::new();
    assert!(t.last_active_ms > 1_600_000_000_000);
    assert!(t.is_active(60_000));
    assert!(!t.is_active(0));
    let mut u = ActivityTracker { last_active_ms: 0 };
    u.note_peak(false);
    assert_eq!(u.last_active_ms, 0);
    u.note_peak(true);
    assert!(u.last_active_ms >= t.last_active_ms);
}

#[test]
fn a_clock_before_the_epoch_counts_as_zero() {
    assert_eq!(stamp(None), 0);
    assert_eq!(stamp(Some(17)), 17);
}

#[test]
fn the_link_follows_the_audio() {
    assert_eq!(link_step(false, true), LinkStep::Engage);
    assert_eq!(link_step(true, true), LinkStep::Keep);
    assert_eq!(link_step(true, false), LinkStep::Release);
    assert_eq!(link_step(false, false), LinkStep::Stay);
}

#[test]
fn hosts_and_devices_are_listed() {
    let hosts = vec![
        HostInfo {
            name: "ALSA".to_string(),
            opened: Ok(HostDevices {
                default_input: Some("Mic".to_string()),
                devices: Ok(vec![
                    DeviceInfo {
                        label: "Mic".to_string(),
                        configs: vec![ConfigInfo {
                            format: "I16".to_string(),
                            channels: 2,
                            min_rate: 44_100,
                            max_rate: 48_000,
                            buffer: "Unknown".to_string(),
                        }],
                    },
                    DeviceInfo {
                        label: "Line".to_string(),
                        configs: vec![],
                    },
                ]),
            }),
        },
        HostInfo {
            name: "JACK".to_string(),
            opened: Err("not running".to_string()),
        },
        HostInfo {
            name: "X".to_string(),
            opened: Ok(HostDevices {
                default_input: None,
                devices: Err("denied".to_string()),
            }),
        },
    ];
    assert_eq!(
        list_devices(&hosts),
        vec![
            "host: ALSA",
            "  default input: Mic",
            "  device: Mic",
            "    I16 ch=2 rate=44100..48000 buffer=Unknown",
            "  device: Line",
            "host: JACK",
            "  (failed to open host: not running)",
            "host: X",
            "  (error listing input devices: denied)",
        ]
    );
    assert!(list_devices(&[]).is_empty());
}

#[test]
fn the_default_stream_keeps_its_own_shape() {
    let plan = |channels, rate, format| StreamPlan {
        channels,
        rate,
        format,
    };
    let default = plan(1, 44_100, SampleKind::I16);
    let ranges = [range(2, 96_000, 96_000, SampleKind::F32)];
    assert_eq!(accept_stream(open_capture(&ranges, &spec()), default), Ok(default));
    let odd = plan(1, 44_100, SampleKind::F64);
    assert_eq!(accept_stream(None, odd), Err(SampleKind::F64));
    let chosen = plan(2, 48_000, SampleKind::F32);
    assert_eq!(accept_stream(Some(chosen), odd), Ok(chosen));
    let bad = plan(2, 48_000, SampleKind::Other);
    assert_eq!(accept_stream(Some(bad), default), Err(SampleKind::Other));
}
