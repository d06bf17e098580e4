use rpi_camilla_bridge::alsa_out::{
    plan_buffer, AlsaPlayback, BufferPlan, OpenRetry, PlaybackEvent, PlaybackStep, RetryStep,
};
use rpi_camilla_bridge::proto::{Format, Header};

fn stereo16() -> Header {
    Header {
        format: Format::S16LE,
        channels: 2,
        sample_rate: 48_000,
    }
}

#[test]
fn buffer_is_split_into_four_periods() {
    assert_eq!(
        plan_buffer(&stereo16(), 200),
        BufferPlan {
            buffer_frames: 9600,
            period_frames: 2400
        }
    );
    assert_eq!(
        plan_buffer(&stereo16(), 1),
        BufferPlan {
            buffer_frames: 48,
            period_frames: 64
        }
    );
    assert_eq!(plan_buffer(&stereo16(), 0).period_frames, 64);
}

#[test]
fn a_torn_frame_waits_for_the_next_chunk() {
    let mut w = AlsaPlayback::open(&stereo16());
    assert_eq!(w.bytes_per_frame(), 4);
    assert_eq!(w.run(PlaybackEvent::Chunk(vec![1, 2, 3])), PlaybackStep::Receive);
    assert_eq!(w.run(PlaybackEvent::Chunk(vec![4, 5])), PlaybackStep::Write);
    assert_eq!(w.ready(), &[1, 2, 3, 4]);
    assert_eq!(w.run(PlaybackEvent::Wrote(1)), PlaybackStep::Receive);
    assert_eq!(w.run(PlaybackEvent::Chunk(vec![6, 7, 8])), PlaybackStep::Write);
    assert_eq!(w.ready(), &[5, 6, 7, 8]);
}

#[test]
fn a_partial_write_offers_the_rest_again() {
    let mut w = AlsaPlayback::open(&stereo16());
    assert_eq!(
        w.run(PlaybackEvent::Chunk((0u8..12).collect())),
        PlaybackStep::Write
    );
    assert_eq!(w.run(PlaybackEvent::Wrote(2)), PlaybackStep::Write);
    assert_eq!(w.ready(), &[8, 9, 10, 11]);
    assert_eq!(w.run(PlaybackEvent::Wrote(0)), PlaybackStep::Write);
    assert_eq!(w.run(PlaybackEvent::Recovered), PlaybackStep::Write);
    assert_eq!(w.ready(), &[8, 9, 10, 11]);
    assert_eq!(w.run(PlaybackEvent::Wrote(1)), PlaybackStep::Receive);
}

#[test]
fn the_worker_ends_when_the_queue_closes_or_the_device_is_lost() {
    let mut w = AlsaPlayback::open(&stereo16());
    assert_eq!(w.run(PlaybackEvent::Closed), PlaybackStep::Drain);
    let mut w = AlsaPlayback::open(&stereo16());
    assert_eq!(w.run(PlaybackEvent::Chunk(vec![0; 4])), PlaybackStep::Write);
    assert_eq!(w.run(PlaybackEvent::Lost), PlaybackStep::Fail);
}

#[test]
fn what_is_written_and_held_is_what_came() {
    let mut w = AlsaPlayback::open(&stereo16());
    let mut came: Vec<u8> = Vec::new();
    let mut written: Vec<u8> = Vec::new();
    for size in [1usize, 3, 5, 0, 9, 2, 12, 7] {
        let chunk: Vec<u8> = (0..size).map(|i| (came.len() + i) as u8).collect();
        came.extend_from_slice(&chunk);
        let mut step = w.run(PlaybackEvent::Chunk(chunk));
        while step == PlaybackStep::Write {
            let taken = w.ready()[..4].to_vec();
            written.extend_from_slice(&taken);
            step = w.run(PlaybackEvent::Wrote(1));
        }
    }
    assert_eq!(written.len() % 4, 0);
    assert_eq!(written[..], came[..written.len()]);
    assert!(came.len() - written.len() < 4);
}

#[test]
fn opening_is_retried_for_three_seconds() {
    let mut r = OpenRetry::new();
    assert!(matches!(
        r.open_configured_with_retry("hw:Loopback", "busy".to_string(), 2_999_999_999, "2.9s"),
        RetryStep::Retry
    ));
    let text = match r.open_configured_with_retry(
        "hw:Loopback",
        "gone".to_string(),
        3_000_000_000,
        "3s",
    ) {
        RetryStep::GiveUp(t) => t,
        RetryStep::Retry => String::new(),
    };
    assert_eq!(text, "opening ALSA `hw:Loopback` after 3s: busy (last error)");
    let mut fresh = OpenRetry::new();
    let text = match fresh.open_configured_with_retry("d", "m".to_string(), 4_000_000_000, "4s") {
        RetryStep::GiveUp(t) => t,
        RetryStep::Retry => String::new(),
    };
    assert_eq!(text, "opening ALSA `d` after 4s: m (last error)");
}
