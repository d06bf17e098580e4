use crossbeam_channel::bounded;
use rpi_camilla_bridge::alsa_out::{AlsaPlayback, PlaybackEvent, PlaybackStep};
use rpi_camilla_bridge::audio_in::CaptureSpec;
use rpi_camilla_bridge::net_in::{self, NetIn, ReadOutcome, ReadStep, Taken};
use rpi_camilla_bridge::net_out::{self, NetOut, SendEvent, SendStep};
use rpi_camilla_bridge::proto::{Format, Header, ProtoError};
use rpi_camilla_bridge::queue::{Feed, SendOutcome};
use rpi_camilla_bridge::sender::{
    output_label, run, session_header, session_step, streaming_text, try_session,
    wants_virtual_sink, watch, Reconnect, RunEvent, RunStep, SessionEvent, SessionStage,
    SessionStep, WatchStep,
};
use rpi_camilla_bridge::session::{
    accept_loop, explain, handle_session, run_session, AcceptStep, Accepted, Action, ServeEvent,
    ServeStep, Serving, SessionError, SwapOpts, ThreadEnd,
};

fn header() -> Header {
    Header {
        format: Format::S32LE,
        channels: 2,
        sample_rate: 48_000,
    }
}

#[test]
fn the_pause_doubles_up_to_five_seconds() {
    let mut r = Reconnect::new(1000);
    let pauses: Vec<u64> = (0..5).map(|_| r.after_session(false)).collect();
    assert_eq!(pauses, vec![1000, 2000, 4000, 5000, 5000]);
    assert_eq!(r.after_session(true), 1000);
    assert_eq!(r.after_session(false), 1000);
    assert_eq!(r.after_session(false), 2000);
}

#[test]
fn a_long_initial_pause_is_bounded() {
    let mut r = Reconnect::new(u64::MAX / 2);
    assert_eq!(r.after_session(false), 5000);
    assert_eq!(r.after_session(true), 5000);
    let mut r = Reconnect::new(0);
    assert_eq!(r.after_session(false), 0);
    assert_eq!(r.after_session(false), 0);
}

#[test]
fn a_worker_is_watched() {
    assert_eq!(watch(true, true), WatchStep::Join);
    assert_eq!(watch(true, false), WatchStep::Join);
    assert_eq!(watch(false, true), WatchStep::Shutdown);
    assert_eq!(watch(false, false), WatchStep::Sleep);
}

#[test]
fn the_header_announces_the_capture() {
    let spec = CaptureSpec {
        rate: 48_000,
        channels: 2,
        wire_format: Format::S32LE,
    };
    assert_eq!(session_header(&spec), header());
}

#[test]
fn the_output_is_named_after_the_host() {
    assert_eq!(output_label("hifiberry.local", None), "Raspberry Pi (hifiberry)");
    assert_eq!(output_label("192.168.0.7", None), "Raspberry Pi (192.168.0.7)");
    assert_eq!(output_label("hifiberry.local", Some("Living Room")), "Living Room");
}

#[test]
fn the_user_is_told_what_is_streamed() {
    assert_eq!(
        streaming_text("pi.local", 9000, &header()),
        "Streaming to pi.local:9000 — S32LE / 48000 Hz / 2ch"
    );
}

#[test]
fn the_sender_counts_what_it_wrote() {
    let mut p = NetOut::new();
    assert!(matches!(net_out::pump(&mut p, SendEvent::Stop(false)), SendStep::Receive));
    assert!(matches!(net_out::pump(&mut p, SendEvent::Timeout), SendStep::Check));
    assert!(matches!(
        net_out::pump(&mut p, SendEvent::Received(vec![1, 2, 3])),
        SendStep::Write
    ));
    assert_eq!(p.pending, Some(vec![1, 2, 3]));
    assert_eq!(p.total, 0);
    assert!(matches!(net_out::pump(&mut p, SendEvent::Written), SendStep::Check));
    assert_eq!((p.total, p.pending.clone()), (3, None));
    assert!(matches!(net_out::pump(&mut p, SendEvent::Stop(true)), SendStep::Done(3)));
    assert!(matches!(net_out::pump(&mut p, SendEvent::Disconnected), SendStep::Done(3)));
}

#[test]
fn a_failed_write_ends_the_sender() {
    let mut p = NetOut::new();
    net_out::pump(&mut p, SendEvent::Received(vec![1]));
    assert!(matches!(
        net_out::pump(&mut p, SendEvent::WriteFailed("reset".to_string())),
        SendStep::Fail(w) if w == "reset"
    ));
    assert_eq!(p.total, 0);
}

#[test]
fn the_receiver_queues_what_it_reads() {
    let (tx, rx) = bounded::<Vec<u8>>(1);
    let mut feed = Feed::new(tx);
    let mut p = NetIn::new();
    assert!(matches!(
        net_in::pump(&mut p, ReadOutcome::Data(&[1, 2]), &mut feed),
        ReadStep::Read
    ));
    assert!(matches!(
        net_in::pump(&mut p, ReadOutcome::Data(&[3, 4, 5]), &mut feed),
        ReadStep::Wait(c) if c == vec![3, 4, 5]
    ));
    assert_eq!(p.total, 5);
    assert_eq!(rx.try_recv(), Ok(vec![1, 2]));
    assert!(rx.try_recv().is_err());
    assert!(matches!(net_in::pump(&mut p, ReadOutcome::Idle, &mut feed), ReadStep::Read));
    assert!(matches!(net_in::pump(&mut p, ReadOutcome::Broken, &mut feed), ReadStep::End));
    assert!(matches!(net_in::pump(&mut p, ReadOutcome::Data(&[]), &mut feed), ReadStep::End));
    drop(rx);
    assert!(matches!(
        net_in::pump(&mut p, ReadOutcome::Data(&[6]), &mut feed),
        ReadStep::End
    ));
    assert_eq!(p.total, 6);
}

#[test]
fn the_receiver_waits_rather_than_drop() {
    assert!(matches!(net_in::offered(SendOutcome::Sent), ReadStep::Read));
    assert!(matches!(
        net_in::offered(SendOutcome::Full(vec![1])),
        ReadStep::Wait(c) if c == vec![1]
    ));
    assert!(matches!(
        net_in::offered(SendOutcome::Disconnected(vec![1])),
        ReadStep::End
    ));
    assert!(matches!(net_in::waited(true), ReadStep::Read));
    assert!(matches!(net_in::waited(false), ReadStep::End));
    let mut p = NetIn::new();
    assert!(matches!(
        p.take(ReadOutcome::Data(&[7])),
        Taken::Offer(c) if c == vec![7]
    ));
    assert!(matches!(p.take(ReadOutcome::Idle), Taken::Step(ReadStep::Read)));
}

#[test]
fn accepting_goes_on_after_a_pause() {
    assert_eq!(accept_loop(Accepted::Connection), AcceptStep::Serve);
    assert_eq!(accept_loop(Accepted::WouldBlock), AcceptStep::Sleep(50));
    assert_eq!(accept_loop(Accepted::Failed), AcceptStep::Sleep(200));
}

fn describe(actions: &[Action]) -> Vec<String> {
    actions
        .iter()
        .map(|a| match a {
            Action::Swap { path, label } => format!("{label}={path}"),
            Action::Settle(ms) => format!("settle {ms}"),
            Action::Play => "play".to_string(),
        })
        .collect()
}

#[test]
fn a_session_swaps_there_and_back() {
    let opts = SwapOpts {
        bridge_config: Some("/b"),
        idle_config: Some("/i"),
        camilla_host: "127.0.0.1",
    };
    let (h, actions) = handle_session(Ok(header()), &opts).unwrap();
    assert_eq!(h, header());
    assert_eq!(
        describe(&actions),
        vec!["bridge=/b", "settle 500", "play", "idle=/i"]
    );
}

#[test]
fn a_session_swaps_only_what_it_was_given() {
    let opts = SwapOpts {
        bridge_config: None,
        idle_config: Some("/i"),
        camilla_host: "127.0.0.1",
    };
    let (_, actions) = handle_session(Ok(header()), &opts).unwrap();
    assert_eq!(describe(&actions), vec!["play", "idle=/i"]);
    let opts = SwapOpts {
        bridge_config: Some("/b"),
        idle_config: Some("/i"),
        camilla_host: "",
    };
    let (_, actions) = handle_session(Ok(header()), &opts).unwrap();
    assert_eq!(describe(&actions), vec!["play"]);
}

#[test]
fn without_a_header_there_is_no_session() {
    let opts = SwapOpts {
        bridge_config: Some("/b"),
        idle_config: Some("/i"),
        camilla_host: "127.0.0.1",
    };
    assert!(matches!(
        handle_session(Err(ProtoError::BadVersion(9)), &opts),
        Err(ProtoError::BadVersion(9))
    ));
}

#[test]
fn the_network_worker_is_asked_first() {
    assert!(matches!(
        run_session(ThreadEnd::Value(7), ThreadEnd::Value(())),
        Ok(7)
    ));
    assert!(matches!(
        run_session(ThreadEnd::Panicked, ThreadEnd::Panicked),
        Err(SessionError::NetPanicked)
    ));
    let e = run_session(ThreadEnd::Error("x".to_string()), ThreadEnd::Panicked).unwrap_err();
    assert_eq!(explain(e), "net thread errored");
    let e = run_session(ThreadEnd::Value(7), ThreadEnd::Panicked).unwrap_err();
    assert_eq!(explain(e), "alsa thread panicked");
    let e = run_session(ThreadEnd::Value(7), ThreadEnd::Error("lost".to_string())).unwrap_err();
    assert_eq!(explain(e), "lost");
    assert_eq!(explain(SessionError::NetPanicked), "net thread panicked");
}

#[test]
fn the_sender_pauses_between_sessions() {
    let mut r = Reconnect::new(1000);
    assert_eq!(run(&mut r, RunEvent::Start { stop: false }), RunStep::Connect);
    let ended = |ok| RunEvent::Ended { ok, stop: false };
    assert_eq!(run(&mut r, ended(false)), RunStep::Pause(1000));
    assert_eq!(run(&mut r, ended(false)), RunStep::Pause(2000));
    assert_eq!(run(&mut r, ended(true)), RunStep::Pause(1000));
    assert_eq!(
        run(&mut r, RunEvent::Paused { over: false, stop: false }),
        RunStep::Nap(50)
    );
    assert_eq!(
        run(&mut r, RunEvent::Paused { over: true, stop: false }),
        RunStep::Again
    );
}

#[test]
fn the_sender_stops_when_asked() {
    let mut r = Reconnect::new(1000);
    assert_eq!(run(&mut r, RunEvent::Start { stop: true }), RunStep::Exit);
    assert_eq!(run(&mut r, RunEvent::Ended { ok: false, stop: true }), RunStep::Exit);
    assert_eq!(
        run(&mut r, RunEvent::Paused { over: false, stop: true }),
        RunStep::Again
    );
    assert_eq!(r, Reconnect::new(1000));
}

#[test]
fn a_session_ends_as_its_writer_does() {
    assert_eq!(try_session(ThreadEnd::Value(9)), Ok(9));
    assert_eq!(
        try_session(ThreadEnd::Error("reset".to_string())),
        Err("reset".to_string())
    );
    assert_eq!(
        try_session(ThreadEnd::Panicked),
        Err("writer panicked".to_string())
    );
}

#[test]
fn a_virtual_output_goes_with_the_default_device() {
    assert!(wants_virtual_sink(false, "default"));
    assert!(!wants_virtual_sink(true, "default"));
    assert!(!wants_virtual_sink(false, "Mic"));
}

#[test]
fn what_is_played_was_captured() {
    let captured: Vec<Vec<u8>> = vec![(0u8..10).collect(), (10u8..13).collect(), (13u8..30).collect()];
    let mut out = NetOut::new();
    let mut line: Vec<u8> = Vec::new();
    for chunk in &captured {
        net_out::pump(&mut out, SendEvent::Received(chunk.clone()));
        line.extend_from_slice(out.pending.as_deref().unwrap());
        net_out::pump(&mut out, SendEvent::Written);
    }
    assert_eq!(out.total, 30);

    let (tx, rx) = bounded::<Vec<u8>>(16);
    let mut feed = Feed::new(tx);
    let mut input = NetIn::new();
    for part in line.chunks(7) {
        assert!(matches!(
            net_in::pump(&mut input, ReadOutcome::Data(part), &mut feed),
            ReadStep::Read
        ));
    }
    assert_eq!(input.total, 30);

    let mut player = AlsaPlayback::open(&header());
    let mut played: Vec<u8> = Vec::new();
    while let Ok(chunk) = rx.try_recv() {
        let mut step = player.run(PlaybackEvent::Chunk(chunk));
        while step == PlaybackStep::Write {
            let ready = player.ready().to_vec();
            assert_eq!(ready.len() % 8, 0);
            played.extend_from_slice(&ready);
            step = player.run(PlaybackEvent::Wrote(ready.len() / 8));
        }
    }
    let all: Vec<u8> = captured.concat();
    assert_eq!(played, all[..24]);
}

fn capture_spec() -> CaptureSpec {
    CaptureSpec {
        rate: 48_000,
        channels: 2,
        wire_format: Format::S32LE,
    }
}

#[test]
fn a_session_sends_its_header_and_empties_the_queue_before_it_pumps() {
    let spec = capture_spec();
    let mut stage = SessionStage::Connecting;
    let mut wire = Vec::new();
    header().write_to(&mut wire).unwrap();
    assert!(matches!(
        session_step(&mut stage, &spec, SessionEvent::Connected(Ok(()))),
        SessionStep::Send(bytes) if bytes == wire
    ));
    assert_eq!(stage, SessionStage::Header);
    assert!(matches!(
        session_step(&mut stage, &spec, SessionEvent::HeaderWritten(Ok(()))),
        SessionStep::Drain
    ));
    for _ in 0..3 {
        assert!(matches!(
            session_step(&mut stage, &spec, SessionEvent::Stale(Some(vec![1, 2]))),
            SessionStep::Drain
        ));
    }
    assert_eq!(stage, SessionStage::Draining);
    assert!(matches!(
        session_step(&mut stage, &spec, SessionEvent::Stale(None)),
        SessionStep::Pump
    ));
    assert_eq!(stage, SessionStage::Pumping);
    assert!(matches!(
        session_step(&mut stage, &spec, SessionEvent::WriterEnded(ThreadEnd::Value(7))),
        SessionStep::Done(Ok(7))
    ));
    assert_eq!(stage, SessionStage::Ended);
}

#[test]
fn a_session_that_fails_leaves_the_queue_alone() {
    let spec = capture_spec();
    let mut stage = SessionStage::Connecting;
    assert!(matches!(
        session_step(&mut stage, &spec, SessionEvent::Connected(Err("refused".to_string()))),
        SessionStep::Done(Err(e)) if e == "refused"
    ));
    assert_eq!(stage, SessionStage::Ended);
    let mut stage = SessionStage::Header;
    assert!(matches!(
        session_step(&mut stage, &spec, SessionEvent::HeaderWritten(Err("reset".to_string()))),
        SessionStep::Done(Err(e)) if e == "reset"
    ));
    let mut stage = SessionStage::Pumping;
    assert!(matches!(
        session_step(&mut stage, &spec, SessionEvent::WriterEnded(ThreadEnd::Panicked)),
        SessionStep::Done(Err(e)) if e == "writer panicked"
    ));
}

#[test]
fn what_is_read_is_queued_even_when_there_is_no_room() {
    let (tx, rx) = bounded::<Vec<u8>>(2);
    let mut feed = Feed::new(tx.clone());
    let mut p = NetIn::new();
    let data: Vec<u8> = (0u8..50).collect();
    let mut queued: Vec<u8> = Vec::new();
    for part in data.chunks(7) {
        match net_in::pump(&mut p, ReadOutcome::Data(part), &mut feed) {
            ReadStep::Read => {}
            ReadStep::Wait(chunk) => {
                queued.extend(rx.recv().unwrap());
                assert!(matches!(net_in::waited(tx.send(chunk).is_ok()), ReadStep::Read));
            }
            ReadStep::End => panic!("the reader is there"),
        }
    }
    queued.extend(rx.try_iter().flatten());
    assert_eq!(queued, data);
    assert_eq!(p.total, 50);
}

#[test]
fn a_session_ends_with_what_playing_gave() {
    for idle_config in [Some("/i"), None] {
        for outcome in [Ok(9), Err("lost".to_string())] {
            let opts = SwapOpts {
                bridge_config: Some("/b"),
                idle_config,
                camilla_host: "127.0.0.1",
            };
            let (h, mut s) = Serving::begin(Ok(header()), &opts).unwrap();
            assert_eq!(h, header());
            let mut taken = Vec::new();
            let mut next = 0;
            let result = loop {
                taken.push(next);
                let event = match &s.actions[next] {
                    Action::Play => ServeEvent::Played(outcome.clone()),
                    _ => ServeEvent::Taken,
                };
                match s.step(event) {
                    ServeStep::Act(n) => next = n,
                    ServeStep::Done(r) => break r,
                }
            };
            assert_eq!(result, outcome);
            assert_eq!(taken, (0..s.actions.len()).collect::<Vec<usize>>());
        }
    }
}

#[test]
fn no_session_begins_without_a_header() {
    let opts = SwapOpts {
        bridge_config: Some("/b"),
        idle_config: Some("/i"),
        camilla_host: "127.0.0.1",
    };
    assert!(matches!(
        Serving::begin(Err(ProtoError::BadFormat(9)), &opts),
        Err(ProtoError::BadFormat(9))
    ));
}
