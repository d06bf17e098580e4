use rpi_camilla_bridge::decimal::{parse_unsigned, to_decimal};
use rpi_camilla_bridge::discovery::{
    browse, choose_peer, properties, service_type, BrowseEvent, Browser, PeerChoice, ServiceRegistration,
};
use rpi_camilla_bridge::text::{
    replaced, replaced_first, same_ignoring_case, split_lines, split_words, string_of, text_has,
    trim_text, without_back, without_front,
};
use rpi_camilla_bridge::virtual_sink::{run_pactl, SetupStage, SetupStep, SinkSetup, VirtualSink};
use rpi_camilla_bridge::volume_sync::{parse_db, run_subscribe_loop, LineStep};

fn chars(s: &str) -> Vec<char> {
    s.chars().collect()
}

fn strings(v: Vec<Vec<char>>) -> Vec<String> {
    v.iter().map(|c| string_of(c)).collect()
}

fn args(step: SetupStep) -> Vec<String> {
    match step {
        SetupStep::Run(a) => a,
        other => panic!("{other:?}"),
    }
}

fn setup_until_load(description: &str, source: Result<String, String>) -> SinkSetup {
    let (mut s, _) = VirtualSink::try_create(description);
    s.advance(Ok("pactl 16.1".to_string()));
    s.advance(source);
    s
}

#[test]
fn a_sink_is_made_step_by_step() {
    let (mut s, first) = VirtualSink::try_create("Raspberry Pi (\"pi\")");
    assert_eq!(first, vec!["--version"]);
    assert_eq!(args(s.advance(Ok(String::new()))), vec!["get-default-source"]);
    assert_eq!(
        args(s.advance(Ok("mic\n".to_string()))),
        vec![
            "load-module",
            "module-null-sink",
            "sink_name=rpi_camilla_bridge",
            "sink_properties=device.description=Raspberry\u{a0}Pi\u{a0}(pi)",
        ]
    );
    assert_eq!(
        args(s.advance(Ok(" 42\n".to_string()))),
        vec!["set-default-source", "rpi_camilla_bridge.monitor"]
    );
    match s.advance(Ok(String::new())) {
        SetupStep::Ready(sink, None) => {
            assert_eq!(sink.module_id, "42");
            assert_eq!(sink.previous_default_source, Some("mic".to_string()));
            assert_eq!(
                sink.teardown(),
                vec![
                    vec!["set-default-source".to_string(), "mic".to_string()],
                    vec!["unload-module".to_string(), "42".to_string()],
                ]
            );
        }
        other => panic!("{other:?}"),
    }
    assert_eq!(s.stage, SetupStage::Ended);
}

#[test]
fn without_pactl_there_is_no_sink() {
    let (mut s, _) = VirtualSink::try_create("x");
    assert!(matches!(
        s.advance(Err("not found".to_string())),
        SetupStep::Unavailable
    ));
    assert_eq!(s.stage, SetupStage::Ended);
}

#[test]
fn a_source_that_is_not_known_is_not_restored() {
    for source in [Ok(" \n".to_string()), Err("x".to_string())] {
        let mut s = setup_until_load("x", source);
        s.advance(Ok("7".to_string()));
        match s.advance(Err("denied".to_string())) {
            SetupStep::Ready(sink, Some(why)) => {
                assert_eq!(why, "denied");
                assert_eq!(
                    sink.teardown(),
                    vec![vec!["unload-module".to_string(), "7".to_string()]]
                );
            }
            other => panic!("{other:?}"),
        }
    }
}

#[test]
fn a_sink_needs_a_module_id() {
    let mut s = setup_until_load("x", Ok("mic".to_string()));
    assert!(matches!(
        s.advance(Err("boom".to_string())),
        SetupStep::LoadFailed(w) if w == "boom"
    ));
    for bad in ["", "  ", "12a", "-1", "١"] {
        let mut s = setup_until_load("x", Ok("mic".to_string()));
        assert!(matches!(
            s.advance(Ok(bad.to_string())),
            SetupStep::BadModuleId(id) if id == bad.trim()
        ));
    }
}

#[test]
fn a_failed_run_is_told_with_its_arguments() {
    let a = vec!["unload-module".to_string(), "42".to_string()];
    assert_eq!(run_pactl(&a, true, "", "out\n", "err"), Ok("out\n".to_string()));
    assert_eq!(
        run_pactl(&a, false, "exit status: 1", "out", " no such module\n"),
        Err("pactl unload-module 42 exited exit status: 1: no such module".to_string())
    );
    assert_eq!(
        run_pactl(&[], false, "1", "", ""),
        Err("pactl  exited 1: ".to_string())
    );
}

#[test]
fn sink_changes_are_noticed() {
    assert_eq!(
        run_subscribe_loop(false, Some("Event 'change' on sink #859")),
        LineStep::Sync
    );
    assert_eq!(
        run_subscribe_loop(false, Some("Event 'new' on sink #859")),
        LineStep::Ignore
    );
    assert_eq!(run_subscribe_loop(false, None), LineStep::Ignore);
    assert_eq!(
        run_subscribe_loop(true, Some("Event 'change' on sink #859")),
        LineStep::Stop
    );
}

#[test]
fn decibels_are_found() {
    assert_eq!(
        parse_db(
            "Volume: front-left: 65535 / 100% / 0.00 dB,   front-right: 32768 /  50% / -18.06 dB\n"
        ),
        vec!["0.00", "-18.06"]
    );
    assert_eq!(parse_db("1,, dBx 2"), vec!["1"]);
    assert!(parse_db("dB").is_empty());
    assert!(parse_db("").is_empty());
}

#[test]
fn a_receiver_is_noted_once() {
    let mut b = Browser::new(true);
    assert_eq!(service_type(), "_camilla-bridge._tcp.local.");
    for (name, host, port) in [("a", "pi.local.", 1), ("b", "po.local", 2), ("a", "pa.local..", 3)] {
        browse(
            &mut b,
            BrowseEvent::Resolved {
                fullname: name,
                hostname: host,
                port,
            },
        );
    }
    browse(&mut b, BrowseEvent::Other);
    let found: Vec<(String, String, u16)> = b
        .peers
        .iter()
        .map(|p| (p.fullname.clone(), p.host_label.clone(), p.port))
        .collect();
    assert_eq!(
        found,
        vec![
            ("a".to_string(), "pa.local".to_string(), 3),
            ("b".to_string(), "po.local".to_string(), 2),
        ]
    );
    assert!(!b.done);
}

#[test]
fn browsing_stops_at_the_first_answer_if_asked() {
    let mut b = Browser::new(false);
    assert_eq!(b.next_wait(5_000_000_000), Some(150_000_000));
    assert_eq!(b.next_wait(3), Some(3));
    assert_eq!(b.next_wait(0), None);
    browse(&mut b, BrowseEvent::Other);
    assert!(!b.done);
    browse(
        &mut b,
        BrowseEvent::Resolved {
            fullname: "a",
            hostname: "h",
            port: 1,
        },
    );
    assert!(b.done);
    assert_eq!(b.next_wait(5), None);
}

#[test]
fn several_receivers_are_left_to_the_user() {
    assert_eq!(choose_peer(0), PeerChoice::Nobody);
    assert_eq!(choose_peer(1), PeerChoice::One);
    assert_eq!(choose_peer(2), PeerChoice::Several);
}

#[test]
fn the_service_is_named_after_the_machine() {
    let r = ServiceRegistration::on_host(Some("pi.local".to_string()), 9000);
    assert_eq!((r.instance.as_str(), r.host_name.as_str(), r.port), ("pi.local", "pi.local.", 9000));
    let r = ServiceRegistration::on_host(Some("pi".to_string()), 1);
    assert_eq!((r.instance.as_str(), r.host_name.as_str()), ("pi", "pi.local."));
    let r = ServiceRegistration::on_host(None, 1);
    assert_eq!(
        (r.instance.as_str(), r.host_name.as_str()),
        ("rpi-camilla-bridge", "rpi-camilla-bridge.local.")
    );
    let here = ServiceRegistration::try_register(9000);
    let again = ServiceRegistration::on_host(Some(here.instance.clone()), 9000);
    assert_eq!(here.host_name, again.host_name);
}

#[test]
fn numbers_are_written_and_read() {
    for n in [0u64, 7, 10, 48_000, u64::MAX] {
        assert_eq!(to_decimal(n), n.to_string());
        assert_eq!(parse_unsigned(&n.to_string(), u64::MAX), Some(n));
    }
    assert_eq!(parse_unsigned("+12", 100), Some(12));
    assert_eq!(parse_unsigned("007", 100), Some(7));
    assert_eq!(parse_unsigned("101", 100), None);
    assert_eq!(parse_unsigned("", 100), None);
    assert_eq!(parse_unsigned("+", 100), None);
    assert_eq!(parse_unsigned("1 ", 100), None);
    assert_eq!(parse_unsigned("99999999999999999999999", u64::MAX), None);
}

#[test]
fn text_is_split_as_std_does() {
    for s in ["", "a", "a\n", "\n\n", "a\r\nb\rc\r", "x\n\ny"] {
        let expected: Vec<String> = s.lines().map(str::to_string).collect();
        assert_eq!(strings(split_lines(&chars(s))), expected);
    }
    for s in ["", "  ", " a\tb\u{a0}c\u{3000}", "one two"] {
        let expected: Vec<String> = s.split_whitespace().map(str::to_string).collect();
        assert_eq!(strings(split_words(&chars(s))), expected);
        assert_eq!(trim_text(s), s.trim());
    }
}

#[test]
fn white_space_is_what_std_says() {
    for n in 0u32..=0x10ffff {
        if let Some(c) = char::from_u32(n) {
            assert_eq!(rpi_camilla_bridge::text::is_space_char(c), c.is_whitespace());
        }
    }
}

#[test]
fn text_is_replaced_as_std_does() {
    for (s, from, to) in [
        ("aaa", "aa", "b"),
        ("a b c", " ", "--"),
        ("abc", "x", "y"),
        ("", "x", "y"),
        ("xx", "x", ""),
    ] {
        assert_eq!(string_of(&replaced(&chars(s), &chars(from), &chars(to))), s.replace(from, to));
        assert_eq!(
            string_of(&replaced_first(&chars(s), &chars(from), &chars(to))),
            s.replacen(from, to, 1)
        );
    }
}

#[test]
fn text_is_stripped_as_std_does() {
    for (s, pat) in [("..a..", "."), ("a.local.local", ".local"), (": : b", ": "), ("", ".")] {
        assert_eq!(
            string_of(&without_back(&chars(s), &chars(pat))),
            s.trim_end_matches(pat)
        );
        assert_eq!(
            string_of(&without_front(&chars(s), &chars(pat))),
            s.trim_start_matches(pat)
        );
    }
    assert!(text_has("hw:Loopback", "Loop"));
    assert!(!text_has("hw:Loopback", "loop"));
    assert!(same_ignoring_case("É-Ab", "É-aB"));
    assert!(!same_ignoring_case("É", "é"));
}

#[test]
fn the_service_publishes_its_versions() {
    assert_eq!(
        properties("0.1.2"),
        vec![
            ("version".to_string(), "0.1.2".to_string()),
            ("proto".to_string(), "1".to_string()),
        ]
    );
}

#[test]
fn a_found_receiver_can_be_cloned() {
    let mut b = Browser::new(false);
    browse(
        &mut b,
        BrowseEvent::Resolved {
            fullname: "a",
            hostname: "pi.local.",
            port: 9000,
        },
    );
    let p = b.peers[0].clone();
    assert_eq!(
        (p.fullname.as_str(), p.host_label.as_str(), p.port),
        ("a", "pi.local", 9000)
    );
}
