use rpi_camilla_bridge::doctor::{
    check_camilla_ws, check_dac_card, check_device_guard, check_loopback_card, check_mdns_daemon,
    check_snd_aloop, check_yaml_path, run, run_check, sum_up, ConfigFile, DoctorOpts, Findings,
    SocketList, Status,
};
use rpi_camilla_bridge::status::{fmt, info, ok, step, supports_color, warn};

const CARDS: &str = " 0 [Loopback       ]: Loopback - Loopback
                      Loopback 1
 1 [sndrpihifiberry]: RPi-simple - snd_rpi_hifiberry
                      StudioDAC8x
";

const CONFIG: &str = "devices:\n  playback:\n";

fn pass(s: Status) -> String {
    match s {
        Status::Pass(t) => t,
        other => panic!("{other:?}"),
    }
}

fn odd(s: Status) -> String {
    match s {
        Status::Warn(t) => t,
        other => panic!("{other:?}"),
    }
}

fn fail(s: Status) -> String {
    match s {
        Status::Fail(t) => t,
        other => panic!("{other:?}"),
    }
}

#[test]
fn the_loopback_module_is_looked_for() {
    assert_eq!(
        pass(check_snd_aloop(Ok("snd 1 0\nsnd_aloop 24576 2 - Live\n"))),
        "loaded"
    );
    assert!(fail(check_snd_aloop(Ok("snd_aloop_x 1\nsnd snd_aloop\n")))
        .starts_with("kernel module not loaded"));
    assert_eq!(
        odd(check_snd_aloop(Err("denied"))),
        "can't read /proc/modules: denied"
    );
}

#[test]
fn cards_are_looked_for() {
    assert_eq!(
        pass(check_loopback_card(Ok(CARDS))),
        "found in /proc/asound/cards"
    );
    assert!(fail(check_loopback_card(Ok(" 0 [Loopback]: x"))).starts_with("no Loopback card"));
    assert_eq!(
        odd(check_loopback_card(Err("gone"))),
        "can't read /proc/asound/cards: gone"
    );
    assert_eq!(pass(check_dac_card(Ok(CARDS))), "1 non-loopback card(s) present");
    assert!(odd(check_dac_card(Ok(" 0 [Loopback       ]: x\n"))).starts_with("no non-Loopback card"));
    assert!(odd(check_dac_card(Ok("1 [dac]: x\n"))).starts_with("no non-Loopback card"));
}

#[test]
fn the_websocket_is_looked_for() {
    assert_eq!(
        pass(check_camilla_ws("127.0.0.1", 1234, Ok(()))),
        "port 1234 open at 127.0.0.1"
    );
    assert_eq!(
        fail(check_camilla_ws("pi", 1, Err("refused"))),
        "pi:1 not reachable (refused) — is camilladsp.service running?"
    );
}

#[test]
fn configurations_are_looked_at() {
    assert_eq!(
        odd(check_yaml_path(None, "bridge", &ConfigFile::Missing)),
        "no --bridge-config given on the CLI; doctor is checking only what you told it"
    );
    assert_eq!(
        fail(check_yaml_path(Some("/a"), "idle", &ConfigFile::Missing)),
        "/a does not exist"
    );
    assert_eq!(
        fail(check_yaml_path(Some("/a"), "idle", &ConfigFile::Unreadable("denied"))),
        "/a: denied"
    );
    assert_eq!(
        pass(check_yaml_path(Some("/a"), "idle", &ConfigFile::Text("devices: playback: é"))),
        "/a (21 bytes) looks like a CamillaDSP config"
    );
    assert!(odd(check_yaml_path(Some("/a"), "idle", &ConfigFile::Text("devices:")))
        .starts_with("/a is readable but"));
}

#[test]
fn the_doctor_says_what_the_guard_says() {
    assert_eq!(
        pass(check_device_guard("hw:Loopback,0,0")),
        "`hw:Loopback,0,0` will pass the bridge's loopback guard"
    );
    assert_eq!(
        fail(check_device_guard("plughw:1")),
        "--device `plughw:1` does not contain `loopback`; the bridge will refuse to open it"
    );
    assert!(fail(check_device_guard("plughw:Loopback")).contains("is a `plug*` alias"));
    assert_eq!(
        fail(check_device_guard("hw:Loopback,dac")),
        "--device `hw:Loopback,dac` matches banned pattern `dac`; the bridge will refuse to open it"
    );
}

#[test]
fn a_listener_for_mdns_is_looked_for() {
    assert!(pass(check_mdns_daemon(&SocketList::Listed(
        "UNCONN 0 0 0.0.0.0:5353 0.0.0.0:*\n"
    )))
    .starts_with("UDP 5353 in use"));
    assert!(odd(check_mdns_daemon(&SocketList::Listed("0.0.0.0:53530 x\n")))
        .starts_with("no listener on UDP 5353"));
    assert_eq!(
        odd(check_mdns_daemon(&SocketList::Failed)),
        "`ss -Hulnp` exited non-zero"
    );
    assert_eq!(
        odd(check_mdns_daemon(&SocketList::NotRun("no such file"))),
        "can't run `ss`: no such file"
    );
}

#[test]
fn checks_are_printed_in_columns() {
    assert_eq!(
        run_check("idle config", &Status::Pass("fine".to_string()), false),
        format!("✓ {:<32} fine", "idle config")
    );
    assert_eq!(
        run_check("idle config", &Status::Warn("so so".to_string()), true),
        format!("\x1b[1;33m!\x1b[0m {:<32} so so", "idle config")
    );
    assert_eq!(
        run_check("x", &Status::Fail("bad".to_string()), true),
        format!("\x1b[1;31m✗\x1b[0m {:<32} bad", "x")
    );
    let long = "a label that is longer than the column";
    assert_eq!(
        run_check(long, &Status::Pass("t".to_string()), false),
        format!("✓ {:<32} t", long)
    );
}

#[test]
fn checks_are_summed_up() {
    assert_eq!(sum_up(0, 0), "All checks passed.");
    assert_eq!(
        sum_up(0, 3),
        "3 warning(s); the bridge is likely usable but watch the lines marked `!`."
    );
    assert_eq!(
        sum_up(2, 10),
        "2 failure(s) and 10 warning(s) — fix the `✗` lines before expecting audio to flow."
    );
}

#[test]
fn a_healthy_machine_passes() {
    let opts = DoctorOpts {
        bridge_config: Some("/b"),
        idle_config: Some("/i"),
        camilla_host: "127.0.0.1",
        camilla_port: 1234,
        device: "hw:Loopback,0,0",
    };
    let found = Findings {
        modules: Ok("snd_aloop 1\n"),
        cards: Ok(CARDS),
        camilla: Ok(()),
        bridge: ConfigFile::Text(CONFIG),
        idle: ConfigFile::Text(CONFIG),
        sockets: SocketList::Listed("[::]:5353 x\n"),
    };
    let r = run(&opts, &found, false);
    assert_eq!(r.lines.len(), 8);
    assert_eq!(r.lines[0], format!("✓ {:<32} loaded", "snd-aloop module"));
    assert!(r.lines[7].starts_with("✓ mDNS daemon reachable"));
    assert_eq!(r.summary, "All checks passed.");
    assert!(!r.failed);
}

#[test]
fn a_failing_check_fails_the_command() {
    let opts = DoctorOpts {
        bridge_config: None,
        idle_config: None,
        camilla_host: "127.0.0.1",
        camilla_port: 1234,
        device: "hw:CARD=dac",
    };
    let found = Findings {
        modules: Ok("snd_aloop 1\n"),
        cards: Ok(CARDS),
        camilla: Ok(()),
        bridge: ConfigFile::Missing,
        idle: ConfigFile::Missing,
        sockets: SocketList::Failed,
    };
    let r = run(&opts, &found, false);
    assert!(r.failed);
    assert_eq!(
        r.summary,
        "1 failure(s) and 3 warning(s) — fix the `✗` lines before expecting audio to flow."
    );
    assert!(r.lines[6].starts_with("✗ device flag is loopback"));
}

#[test]
fn status_lines_have_colour_on_a_terminal() {
    assert!(supports_color(true, false));
    assert!(!supports_color(true, true));
    assert!(!supports_color(false, false));
    assert_eq!(fmt("x", "1", "m", false), "x m");
    assert_eq!(ok("done", false), "✓ done");
    assert_eq!(ok("done", true), "\x1b[1;32m✓\x1b[0m done");
    assert_eq!(step("go", true), "\x1b[1;34m▸\x1b[0m go");
    assert_eq!(info("so", true), "\x1b[1;36m·\x1b[0m so");
    assert_eq!(warn("hm", true), "\x1b[1;33m!\x1b[0m hm");
}
