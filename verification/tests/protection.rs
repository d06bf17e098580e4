use rpi_camilla_bridge::guard::{enforce_loopback_only, explain, Refusal};

#[test]
fn allows_canonical_loopback_devices() {
    for ok in [
        "hw:Loopback,0,0",
        "hw:Loopback,0",
        "hw:CARD=Loopback,DEV=0",
        "hw:CARD=Loopback,DEV=0,SUBDEV=0",
        "loopback",
    ] {
        assert!(enforce_loopback_only(ok).is_ok(), "should allow {ok}");
    }
}

#[test]
fn rejects_dac_and_aliases() {
    for bad in [
        "hw:CARD=sndrpihifiberry,DEV=0", // direct DAC
        "hw:sndrpihifiberry,0",
        "hw:dac,0,0",
        "default",
        "sysdefault:CARD=sndrpihifiberry",
        "null",
        "pulse",
        "pipewire",
        "plughw:Loopback,0,0", // plug layer hides format mismatches
        "plug:default",
        "hw:1,0,0", // numeric — could be the DAC
    ] {
        assert!(
            enforce_loopback_only(bad).is_err(),
            "must reject `{bad}` to keep the DAC unreachable"
        );
    }
}

#[test]
fn each_refusal_has_its_reason() {
    assert_eq!(
        enforce_loopback_only("hw:CARD=sndrpihifiberry,DEV=0"),
        Err(Refusal::Banned(0))
    );
    assert_eq!(enforce_loopback_only("hw:DAC,0,0"), Err(Refusal::Banned(1)));
    assert_eq!(enforce_loopback_only("sndrpi"), Err(Refusal::Banned(2)));
    assert_eq!(enforce_loopback_only("sysdefault"), Err(Refusal::Banned(3)));
    assert_eq!(enforce_loopback_only("NULL"), Err(Refusal::Banned(4)));
    assert_eq!(enforce_loopback_only("pulse"), Err(Refusal::Banned(6)));
    assert_eq!(enforce_loopback_only("pipewire"), Err(Refusal::Banned(7)));
    assert_eq!(
        enforce_loopback_only("PLUGhw:Loopback,0,0"),
        Err(Refusal::Plug)
    );
    assert_eq!(enforce_loopback_only("hw:1,0,0"), Err(Refusal::NotLoopback));
    assert_eq!(enforce_loopback_only(""), Err(Refusal::NotLoopback));
}

#[test]
fn a_banned_name_beside_the_loopback_is_refused() {
    assert_eq!(
        enforce_loopback_only("hw:Loopback,dac"),
        Err(Refusal::Banned(1))
    );
    assert_eq!(enforce_loopback_only("HW:LOOPBACK,0"), Ok(()));
}

#[test]
fn refusals_are_explained() {
    assert_eq!(
        explain("hw:dac", Refusal::Banned(1)),
        "refusing to open `hw:dac`: matches banned pattern `dac`. The bridge only writes to \
         ALSA loopback devices so audio always passes through CamillaDSP \
         (limiters/crossovers)."
    );
    assert_eq!(
        explain("plughw:Loopback", Refusal::Plug),
        "refusing to open `plughw:Loopback`: `plug*` devices silently insert ALSA format \
         conversion that bypasses our format negotiation. Use a raw `hw:Loopback,0,0` device \
         instead."
    );
    assert!(explain("hw:1", Refusal::NotLoopback)
        .starts_with("refusing to open `hw:1`: device string must contain `loopback`"));
}
