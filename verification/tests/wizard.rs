use rpi_camilla_bridge::init::{
    candidates, decide_write, explain, is_yes, menu, parse_card, prompt_channels, prompt_index, prompt_rate,
    prompt_with_default, prompt_yes, read_cards, render, run_wizard, target_path, Card, WizardError,
    WriteDecision,
};

const TABLE: &str = " 0 [Loopback       ]: Loopback - Loopback
                      Loopback 1
 1 [sndrpihifiberry]: RPi-simple - snd_rpi_hifiberry
                      StudioDAC8x
 2 [b1             ]: bcm2835_hdmi - bcm2835 HDMI 1
                      bcm2835 HDMI 1
";

const TEMPLATE: &str = "devices:
  samplerate: 48000           # raise to your DAC's preferred rate (96000, etc.)
  capture_samplerate: 48000
capture:
  channels: 2
  device: hw:Loopback,1,0
playback:
  channels: 2
  device: hw:CARD=YourDAC,DEV=0   # ← change to your DAC card name
pipeline: []
";

fn chars(s: &str) -> Vec<char> {
    s.chars().collect()
}

#[test]
fn cards_are_read_from_the_table() {
    let cards = read_cards(TABLE);
    assert_eq!(cards.len(), 3);
    assert_eq!(cards[0].id, "Loopback");
    assert_eq!(cards[0].name, "Loopback - Loopback (Loopback 1)");
    assert_eq!(cards[1].index, 1);
    assert_eq!(cards[1].id, "sndrpihifiberry");
    assert_eq!(cards[1].name, "RPi-simple - snd_rpi_hifiberry (StudioDAC8x)");
    assert_eq!(cards[2].id, "b1");
    assert!(read_cards("").is_empty());
    assert!(read_cards("--- no soundcards ---\n").is_empty());
}

#[test]
fn a_card_needs_a_number_and_an_id() {
    assert!(parse_card(&chars("x [a]: b"), &[]).is_none());
    assert!(parse_card(&chars("1"), &[]).is_none());
    assert!(parse_card(&chars("1 a]: b"), &[]).is_none());
    assert!(parse_card(&chars("1 [a: b"), &[]).is_none());
    assert!(parse_card(&chars("4294967296 [a]: b"), &[]).is_none());
    let c = parse_card(&chars("  7 [ a  ]: : b"), &[]).unwrap();
    assert_eq!((c.index, c.id.as_str(), c.name.as_str()), (7, "a", "b"));
    let c = parse_card(&chars("7 [a]"), &chars("long")).unwrap();
    assert_eq!(c.name, " (long)");
}

#[test]
fn the_loopback_is_no_candidate() {
    let ids: Vec<String> = candidates(read_cards(TABLE)).into_iter().map(|c| c.id).collect();
    assert_eq!(ids, vec!["sndrpihifiberry".to_string(), "b1".to_string()]);
    let c = Card {
        index: 0,
        id: "LOOPback".to_string(),
        name: String::new(),
    };
    assert!(candidates(vec![c]).is_empty());
}

#[test]
fn the_template_is_filled_in() {
    let card = Card {
        index: 1,
        id: "dac8x".to_string(),
        name: "Studio".to_string(),
    };
    let yaml = render(TEMPLATE, &card, 8, 96_000);
    assert_eq!(
        yaml,
        "devices:
  samplerate: 96000           # auto-set by `pi-receiver init`
  capture_samplerate: 96000
capture:
  channels: 2
  device: hw:Loopback,1,0
playback:
  channels: 8
  device: hw:CARD=dac8x,DEV=0   # auto-detected: card 1 (Studio)
pipeline: []
"
    );
    assert_eq!(render("filters: {}", &card, 8, 96_000), "filters: {}");
}

#[test]
fn empty_answers_take_the_default() {
    assert_eq!(prompt_with_default(" \t\n", "x"), "x");
    assert_eq!(prompt_with_default("  y z \n", "x"), "y z");
}

#[test]
fn answers_are_checked() {
    assert_eq!(prompt_index("1\n", 2), Ok(1));
    assert_eq!(prompt_index("\n", 2), Ok(0));
    assert_eq!(prompt_index("2\n", 2), Err(WizardError::OutOfRange(2, 2)));
    assert_eq!(prompt_index("-1\n", 2), Err(WizardError::NotANumber));
    assert_eq!(prompt_channels("\n"), Ok(2));
    assert_eq!(prompt_channels("8\n"), Ok(8));
    assert_eq!(prompt_channels("0\n"), Err(WizardError::NoChannels));
    assert_eq!(prompt_channels("65536\n"), Err(WizardError::BadChannels));
    assert_eq!(prompt_rate("\n"), Ok(48_000));
    assert_eq!(prompt_rate("+96000\n"), Ok(96_000));
    assert_eq!(prompt_rate("0\n"), Err(WizardError::NoRate));
    assert_eq!(prompt_rate("44.1\n"), Err(WizardError::BadRate));
}

#[test]
fn yes_and_no_in_two_languages() {
    for yes in ["y", "YES", " s\n", "Sim"] {
        assert!(prompt_yes(yes, false));
    }
    for no in ["n", "No\n", "NÃO", "nao"] {
        assert!(!prompt_yes(no, true));
    }
    assert!(prompt_yes("perhaps", true));
    assert!(!prompt_yes("\n", false));
    assert!(is_yes("sim", false));
    assert!(!is_yes("SIM", false));
}

#[test]
fn the_wizard_goes_through_all_questions() {
    let yaml = run_wizard(TEMPLATE, TABLE, "1\n", "\n", "44100\n").unwrap();
    assert!(yaml.contains("device: hw:CARD=b1,DEV=0   # auto-detected: card 2 (bcm2835_hdmi"));
    assert!(yaml.contains("capture_samplerate: 44100\n"));
    assert!(!yaml.contains("hw:CARD=Loopback"));
    assert_eq!(
        run_wizard(TEMPLATE, " 0 [Loopback]: a\n b\n", "", "", "").unwrap_err(),
        WizardError::NoCards
    );
    assert_eq!(
        run_wizard(TEMPLATE, TABLE, "9", "0", "0").unwrap_err(),
        WizardError::OutOfRange(9, 2)
    );
    assert_eq!(
        run_wizard(TEMPLATE, TABLE, "0", "0", "0").unwrap_err(),
        WizardError::NoChannels
    );
    assert_eq!(
        run_wizard(TEMPLATE, TABLE, "0", "1", "0").unwrap_err(),
        WizardError::NoRate
    );
}

#[test]
fn files_are_only_overwritten_on_request() {
    assert_eq!(decide_write(true, false, true, true), WriteDecision::Abort);
    assert_eq!(decide_write(true, true, true, true), WriteDecision::Write);
    assert_eq!(decide_write(false, false, true, false), WriteDecision::NoParent);
    assert_eq!(decide_write(false, false, false, false), WriteDecision::Write);
}

#[test]
fn the_cards_are_offered_by_number() {
    let cards = candidates(read_cards(TABLE));
    assert_eq!(
        menu(&cards),
        vec![
            format!("  [0] {:24}  {}", cards[0].id, cards[0].name),
            format!("  [1] {:24}  {}", cards[1].id, cards[1].name),
        ]
    );
}

#[test]
fn the_wizard_says_why_it_stops() {
    assert_eq!(
        explain(WizardError::NoCards),
        "no DAC cards found in /proc/asound/cards (only `Loopback`); did you load your DAC \
         kernel module?"
    );
    assert_eq!(explain(WizardError::NotANumber), "not a number");
    assert_eq!(
        explain(WizardError::OutOfRange(9, 2)),
        "choice 9 is out of range (have 2 candidates, indices 0..1)"
    );
    assert_eq!(explain(WizardError::BadChannels), "invalid channel count");
    assert_eq!(explain(WizardError::NoChannels), "channel count must be > 0");
    assert_eq!(explain(WizardError::BadRate), "invalid sample rate");
    assert_eq!(explain(WizardError::NoRate), "sample rate must be > 0");
}

#[test]
fn the_file_is_the_one_given_or_answered_or_the_default() {
    assert_eq!(target_path(Some("/tmp/b.yml"), "/other\n"), "/tmp/b.yml");
    assert_eq!(target_path(None, " /other.yml\n"), "/other.yml");
    assert_eq!(target_path(None, "\n"), "/etc/rpi-camilla-bridge/bridge.yml");
}
