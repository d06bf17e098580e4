use rpi_camilla_bridge::camilla_ws::{
    query_raw, read_reply, try_switch, CamillaWs, Query, Stage, SwitchEvent, SwitchReport,
    SwitchStep, TrySwitch, WsError, WsMessage,
};
use serde_json::Value;

fn text(s: &str) -> Result<WsMessage, String> {
    Ok(WsMessage::Text(s.to_string()))
}

const PATH_OK: &str = "{\"SetConfigFilePath\": {\"result\": \"Ok\"}}";
const RELOAD_OK: &str = "{\"Reload\": {\"result\": \"Ok\"}}";

fn sent(step: SwitchStep) -> Query {
    match step {
        SwitchStep::Send(q) => q,
        other => panic!("{other:?}"),
    }
}

#[test]
fn the_url_has_no_path() {
    let ws = CamillaWs::connect("hifiberry.local", 1234);
    assert_eq!(ws.url, "ws://hifiberry.local:1234");
    assert_eq!(ws.stage, Stage::Connecting);
}

#[test]
fn commands_are_json() {
    let q = CamillaWs::reload().unwrap();
    assert_eq!((q.cmd.as_str(), q.wire.as_str()), ("Reload", "\"Reload\""));
    let q = CamillaWs::set_config_file_path("/etc/a \"b\"\\\n.yml").unwrap();
    assert_eq!(q.cmd, "SetConfigFilePath");
    assert_eq!(q.wire, "{\"SetConfigFilePath\":\"/etc/a \\\"b\\\"\\\\\\n.yml\"}");
    let back: Value = serde_json::from_str(&q.wire).unwrap();
    assert_eq!(
        back.get("SetConfigFilePath").and_then(Value::as_str),
        Some("/etc/a \"b\"\\\n.yml")
    );
}

#[test]
fn an_accepted_command_gives_its_value() {
    let v = query_raw("GetState", text("{\"GetState\": {\"result\": \"Ok\", \"value\": \"Running\"}}"))
        .unwrap();
    assert_eq!(v, Value::String("Running".to_string()));
    assert_eq!(query_raw("Reload", text(RELOAD_OK)).unwrap(), Value::Null);
}

#[test]
fn each_bad_answer_has_its_error() {
    assert!(matches!(
        query_raw("Reload", Err("broken pipe".to_string())),
        Err(WsError::Tungstenite(w)) if w == "broken pipe"
    ));
    assert!(matches!(
        query_raw("Reload", Ok(WsMessage::Other)),
        Err(WsError::NotText)
    ));
    assert!(matches!(query_raw("Reload", text("{")), Err(WsError::Json(_))));
    assert!(matches!(
        query_raw("Reload", text("{\"Stop\": 1}")),
        Err(WsError::Rejected { cmd, detail })
            if cmd == "Reload" && detail == "response missing key `Reload`: {\"Stop\": 1}"
    ));
    let refused = "{\"Reload\": {\"result\": \"Error\"}}";
    assert!(matches!(
        query_raw("Reload", text(refused)),
        Err(WsError::Rejected { cmd, detail }) if cmd == "Reload" && detail == refused
    ));
    for odd in ["{\"Reload\": {\"result\": 1}}", "{\"Reload\": \"Ok\"}", "{\"Reload\": {}}"] {
        assert!(matches!(
            query_raw("Reload", text(odd)),
            Err(WsError::Rejected { detail, .. }) if detail == odd
        ));
    }
}

#[test]
fn a_reply_is_judged_by_its_value() {
    let reply: Value = serde_json::from_str("{\"A\": {\"result\": \"Ok\", \"value\": [1, 2]}}").unwrap();
    let v = read_reply("A", "wire", &reply).unwrap();
    assert_eq!(v.get(1), Some(&Value::from(2)));
    assert!(matches!(
        read_reply("B", "wire", &reply),
        Err(WsError::Rejected { cmd, detail })
            if cmd == "B" && detail == "response missing key `B`: wire"
    ));
}

#[test]
fn the_reload_follows_the_accepted_path() {
    let mut ws = CamillaWs::connect("127.0.0.1", 1234);
    let q = sent(ws.switch_to("/b.yml", SwitchEvent::Connected(Ok(()))));
    assert_eq!(q.wire, "{\"SetConfigFilePath\":\"/b.yml\"}");
    assert_eq!(ws.stage, Stage::Path);
    let q = sent(ws.switch_to("/b.yml", SwitchEvent::Answered(text(PATH_OK))));
    assert_eq!(q.wire, "\"Reload\"");
    assert_eq!(ws.stage, Stage::Reload);
    assert!(matches!(
        ws.switch_to("/b.yml", SwitchEvent::Answered(text(RELOAD_OK))),
        SwitchStep::Close
    ));
    assert_eq!(ws.stage, Stage::Ended);
}

#[test]
fn a_refused_path_is_not_reloaded() {
    let mut ws = CamillaWs::connect("127.0.0.1", 1234);
    ws.switch_to("/b.yml", SwitchEvent::Connected(Ok(())));
    assert!(matches!(
        ws.switch_to("/b.yml", SwitchEvent::Answered(text(RELOAD_OK))),
        SwitchStep::Fail(WsError::Rejected { .. })
    ));
    assert_eq!(ws.stage, Stage::Ended);
}

#[test]
fn a_best_effort_swap_reports_how_it_ended() {
    let mut ws = CamillaWs::connect("127.0.0.1", 1234);
    assert!(matches!(
        try_switch(&mut ws, "/b", SwitchEvent::Connected(Err("refused".to_string()))),
        TrySwitch::Ended(SwitchReport::NotConnected(WsError::Tungstenite(w))) if w == "refused"
    ));
    let mut ws = CamillaWs::connect("127.0.0.1", 1234);
    assert!(matches!(
        try_switch(&mut ws, "/b", SwitchEvent::Connected(Ok(()))),
        TrySwitch::Send(q) if q.cmd == "SetConfigFilePath"
    ));
    assert!(matches!(
        try_switch(&mut ws, "/b", SwitchEvent::Answered(text(PATH_OK))),
        TrySwitch::Send(q) if q.cmd == "Reload"
    ));
    assert!(matches!(
        try_switch(&mut ws, "/b", SwitchEvent::Answered(text(RELOAD_OK))),
        TrySwitch::Ended(SwitchReport::Swapped)
    ));
    let mut ws = CamillaWs::connect("127.0.0.1", 1234);
    try_switch(&mut ws, "/b", SwitchEvent::Connected(Ok(())));
    assert!(matches!(
        try_switch(&mut ws, "/b", SwitchEvent::Answered(Ok(WsMessage::Other))),
        TrySwitch::Ended(SwitchReport::SwapFailed(WsError::NotText))
    ));
}

#[test]
fn websocket_errors_have_messages() {
    assert_eq!(
        WsError::Tungstenite("refused".to_string()).message(),
        "websocket transport: refused"
    );
    assert_eq!(WsError::NotText.message(), "response was not text");
    let e = query_raw("Reload", text("{")).unwrap_err();
    let why = serde_json::from_str::<Value>("{").unwrap_err();
    assert_eq!(e.message(), format!("invalid JSON response: {why}"));
    let e = query_raw("Reload", text("{\"Reload\": 0}")).unwrap_err();
    assert_eq!(e.message(), "CamillaDSP rejected `Reload`: {\"Reload\": 0}");
}
