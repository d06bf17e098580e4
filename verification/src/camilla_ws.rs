//! The websocket protocol of CamillaDSP, as far as swapping its configuration
//! goes.
//!
//! A command without an argument is a JSON string, one with an argument a JSON
//! object with one member. The reply is an object whose member of the command's
//! name holds a `result`, which is `Ok` on success, and a `value`.
//!
//! A swap takes two commands: the path of the new configuration, and, once that
//! is accepted, a reload. Swapping is best effort: audio flows whatever comes of
//! it.
use serde_json::Value;
use vstd::prelude::*;

use crate::decimal::{decimal, lemma_decimal_reads, to_decimal};
use crate::json::{
    as_text, copy, get, json, json_in, json_text, misread, null_value, object_value, read, reason,
    said, text_value, to_text, Json,
};
use crate::plain::{number, numeric};
use crate::text::same_text;

verus! {

/// How long a reply is waited for.
pub const READ_TIMEOUT_MS: u64 = 3000;

/// How long sending may take.
pub const WRITE_TIMEOUT_MS: u64 = 3000;

/// What went wrong.
#[derive(Debug)]
pub enum WsError {
    /// The connection failed, for this reason.
    Tungstenite(String),
    /// The reply was no text.
    NotText,
    /// The reply was no JSON, or the command could not be written.
    Json(serde_json::Error),
    /// CamillaDSP did not accept the command.
    Rejected { cmd: String, detail: String },
}

impl WsError {
    /// What went wrong, for people.
    pub fn message(&self) -> (r: String)
        ensures
            match *self {
                WsError::Tungstenite(why) => r@ == "websocket transport: "@ + why@,
                WsError::NotText => r@ == "response was not text"@,
                WsError::Json(e) => exists|why: String|
                    #![trigger said(e, why)]
                    said(e, why) && r@ == "invalid JSON response: "@ + why@,
                WsError::Rejected { cmd, detail } => r@ == "CamillaDSP rejected `"@ + cmd@ + "`: "@
                    + detail@,
            },
    {
        match self {
            WsError::Tungstenite(why) => {
                let mut r: String = "websocket transport: ".to_owned();
                r.append(why.as_str());
                r
            },
            WsError::NotText => "response was not text".to_owned(),
            WsError::Json(e) => {
                let why: String = reason(e);
                let mut r: String = "invalid JSON response: ".to_owned();
                r.append(why.as_str());
                r
            },
            WsError::Rejected { cmd, detail } => {
                let mut r: String = "CamillaDSP rejected `".to_owned();
                r.append(cmd.as_str());
                r.append("`: ");
                r.append(detail.as_str());
                r
            },
        }
    }
}

/// A message from CamillaDSP.
#[derive(Debug)]
pub enum WsMessage {
    Text(String),
    /// Anything but text.
    Other,
}

/// A command: its name, and the text to send.
#[derive(Debug)]
pub struct Query {
    pub cmd: String,
    pub wire: String,
}

/// What came back for a command, or why nothing did.
pub type Answer = Result<WsMessage, String>;

/// The name of the command that sets the configuration.
pub open spec fn path_cmd() -> Seq<char> {
    "SetConfigFilePath"@
}

/// The name of the command that makes CamillaDSP read its configuration again.
pub open spec fn reload_cmd() -> Seq<char> {
    "Reload"@
}

/// The value that stands for the command with the path.
pub open spec fn path_query(path: Seq<char>) -> Json {
    Json::one(path_cmd(), path)
}

/// The value that stands for the reload command.
pub open spec fn reload_query() -> Json {
    Json::Text(reload_cmd())
}

/// The reply `j` accepts the command `cmd`.
pub open spec fn accepts(cmd: Seq<char>, j: Json) -> bool {
    match j.member(cmd) {
        Some(body) => body.member("result"@) == Some(Json::Text("Ok"@)),
        None => false,
    }
}

/// What a reply that accepts the command `cmd` gives back.
pub open spec fn reply_value(cmd: Seq<char>, j: Json) -> Json {
    match j.member(cmd)->0.member("value"@) {
        Some(v) => v,
        None => Json::Null,
    }
}

/// Why the reply `j`, which is `text` on the wire, does not accept `cmd`.
pub open spec fn refusal_detail(cmd: Seq<char>, text: Seq<char>, j: Json) -> Seq<char> {
    if j.member(cmd) is None {
        "response missing key `"@ + cmd + "`: "@ + text
    } else {
        text
    }
}

/// What a reply comes to, given the value that it holds.
pub fn read_reply(cmd: &str, text: &str, reply: &Value) -> (r: Result<Value, WsError>)
    ensures
        match r {
            Ok(v) => accepts(cmd@, json(*reply)) && json(v) == reply_value(cmd@, json(*reply)),
            Err(WsError::Rejected { cmd: c, detail }) => {
                &&& !accepts(cmd@, json(*reply))
                &&& c@ == cmd@
                &&& detail@ == refusal_detail(cmd@, text@, json(*reply))
            },
            Err(_) => false,
        },
{
    let body = match get(reply, cmd) {
        Some(b) => b,
        None => {
            let mut detail: String = "response missing key `".to_owned();
            detail.append(cmd);
            detail.append("`: ");
            detail.append(text);
            return Err(WsError::Rejected { cmd: cmd.to_owned(), detail });
        },
    };
    let ok: bool = match get(body, "result") {
        Some(result) => match as_text(result) {
            Some(s) => same_text(s, "Ok"),
            None => false,
        },
        None => false,
    };
    if !ok {
        return Err(WsError::Rejected { cmd: cmd.to_owned(), detail: text.to_owned() });
    }
    match get(body, "value") {
        Some(v) => Ok(copy(v)),
        None => Ok(null_value()),
    }
}

/// The answer accepts the command `cmd`.
pub open spec fn accepted(cmd: Seq<char>, answer: Answer) -> bool {
    match answer {
        Ok(WsMessage::Text(t)) => match json_in(t@) {
            Some(j) => accepts(cmd, j),
            None => false,
        },
        _ => false,
    }
}

/// `e` is what is wrong with an answer that does not accept `cmd`.
pub open spec fn blames(cmd: Seq<char>, answer: Answer, e: WsError) -> bool {
    match answer {
        Err(why) => e matches WsError::Tungstenite(w) && w@ == why@,
        Ok(WsMessage::Other) => e is NotText,
        Ok(WsMessage::Text(t)) => match json_in(t@) {
            None => e matches WsError::Json(why) && misread(t@, why),
            Some(j) => {
                &&& e matches WsError::Rejected { cmd: c, detail }
                &&& c@ == cmd
                &&& detail@ == refusal_detail(cmd, t@, j)
            },
        },
    }
}

/// What the answer to the command `cmd` comes to.
pub fn query_raw(cmd: &str, answer: Answer) -> (r: Result<Value, WsError>)
    ensures
        match r {
            Ok(v) => {
                &&& accepted(cmd@, answer)
                &&& json(v) == reply_value(cmd@, json_in(answer->Ok_0->Text_0@)->0)
            },
            Err(e) => !accepted(cmd@, answer) && blames(cmd@, answer, e),
        },
{
    match answer {
        Err(why) => Err(WsError::Tungstenite(why)),
        Ok(WsMessage::Other) => Err(WsError::NotText),
        Ok(WsMessage::Text(text)) => match read(text.as_str()) {
            Err(e) => Err(WsError::Json(e)),
            Ok(reply) => read_reply(cmd, text.as_str(), &reply),
        },
    }
}

/// How far a swap has come.
#[derive(Debug, Clone, Copy, PartialEq, Eq, Structural)]
pub enum Stage {
    /// The connection is being made.
    Connecting,
    /// The command with the path was sent.
    Path,
    /// The reload command was sent.
    Reload,
    /// Nothing more is to be done.
    Ended,
}

/// What happened to a swap.
pub enum SwitchEvent {
    /// Connecting succeeded, or failed for this reason.
    Connected(Result<(), String>),
    /// What came of sending a command and waiting for its reply.
    Answered(Answer),
}

/// What a swap does next.
#[derive(Debug)]
pub enum SwitchStep {
    /// Send the text of the query and read the reply.
    Send(Query),
    /// The configuration is swapped; close the connection.
    Close,
    /// The swap has failed.
    Fail(WsError),
}

/// The event can happen at that stage.
pub open spec fn fits(stage: Stage, event: SwitchEvent) -> bool {
    match event {
        SwitchEvent::Connected(_) => stage is Connecting,
        SwitchEvent::Answered(_) => stage is Path || stage is Reload,
    }
}

/// The stage after an event.
pub open spec fn stage_after(stage: Stage, event: SwitchEvent) -> Stage {
    match event {
        SwitchEvent::Connected(Ok(_)) => Stage::Path,
        SwitchEvent::Connected(Err(_)) => Stage::Ended,
        SwitchEvent::Answered(a) => if stage is Path && accepted(path_cmd(), a) {
            Stage::Reload
        } else {
            Stage::Ended
        },
    }
}

/// `q` is the command `cmd`, and its text is `wire`.
pub open spec fn is_query(q: Query, cmd: Seq<char>, wire: Json) -> bool {
    &&& q.cmd@ == cmd
    &&& q.wire@ == json_text(wire)
    &&& json_in(q.wire@) == Some(wire)
}

/// `step` is what follows an event.
pub open spec fn follows(
    stage: Stage,
    path: Seq<char>,
    event: SwitchEvent,
    step: SwitchStep,
) -> bool {
    match event {
        SwitchEvent::Connected(Ok(_)) => step matches SwitchStep::Send(q) && is_query(
            q,
            path_cmd(),
            path_query(path),
        ),
        SwitchEvent::Connected(Err(why)) => step matches SwitchStep::Fail(WsError::Tungstenite(w))
            && w@ == why@,
        SwitchEvent::Answered(a) => if stage is Path {
            if accepted(path_cmd(), a) {
                step matches SwitchStep::Send(q) && is_query(q, reload_cmd(), reload_query())
            } else {
                step matches SwitchStep::Fail(e) && blames(path_cmd(), a, e)
            }
        } else {
            if accepted(reload_cmd(), a) {
                step is Close
            } else {
                step matches SwitchStep::Fail(e) && blames(reload_cmd(), a, e)
            }
        },
    }
}

/// A connection to CamillaDSP that swaps its configuration.
#[derive(Debug)]
pub struct CamillaWs {
    /// Where to connect to.
    pub url: String,
    /// How far the swap has come.
    pub stage: Stage,
}

impl CamillaWs {
    /// A connection to be made to the given host and port.
    pub fn connect(host: &str, port: u16) -> (ws: Self)
        ensures
            ws.url@ == "ws://"@ + host@ + ":"@ + decimal(port as nat),
            ws.stage is Connecting,
    {
        let mut url: String = "ws://".to_owned();
        url.append(host);
        url.append(":");
        url.append(to_decimal(port as u64).as_str());
        CamillaWs { url, stage: Stage::Connecting }
    }

    /// The command that sets the path of the configuration.
    pub fn set_config_file_path(path: &str) -> (r: Result<Query, WsError>)
        ensures
            r matches Ok(q) && is_query(q, path_cmd(), path_query(path@)),
    {
        let value = object_value("SetConfigFilePath", text_value(path));
        assert(json(value) == Json::one(path_cmd(), path@));
        match to_text(&value) {
            Ok(wire) => Ok(Query { cmd: "SetConfigFilePath".to_owned(), wire }),
            Err(e) => Err(WsError::Json(e)),
        }
    }

    /// The command that makes CamillaDSP read its configuration again.
    pub fn reload() -> (r: Result<Query, WsError>)
        ensures
            r matches Ok(q) && is_query(q, reload_cmd(), reload_query()),
    {
        match to_text(&text_value("Reload")) {
            Ok(wire) => Ok(Query { cmd: "Reload".to_owned(), wire }),
            Err(e) => Err(WsError::Json(e)),
        }
    }

    /// Takes the swap one step on: the path first, and the reload only once the
    /// path was accepted.
    pub fn switch_to(&mut self, path: &str, event: SwitchEvent) -> (step: SwitchStep)
        requires
            fits(old(self).stage, event),
        ensures
            final(self).url == old(self).url,
            final(self).stage == stage_after(old(self).stage, event),
            follows(old(self).stage, path@, event, step),
    {
        let stage = self.stage;
        self.stage = Stage::Ended;
        match event {
            SwitchEvent::Connected(Err(why)) => SwitchStep::Fail(WsError::Tungstenite(why)),
            SwitchEvent::Connected(Ok(_)) => match Self::set_config_file_path(path) {
                Ok(q) => {
                    self.stage = Stage::Path;
                    SwitchStep::Send(q)
                },
                Err(e) => SwitchStep::Fail(e),
            },
            SwitchEvent::Answered(answer) => if stage == Stage::Path {
                match query_raw("SetConfigFilePath", answer) {
                    Err(e) => SwitchStep::Fail(e),
                    Ok(_) => match Self::reload() {
                        Ok(q) => {
                            self.stage = Stage::Reload;
                            SwitchStep::Send(q)
                        },
                        Err(e) => SwitchStep::Fail(e),
                    },
                }
            } else {
                match query_raw("Reload", answer) {
                    Err(e) => SwitchStep::Fail(e),
                    Ok(_) => SwitchStep::Close,
                }
            },
        }
    }
}

/// What is reported of a swap that has ended.
#[derive(Debug)]
pub enum SwitchReport {
    /// The configuration is swapped.
    Swapped,
    /// There was no connection.
    NotConnected(WsError),
    /// The swap failed after the connection was made.
    SwapFailed(WsError),
}

/// One step of a best-effort swap.
#[derive(Debug)]
pub enum TrySwitch {
    /// Send the text of the query and read the reply.
    Send(Query),
    /// The swap has ended; the caller goes on whatever came of it.
    Ended(SwitchReport),
}

/// Takes a best-effort swap one step on. Nothing that goes wrong reaches the
/// caller but as a report, and the connection is closed exactly after a swap that
/// succeeded.
pub fn try_switch(ws: &mut CamillaWs, path: &str, event: SwitchEvent) -> (r: TrySwitch)
    requires
        fits(old(ws).stage, event),
    ensures
        final(ws).url == old(ws).url,
        final(ws).stage == stage_after(old(ws).stage, event),
        match r {
            TrySwitch::Send(q) => follows(old(ws).stage, path@, event, SwitchStep::Send(q)),
            TrySwitch::Ended(SwitchReport::Swapped) => follows(
                old(ws).stage,
                path@,
                event,
                SwitchStep::Close,
            ),
            TrySwitch::Ended(SwitchReport::NotConnected(e)) => old(ws).stage is Connecting
                && follows(old(ws).stage, path@, event, SwitchStep::Fail(e)),
            TrySwitch::Ended(SwitchReport::SwapFailed(e)) => old(ws).stage !is Connecting
                && follows(old(ws).stage, path@, event, SwitchStep::Fail(e)),
        },
{
    let connecting: bool = ws.stage == Stage::Connecting;
    match ws.switch_to(path, event) {
        SwitchStep::Send(q) => TrySwitch::Send(q),
        SwitchStep::Close => TrySwitch::Ended(SwitchReport::Swapped),
        SwitchStep::Fail(e) => if connecting {
            TrySwitch::Ended(SwitchReport::NotConnected(e))
        } else {
            TrySwitch::Ended(SwitchReport::SwapFailed(e))
        },
    }
}

/// The path that the command carries is the path that is read from its text.
pub proof fn law_path_is_read_back(q: Query, path: Seq<char>)
    requires
        is_query(q, path_cmd(), path_query(path)),
    ensures
        json_in(q.wire@) is Some,
        json_in(q.wire@)->0.member(q.cmd@) == Some(Json::Text(path)),
{
}

/// A swap succeeds exactly if the connection is made and both commands are
/// accepted. The reload is sent exactly if the path was accepted.
pub proof fn law_swap_needs_both_replies(
    path: Seq<char>,
    connected: Result<(), String>,
    first: Answer,
    second: Answer,
)
    ensures
        ({
            let after_connect = stage_after(Stage::Connecting, SwitchEvent::Connected(connected));
            let after_path = stage_after(after_connect, SwitchEvent::Answered(first));
            let reloads = connected is Ok && accepted(path_cmd(), first);
            &&& after_path is Reload <==> reloads
            &&& (after_path is Reload && follows(
                after_path,
                path,
                SwitchEvent::Answered(second),
                SwitchStep::Close,
            )) <==> (reloads && accepted(reload_cmd(), second))
            &&& stage_after(after_path, SwitchEvent::Answered(second)) is Ended
        }),
{
}

/// The reply is an object whose member `cmd` is an object whose member `result` is the
/// text `Ok`.
pub open spec fn says_ok(j: Json, cmd: Seq<char>) -> bool {
    &&& j matches Json::Object(m)
    &&& m.contains_key(cmd)
    &&& m[cmd] matches Json::Object(body)
    &&& body.contains_key("result"@)
    &&& body["result"@] == Json::Text("Ok"@)
}

/// A reply accepts a command exactly if its member of that name says `Ok`; then it gives
/// the member `value` back, or null if there is none. Else the command is rejected, with
/// its name, and with what was sent: all of it, and before that the missing name if the
/// reply has no such member.
pub proof fn law_reply_is_judged_by_its_result(
    cmd: &str,
    text: &str,
    reply: &Value,
    r: Result<Value, WsError>,
)
    requires
        call_ensures(read_reply, (cmd, text, reply), r),
    ensures
        r is Ok <==> says_ok(json(*reply), cmd@),
        r matches Ok(v) ==> ({
            let body = json(*reply)->Object_0[cmd@]->Object_0;
            json(v) == if body.contains_key("value"@) {
                body["value"@]
            } else {
                Json::Null
            }
        }),
        r matches Err(e) ==> {
            &&& e matches WsError::Rejected { cmd: c, detail }
            &&& c@ == cmd@
            &&& (json(*reply) is Object && json(*reply)->Object_0.contains_key(cmd@)) ==> detail@
                == text@
            &&& !(json(*reply) is Object && json(*reply)->Object_0.contains_key(cmd@)) ==> detail@
                == "response missing key `"@ + cmd@ + "`: "@ + text@
        },
{
}

/// An answer accepts a command exactly if it is a text that is JSON and says `Ok` for it.
/// Else the error is that of the connection, that it was no text, that it was no JSON, or
/// that it was rejected.
pub proof fn law_answer_is_judged_by_its_text(
    cmd: &str,
    answer: Answer,
    r: Result<Value, WsError>,
)
    requires
        call_ensures(query_raw, (cmd, answer), r),
    ensures
        answer matches Err(why) ==> (r matches Err(WsError::Tungstenite(w)) && w@ == why@),
        answer matches Ok(WsMessage::Other) ==> (r matches Err(WsError::NotText)),
        answer matches Ok(WsMessage::Text(t)) ==> {
            &&& json_in(t@) is None ==> (r matches Err(WsError::Json(_)))
            &&& json_in(t@) matches Some(j) ==> {
                &&& r is Ok <==> says_ok(j, cmd@)
                &&& r is Err ==> r->Err_0 is Rejected && r->Err_0->cmd@ == cmd@
            }
        },
{
}

/// The command with the path is an object with that one member, and the reload is a text.
/// Both can be read off what is sent.
pub proof fn law_commands_are_read_back(
    path: &str,
    a: Result<Query, WsError>,
    b: Result<Query, WsError>,
)
    requires
        call_ensures(CamillaWs::set_config_file_path, (path,), a),
        call_ensures(CamillaWs::reload, (), b),
    ensures
        a matches Ok(q) && {
            &&& q.cmd@ == "SetConfigFilePath"@
            &&& json_in(q.wire@) matches Some(Json::Object(m))
            &&& m.dom() == set!["SetConfigFilePath"@]
            &&& m["SetConfigFilePath"@] == Json::Text(path@)
        },
        b matches Ok(q) && q.cmd@ == "Reload"@ && json_in(q.wire@) == Some(
            Json::Text("Reload"@),
        ),
{
    let m = map!["SetConfigFilePath"@ => Json::Text(path@)];
    assert(m.dom() =~= set!["SetConfigFilePath"@]);
}

/// The answer is a text that is JSON and says `Ok` for the command.
pub open spec fn answer_ok(answer: Answer, cmd: Seq<char>) -> bool {
    &&& answer matches Ok(WsMessage::Text(t))
    &&& json_in(t@) matches Some(j)
    &&& says_ok(j, cmd)
}

/// A swap goes on exactly after what went well: the path is sent when the connection is
/// made, the reload when the path was accepted, and the swap is done when the reload was.
/// What went wrong ends it.
pub proof fn law_swap_goes_on_after_each_ok(
    ws: &mut CamillaWs,
    path: &str,
    event: SwitchEvent,
    step: SwitchStep,
)
    requires
        call_ensures(CamillaWs::switch_to, (ws, path, event), step),
    ensures
        final(ws).url == old(ws).url,
        event matches SwitchEvent::Connected(Ok(_)) ==> {
            &&& step matches SwitchStep::Send(q)
            &&& q.cmd@ == "SetConfigFilePath"@
            &&& json_in(q.wire@) matches Some(Json::Object(m))
            &&& m.contains_key("SetConfigFilePath"@) && m["SetConfigFilePath"@] == Json::Text(path@)
            &&& final(ws).stage is Path
        },
        event matches SwitchEvent::Connected(Err(_)) ==> step is Fail && final(ws).stage is Ended,
        event matches SwitchEvent::Answered(a) ==> if old(ws).stage is Path {
            &&& answer_ok(a, "SetConfigFilePath"@) ==> {
                &&& step matches SwitchStep::Send(q)
                &&& q.cmd@ == "Reload"@
                &&& json_in(q.wire@) == Some(Json::Text("Reload"@))
                &&& final(ws).stage is Reload
            }
            &&& !answer_ok(a, "SetConfigFilePath"@) ==> step is Fail && final(ws).stage is Ended
        } else {
            &&& answer_ok(a, "Reload"@) ==> step is Close
            &&& !answer_ok(a, "Reload"@) ==> step is Fail
            &&& final(ws).stage is Ended
        },
{
}

/// A swap that is tried reports the connection that failed as such, any later failure as
/// one of the swap, and success only when the reload was accepted; it never asks for
/// anything but what the swap itself does.
pub proof fn law_tried_swap_is_reported(
    ws: &mut CamillaWs,
    path: &str,
    event: SwitchEvent,
    r: TrySwitch,
)
    requires
        call_ensures(try_switch, (ws, path, event), r),
        fits(old(ws).stage, event),
    ensures
        event matches SwitchEvent::Connected(Ok(_)) ==> {
            &&& r matches TrySwitch::Send(q)
            &&& q.cmd@ == "SetConfigFilePath"@
            &&& json_in(q.wire@) matches Some(Json::Object(m))
            &&& m.contains_key("SetConfigFilePath"@) && m["SetConfigFilePath"@] == Json::Text(path@)
        },
        event matches SwitchEvent::Connected(Err(_)) ==> (r matches TrySwitch::Ended(
            SwitchReport::NotConnected(_),
        )),
        event matches SwitchEvent::Answered(a) ==> if old(ws).stage is Path {
            &&& answer_ok(a, "SetConfigFilePath"@) ==> (r matches TrySwitch::Send(q) && q.cmd@
                == "Reload"@ && json_in(q.wire@) == Some(Json::Text("Reload"@)))
            &&& !answer_ok(a, "SetConfigFilePath"@) ==> (r matches TrySwitch::Ended(
                SwitchReport::SwapFailed(_),
            ))
        } else {
            &&& answer_ok(a, "Reload"@) ==> (r matches TrySwitch::Ended(SwitchReport::Swapped))
            &&& !answer_ok(a, "Reload"@) ==> (r matches TrySwitch::Ended(
                SwitchReport::SwapFailed(_),
            ))
        },
{
}

/// The connection goes to the host and the port given.
pub proof fn law_connection_goes_to_the_host(host: &str, port: u16, ws: CamillaWs)
    requires
        call_ensures(CamillaWs::connect, (host, port), ws),
    ensures
        exists|d: Seq<char>|
            numeric(d) && number(d) == port && ws.url@ == #[trigger] ("ws://"@ + host@ + ":"@ + d),
        ws.stage is Connecting,
{
    lemma_decimal_reads(port as nat);
    assert(ws.url@ == "ws://"@ + host@ + ":"@ + decimal(port as nat));
}

/// What is told of an error holds what the error holds.
pub proof fn law_error_tells_what_it_holds(e: &WsError, r: String)
    requires
        call_ensures(WsError::message, (e,), r),
    ensures
        match *e {
            WsError::Tungstenite(why) => r@ == "websocket transport: "@ + why@,
            WsError::NotText => r@ == "response was not text"@,
            WsError::Json(_) => crate::plain::stands_at(r@, "invalid JSON response: "@, 0),
            WsError::Rejected { cmd, detail } => r@ == "CamillaDSP rejected `"@ + cmd@ + "`: "@
                + detail@,
        },
{
}

} // verus!
