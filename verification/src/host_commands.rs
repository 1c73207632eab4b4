//! Control requests that a terminal host answers itself: opening and focusing
//! windows, listing them, and injecting key events or input-method commits.
use crate::input::KeyEventKind;
use crate::ipc::{
    is_empty_ok, is_error_response, IpcAction, JsonValue, Request, Response, SyntheticKeyEvent,
};
use vstd::prelude::*;
use vstd::string::StringExecFns;

verus! {

/// A request for the host rather than for one window's terminal.
#[derive(Debug, Clone, PartialEq, Eq)]
pub enum HostControlRequest {
    OpenWindow { cols: Option<u16>, rows: Option<u16> },
    FocusWindow { window_id: u64 },
    ListWindows,
    SyntheticKeyEvent { window: Option<u64>, event: SyntheticKeyEvent },
    SyntheticImeCommit { window: Option<u64>, text: String },
}

/// The integer argument `key` of a request.
pub open spec fn arg_u64(args: JsonValue, key: Seq<char>) -> Option<u64> {
    match args.field(key) {
        Some(v) => v.u64_value(),
        None => None,
    }
}

/// The integer argument `key`, when it fits a `u16`.
pub open spec fn arg_u16(args: JsonValue, key: Seq<char>) -> Option<u16> {
    match arg_u64(args, key) {
        Some(n) => if n <= 0xffff {
            Some(n as u16)
        } else {
            None
        },
        None => None,
    }
}

/// The string argument `key` of a request.
pub open spec fn arg_str(args: JsonValue, key: Seq<char>) -> Option<Seq<char>> {
    match args.field(key) {
        Some(v) => v.str_value(),
        None => None,
    }
}

/// The boolean argument `key`, false when absent or not a boolean.
pub open spec fn arg_flag(args: JsonValue, key: Seq<char>) -> bool {
    match args.field(key) {
        Some(v) => v.bool_value() == Some(true),
        None => false,
    }
}

/// The `super` flag, spelled `super` or, when that is absent, `super_key`.
pub open spec fn arg_super(args: JsonValue) -> bool {
    match args.field("super"@) {
        Some(v) => v.bool_value() == Some(true),
        None => arg_flag(args, "super_key"@),
    }
}

/// The event kind a `kind` argument names (a press when it is not a
/// string); nothing for an unknown name.
pub open spec fn kind_of(args: JsonValue) -> Option<KeyEventKind> {
    let name = match arg_str(args, "kind"@) {
        Some(s) => s,
        None => "press"@,
    };
    if name == "press"@ {
        Some(KeyEventKind::Press)
    } else if name == "repeat"@ {
        Some(KeyEventKind::Repeat)
    } else if name == "release"@ {
        Some(KeyEventKind::Release)
    } else {
        None
    }
}

/// Whether `event` is the key event that the arguments `args` describe.
pub open spec fn event_from_args(args: JsonValue, kind: KeyEventKind, key: Seq<char>, event: SyntheticKeyEvent) -> bool {
    &&& event.kind == kind
    &&& event.key@ == key
    &&& match event.text {
        Some(t) => arg_str(args, "text"@) == Some(t@),
        None => arg_str(args, "text"@) is None,
    }
    &&& event.ctrl == arg_flag(args, "ctrl"@)
    &&& event.alt == arg_flag(args, "alt"@)
    &&& event.shift == arg_flag(args, "shift"@)
    &&& event.super_key == arg_super(args)
}

fn flag_arg(args: &JsonValue, key: &str) -> (b: bool)
    ensures
        b == arg_flag(*args, key@),
{
    match args.get(key) {
        Some(v) => v.as_bool() == Some(true),
        None => false,
    }
}

fn u16_arg(args: &JsonValue, key: &str) -> (r: Option<u16>)
    ensures
        r == arg_u16(*args, key@),
{
    match args.get(key) {
        Some(v) => match v.as_u64() {
            Some(n) => if n <= 0xffff {
                Some(n as u16)
            } else {
                None
            },
            None => None,
        },
        None => None,
    }
}

fn str_arg<'a>(args: &'a JsonValue, key: &str) -> (r: Option<&'a str>)
    ensures
        match r {
            Some(s) => arg_str(*args, key@) == Some(s@),
            None => arg_str(*args, key@) is None,
        },
{
    match args.get(key) {
        Some(v) => v.as_str(),
        None => None,
    }
}

/// The window a request names by its `window_id` argument.
pub fn target_window_from_args(req: &Request) -> (r: Option<u64>)
    ensures
        r == arg_u64(req.args, "window_id"@),
{
    match req.args.get("window_id") {
        Some(v) => v.as_u64(),
        None => None,
    }
}

/// The `cols` and `rows` a request asks a new window to have.
fn requested_window_size(req: &Request) -> (r: (Option<u16>, Option<u16>))
    ensures
        r == (arg_u16(req.args, "cols"@), arg_u16(req.args, "rows"@)),
{
    (u16_arg(&req.args, "cols"), u16_arg(&req.args, "rows"))
}

/// The non-empty `text` argument of an input-method commit.
fn ime_commit_text(req: &Request) -> (r: Option<&str>)
    ensures
        match r {
            Some(s) => arg_str(req.args, "text"@) == Some(s@) && s@.len() > 0,
            None => arg_str(req.args, "text"@) is None || arg_str(req.args, "text"@) == Some(
                Seq::<char>::empty(),
            ),
        },
{
    match str_arg(&req.args, "text") {
        Some(t) => if t.is_empty() {
            assert(t@ =~= Seq::<char>::empty());
            None
        } else {
            Some(t)
        },
        None => None,
    }
}

/// Whether `s` spells `name`.
fn str_is(s: &str, name: &str) -> (b: bool)
    ensures
        b == (s@ == name@),
{
    s.to_owned() == name.to_owned()
}

/// The key event a `send-key-event` request describes; the error says which
/// argument is missing or wrong.
fn synthetic_key_event_from_request(req: &Request) -> (r: Result<SyntheticKeyEvent, &'static str>)
    ensures
        !(req.args is Object) ==> r is Err && r->Err_0@ == "missing JSON object arguments"@,
        req.args is Object ==> match kind_of(req.args) {
            None => r is Err && r->Err_0@ == "invalid 'kind' argument"@,
            Some(kind) => match arg_str(req.args, "key"@) {
                None => r is Err && r->Err_0@ == "missing 'key' argument"@,
                Some(key) => r is Ok && event_from_args(req.args, kind, key, r->Ok_0),
            },
        },
{
    let args = &req.args;
    if !matches!(args, JsonValue::Object(_)) {
        return Err("missing JSON object arguments");
    }
    let name = match str_arg(args, "kind") {
        Some(s) => s,
        None => "press",
    };
    proof {
        reveal_strlit("press");
        reveal_strlit("repeat");
        reveal_strlit("release");
    }
    let kind = if str_is(name, "press") {
        KeyEventKind::Press
    } else if str_is(name, "repeat") {
        KeyEventKind::Repeat
    } else if str_is(name, "release") {
        KeyEventKind::Release
    } else {
        return Err("invalid 'kind' argument");
    };
    let key = match str_arg(args, "key") {
        Some(k) => k,
        None => return Err("missing 'key' argument"),
    };
    let text = match str_arg(args, "text") {
        Some(t) => Some(t.to_owned()),
        None => None,
    };
    let super_key = match args.get("super") {
        Some(v) => v.as_bool() == Some(true),
        None => flag_arg(args, "super_key"),
    };
    Ok(SyntheticKeyEvent {
        kind,
        key: key.to_owned(),
        text,
        ctrl: flag_arg(args, "ctrl"),
        alt: flag_arg(args, "alt"),
        shift: flag_arg(args, "shift"),
        super_key,
    })
}

proof fn lemma_host_commands_distinct()
    ensures
        "open-window"@ != "focus-window"@,
        "open-window"@ != "list-windows"@,
        "open-window"@ != "send-key-event"@,
        "open-window"@ != "send-ime-commit"@,
        "focus-window"@ != "list-windows"@,
        "focus-window"@ != "send-key-event"@,
        "focus-window"@ != "send-ime-commit"@,
        "list-windows"@ != "send-key-event"@,
        "list-windows"@ != "send-ime-commit"@,
        "send-key-event"@ != "send-ime-commit"@,
{
    reveal_strlit("open-window");
    reveal_strlit("focus-window");
    reveal_strlit("list-windows");
    reveal_strlit("send-key-event");
    reveal_strlit("send-ime-commit");
    assert("open-window"@[0] != "focus-window"@[0]);
    assert("open-window"@[0] != "list-windows"@[0]);
    assert("open-window"@[0] != "send-key-event"@[0]);
    assert("open-window"@[0] != "send-ime-commit"@[0]);
    assert("focus-window"@[0] != "list-windows"@[0]);
    assert("focus-window"@[0] != "send-key-event"@[0]);
    assert("focus-window"@[0] != "send-ime-commit"@[0]);
    assert("list-windows"@[0] != "send-key-event"@[0]);
    assert("list-windows"@[0] != "send-ime-commit"@[0]);
    assert("send-key-event"@[5] != "send-ime-commit"@[5]);
}

/// Reads a control request that the host handles itself. Other commands give
/// `Ok(None)`; a host command whose arguments are wrong gives the error
/// response to send back.
pub fn parse_host_control_request(req: &Request) -> (r: Result<Option<HostControlRequest>, Response>)
    ensures
        req.cmd@ == "open-window"@ ==> r == Ok::<Option<HostControlRequest>, Response>(
            Some(
                HostControlRequest::OpenWindow {
                    cols: arg_u16(req.args, "cols"@),
                    rows: arg_u16(req.args, "rows"@),
                },
            ),
        ),
        req.cmd@ == "focus-window"@ ==> match arg_u64(req.args, "window_id"@) {
            Some(id) => r == Ok::<Option<HostControlRequest>, Response>(
                Some(HostControlRequest::FocusWindow { window_id: id }),
            ),
            None => r is Err && is_error_response(r->Err_0, "missing 'window_id' argument"@),
        },
        req.cmd@ == "list-windows"@ ==> r == Ok::<Option<HostControlRequest>, Response>(
            Some(HostControlRequest::ListWindows),
        ),
        req.cmd@ == "send-key-event"@ ==> {
            &&& !(req.args is Object) ==> r is Err && is_error_response(
                r->Err_0,
                "missing JSON object arguments"@,
            )
            &&& req.args is Object ==> match kind_of(req.args) {
                None => r is Err && is_error_response(r->Err_0, "invalid 'kind' argument"@),
                Some(kind) => match arg_str(req.args, "key"@) {
                    None => r is Err && is_error_response(r->Err_0, "missing 'key' argument"@),
                    Some(key) => r matches Ok(Some(HostControlRequest::SyntheticKeyEvent { window, event }))
                        && window == arg_u64(req.args, "window_id"@)
                        && event_from_args(req.args, kind, key, event),
                },
            }
        },
        req.cmd@ == "send-ime-commit"@ ==> match arg_str(req.args, "text"@) {
            Some(t) if t.len() > 0 => r matches Ok(Some(HostControlRequest::SyntheticImeCommit { window, text }))
                && window == arg_u64(req.args, "window_id"@) && text@ == t,
            _ => r is Err && is_error_response(r->Err_0, "missing 'text' argument"@),
        },
        req.cmd@ != "open-window"@ && req.cmd@ != "focus-window"@ && req.cmd@ != "list-windows"@
            && req.cmd@ != "send-key-event"@ && req.cmd@ != "send-ime-commit"@ ==> r == Ok::<
            Option<HostControlRequest>,
            Response,
        >(None),
{
    proof {
        lemma_host_commands_distinct();
    }
    let cmd = req.cmd.as_str();
    if str_is(cmd, "open-window") {
        let (cols, rows) = requested_window_size(req);
        Ok(Some(HostControlRequest::OpenWindow { cols, rows }))
    } else if str_is(cmd, "focus-window") {
        match target_window_from_args(req) {
            Some(window_id) => Ok(Some(HostControlRequest::FocusWindow { window_id })),
            None => Err(Response::err("missing 'window_id' argument")),
        }
    } else if str_is(cmd, "list-windows") {
        Ok(Some(HostControlRequest::ListWindows))
    } else if str_is(cmd, "send-key-event") {
        match synthetic_key_event_from_request(req) {
            Ok(event) => Ok(
                Some(HostControlRequest::SyntheticKeyEvent { window: target_window_from_args(req), event }),
            ),
            Err(msg) => Err(Response::err(msg)),
        }
    } else if str_is(cmd, "send-ime-commit") {
        match ime_commit_text(req) {
            Some(text) => Ok(
                Some(
                    HostControlRequest::SyntheticImeCommit {
                        window: target_window_from_args(req),
                        text: text.to_owned(),
                    },
                ),
            ),
            None => Err(Response::err("missing 'text' argument")),
        }
    } else {
        Ok(None)
    }
}

/// Whether `v` is the array of the integers `ids`.
pub open spec fn array_of_u64(v: JsonValue, ids: Seq<u64>) -> bool {
    match v {
        JsonValue::Array(a) => a@.len() == ids.len() && forall|i: int|
            0 <= i < a@.len() ==> a@[i] == JsonValue::UInt(ids[i]),
        _ => false,
    }
}

/// Whether `v` is the array of the strings `names`.
pub open spec fn array_of_strs(v: JsonValue, names: Seq<Seq<char>>) -> bool {
    match v {
        JsonValue::Array(a) => a@.len() == names.len() && forall|i: int|
            0 <= i < a@.len() ==> (#[trigger] a@[i]).str_value() == Some(names[i]),
        _ => false,
    }
}

/// The answer to `list-windows`: the window ids, their number and the
/// focused window (`null` when none is).
pub fn host_list_windows_response(window_ids: Vec<u64>, focused_window: Option<u64>) -> (r: Response)
    requires
        window_ids@.len() <= u64::MAX,
    ensures
        r.ok && r.error is None,
        match r.data {
            Some(JsonValue::Object(e)) => {
                &&& e@.len() == 3
                &&& e@[0].0@ == "count"@ && e@[0].1 == JsonValue::UInt(window_ids@.len() as u64)
                &&& e@[1].0@ == "focused"@ && e@[1].1 == (match focused_window {
                    Some(w) => JsonValue::UInt(w),
                    None => JsonValue::Null,
                })
                &&& e@[2].0@ == "windows"@ && array_of_u64(e@[2].1, window_ids@)
            },
            _ => false,
        },
{
    let count = window_ids.len() as u64;
    let mut windows: Vec<JsonValue> = Vec::new();
    let mut i: usize = 0;
    while i < window_ids.len()
        invariant
            i <= window_ids@.len(),
            windows@.len() == i,
            forall|j: int| 0 <= j < i ==> windows@[j] == JsonValue::UInt(window_ids@[j]),
        decreases window_ids@.len() - i,
    {
        windows.push(JsonValue::UInt(window_ids[i]));
        i = i + 1;
    }
    let focused = match focused_window {
        Some(w) => JsonValue::UInt(w),
        None => JsonValue::Null,
    };
    let mut entries: Vec<(String, JsonValue)> = Vec::new();
    entries.push((String::from_str("count"), JsonValue::UInt(count)));
    entries.push((String::from_str("focused"), focused));
    entries.push((String::from_str("windows"), JsonValue::Array(windows)));
    Response::ok(JsonValue::Object(entries))
}

/// The commands every window answers, then those only a host answers.
pub open spec fn listed_commands(include_host_commands: bool) -> Seq<Seq<char>> {
    let window_commands = seq![
        "get-text"@,
        "send-text"@,
        "send-key"@,
        "send-key-event"@,
        "send-ime-commit"@,
        "get-cursor"@,
        "get-size"@,
        "set-title"@,
        "close"@,
        "ls"@,
    ];
    if include_host_commands {
        window_commands + seq!["open-window"@, "focus-window"@, "list-windows"@]
    } else {
        window_commands
    }
}

/// The answer to `ls`: the names of the commands understood, with the host's
/// own when asked for.
pub fn host_ls_response(include_host_commands: bool) -> (r: Response)
    ensures
        r.ok && r.error is None,
        match r.data {
            Some(JsonValue::Object(e)) => {
                &&& e@.len() == 1
                &&& e@[0].0@ == "commands"@
                &&& array_of_strs(e@[0].1, listed_commands(include_host_commands))
            },
            _ => false,
        },
{
    let names: Vec<&str> = if include_host_commands {
        vec![
            "get-text",
            "send-text",
            "send-key",
            "send-key-event",
            "send-ime-commit",
            "get-cursor",
            "get-size",
            "set-title",
            "close",
            "ls",
            "open-window",
            "focus-window",
            "list-windows",
        ]
    } else {
        vec![
            "get-text",
            "send-text",
            "send-key",
            "send-key-event",
            "send-ime-commit",
            "get-cursor",
            "get-size",
            "set-title",
            "close",
            "ls",
        ]
    };
    let ghost expected = listed_commands(include_host_commands);
    assert(names@.len() == expected.len());
    assert(forall|i: int| 0 <= i < names@.len() ==> (#[trigger] names@[i])@ == expected[i]);
    let mut commands: Vec<JsonValue> = Vec::new();
    let mut i: usize = 0;
    while i < names.len()
        invariant
            i <= names@.len(),
            names@.len() == expected.len(),
            forall|j: int| 0 <= j < names@.len() ==> (#[trigger] names@[j])@ == expected[j],
            commands@.len() == i,
            forall|j: int| 0 <= j < i ==> (#[trigger] commands@[j]).str_value() == Some(expected[j]),
        decreases names@.len() - i,
    {
        commands.push(JsonValue::Str(String::from_str(names[i])));
        i = i + 1;
    }
    let mut entries: Vec<(String, JsonValue)> = Vec::new();
    entries.push((String::from_str("commands"), JsonValue::Array(commands)));
    Response::ok(JsonValue::Object(entries))
}

/// What the host answers at once to a control request, and what it then does.
pub fn into_ipc_action(request: HostControlRequest) -> (r: (Response, IpcAction))
    ensures
        is_empty_ok(r.0),
        r.1 == (match request {
            HostControlRequest::OpenWindow { cols, rows } => IpcAction::OpenWindow { cols, rows },
            HostControlRequest::FocusWindow { window_id } => IpcAction::FocusWindow(window_id),
            HostControlRequest::ListWindows => IpcAction::NoOp,
            HostControlRequest::SyntheticKeyEvent { window, event } => IpcAction::SyntheticKeyEvent {
                window,
                event,
            },
            HostControlRequest::SyntheticImeCommit { window, text } => IpcAction::SyntheticImeCommit {
                window,
                text,
            },
        }),
{
    match request {
        HostControlRequest::OpenWindow { cols, rows } => (
            Response::ok_empty(),
            IpcAction::OpenWindow { cols, rows },
        ),
        HostControlRequest::FocusWindow { window_id } => (
            Response::ok_empty(),
            IpcAction::FocusWindow(window_id),
        ),
        HostControlRequest::ListWindows => (Response::ok_empty(), IpcAction::NoOp),
        HostControlRequest::SyntheticKeyEvent { window, event } => (
            Response::ok_empty(),
            IpcAction::SyntheticKeyEvent { window, event },
        ),
        HostControlRequest::SyntheticImeCommit { window, text } => (
            Response::ok_empty(),
            IpcAction::SyntheticImeCommit { window, text },
        ),
    }
}

} // verus!
