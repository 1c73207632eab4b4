//! The control socket of a terminal host: requests and responses, the
//! actions a request asks for, synthetic key events, and the names of host
//! sockets.
use crate::backend::Backend;
use crate::font::{join_path, joined_path};
use crate::input::{decimal, push_decimal, KeyEventKind};
use vstd::prelude::*;
use vstd::string::StringExecFns;

verus! {

/// A JSON value as it travels in control requests and responses. Numbers
/// are held as the integers the protocol uses; of a number with a fraction
/// only that it is one. An object holds each of its keys once.
#[derive(Debug, PartialEq)]
pub enum JsonValue {
    Null,
    Bool(bool),
    UInt(u64),
    NegInt(i64),
    Fraction,
    Str(String),
    Array(Vec<JsonValue>),
    Object(Vec<(String, JsonValue)>),
}

/// The value stored under `key` among an object's entries.
pub open spec fn lookup(entries: Seq<(String, JsonValue)>, key: Seq<char>) -> Option<JsonValue>
    decreases entries.len(),
{
    if entries.len() == 0 {
        None
    } else if entries[0].0@ == key {
        Some(entries[0].1)
    } else {
        lookup(entries.drop_first(), key)
    }
}

proof fn lemma_lookup_skip(entries: Seq<(String, JsonValue)>, key: Seq<char>, i: int)
    requires
        0 <= i <= entries.len(),
        forall|j: int| 0 <= j < i ==> (#[trigger] entries[j]).0@ != key,
    ensures
        lookup(entries, key) == lookup(entries.subrange(i, entries.len() as int), key),
    decreases i,
{
    if i == 0 {
        assert(entries.subrange(0, entries.len() as int) =~= entries);
    } else {
        let rest = entries.drop_first();
        assert(entries[0].0@ != key);
        assert forall|j: int| 0 <= j < i - 1 implies (#[trigger] rest[j]).0@ != key by {
            assert(rest[j] == entries[j + 1]);
        }
        lemma_lookup_skip(rest, key, i - 1);
        assert(rest.subrange(i - 1, rest.len() as int) =~= entries.subrange(i, entries.len() as int));
    }
}

impl JsonValue {
    /// The member `key` of an object; nothing for other values.
    pub open spec fn field(self, key: Seq<char>) -> Option<JsonValue> {
        match self {
            JsonValue::Object(entries) => lookup(entries@, key),
            _ => None,
        }
    }

    pub open spec fn u64_value(self) -> Option<u64> {
        match self {
            JsonValue::UInt(n) => Some(n),
            _ => None,
        }
    }

    pub open spec fn bool_value(self) -> Option<bool> {
        match self {
            JsonValue::Bool(b) => Some(b),
            _ => None,
        }
    }

    pub open spec fn str_value(self) -> Option<Seq<char>> {
        match self {
            JsonValue::Str(s) => Some(s@),
            _ => None,
        }
    }

    /// The member `key` of an object.
    pub fn get(&self, key: &str) -> (r: Option<&JsonValue>)
        ensures
            match r {
                Some(v) => self.field(key@) == Some(*v),
                None => self.field(key@) is None,
            },
    {
        match self {
            JsonValue::Object(entries) => {
                let wanted = key.to_owned();
                let mut i: usize = 0;
                while i < entries.len()
                    invariant
                        i <= entries@.len(),
                        wanted@ == key@,
                        *self == JsonValue::Object(*entries),
                        forall|j: int| 0 <= j < i ==> (#[trigger] entries@[j]).0@ != key@,
                    decreases entries@.len() - i,
                {
                    if entries[i].0 == wanted {
                        proof {
                            lemma_lookup_skip(entries@, key@, i as int);
                            let rest = entries@.subrange(i as int, entries@.len() as int);
                            assert(rest[0] == entries@[i as int]);
                        }
                        return Some(&entries[i].1);
                    }
                    i = i + 1;
                }
                proof {
                    lemma_lookup_skip(entries@, key@, i as int);
                    assert(entries@.subrange(i as int, entries@.len() as int).len() == 0);
                }
                None
            },
            _ => None,
        }
    }

    /// The value of a non-negative integer.
    pub fn as_u64(&self) -> (r: Option<u64>)
        ensures
            r == self.u64_value(),
    {
        match self {
            JsonValue::UInt(n) => Some(*n),
            _ => None,
        }
    }

    pub fn as_bool(&self) -> (r: Option<bool>)
        ensures
            r == self.bool_value(),
    {
        match self {
            JsonValue::Bool(b) => Some(*b),
            _ => None,
        }
    }

    pub fn as_str(&self) -> (r: Option<&str>)
        ensures
            match r {
                Some(s) => self.str_value() == Some(s@),
                None => self.str_value() is None,
            },
    {
        match self {
            JsonValue::Str(s) => Some(s.as_str()),
            _ => None,
        }
    }

    /// The elements of an array.
    pub fn as_array(&self) -> (r: Option<&Vec<JsonValue>>)
        ensures
            match r {
                Some(a) => *self == JsonValue::Array(*a),
                None => !(self is Array),
            },
    {
        match self {
            JsonValue::Array(a) => Some(a),
            _ => None,
        }
    }
}

/// A control request: a command and its JSON arguments.
#[derive(Debug, PartialEq)]
pub struct Request {
    pub cmd: String,
    pub args: JsonValue,
}

/// The answer to a control request.
#[derive(Debug, PartialEq)]
pub struct Response {
    pub ok: bool,
    pub data: Option<JsonValue>,
    pub error: Option<String>,
}

/// Whether `r` is the failure response carrying the message `msg`.
pub open spec fn is_error_response(r: Response, msg: Seq<char>) -> bool {
    &&& !r.ok
    &&& r.data is None
    &&& r.error matches Some(e) && e@ == msg
}

/// Whether `r` is the success response without data.
pub open spec fn is_empty_ok(r: Response) -> bool {
    r.ok && r.data is None && r.error is None
}

impl Response {
    pub fn ok(data: JsonValue) -> (r: Self)
        ensures
            r.ok && r.data == Some(data) && r.error is None,
    {
        Response { ok: true, data: Some(data), error: None }
    }

    pub fn ok_empty() -> (r: Self)
        ensures
            is_empty_ok(r),
    {
        Response { ok: true, data: None, error: None }
    }

    pub fn err(msg: &str) -> (r: Self)
        ensures
            is_error_response(r, msg@),
    {
        Response { ok: false, data: None, error: Some(String::from_str(msg)) }
    }
}

/// A key event that a control request asks the host to inject.
#[derive(Debug, Clone, PartialEq, Eq)]
pub struct SyntheticKeyEvent {
    pub kind: KeyEventKind,
    pub key: String,
    pub text: Option<String>,
    pub ctrl: bool,
    pub alt: bool,
    pub shift: bool,
    pub super_key: bool,
}

/// What a control request asks the host to do.
#[derive(Debug, Clone, PartialEq, Eq)]
pub enum IpcAction {
    NoOp,
    SendText { window: Option<u64>, bytes: Vec<u8> },
    SetTitle { window: Option<u64>, title: String },
    Close { window: Option<u64> },
    OpenWindow { cols: Option<u16>, rows: Option<u16> },
    FocusWindow(u64),
    SyntheticKeyEvent { window: Option<u64>, event: SyntheticKeyEvent },
    SyntheticImeCommit { window: Option<u64>, text: String },
}

/// Whether `i` is the position of the first newline of `buf`.
pub open spec fn first_newline(buf: Seq<u8>, i: int) -> bool {
    0 <= i < buf.len() && buf[i] == 0x0a && forall|j: int| 0 <= j < i ==> buf[j] != 0x0a
}

/// The position of the first newline in `buf`.
pub fn memchr_newline(buf: &[u8]) -> (r: Option<usize>)
    ensures
        match r {
            Some(i) => first_newline(buf@, i as int),
            None => forall|j: int| 0 <= j < buf@.len() ==> buf@[j] != 0x0a,
        },
{
    let mut i: usize = 0;
    while i < buf.len()
        invariant
            i <= buf@.len(),
            forall|j: int| 0 <= j < i ==> buf@[j] != 0x0a,
        decreases buf@.len() - i,
    {
        if buf[i] == 0x0a {
            return Some(i);
        }
        i = i + 1;
    }
    None
}

/// The file name of the control socket of a host running a backend.
pub fn host_socket_name(backend: Backend) -> (s: &'static str)
    ensures
        s@ == (match backend {
            Backend::Cpu => "handterm-cpu.sock"@,
            Backend::Gpu => "handterm-gpu.sock"@,
        }),
{
    match backend {
        Backend::Cpu => "handterm-cpu.sock",
        Backend::Gpu => "handterm-gpu.sock",
    }
}

/// Whether a file name is that of a host socket: `handterm-` .. `.sock`.
pub open spec fn is_host_socket_name(name: Seq<char>) -> bool {
    name.len() >= 9 + 5 && name.subrange(0, 9) == "handterm-"@ && name.subrange(
        name.len() - 5,
        name.len() as int,
    ) == ".sock"@
}

/// Whether a file name is that of a host socket, checked when searching the
/// runtime directory for a running host.
pub fn host_socket_file_name(name: &str) -> (b: bool)
    ensures
        b == is_host_socket_name(name@),
{
    proof {
        reveal_strlit("handterm-");
        reveal_strlit(".sock");
    }
    let v = crate::text::chars_of(name);
    let n = v.len();
    if n < 14 {
        return false;
    }
    let prefix: [char; 9] = ['h', 'a', 'n', 'd', 't', 'e', 'r', 'm', '-'];
    let suffix: [char; 5] = ['.', 's', 'o', 'c', 'k'];
    assert(prefix@ =~= "handterm-"@);
    assert(suffix@ =~= ".sock"@);
    let mut i: usize = 0;
    while i < 9
        invariant
            i <= 9,
            n == v@.len() >= 14,
            v@ == name@,
            prefix@ == "handterm-"@,
            forall|j: int| 0 <= j < i ==> v@[j] == prefix@[j],
        decreases 9 - i,
    {
        if v[i] != prefix[i] {
            assert(v@.subrange(0, 9)[i as int] != "handterm-"@[i as int]);
            return false;
        }
        i = i + 1;
    }
    assert(v@.subrange(0, 9) =~= "handterm-"@);
    let mut j: usize = 0;
    while j < 5
        invariant
            j <= 5,
            n == v@.len() >= 14,
            v@ == name@,
            suffix@ == ".sock"@,
            v@.subrange(0, 9) == "handterm-"@,
            forall|q: int| 0 <= q < j ==> v@[n - 5 + q] == suffix@[q],
        decreases 5 - j,
    {
        if v[n - 5 + j] != suffix[j] {
            assert(v@.subrange(n - 5, n as int)[j as int] != ".sock"@[j as int]);
            return false;
        }
        j = j + 1;
    }
    assert(v@.subrange(n - 5, n as int) =~= ".sock"@);
    true
}

/// The directory that holds control sockets: the runtime directory when the
/// environment names one, else `/tmp/handterm-<pid>`.
pub open spec fn socket_dir(runtime_dir: Option<Seq<char>>, pid: u32) -> Seq<char> {
    match runtime_dir {
        Some(d) => d,
        None => "/tmp/handterm-"@ + decimal(pid as nat),
    }
}

/// Where a host running `backend` listens, given the value of
/// `XDG_RUNTIME_DIR` (if set) and this process's id.
pub fn default_socket_path_for_backend(backend: Backend, runtime_dir: Option<&str>, pid: u32) -> (p:
    String)
    ensures
        p@ == joined_path(
            socket_dir(
                match runtime_dir {
                    Some(d) => Some(d@),
                    None => None,
                },
                pid,
            ),
            match backend {
                Backend::Cpu => "handterm-cpu.sock"@,
                Backend::Gpu => "handterm-gpu.sock"@,
            },
        ),
{
    let dir = match runtime_dir {
        Some(d) => String::from_str(d),
        None => {
            let mut d = String::from_str("/tmp/handterm-");
            push_decimal(&mut d, pid);
            d
        },
    };
    join_path(dir.as_str(), host_socket_name(backend))
}

/// Where the CPU host listens by default.
pub fn default_socket_path(runtime_dir: Option<&str>, pid: u32) -> (p: String)
    ensures
        p@ == joined_path(
            socket_dir(
                match runtime_dir {
                    Some(d) => Some(d@),
                    None => None,
                },
                pid,
            ),
            "handterm-cpu.sock"@,
        ),
{
    default_socket_path_for_backend(Backend::Cpu, runtime_dir, pid)
}

} // verus!
