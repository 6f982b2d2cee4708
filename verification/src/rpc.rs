//! The JSON-RPC protocol between the supervisor and the guest agent: its
//! port and method names, its parameter and result records, how a method
//! name is routed, the error codes answered, command ids, kill signals,
//! command lines and the base64 framing of file contents.
use vstd::prelude::*;
use vstd::string::StringExecFns;
use std::collections::HashMap;
use std::sync::atomic::AtomicU64;
use std::sync::atomic::Ordering;
use base64::Engine;
use crate::text::{chars_eq, chars_of, decimal, string_of, string_views};

verus! {

/// The vsock port the guest agent listens on.
pub const VSOCK_PORT: u32 = 52;

/// The guest's context id (Firecracker always gives the guest CID 3).
pub const VSOCK_GUEST_CID: u32 = 3;

pub const METHOD_EXEC: &'static str = "exec";
pub const METHOD_EXEC_DETACHED: &'static str = "exec_detached";
pub const METHOD_KILL: &'static str = "kill";
pub const METHOD_GET_COMMAND: &'static str = "get_command";
pub const METHOD_STREAM_LOGS: &'static str = "stream_logs";
pub const METHOD_WRITE_FILE: &'static str = "write_file";
pub const METHOD_READ_FILE: &'static str = "read_file";
pub const METHOD_MKDIR: &'static str = "mkdir";
pub const METHOD_HEALTH: &'static str = "health";
pub const METHOD_SHELL: &'static str = "shell";

/// An error answered to a request.
#[derive(Debug, Clone)]
pub struct RpcError {
    pub code: i32,
    pub message: String,
}

/// Run a command.
#[derive(Debug, Clone)]
pub struct ExecParams {
    pub cmd: String,
    pub args: Vec<String>,
    pub cwd: Option<String>,
    pub env: Option<HashMap<String, String>>,
    pub sudo: bool,
}

/// What a finished command gave.
#[derive(Debug, Clone)]
pub struct ExecResult {
    pub cmd_id: String,
    pub exit_code: Option<i32>,
    pub stdout: String,
    pub stderr: String,
}

/// The id of a command started in the background.
#[derive(Debug, Clone)]
pub struct ExecDetachedResult {
    pub cmd_id: String,
}

/// Signal a command.
#[derive(Debug, Clone)]
pub struct KillParams {
    pub cmd_id: String,
    pub signal: Option<String>,
}

/// Ask for a command's status.
#[derive(Debug, Clone)]
pub struct GetCommandParams {
    pub cmd_id: String,
}

/// A command's status.
#[derive(Debug, Clone)]
pub struct CommandStatusResult {
    pub cmd_id: String,
    pub exit_code: Option<i32>,
    pub running: bool,
}

/// Ask for a command's output.
#[derive(Debug, Clone)]
pub struct StreamLogsParams {
    pub cmd_id: String,
}

/// One stream of a command's output: `stdout` or `stderr`, and its text.
#[derive(Debug, Clone)]
pub struct LogEntry {
    pub stream: String,
    pub data: String,
}

/// Write a file; the content is base64.
#[derive(Debug, Clone)]
pub struct WriteFileParams {
    pub path: String,
    pub content: String,
}

/// Read a file.
#[derive(Debug, Clone)]
pub struct ReadFileParams {
    pub path: String,
}

/// A file read back; the content is base64, empty when the file is missing.
#[derive(Debug, Clone)]
pub struct ReadFileResult {
    pub content: String,
    pub exists: bool,
}

/// Create a directory and its parents.
#[derive(Debug, Clone)]
pub struct MkdirParams {
    pub path: String,
}

/// The agent's health.
#[derive(Debug, Clone)]
pub struct HealthResult {
    pub ok: bool,
    pub uptime_secs: u64,
}

/// Does the text equal the literal?
pub fn str_is(s: &str, lit: &str) -> (r: bool)
    ensures
        r == (s@ == lit@),
{
    let a = chars_of(s);
    let b = chars_of(lit);
    chars_eq(&a, &b)
}

/// Where a request goes.
#[derive(Debug, Clone, Copy, PartialEq, Eq, Structural)]
pub enum Route {
    Exec,
    ExecDetached,
    Kill,
    GetCommand,
    StreamLogs,
    WriteFile,
    ReadFile,
    Mkdir,
    Health,
    /// The connection turns into a raw shell session.
    Shell,
    /// No such method.
    Unknown,
}

/// The route of a method name.
pub open spec fn route_spec(method: Seq<char>) -> Route {
    if method == "exec"@ { Route::Exec }
    else if method == "exec_detached"@ { Route::ExecDetached }
    else if method == "kill"@ { Route::Kill }
    else if method == "get_command"@ { Route::GetCommand }
    else if method == "stream_logs"@ { Route::StreamLogs }
    else if method == "write_file"@ { Route::WriteFile }
    else if method == "read_file"@ { Route::ReadFile }
    else if method == "mkdir"@ { Route::Mkdir }
    else if method == "health"@ { Route::Health }
    else if method == "shell"@ { Route::Shell }
    else { Route::Unknown }
}

/// Routes a request by its method name.
pub fn route_method(method: &str) -> (r: Route)
    ensures
        r == route_spec(method@),
{
    if str_is(method, "exec") { Route::Exec }
    else if str_is(method, "exec_detached") { Route::ExecDetached }
    else if str_is(method, "kill") { Route::Kill }
    else if str_is(method, "get_command") { Route::GetCommand }
    else if str_is(method, "stream_logs") { Route::StreamLogs }
    else if str_is(method, "write_file") { Route::WriteFile }
    else if str_is(method, "read_file") { Route::ReadFile }
    else if str_is(method, "mkdir") { Route::Mkdir }
    else if str_is(method, "health") { Route::Health }
    else if str_is(method, "shell") { Route::Shell }
    else { Route::Unknown }
}

/// A line that is not JSON-RPC: code -32700, "parse error: ...".
pub fn parse_error(detail: &str) -> (r: RpcError)
    ensures
        r.code == -32700,
        r.message@ == "parse error: "@ + detail@,
{
    let mut m = String::from_str("parse error: ");
    m.append(detail);
    RpcError { code: -32700, message: m }
}

/// Parameters that do not fit the method: code -32602, "invalid params: ...".
pub fn invalid_params_error(detail: &str) -> (r: RpcError)
    ensures
        r.code == -32602,
        r.message@ == "invalid params: "@ + detail@,
{
    let mut m = String::from_str("invalid params: ");
    m.append(detail);
    RpcError { code: -32602, message: m }
}

/// A handler that failed: code -32000 with its message.
pub fn handler_error(message: &str) -> (r: RpcError)
    ensures
        r.code == -32000,
        r.message@ == message@,
{
    RpcError { code: -32000, message: String::from_str(message) }
}

/// The failure for an unknown method.
pub fn unknown_method_message(method: &str) -> (r: String)
    ensures
        r@ == "unknown method: "@ + method@,
{
    let mut m = String::from_str("unknown method: ");
    m.append(method);
    m
}

/// The lowercase hex digits of `n`, without leading zeros (`{:x}`).
pub open spec fn hex_text(n: nat) -> Seq<char>
    decreases n,
{
    if n < 16 {
        seq![crate::hex::hex_digit(n as int)]
    } else {
        hex_text(n / 16).push(crate::hex::hex_digit((n % 16) as int))
    }
}

/// The id of the `n`th command: `cmd_` and `n` in hex, padded with zeros
/// to 12 digits (`cmd_{n:012x}`).
pub open spec fn cmd_id_spec(n: nat) -> Seq<char> {
    "cmd_"@ + crate::manager::zero_padded(hex_text(n), 12)
}

fn hex_char(d: u64) -> (c: char)
    requires
        d < 16,
    ensures
        c == crate::hex::hex_digit(d as int),
{
    let digits: [char; 16] = ['0', '1', '2', '3', '4', '5', '6', '7', '8', '9', 'a', 'b', 'c', 'd', 'e', 'f'];
    let c = digits[d as usize];
    proof {
        assert(c == digits@[d as int]);
        if d < 10 {
            assert(c == (('0' as int) + d) as char);
        } else {
            assert(c == (('a' as int) + (d - 10)) as char);
        }
    }
    c
}

/// The hex digits of `n`.
fn hex_digits(n: u64) -> (r: Vec<char>)
    ensures
        r@ == hex_text(n as nat),
    decreases n,
{
    if n < 16 {
        let mut v: Vec<char> = Vec::new();
        v.push(hex_char(n));
        proof {
            assert(v@ =~= hex_text(n as nat));
        }
        v
    } else {
        let mut v = hex_digits(n / 16);
        v.push(hex_char(n % 16));
        v
    }
}

/// The command id for counter value `n`.
pub fn cmd_id_text(n: u64) -> (r: String)
    ensures
        r@ == cmd_id_spec(n as nat),
{
    let digits = hex_digits(n);
    let mut out: Vec<char> = Vec::new();
    out.push('c');
    out.push('m');
    out.push('d');
    out.push('_');
    let mut pad: usize = 0;
    if digits.len() < 12 {
        pad = 12 - digits.len();
    }
    let mut k: usize = 0;
    while k < pad
        invariant
            k <= pad,
            out@ == seq!['c', 'm', 'd', '_'] + Seq::new(k as nat, |i: int| '0'),
        decreases pad - k,
    {
        out.push('0');
        proof {
            assert(out@ =~= seq!['c', 'm', 'd', '_'] + Seq::new((k + 1) as nat, |i: int| '0'));
        }
        k = k + 1;
    }
    let ghost before = out@;
    let mut j: usize = 0;
    while j < digits.len()
        invariant
            j <= digits@.len(),
            out@ == before + digits@.take(j as int),
        decreases digits.len() - j,
    {
        out.push(digits[j]);
        proof {
            assert(digits@.take(j + 1) =~= digits@.take(j as int).push(digits@[j as int]));
        }
        j = j + 1;
    }
    proof {
        reveal_strlit("cmd_");
        assert(digits@.take(digits@.len() as int) =~= digits@);
        if digits@.len() >= 12 {
            assert(Seq::new(0nat, |i: int| '0') + digits@ =~= digits@);
            assert(before =~= seq!['c', 'm', 'd', '_'] + Seq::new(0nat, |i: int| '0'));
        }
        assert(out@ =~= "cmd_"@ + crate::manager::zero_padded(hex_text(n as nat), 12));
    }
    string_of(&out)
}

/// The number spelled by hex digits, most significant first.
pub open spec fn hex_number(s: Seq<char>) -> int
    decreases s.len(),
{
    if s.len() == 0 {
        0
    } else {
        16 * hex_number(s.drop_last()) + crate::hex::hex_value(s.last()).unwrap()
    }
}

proof fn lemma_hex_digit_value(d: int)
    requires
        0 <= d < 16,
    ensures
        crate::hex::hex_value(crate::hex::hex_digit(d)) == Some(d),
{
}

proof fn lemma_hex_text_number(n: nat)
    ensures
        hex_number(hex_text(n)) == n,
    decreases n,
{
    if n < 16 {
        lemma_hex_digit_value(n as int);
        assert(hex_text(n).drop_last() =~= Seq::<char>::empty());
        assert(hex_number(Seq::<char>::empty()) == 0);
        assert(hex_text(n).last() == crate::hex::hex_digit(n as int));
    } else {
        lemma_hex_text_number(n / 16);
        lemma_hex_digit_value((n % 16) as int);
        assert(hex_text(n).drop_last() =~= hex_text(n / 16));
        assert(hex_text(n).last() == crate::hex::hex_digit((n % 16) as int));
        assert(n == 16 * (n / 16) + n % 16);
    }
}

proof fn lemma_leading_zeros(k: nat, s: Seq<char>)
    ensures
        hex_number(Seq::new(k, |i: int| '0') + s) == hex_number(s),
    decreases s.len(),
{
    let z = Seq::new(k, |i: int| '0');
    if s.len() == 0 {
        lemma_zeros_number(k);
        assert(z + s =~= z);
    } else {
        lemma_leading_zeros(k, s.drop_last());
        assert((z + s).drop_last() =~= z + s.drop_last());
    }
}

proof fn lemma_zeros_number(k: nat)
    ensures
        hex_number(Seq::new(k, |i: int| '0')) == 0,
    decreases k,
{
    if k > 0 {
        lemma_zeros_number((k - 1) as nat);
        assert(Seq::new(k, |i: int| '0').drop_last() =~= Seq::new((k - 1) as nat, |i: int| '0'));
    }
}

/// Command ids never repeat: two different counter values give two
/// different ids.
pub proof fn lemma_cmd_ids_distinct(n: nat, m: nat)
    requires
        n != m,
    ensures
        cmd_id_spec(n) != cmd_id_spec(m),
{
    let pn = crate::manager::zero_padded(hex_text(n), 12);
    let pm = crate::manager::zero_padded(hex_text(m), 12);
    lemma_hex_text_number(n);
    lemma_hex_text_number(m);
    if hex_text(n).len() < 12 {
        lemma_leading_zeros((12 - hex_text(n).len()) as nat, hex_text(n));
    }
    if hex_text(m).len() < 12 {
        lemma_leading_zeros((12 - hex_text(m).len()) as nat, hex_text(m));
    }
    assert(hex_number(pn) == n);
    assert(hex_number(pm) == m);
    reveal_strlit("cmd_");
    if cmd_id_spec(n) == cmd_id_spec(m) {
        assert(cmd_id_spec(n).skip(4) =~= pn);
        assert(cmd_id_spec(m).skip(4) =~= pm);
    }
}

/// Hands out the next command id from a shared counter. Which value the
/// counter held depends on the other users of the counter.
pub fn next_cmd_id(counter: &AtomicU64) -> (r: String)
    ensures
        exists|n: nat| n <= u64::MAX && r@ == cmd_id_spec(n),
{
    let n = counter.fetch_add(1, Ordering::Relaxed);
    cmd_id_text(n)
}

/// The signals a command can be sent.
#[derive(Debug, Clone, Copy, PartialEq, Eq, Structural)]
pub enum SignalKind {
    Kill,
    Interrupt,
    Quit,
    Hangup,
    Terminate,
}

impl SignalKind {
    /// The signal's number.
    pub open spec fn number_spec(self) -> i32 {
        match self {
            SignalKind::Hangup => 1,
            SignalKind::Interrupt => 2,
            SignalKind::Quit => 3,
            SignalKind::Kill => 9,
            SignalKind::Terminate => 15,
        }
    }

    /// The signal's number.
    pub fn number(self) -> (r: i32)
        ensures
            r == self.number_spec(),
    {
        match self {
            SignalKind::Hangup => 1,
            SignalKind::Interrupt => 2,
            SignalKind::Quit => 3,
            SignalKind::Kill => 9,
            SignalKind::Terminate => 15,
        }
    }
}

/// The signal a kill request names: by name or number; SIGTERM when none is
/// given; `None` for any other text.
pub open spec fn signal_spec(signal: Option<Seq<char>>) -> Option<SignalKind> {
    match signal {
        None => Some(SignalKind::Terminate),
        Some(s) => if s == "SIGKILL"@ || s == "9"@ {
            Some(SignalKind::Kill)
        } else if s == "SIGINT"@ || s == "2"@ {
            Some(SignalKind::Interrupt)
        } else if s == "SIGQUIT"@ || s == "3"@ {
            Some(SignalKind::Quit)
        } else if s == "SIGHUP"@ || s == "1"@ {
            Some(SignalKind::Hangup)
        } else if s == "SIGTERM"@ || s == "15"@ {
            Some(SignalKind::Terminate)
        } else {
            None
        },
    }
}

/// Why a kill request is refused.
#[derive(Debug, Clone, PartialEq, Eq)]
pub enum KillError {
    /// No command has this id.
    NotFound,
    /// The command has finished.
    NotRunning(String),
    /// The command has no process id.
    NoPid,
    /// The signal is not one of those supported.
    UnsupportedSignal(String),
}

impl KillError {
    /// The text of the error.
    pub open spec fn message_spec(&self) -> Seq<char> {
        match self {
            KillError::NotFound => "command not found"@,
            KillError::NotRunning(id) => "command "@ + id@ + " is not running"@,
            KillError::NoPid => "no PID available for command"@,
            KillError::UnsupportedSignal(s) => "unsupported signal: "@ + s@,
        }
    }

    /// The message answered.
    pub fn message(&self) -> (r: String)
        ensures
            r@ == self.message_spec(),
    {
        match self {
            KillError::NotFound => String::from_str("command not found"),
            KillError::NotRunning(id) => {
                let mut m = String::from_str("command ");
                m.append(id.as_str());
                m.append(" is not running");
                m
            },
            KillError::NoPid => String::from_str("no PID available for command"),
            KillError::UnsupportedSignal(s) => {
                let mut m = String::from_str("unsupported signal: ");
                m.append(s.as_str());
                m
            },
        }
    }
}

/// Reads the signal of a kill request.
pub fn parse_signal(signal: Option<&str>) -> (r: Option<SignalKind>)
    ensures
        r == signal_spec(match signal { Some(s) => Some(s@), None => None }),
{
    match signal {
        None => Some(SignalKind::Terminate),
        Some(s) => {
            if str_is(s, "SIGKILL") || str_is(s, "9") {
                Some(SignalKind::Kill)
            } else if str_is(s, "SIGINT") || str_is(s, "2") {
                Some(SignalKind::Interrupt)
            } else if str_is(s, "SIGQUIT") || str_is(s, "3") {
                Some(SignalKind::Quit)
            } else if str_is(s, "SIGHUP") || str_is(s, "1") {
                Some(SignalKind::Hangup)
            } else if str_is(s, "SIGTERM") || str_is(s, "15") {
                Some(SignalKind::Terminate)
            } else {
                None
            }
        },
    }
}

/// Decides a kill request for a command that is found: it must be running
/// and have a process id, and the signal must be supported. The process id
/// is handed on as the signed id the kernel takes.
pub fn kill_target(params: &KillParams, running: bool, pid: Option<u32>) -> (r: Result<(i32, SignalKind), KillError>)
    ensures
        !running ==> r == Err::<(i32, SignalKind), KillError>(KillError::NotRunning(params.cmd_id)),
        running && pid is None ==> r == Err::<(i32, SignalKind), KillError>(KillError::NoPid),
        running && pid is Some ==> match signal_spec(match params.signal { Some(s) => Some(s@), None => None }) {
            Some(k) => r == Ok::<(i32, SignalKind), KillError>((pid->0 as i32, k)),
            None => r matches Err(KillError::UnsupportedSignal(s)) && Some(s) == params.signal,
        },
{
    if !running {
        return Err(KillError::NotRunning(params.cmd_id.clone()));
    }
    let pid = match pid {
        Some(p) => p,
        None => return Err(KillError::NoPid),
    };
    let sig = match &params.signal {
        Some(s) => parse_signal(Some(s.as_str())),
        None => parse_signal(None),
    };
    match sig {
        Some(k) => Ok((pid as i32, k)),
        None => {
            let s = match &params.signal {
                Some(s) => s.clone(),
                None => String::new(),
            };
            Err(KillError::UnsupportedSignal(s))
        },
    }
}

/// The program and arguments a request runs: under `sudo` when asked, with
/// the command as sudo's first argument.
pub open spec fn command_line_spec(params: ExecParams) -> (Seq<char>, Seq<Seq<char>>) {
    if params.sudo {
        ("sudo"@, seq![params.cmd@] + string_views(params.args@))
    } else {
        (params.cmd@, string_views(params.args@))
    }
}

/// The program and arguments to spawn.
pub fn command_line(params: &ExecParams) -> (r: (String, Vec<String>))
    ensures
        (r.0@, string_views(r.1@)) == command_line_spec(*params),
{
    if params.sudo {
        let mut args: Vec<String> = Vec::new();
        args.push(params.cmd.clone());
        let mut i: usize = 0;
        while i < params.args.len()
            invariant
                i <= params.args@.len(),
                string_views(args@) == seq![params.cmd@] + string_views(params.args@).take(i as int),
            decreases params.args.len() - i,
        {
            let ghost before = args@;
            args.push(params.args[i].clone());
            proof {
                assert(string_views(args@) =~= string_views(before).push(params.args@[i as int]@));
                assert(string_views(params.args@).take(i + 1) =~= string_views(params.args@).take(i as int).push(params.args@[i as int]@));
            }
            i = i + 1;
        }
        proof {
            assert(string_views(params.args@).take(params.args@.len() as int) =~= string_views(params.args@));
        }
        (String::from_str("sudo"), args)
    } else {
        (params.cmd.clone(), params.args.clone())
    }
}

/// The output entries of a command: its stdout then its stderr, each only
/// when not empty.
pub open spec fn log_entries_spec(stdout: Seq<char>, stderr: Seq<char>) -> Seq<(Seq<char>, Seq<char>)> {
    (if stdout.len() > 0 { seq![("stdout"@, stdout)] } else { Seq::empty() })
        + (if stderr.len() > 0 { seq![("stderr"@, stderr)] } else { Seq::empty() })
}

/// The output entries of a command.
pub fn log_entries(stdout: &str, stderr: &str) -> (r: Vec<LogEntry>)
    ensures
        r@.map_values(|e: LogEntry| (e.stream@, e.data@)) == log_entries_spec(stdout@, stderr@),
{
    let mut v: Vec<LogEntry> = Vec::new();
    if !stdout.is_empty() {
        v.push(LogEntry { stream: String::from_str("stdout"), data: String::from_str(stdout) });
    }
    let ghost first = v@;
    if !stderr.is_empty() {
        v.push(LogEntry { stream: String::from_str("stderr"), data: String::from_str(stderr) });
    }
    proof {
        let f = |e: LogEntry| (e.stream@, e.data@);
        assert(first.map_values(f) =~= (if stdout@.len() > 0 { seq![("stdout"@, stdout@)] } else { Seq::empty() }));
        assert(v@.map_values(f) =~= log_entries_spec(stdout@, stderr@));
    }
    v
}

/// Standard base64 (with padding) of some bytes.
pub uninterp spec fn base64_text(bytes: Seq<u8>) -> Seq<char>;

/// What standard base64 decoding makes of some text, when it is valid.
pub uninterp spec fn base64_bytes(text: Seq<char>) -> Option<Seq<u8>>;

/// Encodes bytes as standard base64.
///
/// Trusted: wraps `base64::engine::general_purpose::STANDARD.encode`.
#[verifier::external_body]
pub(crate) fn base64_encode(bytes: &[u8]) -> (r: String)
    ensures
        r@ == base64_text(bytes@),
{
    base64::engine::general_purpose::STANDARD.encode(bytes)
}

/// Decodes standard base64.
///
/// Trusted: wraps `base64::engine::general_purpose::STANDARD.decode`.
/// Claims that decoding what the same engine encoded gives the bytes back.
#[verifier::external_body]
pub(crate) fn base64_decode(text: &str) -> (r: Option<Vec<u8>>)
    ensures
        r is Some == base64_bytes(text@) is Some,
        r matches Some(v) ==> base64_bytes(text@) == Some(v@),
        r matches Some(v) ==> (forall|x: Seq<u8>| #[trigger] base64_text(x) == text@ ==> v@ == x),
        r is None ==> (forall|x: Seq<u8>| #[trigger] base64_text(x) != text@),
{
    match base64::engine::general_purpose::STANDARD.decode(text) {
        Ok(v) => Some(v),
        Err(_) => None,
    }
}

/// The request that writes `content` to `path` in the guest.
pub fn write_file_params(path: &str, content: &[u8]) -> (r: WriteFileParams)
    ensures
        r.path@ == path@,
        r.content@ == base64_text(content@),
{
    WriteFileParams { path: String::from_str(path), content: base64_encode(content) }
}

/// The bytes a write request carries; `None` when its content is not valid
/// base64.
pub fn write_file_content(params: &WriteFileParams) -> (r: Option<Vec<u8>>)
    ensures
        r is Some == base64_bytes(params.content@) is Some,
        r matches Some(v) ==> base64_bytes(params.content@) == Some(v@),
        forall|x: Seq<u8>| base64_text(x) == params.content@ ==> (r matches Some(v) && v@ == x),
{
    base64_decode(params.content.as_str())
}

/// The answer to a read request: the file's bytes in base64, or empty and
/// not existing when there is no file.
pub fn read_file_result(content: Option<&[u8]>) -> (r: ReadFileResult)
    ensures
        match content {
            Some(c) => r.exists && r.content@ == base64_text(c@),
            None => !r.exists && r.content@.len() == 0,
        },
{
    match content {
        Some(c) => ReadFileResult { content: base64_encode(c), exists: true },
        None => ReadFileResult { content: String::new(), exists: false },
    }
}

/// The bytes of a file read back; `None` when the answer's content is not
/// valid base64.
pub fn read_file_content(result: &ReadFileResult) -> (r: Option<Vec<u8>>)
    ensures
        r is Some == base64_bytes(result.content@) is Some,
        r matches Some(v) ==> base64_bytes(result.content@) == Some(v@),
        forall|x: Seq<u8>| base64_text(x) == result.content@ ==> (r matches Some(v) && v@ == x),
{
    base64_decode(result.content.as_str())
}


/// The method names of the protocol, in the order of their handlers.
pub open spec fn protocol_methods() -> Seq<Seq<char>> {
    seq![
        "exec"@, "exec_detached"@, "kill"@, "get_command"@, "stream_logs"@, "write_file"@,
        "read_file"@, "mkdir"@, "health"@, "shell"@,
    ]
}

/// The handlers of the protocol's methods, in the same order.
pub open spec fn protocol_handlers() -> Seq<Route> {
    seq![
        Route::Exec, Route::ExecDetached, Route::Kill, Route::GetCommand, Route::StreamLogs,
        Route::WriteFile, Route::ReadFile, Route::Mkdir, Route::Health, Route::Shell,
    ]
}

/// Each method name of the protocol goes to its own handler, no two names
/// to the same one, and only names outside the protocol are unknown.
pub proof fn lemma_each_method_has_its_handler(method: Seq<char>)
    ensures
        forall|i: int| 0 <= i < 10 ==> route_spec(#[trigger] protocol_methods()[i]) == protocol_handlers()[i],
        forall|i: int, j: int|
            0 <= i < 10 && 0 <= j < 10 && i != j ==> #[trigger] protocol_handlers()[i] != #[trigger] protocol_handlers()[j],
        route_spec(method) == Route::Unknown <==> !protocol_methods().contains(method),
{
    reveal_strlit("exec");
    reveal_strlit("exec_detached");
    reveal_strlit("kill");
    reveal_strlit("get_command");
    reveal_strlit("stream_logs");
    reveal_strlit("write_file");
    reveal_strlit("read_file");
    reveal_strlit("mkdir");
    reveal_strlit("health");
    reveal_strlit("shell");
    assert("exec"@[0] != "kill"@[0]);
    assert("get_command"@[0] != "stream_logs"@[0]);
    assert("mkdir"@[0] != "shell"@[0]);
    assert("exec"@.len() == 4);
    assert("exec_detached"@.len() == 13);
    assert("kill"@.len() == 4);
    assert("get_command"@.len() == 11);
    assert("stream_logs"@.len() == 11);
    assert("write_file"@.len() == 10);
    assert("read_file"@.len() == 9);
    assert("mkdir"@.len() == 5);
    assert("health"@.len() == 6);
    assert("shell"@.len() == 5);
    let ms = protocol_methods();
    assert forall|i: int| 0 <= i < 10 implies route_spec(#[trigger] protocol_methods()[i]) == protocol_handlers()[i] by {
        if i == 0 {
            assert(route_spec(ms[0]) == Route::Exec);
        } else if i == 1 {
            assert(route_spec(ms[1]) == Route::ExecDetached);
        } else if i == 2 {
            assert(route_spec(ms[2]) == Route::Kill);
        } else if i == 3 {
            assert(route_spec(ms[3]) == Route::GetCommand);
        } else if i == 4 {
            assert(route_spec(ms[4]) == Route::StreamLogs);
        } else if i == 5 {
            assert(route_spec(ms[5]) == Route::WriteFile);
        } else if i == 6 {
            assert(route_spec(ms[6]) == Route::ReadFile);
        } else if i == 7 {
            assert(route_spec(ms[7]) == Route::Mkdir);
        } else if i == 8 {
            assert(route_spec(ms[8]) == Route::Health);
        } else {
            assert(route_spec(ms[9]) == Route::Shell);
        }
    }
    if route_spec(method) != Route::Unknown {
        let i: int = if method == "exec"@ { 0 } else if method == "exec_detached"@ { 1 } else if method == "kill"@ { 2 }
            else if method == "get_command"@ { 3 } else if method == "stream_logs"@ { 4 } else if method == "write_file"@ { 5 }
            else if method == "read_file"@ { 6 } else if method == "mkdir"@ { 7 } else if method == "health"@ { 8 } else { 9 };
        assert(ms[i] == method);
    } else if ms.contains(method) {
        let i = choose|i: int| 0 <= i < ms.len() && ms[i] == method;
        assert(route_spec(ms[i]) == protocol_handlers()[i]);
    }
}

/// The name a signal goes by.
pub open spec fn signal_name(k: SignalKind) -> Seq<char> {
    match k {
        SignalKind::Kill => "SIGKILL"@,
        SignalKind::Interrupt => "SIGINT"@,
        SignalKind::Quit => "SIGQUIT"@,
        SignalKind::Hangup => "SIGHUP"@,
        SignalKind::Terminate => "SIGTERM"@,
    }
}

/// A kill request may name its signal or give its number, alike: each
/// supported signal is read back from its name and from its number (in
/// decimal), and a text that reads as a signal is one of these two; no
/// signal at all means SIGTERM.
pub proof fn lemma_signal_by_name_or_number(k: SignalKind, s: Seq<char>)
    ensures
        signal_spec(Some(signal_name(k))) == Some(k),
        signal_spec(Some(decimal(k.number_spec() as nat))) == Some(k),
        signal_spec(Some(s)) == Some(k) ==> s == signal_name(k) || s == decimal(k.number_spec() as nat),
        signal_spec(None) == Some(SignalKind::Terminate),
{
    reveal_strlit("SIGKILL");
    reveal_strlit("SIGINT");
    reveal_strlit("SIGQUIT");
    reveal_strlit("SIGHUP");
    reveal_strlit("SIGTERM");
    reveal_strlit("9");
    reveal_strlit("2");
    reveal_strlit("3");
    reveal_strlit("1");
    reveal_strlit("15");
    assert("SIGKILL"@[3] != "SIGQUIT"@[3]);
    assert("SIGKILL"@[3] != "SIGTERM"@[3]);
    assert("SIGINT"@[3] != "SIGHUP"@[3]);
    assert("SIGQUIT"@[3] != "SIGTERM"@[3]);
    assert("9"@[0] != "2"@[0]);
    assert("9"@[0] != "3"@[0]);
    assert("9"@[0] != "1"@[0]);
    assert("2"@[0] != "3"@[0]);
    assert("2"@[0] != "1"@[0]);
    assert("3"@[0] != "1"@[0]);
    assert("SIGKILL"@.len() == 7);
    assert("SIGINT"@.len() == 6);
    assert("SIGQUIT"@.len() == 7);
    assert("SIGHUP"@.len() == 6);
    assert("SIGTERM"@.len() == 7);
    assert("9"@.len() == 1);
    assert("2"@.len() == 1);
    assert("3"@.len() == 1);
    assert("1"@.len() == 1);
    assert("15"@.len() == 2);
    assert(decimal(9) == "9"@);
    assert(decimal(2) == "2"@);
    assert(decimal(3) == "3"@);
    assert(decimal(1) == "1"@);
    assert(decimal(1) == seq!['1']);
    assert(decimal(15) =~= seq!['1', '5']);
    assert(decimal(15) == "15"@);
}

} // verus!
