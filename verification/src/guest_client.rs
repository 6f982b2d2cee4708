//! The supervisor's side of the guest agent connection: the vsock `CONNECT`
//! handshake through Firecracker's Unix socket, request ids, and the errors
//! a call reports. Connecting and reading and writing lines is the
//! caller's part.
use vstd::prelude::*;
use vstd::string::StringExecFns;
use std::sync::atomic::AtomicU64;
use std::sync::atomic::Ordering;
use crate::rpc::RpcError;
use crate::text::{chars_of, decimal, i64_to_decimal, signed_decimal, string_of, trim_chars, trim_spec, u64_to_decimal};

verus! {

/// A client of the guest agent behind one VM's vsock socket.
pub struct GuestClient {
    socket_path: String,
    next_id: AtomicU64,
}

impl GuestClient {
    /// The client of the vsock socket at `socket_path`; request ids start
    /// at 1.
    pub fn new(socket_path: &str) -> (r: Self)
        ensures
            r.socket()@ == socket_path@,
    {
        GuestClient { socket_path: String::from_str(socket_path), next_id: AtomicU64::new(1) }
    }

    /// The vsock socket.
    pub closed spec fn socket(&self) -> String {
        self.socket_path
    }

    /// The vsock socket.
    pub fn socket_path(&self) -> (r: &String)
        ensures
            *r == self.socket(),
    {
        &self.socket_path
    }

    /// The id of the next request. Which id comes back depends on the other
    /// callers sharing the client.
    pub fn next_request_id(&self) -> (r: u64) {
        self.next_id.fetch_add(1, Ordering::Relaxed)
    }
}

/// The handshake line that opens the agent's port: `CONNECT 52\n`.
pub fn connect_line() -> (r: String)
    ensures
        r@ == "CONNECT "@ + decimal(52) + "\n"@,
{
    let mut m = String::from_str("CONNECT ");
    m.append(u64_to_decimal(52).as_str());
    m.append("\n");
    m
}

/// Did the proxy accept the handshake? Its answer must start with `OK`.
pub fn handshake_accepted(line: &str) -> (r: bool)
    ensures
        r == (line@.len() >= 2 && line@[0] == 'O' && line@[1] == 'K'),
{
    let cs = chars_of(line);
    cs.len() >= 2 && cs[0] == 'O' && cs[1] == 'K'
}

/// The failure of a refused handshake, quoting the trimmed answer.
pub fn handshake_error(line: &str) -> (r: String)
    ensures
        r@ == "Vsock CONNECT handshake failed. Expected 'OK ...', got: '"@ + trim_spec(line@) + "'"@,
{
    let cs = chars_of(line);
    let t = string_of(&trim_chars(&cs));
    let mut m = String::from_str("Vsock CONNECT handshake failed. Expected 'OK ...', got: '");
    m.append(t.as_str());
    m.append("'");
    m
}

/// The failure of a call the agent answered with an error.
pub fn rpc_error_message(err: &RpcError) -> (r: String)
    ensures
        r@ == "Guest agent RPC error (code "@ + signed_decimal(err.code as int) + "): "@ + err.message@,
{
    let mut m = String::from_str("Guest agent RPC error (code ");
    m.append(i64_to_decimal(err.code as i64).as_str());
    m.append("): ");
    m.append(err.message.as_str());
    m
}

/// The failure of a call the agent answered with neither a result nor an
/// error.
pub fn empty_result_message(method: &str) -> (r: String)
    ensures
        r@ == "Guest agent returned empty result for method '"@ + method@ + "'"@,
{
    let mut m = String::from_str("Guest agent returned empty result for method '");
    m.append(method);
    m.append("'");
    m
}

} // verus!
