//! The supervisor's HTTP API as its command-line client sees it: the base
//! URL and paths, the body of a create request, and what a response comes
//! to. Sending the requests is the caller's part.
use vstd::prelude::*;
use vstd::string::StringExecFns;
use crate::text::{chars_of, decimal, string_of, u64_to_decimal};

verus! {

/// The text without its trailing `/` characters.
pub open spec fn trim_trailing_slashes(s: Seq<char>) -> Seq<char>
    decreases s.len(),
{
    if s.len() > 0 && s.last() == '/' {
        trim_trailing_slashes(s.drop_last())
    } else {
        s
    }
}

/// The base URL of the API at an endpoint: trailing slashes dropped, then
/// `/v1`.
pub fn api_base_url(endpoint: &str) -> (r: String)
    ensures
        r@ == trim_trailing_slashes(endpoint@) + "/v1"@,
{
    let mut cs = chars_of(endpoint);
    while cs.len() > 0 && cs[cs.len() - 1] == '/'
        invariant
            trim_trailing_slashes(endpoint@) == trim_trailing_slashes(cs@),
        decreases cs.len(),
    {
        let ghost before = cs@;
        cs.pop();
        proof {
            assert(cs@ =~= before.drop_last());
        }
    }
    let mut r = string_of(&cs);
    r.append("/v1");
    r
}

/// The path of a sandbox.
pub fn sandbox_path(id: &str) -> (r: String)
    ensures
        r@ == "/sandboxes/"@ + id@,
{
    let mut p = String::from_str("/sandboxes/");
    p.append(id);
    p
}

/// The path of an action on a sandbox (`stop`, `commands`, `snapshot`).
pub fn sandbox_action_path(id: &str, action: &str) -> (r: String)
    ensures
        r@ == "/sandboxes/"@ + id@ + "/"@ + action@,
{
    let mut p = String::from_str("/sandboxes/");
    p.append(id);
    p.append("/");
    p.append(action);
    p
}

/// The path of a snapshot.
pub fn snapshot_path(id: &str) -> (r: String)
    ensures
        r@ == "/snapshots/"@ + id@,
{
    let mut p = String::from_str("/snapshots/");
    p.append(id);
    p
}

/// A client of the supervisor's API at one endpoint.
pub struct DaemonClient {
    base_url: String,
}

impl DaemonClient {
    /// The base URL requests go to.
    pub closed spec fn base_url_spec(&self) -> Seq<char> {
        self.base_url@
    }

    /// A client of the API at `endpoint`.
    pub fn new(endpoint: &str) -> (r: Self)
        ensures
            r.base_url_spec() == trim_trailing_slashes(endpoint@) + "/v1"@,
    {
        DaemonClient { base_url: api_base_url(endpoint) }
    }

    /// The base URL requests go to.
    pub fn base_url(&self) -> (r: &str)
        ensures
            r@ == self.base_url_spec(),
    {
        self.base_url.as_str()
    }

    /// The URL of an API path.
    pub fn url(&self, path: &str) -> (r: String)
        ensures
            r@ == self.base_url_spec() + path@,
    {
        let mut u = self.base_url.clone();
        u.append(path);
        u
    }
}

/// The body of a request that creates a sandbox: a `source` naming the
/// image when one is given; `resources` when vCPUs or memory are given,
/// with those given; the timeout when given; the ports when there are any.
#[derive(Debug)]
pub struct CreateSandboxBody {
    pub source_image: Option<String>,
    pub resources: Option<(Option<u32>, Option<u32>)>,
    pub timeout: Option<u64>,
    pub ports: Option<Vec<u16>>,
}

/// The body of a request that creates a sandbox.
pub fn create_sandbox_body(
    image: Option<&str>,
    vcpus: Option<u32>,
    memory: Option<u32>,
    timeout: Option<u64>,
    ports: &[u16],
) -> (r: CreateSandboxBody)
    ensures
        match image {
            Some(i) => r.source_image matches Some(s) && s@ == i@,
            None => r.source_image is None,
        },
        r.resources == (if vcpus is Some || memory is Some { Some((vcpus, memory)) } else { None }),
        r.timeout == timeout,
        match r.ports {
            Some(p) => ports@.len() > 0 && p@ == ports@,
            None => ports@.len() == 0,
        },
{
    let source_image = match image {
        Some(i) => Some(String::from_str(i)),
        None => None,
    };
    let resources = if vcpus.is_some() || memory.is_some() { Some((vcpus, memory)) } else { None };
    let ports = if ports.len() > 0 {
        let mut v: Vec<u16> = Vec::new();
        let mut i: usize = 0;
        while i < ports.len()
            invariant
                i <= ports@.len(),
                v@ == ports@.take(i as int),
            decreases ports.len() - i,
        {
            v.push(ports[i]);
            proof {
                assert(ports@.take(i + 1) =~= ports@.take(i as int).push(ports@[i as int]));
            }
            i = i + 1;
        }
        proof {
            assert(ports@.take(ports@.len() as int) =~= ports@);
        }
        Some(v)
    } else {
        None
    };
    CreateSandboxBody { source_image, resources, timeout, ports }
}

/// The message of a failed response: its `error` text when it has one,
/// else the status and the body.
pub open spec fn api_error_text(status: u16, error: Option<Seq<char>>, body: Seq<char>) -> Seq<char> {
    match error {
        Some(m) => m,
        None => "HTTP "@ + decimal(status as nat) + " \u{2014} "@ + body,
    }
}

/// What a response comes to for a request that fails on any status of 400
/// or more.
pub fn check_response(status: u16, error: Option<&str>, body: &str) -> (r: Result<(), String>)
    ensures
        status < 400 ==> r is Ok,
        status >= 400 ==> (r matches Err(m)
            && m@ == api_error_text(status, match error { Some(e) => Some(e@), None => None }, body@)),
{
    if status < 400 {
        return Ok(());
    }
    match error {
        Some(m) => Err(String::from_str(m)),
        None => {
            let mut m = String::from_str("HTTP ");
            m.append(u64_to_decimal(status as u64).as_str());
            m.append(" \u{2014} ");
            m.append(body);
            Err(m)
        },
    }
}

/// What the response to a sandbox lookup comes to: only a 404 fails.
pub fn check_get_sandbox(status: u16, id: &str) -> (r: Result<(), String>)
    ensures
        status == 404 ==> (r matches Err(m) && m@ == "Sandbox not found: "@ + id@),
        status != 404 ==> r is Ok,
{
    if status == 404 {
        let mut m = String::from_str("Sandbox not found: ");
        m.append(id);
        Err(m)
    } else {
        Ok(())
    }
}

/// The failure of a shell request the guest refused.
pub fn shell_failed_message(message: &str) -> (r: String)
    ensures
        r@ == "Shell failed: "@ + message@,
{
    let mut m = String::from_str("Shell failed: ");
    m.append(message);
    m
}

} // verus!
