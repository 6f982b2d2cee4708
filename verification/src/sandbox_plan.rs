//! The supervisor's decisions around a sandbox's life: its resources and
//! image, the ports it publishes, how its VM is booted, which commands it
//! tracks, and when it may be snapshotted. Spawning, configuring and
//! polling the VM is the caller's part.
use vstd::prelude::*;
use vstd::string::StringExecFns;
use std::collections::HashMap;
use crate::config::{FirecrackerConfig, TimeoutsConfig};
use crate::rpc::{ExecParams, str_is};
use crate::sandbox::SandboxError;
use crate::text::{copy_opt_string, decimal, opt_text, u64_to_decimal};

verus! {

/// The state of a sandbox.
#[derive(Debug, Clone, Copy, PartialEq, Eq, Structural)]
pub enum SandboxStatus {
    Pending,
    Running,
    Stopped,
    Failed,
}

impl SandboxStatus {
    /// The status as it is printed in messages.
    pub open spec fn name_spec(self) -> Seq<char> {
        match self {
            SandboxStatus::Pending => "Pending"@,
            SandboxStatus::Running => "Running"@,
            SandboxStatus::Stopped => "Stopped"@,
            SandboxStatus::Failed => "Failed"@,
        }
    }

    /// The status as it is printed in messages.
    pub fn name(self) -> (r: String)
        ensures
            r@ == self.name_spec(),
    {
        match self {
            SandboxStatus::Pending => String::from_str("Pending"),
            SandboxStatus::Running => String::from_str("Running"),
            SandboxStatus::Stopped => String::from_str("Stopped"),
            SandboxStatus::Failed => String::from_str("Failed"),
        }
    }
}

/// The vCPUs, memory (MiB) and timeout (ms) of a new sandbox: what was
/// asked for, else the configured defaults.
pub fn sandbox_resources(
    vcpus: Option<u32>,
    memory_mib: Option<u32>,
    timeout_ms: Option<u64>,
    fc: &FirecrackerConfig,
    timeouts: &TimeoutsConfig,
) -> (r: (u32, u32, u64))
    ensures
        r.0 == match vcpus { Some(v) => v, None => fc.default_vcpus },
        r.1 == match memory_mib { Some(m) => m, None => fc.default_memory_mib },
        r.2 == match timeout_ms { Some(t) => t, None => timeouts.default_sandbox_timeout_ms },
{
    let v = match vcpus { Some(v) => v, None => fc.default_vcpus };
    let m = match memory_mib { Some(m) => m, None => fc.default_memory_mib };
    let t = match timeout_ms { Some(t) => t, None => timeouts.default_sandbox_timeout_ms };
    (v, m, t)
}

/// The image a sandbox boots: the one named by an image source, else
/// `default`.
pub fn image_name(source_is_image: bool, image: Option<&str>) -> (r: String)
    ensures
        r@ == match image {
            Some(i) => if source_is_image { i@ } else { "default"@ },
            None => "default"@,
        },
{
    match image {
        Some(i) => if source_is_image { String::from_str(i) } else { String::from_str("default") },
        None => String::from_str("default"),
    }
}

/// Where the first pair at or after `from` with key `k` stands, if any.
pub open spec fn find_key(acc: Seq<(u16, u16)>, k: u16, from: int) -> Option<int>
    decreases acc.len() - from,
{
    if from < 0 || from >= acc.len() {
        None
    } else if acc[from].0 == k {
        Some(from)
    } else {
        find_key(acc, k, from + 1)
    }
}

/// A map insert on key/value pairs kept in first-insertion order: the value
/// of a key already present is replaced in place, a new key goes last.
pub open spec fn upsert(acc: Seq<(u16, u16)>, k: u16, v: u16) -> Seq<(u16, u16)> {
    match find_key(acc, k, 0) {
        Some(i) => acc.update(i, (k, v)),
        None => acc.push((k, v)),
    }
}

/// The forwards `(host, guest)` inserted in order into a map from guest
/// port to host port: a guest port forwarded twice keeps the last host port.
pub open spec fn forwards_map(mappings: Seq<(u16, u16)>) -> Seq<(u16, u16)>
    decreases mappings.len(),
{
    if mappings.len() == 0 {
        Seq::empty()
    } else {
        upsert(forwards_map(mappings.drop_last()), mappings.last().1, mappings.last().0)
    }
}

/// The requested ports inserted in order into a map, each to itself.
pub open spec fn identity_map(requested: Seq<u16>) -> Seq<(u16, u16)>
    decreases requested.len(),
{
    if requested.len() == 0 {
        Seq::empty()
    } else {
        upsert(identity_map(requested.drop_last()), requested.last(), requested.last())
    }
}

/// The ports a sandbox publishes, guest port to host port, in decimal, one
/// entry per guest port: the forwards that were set up, or, when none could
/// be, each requested port to itself.
pub open spec fn port_map_spec(mappings: Seq<(u16, u16)>, requested: Seq<u16>) -> Seq<(Seq<char>, Seq<char>)> {
    let m = if mappings.len() > 0 { forwards_map(mappings) } else { identity_map(requested) };
    m.map_values(|kv: (u16, u16)| (decimal(kv.0 as nat), decimal(kv.1 as nat)))
}

/// The abstract values of string pairs.
pub open spec fn pair_views(v: Seq<(String, String)>) -> Seq<(Seq<char>, Seq<char>)> {
    v.map_values(|kv: (String, String)| (kv.0@, kv.1@))
}

/// Inserts `k -> v`, replacing the value of `k` where it is already present.
fn upsert_exec(acc: &mut Vec<(u16, u16)>, k: u16, v: u16)
    ensures
        final(acc)@ == upsert(old(acc)@, k, v),
{
    let mut j: usize = 0;
    while j < acc.len()
        invariant
            j <= acc@.len(),
            acc@ == old(acc)@,
            find_key(acc@, k, 0) == find_key(acc@, k, j as int),
        decreases acc.len() - j,
    {
        if acc[j].0 == k {
            acc.set(j, (k, v));
            return;
        }
        j = j + 1;
    }
    acc.push((k, v));
}

/// The published ports, one per guest port, in the order the guest ports
/// first appear.
pub fn port_map_entries(mappings: &Vec<(u16, u16)>, requested: &Vec<u16>) -> (r: Vec<(String, String)>)
    ensures
        pair_views(r@) == port_map_spec(mappings@, requested@),
{
    let mut nums: Vec<(u16, u16)> = Vec::new();
    if mappings.len() > 0 {
        let mut i: usize = 0;
        while i < mappings.len()
            invariant
                i <= mappings@.len(),
                nums@ == forwards_map(mappings@.take(i as int)),
            decreases mappings.len() - i,
        {
            let (host, guest) = mappings[i];
            proof {
                assert(mappings@.take(i + 1).drop_last() =~= mappings@.take(i as int));
            }
            upsert_exec(&mut nums, guest, host);
            i = i + 1;
        }
        proof {
            assert(mappings@.take(mappings@.len() as int) =~= mappings@);
        }
    } else {
        let mut i: usize = 0;
        while i < requested.len()
            invariant
                i <= requested@.len(),
                nums@ == identity_map(requested@.take(i as int)),
            decreases requested.len() - i,
        {
            let p = requested[i];
            proof {
                assert(requested@.take(i + 1).drop_last() =~= requested@.take(i as int));
            }
            upsert_exec(&mut nums, p, p);
            i = i + 1;
        }
        proof {
            assert(requested@.take(requested@.len() as int) =~= requested@);
        }
    }
    let ghost m = nums@;
    let mut out: Vec<(String, String)> = Vec::new();
    let mut i: usize = 0;
    while i < nums.len()
        invariant
            i <= nums@.len(),
            pair_views(out@) =~= nums@.take(i as int).map_values(
                |kv: (u16, u16)| (decimal(kv.0 as nat), decimal(kv.1 as nat)),
            ),
        decreases nums.len() - i,
    {
        let (guest, host) = nums[i];
        let ghost before = out@;
        out.push((u64_to_decimal(guest as u64), u64_to_decimal(host as u64)));
        proof {
            assert(pair_views(out@) =~= pair_views(before).push((decimal(guest as nat), decimal(host as nat))));
            assert(nums@.take(i + 1) =~= nums@.take(i as int).push(nums@[i as int]));
        }
        i = i + 1;
    }
    proof {
        assert(nums@.take(nums@.len() as int) =~= nums@);
    }
    out
}

/// The kernel a VM boots: `<data>/kernels/<kernel>-<arch>`, where the
/// architecture is `aarch64` on such machines and `x86_64` otherwise.
pub open spec fn kernel_path_spec(data_dir: Seq<char>, kernel: Seq<char>, arch: Seq<char>) -> Seq<char> {
    data_dir + "/kernels/"@ + kernel + "-"@ + if arch == "aarch64"@ { "aarch64"@ } else { "x86_64"@ }
}

/// The kernel image of a VM on this machine's architecture.
pub fn kernel_path(data_dir: &str, kernel: &str, arch: &str) -> (r: String)
    ensures
        r@ == kernel_path_spec(data_dir@, kernel@, arch@),
{
    let mut p = String::from_str(data_dir);
    p.append("/kernels/");
    p.append(kernel);
    p.append("-");
    if str_is(arch, "aarch64") {
        p.append("aarch64");
    } else {
        p.append("x86_64");
    }
    p
}

/// The kernel command line of every VM.
pub fn boot_args() -> (r: &'static str)
    ensures
        r@ == "console=ttyS0 reboot=k panic=1 pci=off"@,
{
    "console=ttyS0 reboot=k panic=1 pci=off"
}

/// How many times the guest agent's health is polled (every 500 ms) before
/// the VM is reported running without it.
pub const HEALTH_POLL_ATTEMPTS: u32 = 30;

/// The API steps that configure and start a VM, in order.
#[derive(Debug, Clone, Copy, PartialEq, Eq, Structural)]
pub enum BootStep {
    BootSource,
    Drives,
    MachineConfig,
    NetworkInterface,
    Vsock,
    Start,
}

impl BootStep {
    /// What failed, as the error says it.
    pub open spec fn what(self) -> Seq<char> {
        match self {
            BootStep::BootSource => "set boot source"@,
            BootStep::Drives => "set drives"@,
            BootStep::MachineConfig => "set machine config"@,
            BootStep::NetworkInterface => "set network interface"@,
            BootStep::Vsock => "set vsock"@,
            BootStep::Start => "start instance"@,
        }
    }

    /// The step after this one, if any.
    pub fn next(self) -> (r: Option<BootStep>)
        ensures
            r == match self {
                BootStep::BootSource => Some(BootStep::Drives),
                BootStep::Drives => Some(BootStep::MachineConfig),
                BootStep::MachineConfig => Some(BootStep::NetworkInterface),
                BootStep::NetworkInterface => Some(BootStep::Vsock),
                BootStep::Vsock => Some(BootStep::Start),
                BootStep::Start => None,
            },
    {
        match self {
            BootStep::BootSource => Some(BootStep::Drives),
            BootStep::Drives => Some(BootStep::MachineConfig),
            BootStep::MachineConfig => Some(BootStep::NetworkInterface),
            BootStep::NetworkInterface => Some(BootStep::Vsock),
            BootStep::Vsock => Some(BootStep::Start),
            BootStep::Start => None,
        }
    }

    /// The error of a failed step: `Failed to <what>: <detail>`.
    pub fn failure_message(self, detail: &str) -> (r: String)
        ensures
            r@ == "Failed to "@ + self.what() + ": "@ + detail@,
    {
        let mut m = String::from_str("Failed to ");
        match self {
            BootStep::BootSource => m.append("set boot source"),
            BootStep::Drives => m.append("set drives"),
            BootStep::MachineConfig => m.append("set machine config"),
            BootStep::NetworkInterface => m.append("set network interface"),
            BootStep::Vsock => m.append("set vsock"),
            BootStep::Start => m.append("start instance"),
        }
        m.append(": ");
        m.append(detail);
        m
    }
}

/// A sandbox can be snapshotted while it is running or still pending.
pub fn snapshot_precondition(sandbox_id: &str, status: SandboxStatus) -> (r: Result<(), SandboxError>)
    ensures
        (status == SandboxStatus::Running || status == SandboxStatus::Pending) ==> r is Ok,
        !(status == SandboxStatus::Running || status == SandboxStatus::Pending) ==> (r matches Err(SandboxError::InvalidState(m))
            && m@ == "Sandbox "@ + sandbox_id@ + " is not running (status: "@ + status.name_spec() + ")"@),
{
    match status {
        SandboxStatus::Running | SandboxStatus::Pending => Ok(()),
        _ => {
            let mut m = String::from_str("Sandbox ");
            m.append(sandbox_id);
            m.append(" is not running (status: ");
            m.append(status.name().as_str());
            m.append(")");
            Err(SandboxError::InvalidState(m))
        },
    }
}

/// What the supervisor records of a command.
#[derive(Debug, Clone)]
pub struct CommandInfo {
    pub cmd_id: String,
    pub exit_code: Option<i32>,
    pub started_at: u64,
    pub cwd: String,
    pub stdout: Option<String>,
    pub stderr: Option<String>,
}

/// The abstract value of a command record.
pub type CommandInfoView = (Seq<char>, Option<i32>, u64, Seq<char>, Option<Seq<char>>, Option<Seq<char>>);

impl View for CommandInfo {
    type V = CommandInfoView;

    open spec fn view(&self) -> CommandInfoView {
        (self.cmd_id@, self.exit_code, self.started_at, self.cwd@, opt_text(self.stdout), opt_text(self.stderr))
    }
}

impl CommandInfo {
    /// A copy of the record.
    pub fn duplicate(&self) -> (r: CommandInfo)
        ensures
            r@ == self@,
    {
        CommandInfo {
            cmd_id: self.cmd_id.clone(),
            exit_code: self.exit_code,
            started_at: self.started_at,
            cwd: self.cwd.clone(),
            stdout: copy_opt_string(&self.stdout),
            stderr: copy_opt_string(&self.stderr),
        }
    }
}

/// A command the supervisor follows.
#[derive(Debug, Clone)]
pub struct CommandState {
    pub info: CommandInfo,
    pub stdout: String,
    pub stderr: String,
    pub running: bool,
}

/// The request that runs a command in the guest, and the working directory
/// it is reported under (`/` when none is given). Missing arguments are
/// none, and `sudo` is off unless asked for.
pub fn exec_request(
    cmd: String,
    args: Option<Vec<String>>,
    cwd: Option<String>,
    env: Option<HashMap<String, String>>,
    sudo: Option<bool>,
) -> (r: (ExecParams, String))
    ensures
        r.0.cmd == cmd,
        r.0.args@ == match args { Some(a) => a@, None => Seq::<String>::empty() },
        r.0.cwd == cwd,
        r.0.env == env,
        r.0.sudo == match sudo { Some(s) => s, None => false },
        r.1@ == match cwd { Some(c) => c@, None => "/"@ },
{
    let shown = match &cwd {
        Some(c) => c.clone(),
        None => String::from_str("/"),
    };
    let args = match args {
        Some(a) => a,
        None => Vec::new(),
    };
    let sudo = match sudo {
        Some(s) => s,
        None => false,
    };
    (ExecParams { cmd, args, cwd, env, sudo }, shown)
}

/// Starts tracking a command: it is running until it has an exit code.
pub fn track_command(info: CommandInfo) -> (r: CommandState)
    ensures
        r.info == info,
        r.stdout@.len() == 0,
        r.stderr@.len() == 0,
        r.running == info.exit_code is None,
{
    let running = info.exit_code.is_none();
    CommandState { info, stdout: String::new(), stderr: String::new(), running }
}

impl CommandState {
    /// Takes the exit code the guest reported: once there is one, the
    /// command has finished.
    pub fn observe_exit(&mut self, exit_code: Option<i32>)
        ensures
            exit_code is Some ==> *final(self) == (CommandState {
                info: CommandInfo { exit_code: exit_code, ..old(self).info },
                running: false,
                ..*old(self)
            }),
            exit_code is None ==> *final(self) == *old(self),
    {
        if exit_code.is_some() {
            self.info.exit_code = exit_code;
            self.running = false;
        }
    }
}

/// When and where a command queried from the guest started: as recorded,
/// else now and `/`.
pub fn command_origin(known: Option<&CommandInfo>, now_ms: u64) -> (r: (u64, String))
    ensures
        match known {
            Some(info) => r.0 == info.started_at && r.1@ == info.cwd@,
            None => r.0 == now_ms && r.1@ == "/"@,
        },
{
    match known {
        Some(info) => (info.started_at, info.cwd.clone()),
        None => (now_ms, String::from_str("/")),
    }
}

} // verus!
