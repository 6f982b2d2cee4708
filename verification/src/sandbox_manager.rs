//! The supervisor's table of sandboxes: what each operation of the API
//! changes in it and answers. Booting and stopping VMs, host networking and
//! calls into the guest are the caller's part; the operations here take
//! their outcomes and hand back what the caller acts on (a socket path, the
//! VM process to stop, the state to clean up).
use vstd::prelude::*;
use vstd::string::StringExecFns;
use crate::config::Config;
use crate::registry::Registry;
use crate::text::{copy_opt_string, opt_text};
use crate::sandbox::{IpPool, SandboxError, extended_timeout, extended_timeout_spec, max_fresh_counter};
use crate::lifecycle::{ip_text, ip_to_counter_spec};
use crate::sandbox_plan::{
    CommandInfo, CommandState, SandboxStatus, pair_views, port_map_entries, port_map_spec, snapshot_precondition,
    track_command,
};

verus! {

/// What the API reports of a sandbox.
#[derive(Debug)]
pub struct SandboxInfo {
    pub sandbox_id: String,
    pub status: SandboxStatus,
    pub ip: Option<String>,
    pub created_at: String,
    pub timeout: u64,
    /// Published ports: guest port to host port, in decimal.
    pub ports: Vec<(String, String)>,
}

/// The abstract value of a sandbox's report.
pub type SandboxInfoView = (Seq<char>, SandboxStatus, Option<Seq<char>>, Seq<char>, u64, Seq<(Seq<char>, Seq<char>)>);

impl View for SandboxInfo {
    type V = SandboxInfoView;

    open spec fn view(&self) -> SandboxInfoView {
        (self.sandbox_id@, self.status, opt_text(self.ip), self.created_at@, self.timeout, pair_views(self.ports@))
    }
}

fn copy_pairs(v: &Vec<(String, String)>) -> (r: Vec<(String, String)>)
    ensures
        pair_views(r@) == pair_views(v@),
{
    let mut out: Vec<(String, String)> = Vec::new();
    let mut i: usize = 0;
    while i < v.len()
        invariant
            i <= v@.len(),
            pair_views(out@) == pair_views(v@).take(i as int),
        decreases v.len() - i,
    {
        let ghost before = out@;
        out.push((v[i].0.clone(), v[i].1.clone()));
        proof {
            assert(pair_views(out@) =~= pair_views(before).push((v@[i as int].0@, v@[i as int].1@)));
            assert(pair_views(v@).take(i + 1) =~= pair_views(v@).take(i as int).push((v@[i as int].0@, v@[i as int].1@)));
        }
        i = i + 1;
    }
    proof {
        assert(pair_views(v@).take(v@.len() as int) =~= pair_views(v@));
    }
    out
}

impl SandboxInfo {
    /// A copy of the report.
    pub fn duplicate(&self) -> (r: SandboxInfo)
        ensures
            r@ == self@,
    {
        SandboxInfo {
            sandbox_id: self.sandbox_id.clone(),
            status: self.status,
            ip: copy_opt_string(&self.ip),
            created_at: self.created_at.clone(),
            timeout: self.timeout,
            ports: copy_pairs(&self.ports),
        }
    }
}

/// A sandbox the supervisor keeps: its report, its VM process while there
/// is one (of the caller's process type `P`), its files, its address, its
/// port forwards and the commands it has run.
pub struct SandboxState<P> {
    pub info: SandboxInfo,
    pub process: Option<P>,
    pub socket_path: String,
    pub rootfs_path: String,
    pub log_path: String,
    pub vsock_path: String,
    pub guest_ip: String,
    /// Host port to guest port.
    pub port_mappings: Vec<(u16, u16)>,
    pub commands: Registry<CommandState>,
}

/// The same sandbox with another status and its process gone.
pub open spec fn with_status_no_process<P>(s: SandboxState<P>, status: SandboxStatus) -> SandboxState<P> {
    SandboxState { info: SandboxInfo { status: status, ..s.info }, process: None, ..s }
}

/// The same sandbox with another timeout.
pub open spec fn with_timeout<P>(s: SandboxState<P>, timeout: u64) -> SandboxState<P> {
    SandboxState { info: SandboxInfo { timeout: timeout, ..s.info }, ..s }
}

/// Two states of a sandbox that differ in their commands at most.
pub open spec fn same_but_commands<P>(a: SandboxState<P>, b: SandboxState<P>) -> bool {
    &&& a.info == b.info
    &&& a.process == b.process
    &&& a.socket_path == b.socket_path
    &&& a.rootfs_path == b.rootfs_path
    &&& a.log_path == b.log_path
    &&& a.vsock_path == b.vsock_path
    &&& a.guest_ip == b.guest_ip
    &&& a.port_mappings == b.port_mappings
}

/// The files of a new sandbox.
pub struct SandboxFiles {
    pub socket_path: String,
    pub rootfs_path: String,
    pub log_path: String,
    pub vsock_path: String,
}

/// The supervisor's sandboxes and its pool of guest addresses.
pub struct SandboxManager<P> {
    sandboxes: Registry<SandboxState<P>>,
    ip_pool: IpPool,
    config: Config,
}

impl<P> SandboxManager<P> {
    /// The sandboxes by id.
    pub closed spec fn table(&self) -> Map<Seq<char>, SandboxState<P>> {
        self.sandboxes@
    }

    /// The pool of guest addresses.
    pub closed spec fn pool(&self) -> IpPool {
        self.ip_pool
    }

    /// The configuration.
    pub closed spec fn config_spec(&self) -> Config {
        self.config
    }

    /// No sandboxes yet, and a fresh pool.
    pub fn new(config: Config) -> (r: Self)
        ensures
            r.table() == Map::<Seq<char>, SandboxState<P>>::empty(),
            r.pool().next() == 2,
            r.pool().free() == Seq::<u32>::empty(),
            r.config_spec() == config,
    {
        SandboxManager { sandboxes: Registry::new(), ip_pool: IpPool::new(), config }
    }

    /// The configuration.
    pub fn config(&self) -> (r: &Config)
        ensures
            *r == self.config_spec(),
    {
        &self.config
    }

    /// The address of a new sandbox, from the pool.
    pub fn allocate_ip(&mut self) -> (r: Result<String, SandboxError>)
        ensures
            final(self).table() == old(self).table(),
            final(self).config_spec() == old(self).config_spec(),
            old(self).pool().free().len() > 0 ==> {
                &&& r is Ok
                &&& r->Ok_0@ == ip_text(old(self).pool().free().last())
                &&& final(self).pool().free() == old(self).pool().free().drop_last()
                &&& final(self).pool().next() == old(self).pool().next()
            },
            old(self).pool().free().len() == 0 && old(self).pool().next() > max_fresh_counter() ==> {
                &&& r matches Err(SandboxError::Internal(_))
                &&& final(self).pool().free() == old(self).pool().free()
                &&& final(self).pool().next() == old(self).pool().next()
            },
            old(self).pool().free().len() == 0 && old(self).pool().next() <= max_fresh_counter() ==> {
                &&& r is Ok
                &&& r->Ok_0@ == ip_text(old(self).pool().next())
                &&& final(self).pool().free() == old(self).pool().free()
                &&& final(self).pool().next() == old(self).pool().next() + 1
            },
    {
        proof {
            use_type_invariant(&*self);
        }
        let mut pool = IpPool::new();
        std::mem::swap(&mut pool, &mut self.ip_pool);
        let r = pool.allocate();
        self.ip_pool = pool;
        r
    }

    /// Records a new sandbox once its VM was tried: running when a process
    /// came up, failed otherwise; its published ports are the forwards that
    /// were set up, else each requested port to itself. Answers its report.
    pub fn create(
        &mut self,
        sandbox_id: String,
        guest_ip: String,
        created_at: String,
        timeout: u64,
        requested_ports: &Vec<u16>,
        port_mappings: Vec<(u16, u16)>,
        files: SandboxFiles,
        process: Option<P>,
    ) -> (r: SandboxInfo)
        ensures
            r@ == (
                sandbox_id@,
                if process is Some { SandboxStatus::Running } else { SandboxStatus::Failed },
                Some(guest_ip@),
                created_at@,
                timeout,
                port_map_spec(port_mappings@, requested_ports@),
            ),
            final(self).table().dom() == old(self).table().dom().insert(sandbox_id@),
            forall|k: Seq<char>| k != sandbox_id@ && old(self).table().contains_key(k) ==> #[trigger] final(self).table()[k] == old(self).table()[k],
            final(self).table()[sandbox_id@].info@ == r@,
            final(self).table()[sandbox_id@].process == process,
            final(self).table()[sandbox_id@].vsock_path == files.vsock_path,
            final(self).table()[sandbox_id@].socket_path == files.socket_path,
            final(self).table()[sandbox_id@].guest_ip == guest_ip,
            final(self).table()[sandbox_id@].port_mappings == port_mappings,
            final(self).table()[sandbox_id@].commands@ == Map::<Seq<char>, CommandState>::empty(),
            final(self).pool() == old(self).pool(),
            final(self).config_spec() == old(self).config_spec(),
    {
        proof {
            use_type_invariant(&*self);
        }
        let status = if process.is_some() { SandboxStatus::Running } else { SandboxStatus::Failed };
        let ports = port_map_entries(&port_mappings, requested_ports);
        let info = SandboxInfo {
            sandbox_id: sandbox_id.clone(),
            status,
            ip: Some(guest_ip.clone()),
            created_at,
            timeout,
            ports,
        };
        let answer = info.duplicate();
        let state = SandboxState {
            info,
            process,
            socket_path: files.socket_path,
            rootfs_path: files.rootfs_path,
            log_path: files.log_path,
            vsock_path: files.vsock_path,
            guest_ip,
            port_mappings,
            commands: Registry::new(),
        };
        let mut table = Registry::new();
        std::mem::swap(&mut table, &mut self.sandboxes);
        table.insert(sandbox_id, state);
        proof {
            assert forall|k: Seq<char>| #[trigger] table@.contains_key(k) implies table@[k].info.sandbox_id@ == k by {
                if k != sandbox_id@ {
                    assert(old(self).sandboxes@.contains_key(k));
                }
            }
        }
        self.sandboxes = table;
        answer
    }

    /// The reports of all sandboxes, each once.
    pub fn list(&self) -> (r: Vec<SandboxInfo>)
        ensures
            forall|i: int| #![trigger r@[i]] 0 <= i < r@.len() ==> self.table().contains_key(r@[i]@.0) && self.table()[r@[i]@.0].info@ == r@[i]@,
            forall|k: Seq<char>| #[trigger] self.table().contains_key(k) ==> exists|i: int| 0 <= i < r@.len() && #[trigger] r@[i]@.0 == k,
            forall|i: int, j: int| 0 <= i < r@.len() && 0 <= j < r@.len() && i != j ==> #[trigger] r@[i]@.0 != #[trigger] r@[j]@.0,
    {
        proof {
            use_type_invariant(self);
        }
        let entries = self.sandboxes.entries();
        let mut out: Vec<SandboxInfo> = Vec::new();
        let mut i: usize = 0;
        while i < entries.len()
            invariant
                i <= entries@.len(),
                out@.len() == i,
                forall|j: int| #![trigger entries@[j]] 0 <= j < entries@.len() ==> self.sandboxes@.contains_key(entries@[j].0@) && self.sandboxes@[entries@[j].0@] == *entries@[j].1,
                forall|j: int| #![trigger out@[j]] 0 <= j < i ==> out@[j]@ == entries@[j].1.info@,
            decreases entries.len() - i,
        {
            let d = entries[i].1.info.duplicate();
            out.push(d);
            i = i + 1;
        }
        proof {
            assert forall|j: int| 0 <= j < entries@.len() implies (#[trigger] entries@[j]).1.info.sandbox_id@ == entries@[j].0@ by {
                assert(self.sandboxes@.contains_key(entries@[j].0@));
            }
            assert forall|k: Seq<char>| #[trigger] self.table().contains_key(k) implies exists|i: int| 0 <= i < out@.len() && #[trigger] out@[i]@.0 == k by {
                let i = choose|i: int| 0 <= i < entries@.len() && #[trigger] entries@[i].0@ == k;
                assert(out@[i]@.0 == entries@[i].1.info.sandbox_id@);
            }
        }
        out
    }

    #[verifier::type_invariant]
    spec fn keyed_by_id(&self) -> bool {
        forall|k: Seq<char>| #[trigger] self.sandboxes@.contains_key(k) ==> self.sandboxes@[k].info.sandbox_id@ == k
    }

    /// The report of a sandbox.
    pub fn get(&self, id: &str) -> (r: Result<SandboxInfo, SandboxError>)
        ensures
            self.table().contains_key(id@) ==> (r matches Ok(info) && info@ == self.table()[id@].info@),
            !self.table().contains_key(id@) ==> (r matches Err(SandboxError::NotFound(m)) && m@ == id@),
    {
        match self.sandboxes.get(id) {
            Some(state) => Ok(state.info.duplicate()),
            None => Err(SandboxError::NotFound(String::from_str(id))),
        }
    }

    /// Marks a sandbox stopped and hands back its VM process, if it had
    /// one, for the caller to stop; answers the new report.
    pub fn stop(&mut self, id: &str) -> (r: Result<(SandboxInfo, Option<P>), SandboxError>)
        ensures
            final(self).pool() == old(self).pool(),
            final(self).config_spec() == old(self).config_spec(),
            old(self).table().contains_key(id@) ==> {
                &&& final(self).table() == old(self).table().insert(id@, with_status_no_process(old(self).table()[id@], SandboxStatus::Stopped))
                &&& r matches Ok((info, p)) && info@ == final(self).table()[id@].info@ && p == old(self).table()[id@].process
            },
            !old(self).table().contains_key(id@) ==> {
                &&& final(self).table() == old(self).table()
                &&& r matches Err(SandboxError::NotFound(m)) && m@ == id@
            },
    {
        proof {
            use_type_invariant(&*self);
        }
        let mut table = Registry::new();
        std::mem::swap(&mut table, &mut self.sandboxes);
        let result = match table.remove(id) {
            Some(state) => {
                let SandboxState { info, process, socket_path, rootfs_path, log_path, vsock_path, guest_ip, port_mappings, commands } = state;
                let SandboxInfo { sandbox_id, status: _, ip, created_at, timeout, ports } = info;
                let info = SandboxInfo { sandbox_id, status: SandboxStatus::Stopped, ip, created_at, timeout, ports };
                let answer = info.duplicate();
                let key = String::from_str(id);
                table.insert(key, SandboxState { info, process: None, socket_path, rootfs_path, log_path, vsock_path, guest_ip, port_mappings, commands });
                proof {
                    assert(table@ =~= old(self).table().insert(id@, with_status_no_process(old(self).table()[id@], SandboxStatus::Stopped)));
                }
                Ok((answer, process))
            },
            None => {
                proof {
                    assert(table@ =~= old(self).table());
                }
                Err(SandboxError::NotFound(String::from_str(id)))
            },
        };
        self.sandboxes = table;
        result
    }

    /// Forgets a sandbox and gives its address back to the pool; hands back
    /// what it held (its process, address and port forwards) for the caller
    /// to clean up.
    pub fn destroy(&mut self, id: &str) -> (r: Result<SandboxState<P>, SandboxError>)
        ensures
            final(self).table() == old(self).table().remove(id@),
            final(self).config_spec() == old(self).config_spec(),
            old(self).table().contains_key(id@) ==> {
                &&& r matches Ok(s) && s == old(self).table()[id@]
                &&& final(self).pool().next() == old(self).pool().next()
                &&& match ip_to_counter_spec(old(self).table()[id@].guest_ip@) {
                    Some(c) => final(self).pool().free() == old(self).pool().free().push(c),
                    None => final(self).pool().free() == old(self).pool().free(),
                }
            },
            !old(self).table().contains_key(id@) ==> {
                &&& r matches Err(SandboxError::NotFound(m)) && m@ == id@
                &&& final(self).pool() == old(self).pool()
            },
    {
        proof {
            use_type_invariant(&*self);
        }
        let mut table = Registry::new();
        std::mem::swap(&mut table, &mut self.sandboxes);
        let result = match table.remove(id) {
            Some(state) => {
                let mut pool = IpPool::new();
                std::mem::swap(&mut pool, &mut self.ip_pool);
                pool.release(state.guest_ip.as_str());
                self.ip_pool = pool;
                Ok(state)
            },
            None => Err(SandboxError::NotFound(String::from_str(id))),
        };
        self.sandboxes = table;
        result
    }

    /// The guest agent's socket of a sandbox.
    pub fn vsock_path(&self, id: &str) -> (r: Result<String, SandboxError>)
        ensures
            self.table().contains_key(id@) ==> (r matches Ok(p) && p@ == self.table()[id@].vsock_path@),
            !self.table().contains_key(id@) ==> (r matches Err(SandboxError::NotFound(m)) && m@ == id@),
    {
        match self.sandboxes.get(id) {
            Some(state) => Ok(state.vsock_path.clone()),
            None => Err(SandboxError::NotFound(String::from_str(id))),
        }
    }

    /// Starts following a command that ran in a sandbox; a sandbox that is
    /// gone by then is left alone.
    pub fn record_command(&mut self, id: &str, info: CommandInfo)
        ensures
            final(self).pool() == old(self).pool(),
            final(self).config_spec() == old(self).config_spec(),
            final(self).table().dom() == old(self).table().dom(),
            forall|k: Seq<char>| k != id@ && old(self).table().contains_key(k) ==> #[trigger] final(self).table()[k] == old(self).table()[k],
            old(self).table().contains_key(id@) ==> {
                let before = old(self).table()[id@];
                let after = final(self).table()[id@];
                &&& same_but_commands(after, before)
                &&& after.commands@.dom() == before.commands@.dom().insert(info.cmd_id@)
                &&& forall|c: Seq<char>| c != info.cmd_id@ && before.commands@.contains_key(c) ==> #[trigger] after.commands@[c] == before.commands@[c]
                &&& after.commands@[info.cmd_id@].info == info
                &&& after.commands@[info.cmd_id@].running == info.exit_code is None
                &&& after.commands@[info.cmd_id@].stdout@.len() == 0
                &&& after.commands@[info.cmd_id@].stderr@.len() == 0
            },
    {
        proof {
            use_type_invariant(&*self);
        }
        let mut table = Registry::new();
        std::mem::swap(&mut table, &mut self.sandboxes);
        let result = match table.remove(id) {
            Some(state) => {
                let mut state = state;
                let key = info.cmd_id.clone();
                let tracked_state = track_command(info);
                state.commands.insert(key, tracked_state);
                let sid = String::from_str(id);
                table.insert(sid, state);
            },
            None => {
                proof {
                    assert(table@ =~= old(self).table());
                }
            },
        };
        self.sandboxes = table;
        result
    }

    /// The guest agent's socket of a sandbox and what is recorded of one of
    /// its commands, if anything.
    pub fn command_lookup(&self, id: &str, cmd_id: &str) -> (r: Result<(String, Option<CommandInfo>), SandboxError>)
        ensures
            !self.table().contains_key(id@) ==> (r matches Err(SandboxError::NotFound(m)) && m@ == id@),
            self.table().contains_key(id@) ==> (r matches Ok((p, known)) && p@ == self.table()[id@].vsock_path@
                && (self.table()[id@].commands@.contains_key(cmd_id@) ==> (known matches Some(ci) && ci@ == self.table()[id@].commands@[cmd_id@].info@))
                && (!self.table()[id@].commands@.contains_key(cmd_id@) ==> known is None)),
    {
        match self.sandboxes.get(id) {
            Some(state) => {
                let known = match state.commands.get(cmd_id) {
                    Some(cs) => Some(cs.info.duplicate()),
                    None => None,
                };
                Ok((state.vsock_path.clone(), known))
            },
            None => Err(SandboxError::NotFound(String::from_str(id))),
        }
    }

    /// Takes the exit code the guest reported for a command: once there is
    /// one, the command has finished. Nothing changes without one, or for a
    /// sandbox or command that is not recorded.
    pub fn observe_command_exit(&mut self, id: &str, cmd_id: &str, exit_code: Option<i32>)
        ensures
            final(self).pool() == old(self).pool(),
            final(self).config_spec() == old(self).config_spec(),
            final(self).table().dom() == old(self).table().dom(),
            forall|k: Seq<char>| k != id@ && old(self).table().contains_key(k) ==> #[trigger] final(self).table()[k] == old(self).table()[k],
            old(self).table().contains_key(id@) ==> {
                let before = old(self).table()[id@];
                let after = final(self).table()[id@];
                &&& same_but_commands(after, before)
                &&& after.commands@.dom() == before.commands@.dom()
                &&& forall|c: Seq<char>| c != cmd_id@ && before.commands@.contains_key(c) ==> #[trigger] after.commands@[c] == before.commands@[c]
                &&& before.commands@.contains_key(cmd_id@) && exit_code is Some ==> after.commands@[cmd_id@] == (CommandState {
                    info: CommandInfo { exit_code: exit_code, ..before.commands@[cmd_id@].info },
                    running: false,
                    ..before.commands@[cmd_id@]
                })
                &&& before.commands@.contains_key(cmd_id@) && exit_code is None ==> after.commands@[cmd_id@] == before.commands@[cmd_id@]
            },
    {
        proof {
            use_type_invariant(&*self);
        }
        let mut table = Registry::new();
        std::mem::swap(&mut table, &mut self.sandboxes);
        let result = match table.remove(id) {
            Some(state) => {
                let mut state = state;
                match state.commands.remove(cmd_id) {
                    Some(cs) => {
                        let mut cs = cs;
                        cs.observe_exit(exit_code);
                        let ckey = String::from_str(cmd_id);
                        state.commands.insert(ckey, cs);
                        proof {
                            assert(state.commands@ =~= old(self).table()[id@].commands@.insert(cmd_id@, cs));
                        }
                    },
                    None => {
                        proof {
                            assert(state.commands@ =~= old(self).table()[id@].commands@);
                        }
                    },
                }
                let sid = String::from_str(id);
                table.insert(sid, state);
            },
            None => {
                proof {
                    assert(table@ =~= old(self).table());
                }
            },
        };
        self.sandboxes = table;
        result
    }

    /// Extends a sandbox's timeout, up to the configured maximum.
    pub fn extend_timeout(&mut self, id: &str, duration_ms: u64) -> (r: Result<(), SandboxError>)
        requires
            old(self).table().contains_key(id@) ==> old(self).table()[id@].info.timeout + duration_ms <= u64::MAX,
        ensures
            final(self).pool() == old(self).pool(),
            final(self).config_spec() == old(self).config_spec(),
            !old(self).table().contains_key(id@) ==> (r matches Err(SandboxError::NotFound(m)) && m@ == id@
                && final(self).table() == old(self).table()),
            old(self).table().contains_key(id@) ==> match extended_timeout_spec(old(self).table()[id@].info.timeout, duration_ms,
                old(self).config_spec().timeouts.max_sandbox_timeout_ms) {
                Some(t) => r is Ok && final(self).table() == old(self).table().insert(id@, with_timeout(old(self).table()[id@], t)),
                None => r matches Err(SandboxError::InvalidState(_)) && final(self).table() == old(self).table(),
            },
    {
        proof {
            use_type_invariant(&*self);
        }
        let max = self.config.timeouts.max_sandbox_timeout_ms;
        let mut table = Registry::new();
        std::mem::swap(&mut table, &mut self.sandboxes);
        let result = match table.remove(id) {
            Some(state) => {
                let SandboxState { info, process, socket_path, rootfs_path, log_path, vsock_path, guest_ip, port_mappings, commands } = state;
                let SandboxInfo { sandbox_id, status, ip, created_at, timeout, ports } = info;
                let (new_timeout, outcome) = match extended_timeout(timeout, duration_ms, max) {
                    Ok(t) => (t, Ok(())),
                    Err(e) => (timeout, Err(e)),
                };
                let info = SandboxInfo { sandbox_id, status, ip, created_at, timeout: new_timeout, ports };
                let key = String::from_str(id);
                table.insert(key, SandboxState { info, process, socket_path, rootfs_path, log_path, vsock_path, guest_ip, port_mappings, commands });
                proof {
                    if outcome is Ok {
                        assert(table@ =~= old(self).table().insert(id@, with_timeout(old(self).table()[id@], new_timeout)));
                    } else {
                        assert(table@ =~= old(self).table());
                    }
                }
                outcome
            },
            None => {
                proof {
                    assert(table@ =~= old(self).table());
                }
                Err(SandboxError::NotFound(String::from_str(id)))
            },
        };
        self.sandboxes = table;
        result
    }

    /// The API socket of a sandbox that may be snapshotted: it must exist
    /// and be running or pending.
    pub fn snapshot_source(&self, id: &str) -> (r: Result<String, SandboxError>)
        ensures
            !self.table().contains_key(id@) ==> (r matches Err(SandboxError::NotFound(m)) && m@ == id@),
            self.table().contains_key(id@) ==> {
                let status = self.table()[id@].info.status;
                &&& (status == SandboxStatus::Running || status == SandboxStatus::Pending) ==> (r matches Ok(p) && p@ == self.table()[id@].socket_path@)
                &&& !(status == SandboxStatus::Running || status == SandboxStatus::Pending) ==> r matches Err(SandboxError::InvalidState(_))
            },
    {
        match self.sandboxes.get(id) {
            Some(state) => {
                match snapshot_precondition(id, state.info.status) {
                    Ok(()) => Ok(state.socket_path.clone()),
                    Err(e) => Err(e),
                }
            },
            None => Err(SandboxError::NotFound(String::from_str(id))),
        }
    }

    /// After a snapshot the sandbox is stopped: its status becomes stopped
    /// and its VM process, if any, is handed back for the caller to kill.
    pub fn finish_snapshot(&mut self, id: &str) -> (r: Option<P>)
        ensures
            final(self).pool() == old(self).pool(),
            final(self).config_spec() == old(self).config_spec(),
            old(self).table().contains_key(id@) ==> {
                &&& final(self).table() == old(self).table().insert(id@, with_status_no_process(old(self).table()[id@], SandboxStatus::Stopped))
                &&& r == old(self).table()[id@].process
            },
            !old(self).table().contains_key(id@) ==> final(self).table() == old(self).table() && r is None,
    {
        match self.stop(id) {
            Ok((_info, p)) => p,
            Err(_) => None,
        }
    }
}

/// Stopping is idempotent: the stopped form of a stopped sandbox is the
/// same sandbox, so a second `stop` (or a `stop` after a snapshot) changes
/// nothing in the table.
pub proof fn lemma_stop_idempotent<P>(s: SandboxState<P>)
    ensures
        with_status_no_process(with_status_no_process(s, SandboxStatus::Stopped), SandboxStatus::Stopped)
            == with_status_no_process(s, SandboxStatus::Stopped),
{
}

/// An extension that is granted never takes a timeout past the maximum,
/// and never shortens it.
pub proof fn lemma_extension_bounded(current: u64, add: u64, max: u64)
    ensures
        extended_timeout_spec(current, add, max) matches Some(t) ==> current <= t <= max,
{
}

} // verus!
