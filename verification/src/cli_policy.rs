//! The command-line sandbox: its flags, and how they become the policies a
//! sandboxed command runs under, which sandbox is used, the proxy's domain
//! lists, the extra environment of the child and the exit code passed on.
use vstd::prelude::*;
use vstd::string::StringExecFns;
use crate::paths::{has_root, join_path, join_spec};
use crate::sandbox_policy::{ReadOnlyAccess, SandboxPolicy};
use crate::text::string_views;

verus! {

/// The flags of the `zerobox` command.
#[derive(Debug, Clone)]
pub struct Cli {
    /// Restrict readable user data to these paths only.
    pub allow_read: Option<Vec<String>>,
    /// Block reading from these paths.
    pub deny_read: Option<Vec<String>>,
    /// Allow writing to these paths; empty means everywhere.
    pub allow_write: Option<Vec<String>>,
    /// Block writing to these paths.
    pub deny_write: Option<Vec<String>>,
    /// Allow outbound network; with values, only to these domains.
    pub allow_net: Option<Vec<String>>,
    /// Block network access to these domains.
    pub deny_net: Option<Vec<String>>,
    /// Grant all permissions (no sandbox).
    pub allow_all: bool,
    /// Working directory for the command.
    pub cwd: Option<String>,
    /// Disable the sandbox entirely.
    pub no_sandbox: bool,
    /// Fail instead of falling back to weaker isolation.
    pub strict_sandbox: bool,
    /// Environment variables to set (KEY=VALUE).
    pub set_env: Vec<String>,
    /// Parent environment variables to inherit.
    pub allow_env: Option<Vec<String>>,
    /// Parent environment variables to drop.
    pub deny_env: Option<Vec<String>>,
    /// Secrets (KEY=VALUE), held by the proxy.
    pub secret: Vec<String>,
    /// Hosts a secret is restricted to (KEY=host1,host2).
    pub secret_host: Vec<String>,
    /// The command and its arguments.
    pub command: Vec<String>,
}

/// Whether the sandboxed command may use the network.
#[derive(Debug, Clone, Copy, PartialEq, Eq, Structural)]
pub enum NetworkSandboxPolicy {
    Restricted,
    Enabled,
}

/// Is the network enabled by the flags? With `--allow-all`, or with
/// `--allow-net` (with or without domains).
pub open spec fn net_enabled_spec(cli: Cli) -> bool {
    cli.allow_all || cli.allow_net is Some
}

/// Is the network enabled by the flags?
pub fn net_is_enabled(cli: &Cli) -> (r: bool)
    ensures
        r == net_enabled_spec(*cli),
{
    cli.allow_all || cli.allow_net.is_some()
}

/// The network policy of the flags.
pub fn build_net_policy(cli: &Cli) -> (r: NetworkSandboxPolicy)
    ensures
        r == if net_enabled_spec(*cli) { NetworkSandboxPolicy::Enabled } else { NetworkSandboxPolicy::Restricted },
{
    if net_is_enabled(cli) {
        NetworkSandboxPolicy::Enabled
    } else {
        NetworkSandboxPolicy::Restricted
    }
}

/// A path flag that does not resolve to an absolute path.
#[derive(Debug, Clone, PartialEq, Eq)]
pub struct PathError {
    pub path: String,
}

/// A flag's path made absolute: as given when absolute, else under `base`;
/// `None` when even that is not absolute.
pub open spec fn resolve_spec(base: Seq<char>, p: Seq<char>) -> Option<Seq<char>> {
    let abs = if has_root(p) { p } else { join_spec(base, p) };
    if has_root(abs) {
        Some(abs)
    } else {
        None
    }
}

/// Resolves a flag's path against the working directory.
pub fn resolve_path(base: &str, p: &str) -> (r: Result<String, PathError>)
    ensures
        match resolve_spec(base@, p@) {
            Some(a) => r matches Ok(s) && s@ == a,
            None => r matches Err(e) && e.path@ == (if has_root(p@) { p@ } else { join_spec(base@, p@) }),
        },
{
    let abs = join_path(base, p);
    let cs = crate::text::chars_of(abs.as_str());
    if cs.len() > 0 && cs[0] == '/' {
        Ok(abs)
    } else {
        Err(PathError { path: abs })
    }
}

/// Every path resolved, or `None` when one does not resolve.
pub open spec fn resolve_all_spec(base: Seq<char>, ps: Seq<Seq<char>>) -> Option<Seq<Seq<char>>>
    decreases ps.len(),
{
    if ps.len() == 0 {
        Some(Seq::empty())
    } else {
        match (resolve_all_spec(base, ps.drop_last()), resolve_spec(base, ps.last())) {
            (Some(rs), Some(r)) => Some(rs.push(r)),
            _ => None,
        }
    }
}

proof fn lemma_resolve_all_prefix_none(base: Seq<char>, ps: Seq<Seq<char>>, i: int)
    requires
        0 <= i <= ps.len(),
        resolve_all_spec(base, ps.take(i)) is None,
    ensures
        resolve_all_spec(base, ps) is None,
    decreases ps.len() - i,
{
    if i < ps.len() {
        assert(ps.take(i + 1).drop_last() =~= ps.take(i));
        lemma_resolve_all_prefix_none(base, ps, i + 1);
    } else {
        assert(ps.take(i) =~= ps);
    }
}

/// Resolves every path of a flag; the first that does not resolve is the
/// error.
pub fn resolve_all(base: &str, paths: &Vec<String>) -> (r: Result<Vec<String>, PathError>)
    ensures
        match resolve_all_spec(base@, string_views(paths@)) {
            Some(rs) => r matches Ok(v) && string_views(v@) == rs,
            None => r is Err,
        },
{
    let ghost ps = string_views(paths@);
    let mut out: Vec<String> = Vec::new();
    let mut i: usize = 0;
    proof {
        assert(ps.take(0) =~= Seq::<Seq<char>>::empty());
        assert(string_views(out@) =~= Seq::<Seq<char>>::empty());
    }
    while i < paths.len()
        invariant
            ps == string_views(paths@),
            i <= ps.len(),
            resolve_all_spec(base@, ps.take(i as int)) == Some(string_views(out@)),
        decreases paths.len() - i,
    {
        proof {
            assert(ps.take(i + 1).drop_last() =~= ps.take(i as int));
            assert(ps.take(i + 1).last() == paths@[i as int]@);
        }
        match resolve_path(base, paths[i].as_str()) {
            Ok(a) => {
                let ghost before = out@;
                out.push(a);
                proof {
                    assert(string_views(out@) =~= string_views(before).push(out@.last()@));
                }
            },
            Err(e) => {
                proof {
                    lemma_resolve_all_prefix_none(base@, ps, i + 1);
                }
                return Err(e);
            },
        }
        i = i + 1;
    }
    proof {
        assert(ps.take(ps.len() as int) =~= ps);
    }
    Ok(out)
}

/// The flags' paths, resolved.
#[derive(Debug, Clone)]
pub struct ResolvedPaths {
    pub readable: Option<Vec<String>>,
    pub deny_readable: Vec<String>,
    pub writable: Option<Vec<String>>,
    pub deny_writable: Vec<String>,
    pub full_write: bool,
}

/// Resolves an optional list of paths.
fn resolve_opt(base: &str, paths: &Option<Vec<String>>) -> (r: Result<Option<Vec<String>>, PathError>)
    ensures
        match paths {
            None => r matches Ok(None),
            Some(ps) => match resolve_all_spec(base@, string_views(ps@)) {
                Some(rs) => r matches Ok(Some(v)) && string_views(v@) == rs,
                None => r is Err,
            },
        },
{
    match paths {
        None => Ok(None),
        Some(ps) => match resolve_all(base, ps) {
            Ok(v) => Ok(Some(v)),
            Err(e) => Err(e),
        },
    }
}

/// Do the flags' paths all resolve?
pub open spec fn flags_resolve(cli: Cli, cwd: Seq<char>) -> bool {
    &&& (cli.allow_read matches Some(ps) ==> resolve_all_spec(cwd, string_views(ps@)) is Some)
    &&& (cli.deny_read matches Some(ps) ==> resolve_all_spec(cwd, string_views(ps@)) is Some)
    &&& (cli.allow_write matches Some(ps) ==> resolve_all_spec(cwd, string_views(ps@)) is Some)
    &&& (cli.deny_write matches Some(ps) ==> resolve_all_spec(cwd, string_views(ps@)) is Some)
}

/// Resolves the path flags against the working directory. A bare
/// `--allow-write` (no paths) means writes everywhere.
pub fn resolve_cli_paths(cli: &Cli, cwd: &str) -> (r: Result<ResolvedPaths, PathError>)
    ensures
        r is Ok == flags_resolve(*cli, cwd@),
        r matches Ok(rp) ==> {
            &&& (match cli.allow_read {
                None => rp.readable is None,
                Some(ps) => rp.readable matches Some(v) && Some(string_views(v@)) == resolve_all_spec(cwd@, string_views(ps@)),
            })
            &&& (match cli.deny_read {
                None => rp.deny_readable@.len() == 0,
                Some(ps) => Some(string_views(rp.deny_readable@)) == resolve_all_spec(cwd@, string_views(ps@)),
            })
            &&& (match cli.allow_write {
                None => rp.writable is None && !rp.full_write,
                Some(ps) => if ps@.len() == 0 {
                    rp.writable is None && rp.full_write
                } else {
                    !rp.full_write && (rp.writable matches Some(v) && Some(string_views(v@)) == resolve_all_spec(cwd@, string_views(ps@)))
                },
            })
            &&& (match cli.deny_write {
                None => rp.deny_writable@.len() == 0,
                Some(ps) => Some(string_views(rp.deny_writable@)) == resolve_all_spec(cwd@, string_views(ps@)),
            })
        },
{
    let readable = match resolve_opt(cwd, &cli.allow_read) {
        Ok(v) => v,
        Err(e) => return Err(e),
    };
    let deny_readable = match resolve_opt(cwd, &cli.deny_read) {
        Ok(Some(v)) => v,
        Ok(None) => Vec::new(),
        Err(e) => return Err(e),
    };
    let (writable, full_write) = match &cli.allow_write {
        Some(paths) => {
            if paths.len() == 0 {
                proof {
                    assert(string_views(paths@) =~= Seq::<Seq<char>>::empty());
                }
                (None, true)
            } else {
                match resolve_all(cwd, paths) {
                    Ok(v) => (Some(v), false),
                    Err(e) => return Err(e),
                }
            }
        },
        None => (None, false),
    };
    let deny_writable = match resolve_opt(cwd, &cli.deny_write) {
        Ok(Some(v)) => v,
        Ok(None) => Vec::new(),
        Err(e) => return Err(e),
    };
    Ok(ResolvedPaths { readable, deny_readable, writable, deny_writable, full_write })
}

/// The legacy policy of the flags: no sandbox with `--allow-all` or a bare
/// `--allow-write`; workspace-write over the writable paths; read-only
/// otherwise; the network as the flags say.
pub fn build_legacy_sandbox_policy(resolved: &ResolvedPaths, cli: &Cli) -> (r: SandboxPolicy)
    ensures
        (cli.allow_all || resolved.full_write) ==> r is DangerFullAccess,
        !(cli.allow_all || resolved.full_write) ==> match resolved.writable {
            Some(w) => r matches SandboxPolicy::WorkspaceWrite {
                writable_roots,
                read_only_access: ReadOnlyAccess::FullAccess,
                network_access,
                exclude_tmpdir_env_var: false,
                exclude_slash_tmp: false,
            } && string_views(writable_roots@) == string_views(w@) && network_access == net_enabled_spec(*cli),
            None => r matches SandboxPolicy::ReadOnly { access: ReadOnlyAccess::FullAccess, network_access }
                && network_access == net_enabled_spec(*cli),
        },
{
    if cli.allow_all || resolved.full_write {
        return SandboxPolicy::DangerFullAccess;
    }
    let network_access = net_is_enabled(cli);
    match &resolved.writable {
        Some(writable_roots) => {
            let roots = writable_roots.clone();
            proof {
                assert(roots@ == writable_roots@);
            }
            SandboxPolicy::WorkspaceWrite {
                writable_roots: roots,
                read_only_access: ReadOnlyAccess::default(),
                network_access,
                exclude_tmpdir_env_var: false,
                exclude_slash_tmp: false,
            }
        },
        None => SandboxPolicy::ReadOnly { access: ReadOnlyAccess::default(), network_access },
    }
}

/// What an entry of a file-system policy grants.
#[derive(Debug, Clone, Copy, PartialEq, Eq, Structural)]
pub enum FileSystemAccessMode {
    Read,
    Write,
    /// Neither reading nor writing.
    Deny,
}

/// A path a policy entry names by role rather than by text.
#[derive(Debug, Clone, Copy, PartialEq, Eq, Structural)]
pub enum FileSystemSpecialPath {
    /// The whole file system.
    Root,
    /// The minimal set the platform needs to run programs.
    Minimal,
}

/// The path of a policy entry.
#[derive(Debug, Clone)]
pub enum FileSystemPath {
    Special { value: FileSystemSpecialPath },
    Path { path: String },
}

/// One entry of a file-system policy.
#[derive(Debug, Clone)]
pub struct FileSystemSandboxEntry {
    pub path: FileSystemPath,
    pub access: FileSystemAccessMode,
}

/// The abstract value of an entry.
pub enum EntryView {
    Special(FileSystemSpecialPath, FileSystemAccessMode),
    Path(Seq<char>, FileSystemAccessMode),
}

impl FileSystemSandboxEntry {
    /// A copy of the entry.
    pub fn duplicate(&self) -> (r: Self)
        ensures
            r.view_spec() == self.view_spec(),
    {
        let path = match &self.path {
            FileSystemPath::Special { value } => FileSystemPath::Special { value: *value },
            FileSystemPath::Path { path } => FileSystemPath::Path { path: path.clone() },
        };
        FileSystemSandboxEntry { path, access: self.access }
    }

    /// The abstract value of the entry.
    pub open spec fn view_spec(&self) -> EntryView {
        match self.path {
            FileSystemPath::Special { value } => EntryView::Special(value, self.access),
            FileSystemPath::Path { path } => EntryView::Path(path@, self.access),
        }
    }
}

/// The abstract values of entries.
pub open spec fn entry_views(v: Seq<FileSystemSandboxEntry>) -> Seq<EntryView> {
    v.map_values(|e: FileSystemSandboxEntry| e.view_spec())
}

/// A file-system policy: no restriction, or these entries.
#[derive(Debug, Clone)]
pub enum FileSystemSandboxPolicy {
    Unrestricted,
    Restricted { entries: Vec<FileSystemSandboxEntry> },
}

/// Is the entry the whole file system with this access?
pub open spec fn is_root_with(e: EntryView, access: FileSystemAccessMode) -> bool {
    e matches EntryView::Special(FileSystemSpecialPath::Root, a) && a == access
}

/// Does the entry name a path with an access other than `access`?
pub open spec fn is_path_other_than(e: EntryView, access: FileSystemAccessMode) -> bool {
    e matches EntryView::Path(_, a) && a != access
}

/// Entries that let everything be read: the whole disk readable (read or
/// write on the root) and no path denied.
pub open spec fn entries_read_all(es: Seq<EntryView>) -> bool {
    &&& exists|i: int| 0 <= i < es.len() && (is_root_with(#[trigger] es[i], FileSystemAccessMode::Read) || is_root_with(es[i], FileSystemAccessMode::Write))
    &&& forall|i: int| 0 <= i < es.len() ==> !(#[trigger] es[i] matches EntryView::Path(_, FileSystemAccessMode::Deny))
}

/// Entries that let everything be written: the whole disk writable and no
/// path kept read-only or denied.
pub open spec fn entries_write_all(es: Seq<EntryView>) -> bool {
    &&& exists|i: int| 0 <= i < es.len() && is_root_with(#[trigger] es[i], FileSystemAccessMode::Write)
    &&& forall|i: int| 0 <= i < es.len() ==> !is_path_other_than(#[trigger] es[i], FileSystemAccessMode::Write)
}

/// Entries that keep the minimal platform set readable.
pub open spec fn entries_include_minimal(es: Seq<EntryView>) -> bool {
    exists|i: int| 0 <= i < es.len() && (#[trigger] es[i] matches EntryView::Special(FileSystemSpecialPath::Minimal, _))
}

impl FileSystemSandboxPolicy {
    /// Can everything be read?
    pub open spec fn full_read_spec(&self) -> bool {
        match self {
            FileSystemSandboxPolicy::Unrestricted => true,
            FileSystemSandboxPolicy::Restricted { entries } => entries_read_all(entry_views(entries@)),
        }
    }

    /// Can everything be written?
    pub open spec fn full_write_spec(&self) -> bool {
        match self {
            FileSystemSandboxPolicy::Unrestricted => true,
            FileSystemSandboxPolicy::Restricted { entries } => entries_write_all(entry_views(entries@)),
        }
    }

    /// Can everything be read: no restriction, or the whole disk readable
    /// and no path denied?
    pub fn has_full_disk_read_access(&self) -> (r: bool)
        ensures
            r == self.full_read_spec(),
    {
        match self {
            FileSystemSandboxPolicy::Unrestricted => true,
            FileSystemSandboxPolicy::Restricted { entries } => {
                let ghost es = entry_views(entries@);
                let mut root_readable = false;
                let mut denied = false;
                let mut i: usize = 0;
                while i < entries.len()
                    invariant
                        es == entry_views(entries@),
                        i <= entries@.len(),
                        root_readable == exists|k: int| 0 <= k < i && (is_root_with(#[trigger] es[k], FileSystemAccessMode::Read) || is_root_with(es[k], FileSystemAccessMode::Write)),
                        denied == exists|k: int| 0 <= k < i && (#[trigger] es[k] matches EntryView::Path(_, FileSystemAccessMode::Deny)),
                    decreases entries.len() - i,
                {
                    let e = &entries[i];
                    assert(es[i as int] == e.view_spec());
                    match &e.path {
                        FileSystemPath::Special { value } => {
                            if *value == FileSystemSpecialPath::Root && (e.access == FileSystemAccessMode::Read || e.access == FileSystemAccessMode::Write) {
                                root_readable = true;
                            }
                        },
                        FileSystemPath::Path { path: _ } => {
                            if e.access == FileSystemAccessMode::Deny {
                                denied = true;
                            }
                        },
                    }
                    i = i + 1;
                }
                root_readable && !denied
            },
        }
    }

    /// Can everything be written: no restriction, or the whole disk
    /// writable and no path kept read-only or denied?
    pub fn has_full_disk_write_access(&self) -> (r: bool)
        ensures
            r == self.full_write_spec(),
    {
        match self {
            FileSystemSandboxPolicy::Unrestricted => true,
            FileSystemSandboxPolicy::Restricted { entries } => {
                let ghost es = entry_views(entries@);
                let mut root_writable = false;
                let mut limited = false;
                let mut i: usize = 0;
                while i < entries.len()
                    invariant
                        es == entry_views(entries@),
                        i <= entries@.len(),
                        root_writable == exists|k: int| 0 <= k < i && is_root_with(#[trigger] es[k], FileSystemAccessMode::Write),
                        limited == exists|k: int| 0 <= k < i && is_path_other_than(#[trigger] es[k], FileSystemAccessMode::Write),
                    decreases entries.len() - i,
                {
                    let e = &entries[i];
                    assert(es[i as int] == e.view_spec());
                    match &e.path {
                        FileSystemPath::Special { value } => {
                            if *value == FileSystemSpecialPath::Root && e.access == FileSystemAccessMode::Write {
                                root_writable = true;
                            }
                        },
                        FileSystemPath::Path { path: _ } => {
                            if e.access != FileSystemAccessMode::Write {
                                limited = true;
                            }
                        },
                    }
                    i = i + 1;
                }
                root_writable && !limited
            },
        }
    }

    /// Are the platform's defaults readable: no restriction, or the minimal
    /// platform set among the entries?
    pub fn include_platform_defaults(&self) -> (r: bool)
        ensures
            r == match self {
                FileSystemSandboxPolicy::Unrestricted => true,
                FileSystemSandboxPolicy::Restricted { entries } => entries_include_minimal(entry_views(entries@)),
            },
    {
        match self {
            FileSystemSandboxPolicy::Unrestricted => true,
            FileSystemSandboxPolicy::Restricted { entries } => {
                let ghost es = entry_views(entries@);
                let mut found = false;
                let mut i: usize = 0;
                while i < entries.len()
                    invariant
                        es == entry_views(entries@),
                        i <= entries@.len(),
                        found == exists|k: int| 0 <= k < i && (#[trigger] es[k] matches EntryView::Special(FileSystemSpecialPath::Minimal, _)),
                    decreases entries.len() - i,
                {
                    let e = &entries[i];
                    assert(es[i as int] == e.view_spec());
                    match &e.path {
                        FileSystemPath::Special { value } => {
                            if *value == FileSystemSpecialPath::Minimal {
                                found = true;
                            }
                        },
                        FileSystemPath::Path { path: _ } => {},
                    }
                    i = i + 1;
                }
                found
            },
        }
    }
}

/// One entry per path, all with the same access.
pub open spec fn path_entries_spec(paths: Seq<Seq<char>>, access: FileSystemAccessMode) -> Seq<EntryView> {
    paths.map_values(|p: Seq<char>| EntryView::Path(p, access))
}

/// One entry per path, all with the same access.
pub fn make_path_entries(paths: &Vec<String>, access: FileSystemAccessMode) -> (r: Vec<FileSystemSandboxEntry>)
    ensures
        entry_views(r@) == path_entries_spec(string_views(paths@), access),
{
    let mut out: Vec<FileSystemSandboxEntry> = Vec::new();
    let mut i: usize = 0;
    while i < paths.len()
        invariant
            i <= paths@.len(),
            entry_views(out@) == path_entries_spec(string_views(paths@).take(i as int), access),
        decreases paths.len() - i,
    {
        let ghost before = out@;
        out.push(FileSystemSandboxEntry { path: FileSystemPath::Path { path: paths[i].clone() }, access });
        proof {
            assert(entry_views(out@) =~= entry_views(before).push(EntryView::Path(paths@[i as int]@, access)));
            assert(string_views(paths@).take(i + 1) =~= string_views(paths@).take(i as int).push(paths@[i as int]@));
            assert(path_entries_spec(string_views(paths@).take(i + 1), access) =~= path_entries_spec(string_views(paths@).take(i as int), access).push(EntryView::Path(paths@[i as int]@, access)));
        }
        i = i + 1;
    }
    proof {
        assert(string_views(paths@).take(paths@.len() as int) =~= string_views(paths@));
    }
    out
}

/// The entry for the whole file system.
pub fn make_root_entry(access: FileSystemAccessMode) -> (r: FileSystemSandboxEntry)
    ensures
        r.view_spec() == EntryView::Special(FileSystemSpecialPath::Root, access),
{
    FileSystemSandboxEntry { path: FileSystemPath::Special { value: FileSystemSpecialPath::Root }, access }
}

/// The entries of the file-system policy of resolved flags. Reads: the
/// minimal platform set, the readable paths, the directory of the running
/// program (for the sandbox helper's re-exec) and `/run` when the network
/// is on (for DNS), or the whole disk when reads are not restricted. Then
/// the denied reads, the writes (everywhere, or the writable paths), and
/// the denied writes (kept readable).
pub open spec fn fs_entries_spec(resolved: ResolvedPaths, net_enabled: bool, exe_dir: Option<Seq<char>>) -> Seq<EntryView> {
    let reads: Seq<EntryView> = match resolved.readable {
        Some(ps) => seq![EntryView::Special(FileSystemSpecialPath::Minimal, FileSystemAccessMode::Read)]
            + path_entries_spec(string_views(ps@), FileSystemAccessMode::Read)
            + (match exe_dir {
                Some(d) => if has_root(d) { seq![EntryView::Path(d, FileSystemAccessMode::Read)] } else { Seq::empty() },
                None => Seq::empty(),
            })
            + (if net_enabled { seq![EntryView::Path("/run"@, FileSystemAccessMode::Read)] } else { Seq::empty() }),
        None => seq![EntryView::Special(FileSystemSpecialPath::Root, FileSystemAccessMode::Read)],
    };
    let writes: Seq<EntryView> = if resolved.full_write {
        seq![EntryView::Special(FileSystemSpecialPath::Root, FileSystemAccessMode::Write)]
    } else {
        match resolved.writable {
            Some(ps) => path_entries_spec(string_views(ps@), FileSystemAccessMode::Write),
            None => Seq::empty(),
        }
    };
    reads + path_entries_spec(string_views(resolved.deny_readable@), FileSystemAccessMode::Deny) + writes
        + path_entries_spec(string_views(resolved.deny_writable@), FileSystemAccessMode::Read)
}

/// Deny flags carve out of what the allow flags grant: every denied read
/// has its `Deny` entry, and the denied writes, kept read-only, are the
/// policy's last entries, after every write grant.
pub proof fn lemma_denials_follow_grants(resolved: ResolvedPaths, net_enabled: bool, exe_dir: Option<Seq<char>>)
    ensures
        forall|k: int| #![trigger string_views(resolved.deny_readable@)[k]] 0 <= k < resolved.deny_readable@.len() ==> exists|i: int|
            0 <= i < fs_entries_spec(resolved, net_enabled, exe_dir).len()
            && fs_entries_spec(resolved, net_enabled, exe_dir)[i] == EntryView::Path(string_views(resolved.deny_readable@)[k], FileSystemAccessMode::Deny),
        fs_entries_spec(resolved, net_enabled, exe_dir).len() >= resolved.deny_writable@.len(),
        forall|k: int| #![trigger string_views(resolved.deny_writable@)[k]] 0 <= k < resolved.deny_writable@.len() ==>
            fs_entries_spec(resolved, net_enabled, exe_dir)[fs_entries_spec(resolved, net_enabled, exe_dir).len() - resolved.deny_writable@.len() + k]
                == EntryView::Path(string_views(resolved.deny_writable@)[k], FileSystemAccessMode::Read),
{
    let reads: Seq<EntryView> = match resolved.readable {
        Some(ps) => seq![EntryView::Special(FileSystemSpecialPath::Minimal, FileSystemAccessMode::Read)]
            + path_entries_spec(string_views(ps@), FileSystemAccessMode::Read)
            + (match exe_dir {
                Some(d) => if has_root(d) { seq![EntryView::Path(d, FileSystemAccessMode::Read)] } else { Seq::empty() },
                None => Seq::empty(),
            })
            + (if net_enabled { seq![EntryView::Path("/run"@, FileSystemAccessMode::Read)] } else { Seq::empty() }),
        None => seq![EntryView::Special(FileSystemSpecialPath::Root, FileSystemAccessMode::Read)],
    };
    let writes: Seq<EntryView> = if resolved.full_write {
        seq![EntryView::Special(FileSystemSpecialPath::Root, FileSystemAccessMode::Write)]
    } else {
        match resolved.writable {
            Some(ps) => path_entries_spec(string_views(ps@), FileSystemAccessMode::Write),
            None => Seq::empty(),
        }
    };
    let denies = path_entries_spec(string_views(resolved.deny_readable@), FileSystemAccessMode::Deny);
    let kept = path_entries_spec(string_views(resolved.deny_writable@), FileSystemAccessMode::Read);
    let all = fs_entries_spec(resolved, net_enabled, exe_dir);
    assert(all =~= reads + denies + writes + kept);
    let a = reads.len();
    let c = a + denies.len() + writes.len();
    assert forall|k: int| #![trigger string_views(resolved.deny_readable@)[k]] 0 <= k < resolved.deny_readable@.len() implies exists|i: int|
        0 <= i < all.len() && all[i] == EntryView::Path(string_views(resolved.deny_readable@)[k], FileSystemAccessMode::Deny) by {
        assert(all[a + k] == denies[k]);
    }
    assert forall|k: int| #![trigger string_views(resolved.deny_writable@)[k]] 0 <= k < resolved.deny_writable@.len() implies
        all[all.len() - resolved.deny_writable@.len() + k] == EntryView::Path(string_views(resolved.deny_writable@)[k], FileSystemAccessMode::Read) by {
        assert(all[c + k] == kept[k]);
    }
}

fn append_entries(out: &mut Vec<FileSystemSandboxEntry>, more: Vec<FileSystemSandboxEntry>)
    ensures
        entry_views(final(out)@) == entry_views(old(out)@) + entry_views(more@),
{
    let ghost start = out@;
    let mut i: usize = 0;
    while i < more.len()
        invariant
            i <= more@.len(),
            entry_views(out@) == entry_views(start) + entry_views(more@).take(i as int),
        decreases more.len() - i,
    {
        let ghost before = out@;
        out.push(more[i].duplicate());
        proof {
            assert(entry_views(out@) =~= entry_views(before).push(more@[i as int].view_spec()));
            assert(entry_views(more@).take(i + 1) =~= entry_views(more@).take(i as int).push(more@[i as int].view_spec()));
        }
        i = i + 1;
    }
    proof {
        assert(entry_views(more@).take(more@.len() as int) =~= entry_views(more@));
    }
}

/// The file-system policy of the flags: unrestricted with `--allow-all`,
/// else restricted to the entries of `fs_entries_spec`. `exe_dir` is the
/// directory of the running program, when it is known.
pub fn build_fs_policy(resolved: &ResolvedPaths, allow_all: bool, net_enabled: bool, exe_dir: Option<&str>) -> (r: FileSystemSandboxPolicy)
    ensures
        allow_all ==> r is Unrestricted,
        !allow_all ==> (r matches FileSystemSandboxPolicy::Restricted { entries }
            && entry_views(entries@) == fs_entries_spec(*resolved, net_enabled, match exe_dir { Some(d) => Some(d@), None => None })),
{
    if allow_all {
        return FileSystemSandboxPolicy::Unrestricted;
    }
    let mut entries: Vec<FileSystemSandboxEntry> = Vec::new();
    match &resolved.readable {
        Some(paths) => {
            entries.push(FileSystemSandboxEntry {
                path: FileSystemPath::Special { value: FileSystemSpecialPath::Minimal },
                access: FileSystemAccessMode::Read,
            });
            append_entries(&mut entries, make_path_entries(paths, FileSystemAccessMode::Read));
            match exe_dir {
                Some(d) => {
                    let cs = crate::text::chars_of(d);
                    if cs.len() > 0 && cs[0] == '/' {
                        let ghost before = entries@;
                        entries.push(FileSystemSandboxEntry {
                            path: FileSystemPath::Path { path: String::from_str(d) },
                            access: FileSystemAccessMode::Read,
                        });
                        proof {
                            assert(entry_views(entries@) =~= entry_views(before).push(EntryView::Path(d@, FileSystemAccessMode::Read)));
                        }
                    }
                },
                None => {},
            }
            if net_enabled {
                let ghost before = entries@;
                entries.push(FileSystemSandboxEntry {
                    path: FileSystemPath::Path { path: String::from_str("/run") },
                    access: FileSystemAccessMode::Read,
                });
                proof {
                    assert(entry_views(entries@) =~= entry_views(before).push(EntryView::Path("/run"@, FileSystemAccessMode::Read)));
                }
            }
            proof {
                let ps = string_views(paths@);
                let exe_part: Seq<EntryView> = match exe_dir {
                    Some(d) => if has_root(d@) { seq![EntryView::Path(d@, FileSystemAccessMode::Read)] } else { Seq::empty() },
                    None => Seq::empty(),
                };
                let run_part: Seq<EntryView> = if net_enabled { seq![EntryView::Path("/run"@, FileSystemAccessMode::Read)] } else { Seq::empty() };
                assert(entry_views(entries@) =~= seq![EntryView::Special(FileSystemSpecialPath::Minimal, FileSystemAccessMode::Read)]
                    + path_entries_spec(ps, FileSystemAccessMode::Read) + exe_part + run_part);
            }
        },
        None => {
            entries.push(make_root_entry(FileSystemAccessMode::Read));
            proof {
                assert(entry_views(entries@) =~= seq![EntryView::Special(FileSystemSpecialPath::Root, FileSystemAccessMode::Read)]);
            }
        },
    }
    let ghost reads = entry_views(entries@);
    append_entries(&mut entries, make_path_entries(&resolved.deny_readable, FileSystemAccessMode::Deny));
    let ghost with_denied = entry_views(entries@);
    if resolved.full_write {
        let ghost before = entries@;
        entries.push(make_root_entry(FileSystemAccessMode::Write));
        proof {
            assert(entry_views(entries@) =~= entry_views(before).push(EntryView::Special(FileSystemSpecialPath::Root, FileSystemAccessMode::Write)));
        }
    } else {
        match &resolved.writable {
            Some(paths) => {
                append_entries(&mut entries, make_path_entries(paths, FileSystemAccessMode::Write));
            },
            None => {
                proof {
                    assert(entry_views(entries@) =~= with_denied + Seq::<EntryView>::empty());
                }
            },
        }
    }
    append_entries(&mut entries, make_path_entries(&resolved.deny_writable, FileSystemAccessMode::Read));
    proof {
        assert(entry_views(entries@) =~= fs_entries_spec(*resolved, net_enabled, match exe_dir { Some(d) => Some(d@), None => None }));
    }
    FileSystemSandboxPolicy::Restricted { entries }
}


/// The kind of sandbox a command runs in.
#[derive(Debug, Clone, Copy, PartialEq, Eq, Structural)]
pub enum SandboxType {
    /// No sandbox.
    Unsandboxed,
    MacosSeatbelt,
    LinuxSeccomp,
    WindowsRestrictedToken,
}

/// Why the command cannot be started as asked.
#[derive(Debug, Clone, Copy, PartialEq, Eq, Structural)]
pub enum LaunchError {
    /// `--strict-sandbox` together with `--no-sandbox` or `--allow-all`.
    StrictConflict,
    /// `--strict-sandbox` where bubblewrap cannot run.
    StrictNeedsNamespaces,
    /// Custom file permissions where only the Landlock fallback runs.
    CustomPoliciesNeedBubblewrap,
}

impl LaunchError {
    /// The text of the error.
    pub open spec fn message_spec(self) -> Seq<char> {
        match self {
            LaunchError::StrictConflict => "--strict-sandbox cannot be combined with --no-sandbox or --allow-all"@,
            LaunchError::StrictNeedsNamespaces =>
                "--strict-sandbox requires bubblewrap but user namespaces are unavailable.\nIf running in Docker, start the container with:\n  docker run --cap-add SYS_ADMIN --security-opt seccomp=unconfined ..."@,
            LaunchError::CustomPoliciesNeedBubblewrap =>
                "custom file permissions (--allow-read, --allow-write, etc.) require bubblewrap, which is unavailable in this environment.\nThe default sandbox (deny writes, deny network) still works.\nFor full permissions control in Docker, start the container with:\n  docker run --cap-add SYS_ADMIN --security-opt seccomp=unconfined ..."@,
        }
    }

    /// The message printed after `error: `.
    pub fn message(self) -> (r: String)
        ensures
            r@ == self.message_spec(),
    {
        match self {
            LaunchError::StrictConflict => String::from_str("--strict-sandbox cannot be combined with --no-sandbox or --allow-all"),
            LaunchError::StrictNeedsNamespaces => String::from_str(
                "--strict-sandbox requires bubblewrap but user namespaces are unavailable.\nIf running in Docker, start the container with:\n  docker run --cap-add SYS_ADMIN --security-opt seccomp=unconfined ...",
            ),
            LaunchError::CustomPoliciesNeedBubblewrap => String::from_str(
                "custom file permissions (--allow-read, --allow-write, etc.) require bubblewrap, which is unavailable in this environment.\nThe default sandbox (deny writes, deny network) still works.\nFor full permissions control in Docker, start the container with:\n  docker run --cap-add SYS_ADMIN --security-opt seccomp=unconfined ...",
            ),
        }
    }
}

/// The warning printed when bubblewrap is unavailable and Landlock is used
/// instead.
pub fn landlock_fallback_warning() -> (r: String)
    ensures
        r@ == "warning: bubblewrap unavailable (no user namespaces), using landlock (reduced isolation \u{2014} no PID/network namespace). Writes and network are still blocked by default."@,
{
    String::from_str("warning: bubblewrap unavailable (no user namespaces), using landlock (reduced isolation \u{2014} no PID/network namespace). Writes and network are still blocked by default.")
}

/// The first decision on the sandbox.
#[derive(Debug, Clone, Copy, PartialEq, Eq, Structural)]
pub enum SandboxChoice {
    /// This sandbox, with or without the Landlock fallback.
    Chosen { sandbox: SandboxType, legacy_landlock: bool },
    /// The platform sandbox is bubblewrap: whether user namespaces can be
    /// created decides (see `after_namespace_probe`).
    ProbeNamespaces,
}

/// Chooses the sandbox from the flags and the platform's sandbox: none with
/// `--no-sandbox` or `--allow-all` (which `--strict-sandbox` forbids); the
/// platform's otherwise, where the Linux one first needs user namespaces.
pub fn choose_sandbox(cli: &Cli, platform: Option<SandboxType>) -> (r: Result<SandboxChoice, LaunchError>)
    ensures
        r == if cli.strict_sandbox && (cli.no_sandbox || cli.allow_all) {
            Err(LaunchError::StrictConflict)
        } else if cli.no_sandbox || cli.allow_all {
            Ok(SandboxChoice::Chosen { sandbox: SandboxType::Unsandboxed, legacy_landlock: false })
        } else {
            match platform {
                Some(SandboxType::LinuxSeccomp) => Ok(SandboxChoice::ProbeNamespaces),
                Some(t) => Ok(SandboxChoice::Chosen { sandbox: t, legacy_landlock: false }),
                None => Ok(SandboxChoice::Chosen { sandbox: SandboxType::Unsandboxed, legacy_landlock: false }),
            }
        },
{
    if cli.strict_sandbox && (cli.no_sandbox || cli.allow_all) {
        return Err(LaunchError::StrictConflict);
    }
    if cli.no_sandbox || cli.allow_all {
        return Ok(SandboxChoice::Chosen { sandbox: SandboxType::Unsandboxed, legacy_landlock: false });
    }
    match platform {
        Some(SandboxType::LinuxSeccomp) => Ok(SandboxChoice::ProbeNamespaces),
        Some(t) => Ok(SandboxChoice::Chosen { sandbox: t, legacy_landlock: false }),
        None => Ok(SandboxChoice::Chosen { sandbox: SandboxType::Unsandboxed, legacy_landlock: false }),
    }
}

/// The Linux sandbox once it is known whether user namespaces can be
/// created: bubblewrap when they can; otherwise an error under
/// `--strict-sandbox`, else the Landlock fallback (with a warning).
pub fn after_namespace_probe(cli: &Cli, userns_ok: bool) -> (r: Result<SandboxChoice, LaunchError>)
    ensures
        r == if userns_ok {
            Ok(SandboxChoice::Chosen { sandbox: SandboxType::LinuxSeccomp, legacy_landlock: false })
        } else if cli.strict_sandbox {
            Err(LaunchError::StrictNeedsNamespaces)
        } else {
            Ok(SandboxChoice::Chosen { sandbox: SandboxType::LinuxSeccomp, legacy_landlock: true })
        },
{
    if userns_ok {
        Ok(SandboxChoice::Chosen { sandbox: SandboxType::LinuxSeccomp, legacy_landlock: false })
    } else if cli.strict_sandbox {
        Err(LaunchError::StrictNeedsNamespaces)
    } else {
        Ok(SandboxChoice::Chosen { sandbox: SandboxType::LinuxSeccomp, legacy_landlock: true })
    }
}

/// Does the command ask for custom file permissions?
pub open spec fn has_custom_policies(cli: Cli) -> bool {
    cli.allow_read is Some || cli.deny_read is Some || cli.allow_write is Some || cli.deny_write is Some
}

/// The Landlock fallback cannot apply custom file permissions: refuse them
/// there.
pub fn check_legacy_landlock(cli: &Cli, legacy_landlock: bool) -> (r: Result<(), LaunchError>)
    ensures
        r == if legacy_landlock && has_custom_policies(*cli) {
            Err(LaunchError::CustomPoliciesNeedBubblewrap)
        } else {
            Ok(())
        },
{
    if legacy_landlock {
        let custom = cli.allow_read.is_some() || cli.deny_read.is_some() || cli.allow_write.is_some()
            || cli.deny_write.is_some();
        if custom {
            return Err(LaunchError::CustomPoliciesNeedBubblewrap);
        }
    }
    Ok(())
}

/// The command's own network setting: the flags', or on when secrets are
/// held by the proxy.
pub fn effective_net_enabled(cli: &Cli, has_secrets: bool) -> (r: bool)
    ensures
        r == (net_enabled_spec(*cli) || has_secrets),
{
    net_is_enabled(cli) || has_secrets
}

/// The domains the network proxy filters by.
#[derive(Debug, Clone)]
pub struct ProxyDomains {
    pub allowed: Vec<String>,
    pub denied: Option<Vec<String>>,
}

/// Whether a filtering proxy is needed, and with which lists: only when
/// the network is allowed with domains, or with denied domains; a bare
/// `--allow-net` then allows every domain (`*`) but the denied ones.
pub open spec fn proxy_domains_spec(cli: Cli) -> Option<(Seq<Seq<char>>, Option<Seq<Seq<char>>>)> {
    match cli.allow_net {
        None => None,
        Some(allow) => if allow@.len() == 0 && cli.deny_net is None {
            None
        } else {
            Some((
                if allow@.len() == 0 { seq!["*"@] } else { string_views(allow@) },
                match cli.deny_net { Some(d) => Some(string_views(d@)), None => None },
            ))
        },
    }
}

/// The proxy's domain lists, when a proxy is needed.
pub fn proxy_domains(cli: &Cli) -> (r: Option<ProxyDomains>)
    ensures
        match proxy_domains_spec(*cli) {
            None => r is None,
            Some((a, d)) => r matches Some(p) && string_views(p.allowed@) == a && match p.denied {
                Some(v) => d == Some(string_views(v@)),
                None => d is None,
            },
        },
{
    let allow = match &cli.allow_net {
        None => return None,
        Some(a) => a,
    };
    if allow.len() == 0 && cli.deny_net.is_none() {
        return None;
    }
    let allowed = if allow.len() == 0 {
        let mut v: Vec<String> = Vec::new();
        v.push(String::from_str("*"));
        proof {
            assert(string_views(v@) =~= seq!["*"@]);
        }
        v
    } else {
        let v = allow.clone();
        proof {
            assert(v@ == allow@);
        }
        v
    };
    let denied = match &cli.deny_net {
        Some(d) => {
            let v = d.clone();
            proof {
                assert(v@ == d@);
            }
            Some(v)
        },
        None => None,
    };
    Some(ProxyDomains { allowed, denied })
}

/// The variables added to the child's environment: the network-disabled
/// marker when the network is off, and the proxy's CA certificate for every
/// common TLS client when secrets are intercepted.
pub open spec fn extra_env_spec(net_enabled: bool, ca_cert: Option<Seq<char>>) -> Seq<(Seq<char>, Seq<char>)> {
    (if !net_enabled { seq![("CODEX_SANDBOX_NETWORK_DISABLED"@, "1"@)] } else { Seq::empty() })
        + match ca_cert {
            Some(ca) => seq![
                ("CURL_CA_BUNDLE"@, ca),
                ("SSL_CERT_FILE"@, ca),
                ("NODE_EXTRA_CA_CERTS"@, ca),
                ("REQUESTS_CA_BUNDLE"@, ca),
                ("CARGO_HTTP_CAINFO"@, ca),
                ("GIT_SSL_CAINFO"@, ca),
            ],
            None => Seq::empty(),
        }
}

/// The extra environment of the child.
pub fn extra_child_env(net_enabled: bool, ca_cert: Option<&str>) -> (r: Vec<(String, String)>)
    ensures
        r@.map_values(|kv: (String, String)| (kv.0@, kv.1@)) == extra_env_spec(net_enabled, match ca_cert { Some(c) => Some(c@), None => None }),
{
    let mut v: Vec<(String, String)> = Vec::new();
    if !net_enabled {
        v.push((String::from_str("CODEX_SANDBOX_NETWORK_DISABLED"), String::from_str("1")));
    }
    match ca_cert {
        Some(ca) => {
            v.push((String::from_str("CURL_CA_BUNDLE"), String::from_str(ca)));
            v.push((String::from_str("SSL_CERT_FILE"), String::from_str(ca)));
            v.push((String::from_str("NODE_EXTRA_CA_CERTS"), String::from_str(ca)));
            v.push((String::from_str("REQUESTS_CA_BUNDLE"), String::from_str(ca)));
            v.push((String::from_str("CARGO_HTTP_CAINFO"), String::from_str(ca)));
            v.push((String::from_str("GIT_SSL_CAINFO"), String::from_str(ca)));
        },
        None => {},
    }
    proof {
        assert(v@.map_values(|kv: (String, String)| (kv.0@, kv.1@)) =~= extra_env_spec(net_enabled, match ca_cert { Some(c) => Some(c@), None => None }));
    }
    v
}

/// The program and its arguments: the first word and the rest.
pub fn split_command(command: &Vec<String>) -> (r: Option<(String, Vec<String>)>)
    ensures
        command@.len() == 0 ==> r is None,
        command@.len() > 0 ==> (r matches Some(pa) && pa.0@ == command@[0]@ && string_views(pa.1@) == string_views(command@).skip(1)),
{
    if command.len() == 0 {
        return None;
    }
    let mut args: Vec<String> = Vec::new();
    let mut i: usize = 1;
    while i < command.len()
        invariant
            1 <= i <= command@.len(),
            string_views(args@) == string_views(command@).subrange(1, i as int),
        decreases command.len() - i,
    {
        let ghost before = args@;
        args.push(command[i].clone());
        proof {
            assert(string_views(args@) =~= string_views(before).push(command@[i as int]@));
            assert(string_views(command@).subrange(1, i + 1) =~= string_views(command@).subrange(1, i as int).push(command@[i as int]@));
        }
        i = i + 1;
    }
    proof {
        assert(string_views(command@).subrange(1, command@.len() as int) =~= string_views(command@).skip(1));
    }
    Some((command[0].clone(), args))
}

/// The exit code passed on: the child's own code (its low byte), else
/// 128 plus the signal that ended it, else 1.
pub open spec fn exit_code_spec(code: Option<i32>, signal: Option<i32>) -> u8 {
    match code {
        Some(c) => c as u8,
        None => match signal {
            Some(s) => (128 + s) as u8,
            None => 1,
        },
    }
}

/// The exit code for the child's status.
pub fn exit_code_for(code: Option<i32>, signal: Option<i32>) -> (r: u8)
    requires
        signal matches Some(s) ==> s <= i32::MAX - 128,
    ensures
        r == exit_code_spec(code, signal),
{
    match code {
        Some(c) => c as u8,
        None => match signal {
            Some(s) => (128 + s) as u8,
            None => 1,
        },
    }
}


/// `--deny-net` never turns the network off: whenever `--allow-net` is
/// given the network is enabled, whatever `--deny-net` holds (the deny list
/// only narrows the proxy's domains, which it then carries); `--allow-all`
/// enables it too; without either it stays off.
pub proof fn lemma_allow_net_enables_network(cli: Cli, deny: Option<Vec<String>>)
    ensures
        cli.allow_net is Some ==> net_enabled_spec(cli),
        cli.allow_all ==> net_enabled_spec(cli),
        !cli.allow_all && cli.allow_net is None ==> !net_enabled_spec(cli),
        net_enabled_spec((Cli { deny_net: deny, ..cli })) == net_enabled_spec(cli),
        cli.allow_net is Some && cli.deny_net is Some ==> (proxy_domains_spec(cli) matches Some(p)
            && p.1 == Some(string_views(cli.deny_net->0@))),
{
}

} // verus!
