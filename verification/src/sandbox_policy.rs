//! Sandbox policies for sandboxed commands: what they let a command read,
//! write and reach, and the writable roots (with their protected
//! subdirectories) a workspace-write policy grants.
//!
//! Paths are absolute path strings. Questions about the host (is `/tmp` a
//! directory, what `TMPDIR` holds, which of `.git`, `.agents`, `.codex`
//! exist under a root, where a `.git` file points) are answered by the
//! caller and handed in.
use vstd::prelude::*;
use crate::paths::{
    dedup_path_strings, dedup_paths, has_root, join_path, join_spec, lemma_dedup_subset, lemma_join_name_under, path_eq,
    path_starts_with, same_path, starts_with_path,
};
use crate::text::{chars_of, find_char, first_index_of, string_of, string_views, trim_chars, trim_spec};

verus! {

/// Whether outbound network is allowed.
#[derive(Debug, Clone, Copy, PartialEq, Eq, Structural)]
pub enum NetworkAccess {
    Restricted,
    Enabled,
}

impl NetworkAccess {
    /// Restricted.
    pub fn default() -> (r: Self)
        ensures
            r == NetworkAccess::Restricted,
    {
        NetworkAccess::Restricted
    }

    /// Is the network enabled?
    pub fn is_enabled(self) -> (r: bool)
        ensures
            r == (self == NetworkAccess::Enabled),
    {
        match self {
            NetworkAccess::Enabled => true,
            NetworkAccess::Restricted => false,
        }
    }
}

/// Restricted read access includes the platform defaults unless told not
/// to.
pub fn default_include_platform_defaults() -> (r: bool)
    ensures
        r,
{
    true
}

/// The path as an absolute root, when it is absolute.
pub open spec fn absolute_form(p: Seq<char>) -> Option<Seq<char>> {
    if has_root(p) {
        Some(p)
    } else {
        None
    }
}

/// How read-only access is granted.
#[derive(Debug, Clone)]
pub enum ReadOnlyAccess {
    /// Reads are limited to these roots (and the platform defaults when
    /// asked for).
    Restricted { include_platform_defaults: bool, readable_roots: Vec<String> },
    /// Reads are unrestricted.
    FullAccess,
}

impl ReadOnlyAccess {
    /// Full access.
    pub fn default() -> (r: Self)
        ensures
            r is FullAccess,
    {
        ReadOnlyAccess::FullAccess
    }

    /// Can the whole disk be read?
    pub fn has_full_disk_read_access(&self) -> (r: bool)
        ensures
            r == (self is FullAccess),
    {
        match self {
            ReadOnlyAccess::FullAccess => true,
            _ => false,
        }
    }

    /// Are the platform's default read roots added?
    pub fn include_platform_defaults(&self) -> (r: bool)
        ensures
            r == (self matches ReadOnlyAccess::Restricted { include_platform_defaults: true, .. }),
    {
        match self {
            ReadOnlyAccess::Restricted { include_platform_defaults, .. } => *include_platform_defaults,
            ReadOnlyAccess::FullAccess => false,
        }
    }

    /// The readable roots for `cwd`: none for full access (reads are
    /// granted wholesale), else the configured roots and the working
    /// directory, each path once.
    pub open spec fn readable_roots_spec(&self, cwd: Seq<char>) -> Seq<Seq<char>> {
        match self {
            ReadOnlyAccess::FullAccess => Seq::empty(),
            ReadOnlyAccess::Restricted { readable_roots, .. } => dedup_paths(
                string_views(readable_roots@) + match absolute_form(cwd) {
                    Some(c) => seq![c],
                    None => Seq::empty(),
                },
            ),
        }
    }

    /// The readable roots for a working directory.
    pub fn get_readable_roots_with_cwd(&self, cwd: &str) -> (r: Vec<String>)
        ensures
            string_views(r@) == self.readable_roots_spec(cwd@),
    {
        match self {
            ReadOnlyAccess::FullAccess => {
                let r: Vec<String> = Vec::new();
                proof {
                    assert(string_views(r@) =~= Seq::<Seq<char>>::empty());
                }
                r
            },
            ReadOnlyAccess::Restricted { readable_roots, .. } => {
                let mut roots = readable_roots.clone();
                let ghost base = string_views(roots@);
                proof {
                    assert(roots@ == readable_roots@);
                }
                if is_absolute(cwd) {
                    roots.push(String::from_str(cwd));
                    proof {
                        assert(string_views(roots@) =~= base + seq![cwd@]);
                    }
                } else {
                    proof {
                        assert(string_views(roots@) =~= base + Seq::<Seq<char>>::empty());
                    }
                }
                dedup_path_strings(roots)
            },
        }
    }
}

/// Is the path absolute?
fn is_absolute(p: &str) -> (r: bool)
    ensures
        r == has_root(p@),
{
    let cs = chars_of(p);
    cs.len() > 0 && cs[0] == '/'
}

/// What a command is allowed to do.
#[derive(Debug, Clone)]
pub enum SandboxPolicy {
    /// No restrictions whatsoever.
    DangerFullAccess,
    /// Read-only access, and the network when `network_access`.
    ReadOnly { access: ReadOnlyAccess, network_access: bool },
    /// Already inside an outside sandbox: full disk access, with the given
    /// network setting.
    ExternalSandbox { network_access: NetworkAccess },
    /// Like read-only, with writes to the working directory, the writable
    /// roots, `/tmp` and `TMPDIR` (unless excluded).
    WorkspaceWrite {
        writable_roots: Vec<String>,
        read_only_access: ReadOnlyAccess,
        network_access: bool,
        exclude_tmpdir_env_var: bool,
        exclude_slash_tmp: bool,
    },
}

/// What the host says about the default writable locations.
#[derive(Debug, Clone)]
pub struct HostFacts {
    /// Is `/tmp` a directory?
    pub slash_tmp_is_dir: bool,
    /// The value of `TMPDIR`, if set.
    pub tmpdir: Option<String>,
}

/// What sits at `.git` under a writable root.
#[derive(Debug, Clone)]
pub enum GitEntry {
    Missing,
    Dir,
    /// A `.git` file; `gitdir` is the existing directory it points to, if
    /// it could be resolved.
    File { gitdir: Option<String> },
}

/// What the host says about one writable root.
#[derive(Debug, Clone)]
pub struct RootProbe {
    pub git: GitEntry,
    /// Is `.agents` a directory?
    pub agents_is_dir: bool,
    /// Is `.codex` a directory?
    pub codex_is_dir: bool,
}

/// A writable root and the subpaths under it that stay read-only.
#[derive(Debug, Clone)]
pub struct WritableRoot {
    pub root: String,
    pub read_only_subpaths: Vec<String>,
}

/// Is `path` writable under this root: inside the root and inside none of
/// its read-only subpaths?
pub open spec fn writable_under(root: Seq<char>, read_only: Seq<Seq<char>>, path: Seq<char>) -> bool {
    path_starts_with(path, root) && forall|i: int| 0 <= i < read_only.len() ==> !path_starts_with(path, #[trigger] read_only[i])
}

impl WritableRoot {
    /// Can `path` be written?
    pub fn is_path_writable(&self, path: &str) -> (r: bool)
        ensures
            r == writable_under(self.root@, string_views(self.read_only_subpaths@), path@),
    {
        if !starts_with_path(path, self.root.as_str()) {
            return false;
        }
        let mut i: usize = 0;
        while i < self.read_only_subpaths.len()
            invariant
                i <= self.read_only_subpaths@.len(),
                forall|k: int| 0 <= k < i ==> !path_starts_with(path@, #[trigger] string_views(self.read_only_subpaths@)[k]),
            decreases self.read_only_subpaths.len() - i,
        {
            proof {
                assert(string_views(self.read_only_subpaths@)[i as int] == self.read_only_subpaths@[i as int]@);
            }
            if starts_with_path(path, self.read_only_subpaths[i].as_str()) {
                return false;
            }
            i = i + 1;
        }
        true
    }
}

/// A path under one of a root's read-only subpaths is never writable, even
/// though the root is.
pub proof fn lemma_read_only_subpath_wins(root: Seq<char>, read_only: Seq<Seq<char>>, path: Seq<char>, i: int)
    requires
        0 <= i < read_only.len(),
        path_starts_with(path, read_only[i]),
    ensures
        !writable_under(root, read_only, path),
{
}

/// The subpaths of a writable root that stay read-only, all under the root:
/// the directory a `.git` file points to when it lies under the root, and
/// `.git` itself when `.git` exists, `.agents`
/// when it is a directory, `.codex` when it is a directory or must be
/// protected even though missing (the working directory's own root); each
/// path once.
pub open spec fn read_only_subpaths_spec(root: Seq<char>, probe: RootProbe, protect_missing_dot_codex: bool) -> Seq<Seq<char>> {
    dedup_paths(git_part(root, probe.git) + agents_part(root, probe.agents_is_dir)
        + codex_part(root, protect_missing_dot_codex || probe.codex_is_dir))
}

/// The `.git` entries protected under a root.
pub open spec fn git_part(root: Seq<char>, git: GitEntry) -> Seq<Seq<char>> {
    match git {
        GitEntry::Missing => Seq::empty(),
        GitEntry::Dir => seq![join_spec(root, ".git"@)],
        GitEntry::File { gitdir } => match gitdir {
            Some(g) => if path_starts_with(g@, root) {
                seq![g@, join_spec(root, ".git"@)]
            } else {
                seq![join_spec(root, ".git"@)]
            },
            None => seq![join_spec(root, ".git"@)],
        },
    }
}

/// The `.agents` entry protected under a root.
pub open spec fn agents_part(root: Seq<char>, present: bool) -> Seq<Seq<char>> {
    if present { seq![join_spec(root, ".agents"@)] } else { Seq::empty() }
}

/// The `.codex` entry protected under a root.
pub open spec fn codex_part(root: Seq<char>, protect: bool) -> Seq<Seq<char>> {
    if protect { seq![join_spec(root, ".codex"@)] } else { Seq::empty() }
}

/// Every read-only subpath of a writable root lies inside the root.
pub proof fn lemma_subpaths_under_root(root: Seq<char>, probe: RootProbe, protect_missing_dot_codex: bool)
    ensures
        forall|i: int| 0 <= i < read_only_subpaths_spec(root, probe, protect_missing_dot_codex).len() ==>
            path_starts_with(#[trigger] read_only_subpaths_spec(root, probe, protect_missing_dot_codex)[i], root),
{
    reveal_strlit(".git");
    reveal_strlit(".agents");
    reveal_strlit(".codex");
    assert(".agents"@.len() != seq!['.'].len());
    assert(".codex"@.len() != seq!['.'].len());
    lemma_join_name_under(root, ".git"@);
    lemma_join_name_under(root, ".agents"@);
    lemma_join_name_under(root, ".codex"@);
    let s = git_part(root, probe.git) + agents_part(root, probe.agents_is_dir)
        + codex_part(root, protect_missing_dot_codex || probe.codex_is_dir);
    assert forall|k: int| 0 <= k < s.len() implies path_starts_with(#[trigger] s[k], root) by {
        let g = git_part(root, probe.git);
        let a = agents_part(root, probe.agents_is_dir);
        if k < g.len() {
            assert(s[k] == g[k]);
        } else if k < g.len() + a.len() {
            assert(s[k] == a[k - g.len()]);
        } else {
            assert(s[k] == codex_part(root, protect_missing_dot_codex || probe.codex_is_dir)[k - g.len() - a.len()]);
        }
    }
    lemma_dedup_subset(s);
    let d = dedup_paths(s);
    assert forall|i: int| 0 <= i < d.len() implies path_starts_with(#[trigger] d[i], root) by {
        let k = choose|k: int| 0 <= k < s.len() && s[k] == d[i];
    }
}

/// The read-only subpaths of one writable root.
pub fn default_read_only_subpaths_for_writable_root(root: &str, probe: &RootProbe, protect_missing_dot_codex: bool) -> (r: Vec<String>)
    ensures
        string_views(r@) == read_only_subpaths_spec(root@, *probe, protect_missing_dot_codex),
        forall|i: int| 0 <= i < r@.len() ==> path_starts_with(#[trigger] r@[i]@, root@),
{
    proof {
        lemma_subpaths_under_root(root@, *probe, protect_missing_dot_codex);
    }
    let mut subpaths: Vec<String> = Vec::new();
    let git = join_path(root, ".git");
    match &probe.git {
        GitEntry::Missing => {},
        GitEntry::Dir => {
            subpaths.push(git);
        },
        GitEntry::File { gitdir } => {
            match gitdir {
                Some(g) => {
                    if starts_with_path(g.as_str(), root) {
                        subpaths.push(g.clone());
                    }
                },
                None => {},
            }
            subpaths.push(git);
        },
    }
    let ghost git_part_v = string_views(subpaths@);
    proof {
        assert(git_part_v =~= git_part(root@, probe.git));
    }
    if probe.agents_is_dir {
        subpaths.push(join_path(root, ".agents"));
    }
    let ghost ga = string_views(subpaths@);
    if protect_missing_dot_codex || probe.codex_is_dir {
        subpaths.push(join_path(root, ".codex"));
    }
    proof {
        assert(git_part_v == git_part(root@, probe.git));
        assert(ga =~= git_part(root@, probe.git) + agents_part(root@, probe.agents_is_dir));
        assert(string_views(subpaths@) =~= git_part(root@, probe.git) + agents_part(root@, probe.agents_is_dir)
            + codex_part(root@, protect_missing_dot_codex || probe.codex_is_dir));
    }
    let r = dedup_path_strings(subpaths);
    proof {
        assert forall|i: int| 0 <= i < r@.len() implies path_starts_with(#[trigger] r@[i]@, root@) by {
            assert(string_views(r@)[i] == r@[i]@);
            assert(read_only_subpaths_spec(root@, *probe, protect_missing_dot_codex)[i] == r@[i]@);
        }
    }
    r
}

/// The directory a `.git` file points to, as written in it: the text after
/// the first `:` of the trimmed contents, trimmed; nothing when there is no
/// `:` or nothing after it.
pub open spec fn gitdir_pointer_spec(contents: Seq<char>) -> Option<Seq<char>> {
    let t = trim_spec(contents);
    match first_index_of(t, ':') {
        None => None,
        Some(i) => {
            let raw = trim_spec(t.skip(i + 1));
            if raw.len() == 0 {
                None
            } else {
                Some(raw)
            }
        },
    }
}

/// Reads the `gitdir: <path>` pointer of a `.git` file and resolves it
/// against the directory holding that file. Whether the result exists is
/// for the caller to check.
pub fn resolve_gitdir_pointer(base: &str, contents: &str) -> (r: Option<String>)
    ensures
        match gitdir_pointer_spec(contents@) {
            None => r is None,
            Some(raw) => r matches Some(p) && p@ == join_spec(base@, raw),
        },
{
    let cs = chars_of(contents);
    let trimmed = trim_chars(&cs);
    let colon = match find_char(&trimmed, ':') {
        Some(i) => i,
        None => return None,
    };
    let mut after: Vec<char> = Vec::new();
    let tlen = trimmed.len();
    assert(colon < tlen);
    let mut k: usize = colon + 1;
    while k < trimmed.len()
        invariant
            colon < trimmed@.len(),
            colon + 1 <= k <= trimmed@.len(),
            after@ == trimmed@.subrange(colon + 1, k as int),
        decreases trimmed.len() - k,
    {
        after.push(trimmed[k]);
        proof {
            assert(trimmed@.subrange(colon + 1, k + 1) =~= trimmed@.subrange(colon + 1, k as int).push(trimmed@[k as int]));
        }
        k = k + 1;
    }
    proof {
        assert(trimmed@.subrange(colon + 1, trimmed@.len() as int) =~= trimmed@.skip(colon + 1));
    }
    let raw = trim_chars(&after);
    if raw.len() == 0 {
        return None;
    }
    let raw_text = string_of(&raw);
    Some(join_path(base, raw_text.as_str()))
}

impl SandboxPolicy {
    /// Read-only disk access, no network.
    pub fn new_read_only_policy() -> (r: Self)
        ensures
            r matches SandboxPolicy::ReadOnly { access: ReadOnlyAccess::FullAccess, network_access: false },
    {
        SandboxPolicy::ReadOnly { access: ReadOnlyAccess::FullAccess, network_access: false }
    }

    /// Reads everywhere, writes to the workspace defaults only, no network.
    pub fn new_workspace_write_policy() -> (r: Self)
        ensures
            r matches SandboxPolicy::WorkspaceWrite {
                writable_roots,
                read_only_access: ReadOnlyAccess::FullAccess,
                network_access: false,
                exclude_tmpdir_env_var: false,
                exclude_slash_tmp: false,
            } && writable_roots@.len() == 0,
    {
        SandboxPolicy::WorkspaceWrite {
            writable_roots: Vec::new(),
            read_only_access: ReadOnlyAccess::FullAccess,
            network_access: false,
            exclude_tmpdir_env_var: false,
            exclude_slash_tmp: false,
        }
    }

    /// Can the whole disk be read?
    pub open spec fn full_read_spec(&self) -> bool {
        match self {
            SandboxPolicy::DangerFullAccess => true,
            SandboxPolicy::ExternalSandbox { .. } => true,
            SandboxPolicy::ReadOnly { access, .. } => access is FullAccess,
            SandboxPolicy::WorkspaceWrite { read_only_access, .. } => read_only_access is FullAccess,
        }
    }

    /// Can the whole disk be read?
    pub fn has_full_disk_read_access(&self) -> (r: bool)
        ensures
            r == self.full_read_spec(),
    {
        match self {
            SandboxPolicy::DangerFullAccess => true,
            SandboxPolicy::ExternalSandbox { .. } => true,
            SandboxPolicy::ReadOnly { access, .. } => access.has_full_disk_read_access(),
            SandboxPolicy::WorkspaceWrite { read_only_access, .. } => read_only_access.has_full_disk_read_access(),
        }
    }

    /// Can the whole disk be written?
    pub fn has_full_disk_write_access(&self) -> (r: bool)
        ensures
            r == (self is DangerFullAccess || self is ExternalSandbox),
    {
        match self {
            SandboxPolicy::DangerFullAccess => true,
            SandboxPolicy::ExternalSandbox { .. } => true,
            SandboxPolicy::ReadOnly { .. } => false,
            SandboxPolicy::WorkspaceWrite { .. } => false,
        }
    }

    /// A policy that may write the whole disk may also read it.
    pub proof fn lemma_full_write_reads_all(&self)
        ensures
            (self is DangerFullAccess || self is ExternalSandbox) ==> self.full_read_spec(),
    {
    }

    /// Is the whole network reachable?
    pub fn has_full_network_access(&self) -> (r: bool)
        ensures
            r == match self {
                SandboxPolicy::DangerFullAccess => true,
                SandboxPolicy::ExternalSandbox { network_access } => *network_access == NetworkAccess::Enabled,
                SandboxPolicy::ReadOnly { network_access, .. } => *network_access,
                SandboxPolicy::WorkspaceWrite { network_access, .. } => *network_access,
            },
    {
        match self {
            SandboxPolicy::DangerFullAccess => true,
            SandboxPolicy::ExternalSandbox { network_access } => network_access.is_enabled(),
            SandboxPolicy::ReadOnly { network_access, .. } => *network_access,
            SandboxPolicy::WorkspaceWrite { network_access, .. } => *network_access,
        }
    }

    /// Are the platform's default read roots added? Only when reads are
    /// restricted and the restriction asks for them.
    pub fn include_platform_defaults(&self) -> (r: bool)
        ensures
            r == (!self.full_read_spec() && match self {
                SandboxPolicy::ReadOnly { access, .. } => access matches ReadOnlyAccess::Restricted { include_platform_defaults: true, .. },
                SandboxPolicy::WorkspaceWrite { read_only_access, .. } => read_only_access matches ReadOnlyAccess::Restricted { include_platform_defaults: true, .. },
                _ => false,
            }),
    {
        if self.has_full_disk_read_access() {
            return false;
        }
        match self {
            SandboxPolicy::ReadOnly { access, .. } => access.include_platform_defaults(),
            SandboxPolicy::WorkspaceWrite { read_only_access, .. } => read_only_access.include_platform_defaults(),
            SandboxPolicy::DangerFullAccess | SandboxPolicy::ExternalSandbox { .. } => false,
        }
    }

    /// The roots a workspace-write policy makes writable for `cwd`, before
    /// their read-only subpaths are worked out: the configured roots, the
    /// working directory, `/tmp` when it is a directory and not excluded,
    /// and a non-empty absolute `TMPDIR` when not excluded. Other policies
    /// grant none.
    pub open spec fn candidate_roots_spec(&self, cwd: Seq<char>, host: HostFacts) -> Seq<Seq<char>> {
        match self {
            SandboxPolicy::WorkspaceWrite { writable_roots, exclude_tmpdir_env_var, exclude_slash_tmp, .. } => {
                string_views(writable_roots@)
                    + (match absolute_form(cwd) { Some(c) => seq![c], None => Seq::empty() })
                    + (if !*exclude_slash_tmp && host.slash_tmp_is_dir { seq!["/tmp"@] } else { Seq::empty() })
                    + (match host.tmpdir {
                        Some(t) => if !*exclude_tmpdir_env_var && t@.len() > 0 && has_root(t@) { seq![t@] } else { Seq::empty() },
                        None => Seq::empty(),
                    })
            },
            _ => Seq::empty(),
        }
    }

    /// The writable roots before their read-only subpaths are known.
    pub fn candidate_writable_roots(&self, cwd: &str, host: &HostFacts) -> (r: Vec<String>)
        ensures
            string_views(r@) == self.candidate_roots_spec(cwd@, *host),
    {
        match self {
            SandboxPolicy::WorkspaceWrite { writable_roots, exclude_tmpdir_env_var, exclude_slash_tmp, .. } => {
                let mut roots = writable_roots.clone();
                let ghost s0 = string_views(roots@);
                proof {
                    assert(roots@ == writable_roots@);
                }
                if is_absolute(cwd) {
                    roots.push(String::from_str(cwd));
                }
                let ghost s1 = string_views(roots@);
                proof {
                    assert(s1 =~= s0 + (match absolute_form(cwd@) { Some(c) => seq![c], None => Seq::<Seq<char>>::empty() }));
                }
                if !*exclude_slash_tmp && host.slash_tmp_is_dir {
                    roots.push(String::from_str("/tmp"));
                }
                let ghost s2 = string_views(roots@);
                proof {
                    assert(s2 =~= s1 + (if !*exclude_slash_tmp && host.slash_tmp_is_dir { seq!["/tmp"@] } else { Seq::<Seq<char>>::empty() }));
                }
                if !*exclude_tmpdir_env_var {
                    match &host.tmpdir {
                        Some(t) => {
                            if !t.as_str().is_empty() && is_absolute(t.as_str()) {
                                roots.push(t.clone());
                            }
                        },
                        None => {},
                    }
                }
                proof {
                    assert(string_views(roots@) =~= s2 + (match host.tmpdir {
                        Some(t) => if !*exclude_tmpdir_env_var && t@.len() > 0 && has_root(t@) { seq![t@] } else { Seq::<Seq<char>>::empty() },
                        None => Seq::<Seq<char>>::empty(),
                    }));
                }
                roots
            },
            _ => {
                let r: Vec<String> = Vec::new();
                proof {
                    assert(string_views(r@) =~= Seq::<Seq<char>>::empty());
                }
                r
            },
        }
    }

    /// The readable roots for `cwd`: none when reads are unrestricted; else
    /// the restricted read roots, plus (for workspace-write) the writable
    /// roots; each path once.
    pub open spec fn readable_roots_spec(&self, cwd: Seq<char>, host: HostFacts) -> Seq<Seq<char>> {
        dedup_paths(match self {
            SandboxPolicy::DangerFullAccess | SandboxPolicy::ExternalSandbox { .. } => Seq::empty(),
            SandboxPolicy::ReadOnly { access, .. } => access.readable_roots_spec(cwd),
            SandboxPolicy::WorkspaceWrite { read_only_access, .. } =>
                read_only_access.readable_roots_spec(cwd) + self.candidate_roots_spec(cwd, host),
        })
    }

    /// The readable roots for a working directory.
    pub fn get_readable_roots_with_cwd(&self, cwd: &str, host: &HostFacts) -> (r: Vec<String>)
        ensures
            string_views(r@) == self.readable_roots_spec(cwd@, *host),
    {
        let roots = match self {
            SandboxPolicy::DangerFullAccess | SandboxPolicy::ExternalSandbox { .. } => {
                let r: Vec<String> = Vec::new();
                proof {
                    assert(string_views(r@) =~= Seq::<Seq<char>>::empty());
                }
                r
            },
            SandboxPolicy::ReadOnly { access, .. } => access.get_readable_roots_with_cwd(cwd),
            SandboxPolicy::WorkspaceWrite { read_only_access, .. } => {
                let mut roots = read_only_access.get_readable_roots_with_cwd(cwd);
                let extra = self.candidate_writable_roots(cwd, host);
                let ghost s0 = string_views(roots@);
                let mut i: usize = 0;
                while i < extra.len()
                    invariant
                        i <= extra@.len(),
                        string_views(roots@) == s0 + string_views(extra@).take(i as int),
                    decreases extra.len() - i,
                {
                    let ghost old_roots = roots@;
                    roots.push(extra[i].clone());
                    proof {
                        assert(string_views(roots@) =~= string_views(old_roots).push(extra@[i as int]@));
                        assert(string_views(extra@).take(i + 1) =~= string_views(extra@).take(i as int).push(extra@[i as int]@));
                        assert(string_views(roots@) =~= s0 + string_views(extra@).take(i + 1));
                    }
                    i = i + 1;
                }
                proof {
                    assert(string_views(extra@).take(extra@.len() as int) =~= string_views(extra@));
                }
                roots
            },
        };
        dedup_path_strings(roots)
    }

    /// The writable roots with their read-only subpaths, for the roots that
    /// `candidate_writable_roots` gave and what the host said about each.
    /// The `.codex` of the working directory's own root is protected even
    /// when missing.
    pub fn writable_roots_from(cwd: &str, roots: &Vec<String>, probes: &Vec<RootProbe>) -> (r: Vec<WritableRoot>)
        requires
            roots@.len() == probes@.len(),
        ensures
            r@.len() == roots@.len(),
            forall|i: int| 0 <= i < roots@.len() ==> {
                &&& (#[trigger] r@[i]).root@ == roots@[i]@
                &&& string_views(r@[i].read_only_subpaths@) == read_only_subpaths_spec(
                    roots@[i]@,
                    probes@[i],
                    has_root(cwd@) && path_eq(cwd@, roots@[i]@),
                )
                &&& forall|j: int| 0 <= j < r@[i].read_only_subpaths@.len() ==> path_starts_with(
                    #[trigger] r@[i].read_only_subpaths@[j]@,
                    r@[i].root@,
                )
            },
    {
        let cwd_absolute = is_absolute(cwd);
        let mut out: Vec<WritableRoot> = Vec::new();
        let mut i: usize = 0;
        while i < roots.len()
            invariant
                i <= roots@.len(),
                roots@.len() == probes@.len(),
                cwd_absolute == has_root(cwd@),
                out@.len() == i,
                forall|k: int| 0 <= k < i ==> {
                    &&& (#[trigger] out@[k]).root@ == roots@[k]@
                    &&& string_views(out@[k].read_only_subpaths@) == read_only_subpaths_spec(
                        roots@[k]@,
                        probes@[k],
                        has_root(cwd@) && path_eq(cwd@, roots@[k]@),
                    )
                    &&& forall|j: int| 0 <= j < out@[k].read_only_subpaths@.len() ==> path_starts_with(
                        #[trigger] out@[k].read_only_subpaths@[j]@,
                        out@[k].root@,
                    )
                },
            decreases roots.len() - i,
        {
            let root = &roots[i];
            let protect = cwd_absolute && same_path(cwd, root.as_str());
            let subs = default_read_only_subpaths_for_writable_root(root.as_str(), &probes[i], protect);
            out.push(WritableRoot { root: root.clone(), read_only_subpaths: subs });
            i = i + 1;
        }
        out
    }

    /// The writable roots of the policy for `cwd`, each with its read-only
    /// subpaths, given what the host said about each candidate root (in the
    /// order of `candidate_writable_roots`).
    pub fn get_writable_roots_with_cwd(&self, cwd: &str, host: &HostFacts, probes: &Vec<RootProbe>) -> (r: Vec<WritableRoot>)
        requires
            probes@.len() == self.candidate_roots_spec(cwd@, *host).len(),
        ensures
            r@.len() == self.candidate_roots_spec(cwd@, *host).len(),
            forall|i: int| 0 <= i < r@.len() ==> {
                &&& (#[trigger] r@[i]).root@ == self.candidate_roots_spec(cwd@, *host)[i]
                &&& string_views(r@[i].read_only_subpaths@) == read_only_subpaths_spec(
                    self.candidate_roots_spec(cwd@, *host)[i],
                    probes@[i],
                    has_root(cwd@) && path_eq(cwd@, self.candidate_roots_spec(cwd@, *host)[i]),
                )
                &&& forall|j: int| 0 <= j < r@[i].read_only_subpaths@.len() ==> path_starts_with(
                    #[trigger] r@[i].read_only_subpaths@[j]@,
                    r@[i].root@,
                )
            },
    {
        let roots = self.candidate_writable_roots(cwd, host);
        let r = SandboxPolicy::writable_roots_from(cwd, &roots, probes);
        proof {
            assert forall|i: int| 0 <= i < r@.len() implies roots@[i]@ == self.candidate_roots_spec(cwd@, *host)[i] by {
                assert(string_views(roots@)[i] == roots@[i]@);
            }
        }
        r
    }
}

} // verus!
