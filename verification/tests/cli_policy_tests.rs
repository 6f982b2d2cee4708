use zerobox::cli_policy::{
    after_namespace_probe, build_fs_policy, build_legacy_sandbox_policy, build_net_policy,
    check_legacy_landlock, choose_sandbox, effective_net_enabled, exit_code_for, extra_child_env,
    make_path_entries, make_root_entry, net_is_enabled, proxy_domains, resolve_cli_paths,
    resolve_path, split_command, Cli, FileSystemAccessMode, FileSystemPath, FileSystemSandboxPolicy,
    FileSystemSpecialPath, LaunchError, NetworkSandboxPolicy, ResolvedPaths, SandboxChoice,
    SandboxType,
};
use zerobox::sandbox_policy::{ReadOnlyAccess, SandboxPolicy};

fn cli_defaults() -> Cli {
    Cli {
        allow_read: None,
        deny_read: None,
        allow_write: None,
        deny_write: None,
        allow_net: None,
        deny_net: None,
        allow_all: false,
        cwd: None,
        no_sandbox: false,
        strict_sandbox: false,
        set_env: vec![],
        allow_env: None,
        deny_env: None,
        secret: vec![],
        secret_host: vec![],
        command: vec!["true".to_string()],
    }
}

fn empty_resolved() -> ResolvedPaths {
    ResolvedPaths {
        readable: None,
        deny_readable: vec![],
        writable: None,
        deny_writable: vec![],
        full_write: false,
    }
}

// ── resolve_path ──

#[test]
fn resolve_path_absolute_unchanged() {
    let result = resolve_path("/base", "/absolute/path").expect("resolve");
    assert_eq!(result, "/absolute/path");
}

#[test]
fn resolve_path_relative_joined_to_base() {
    let result = resolve_path("/base/dir", "child").expect("resolve");
    assert_eq!(result, "/base/dir/child");
}

#[test]
fn resolve_path_relative_base_is_refused() {
    let err = resolve_path("base", "child").unwrap_err();
    assert_eq!(err.path, "base/child");
}

// ── resolve_cli_paths ──

#[test]
fn resolve_defaults_all_empty() {
    let cli = cli_defaults();
    let resolved = resolve_cli_paths(&cli, "/tmp").expect("resolve");
    assert!(resolved.readable.is_none());
    assert!(resolved.deny_readable.is_empty());
    assert!(resolved.writable.is_none());
    assert!(resolved.deny_writable.is_empty());
    assert!(!resolved.full_write);
}

#[test]
fn resolve_allow_write_empty_means_full_write() {
    let mut cli = cli_defaults();
    cli.allow_write = Some(vec![]);
    let resolved = resolve_cli_paths(&cli, "/tmp").expect("resolve");
    assert!(resolved.full_write);
    assert!(resolved.writable.is_none());
}

#[test]
fn resolve_allow_write_with_paths() {
    let mut cli = cli_defaults();
    cli.allow_write = Some(vec!["/tmp".to_string()]);
    let resolved = resolve_cli_paths(&cli, "/").expect("resolve");
    assert!(!resolved.full_write);
    assert_eq!(resolved.writable.as_ref().map(|v| v.len()), Some(1));
}

#[test]
fn resolve_deny_paths() {
    let mut cli = cli_defaults();
    cli.deny_read = Some(vec!["/secret".to_string()]);
    cli.deny_write = Some(vec!["/protected".to_string()]);
    let resolved = resolve_cli_paths(&cli, "/").expect("resolve");
    assert_eq!(resolved.deny_readable.len(), 1);
    assert_eq!(resolved.deny_writable.len(), 1);
}

#[test]
fn resolve_relative_flags_under_cwd() {
    let mut cli = cli_defaults();
    cli.allow_read = Some(vec!["src".to_string(), "/etc".to_string()]);
    let resolved = resolve_cli_paths(&cli, "/work").expect("resolve");
    assert_eq!(
        resolved.readable,
        Some(vec!["/work/src".to_string(), "/etc".to_string()])
    );
}

#[test]
fn resolve_fails_on_relative_cwd() {
    let mut cli = cli_defaults();
    cli.deny_write = Some(vec!["x".to_string()]);
    assert!(resolve_cli_paths(&cli, "relative").is_err());
}

// ── build_fs_policy ──

#[test]
fn fs_policy_allow_all_is_unrestricted() {
    let resolved = empty_resolved();
    assert!(matches!(
        build_fs_policy(&resolved, true, false, None),
        FileSystemSandboxPolicy::Unrestricted
    ));
}

#[test]
fn fs_policy_default_reads_root() {
    let resolved = empty_resolved();
    match build_fs_policy(&resolved, false, false, None) {
        FileSystemSandboxPolicy::Restricted { entries } => {
            assert_eq!(entries.len(), 1);
            assert!(matches!(
                entries[0].path,
                FileSystemPath::Special { value: FileSystemSpecialPath::Root }
            ));
            assert_eq!(entries[0].access, FileSystemAccessMode::Read);
        }
        FileSystemSandboxPolicy::Unrestricted => panic!("expected a restricted policy"),
    }
}

#[test]
fn fs_policy_allow_read_adds_minimal_exe_dir_and_run() {
    let resolved = ResolvedPaths {
        readable: Some(vec!["/tmp".to_string()]),
        deny_readable: vec!["/tmp/secret".to_string()],
        writable: None,
        deny_writable: vec![],
        full_write: true,
    };
    match build_fs_policy(&resolved, false, true, Some("/opt/zerobox/bin")) {
        FileSystemSandboxPolicy::Restricted { entries } => {
            assert_eq!(entries.len(), 6);
            assert!(matches!(
                entries[0].path,
                FileSystemPath::Special { value: FileSystemSpecialPath::Minimal }
            ));
            match &entries[1].path {
                FileSystemPath::Path { path } => assert_eq!(path, "/tmp"),
                _ => panic!("expected a path entry"),
            }
            match &entries[2].path {
                FileSystemPath::Path { path } => assert_eq!(path, "/opt/zerobox/bin"),
                _ => panic!("expected a path entry"),
            }
            match &entries[3].path {
                FileSystemPath::Path { path } => assert_eq!(path, "/run"),
                _ => panic!("expected a path entry"),
            }
            assert_eq!(entries[4].access, FileSystemAccessMode::Deny);
            assert!(matches!(
                entries[5].path,
                FileSystemPath::Special { value: FileSystemSpecialPath::Root }
            ));
            assert_eq!(entries[5].access, FileSystemAccessMode::Write);
        }
        FileSystemSandboxPolicy::Unrestricted => panic!("expected a restricted policy"),
    }
}

#[test]
fn fs_policy_default_has_full_disk_read() {
    let resolved = empty_resolved();
    let policy = build_fs_policy(&resolved, false, false, None);
    assert!(policy.has_full_disk_read_access());
    assert!(!policy.has_full_disk_write_access());
}

#[test]
fn fs_policy_allow_read_includes_minimal() {
    let resolved = ResolvedPaths {
        readable: Some(vec!["/tmp".to_string()]),
        deny_readable: vec![],
        writable: None,
        deny_writable: vec![],
        full_write: false,
    };
    let policy = build_fs_policy(&resolved, false, false, None);
    assert!(!policy.has_full_disk_read_access());
    assert!(policy.include_platform_defaults());
}

#[test]
fn fs_policy_full_write() {
    let resolved = ResolvedPaths {
        readable: None,
        deny_readable: vec![],
        writable: None,
        deny_writable: vec![],
        full_write: true,
    };
    let policy = build_fs_policy(&resolved, false, false, None);
    assert!(policy.has_full_disk_write_access());
}

#[test]
fn fs_policy_denies_limit_full_access() {
    let resolved = ResolvedPaths {
        readable: None,
        deny_readable: vec!["/secret".to_string()],
        writable: None,
        deny_writable: vec!["/protected".to_string()],
        full_write: true,
    };
    let policy = build_fs_policy(&resolved, false, false, None);
    assert!(!policy.has_full_disk_read_access());
    assert!(!policy.has_full_disk_write_access());
    assert!(!policy.include_platform_defaults());
    assert!(FileSystemSandboxPolicy::Unrestricted.has_full_disk_write_access());
}

#[test]
fn path_and_root_entries() {
    let entries = make_path_entries(&vec!["/a".to_string(), "/b".to_string()], FileSystemAccessMode::Write);
    assert_eq!(entries.len(), 2);
    assert_eq!(entries[1].access, FileSystemAccessMode::Write);
    let root = make_root_entry(FileSystemAccessMode::Read);
    assert!(matches!(root.path, FileSystemPath::Special { value: FileSystemSpecialPath::Root }));
}

// ── build_legacy_sandbox_policy ──

#[test]
fn legacy_allow_all_is_danger() {
    let resolved = empty_resolved();
    let mut cli = cli_defaults();
    cli.allow_all = true;
    assert!(matches!(
        build_legacy_sandbox_policy(&resolved, &cli),
        SandboxPolicy::DangerFullAccess
    ));
}

#[test]
fn legacy_full_write_is_danger() {
    let mut resolved = empty_resolved();
    resolved.full_write = true;
    let cli = cli_defaults();
    assert!(matches!(
        build_legacy_sandbox_policy(&resolved, &cli),
        SandboxPolicy::DangerFullAccess
    ));
}

#[test]
fn legacy_writable_roots_is_workspace_write() {
    let mut resolved = empty_resolved();
    resolved.writable = Some(vec!["/tmp".to_string()]);
    let cli = cli_defaults();
    assert!(matches!(
        build_legacy_sandbox_policy(&resolved, &cli),
        SandboxPolicy::WorkspaceWrite { .. }
    ));
}

#[test]
fn legacy_default_is_read_only() {
    let resolved = empty_resolved();
    let cli = cli_defaults();
    assert!(matches!(
        build_legacy_sandbox_policy(&resolved, &cli),
        SandboxPolicy::ReadOnly {
            network_access: false,
            ..
        }
    ));
}

#[test]
fn legacy_read_only_with_network() {
    let resolved = empty_resolved();
    let mut cli = cli_defaults();
    cli.allow_net = Some(vec![]);
    assert!(matches!(
        build_legacy_sandbox_policy(&resolved, &cli),
        SandboxPolicy::ReadOnly {
            network_access: true,
            access: ReadOnlyAccess::FullAccess,
        }
    ));
}

// ── net_is_enabled / build_net_policy ──

#[test]
fn net_disabled_by_default() {
    let cli = cli_defaults();
    assert!(!net_is_enabled(&cli));
    assert_eq!(build_net_policy(&cli), NetworkSandboxPolicy::Restricted);
}

#[test]
fn net_enabled_with_allow_net() {
    let mut cli = cli_defaults();
    cli.allow_net = Some(vec![]);
    assert!(net_is_enabled(&cli));
    assert_eq!(build_net_policy(&cli), NetworkSandboxPolicy::Enabled);
}

#[test]
fn net_enabled_with_allow_all() {
    let mut cli = cli_defaults();
    cli.allow_all = true;
    assert!(net_is_enabled(&cli));
    assert_eq!(build_net_policy(&cli), NetworkSandboxPolicy::Enabled);
}

#[test]
fn net_enabled_with_domain_filter() {
    let mut cli = cli_defaults();
    cli.allow_net = Some(vec!["example.com".to_string()]);
    assert!(net_is_enabled(&cli));
}

#[test]
fn secrets_turn_network_on() {
    let cli = cli_defaults();
    assert!(!effective_net_enabled(&cli, false));
    assert!(effective_net_enabled(&cli, true));
}

// ── sandbox choice ──

#[test]
fn strict_conflicts_with_no_sandbox() {
    let mut cli = cli_defaults();
    cli.strict_sandbox = true;
    cli.no_sandbox = true;
    let err = choose_sandbox(&cli, Some(SandboxType::LinuxSeccomp)).unwrap_err();
    assert_eq!(err, LaunchError::StrictConflict);
    assert_eq!(
        err.message(),
        "--strict-sandbox cannot be combined with --no-sandbox or --allow-all"
    );
}

#[test]
fn allow_all_runs_unsandboxed() {
    let mut cli = cli_defaults();
    cli.allow_all = true;
    assert_eq!(
        choose_sandbox(&cli, Some(SandboxType::MacosSeatbelt)),
        Ok(SandboxChoice::Chosen { sandbox: SandboxType::Unsandboxed, legacy_landlock: false })
    );
}

#[test]
fn linux_sandbox_needs_probe() {
    let cli = cli_defaults();
    assert_eq!(choose_sandbox(&cli, Some(SandboxType::LinuxSeccomp)), Ok(SandboxChoice::ProbeNamespaces));
    assert_eq!(
        choose_sandbox(&cli, None),
        Ok(SandboxChoice::Chosen { sandbox: SandboxType::Unsandboxed, legacy_landlock: false })
    );
}

#[test]
fn namespace_probe_outcomes() {
    let mut cli = cli_defaults();
    assert_eq!(
        after_namespace_probe(&cli, true),
        Ok(SandboxChoice::Chosen { sandbox: SandboxType::LinuxSeccomp, legacy_landlock: false })
    );
    assert_eq!(
        after_namespace_probe(&cli, false),
        Ok(SandboxChoice::Chosen { sandbox: SandboxType::LinuxSeccomp, legacy_landlock: true })
    );
    cli.strict_sandbox = true;
    assert_eq!(after_namespace_probe(&cli, false), Err(LaunchError::StrictNeedsNamespaces));
}

#[test]
fn landlock_refuses_custom_policies() {
    let mut cli = cli_defaults();
    assert!(check_legacy_landlock(&cli, true).is_ok());
    cli.deny_read = Some(vec!["/x".to_string()]);
    assert_eq!(check_legacy_landlock(&cli, true), Err(LaunchError::CustomPoliciesNeedBubblewrap));
    assert!(check_legacy_landlock(&cli, false).is_ok());
}

// ── proxy, environment, command, exit code ──

#[test]
fn proxy_only_with_filters() {
    let mut cli = cli_defaults();
    assert!(proxy_domains(&cli).is_none());
    cli.allow_net = Some(vec![]);
    assert!(proxy_domains(&cli).is_none());
    cli.deny_net = Some(vec!["bad.com".to_string()]);
    let p = proxy_domains(&cli).expect("proxy");
    assert_eq!(p.allowed, vec!["*".to_string()]);
    assert_eq!(p.denied, Some(vec!["bad.com".to_string()]));
    cli.allow_net = Some(vec!["example.com".to_string()]);
    cli.deny_net = None;
    let p = proxy_domains(&cli).expect("proxy");
    assert_eq!(p.allowed, vec!["example.com".to_string()]);
    assert!(p.denied.is_none());
}

#[test]
fn proxy_domain_combinations() {
    // deny alone, without --allow-net: no network, so no proxy
    let mut cli = cli_defaults();
    cli.deny_net = Some(vec!["bad.com".to_string()]);
    assert!(proxy_domains(&cli).is_none());
    // allow and deny together: both lists are passed on, in order
    cli.allow_net = Some(vec!["*.example.com".to_string(), "api.test".to_string()]);
    cli.deny_net = Some(vec!["evil.example.com".to_string(), "bad.com".to_string()]);
    let p = proxy_domains(&cli).expect("proxy");
    assert_eq!(p.allowed, vec!["*.example.com".to_string(), "api.test".to_string()]);
    assert_eq!(p.denied, Some(vec!["evil.example.com".to_string(), "bad.com".to_string()]));
    // a wildcard allow list is kept as written
    cli.allow_net = Some(vec!["*".to_string()]);
    cli.deny_net = None;
    let p = proxy_domains(&cli).expect("proxy");
    assert_eq!(p.allowed, vec!["*".to_string()]);
    assert!(p.denied.is_none());
    // bare --allow-net with an empty deny list still filters, allowing all
    cli.allow_net = Some(vec![]);
    cli.deny_net = Some(vec![]);
    let p = proxy_domains(&cli).expect("proxy");
    assert_eq!(p.allowed, vec!["*".to_string()]);
    assert_eq!(p.denied, Some(Vec::new()));
}

#[test]
fn child_env_extras() {
    let env = extra_child_env(false, None);
    assert_eq!(env, vec![("CODEX_SANDBOX_NETWORK_DISABLED".to_string(), "1".to_string())]);
    let env = extra_child_env(true, Some("/ca.pem"));
    assert_eq!(env.len(), 6);
    assert_eq!(env[0], ("CURL_CA_BUNDLE".to_string(), "/ca.pem".to_string()));
    assert_eq!(env[5], ("GIT_SSL_CAINFO".to_string(), "/ca.pem".to_string()));
}

#[test]
fn command_split() {
    let (prog, args) = split_command(&vec!["node".to_string(), "-e".to_string(), "1".to_string()]).unwrap();
    assert_eq!(prog, "node");
    assert_eq!(args, vec!["-e".to_string(), "1".to_string()]);
    assert!(split_command(&vec![]).is_none());
}

#[test]
fn exit_codes() {
    assert_eq!(exit_code_for(Some(0), None), 0);
    assert_eq!(exit_code_for(Some(3), Some(9)), 3);
    assert_eq!(exit_code_for(Some(257), None), 1);
    assert_eq!(exit_code_for(None, Some(9)), 137);
    assert_eq!(exit_code_for(None, None), 1);
}
