use std::sync::atomic::AtomicU64;

use zerobox::otel::{global_statsig_metrics_settings, MetricsClient, OtelExporter, OtelProvider, OtelSettings};
use zerobox::permissions::{FileSystemPermissions, NetworkPermissions, PermissionProfile, WindowsSandboxLevel};
use zerobox::rpc::{
    cmd_id_text, command_line, handler_error, invalid_params_error, kill_target, log_entries, next_cmd_id,
    parse_error, parse_signal, read_file_content, read_file_result, route_method, unknown_method_message,
    write_file_content, write_file_params, ExecParams, KillError, KillParams, Route, SignalKind, METHOD_EXEC,
    METHOD_SHELL, VSOCK_GUEST_CID, VSOCK_PORT,
};
use zerobox::sandbox_policy::{
    default_include_platform_defaults, default_read_only_subpaths_for_writable_root, resolve_gitdir_pointer,
    GitEntry, HostFacts, NetworkAccess, ReadOnlyAccess, RootProbe, SandboxPolicy, WritableRoot,
};

#[test]
fn routes_by_method_name() {
    assert_eq!(route_method(METHOD_EXEC), Route::Exec);
    assert_eq!(route_method("exec_detached"), Route::ExecDetached);
    assert_eq!(route_method("stream_logs"), Route::StreamLogs);
    assert_eq!(route_method(METHOD_SHELL), Route::Shell);
    assert_eq!(route_method("health"), Route::Health);
    assert_eq!(route_method("reboot"), Route::Unknown);
    assert_eq!(VSOCK_PORT, 52);
    assert_eq!(VSOCK_GUEST_CID, 3);
}

#[test]
fn rpc_errors() {
    let e = parse_error("expected value");
    assert_eq!(e.code, -32700);
    assert_eq!(e.message, "parse error: expected value");
    let e = invalid_params_error("missing field `cmd_id`");
    assert_eq!(e.code, -32602);
    assert_eq!(e.message, "invalid params: missing field `cmd_id`");
    let e = handler_error("command not found");
    assert_eq!(e.code, -32000);
    assert_eq!(unknown_method_message("reboot"), "unknown method: reboot");
}

#[test]
fn command_ids() {
    assert_eq!(cmd_id_text(1), "cmd_000000000001");
    assert_eq!(cmd_id_text(0xabc), "cmd_000000000abc");
    assert_eq!(cmd_id_text(u64::MAX), "cmd_ffffffffffffffff");
    let counter = AtomicU64::new(1);
    assert_eq!(next_cmd_id(&counter), "cmd_000000000001");
    assert_eq!(next_cmd_id(&counter), "cmd_000000000002");
}

#[test]
fn signals() {
    assert_eq!(parse_signal(None), Some(SignalKind::Terminate));
    assert_eq!(parse_signal(Some("9")), Some(SignalKind::Kill));
    assert_eq!(parse_signal(Some("SIGINT")), Some(SignalKind::Interrupt));
    assert_eq!(parse_signal(Some("SIGQUIT")), Some(SignalKind::Quit));
    assert_eq!(parse_signal(Some("1")), Some(SignalKind::Hangup));
    assert_eq!(parse_signal(Some("SIGUSR1")), None);
    assert_eq!(SignalKind::Kill.number(), 9);
    assert_eq!(SignalKind::Terminate.number(), 15);
}

#[test]
fn kill_decisions() {
    let p = KillParams { cmd_id: "cmd_1".to_string(), signal: None };
    assert_eq!(kill_target(&p, true, Some(42)), Ok((42, SignalKind::Terminate)));
    let e = kill_target(&p, false, Some(42)).unwrap_err();
    assert_eq!(e, KillError::NotRunning("cmd_1".to_string()));
    assert_eq!(e.message(), "command cmd_1 is not running");
    assert_eq!(kill_target(&p, true, None), Err(KillError::NoPid));
    let p = KillParams { cmd_id: "cmd_1".to_string(), signal: Some("SIGFOO".to_string()) };
    let e = kill_target(&p, true, Some(1)).unwrap_err();
    assert_eq!(e.message(), "unsupported signal: SIGFOO");
    assert_eq!(KillError::NotFound.message(), "command not found");
}

#[test]
fn command_lines() {
    let params = ExecParams { cmd: "ls".to_string(), args: vec!["-l".to_string()], cwd: None, env: None, sudo: true };
    let (prog, args) = command_line(&params);
    assert_eq!(prog, "sudo");
    assert_eq!(args, vec!["ls".to_string(), "-l".to_string()]);
    let plain = ExecParams { sudo: false, ..params };
    let (prog, args) = command_line(&plain);
    assert_eq!(prog, "ls");
    assert_eq!(args, vec!["-l".to_string()]);
}

#[test]
fn output_entries() {
    let e = log_entries("out", "");
    assert_eq!(e.len(), 1);
    assert_eq!(e[0].stream, "stdout");
    assert_eq!(e[0].data, "out");
    let e = log_entries("", "err");
    assert_eq!(e[0].stream, "stderr");
    assert!(log_entries("", "").is_empty());
}

#[test]
fn file_contents_roundtrip_through_base64() {
    let params = write_file_params("/tmp/x", b"hello\x00world");
    assert_eq!(params.content, "aGVsbG8Ad29ybGQ=");
    assert_eq!(write_file_content(&params).unwrap(), b"hello\x00world");
    let bad = zerobox::rpc::WriteFileParams { path: "/x".to_string(), content: "***".to_string() };
    assert!(write_file_content(&bad).is_none());
    let r = read_file_result(Some(b"abc"));
    assert!(r.exists);
    assert_eq!(r.content, "YWJj");
    assert_eq!(read_file_content(&r).unwrap(), b"abc");
    let missing = read_file_result(None);
    assert!(!missing.exists);
    assert!(missing.content.is_empty());
}

#[test]
fn permission_profiles() {
    assert!(NetworkPermissions::default().is_empty());
    assert!(!NetworkPermissions { enabled: Some(false) }.is_empty());
    assert!(FileSystemPermissions::default().is_empty());
    assert!(!FileSystemPermissions { read: Some(vec![]), write: None }.is_empty());
    assert!(PermissionProfile::default().is_empty());
    assert!(!PermissionProfile { network: Some(NetworkPermissions::default()), file_system: None }.is_empty());
    assert_eq!(WindowsSandboxLevel::default(), WindowsSandboxLevel::Disabled);
    assert_eq!(WindowsSandboxLevel::RestrictedToken.to_string(), "restricted-token");
}

#[test]
fn telemetry_is_disabled() {
    let settings = OtelSettings {
        environment: "dev".to_string(),
        service_name: "zerobox".to_string(),
        service_version: "0".to_string(),
        codex_home: "/home/u/.zerobox".to_string(),
        exporter: OtelExporter::Disabled,
        trace_exporter: OtelExporter::Disabled,
        metrics_exporter: OtelExporter::Statsig,
        runtime_metrics: false,
        span_attributes: Default::default(),
        tracestate: Default::default(),
    };
    assert!(OtelProvider::from(&settings).unwrap().is_none());
    let provider = OtelProvider {};
    assert!(provider.metrics().is_none());
    provider.shutdown();
    let client = MetricsClient {};
    assert!(client.counter("x", 1, &[("k", "v")]).is_ok());
    client.shutdown();
    assert!(global_statsig_metrics_settings().is_none());
}

fn workspace_policy(exclude_slash_tmp: bool, exclude_tmpdir: bool) -> SandboxPolicy {
    SandboxPolicy::WorkspaceWrite {
        writable_roots: vec!["/data".to_string()],
        read_only_access: ReadOnlyAccess::Restricted {
            include_platform_defaults: true,
            readable_roots: vec!["/usr".to_string(), "/work".to_string()],
        },
        network_access: false,
        exclude_tmpdir_env_var: exclude_tmpdir,
        exclude_slash_tmp,
    }
}

#[test]
fn sandbox_policy_queries() {
    assert!(NetworkAccess::Enabled.is_enabled());
    assert!(!NetworkAccess::default().is_enabled());
    assert!(default_include_platform_defaults());
    let ro = SandboxPolicy::new_read_only_policy();
    assert!(ro.has_full_disk_read_access());
    assert!(!ro.has_full_disk_write_access());
    assert!(!ro.has_full_network_access());
    assert!(!ro.include_platform_defaults());
    assert!(SandboxPolicy::DangerFullAccess.has_full_disk_write_access());
    assert!(SandboxPolicy::ExternalSandbox { network_access: NetworkAccess::Enabled }.has_full_network_access());
    let ws = workspace_policy(false, false);
    assert!(!ws.has_full_disk_read_access());
    assert!(ws.include_platform_defaults());
    assert!(matches!(SandboxPolicy::new_workspace_write_policy(), SandboxPolicy::WorkspaceWrite { .. }));
}

#[test]
fn writable_and_readable_roots() {
    let host = HostFacts { slash_tmp_is_dir: true, tmpdir: Some("/var/tmp/u".to_string()) };
    let ws = workspace_policy(false, false);
    assert_eq!(
        ws.candidate_writable_roots("/work", &host),
        vec!["/data".to_string(), "/work".to_string(), "/tmp".to_string(), "/var/tmp/u".to_string()]
    );
    assert_eq!(
        workspace_policy(true, true).candidate_writable_roots("relative", &host),
        vec!["/data".to_string()]
    );
    assert_eq!(
        ws.get_readable_roots_with_cwd("/work/", &host),
        vec!["/usr".to_string(), "/work".to_string(), "/data".to_string(), "/tmp".to_string(), "/var/tmp/u".to_string()]
    );
    assert!(SandboxPolicy::new_read_only_policy().get_readable_roots_with_cwd("/work", &host).is_empty());
    let roots = vec!["/data".to_string(), "/work".to_string()];
    let probes = vec![
        RootProbe { git: GitEntry::Missing, agents_is_dir: false, codex_is_dir: false },
        RootProbe { git: GitEntry::File { gitdir: Some("/repo/.git/worktrees/w".to_string()) }, agents_is_dir: true, codex_is_dir: false },
    ];
    let w = SandboxPolicy::writable_roots_from("/work", &roots, &probes);
    assert!(w[0].read_only_subpaths.is_empty());
    assert_eq!(
        w[1].read_only_subpaths,
        vec!["/work/.git".to_string(), "/work/.agents".to_string(), "/work/.codex".to_string()]
    );
    assert!(w[1].is_path_writable("/work/src/main.rs"));
    assert!(!w[1].is_path_writable("/work/.git/config"));
    assert!(!w[1].is_path_writable("/elsewhere"));
    let host = HostFacts { slash_tmp_is_dir: false, tmpdir: None };
    let probes = vec![
        RootProbe { git: GitEntry::Dir, agents_is_dir: false, codex_is_dir: false },
        RootProbe { git: GitEntry::Missing, agents_is_dir: false, codex_is_dir: false },
    ];
    let all = ws.get_writable_roots_with_cwd("/work", &host, &probes);
    assert_eq!(all.len(), 2);
    assert_eq!(all[0].root, "/data");
    assert_eq!(all[0].read_only_subpaths, vec!["/data/.git".to_string()]);
    assert_eq!(all[1].root, "/work");
    assert_eq!(all[1].read_only_subpaths, vec!["/work/.codex".to_string()]);
}

#[test]
fn read_only_subpaths_are_deduplicated() {
    let probe = RootProbe { git: GitEntry::Dir, agents_is_dir: false, codex_is_dir: true };
    assert_eq!(
        default_read_only_subpaths_for_writable_root("/w", &probe, true),
        vec!["/w/.git".to_string(), "/w/.codex".to_string()]
    );
    let root = WritableRoot { root: "/w".to_string(), read_only_subpaths: vec![] };
    assert!(root.is_path_writable("/w/x"));
    // every subpath lies under the root
    let probe = RootProbe { git: GitEntry::Dir, agents_is_dir: true, codex_is_dir: true };
    for p in default_read_only_subpaths_for_writable_root("/w/", &probe, false) {
        assert!(p.starts_with("/w/"));
    }
    let pointer = RootProbe { git: GitEntry::File { gitdir: Some("/elsewhere".to_string()) }, agents_is_dir: false, codex_is_dir: false };
    assert_eq!(default_read_only_subpaths_for_writable_root("/w", &pointer, false), vec!["/w/.git".to_string()]);
    let inner = RootProbe { git: GitEntry::File { gitdir: Some("/w/.git-dirs/main".to_string()) }, agents_is_dir: false, codex_is_dir: false };
    assert_eq!(
        default_read_only_subpaths_for_writable_root("/w", &inner, false),
        vec!["/w/.git-dirs/main".to_string(), "/w/.git".to_string()]
    );
}

#[test]
fn gitdir_pointers() {
    assert_eq!(resolve_gitdir_pointer("/w", "gitdir: /repo/.git/worktrees/w\n"), Some("/repo/.git/worktrees/w".to_string()));
    assert_eq!(resolve_gitdir_pointer("/w", "gitdir: ../main/.git"), Some("/w/../main/.git".to_string()));
    assert_eq!(resolve_gitdir_pointer("/w", "no pointer here"), None);
    assert_eq!(resolve_gitdir_pointer("/w", "gitdir:   \n"), None);
}
