use zerobox::api_routes::{check_get_sandbox, check_response, create_sandbox_body, shell_failed_message, DaemonClient};
use zerobox::config::{
    AuthConfig, Config, FirecrackerConfig, ImagesConfig, NetworkingConfig, SnapshotsConfig, TimeoutsConfig,
};
use zerobox::daemon_cli::{
    check_connectable, configured_outbound_interface, pad_right, passed_exit_code, prompt, sandbox_header, sandbox_row,
    snapshot_header, snapshot_row,
};
use zerobox::registry::Registry;
use zerobox::sandbox::{SandboxError, SnapshotError};
use zerobox::sandbox_manager::{SandboxFiles, SandboxManager};
use zerobox::sandbox_plan::{port_map_entries, CommandInfo, SandboxStatus};
use zerobox::snapshot_catalog::{snapshot_info, SnapshotManager, SnapshotStatus};

fn config() -> Config {
    Config {
        listen: "127.0.0.1:7000".to_string(),
        data_dir: "/var/lib/zerobox".to_string(),
        log_level: "info".to_string(),
        firecracker: FirecrackerConfig {
            binary: "/usr/bin/firecracker".to_string(),
            jailer: "/usr/bin/jailer".to_string(),
            default_kernel: "vmlinux".to_string(),
            default_vcpus: 2,
            default_memory_mib: 512,
        },
        networking: NetworkingConfig {
            bridge: "zbr0".to_string(),
            subnet: "10.20.0.0/16".to_string(),
            host_port_range: "30000-40000".to_string(),
            outbound_interface: "eth0".to_string(),
        },
        timeouts: TimeoutsConfig { default_sandbox_timeout_ms: 300_000, max_sandbox_timeout_ms: 3_600_000 },
        snapshots: SnapshotsConfig {
            storage_dir: "/var/lib/zerobox/snapshots".to_string(),
            max_snapshots_per_sandbox: 10,
            auto_snapshot_interval_ms: 0,
        },
        images: ImagesConfig { cache_dir: "/var/lib/zerobox/images".to_string(), prebuilt: Vec::new() },
        auth: AuthConfig { enabled: false, tokens: Vec::new() },
    }
}

fn files(dir: &str) -> SandboxFiles {
    SandboxFiles {
        socket_path: format!("{dir}/firecracker.sock"),
        rootfs_path: format!("{dir}/rootfs.ext4"),
        log_path: format!("{dir}/firecracker.log"),
        vsock_path: format!("{dir}/vsock.sock"),
    }
}

#[test]
fn registry_insert_get_remove() {
    let mut r: Registry<u32> = Registry::new();
    assert!(!r.contains("a"));
    r.insert("a".to_string(), 1);
    r.insert("b".to_string(), 2);
    r.insert("a".to_string(), 3);
    assert_eq!(r.get("a"), Some(&3));
    assert_eq!(r.get("b"), Some(&2));
    assert_eq!(r.entries().len(), 2);
    assert_eq!(r.remove("a"), Some(3));
    assert_eq!(r.remove("a"), None);
    assert!(r.get("a").is_none());
    assert_eq!(r.entries().len(), 1);
}

#[test]
fn published_ports_keep_one_host_port_per_guest_port() {
    let forwards = port_map_entries(&vec![(30001, 8080), (30002, 9090), (30003, 8080)], &vec![8080, 9090]);
    assert_eq!(
        forwards,
        vec![("8080".to_string(), "30003".to_string()), ("9090".to_string(), "30002".to_string())]
    );
    let fallback = port_map_entries(&Vec::new(), &vec![22, 80, 22]);
    assert_eq!(fallback, vec![("22".to_string(), "22".to_string()), ("80".to_string(), "80".to_string())]);
    assert!(port_map_entries(&Vec::new(), &Vec::new()).is_empty());
}

#[test]
fn sandbox_create_get_list() {
    let mut m: SandboxManager<u32> = SandboxManager::new(config());
    let ip = m.allocate_ip().unwrap();
    assert_eq!(ip, "10.20.0.2");
    let info = m.create(
        "sbx_1".to_string(),
        ip.clone(),
        "2024-01-01T00:00:00Z".to_string(),
        300_000,
        &vec![8080],
        vec![(30001, 8080)],
        files("/d/sbx_1"),
        Some(42),
    );
    assert_eq!(info.status, SandboxStatus::Running);
    assert_eq!(info.ip.as_deref(), Some("10.20.0.2"));
    assert_eq!(info.ports, vec![("8080".to_string(), "30001".to_string())]);
    let got = m.get("sbx_1").unwrap();
    assert_eq!(got.sandbox_id, "sbx_1");
    assert_eq!(got.timeout, 300_000);
    let ip2 = m.allocate_ip().unwrap();
    let failed = m.create(
        "sbx_2".to_string(),
        ip2,
        "2024-01-01T00:00:01Z".to_string(),
        1000,
        &vec![22],
        Vec::new(),
        files("/d/sbx_2"),
        None,
    );
    assert_eq!(failed.status, SandboxStatus::Failed);
    assert_eq!(failed.ports, vec![("22".to_string(), "22".to_string())]);
    let mut ids: Vec<String> = m.list().into_iter().map(|i| i.sandbox_id).collect();
    ids.sort();
    assert_eq!(ids, vec!["sbx_1".to_string(), "sbx_2".to_string()]);
    match m.get("sbx_9") {
        Err(SandboxError::NotFound(id)) => assert_eq!(id, "sbx_9"),
        other => panic!("unexpected {:?}", other.map(|i| i.sandbox_id)),
    }
}

#[test]
fn sandbox_stop_and_destroy() {
    let mut m: SandboxManager<u32> = SandboxManager::new(config());
    let ip = m.allocate_ip().unwrap();
    m.create("sbx_1".to_string(), ip, "t".to_string(), 10, &Vec::new(), Vec::new(), files("/d"), Some(7));
    let (info, process) = m.stop("sbx_1").unwrap();
    assert_eq!(info.status, SandboxStatus::Stopped);
    assert_eq!(process, Some(7));
    let (again, none) = m.stop("sbx_1").unwrap();
    assert_eq!(again.status, SandboxStatus::Stopped);
    assert_eq!(none, None);
    let state = m.destroy("sbx_1").unwrap();
    assert_eq!(state.guest_ip, "10.20.0.2");
    assert!(matches!(m.get("sbx_1"), Err(SandboxError::NotFound(_))));
    assert!(matches!(m.destroy("sbx_1"), Err(SandboxError::NotFound(_))));
    // the address goes back to the pool and is handed out again
    assert_eq!(m.allocate_ip().unwrap(), "10.20.0.2");
    assert_eq!(m.allocate_ip().unwrap(), "10.20.0.3");
}

#[test]
fn sandbox_commands_are_tracked() {
    let mut m: SandboxManager<u32> = SandboxManager::new(config());
    let ip = m.allocate_ip().unwrap();
    m.create("sbx_1".to_string(), ip, "t".to_string(), 10, &Vec::new(), Vec::new(), files("/d"), None);
    assert_eq!(m.vsock_path("sbx_1").unwrap(), "/d/vsock.sock");
    let info = CommandInfo {
        cmd_id: "cmd_000000000001".to_string(),
        exit_code: None,
        started_at: 5,
        cwd: "/work".to_string(),
        stdout: None,
        stderr: None,
    };
    m.record_command("sbx_1", info);
    let (sock, known) = m.command_lookup("sbx_1", "cmd_000000000001").unwrap();
    assert_eq!(sock, "/d/vsock.sock");
    let known = known.unwrap();
    assert_eq!(known.started_at, 5);
    assert_eq!(known.cwd, "/work");
    assert_eq!(known.exit_code, None);
    m.observe_command_exit("sbx_1", "cmd_000000000001", Some(0));
    let (_, known) = m.command_lookup("sbx_1", "cmd_000000000001").unwrap();
    assert_eq!(known.unwrap().exit_code, Some(0));
    let (_, unknown) = m.command_lookup("sbx_1", "cmd_000000000002").unwrap();
    assert!(unknown.is_none());
    assert!(matches!(m.command_lookup("sbx_2", "x"), Err(SandboxError::NotFound(_))));
}

#[test]
fn sandbox_timeout_extension() {
    let mut m: SandboxManager<u32> = SandboxManager::new(config());
    let ip = m.allocate_ip().unwrap();
    m.create("sbx_1".to_string(), ip, "t".to_string(), 3_000_000, &Vec::new(), Vec::new(), files("/d"), None);
    assert!(m.extend_timeout("sbx_1", 600_000).is_ok());
    assert_eq!(m.get("sbx_1").unwrap().timeout, 3_600_000);
    match m.extend_timeout("sbx_1", 1) {
        Err(SandboxError::InvalidState(msg)) => {
            assert_eq!(msg, "Timeout would exceed maximum (3600001 ms > 3600000 ms)")
        }
        other => panic!("unexpected {:?}", other),
    }
    assert_eq!(m.get("sbx_1").unwrap().timeout, 3_600_000);
    assert!(matches!(m.extend_timeout("sbx_2", 1), Err(SandboxError::NotFound(_))));
}

#[test]
fn sandbox_snapshot_rules() {
    let mut m: SandboxManager<u32> = SandboxManager::new(config());
    let ip = m.allocate_ip().unwrap();
    m.create("sbx_1".to_string(), ip, "t".to_string(), 10, &Vec::new(), Vec::new(), files("/d"), Some(9));
    assert_eq!(m.snapshot_source("sbx_1").unwrap(), "/d/firecracker.sock");
    assert_eq!(m.finish_snapshot("sbx_1"), Some(9));
    assert_eq!(m.get("sbx_1").unwrap().status, SandboxStatus::Stopped);
    match m.snapshot_source("sbx_1") {
        Err(SandboxError::InvalidState(msg)) => assert_eq!(msg, "Sandbox sbx_1 is not running (status: Stopped)"),
        other => panic!("unexpected {:?}", other),
    }
    assert!(matches!(m.snapshot_source("sbx_2"), Err(SandboxError::NotFound(_))));
}

#[test]
fn snapshot_catalog_lifecycle() {
    let mut c = SnapshotManager::new(config());
    let info = snapshot_info("sbx_1", "snap_0123456789ab", "2024-01-01T00:00:00Z");
    let answered = c.create(info);
    assert_eq!(answered.snapshot_id, "snap_0123456789ab");
    assert_eq!(answered.source_sandbox_id, "sbx_1");
    assert_eq!(answered.status, SnapshotStatus::Created);
    assert_eq!(c.get("snap_0123456789ab").unwrap().created_at, "2024-01-01T00:00:00Z");
    assert_eq!(c.list().len(), 1);
    assert_eq!(c.delete("snap_0123456789ab").unwrap(), "/var/lib/zerobox/snapshots/snap_0123456789ab");
    match c.get("snap_0123456789ab") {
        Err(SnapshotError::NotFound(id)) => assert_eq!(id, "snap_0123456789ab"),
        _ => panic!("snapshot still there"),
    }
    assert!(matches!(c.delete("snap_0123456789ab"), Err(SnapshotError::NotFound(_))));
    assert!(c.list().is_empty());
}

#[test]
fn daemon_client_requests() {
    let client = DaemonClient::new("http://127.0.0.1:7000/");
    assert_eq!(client.base_url(), "http://127.0.0.1:7000/v1");
    assert_eq!(client.url("/sandboxes"), "http://127.0.0.1:7000/v1/sandboxes");
    let body = create_sandbox_body(Some("python"), None, Some(1024), Some(60_000), &[8080, 9090]);
    assert_eq!(body.source_image.as_deref(), Some("python"));
    assert_eq!(body.resources, Some((None, Some(1024))));
    assert_eq!(body.timeout, Some(60_000));
    assert_eq!(body.ports, Some(vec![8080, 9090]));
    let bare = create_sandbox_body(None, None, None, None, &[]);
    assert!(bare.source_image.is_none());
    assert!(bare.resources.is_none());
    assert!(bare.timeout.is_none());
    assert!(bare.ports.is_none());
}

#[test]
fn daemon_client_responses() {
    assert_eq!(check_response(201, None, ""), Ok(()));
    assert_eq!(check_response(400, Some("bad"), "{}"), Err("bad".to_string()));
    assert_eq!(
        check_response(500, None, "{\"raw\":\"oops\"}"),
        Err("HTTP 500 \u{2014} {\"raw\":\"oops\"}".to_string())
    );
    assert_eq!(check_get_sandbox(404, "sbx_1"), Err("Sandbox not found: sbx_1".to_string()));
    assert_eq!(check_get_sandbox(500, "sbx_1"), Ok(()));
    assert_eq!(shell_failed_message("no pty"), "Shell failed: no pty");
}

#[test]
fn daemon_cli_tables() {
    assert_eq!(pad_right("ab", 4), "ab  ");
    assert_eq!(pad_right("abcdef", 4), "abcdef");
    assert_eq!(pad_right("\u{e9}", 2), "\u{e9} ");
    assert_eq!(sandbox_header(), format!("{:<20} {:<10} {:<16} CREATED", "ID", "STATUS", "IP"));
    assert_eq!(
        sandbox_row("sbx_0123456789ab", "running", "10.20.0.2", "2024-01-01"),
        format!("{:<20} {:<10} {:<16} {}", "sbx_0123456789ab", "running", "10.20.0.2", "2024-01-01")
    );
    assert_eq!(snapshot_header(), format!("{:<20} {:<20} {:<10} CREATED", "ID", "SOURCE", "STATUS"));
    assert_eq!(
        snapshot_row("snap_1", "sbx_1", "created", "t"),
        format!("{:<20} {:<20} {:<10} {}", "snap_1", "sbx_1", "created", "t")
    );
}

#[test]
fn daemon_cli_checks() {
    assert_eq!(check_connectable("sbx_1", "running"), Ok(()));
    assert_eq!(
        check_connectable("sbx_1", "stopped"),
        Err("Sandbox sbx_1 is not running (status: stopped)".to_string())
    );
    assert_eq!(prompt("sbx_0123456789ab"), "zerobox:01234567$ ");
    assert_eq!(prompt("sbx_12"), "zerobox:12$ ");
    assert_eq!(prompt("sbx_"), "zerobox:$ ");
    assert_eq!(prompt("sbx_\u{e9}\u{e9}\u{e9}\u{e9}\u{e9}"), "zerobox:\u{e9}\u{e9}\u{e9}\u{e9}$ ");
    assert_eq!(passed_exit_code(Some(3)), Some(3));
    assert_eq!(passed_exit_code(Some(0)), None);
    assert_eq!(passed_exit_code(None), None);
    assert_eq!(configured_outbound_interface("auto"), None);
    assert_eq!(configured_outbound_interface("eth1"), Some("eth1".to_string()));
}
