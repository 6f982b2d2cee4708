use std::path::PathBuf;
use std::sync::atomic::AtomicU32;

use zerobox::api_routes::{api_base_url, sandbox_action_path, sandbox_path, snapshot_path};
use zerobox::config::{FirecrackerConfig, ImagesConfig, NetworkingConfig, TimeoutsConfig};
use zerobox::guest_client::{connect_line, empty_result_message, handshake_accepted, handshake_error, rpc_error_message, GuestClient};
use zerobox::host_commands::{
    create_bridge_commands, create_tap_commands, delete_bridge_commands, delete_link_args, nat_rule_args,
    no_outbound_interface_message, parse_outbound_interface, port_forward_args, show_link_args,
};
use zerobox::jailer::JailerConfig;
use zerobox::lifecycle::{
    allocate_ip, generate_sandbox_id, generate_snapshot_id, ip_to_counter, sandbox_dir, snapshot_dir,
    snapshot_files, snapshot_metadata_file,
};
use zerobox::network::{allocate_host_port, parse_port_range, tap_name, NetworkManager, PortError};
use zerobox::rpc::RpcError;
use zerobox::sandbox::{extended_timeout, file_not_found, ApiError, IpPool, SandboxError, SnapshotError};
use zerobox::sandbox_plan::{
    boot_args, command_origin, exec_request, image_name, kernel_path, port_map_entries, sandbox_resources,
    snapshot_precondition, track_command, BootStep, CommandInfo, SandboxStatus,
};
use zerobox::vm::{
    api_uri, drive_endpoint, ext4_plan, firecracker_args, network_interface_endpoint, overlay_layout,
    overlay_mount_args, process_files, FirecrackerClient, ImageManager,
};

#[test]
fn test_command_args_without_netns() {
    let config = JailerConfig {
        id: "sbx_abc123".to_string(),
        exec_file: "/usr/local/bin/firecracker".to_string(),
        uid: 1000,
        gid: 1000,
        chroot_base_dir: "/srv/jailer".to_string(),
        netns: None,
    };

    let args = config.command_args();
    assert_eq!(
        args,
        vec![
            "--id",
            "sbx_abc123",
            "--exec-file",
            "/usr/local/bin/firecracker",
            "--uid",
            "1000",
            "--gid",
            "1000",
            "--chroot-base-dir",
            "/srv/jailer",
        ]
    );
}

#[test]
fn test_command_args_with_netns() {
    let config = JailerConfig {
        id: "sbx_abc123".to_string(),
        exec_file: "/usr/local/bin/firecracker".to_string(),
        uid: 1000,
        gid: 1000,
        chroot_base_dir: "/srv/jailer".to_string(),
        netns: Some("/var/run/netns/sbx_abc123".to_string()),
    };

    let args = config.command_args();
    assert!(args.contains(&"--netns".to_string()));
    assert!(args.contains(&"/var/run/netns/sbx_abc123".to_string()));
}

#[test]
fn test_allocate_ip() {
    assert_eq!(allocate_ip(2), "10.20.0.2");
    assert_eq!(allocate_ip(255), "10.20.0.255");
    assert_eq!(allocate_ip(256), "10.20.1.0");
    assert_eq!(allocate_ip(512), "10.20.2.0");
}

#[test]
fn test_ip_to_counter() {
    assert_eq!(ip_to_counter("10.20.0.2"), Some(2));
    assert_eq!(ip_to_counter("10.20.0.255"), Some(255));
    assert_eq!(ip_to_counter("10.20.1.0"), Some(256));
    assert_eq!(ip_to_counter("10.20.2.0"), Some(512));
    assert_eq!(ip_to_counter("192.168.1.1"), None);
}

#[test]
fn ip_to_counter_refuses_octets_above_255() {
    assert_eq!(ip_to_counter("10.20.0.256"), None);
    assert_eq!(ip_to_counter("10.20.256.0"), None);
    assert_eq!(ip_to_counter("10.20.255.255"), Some(65535));
}

#[test]
fn test_ip_roundtrip() {
    for counter in [2, 100, 255, 256, 1000, 65534] {
        let ip = allocate_ip(counter);
        assert_eq!(ip_to_counter(&ip), Some(counter));
    }
}

#[test]
fn test_generate_sandbox_id() {
    let id = generate_sandbox_id();
    assert!(id.starts_with("sbx_"));
    assert_eq!(id.len(), 16); // "sbx_" (4) + 12 hex chars
}

#[test]
fn test_generate_snapshot_id() {
    let id = generate_snapshot_id();
    assert!(id.starts_with("snap_"));
    assert_eq!(id.len(), 17); // "snap_" (5) + 12 hex chars
}

#[test]
fn test_sandbox_dir() {
    let dir = sandbox_dir("/var/lib/zerobox", "sbx_abc123def456");
    assert_eq!(
        PathBuf::from(dir),
        PathBuf::from("/var/lib/zerobox/sandboxes/sbx_abc123def456")
    );
}

#[test]
fn snapshot_directory_layout() {
    assert_eq!(snapshot_dir("/snaps", "snap_1"), "/snaps/snap_1");
    let (state, mem, rootfs) = snapshot_files("/snaps/snap_1");
    assert_eq!(state, "/snaps/snap_1/vm_state.bin");
    assert_eq!(mem, "/snaps/snap_1/mem_file.bin");
    assert_eq!(rootfs, "/snaps/snap_1/rootfs.ext4");
    assert_eq!(snapshot_metadata_file("/snaps/snap_1"), "/snaps/snap_1/metadata.json");
}

#[test]
fn test_allocate_host_port() {
    let counter = AtomicU32::new(0);
    let port = allocate_host_port("30000-40000", &counter).unwrap();
    assert_eq!(port, 30000);
    let port2 = allocate_host_port("30000-40000", &counter).unwrap();
    assert_eq!(port2, 30001);
}

#[test]
fn test_allocate_host_port_invalid() {
    let counter = AtomicU32::new(0);
    assert!(allocate_host_port("invalid", &counter).is_err());
    assert!(allocate_host_port("40000-30000", &counter).is_err());
}

#[test]
fn test_allocate_host_port_exhaustion() {
    let counter = AtomicU32::new(0);
    let port = allocate_host_port("30000-30001", &counter).unwrap();
    assert_eq!(port, 30000);
    let port2 = allocate_host_port("30000-30001", &counter).unwrap();
    assert_eq!(port2, 30001);
    assert!(allocate_host_port("30000-30001", &counter).is_err());
}

#[test]
fn port_range_errors() {
    assert_eq!(parse_port_range("1-2-3"), Err(PortError::InvalidFormat));
    assert_eq!(parse_port_range("x-2"), Err(PortError::InvalidStart));
    assert_eq!(parse_port_range("1-y"), Err(PortError::InvalidEnd));
    assert_eq!(parse_port_range("5-4"), Err(PortError::StartAfterEnd));
    assert_eq!(parse_port_range("4-5"), Ok((4, 5)));
}

#[test]
fn network_manager_hands_out_ports() {
    let nm = NetworkManager::new(NetworkingConfig {
        bridge: "zbr0".to_string(),
        subnet: "10.20.0.0/16".to_string(),
        host_port_range: "31000-31001".to_string(),
        outbound_interface: "eth0".to_string(),
    });
    assert_eq!(nm.next_host_port(), Ok(31000));
    assert_eq!(nm.next_host_port(), Ok(31001));
    assert_eq!(nm.next_host_port(), Err(PortError::Exhausted));
}

#[test]
fn test_tap_name() {
    assert_eq!(tap_name("sbx_abc123def456"), "tap-abc123de");
    assert_eq!(tap_name("sbx_abcd"), "tap-abcd");
}

#[test]
fn ip_pool_reuses_released_addresses() {
    let mut pool = IpPool::new();
    let a = pool.allocate().unwrap();
    let b = pool.allocate().unwrap();
    assert_eq!(a, "10.20.0.2");
    assert_eq!(b, "10.20.0.3");
    pool.release(&a);
    assert_eq!(pool.allocate().unwrap(), "10.20.0.2");
    assert_eq!(pool.allocate().unwrap(), "10.20.0.4");
    pool.release("192.168.0.1");
    assert_eq!(pool.allocate().unwrap(), "10.20.0.5");
}

#[test]
fn ip_pool_hands_out_fresh_addresses_in_order_until_exhausted() {
    let mut pool = IpPool::new();
    for counter in 2u32..=65534 {
        assert_eq!(pool.allocate().unwrap(), allocate_ip(counter));
    }
    assert!(matches!(pool.allocate(), Err(SandboxError::Internal(_))));
    assert!(matches!(pool.allocate(), Err(SandboxError::Internal(_))));
    pool.release("10.20.0.9");
    assert_eq!(pool.allocate().unwrap(), "10.20.0.9");
}

#[test]
fn ip_pool_ignores_out_of_range_octets_on_release() {
    let mut pool = IpPool::new();
    assert_eq!(pool.allocate().unwrap(), "10.20.0.2");
    pool.release("10.20.0.256");
    assert_eq!(pool.allocate().unwrap(), "10.20.0.3");
}

#[test]
fn timeout_extension_is_capped() {
    assert_eq!(extended_timeout(1000, 500, 2000), Ok(1500));
    match extended_timeout(1000, 1500, 2000) {
        Err(SandboxError::InvalidState(m)) => {
            assert_eq!(m, "Timeout would exceed maximum (2500 ms > 2000 ms)")
        }
        other => panic!("unexpected {:?}", other),
    }
}

#[test]
fn api_errors_map_to_statuses() {
    let e = ApiError::from_sandbox_error(SandboxError::NotFound("x".to_string()));
    assert_eq!(e.status_code(), 404);
    assert_eq!(e.message(), "x");
    assert_eq!(ApiError::from_sandbox_error(SandboxError::InvalidState("s".to_string())).status_code(), 400);
    assert_eq!(ApiError::from_snapshot_error(SnapshotError::Internal("i".to_string())).status_code(), 500);
    let nf = file_not_found("/etc/x");
    assert_eq!(nf.status_code(), 404);
    assert_eq!(nf.message(), "File not found: /etc/x");
}

#[test]
fn firecracker_paths_and_endpoints() {
    let client = FirecrackerClient::new("/run/fc.sock");
    assert_eq!(client.socket_path(), "/run/fc.sock");
    assert_eq!(api_uri("/actions"), "http://localhost/actions");
    assert_eq!(drive_endpoint("rootfs"), "/drives/rootfs");
    assert_eq!(network_interface_endpoint("eth0"), "/network-interfaces/eth0");
    let files = process_files("/data/sandboxes/sbx_1");
    assert_eq!(files.socket_path, "/data/sandboxes/sbx_1/firecracker.sock");
    assert_eq!(files.vsock_path, "/data/sandboxes/sbx_1/vsock.sock");
    assert_eq!(files.log_path, "/data/sandboxes/sbx_1/firecracker.log");
    assert_eq!(
        firecracker_args(&files),
        vec![
            "--api-sock",
            "/data/sandboxes/sbx_1/firecracker.sock",
            "--log-path",
            "/data/sandboxes/sbx_1/firecracker.log",
            "--level",
            "Info"
        ]
    );
}

#[test]
fn image_and_overlay_layout() {
    let images = ImageManager::new(ImagesConfig { cache_dir: "/cache".to_string(), prebuilt: vec![] });
    assert_eq!(images.cached_image_path("ubuntu"), "/cache/ubuntu.ext4");
    assert_eq!(images.image_output_dir("ubuntu"), "/cache/ubuntu");
    let layout = overlay_layout("/cache", "sbx_1");
    assert_eq!(layout.upper, "/cache/overlays/sbx_1/upper");
    assert_eq!(layout.merged, "/cache/overlays/sbx_1/merged");
    let args = overlay_mount_args("/base.ext4", &layout);
    assert_eq!(
        args[4],
        "lowerdir=/base.ext4,upperdir=/cache/overlays/sbx_1/upper,workdir=/cache/overlays/sbx_1/work"
    );
    assert_eq!(images.overlay_layout("sbx_1").work, "/cache/overlays/sbx_1/work");
}

#[test]
fn ext4_build_steps() {
    let plan = ext4_plan("/rootfs", "/img/root.ext4", Some("/img"), 512);
    assert_eq!(plan.blank, vec!["if=/dev/zero", "of=/img/root.ext4", "bs=1M", "count=512"]);
    assert_eq!(plan.format, vec!["-F", "/img/root.ext4"]);
    assert_eq!(plan.mount_point, "/img/mnt_tmp");
    assert_eq!(plan.mount, vec!["-o", "loop", "/img/root.ext4", "/img/mnt_tmp"]);
    assert_eq!(plan.copy, vec!["-a", "/rootfs/.", "/img/mnt_tmp"]);
    assert_eq!(plan.unmount, vec!["/img/mnt_tmp"]);
    assert_eq!(ext4_plan("d", "root.ext4", None, 1).mount_point, "/tmp/mnt_tmp");
}

#[test]
fn host_network_commands() {
    assert_eq!(
        port_forward_args(true, 30000, "10.20.0.2", 8080),
        vec!["-t", "nat", "-A", "PREROUTING", "-p", "tcp", "--dport", "30000", "-j", "DNAT", "--to-destination", "10.20.0.2:8080"]
    );
    assert_eq!(port_forward_args(false, 1, "10.20.0.2", 2)[2], "-D");
    assert_eq!(
        nat_rule_args(true, "eth0", "10.20.0.0/16"),
        vec!["-t", "nat", "-A", "POSTROUTING", "-s", "10.20.0.0/16", "-o", "eth0", "-j", "MASQUERADE"]
    );
    let tap = create_tap_commands("tap-1", "zbr0");
    assert_eq!(tap[0], vec!["tuntap", "add", "dev", "tap-1", "mode", "tap"]);
    assert_eq!(tap[1], vec!["link", "set", "tap-1", "master", "zbr0"]);
    assert_eq!(tap[2], vec!["link", "set", "tap-1", "up"]);
    assert_eq!(delete_link_args("tap-1"), vec!["link", "delete", "tap-1"]);
    assert_eq!(show_link_args("zbr0"), vec!["link", "show", "zbr0"]);
    assert_eq!(create_bridge_commands("zbr0")[0], vec!["link", "add", "name", "zbr0", "type", "bridge"]);
    assert_eq!(delete_bridge_commands("zbr0")[1], vec!["link", "delete", "zbr0", "type", "bridge"]);
}

#[test]
fn outbound_interface_from_route() {
    assert_eq!(
        parse_outbound_interface("default via 192.168.1.1 dev wlp3s0 proto dhcp metric 600\n"),
        Some("wlp3s0".to_string())
    );
    assert_eq!(parse_outbound_interface("default via 10.0.0.1 dev"), None);
    assert_eq!(parse_outbound_interface(""), None);
    assert_eq!(
        no_outbound_interface_message("  nothing \n"),
        "Could not find outbound interface in default route: nothing"
    );
}

#[test]
fn route_words_split_on_unicode_white_space() {
    assert_eq!(parse_outbound_interface("default\u{a0}dev\u{3000}eth1\u{2009}x"), Some("eth1".to_string()));
    assert_eq!(parse_outbound_interface("default\u{200b}dev eth2"), None);
    assert_eq!(
        no_outbound_interface_message("\u{85}\u{2028}nothing\u{a0}"),
        "Could not find outbound interface in default route: nothing"
    );
}

#[test]
fn guest_handshake() {
    let g = GuestClient::new("/sb/vsock.sock");
    assert_eq!(g.socket_path(), "/sb/vsock.sock");
    let first = g.next_request_id();
    assert_eq!(g.next_request_id(), first + 1);
    assert_eq!(connect_line(), "CONNECT 52\n");
    assert!(handshake_accepted("OK 1073741824\n"));
    assert!(!handshake_accepted("ERR\n"));
    assert_eq!(
        handshake_error(" nope \n"),
        "Vsock CONNECT handshake failed. Expected 'OK ...', got: 'nope'"
    );
    let e = RpcError { code: -32000, message: "boom".to_string() };
    assert_eq!(rpc_error_message(&e), "Guest agent RPC error (code -32000): boom");
    assert_eq!(empty_result_message("exec"), "Guest agent returned empty result for method 'exec'");
}

#[test]
fn daemon_api_routes() {
    assert_eq!(api_base_url("http://127.0.0.1:7000//"), "http://127.0.0.1:7000/v1");
    assert_eq!(sandbox_path("sbx_1"), "/sandboxes/sbx_1");
    assert_eq!(sandbox_action_path("sbx_1", "stop"), "/sandboxes/sbx_1/stop");
    assert_eq!(snapshot_path("snap_1"), "/snapshots/snap_1");
}

#[test]
fn sandbox_creation_decisions() {
    let fc = FirecrackerConfig {
        binary: "firecracker".to_string(),
        jailer: "jailer".to_string(),
        default_kernel: "vmlinux".to_string(),
        default_vcpus: 2,
        default_memory_mib: 512,
    };
    let timeouts = TimeoutsConfig { default_sandbox_timeout_ms: 60_000, max_sandbox_timeout_ms: 600_000 };
    assert_eq!(sandbox_resources(None, Some(1024), None, &fc, &timeouts), (2, 1024, 60_000));
    assert_eq!(sandbox_resources(Some(4), None, Some(5), &fc, &timeouts), (4, 512, 5));
    assert_eq!(image_name(true, Some("ubuntu")), "ubuntu");
    assert_eq!(image_name(false, Some("ubuntu")), "default");
    assert_eq!(image_name(true, None), "default");
    assert_eq!(
        port_map_entries(&vec![(30000, 80)], &vec![80, 443]),
        vec![("80".to_string(), "30000".to_string())]
    );
    assert_eq!(
        port_map_entries(&vec![], &vec![8080]),
        vec![("8080".to_string(), "8080".to_string())]
    );
    assert_eq!(kernel_path("/data", "vmlinux", "aarch64"), "/data/kernels/vmlinux-aarch64");
    assert_eq!(kernel_path("/data", "vmlinux", "x86_64"), "/data/kernels/vmlinux-x86_64");
    assert_eq!(kernel_path("/data", "vmlinux", "riscv64"), "/data/kernels/vmlinux-x86_64");
    assert_eq!(boot_args(), "console=ttyS0 reboot=k panic=1 pci=off");
    assert_eq!(BootStep::Drives.failure_message("boom"), "Failed to set drives: boom");
    assert_eq!(BootStep::Vsock.next(), Some(BootStep::Start));
    assert_eq!(BootStep::Start.next(), None);
}

#[test]
fn snapshot_needs_a_live_sandbox() {
    assert!(snapshot_precondition("sbx_1", SandboxStatus::Running).is_ok());
    assert!(snapshot_precondition("sbx_1", SandboxStatus::Pending).is_ok());
    match snapshot_precondition("sbx_1", SandboxStatus::Stopped) {
        Err(SandboxError::InvalidState(m)) => assert_eq!(m, "Sandbox sbx_1 is not running (status: Stopped)"),
        other => panic!("unexpected {:?}", other),
    }
}

#[test]
fn command_tracking() {
    let (params, cwd) = exec_request("ls".to_string(), None, None, None, None);
    assert_eq!(params.cmd, "ls");
    assert!(params.args.is_empty());
    assert!(!params.sudo);
    assert_eq!(cwd, "/");
    let info = CommandInfo {
        cmd_id: "cmd_000000000001".to_string(),
        exit_code: None,
        started_at: 7,
        cwd: "/work".to_string(),
        stdout: None,
        stderr: None,
    };
    let mut state = track_command(info.clone());
    assert!(state.running);
    state.observe_exit(None);
    assert!(state.running);
    state.observe_exit(Some(3));
    assert!(!state.running);
    assert_eq!(state.info.exit_code, Some(3));
    assert_eq!(command_origin(Some(&info), 99), (7, "/work".to_string()));
    assert_eq!(command_origin(None, 99), (99, "/".to_string()));
}
