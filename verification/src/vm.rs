//! The files and command lines around one Firecracker VM: its API socket
//! and endpoints, the process's own files and arguments, the image cache,
//! the overlay layout and the steps that build an ext4 image. Running the
//! commands and talking to the sockets is the caller's part.
use vstd::prelude::*;
use vstd::string::StringExecFns;
use crate::config::ImagesConfig;
use crate::paths::{join_path, join_spec};
use crate::text::{decimal, string_views, u64_to_decimal};

verus! {

/// A client of one VM's Firecracker API socket.
pub struct FirecrackerClient {
    socket_path: String,
}

impl FirecrackerClient {
    /// The client of the API socket at `socket_path`.
    pub fn new(socket_path: &str) -> (r: Self)
        ensures
            r.socket()@ == socket_path@,
    {
        FirecrackerClient { socket_path: String::from_str(socket_path) }
    }

    /// The API socket.
    pub closed spec fn socket(&self) -> String {
        self.socket_path
    }

    /// The API socket.
    pub fn socket_path(&self) -> (r: &String)
        ensures
            *r == self.socket(),
    {
        &self.socket_path
    }
}

/// The URI of an API path on the socket's HTTP server.
pub fn api_uri(path: &str) -> (r: String)
    ensures
        r@ == "http://localhost"@ + path@,
{
    let mut u = String::from_str("http://localhost");
    u.append(path);
    u
}

/// The endpoint that configures a drive.
pub fn drive_endpoint(drive_id: &str) -> (r: String)
    ensures
        r@ == "/drives/"@ + drive_id@,
{
    let mut u = String::from_str("/drives/");
    u.append(drive_id);
    u
}

/// The endpoint that configures a network interface.
pub fn network_interface_endpoint(iface_id: &str) -> (r: String)
    ensures
        r@ == "/network-interfaces/"@ + iface_id@,
{
    let mut u = String::from_str("/network-interfaces/");
    u.append(iface_id);
    u
}

/// The files of one Firecracker process in its sandbox directory.
#[derive(Debug, Clone)]
pub struct ProcessFiles {
    pub socket_path: String,
    pub vsock_path: String,
    pub log_path: String,
}

/// The API socket, the vsock socket and the log of the VM in `sandbox_dir`.
pub fn process_files(sandbox_dir: &str) -> (r: ProcessFiles)
    ensures
        r.socket_path@ == join_spec(sandbox_dir@, "firecracker.sock"@),
        r.vsock_path@ == join_spec(sandbox_dir@, "vsock.sock"@),
        r.log_path@ == join_spec(sandbox_dir@, "firecracker.log"@),
{
    ProcessFiles {
        socket_path: join_path(sandbox_dir, "firecracker.sock"),
        vsock_path: join_path(sandbox_dir, "vsock.sock"),
        log_path: join_path(sandbox_dir, "firecracker.log"),
    }
}

/// The arguments Firecracker is started with.
pub fn firecracker_args(files: &ProcessFiles) -> (r: Vec<String>)
    ensures
        string_views(r@) == seq!["--api-sock"@, files.socket_path@, "--log-path"@, files.log_path@, "--level"@, "Info"@],
{
    let mut v: Vec<String> = Vec::new();
    v.push(String::from_str("--api-sock"));
    v.push(files.socket_path.clone());
    v.push(String::from_str("--log-path"));
    v.push(files.log_path.clone());
    v.push(String::from_str("--level"));
    v.push(String::from_str("Info"));
    proof {
        assert(string_views(v@) =~= seq!["--api-sock"@, files.socket_path@, "--log-path"@, files.log_path@, "--level"@, "Info"@]);
    }
    v
}

/// Finds root filesystem images.
pub struct ImageManager {
    config: ImagesConfig,
}

impl ImageManager {
    /// A manager over the configured cache.
    pub fn new(config: ImagesConfig) -> (r: Self)
        ensures
            r.cache_dir() == config.cache_dir@,
    {
        ImageManager { config }
    }

    /// The cache directory.
    pub closed spec fn cache_dir(&self) -> Seq<char> {
        self.config.cache_dir@
    }

    /// Where a pre-built image would be cached: `<cache>/<image>.ext4`.
    pub fn cached_image_path(&self, image: &str) -> (r: String)
        ensures
            r@ == join_spec(self.cache_dir(), image@ + ".ext4"@),
    {
        let mut name = String::from_str(image);
        name.append(".ext4");
        join_path(self.config.cache_dir.as_str(), name.as_str())
    }

    /// Where a pulled image is unpacked: `<cache>/<image>`.
    pub fn image_output_dir(&self, image: &str) -> (r: String)
        ensures
            r@ == join_spec(self.cache_dir(), image@),
    {
        join_path(self.config.cache_dir.as_str(), image)
    }

    /// The overlay of a sandbox lives under the cache directory.
    pub fn overlay_layout(&self, sandbox_id: &str) -> (r: OverlayLayout)
        ensures
            r.base@ == overlay_base_spec(self.cache_dir(), sandbox_id@),
            r.upper@ == join_spec(overlay_base_spec(self.cache_dir(), sandbox_id@), "upper"@),
            r.work@ == join_spec(overlay_base_spec(self.cache_dir(), sandbox_id@), "work"@),
            r.merged@ == join_spec(overlay_base_spec(self.cache_dir(), sandbox_id@), "merged"@),
    {
        overlay_layout(self.config.cache_dir.as_str(), sandbox_id)
    }
}

/// The directories of a sandbox's overlay.
#[derive(Debug, Clone)]
pub struct OverlayLayout {
    pub base: String,
    pub upper: String,
    pub work: String,
    pub merged: String,
}

/// The overlay directory of a sandbox: `overlays/<id>` under the work
/// directory.
pub open spec fn overlay_base_spec(work_dir: Seq<char>, sandbox_id: Seq<char>) -> Seq<char> {
    join_spec(join_spec(work_dir, "overlays"@), sandbox_id)
}

/// The overlay directories of a sandbox.
pub fn overlay_layout(work_dir: &str, sandbox_id: &str) -> (r: OverlayLayout)
    ensures
        r.base@ == overlay_base_spec(work_dir@, sandbox_id@),
        r.upper@ == join_spec(overlay_base_spec(work_dir@, sandbox_id@), "upper"@),
        r.work@ == join_spec(overlay_base_spec(work_dir@, sandbox_id@), "work"@),
        r.merged@ == join_spec(overlay_base_spec(work_dir@, sandbox_id@), "merged"@),
{
    let overlays = join_path(work_dir, "overlays");
    let base = join_path(overlays.as_str(), sandbox_id);
    let upper = join_path(base.as_str(), "upper");
    let work = join_path(base.as_str(), "work");
    let merged = join_path(base.as_str(), "merged");
    OverlayLayout { base, upper, work, merged }
}

/// The overlay mount options: the base image read-only below, the upper
/// layer and the work directory.
pub fn overlay_mount_options(lower: &str, layout: &OverlayLayout) -> (r: String)
    ensures
        r@ == "lowerdir="@ + lower@ + ",upperdir="@ + layout.upper@ + ",workdir="@ + layout.work@,
{
    let mut o = String::from_str("lowerdir=");
    o.append(lower);
    o.append(",upperdir=");
    o.append(layout.upper.as_str());
    o.append(",workdir=");
    o.append(layout.work.as_str());
    o
}

/// The arguments of the `mount` that assembles the overlay.
pub fn overlay_mount_args(lower: &str, layout: &OverlayLayout) -> (r: Vec<String>)
    ensures
        string_views(r@) == seq!["-t"@, "overlay"@, "overlay"@, "-o"@,
            "lowerdir="@ + lower@ + ",upperdir="@ + layout.upper@ + ",workdir="@ + layout.work@, layout.merged@],
{
    let mut v: Vec<String> = Vec::new();
    v.push(String::from_str("-t"));
    v.push(String::from_str("overlay"));
    v.push(String::from_str("overlay"));
    v.push(String::from_str("-o"));
    v.push(overlay_mount_options(lower, layout));
    v.push(layout.merged.clone());
    proof {
        assert(string_views(v@) =~= seq!["-t"@, "overlay"@, "overlay"@, "-o"@,
            "lowerdir="@ + lower@ + ",upperdir="@ + layout.upper@ + ",workdir="@ + layout.work@, layout.merged@]);
    }
    v
}

/// The steps that build an ext4 image of a directory: the commands, each
/// with its arguments, in order; and the mount point used in between.
#[derive(Debug, Clone)]
pub struct Ext4Plan {
    /// `dd if=/dev/zero of=<image> bs=1M count=<size>`: a blank file.
    pub blank: Vec<String>,
    /// `mkfs.ext4 -F <image>`: the file system.
    pub format: Vec<String>,
    /// Where the image is mounted while it is filled.
    pub mount_point: String,
    /// `mount -o loop <image> <mount point>`.
    pub mount: Vec<String>,
    /// `cp -a <dir>/. <mount point>`: the contents.
    pub copy: Vec<String>,
    /// `umount <mount point>`.
    pub unmount: Vec<String>,
}

/// The mount point next to the image: `mnt_tmp` in the image's directory,
/// or `/tmp/mnt_tmp` when the image has no parent.
pub open spec fn ext4_mount_point(image_parent: Option<Seq<char>>) -> Seq<char> {
    match image_parent {
        Some(p) => join_spec(p, "mnt_tmp"@),
        None => join_spec("/tmp"@, "mnt_tmp"@),
    }
}

/// The steps that turn `dir` into an ext4 image of `size_mib` MiB at
/// `image`, whose parent directory is `image_parent`.
pub fn ext4_plan(dir: &str, image: &str, image_parent: Option<&str>, size_mib: u32) -> (r: Ext4Plan)
    ensures
        string_views(r.blank@) == seq!["if=/dev/zero"@, "of="@ + image@, "bs=1M"@, "count="@ + decimal(size_mib as nat)],
        string_views(r.format@) == seq!["-F"@, image@],
        r.mount_point@ == ext4_mount_point(match image_parent { Some(p) => Some(p@), None => None }),
        string_views(r.mount@) == seq!["-o"@, "loop"@, image@, r.mount_point@],
        string_views(r.copy@) == seq!["-a"@, dir@ + "/."@, r.mount_point@],
        string_views(r.unmount@) == seq![r.mount_point@],
{
    let mut blank: Vec<String> = Vec::new();
    blank.push(String::from_str("if=/dev/zero"));
    let mut of = String::from_str("of=");
    of.append(image);
    blank.push(of);
    blank.push(String::from_str("bs=1M"));
    let mut count = String::from_str("count=");
    count.append(u64_to_decimal(size_mib as u64).as_str());
    blank.push(count);
    let mut format: Vec<String> = Vec::new();
    format.push(String::from_str("-F"));
    format.push(String::from_str(image));
    let mount_point = match image_parent {
        Some(p) => join_path(p, "mnt_tmp"),
        None => join_path("/tmp", "mnt_tmp"),
    };
    let mut mount: Vec<String> = Vec::new();
    mount.push(String::from_str("-o"));
    mount.push(String::from_str("loop"));
    mount.push(String::from_str(image));
    mount.push(mount_point.clone());
    let mut copy: Vec<String> = Vec::new();
    copy.push(String::from_str("-a"));
    let mut src = String::from_str(dir);
    src.append("/.");
    copy.push(src);
    copy.push(mount_point.clone());
    let mut unmount: Vec<String> = Vec::new();
    unmount.push(mount_point.clone());
    proof {
        assert(string_views(blank@) =~= seq!["if=/dev/zero"@, "of="@ + image@, "bs=1M"@, "count="@ + decimal(size_mib as nat)]);
        assert(string_views(format@) =~= seq!["-F"@, image@]);
        assert(string_views(mount@) =~= seq!["-o"@, "loop"@, image@, mount_point@]);
        assert(string_views(copy@) =~= seq!["-a"@, dir@ + "/."@, mount_point@]);
        assert(string_views(unmount@) =~= seq![mount_point@]);
    }
    Ext4Plan { blank, format, mount_point, mount, copy, unmount }
}

} // verus!
