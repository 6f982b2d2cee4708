//! The command line of the Firecracker jailer, which isolates a VM process
//! in a chroot, under its own uid/gid and optionally in a network namespace.
use vstd::prelude::*;
use vstd::string::StringExecFns;
use crate::text::{decimal, string_views, u64_to_decimal};

verus! {

/// Configuration for one jailed Firecracker instance.
pub struct JailerConfig {
    /// Unique identifier for this jailed instance.
    pub id: String,
    /// Path to the Firecracker binary.
    pub exec_file: String,
    /// UID to run the jailed process as.
    pub uid: u32,
    /// GID to run the jailed process as.
    pub gid: u32,
    /// Base directory for chroot environments.
    pub chroot_base_dir: String,
    /// Optional network namespace to join.
    pub netns: Option<String>,
}

impl JailerConfig {
    /// The jailer arguments: `--id`, `--exec-file`, `--uid`, `--gid` and
    /// `--chroot-base-dir` with their values, then `--netns` and the
    /// namespace when one is set.
    pub open spec fn args_spec(&self) -> Seq<Seq<char>> {
        let base = seq![
            "--id"@,
            self.id@,
            "--exec-file"@,
            self.exec_file@,
            "--uid"@,
            decimal(self.uid as nat),
            "--gid"@,
            decimal(self.gid as nat),
            "--chroot-base-dir"@,
            self.chroot_base_dir@,
        ];
        match self.netns {
            Some(ns) => base + seq!["--netns"@, ns@],
            None => base,
        }
    }

    /// Builds the command-line arguments for invoking the jailer binary.
    pub fn command_args(&self) -> (r: Vec<String>)
        ensures
            string_views(r@) == self.args_spec(),
    {
        let mut args: Vec<String> = Vec::new();
        args.push(String::from_str("--id"));
        args.push(self.id.clone());
        args.push(String::from_str("--exec-file"));
        args.push(self.exec_file.clone());
        args.push(String::from_str("--uid"));
        args.push(u64_to_decimal(self.uid as u64));
        args.push(String::from_str("--gid"));
        args.push(u64_to_decimal(self.gid as u64));
        args.push(String::from_str("--chroot-base-dir"));
        args.push(self.chroot_base_dir.clone());
        match &self.netns {
            Some(ns) => {
                args.push(String::from_str("--netns"));
                args.push(ns.clone());
            },
            None => {},
        }
        proof {
            assert(string_views(args@) =~= self.args_spec());
        }
        args
    }
}

} // verus!
