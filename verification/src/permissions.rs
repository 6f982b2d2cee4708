//! Permission profiles a command may ask for: extra readable and writable
//! paths, and network access; and the Windows sandbox level.
use vstd::prelude::*;

verus! {

/// Extra file-system access.
#[derive(Debug, Clone, PartialEq, Eq)]
pub struct FileSystemPermissions {
    pub read: Option<Vec<String>>,
    pub write: Option<Vec<String>>,
}

impl FileSystemPermissions {
    /// Nothing asked for.
    pub fn default() -> (r: Self)
        ensures
            r.read is None,
            r.write is None,
    {
        FileSystemPermissions { read: None, write: None }
    }

    /// Does the profile ask for nothing?
    pub fn is_empty(&self) -> (r: bool)
        ensures
            r == (self.read is None && self.write is None),
    {
        self.read.is_none() && self.write.is_none()
    }
}

/// Network access asked for.
#[derive(Debug, Clone, Copy, PartialEq, Eq, Structural)]
pub struct NetworkPermissions {
    pub enabled: Option<bool>,
}

impl NetworkPermissions {
    /// Nothing asked for.
    pub fn default() -> (r: Self)
        ensures
            r.enabled is None,
    {
        NetworkPermissions { enabled: None }
    }

    /// Does the profile ask for nothing?
    pub fn is_empty(&self) -> (r: bool)
        ensures
            r == (self.enabled is None),
    {
        self.enabled.is_none()
    }
}

/// Network and file-system permissions together.
#[derive(Debug, Clone, PartialEq, Eq)]
pub struct PermissionProfile {
    pub network: Option<NetworkPermissions>,
    pub file_system: Option<FileSystemPermissions>,
}

impl PermissionProfile {
    /// Nothing asked for.
    pub fn default() -> (r: Self)
        ensures
            r.network is None,
            r.file_system is None,
    {
        PermissionProfile { network: None, file_system: None }
    }

    /// Does the profile ask for nothing?
    pub fn is_empty(&self) -> (r: bool)
        ensures
            r == (self.network is None && self.file_system is None),
    {
        self.network.is_none() && self.file_system.is_none()
    }
}

/// How strongly a command is sandboxed on Windows.
#[derive(Debug, Clone, Copy, PartialEq, Eq, Structural)]
pub enum WindowsSandboxLevel {
    Disabled,
    RestrictedToken,
    Elevated,
}

impl WindowsSandboxLevel {
    /// Disabled.
    pub fn default() -> (r: Self)
        ensures
            r == WindowsSandboxLevel::Disabled,
    {
        WindowsSandboxLevel::Disabled
    }

    /// The kebab-case name of the level.
    pub open spec fn name_spec(self) -> Seq<char> {
        match self {
            WindowsSandboxLevel::Disabled => "disabled"@,
            WindowsSandboxLevel::RestrictedToken => "restricted-token"@,
            WindowsSandboxLevel::Elevated => "elevated"@,
        }
    }

    /// The kebab-case name, as it is printed and serialised.
    pub fn to_string(self) -> (r: String)
        ensures
            r@ == self.name_spec(),
    {
        match self {
            WindowsSandboxLevel::Disabled => String::from_str("disabled"),
            WindowsSandboxLevel::RestrictedToken => String::from_str("restricted-token"),
            WindowsSandboxLevel::Elevated => String::from_str("elevated"),
        }
    }
}

} // verus!
