//! Mounts of host paths, named volumes and tmpfs into a container.

use vstd::prelude::*;
use vstd::string::*;

verus! {

broadcast use vstd::string::group_string_axioms;

/// What kind of mount.
#[derive(Debug, Clone, Copy, PartialEq, Eq, Structural)]
pub enum MountType {
    Bind,
    Volume,
    Tmpfs,
}

/// Whether the container may write to the mount.
#[derive(Debug, Clone, Copy, PartialEq, Eq, Structural)]
pub enum AccessMode {
    ReadOnly,
    ReadWrite,
}

impl AccessMode {
    /// `"ro"` or `"rw"`, as Docker's bind syntax writes it.
    pub open spec fn text(self) -> Seq<char> {
        match self {
            AccessMode::ReadOnly => "ro"@,
            AccessMode::ReadWrite => "rw"@,
        }
    }

    /// `"ro"` or `"rw"`.
    pub fn as_str(&self) -> (r: &'static str)
        ensures
            r@ == self.text(),
    {
        match self {
            AccessMode::ReadOnly => "ro",
            AccessMode::ReadWrite => "rw",
        }
    }
}

/// Options of a tmpfs mount.
#[derive(Debug, Clone, Copy, PartialEq, Eq, Structural)]
pub struct MountTmpfsOptions {
    /// Size limit in bytes.
    pub size_bytes: Option<u64>,
    /// File mode of the mount point.
    pub mode: Option<u32>,
}

impl MountTmpfsOptions {
    /// The size limit, if set.
    pub fn size_bytes(&self) -> (r: Option<u64>)
        ensures
            r == self.size_bytes,
    {
        self.size_bytes
    }

    /// The mode, if set.
    pub fn mode(&self) -> (r: Option<u32>)
        ensures
            r == self.mode,
    {
        self.mode
    }
}

/// A mount of a container.
#[derive(Debug, Clone)]
pub struct Mount {
    pub mount_type: MountType,
    pub source: Option<String>,
    pub target: Option<String>,
    pub access_mode: AccessMode,
    pub tmpfs_options: Option<MountTmpfsOptions>,
}

impl Mount {
    /// Mounts the host path `host_path` at `container_path`, writable.
    pub fn bind_mount(host_path: &str, container_path: &str) -> (r: Mount)
        ensures
            r.mount_type == MountType::Bind,
            r.source matches Some(s) && s@ == host_path@,
            r.target matches Some(t) && t@ == container_path@,
            r.access_mode == AccessMode::ReadWrite,
            r.tmpfs_options is None,
    {
        Mount {
            mount_type: MountType::Bind,
            source: Some(String::from_str(host_path)),
            target: Some(String::from_str(container_path)),
            access_mode: AccessMode::ReadWrite,
            tmpfs_options: None,
        }
    }

    /// Mounts the named volume `name` at `container_path`, writable.
    pub fn volume_mount(name: &str, container_path: &str) -> (r: Mount)
        ensures
            r.mount_type == MountType::Volume,
            r.source matches Some(s) && s@ == name@,
            r.target matches Some(t) && t@ == container_path@,
            r.access_mode == AccessMode::ReadWrite,
            r.tmpfs_options is None,
    {
        Mount {
            mount_type: MountType::Volume,
            source: Some(String::from_str(name)),
            target: Some(String::from_str(container_path)),
            access_mode: AccessMode::ReadWrite,
            tmpfs_options: None,
        }
    }

    /// Mounts a tmpfs at `container_path`, writable, without options.
    pub fn tmpfs_mount(container_path: &str) -> (r: Mount)
        ensures
            r.mount_type == MountType::Tmpfs,
            r.source is None,
            r.target matches Some(t) && t@ == container_path@,
            r.access_mode == AccessMode::ReadWrite,
            r.tmpfs_options is None,
    {
        Mount {
            mount_type: MountType::Tmpfs,
            source: None,
            target: Some(String::from_str(container_path)),
            access_mode: AccessMode::ReadWrite,
            tmpfs_options: None,
        }
    }

    /// The same mount with `access_mode`.
    pub fn with_access_mode(self, access_mode: AccessMode) -> (r: Mount)
        ensures
            r == (Mount { access_mode, ..self }),
    {
        Mount { access_mode, ..self }
    }

    /// The same mount with a tmpfs size limit (other tmpfs options kept).
    pub fn with_size_bytes(self, size_bytes: u64) -> (r: Mount)
        ensures
            r == (Mount {
                tmpfs_options: Some(
                    MountTmpfsOptions {
                        size_bytes: Some(size_bytes),
                        mode: match self.tmpfs_options {
                            Some(o) => o.mode,
                            None => None,
                        },
                    },
                ),
                ..self
            }),
    {
        let mode = match self.tmpfs_options {
            Some(o) => o.mode,
            None => None,
        };
        Mount { tmpfs_options: Some(MountTmpfsOptions { size_bytes: Some(size_bytes), mode }), ..self }
    }

    /// The same mount with a tmpfs mode (other tmpfs options kept).
    pub fn with_mode(self, mode: u32) -> (r: Mount)
        ensures
            r == (Mount {
                tmpfs_options: Some(
                    MountTmpfsOptions {
                        size_bytes: match self.tmpfs_options {
                            Some(o) => o.size_bytes,
                            None => None,
                        },
                        mode: Some(mode),
                    },
                ),
                ..self
            }),
    {
        let size_bytes = match self.tmpfs_options {
            Some(o) => o.size_bytes,
            None => None,
        };
        Mount { tmpfs_options: Some(MountTmpfsOptions { size_bytes, mode: Some(mode) }), ..self }
    }

    /// The kind of mount.
    pub fn mount_type(&self) -> (r: MountType)
        ensures
            r == self.mount_type,
    {
        self.mount_type
    }

    /// The host path or volume name, if the mount has one.
    pub fn source(&self) -> (r: Option<&str>)
        ensures
            match self.source {
                Some(s) => r matches Some(x) && x@ == s@,
                None => r is None,
            },
    {
        match &self.source {
            Some(s) => Some(s.as_str()),
            None => None,
        }
    }

    /// The path inside the container, if set.
    pub fn target(&self) -> (r: Option<&str>)
        ensures
            match self.target {
                Some(s) => r matches Some(x) && x@ == s@,
                None => r is None,
            },
    {
        match &self.target {
            Some(s) => Some(s.as_str()),
            None => None,
        }
    }

    /// Read-only or writable.
    pub fn access_mode(&self) -> (r: AccessMode)
        ensures
            r == self.access_mode,
    {
        self.access_mode
    }

    /// The tmpfs options, if any.
    pub fn tmpfs_options(&self) -> (r: Option<MountTmpfsOptions>)
        ensures
            r == self.tmpfs_options,
    {
        self.tmpfs_options
    }
}

} // verus!
