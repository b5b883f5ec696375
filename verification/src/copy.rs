//! Copying files into and out of containers: sources, targets and errors.

use vstd::prelude::*;
use vstd::string::*;
use std::path::PathBuf;
use crate::error::{io_error_display, is_prefix};
use crate::text::{decimal, push_decimal};

verus! {

broadcast use vstd::string::group_string_axioms;

#[verifier::external_type_specification]
#[verifier::external_body]
pub struct ExPathBuf(std::path::PathBuf);

/// Where the bytes to copy come from.
#[derive(Debug)]
pub enum CopyDataSource {
    /// A file on the host.
    File(PathBuf),
    /// Bytes held in memory.
    Data(Vec<u8>),
}

impl From<PathBuf> for CopyDataSource {
    fn from(p: PathBuf) -> (r: CopyDataSource) {
        CopyDataSource::File(p)
    }
}

impl vstd::std_specs::convert::FromSpecImpl<PathBuf> for CopyDataSource {
    open spec fn obeys_from_spec() -> bool {
        true
    }

    open spec fn from_spec(v: PathBuf) -> CopyDataSource {
        CopyDataSource::File(v)
    }
}

impl From<Vec<u8>> for CopyDataSource {
    fn from(b: Vec<u8>) -> (r: CopyDataSource) {
        CopyDataSource::Data(b)
    }
}

impl vstd::std_specs::convert::FromSpecImpl<Vec<u8>> for CopyDataSource {
    open spec fn obeys_from_spec() -> bool {
        true
    }

    open spec fn from_spec(v: Vec<u8>) -> CopyDataSource {
        CopyDataSource::Data(v)
    }
}

/// The mode a copied file gets unless another is given.
pub const DEFAULT_COPY_MODE: u32 = 0o644;

/// Where a copied file goes in the container, with its mode and owner.
#[derive(Debug)]
pub struct CopyTargetOptions {
    /// Path inside the container.
    pub path: String,
    /// File mode.
    pub mode: u32,
    /// Owner user id.
    pub uid: u32,
    /// Owner group id.
    pub gid: u32,
}

impl CopyTargetOptions {
    /// A target at `path` with mode `0o644`, owned by root.
    pub fn new(path: &str) -> (r: CopyTargetOptions)
        ensures
            r.path@ == path@,
            r.mode == DEFAULT_COPY_MODE,
            r.uid == 0,
            r.gid == 0,
    {
        CopyTargetOptions { path: String::from_str(path), mode: DEFAULT_COPY_MODE, uid: 0, gid: 0 }
    }

    /// The same target with `mode`.
    pub fn with_mode(self, mode: u32) -> (r: CopyTargetOptions)
        ensures
            r == (CopyTargetOptions { mode, ..self }),
    {
        let mut s = self;
        s.mode = mode;
        s
    }

    /// The file mode; always set, so always `Some`.
    pub fn mode(&self) -> (r: Option<u32>)
        ensures
            r == Some(self.mode),
    {
        Some(self.mode)
    }
}

impl From<String> for CopyTargetOptions {
    fn from(path: String) -> (r: CopyTargetOptions) {
        CopyTargetOptions { path, mode: DEFAULT_COPY_MODE, uid: 0, gid: 0 }
    }
}

impl vstd::std_specs::convert::FromSpecImpl<String> for CopyTargetOptions {
    open spec fn obeys_from_spec() -> bool {
        true
    }

    open spec fn from_spec(v: String) -> CopyTargetOptions {
        CopyTargetOptions { path: v, mode: DEFAULT_COPY_MODE, uid: 0, gid: 0 }
    }
}

/// Same as `CopyTargetOptions::new`.
impl From<&str> for CopyTargetOptions {
    fn from(path: &str) -> (r: CopyTargetOptions)
        ensures
            r.path@ == path@,
            r.mode == DEFAULT_COPY_MODE,
            r.uid == 0,
            r.gid == 0,
    {
        CopyTargetOptions::new(path)
    }
}

/// A string slice has no string value in specifications to compare the
/// converted target against, so `from_spec` is not used for it; the
/// conversion's own `ensures` states the target.
impl vstd::std_specs::convert::FromSpecImpl<&str> for CopyTargetOptions {
    open spec fn obeys_from_spec() -> bool {
        false
    }

    open spec fn from_spec(v: &str) -> CopyTargetOptions {
        CopyTargetOptions {
            path: choose|p: String| p@ == v@,
            mode: DEFAULT_COPY_MODE,
            uid: 0,
            gid: 0,
        }
    }
}

/// A file to copy into a container.
#[derive(Debug)]
pub struct CopyToContainer {
    pub source: CopyDataSource,
    pub target: CopyTargetOptions,
}

impl CopyToContainer {
    /// Copies `source` to `target`.
    pub fn new<S: Into<CopyDataSource>, T: Into<CopyTargetOptions>>(source: S, target: T) -> (r:
        CopyToContainer)
        ensures
            call_ensures(S::into, (source,), r.source),
            call_ensures(T::into, (target,), r.target),
    {
        CopyToContainer { source: source.into(), target: target.into() }
    }
}

/// Failure to copy a file into a container.
#[derive(Debug)]
pub enum CopyToContainerError {
    IoError(std::io::Error),
    PathNameError(String),
    /// The archive would grow beyond `limit` bytes while adding `name`.
    SizeLimitExceeded { limit: usize, name: String },
}

impl CopyToContainerError {
    /// The fixed opening of this error's message; for a path or size error
    /// it is the whole message.
    pub open spec fn prefix_text(&self) -> Seq<char> {
        match self {
            CopyToContainerError::IoError(_) => "I/O error: "@,
            CopyToContainerError::PathNameError(s) => "source is not a regular file: "@ + s@,
            CopyToContainerError::SizeLimitExceeded { limit, name } => "tar archive exceeds "@
                + decimal(limit as nat) + " bytes limit while adding "@ + name@,
        }
    }

    /// The message of this error.
    pub fn to_string(&self) -> (r: String)
        ensures
            is_prefix(self.prefix_text(), r@),
            !(self is IoError) ==> r@ == self.prefix_text(),
    {
        let mut out = String::new();
        match self {
            CopyToContainerError::IoError(e) => {
                out.append("I/O error: ");
                let t = io_error_display(e);
                out.append(t.as_str());
            },
            CopyToContainerError::PathNameError(s) => {
                out.append("source is not a regular file: ");
                out.append(s.as_str());
            },
            CopyToContainerError::SizeLimitExceeded { limit, name } => {
                out.append("tar archive exceeds ");
                push_decimal(&mut out, *limit as u128);
                out.append(" bytes limit while adding ");
                out.append(name.as_str());
            },
        }
        proof {
            assert(out@.subrange(0, self.prefix_text().len() as int) =~= self.prefix_text());
            if !(self is IoError) {
                assert(out@ =~= self.prefix_text());
            }
        }
        out
    }
}

impl From<std::io::Error> for CopyToContainerError {
    fn from(e: std::io::Error) -> (r: CopyToContainerError) {
        CopyToContainerError::IoError(e)
    }
}

impl vstd::std_specs::convert::FromSpecImpl<std::io::Error> for CopyToContainerError {
    open spec fn obeys_from_spec() -> bool {
        true
    }

    open spec fn from_spec(v: std::io::Error) -> CopyToContainerError {
        CopyToContainerError::IoError(v)
    }
}

/// Failure to copy a file out of a container.
#[derive(Debug)]
pub enum CopyFromContainerError {
    Io(std::io::Error),
    IsDirectory,
    EmptyArchive,
    UnsupportedEntry(&'static str),
}

impl CopyFromContainerError {
    /// The fixed opening of this error's message; for all but an I/O error
    /// it is the whole message.
    pub open spec fn prefix_text(&self) -> Seq<char> {
        match self {
            CopyFromContainerError::Io(_) => "I/O error: "@,
            CopyFromContainerError::IsDirectory => "is a directory"@,
            CopyFromContainerError::EmptyArchive => "empty archive"@,
            CopyFromContainerError::UnsupportedEntry(s) => "unsupported entry type: "@ + s@,
        }
    }

    /// The message of this error.
    pub fn to_string(&self) -> (r: String)
        ensures
            is_prefix(self.prefix_text(), r@),
            !(self is Io) ==> r@ == self.prefix_text(),
    {
        let mut out = String::new();
        match self {
            CopyFromContainerError::Io(e) => {
                out.append("I/O error: ");
                let t = io_error_display(e);
                out.append(t.as_str());
            },
            CopyFromContainerError::IsDirectory => out.append("is a directory"),
            CopyFromContainerError::EmptyArchive => out.append("empty archive"),
            CopyFromContainerError::UnsupportedEntry(s) => {
                out.append("unsupported entry type: ");
                out.append(s);
            },
        }
        proof {
            assert(out@.subrange(0, self.prefix_text().len() as int) =~= self.prefix_text());
            if !(self is Io) {
                assert(out@ =~= self.prefix_text());
            }
        }
        out
    }
}

impl From<std::io::Error> for CopyFromContainerError {
    fn from(e: std::io::Error) -> (r: CopyFromContainerError) {
        CopyFromContainerError::Io(e)
    }
}

impl vstd::std_specs::convert::FromSpecImpl<std::io::Error> for CopyFromContainerError {
    open spec fn obeys_from_spec() -> bool {
        true
    }

    open spec fn from_spec(v: std::io::Error) -> CopyFromContainerError {
        CopyFromContainerError::Io(v)
    }
}


} // verus!
