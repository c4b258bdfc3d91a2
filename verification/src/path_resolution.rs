//! The decisions around resolving a path in another process's view: which
//! directory it is resolved from, what a failed open means, and what a
//! `statx` reply must carry.
use crate::text::{dec, extend_str, push_dec, starts_with, string_of};
use vstd::prelude::*;

verus! {

/// What `statx` reported about the resolved path.
#[derive(Debug, Clone, PartialEq, Eq)]
pub struct ResolvedPath {
    pub inode: u64,
    pub dev_major: u32,
    pub dev_minor: u32,
    pub mount_id: u64,
    pub uid: u32,
    pub gid: u32,
}

#[derive(Debug, Clone, PartialEq, Eq)]
pub enum ResolveError {
    /// path does not exist in that process's view (ENOENT)
    Missing,
    /// cannot open the path (EACCES / EPERM)
    AccessDenied,
    Other(String),
}

/// The directory a path is resolved from.
#[derive(Debug, Clone, Copy, PartialEq, Eq)]
pub enum ResolveBase {
    /// An absolute path: resolved inside the process's root, which it cannot
    /// leave.
    Root,
    /// A relative path: resolved from the process's working directory.
    Cwd,
}

/// Absolute paths are resolved in the process's root, relative ones from its
/// working directory.
pub fn resolve_base(path: &str) -> (b: ResolveBase)
    ensures
        b == (if starts_with(path@, seq!['/']) {
            ResolveBase::Root
        } else {
            ResolveBase::Cwd
        }),
{
    let cs = crate::text::chars_of(path);
    if cs.len() > 0 && cs[0] == '/' {
        assert(path@.take(1) =~= seq!['/']);
        ResolveBase::Root
    } else {
        proof {
            if path@.len() > 0 {
                assert(path@.take(1)[0] != seq!['/'][0]);
            }
        }
        ResolveBase::Cwd
    }
}

/// Why opening the path failed, as the error number says.
#[derive(Debug, Clone, Copy, PartialEq, Eq)]
pub enum OpenFailure {
    /// ENOENT
    NotFound,
    /// EACCES or EPERM
    PermissionDenied,
    /// ENOTDIR
    NotADirectory,
    /// ENOSYS or EOPNOTSUPP
    Unsupported,
    /// ELOOP
    TooManyLinks,
    /// any other error
    Other,
}

pub open spec fn open_error_spec(kind: OpenFailure, path: Seq<char>, detail: Seq<char>) -> Result<
    (),
    Seq<char>,
> {
    match kind {
        OpenFailure::NotFound => Ok(()),
        OpenFailure::PermissionDenied => Ok(()),
        OpenFailure::NotADirectory => Err("not a directory in path "@ + path),
        OpenFailure::Unsupported => Err("openat2 is not supported on this kernel (need Linux 5.6+)"@),
        OpenFailure::TooManyLinks => Err("too many symlinks resolving "@ + path),
        OpenFailure::Other => Err("cannot open "@ + path + ": "@ + detail),
    }
}

/// The error reported for a failed open of `path`; `detail` is the system's
/// description of the error.
pub fn map_open_error(kind: OpenFailure, path: &str, detail: &str) -> (e: ResolveError)
    ensures
        kind == OpenFailure::NotFound ==> e == ResolveError::Missing,
        kind == OpenFailure::PermissionDenied ==> e == ResolveError::AccessDenied,
        open_error_spec(kind, path@, detail@) matches Err(m) ==> (e matches ResolveError::Other(s)
            && s@ == m),
{
    match kind {
        OpenFailure::NotFound => ResolveError::Missing,
        OpenFailure::PermissionDenied => ResolveError::AccessDenied,
        OpenFailure::NotADirectory => {
            let mut v: Vec<char> = Vec::new();
            extend_str(&mut v, "not a directory in path ");
            extend_str(&mut v, path);
            ResolveError::Other(string_of(&v))
        },
        OpenFailure::Unsupported => ResolveError::Other(
            "openat2 is not supported on this kernel (need Linux 5.6+)".to_owned(),
        ),
        OpenFailure::TooManyLinks => {
            let mut v: Vec<char> = Vec::new();
            extend_str(&mut v, "too many symlinks resolving ");
            extend_str(&mut v, path);
            ResolveError::Other(string_of(&v))
        },
        OpenFailure::Other => {
            let mut v: Vec<char> = Vec::new();
            extend_str(&mut v, "cannot open ");
            extend_str(&mut v, path);
            extend_str(&mut v, ": ");
            extend_str(&mut v, detail);
            ResolveError::Other(string_of(&v))
        },
    }
}

/// A path whose bytes hold a NUL cannot be passed to the kernel: the error
/// for it, and `Ok` for any other path. `path` is the path's displayed text.
pub fn check_path_bytes(bytes: &[u8], path: &str) -> (r: Result<(), ResolveError>)
    ensures
        r is Err <==> bytes@.contains(0u8),
        r matches Err(e) ==> (e matches ResolveError::Other(s) && s@
            == "path contains interior null byte: "@ + path@),
{
    let mut i: usize = 0;
    while i < bytes.len()
        invariant
            i <= bytes.len(),
            forall|j: int| 0 <= j < i ==> bytes@[j] != 0u8,
        decreases bytes.len() - i,
    {
        if bytes[i] == 0u8 {
            assert(bytes@[i as int] == 0u8);
            return Err(null_byte_error(path));
        }
        i += 1;
    }
    Ok(())
}

/// The error for a path that holds a NUL byte.
fn null_byte_error(path: &str) -> (e: ResolveError)
    ensures
        e matches ResolveError::Other(s) && s@ == "path contains interior null byte: "@ + path@,
{
    let mut v: Vec<char> = Vec::new();
    extend_str(&mut v, "path contains interior null byte: ");
    extend_str(&mut v, path);
    ResolveError::Other(string_of(&v))
}

/// The error for an opened path that could not be stat'ed.
pub fn stat_error(path: &str, detail: &str) -> (e: ResolveError)
    ensures
        e matches ResolveError::Other(s) && s@ == "cannot stat "@ + path@ + ": "@ + detail@,
{
    let mut v: Vec<char> = Vec::new();
    extend_str(&mut v, "cannot stat ");
    extend_str(&mut v, path);
    extend_str(&mut v, ": ");
    extend_str(&mut v, detail);
    ResolveError::Other(string_of(&v))
}

/// A `statx` reply: which of the requested fields the kernel filled in, and
/// their values.
#[derive(Debug, Clone, Copy, PartialEq, Eq)]
pub struct StatxReply {
    pub has_mount_id: bool,
    pub has_uid: bool,
    pub has_gid: bool,
    pub inode: u64,
    pub dev_major: u32,
    pub dev_minor: u32,
    pub mount_id: u64,
    pub uid: u32,
    pub gid: u32,
}

/// The resolved path a `statx` reply describes; the mount id, uid and gid
/// must have been filled in.
pub fn resolved_from_statx(reply: StatxReply) -> (r: Result<ResolvedPath, String>)
    ensures
        !reply.has_mount_id ==> (r matches Err(e) && e@
            == "kernel did not return mount id (need Linux 5.8+)"@),
        reply.has_mount_id && !(reply.has_uid && reply.has_gid) ==> (r matches Err(e) && e@
            == "kernel did not return file uid/gid"@),
        reply.has_mount_id && reply.has_uid && reply.has_gid ==> r == Ok::<ResolvedPath, String>(
            ResolvedPath {
                inode: reply.inode,
                dev_major: reply.dev_major,
                dev_minor: reply.dev_minor,
                mount_id: reply.mount_id,
                uid: reply.uid,
                gid: reply.gid,
            },
        ),
{
    if !reply.has_mount_id {
        return Err("kernel did not return mount id (need Linux 5.8+)".to_owned());
    }
    if !reply.has_uid || !reply.has_gid {
        return Err("kernel did not return file uid/gid".to_owned());
    }
    Ok(
        ResolvedPath {
            inode: reply.inode,
            dev_major: reply.dev_major,
            dev_minor: reply.dev_minor,
            mount_id: reply.mount_id,
            uid: reply.uid,
            gid: reply.gid,
        },
    )
}

} // verus!
