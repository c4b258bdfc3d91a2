//! Putting an inspection together: the process context read from `/proc`,
//! the resolution of the path, the covering mount and the id mapping; and the
//! rules around it (the pid, the two pids of a diff, the `/proc` errors).
use crate::mountinfo::{
    find_mount, has_id, overlay_dirs_spec, parse_overlay_dirs, MountInfo, OverlayView,
};
use crate::path_resolution::{ResolveError, ResolvedPath};
use crate::procfs::{map_id_fits, map_id_into_ns, map_id_spec, Creds};
use crate::report::{
    format_inspect_text, inspect_text, InspectResult, MapEntry, OverlayInfo,
    PathDetails, PathOutcome,
};
use crate::text::{chars_of, dec, extend_str, first_index, opt_str_view, push_dec, same_chars, string_of};
use vstd::prelude::*;

verus! {

/// What was read about a process before its view of the path is resolved.
pub struct ProcContext {
    pub root: String,
    pub cwd: String,
    pub ns_mnt: String,
    pub ns_user: String,
    pub creds: Creds,
    pub uid_map: Vec<MapEntry>,
    pub gid_map: Vec<MapEntry>,
}

/// `res` carries the pid, the path and the process context.
pub open spec fn carries_context(
    res: InspectResult,
    pid: u32,
    path: Seq<char>,
    ctx: ProcContext,
) -> bool {
    &&& res.pid == pid
    &&& res.path@ == path
    &&& res.root@ == ctx.root@
    &&& res.cwd@ == ctx.cwd@
    &&& res.ns_mnt@ == ctx.ns_mnt@
    &&& res.ns_user@ == ctx.ns_user@
    &&& res.uid@ == ctx.creds.uid@
    &&& res.gid@ == ctx.creds.gid@
    &&& res.uid_map@ == ctx.uid_map@
    &&& res.gid_map@ == ctx.gid_map@
}

pub open spec fn overlay_info_view(o: OverlayInfo) -> OverlayView {
    OverlayView {
        lowerdir: opt_str_view(o.lowerdir),
        upperdir: opt_str_view(o.upperdir),
        workdir: opt_str_view(o.workdir),
    }
}

/// `p` describes the resolved path `rp`, covered by the mount `m`, with its
/// owner mapped through the process's id maps.
pub open spec fn describes(p: PathDetails, rp: ResolvedPath, m: MountInfo, ctx: ProcContext) -> bool {
    &&& p.inode == rp.inode
    &&& p.dev_major == rp.dev_major
    &&& p.dev_minor == rp.dev_minor
    &&& p.disk_uid == rp.uid
    &&& p.disk_gid == rp.gid
    &&& p.mapped_uid == map_id_spec(ctx.uid_map@, rp.uid)
    &&& p.mapped_gid == map_id_spec(ctx.gid_map@, rp.gid)
    &&& p.mount_id == m.id
    &&& p.mount_fstype@ == m.fstype@
    &&& p.mount_target@ == m.target@
    &&& p.mount_bind@ == m.root@
    &&& p.mount_flags@ == m.options@
    &&& if m.fstype@ == "overlay"@ {
        p.overlay matches Some(ov) && overlay_info_view(ov) == overlay_dirs_spec(m.super_options@)
    } else {
        p.overlay is None
    }
}

/// What an inspection reports of a resolved path: the inode, device, uid and
/// gid are those `statx` gave for the path, each in its own field; the mapped
/// uid is the disk uid mapped through the uid map, and the mapped gid the disk
/// gid mapped through the gid map; the mount fields are the covering mount's
/// id, type, target, root (the bind source) and options.
pub proof fn law_resolved_details(p: PathDetails, rp: ResolvedPath, m: MountInfo, ctx: ProcContext)
    requires
        describes(p, rp, m, ctx),
    ensures
        p.inode == rp.inode,
        p.dev_major == rp.dev_major,
        p.dev_minor == rp.dev_minor,
        p.disk_uid == rp.uid,
        p.disk_gid == rp.gid,
        p.mapped_uid == map_id_spec(ctx.uid_map@, p.disk_uid),
        p.mapped_gid == map_id_spec(ctx.gid_map@, p.disk_gid),
        p.mount_id == m.id,
        p.mount_fstype@ == m.fstype@,
        p.mount_target@ == m.target@,
        p.mount_bind@ == m.root@,
        p.mount_flags@ == m.options@,
        (p.overlay is Some) == (m.fstype@ == "overlay"@),
{
}

/// Whatever the outcome, an inspection's result names the pid and path it was
/// asked about, and the process's root, working directory, namespaces,
/// credentials and id maps, each in the field of the same name.
pub proof fn law_result_context(res: InspectResult, pid: u32, path: Seq<char>, ctx: ProcContext)
    requires
        carries_context(res, pid, path, ctx),
    ensures
        res.pid == pid,
        res.path@ == path,
        res.root@ == ctx.root@,
        res.cwd@ == ctx.cwd@,
        res.ns_mnt@ == ctx.ns_mnt@,
        res.ns_user@ == ctx.ns_user@,
        res.uid@ == ctx.creds.uid@,
        res.gid@ == ctx.creds.gid@,
        res.uid_map@ == ctx.uid_map@,
        res.gid_map@ == ctx.gid_map@,
{
}

/// The error when the mount the kernel named is not in the mount table read
/// earlier.
pub open spec fn mount_gone_error(mount_id: u64) -> Seq<char> {
    "mount id "@ + dec(mount_id as nat) + " from path not found in mountinfo (mounts may have changed)"@
}

/// Nothing in the id mapping that an inspection does overflows.
pub open spec fn inspect_ids_fit(
    ctx: ProcContext,
    mounts: Seq<MountInfo>,
    resolved: Result<ResolvedPath, ResolveError>,
) -> bool {
    match resolved {
        Ok(rp) => first_index(mounts, has_id(rp.mount_id)) is Some ==> map_id_fits(
            ctx.uid_map@,
            rp.uid,
        ) && map_id_fits(ctx.gid_map@, rp.gid),
        Err(_) => true,
    }
}

/// Builds the inspection of `path` for process `pid` from its context, its
/// mount table and the outcome of resolving the path in its view. A pid of 0
/// is refused before anything else.
pub fn inspect(
    pid: u32,
    path: &str,
    ctx: ProcContext,
    mounts: &[MountInfo],
    resolved: Result<ResolvedPath, ResolveError>,
) -> (r: Result<InspectResult, String>)
    requires
        pid > 0 ==> inspect_ids_fit(ctx, mounts@, resolved),
    ensures
        pid == 0 ==> (r matches Err(e) && e@ == "pid must be greater than 0"@),
        pid > 0 ==> match resolved {
            Err(ResolveError::Other(msg)) => r matches Err(e) && e@ == msg@,
            Err(ResolveError::Missing) => r matches Ok(res) && carries_context(res, pid, path@, ctx)
                && res.outcome is Missing,
            Err(ResolveError::AccessDenied) => r matches Ok(res) && carries_context(
                res,
                pid,
                path@,
                ctx,
            ) && res.outcome is AccessDenied,
            Ok(rp) => match first_index(mounts@, has_id(rp.mount_id)) {
                None => r matches Err(e) && e@ == mount_gone_error(rp.mount_id),
                Some(k) => match r {
                    Ok(res) => carries_context(res, pid, path@, ctx) && match res.outcome {
                        PathOutcome::Resolved(p) => describes(p, rp, mounts@[k], ctx),
                        _ => false,
                    },
                    Err(_) => false,
                },
            },
        },
{
    if let Err(e) = validate_pid(pid) {
        return Err(e);
    }
    let resolved = match resolved {
        Ok(rp) => rp,
        Err(ResolveError::Missing) => {
            return Ok(base_result(pid, path, ctx, PathOutcome::Missing));
        },
        Err(ResolveError::AccessDenied) => {
            return Ok(base_result(pid, path, ctx, PathOutcome::AccessDenied));
        },
        Err(ResolveError::Other(msg)) => {
            return Err(msg);
        },
    };
    let covering = match find_mount(mounts, resolved.mount_id) {
        Some(m) => m,
        None => {
            let mut v: Vec<char> = Vec::new();
            extend_str(&mut v, "mount id ");
            push_dec(&mut v, resolved.mount_id);
            extend_str(&mut v, " from path not found in mountinfo (mounts may have changed)");
            return Err(string_of(&v));
        },
    };
    let fstype = chars_of(covering.fstype.as_str());
    let overlay_name = chars_of("overlay");
    let overlay = if same_chars(fstype.as_slice(), overlay_name.as_slice()) {
        let dirs = parse_overlay_dirs(covering.super_options.as_str());
        Some(OverlayInfo { lowerdir: dirs.lowerdir, upperdir: dirs.upperdir, workdir: dirs.workdir })
    } else {
        None
    };
    let mapped_uid = map_id_into_ns(ctx.uid_map.as_slice(), resolved.uid);
    let mapped_gid = map_id_into_ns(ctx.gid_map.as_slice(), resolved.gid);
    let details = PathDetails {
        inode: resolved.inode,
        dev_major: resolved.dev_major,
        dev_minor: resolved.dev_minor,
        disk_uid: resolved.uid,
        disk_gid: resolved.gid,
        mapped_uid,
        mapped_gid,
        mount_id: covering.id,
        mount_fstype: covering.fstype.clone(),
        mount_target: covering.target.clone(),
        mount_bind: covering.root.clone(),
        mount_flags: covering.options.clone(),
        overlay,
    };
    Ok(base_result(pid, path, ctx, PathOutcome::Resolved(details)))
}

/// The result for `pid` and `path` in context `ctx` with the given outcome.
fn base_result(pid: u32, path: &str, ctx: ProcContext, outcome: PathOutcome) -> (res: InspectResult)
    ensures
        carries_context(res, pid, path@, ctx),
        res.outcome == outcome,
{
    InspectResult {
        pid,
        path: path.to_owned(),
        root: ctx.root,
        cwd: ctx.cwd,
        ns_mnt: ctx.ns_mnt,
        ns_user: ctx.ns_user,
        uid: ctx.creds.uid,
        gid: ctx.creds.gid,
        uid_map: ctx.uid_map,
        gid_map: ctx.gid_map,
        outcome,
    }
}

/// A process id must be positive.
pub fn validate_pid(pid: u32) -> (r: Result<(), String>)
    ensures
        pid > 0 <==> r is Ok,
        r matches Err(e) ==> e@ == "pid must be greater than 0"@,
{
    if pid == 0 {
        return Err("pid must be greater than 0".to_owned());
    }
    Ok(())
}

/// The two pids a diff compares.
pub fn diff_pids(pids: &[u32]) -> (r: Result<(u32, u32), String>)
    ensures
        pids@.len() == 2 ==> r == Ok::<(u32, u32), String>((pids@[0], pids@[1])),
        pids@.len() != 2 ==> (r matches Err(e) && e@ == "diff needs exactly two --pid values, got "@
            + dec(pids@.len())),
{
    if pids.len() == 2 {
        return Ok((pids[0], pids[1]));
    }
    let mut v: Vec<char> = Vec::new();
    extend_str(&mut v, "diff needs exactly two --pid values, got ");
    push_dec(&mut v, pids.len() as u64);
    Err(string_of(&v))
}

/// The diff report: both text reports, each under its heading.
pub fn format_diff_text(first: &InspectResult, second: &InspectResult) -> (text: String)
    ensures
        text@ == "first:\n"@ + inspect_text(*first) + "\nsecond:\n"@ + inspect_text(*second),
{
    let mut v: Vec<char> = Vec::new();
    extend_str(&mut v, "first:\n");
    let a = format_inspect_text(first);
    extend_str(&mut v, a.as_str());
    extend_str(&mut v, "\nsecond:\n");
    let b = format_inspect_text(second);
    extend_str(&mut v, b.as_str());
    string_of(&v)
}

// ---------------------------------------------------------------------------
// /proc access
// ---------------------------------------------------------------------------

/// `/proc/<pid>/<name>`.
pub fn proc_path(pid: u32, name: &str) -> (p: String)
    ensures
        p@ == "/proc/"@ + dec(pid as nat) + "/"@ + name@,
{
    let mut v: Vec<char> = Vec::new();
    extend_str(&mut v, "/proc/");
    push_dec(&mut v, pid as u64);
    extend_str(&mut v, "/");
    extend_str(&mut v, name);
    string_of(&v)
}

/// How an access to a `/proc` entry failed.
#[derive(Debug, Clone, Copy, PartialEq, Eq)]
pub enum ProcFailure {
    NotFound,
    PermissionDenied,
    Other,
}

/// What was being done to the `/proc` entry.
#[derive(Debug, Clone, Copy, PartialEq, Eq)]
pub enum ProcAction {
    Open,
    Read,
}

pub open spec fn proc_error_spec(
    failure: ProcFailure,
    action: ProcAction,
    pid: u32,
    path: Seq<char>,
    detail: Seq<char>,
) -> Seq<char> {
    match failure {
        ProcFailure::NotFound => "no such process "@ + dec(pid as nat),
        ProcFailure::PermissionDenied => "permission denied reading "@ + path,
        ProcFailure::Other => match action {
            ProcAction::Open => "cannot open "@ + path + ": "@ + detail,
            ProcAction::Read => "cannot read "@ + path + ": "@ + detail,
        },
    }
}

/// The error for a failed access to `path`, an entry under `/proc/<pid>`: a
/// missing entry means the process is gone.
pub fn proc_error(
    failure: ProcFailure,
    action: ProcAction,
    pid: u32,
    path: &str,
    detail: &str,
) -> (e: String)
    ensures
        e@ == proc_error_spec(failure, action, pid, path@, detail@),
{
    let mut v: Vec<char> = Vec::new();
    match failure {
        ProcFailure::NotFound => {
            extend_str(&mut v, "no such process ");
            push_dec(&mut v, pid as u64);
        },
        ProcFailure::PermissionDenied => {
            extend_str(&mut v, "permission denied reading ");
            extend_str(&mut v, path);
        },
        ProcFailure::Other => {
            match action {
                ProcAction::Open => extend_str(&mut v, "cannot open "),
                ProcAction::Read => extend_str(&mut v, "cannot read "),
            }
            extend_str(&mut v, path);
            extend_str(&mut v, ": ");
            extend_str(&mut v, detail);
        },
    }
    string_of(&v)
}

/// The error when the opened root of process `pid` cannot be named.
pub fn root_link_error(pid: u32, detail: &str) -> (e: String)
    ensures
        e@ == "cannot resolve opened /proc/"@ + dec(pid as nat) + "/root: "@ + detail@,
{
    let mut v: Vec<char> = Vec::new();
    extend_str(&mut v, "cannot resolve opened /proc/");
    push_dec(&mut v, pid as u64);
    extend_str(&mut v, "/root: ");
    extend_str(&mut v, detail);
    string_of(&v)
}

} // verus!
