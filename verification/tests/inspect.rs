use pathsight::inspect::{
    diff_pids, format_diff_text, inspect, proc_error, proc_path, root_link_error, validate_pid,
    ProcAction, ProcContext, ProcFailure,
};
use pathsight::mountinfo::parse_mountinfo;
use pathsight::path_resolution::{
    check_path_bytes, map_open_error, resolve_base, resolved_from_statx, stat_error, OpenFailure,
    ResolveBase, ResolveError, ResolvedPath, StatxReply,
};
use pathsight::procfs::{parse_id_map, parse_status_ids};
use pathsight::report::{format_inspect_text, PathOutcome};

fn context() -> ProcContext {
    ProcContext {
        root: "/".into(),
        cwd: "/home".into(),
        ns_mnt: "mnt:[1]".into(),
        ns_user: "user:[2]".into(),
        creds: parse_status_ids("Uid: 0 0 0 0\nGid: 0 0 0 0\n").unwrap(),
        uid_map: parse_id_map("0 100000 65536\n").unwrap(),
        gid_map: parse_id_map("0 0 4294967295\n").unwrap(),
    }
}

const MOUNTS: &str = "\
36 35 98:0 / / rw,relatime - ext4 /dev/root rw
915 36 0:92 / /data ro,relatime - overlay overlay rw,lowerdir=/lower,upperdir=/upper,workdir=/work
";

fn resolved(mount_id: u64, uid: u32) -> ResolvedPath {
    ResolvedPath { inode: 77, dev_major: 0, dev_minor: 92, mount_id, uid, gid: 5 }
}

#[test]
fn inspect_resolved_overlay() {
    let mounts = parse_mountinfo(MOUNTS).unwrap();
    let r = inspect(4821, "/data/x", context(), &mounts, Ok(resolved(915, 100001))).unwrap();
    assert_eq!(r.pid, 4821);
    assert_eq!(r.path, "/data/x");
    assert_eq!(r.cwd, "/home");
    match &r.outcome {
        PathOutcome::Resolved(p) => {
            assert_eq!(p.inode, 77);
            assert_eq!(p.mount_id, 915);
            assert_eq!(p.mount_fstype, "overlay");
            assert_eq!(p.mount_target, "/data");
            assert_eq!(p.mount_bind, "/");
            assert_eq!(p.mount_flags, "ro,relatime");
            assert_eq!(p.mapped_uid, Some(1));
            assert_eq!(p.mapped_gid, Some(5));
            let ov = p.overlay.as_ref().unwrap();
            assert_eq!(ov.lowerdir.as_deref(), Some("/lower"));
            assert_eq!(ov.workdir.as_deref(), Some("/work"));
        }
        _ => panic!("expected a resolved path"),
    }
    let text = format_inspect_text(&r);
    assert!(text.contains("warning mount is read-only\n"));
}

#[test]
fn inspect_plain_mount_unmapped_owner() {
    let mounts = parse_mountinfo(MOUNTS).unwrap();
    let r = inspect(1, "etc/x", context(), &mounts, Ok(resolved(36, 0))).unwrap();
    match &r.outcome {
        PathOutcome::Resolved(p) => {
            assert_eq!(p.mapped_uid, None);
            assert!(p.overlay.is_none());
            assert_eq!(p.mount_fstype, "ext4");
        }
        _ => panic!("expected a resolved path"),
    }
}

#[test]
fn inspect_missing_and_denied() {
    let mounts = parse_mountinfo(MOUNTS).unwrap();
    let r = inspect(9, "/nope", context(), &mounts, Err(ResolveError::Missing)).unwrap();
    assert_eq!(r.outcome, PathOutcome::Missing);
    assert_eq!(r.root, "/");
    let r = inspect(9, "/nope", context(), &mounts, Err(ResolveError::AccessDenied)).unwrap();
    assert_eq!(r.outcome, PathOutcome::AccessDenied);
}

#[test]
fn inspect_errors() {
    let mounts = parse_mountinfo(MOUNTS).unwrap();
    let e = inspect(9, "/x", context(), &mounts, Err(ResolveError::Other("boom".into())));
    assert_eq!(e.unwrap_err(), "boom");
    let e = inspect(9, "/x", context(), &mounts, Ok(resolved(1000, 0)));
    assert_eq!(
        e.unwrap_err(),
        "mount id 1000 from path not found in mountinfo (mounts may have changed)"
    );
}

#[test]
fn pid_and_diff_rules() {
    assert_eq!(validate_pid(0).unwrap_err(), "pid must be greater than 0");
    assert!(validate_pid(1).is_ok());
    assert_eq!(diff_pids(&[3, 4]).unwrap(), (3, 4));
    assert_eq!(
        diff_pids(&[3]).unwrap_err(),
        "diff needs exactly two --pid values, got 1"
    );
    assert_eq!(
        diff_pids(&[1, 2, 3]).unwrap_err(),
        "diff needs exactly two --pid values, got 3"
    );
}

#[test]
fn diff_text_joins_both_reports() {
    let mounts = parse_mountinfo(MOUNTS).unwrap();
    let a = inspect(1, "/x", context(), &mounts, Err(ResolveError::Missing)).unwrap();
    let b = inspect(2, "/x", context(), &mounts, Err(ResolveError::AccessDenied)).unwrap();
    let text = format_diff_text(&a, &b);
    let expected = format!(
        "first:\n{}\nsecond:\n{}",
        format_inspect_text(&a),
        format_inspect_text(&b)
    );
    assert_eq!(text, expected);
}

#[test]
fn proc_messages() {
    assert_eq!(proc_path(42, "ns/mnt"), "/proc/42/ns/mnt");
    assert_eq!(
        proc_error(ProcFailure::NotFound, ProcAction::Read, 42, "/proc/42/status", "x"),
        "no such process 42"
    );
    assert_eq!(
        proc_error(ProcFailure::PermissionDenied, ProcAction::Open, 42, "/proc/42/root", "x"),
        "permission denied reading /proc/42/root"
    );
    assert_eq!(
        proc_error(ProcFailure::Other, ProcAction::Open, 42, "/proc/42/cwd", "oops"),
        "cannot open /proc/42/cwd: oops"
    );
    assert_eq!(
        proc_error(ProcFailure::Other, ProcAction::Read, 42, "/proc/42/status", "oops"),
        "cannot read /proc/42/status: oops"
    );
    assert_eq!(root_link_error(7, "gone"), "cannot resolve opened /proc/7/root: gone");
}

#[test]
fn resolution_rules() {
    assert_eq!(resolve_base("/etc/passwd"), ResolveBase::Root);
    assert_eq!(resolve_base("etc/passwd"), ResolveBase::Cwd);
    assert_eq!(resolve_base(""), ResolveBase::Cwd);
    assert_eq!(map_open_error(OpenFailure::NotFound, "/a", "x"), ResolveError::Missing);
    assert_eq!(
        map_open_error(OpenFailure::PermissionDenied, "/a", "x"),
        ResolveError::AccessDenied
    );
    assert_eq!(
        map_open_error(OpenFailure::NotADirectory, "/a/b", "x"),
        ResolveError::Other("not a directory in path /a/b".into())
    );
    assert_eq!(
        map_open_error(OpenFailure::Unsupported, "/a", "x"),
        ResolveError::Other("openat2 is not supported on this kernel (need Linux 5.6+)".into())
    );
    assert_eq!(
        map_open_error(OpenFailure::TooManyLinks, "/a", "x"),
        ResolveError::Other("too many symlinks resolving /a".into())
    );
    assert_eq!(
        map_open_error(OpenFailure::Other, "/a", "bad thing"),
        ResolveError::Other("cannot open /a: bad thing".into())
    );
    assert_eq!(
        check_path_bytes(b"/a\0b", "/a\u{0}b"),
        Err(ResolveError::Other("path contains interior null byte: /a\u{0}b".into()))
    );
    assert_eq!(check_path_bytes(b"/a/b", "/a/b"), Ok(()));
    assert_eq!(check_path_bytes(b"", ""), Ok(()));
    assert_eq!(
        stat_error("/a", "eio"),
        ResolveError::Other("cannot stat /a: eio".into())
    );
}

#[test]
fn statx_reply_rules() {
    let full = StatxReply {
        has_mount_id: true,
        has_uid: true,
        has_gid: true,
        inode: 1,
        dev_major: 2,
        dev_minor: 3,
        mount_id: 4,
        uid: 5,
        gid: 6,
    };
    assert_eq!(
        resolved_from_statx(full).unwrap(),
        ResolvedPath { inode: 1, dev_major: 2, dev_minor: 3, mount_id: 4, uid: 5, gid: 6 }
    );
    let mut r = full;
    r.has_mount_id = false;
    assert_eq!(
        resolved_from_statx(r).unwrap_err(),
        "kernel did not return mount id (need Linux 5.8+)"
    );
    let mut r = full;
    r.has_gid = false;
    assert_eq!(resolved_from_statx(r).unwrap_err(), "kernel did not return file uid/gid");
}

#[test]
fn inspect_refuses_pid_zero() {
    let mounts = parse_mountinfo(MOUNTS).unwrap();
    for outcome in [Err(ResolveError::Missing), Ok(resolved(915, 100001)), Err(ResolveError::Other("boom".into()))] {
        assert_eq!(
            inspect(0, "/data/x", context(), &mounts, outcome).unwrap_err(),
            "pid must be greater than 0"
        );
    }
}
