use pathsight::report::{
    format_inspect_text, inspect_json, path_warnings, InspectResult, MapEntry, OverlayInfo,
    PathDetails, PathOutcome, ERR_ACCESS, ERR_MISSING,
};

fn sample_context() -> InspectResult {
    InspectResult {
        pid: 4821,
        path: "/data/config".into(),
        root: "/".into(),
        cwd: "/".into(),
        ns_mnt: "mnt:[4026532680]".into(),
        ns_user: "user:[4026531837]".into(),
        uid: [1000, 1000, 1000, 1000],
        gid: [1000, 1000, 1000, 1000],
        uid_map: vec![MapEntry {
            first: 0,
            lower_first: 100000,
            count: 65536,
        }],
        gid_map: vec![MapEntry {
            first: 0,
            lower_first: 100000,
            count: 65536,
        }],
        outcome: PathOutcome::Missing,
    }
}

fn sample_details() -> PathDetails {
    PathDetails {
        inode: 88421,
        dev_major: 0,
        dev_minor: 92,
        disk_uid: 100000,
        disk_gid: 100000,
        mapped_uid: Some(0),
        mapped_gid: Some(0),
        mount_id: 892,
        mount_fstype: "overlay".into(),
        mount_target: "/data".into(),
        mount_bind: "/".into(),
        mount_flags: "rw,relatime".into(),
        overlay: Some(OverlayInfo {
            lowerdir: Some("/lower".into()),
            upperdir: Some("/upper".into()),
            workdir: Some("/work".into()),
        }),
    }
}

fn sample() -> InspectResult {
    let mut r = sample_context();
    r.outcome = PathOutcome::Resolved(sample_details());
    r
}

#[test]
fn text_layout_has_sections_and_owner() {
    let text = format_inspect_text(&sample());
    assert!(text.contains("pid     4821\n"));
    assert!(text.contains("path    /data/config\n"));
    assert!(text.contains("inode   88421  dev 0:92\n"));
    assert!(text.contains("owner   disk 100000:100000  mapped 0:0\n"));
    assert!(text.contains("mount   id=892  overlay  /data  rw,relatime\n"));
    assert!(text.contains("        lower /lower\n"));
    assert!(text.contains("warning cannot prove overlay upper vs lower\n"));
    assert!(!text.contains("        layer "));
    // blank line between process context and creds, and before inode block
    assert!(text.contains("ns.user user:[4026531837]\n\nuid"));
    assert!(text.contains("gid.map 0 100000 65536\n\ninode"));
}

#[test]
fn text_error_path_missing() {
    let text = format_inspect_text(&sample_context());
    assert!(text.contains("pid     4821\n"));
    assert!(text.contains("path    /data/config\n"));
    assert!(text.contains("error   path missing (ENOENT)\n"));
    assert!(!text.contains("inode"));
}

#[test]
fn text_error_access_denied() {
    let mut r = sample_context();
    r.outcome = PathOutcome::AccessDenied;
    let text = format_inspect_text(&r);
    assert!(text.contains("error   permission denied (EACCES)\n"));
    assert!(!text.contains("inode"));
}

#[test]
fn warnings_read_only() {
    let mut p = sample_details();
    p.mount_flags = "ro,relatime".into();
    p.overlay = None;
    let w = path_warnings("/data/config", &p);
    assert!(w.iter().any(|m| m == "mount is read-only"));
}

#[test]
fn warnings_covering_mount() {
    let mut p = sample_details();
    p.mount_target = "/data/config".into();
    p.overlay = None;
    let w = path_warnings("/data/config", &p);
    assert!(w.iter().any(|m| m == "path is covered by a mount"));
}

#[test]
fn warnings_uid_gid_unmapped() {
    let mut p = sample_details();
    p.mapped_uid = None;
    p.mapped_gid = None;
    p.overlay = None;
    let w = path_warnings("/data/config", &p);
    assert!(w.iter().any(|m| m == "disk uid is unmapped in this user namespace"));
    assert!(w.iter().any(|m| m == "disk gid is unmapped in this user namespace"));
}

#[test]
fn warnings_ro_not_confused_with_substring() {
    let mut p = sample_details();
    p.mount_flags = "rw,errors=remount-ro".into();
    p.overlay = None;
    let w = path_warnings("/data/config", &p);
    assert!(!w.iter().any(|m| m == "mount is read-only"));
}

#[test]
fn json_resolved_mirrors_inspect_fields() {
    let v = inspect_json(&sample());
    assert_eq!(v.pid, 4821);
    assert_eq!(v.path, "/data/config");
    assert_eq!(v.root, "/");
    assert_eq!(v.ns_mnt, "mnt:[4026532680]");
    assert_eq!(v.uid.r, 1000);
    assert_eq!(v.uid_map[0].lower_first, 100000);
    assert_eq!(v.inode, Some(88421));
    let dev = v.dev.as_ref().unwrap();
    assert_eq!(dev.major, 0);
    assert_eq!(dev.minor, 92);
    let owner = v.owner.as_ref().unwrap();
    assert_eq!(owner.disk_uid, 100000);
    assert_eq!(owner.mapped_uid, Some(0));
    let mount = v.mount.as_ref().unwrap();
    assert_eq!(mount.id, 892);
    assert_eq!(mount.fstype, "overlay");
    assert_eq!(mount.bind, "/");
    let overlay = v.overlay.as_ref().unwrap();
    assert_eq!(overlay.lowerdir.as_deref(), Some("/lower"));
    assert_eq!(overlay.upperdir.as_deref(), Some("/upper"));
    assert_eq!(overlay.workdir.as_deref(), Some("/work"));
    assert!(v.warnings.iter().any(|w| w == "cannot prove overlay upper vs lower"));
    assert!(v.error.is_none());
}

#[test]
fn json_missing_has_error_no_inode() {
    let v = inspect_json(&sample_context());
    assert_eq!(v.pid, 4821);
    assert_eq!(v.path, "/data/config");
    assert_eq!(v.error.as_deref(), Some(ERR_MISSING));
    assert!(v.inode.is_none());
    assert!(v.mount.is_none());
    assert!(v.warnings.is_empty());
}

#[test]
fn json_access_denied() {
    let mut r = sample_context();
    r.outcome = PathOutcome::AccessDenied;
    let v = inspect_json(&r);
    assert_eq!(v.error.as_deref(), Some(ERR_ACCESS));
    assert!(v.inode.is_none());
}

#[test]
fn json_unmapped_uid_is_null() {
    let mut r = sample();
    if let PathOutcome::Resolved(p) = &mut r.outcome {
        p.mapped_uid = None;
        p.overlay = None;
    }
    let v = inspect_json(&r);
    assert!(v.owner.as_ref().unwrap().mapped_uid.is_none());
    assert_eq!(v.owner.as_ref().unwrap().mapped_gid, Some(0));
    assert!(v.warnings.iter().any(|w| w == "disk uid is unmapped in this user namespace"));
    assert!(v.overlay.is_none());
}

// ---------------------------------------------------------------------------
// Further cases
// ---------------------------------------------------------------------------

#[test]
fn text_full_report_exact() {
    let text = format_inspect_text(&sample());
    let expected = "\
pid     4821
path    /data/config
root    /
cwd     /
ns.mnt  mnt:[4026532680]
ns.user user:[4026531837]

uid     r=1000 e=1000 s=1000 fs=1000
gid     r=1000 e=1000 s=1000 fs=1000
uid.map 0 100000 65536
gid.map 0 100000 65536

inode   88421  dev 0:92
owner   disk 100000:100000  mapped 0:0
mount   id=892  overlay  /data  rw,relatime
        bind  /
        lower /lower
        upper /upper
        work  /work
warning cannot prove overlay upper vs lower
";
    assert_eq!(text, expected);
}

#[test]
fn text_empty_maps_and_unmapped_owner() {
    let mut r = sample();
    r.uid_map = vec![];
    r.gid_map = vec![];
    if let PathOutcome::Resolved(p) = &mut r.outcome {
        p.mapped_uid = None;
        p.overlay = Some(OverlayInfo { lowerdir: Some("/l".into()), upperdir: None, workdir: None });
    }
    let text = format_inspect_text(&r);
    assert!(text.contains("uid.map (empty)\ngid.map (empty)\n\n"));
    assert!(text.contains("owner   disk 100000:100000  mapped unmapped:0\n"));
    assert!(text.contains("        lower /l\nwarning disk uid is unmapped"));
    assert!(!text.contains("        upper "));
}

#[test]
fn text_long_key_is_not_padded() {
    let r = sample_context();
    let text = format_inspect_text(&r);
    // "ns.user" is 7 characters: one space of padding
    assert!(text.contains("ns.user user"));
    assert!(text.ends_with("\n\nerror   path missing (ENOENT)\n"));
}

#[test]
fn warnings_all_in_order() {
    let mut p = sample_details();
    p.mount_flags = "ro".into();
    p.mount_target = "/data/config/".into();
    p.mapped_uid = None;
    p.mapped_gid = None;
    let w = path_warnings("/data/config//", &p);
    assert_eq!(
        w,
        vec![
            "mount is read-only",
            "path is covered by a mount",
            "disk uid is unmapped in this user namespace",
            "disk gid is unmapped in this user namespace",
            "cannot prove overlay upper vs lower",
        ]
    );
}

#[test]
fn warnings_none() {
    let mut p = sample_details();
    p.overlay = None;
    assert!(path_warnings("/data/config", &p).is_empty());
}

#[test]
fn covered_mount_root_and_slashes() {
    let mut p = sample_details();
    p.overlay = None;
    p.mount_target = "/".into();
    assert_eq!(path_warnings("/", &p), vec!["path is covered by a mount"]);
    // "//" loses all its slashes, "/" keeps its one
    assert!(path_warnings("//", &p).is_empty());
}

#[test]
fn json_and_text_agree() {
    let mut r = sample();
    if let PathOutcome::Resolved(p) = &mut r.outcome {
        p.mount_flags = "ro".into();
        p.mapped_gid = None;
    }
    let j = inspect_json(&r);
    let text = format_inspect_text(&r);
    let tail: String = j.warnings.iter().map(|w| format!("warning {w}\n")).collect();
    assert_eq!(j.warnings.len(), 3);
    assert!(text.ends_with(&tail));
    assert!(j.error.is_none());

    let r = sample_context();
    let j = inspect_json(&r);
    let text = format_inspect_text(&r);
    assert!(text.ends_with(&format!("error   {}\n", j.error.unwrap())));
    assert!(j.inode.is_none());
}
