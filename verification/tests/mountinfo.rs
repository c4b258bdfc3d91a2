use pathsight::mountinfo::{find_mount, parse_mountinfo, parse_mountinfo_line, parse_overlay_dirs, unescape_mount_field, MountInfo, OverlayDirs};

#[test]
fn parse_bind_mount() {
    // bind of a host file onto /etc/resolv.conf (root field is the bind source path)
    let text = "892 821 8:2 /var/lib/docker/containers/abc/resolv.conf /etc/resolv.conf rw,relatime - ext4 /dev/sda1 rw\n";
    let mounts = parse_mountinfo(text).unwrap();
    assert_eq!(
        mounts,
        vec![MountInfo {
            id: 892,
            parent: 821,
            root: "/var/lib/docker/containers/abc/resolv.conf".into(),
            target: "/etc/resolv.conf".into(),
            fstype: "ext4".into(),
            source: "/dev/sda1".into(),
            options: "rw,relatime".into(),
            super_options: "rw".into(),
        }]
    );
}

#[test]
fn parse_overlay_mount() {
    let text = "\
915 821 0:92 / /data rw,relatime - overlay overlay rw,lowerdir=/usr/lib/myapp,upperdir=/var/lib/containers/diff,workdir=/var/lib/containers/work
";
    let mounts = parse_mountinfo(text).unwrap();
    assert_eq!(
        mounts,
        vec![MountInfo {
            id: 915,
            parent: 821,
            root: "/".into(),
            target: "/data".into(),
            fstype: "overlay".into(),
            source: "overlay".into(),
            options: "rw,relatime".into(),
            super_options:
                "rw,lowerdir=/usr/lib/myapp,upperdir=/var/lib/containers/diff,workdir=/var/lib/containers/work"
                    .into(),
        }]
    );
}

#[test]
fn parse_bind_and_overlay_dump() {
    let text = "\
36 35 98:0 / / rw,relatime shared:1 - ext4 /dev/root rw,errors=continue
892 36 8:2 /host/config.yaml /app/config.yaml rw,relatime - ext4 /dev/sda1 rw
915 36 0:92 / /data rw,relatime - overlay overlay rw,lowerdir=/lower,upperdir=/upper,workdir=/work
";
    let mounts = parse_mountinfo(text).unwrap();
    assert_eq!(mounts.len(), 3);
    assert_eq!(mounts[1].target, "/app/config.yaml");
    assert_eq!(mounts[1].root, "/host/config.yaml");
    assert_eq!(mounts[2].fstype, "overlay");
    assert_eq!(mounts[2].target, "/data");
}

#[test]
fn unescape_space_in_path() {
    let text = "10 1 8:1 /foo\\040bar /mnt/foo\\040bar rw - ext4 /dev/sda1 rw\n";
    let mounts = parse_mountinfo(text).unwrap();
    assert_eq!(mounts[0].root, "/foo bar");
    assert_eq!(mounts[0].target, "/mnt/foo bar");
}

#[test]
fn parse_overlay_dirs_basic() {
    let dirs = parse_overlay_dirs("rw,lowerdir=/lower,upperdir=/upper,workdir=/work,index=off");
    assert_eq!(
        dirs,
        OverlayDirs {
            lowerdir: Some("/lower".into()),
            upperdir: Some("/upper".into()),
            workdir: Some("/work".into()),
        }
    );
}

#[test]
fn parse_overlay_dirs_stacked_lower() {
    let dirs = parse_overlay_dirs("lowerdir=/a:/b:/c,upperdir=/u,workdir=/w");
    assert_eq!(dirs.lowerdir.as_deref(), Some("/a:/b:/c"));
    assert_eq!(dirs.upperdir.as_deref(), Some("/u"));
    assert_eq!(dirs.workdir.as_deref(), Some("/w"));
}

#[test]
fn parse_overlay_dirs_unescapes_comma_in_path() {
    // mountinfo stores comma in a path as \054
    let dirs = parse_overlay_dirs("lowerdir=/data\\054dir,upperdir=/up,workdir=/wk");
    assert_eq!(dirs.lowerdir.as_deref(), Some("/data,dir"));
}

#[test]
fn parse_overlay_dirs_from_mountinfo_line() {
    let text = "\
915 821 0:92 / /data rw,relatime - overlay overlay rw,lowerdir=/usr/lib/myapp,upperdir=/var/lib/containers/diff,workdir=/var/lib/containers/work
";
    let mounts = parse_mountinfo(text).unwrap();
    let dirs = parse_overlay_dirs(&mounts[0].super_options);
    assert_eq!(dirs.lowerdir.as_deref(), Some("/usr/lib/myapp"));
    assert_eq!(dirs.upperdir.as_deref(), Some("/var/lib/containers/diff"));
    assert_eq!(dirs.workdir.as_deref(), Some("/var/lib/containers/work"));
}

#[test]
fn parse_overlay_dirs_empty_when_absent() {
    assert_eq!(parse_overlay_dirs("rw,relatime"), OverlayDirs::default());
    assert_eq!(parse_overlay_dirs(""), OverlayDirs::default());
}

// ---------------------------------------------------------------------------
// Further cases
// ---------------------------------------------------------------------------

#[test]
fn mountinfo_blank_lines_are_skipped() {
    let text = "\n   \n10 1 8:1 / /mnt rw - ext4 /dev/sda1 rw\n\n";
    let mounts = parse_mountinfo(text).unwrap();
    assert_eq!(mounts.len(), 1);
    assert_eq!(mounts[0].id, 10);
    assert_eq!(parse_mountinfo("").unwrap(), vec![]);
}

#[test]
fn mountinfo_crlf_and_tabs() {
    let text = "10\t1 8:1 / /mnt rw - ext4 /dev/sda1 rw\r\n";
    let mounts = parse_mountinfo(text).unwrap();
    assert_eq!(mounts[0].super_options, "rw");
    assert_eq!(mounts[0].target, "/mnt");
}

#[test]
fn mountinfo_optional_fields_before_separator() {
    let text = "36 35 98:0 / / rw,relatime shared:1 master:2 - ext4 /dev/root rw,errors=continue\n";
    let m = &parse_mountinfo(text).unwrap()[0];
    assert_eq!(m.options, "rw,relatime");
    assert_eq!(m.fstype, "ext4");
    assert_eq!(m.source, "/dev/root");
    assert_eq!(m.super_options, "rw,errors=continue");
}

#[test]
fn mountinfo_missing_separator() {
    let e = parse_mountinfo("10 1 8:1 / /mnt rw ext4 /dev/sda1 rw\n").unwrap_err();
    assert_eq!(e, "mountinfo line 1: missing '-' separator");
}

#[test]
fn mountinfo_too_few_fields_before_separator() {
    let e = parse_mountinfo("\n10 1 8:1 / /mnt - ext4 /dev/sda1 rw\n").unwrap_err();
    assert_eq!(e, "mountinfo line 2: expected at least 6 fields before '-', got 5");
}

#[test]
fn mountinfo_too_few_fields_after_separator() {
    let e = parse_mountinfo("10 1 8:1 / /mnt rw - ext4 /dev/sda1\n").unwrap_err();
    assert_eq!(e, "mountinfo line 1: expected fstype, source, and super options after '-'");
}

#[test]
fn mountinfo_bad_ids() {
    let e = parse_mountinfo("x 1 8:1 / /mnt rw - ext4 /dev/sda1 rw\n").unwrap_err();
    assert_eq!(e, "mountinfo line 1: bad mount id `x`");
    let e = parse_mountinfo("1 -1 8:1 / /mnt rw - ext4 /dev/sda1 rw\n").unwrap_err();
    assert_eq!(e, "mountinfo line 1: bad parent id `-1`");
    let e = parse_mountinfo("4294967296 1 8:1 / /mnt rw - ext4 /dev/sda1 rw\n").unwrap_err();
    assert_eq!(e, "mountinfo line 1: bad mount id `4294967296`");
}

#[test]
fn mountinfo_first_error_wins() {
    let text = "10 1 8:1 / /mnt rw - ext4 /dev/sda1 rw\nbad\nx 1 8:1 / /m rw - ext4 s rw\n";
    assert_eq!(parse_mountinfo(text).unwrap_err(), "mountinfo line 2: missing '-' separator");
}

#[test]
fn mountinfo_plus_sign_id() {
    let m = &parse_mountinfo("+7 +0 8:1 / /m rw - ext4 s rw\n").unwrap()[0];
    assert_eq!((m.id, m.parent), (7, 0));
}

#[test]
fn unescape_octal_escapes() {
    assert_eq!(unescape_mount_field("a\\040b"), "a b");
    assert_eq!(unescape_mount_field("tab\\011x"), "tab\tx");
    assert_eq!(unescape_mount_field("back\\134slash"), "back\\slash");
    // not three octal digits: kept as is
    assert_eq!(unescape_mount_field("a\\08b"), "a\\08b");
    assert_eq!(unescape_mount_field("end\\04"), "end\\04");
    assert_eq!(unescape_mount_field("\\"), "\\");
    // a first digit above 3 loses its high bit
    assert_eq!(unescape_mount_field("\\777"), "\u{ff}");
    assert_eq!(unescape_mount_field("\\400"), "\u{0}");
    // bytes become characters one by one
    assert_eq!(unescape_mount_field("é"), "\u{c3}\u{a9}");
}

#[test]
fn find_mount_first_match() {
    let text = "5 1 8:1 / /a rw - ext4 s rw\n6 1 8:1 / /b rw - ext4 s rw\n6 1 8:1 / /c rw - ext4 s rw\n";
    let mounts = parse_mountinfo(text).unwrap();
    assert_eq!(find_mount(&mounts, 6).unwrap().target, "/b");
    assert_eq!(find_mount(&mounts, 5).unwrap().target, "/a");
    assert!(find_mount(&mounts, 7).is_none());
    assert!(find_mount(&mounts, 6 + (1u64 << 32)).is_none());
}

#[test]
fn overlay_dirs_later_overrides() {
    let dirs = parse_overlay_dirs("lowerdir=/one,lowerdir=/two,workdir=");
    assert_eq!(dirs.lowerdir.as_deref(), Some("/two"));
    assert_eq!(dirs.upperdir, None);
    assert_eq!(dirs.workdir.as_deref(), Some(""));
}

#[test]
fn unescape_plain_field_unchanged() {
    assert_eq!(unescape_mount_field("/var/lib/x-y_z.1"), "/var/lib/x-y_z.1");
    assert_eq!(unescape_mount_field(""), "");
}

#[test]
fn one_mount_per_nonblank_line() {
    let text = "1 0 8:1 / / rw - ext4 a rw\n\n \t\n2 1 8:1 / /b rw - ext4 b rw\n3 1 8:1 / /c rw - ext4 c rw";
    let mounts = parse_mountinfo(text).unwrap();
    let ids: Vec<u32> = mounts.iter().map(|m| m.id).collect();
    assert_eq!(ids, vec![1, 2, 3]);
}

#[test]
fn mountinfo_line_fields_ignore_device_and_optional_fields() {
    let a = parse_mountinfo_line("7 3 8:1 /r\\040x /t rw,nosuid opt:1 opt:2 - tmpfs s\\040y mode=755 extra").unwrap();
    let b = parse_mountinfo_line("  7 3 9:9 /r\\040x /t rw,nosuid - tmpfs s\\040y mode=755").unwrap();
    assert_eq!(a, b);
    assert_eq!(a.root, "/r x");
    assert_eq!(a.source, "s y");
    assert_eq!(a.options, "rw,nosuid");
    assert_eq!(a.fstype, "tmpfs");
    assert_eq!(a.super_options, "mode=755");
    assert_eq!(
        parse_mountinfo_line("1 2 3 4 5 - a b c").unwrap_err(),
        "expected at least 6 fields before '-', got 5"
    );
}
