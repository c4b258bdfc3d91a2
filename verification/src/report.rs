//! The inspection result and its renderings: the text report, and the record
//! that the JSON output is written from.
use crate::text::{
    chars_of, dec, extend_chars, opt_str_view, extend_str, lemma_chars_deep_view, pad_right, push_dec, same_chars,
    spaces, split_chars, split_on, string_of,
};
use vstd::prelude::*;

verus! {

/// The overlay directories of the covering mount.
#[derive(Debug, Clone, PartialEq, Eq)]
pub struct OverlayInfo {
    pub lowerdir: Option<String>,
    pub upperdir: Option<String>,
    pub workdir: Option<String>,
}

/// One line of a user-namespace id map: ids `first..first+count` inside the
/// namespace stand for `lower_first..lower_first+count` outside it.
#[derive(Debug, Clone, Copy, PartialEq, Eq)]
pub struct MapEntry {
    pub first: u32,
    pub lower_first: u32,
    pub count: u32,
}

/// What the path resolved to, and the mount that covers it.
#[derive(Debug, Clone, PartialEq, Eq)]
pub struct PathDetails {
    pub inode: u64,
    pub dev_major: u32,
    pub dev_minor: u32,
    pub disk_uid: u32,
    pub disk_gid: u32,
    pub mapped_uid: Option<u32>,
    pub mapped_gid: Option<u32>,
    pub mount_id: u32,
    pub mount_fstype: String,
    pub mount_target: String,
    pub mount_bind: String,
    pub mount_flags: String,
    pub overlay: Option<OverlayInfo>,
}

#[derive(Debug, Clone, PartialEq, Eq)]
pub enum PathOutcome {
    Resolved(PathDetails),
    /// ENOENT: the path does not exist in that process's view
    Missing,
    /// EACCES / EPERM: the path cannot be opened
    AccessDenied,
}

/// Everything the report shows about a path as one process sees it. Paths are
/// held as their displayed (lossily decoded) text.
#[derive(Debug, Clone, PartialEq, Eq)]
pub struct InspectResult {
    pub pid: u32,
    pub path: String,
    pub root: String,
    pub cwd: String,
    pub ns_mnt: String,
    pub ns_user: String,
    pub uid: [u32; 4],
    pub gid: [u32; 4],
    pub uid_map: Vec<MapEntry>,
    pub gid_map: Vec<MapEntry>,
    pub outcome: PathOutcome,
}

pub const ERR_MISSING: &'static str = "path missing (ENOENT)";

pub const ERR_ACCESS: &'static str = "permission denied (EACCES)";

// ---------------------------------------------------------------------------
// Warnings
// ---------------------------------------------------------------------------

/// `s` without its trailing `c` characters (`str::trim_end_matches`).
pub open spec fn trim_end_char(s: Seq<char>, c: char) -> Seq<char>
    decreases s.len(),
{
    if s.len() > 0 && s.last() == c {
        trim_end_char(s.drop_last(), c)
    } else {
        s
    }
}

/// A path with its trailing slashes removed, unless it is at most one
/// character long. (The byte length decides in `str` terms; a single
/// character of several bytes has no slash to remove, so counting characters
/// gives the same result.)
pub open spec fn norm_spec(s: Seq<char>) -> Seq<char> {
    if s.len() > 1 {
        trim_end_char(s, '/')
    } else {
        s
    }
}

/// Whether `name` is one of the comma-separated mount options.
pub open spec fn has_option(options: Seq<char>, name: Seq<char>) -> bool {
    split_on(options, ',').contains(name)
}

pub open spec fn warning_if(cond: bool, msg: Seq<char>) -> Seq<Seq<char>> {
    if cond {
        seq![msg]
    } else {
        Seq::empty()
    }
}

/// The warnings about a resolved path, in the order they are reported.
pub open spec fn warnings_spec(path: Seq<char>, p: PathDetails) -> Seq<Seq<char>> {
    warning_if(has_option(p.mount_flags@, "ro"@), "mount is read-only"@)
        + warning_if(norm_spec(path) == norm_spec(p.mount_target@), "path is covered by a mount"@)
        + warning_if(p.mapped_uid is None, "disk uid is unmapped in this user namespace"@)
        + warning_if(p.mapped_gid is None, "disk gid is unmapped in this user namespace"@)
        + warning_if(p.overlay is Some, "cannot prove overlay upper vs lower"@)
}

pub open spec fn strings_view(v: Seq<String>) -> Seq<Seq<char>> {
    v.map_values(|s: String| s@)
}

/// Whether `name` is exactly one of the comma-separated `options`.
fn mount_has_option(options: &str, name: &str) -> (b: bool)
    ensures
        b == has_option(options@, name@),
{
    let opts = chars_of(options);
    let n = chars_of(name);
    let parts = split_chars(opts.as_slice(), ',');
    let ghost ps = split_on(options@, ',');
    let mut i: usize = 0;
    while i < parts.len()
        invariant
            i <= parts.len(),
            parts.deep_view() == ps,
            ps == split_on(options@, ','),
            n@ == name@,
            forall|j: int| 0 <= j < i ==> ps[j] != name@,
        decreases parts.len() - i,
    {
        proof {
            lemma_chars_deep_view(&parts@[i as int]);
        }
        if same_chars(parts[i].as_slice(), n.as_slice()) {
            assert(ps[i as int] == name@);
            return true;
        }
        i += 1;
    }
    false
}

/// `s` without its trailing slashes, unless it is at most one character long.
fn norm_str(s: &[char]) -> (r: Vec<char>)
    ensures
        r@ == norm_spec(s@),
{
    if s.len() > 1 {
        let mut end = s.len();
        assert(s@.subrange(0, end as int) =~= s@);
        while end > 0 && s[end - 1] == '/'
            invariant
                end <= s.len(),
                s.len() > 1,
                trim_end_char(s@, '/') == trim_end_char(s@.subrange(0, end as int), '/'),
            decreases end,
        {
            assert(s@.subrange(0, end as int).drop_last() =~= s@.subrange(0, end - 1));
            end -= 1;
        }
        crate::text::copy_range(s, 0, end)
    } else {
        crate::text::copy_range(s, 0, s.len())
    }
}

/// Whether the path names the target of the covering mount itself.
fn path_is_mount_target(path: &str, mount_target: &str) -> (b: bool)
    ensures
        b == (norm_spec(path@) == norm_spec(mount_target@)),
{
    let a = norm_path(path);
    let t = chars_of(mount_target);
    let b = norm_str(t.as_slice());
    same_chars(a.as_slice(), b.as_slice())
}

/// The normalised characters of a path's text.
fn norm_path(path: &str) -> (r: Vec<char>)
    ensures
        r@ == norm_spec(path@),
{
    let p = chars_of(path);
    norm_str(p.as_slice())
}

/// Appends `msg` to `warnings` when `cond` holds.
fn warn_if(warnings: &mut Vec<String>, cond: bool, msg: &str)
    ensures
        strings_view(final(warnings)@) == strings_view(old(warnings)@) + warning_if(cond, msg@),
{
    let ghost before = strings_view(warnings@);
    if cond {
        warnings.push(msg.to_owned());
        assert(strings_view(warnings@) =~= before + seq![msg@]);
    } else {
        assert(strings_view(warnings@) =~= before + Seq::<Seq<char>>::empty());
    }
}

/// The warnings about a resolved path.
pub fn path_warnings(path: &str, p: &PathDetails) -> (w: Vec<String>)
    ensures
        strings_view(w@) == warnings_spec(path@, *p),
{
    let mut warnings: Vec<String> = Vec::new();
    assert(strings_view(warnings@) =~= Seq::<Seq<char>>::empty());
    let ro = mount_has_option(p.mount_flags.as_str(), "ro");
    warn_if(&mut warnings, ro, "mount is read-only");
    let covered = path_is_mount_target(path, p.mount_target.as_str());
    warn_if(&mut warnings, covered, "path is covered by a mount");
    warn_if(&mut warnings, p.mapped_uid.is_none(), "disk uid is unmapped in this user namespace");
    warn_if(&mut warnings, p.mapped_gid.is_none(), "disk gid is unmapped in this user namespace");
    warn_if(&mut warnings, p.overlay.is_some(), "cannot prove overlay upper vs lower");
    assert(warnings_spec(path@, *p) =~= Seq::<Seq<char>>::empty() + warning_if(
        has_option(p.mount_flags@, "ro"@),
        "mount is read-only"@,
    ) + warning_if(norm_spec(path@) == norm_spec(p.mount_target@), "path is covered by a mount"@)
        + warning_if(p.mapped_uid is None, "disk uid is unmapped in this user namespace"@)
        + warning_if(p.mapped_gid is None, "disk gid is unmapped in this user namespace"@)
        + warning_if(p.overlay is Some, "cannot prove overlay upper vs lower"@));
    warnings
}


// ---------------------------------------------------------------------------
// Text report
// ---------------------------------------------------------------------------

/// `key` padded to eight columns, then `value`, then a newline.
pub open spec fn line_text(key: Seq<char>, value: Seq<char>) -> Seq<char> {
    pad_right(key, 8) + value + seq!['\n']
}

/// An indented sub-line: eight spaces, `key` padded to six columns, `value`.
pub open spec fn indent_text(key: Seq<char>, value: Seq<char>) -> Seq<char> {
    spaces(8) + pad_right(key, 6) + value + seq!['\n']
}

/// `r=.. e=.. s=.. fs=..` for a real/effective/saved/filesystem id quadruple.
pub open spec fn id_quad_text(a: Seq<u32>) -> Seq<char> {
    "r="@ + dec(a[0] as nat) + " e="@ + dec(a[1] as nat) + " s="@ + dec(a[2] as nat) + " fs="@
        + dec(a[3] as nat)
}

/// The three numbers of an id map entry, separated by single spaces, as
/// `uid_map` and `gid_map` hold them.
pub open spec fn entry_fields_text(e: MapEntry) -> Seq<char> {
    dec(e.first as nat) + seq![' '] + dec(e.lower_first as nat) + seq![' '] + dec(e.count as nat)
}

pub open spec fn map_entry_text(label: Seq<char>, e: MapEntry) -> Seq<char> {
    line_text(label, entry_fields_text(e))
}

/// One line per id map entry, or one `(empty)` line.
pub open spec fn id_map_text(label: Seq<char>, es: Seq<MapEntry>) -> Seq<char> {
    if es.len() == 0 {
        line_text(label, "(empty)"@)
    } else {
        es.map_values(|e: MapEntry| map_entry_text(label, e)).flatten()
    }
}

pub open spec fn mapped_id_text(id: Option<u32>) -> Seq<char> {
    match id {
        Some(i) => dec(i as nat),
        None => "unmapped"@,
    }
}

pub open spec fn opt_indent_text(key: Seq<char>, v: Option<String>) -> Seq<char> {
    match v {
        Some(s) => indent_text(key, s@),
        None => Seq::empty(),
    }
}

pub open spec fn overlay_text(o: Option<OverlayInfo>) -> Seq<char> {
    match o {
        Some(ov) => opt_indent_text("lower"@, ov.lowerdir) + opt_indent_text("upper"@, ov.upperdir)
            + opt_indent_text("work"@, ov.workdir),
        None => Seq::empty(),
    }
}

pub open spec fn warning_lines(ws: Seq<Seq<char>>) -> Seq<char> {
    ws.map_values(|w: Seq<char>| line_text("warning"@, w)).flatten()
}

/// The block about a resolved path.
pub open spec fn details_text(path: Seq<char>, p: PathDetails) -> Seq<char> {
    line_text(
        "inode"@,
        dec(p.inode as nat) + "  dev "@ + dec(p.dev_major as nat) + ":"@ + dec(p.dev_minor as nat),
    ) + line_text(
        "owner"@,
        "disk "@ + dec(p.disk_uid as nat) + ":"@ + dec(p.disk_gid as nat) + "  mapped "@
            + mapped_id_text(p.mapped_uid) + ":"@ + mapped_id_text(p.mapped_gid),
    ) + line_text(
        "mount"@,
        "id="@ + dec(p.mount_id as nat) + "  "@ + p.mount_fstype@ + "  "@ + p.mount_target@ + "  "@
            + p.mount_flags@,
    ) + indent_text("bind"@, p.mount_bind@) + overlay_text(p.overlay) + warning_lines(
        warnings_spec(path, p),
    )
}

pub open spec fn outcome_text(path: Seq<char>, o: PathOutcome) -> Seq<char> {
    match o {
        PathOutcome::Resolved(p) => details_text(path, p),
        PathOutcome::Missing => line_text("error"@, ERR_MISSING@),
        PathOutcome::AccessDenied => line_text("error"@, ERR_ACCESS@),
    }
}

/// The process context block, ending in a blank line.
pub open spec fn context_text(r: InspectResult) -> Seq<char> {
    line_text("pid"@, dec(r.pid as nat)) + line_text("path"@, r.path@) + line_text("root"@, r.root@)
        + line_text("cwd"@, r.cwd@) + line_text("ns.mnt"@, r.ns_mnt@) + line_text(
        "ns.user"@,
        r.ns_user@,
    ) + seq!['\n']
}

/// The credentials block, ending in a blank line.
pub open spec fn creds_text(r: InspectResult) -> Seq<char> {
    line_text("uid"@, id_quad_text(r.uid@)) + line_text("gid"@, id_quad_text(r.gid@))
        + id_map_text("uid.map"@, r.uid_map@) + id_map_text("gid.map"@, r.gid_map@) + seq!['\n']
}

/// The whole text report.
pub open spec fn inspect_text(r: InspectResult) -> Seq<char> {
    context_text(r) + creds_text(r) + outcome_text(r.path@, r.outcome)
}

/// Appends `key` padded to `width` columns.
fn push_padded(out: &mut Vec<char>, key: &str, width: usize)
    ensures
        final(out)@ == old(out)@ + pad_right(key@, width as nat),
{
    let k = chars_of(key);
    extend_chars(out, k.as_slice());
    let ghost mid = out@;
    let mut n = k.len();
    while n < width
        invariant
            k@ == key@,
            k.len() <= n <= width || (k.len() >= width && n == k.len()),
            out@ == mid + spaces((n - k.len()) as nat),
        decreases width - n,
    {
        out.push(' ');
        n += 1;
        assert(out@ =~= mid + spaces((n - k.len()) as nat));
    }
    assert(out@ =~= old(out)@ + pad_right(key@, width as nat));
}

/// Appends one report line.
fn push_line(out: &mut Vec<char>, key: &str, value: &[char])
    ensures
        final(out)@ == old(out)@ + line_text(key@, value@),
{
    push_padded(out, key, 8);
    extend_chars(out, value);
    out.push('\n');
    assert(out@ =~= old(out)@ + line_text(key@, value@));
}

/// Appends one indented sub-line.
fn push_indent(out: &mut Vec<char>, key: &str, value: &[char])
    ensures
        final(out)@ == old(out)@ + indent_text(key@, value@),
{
    let ghost start = out@;
    let mut i: usize = 0;
    while i < 8
        invariant
            i <= 8,
            out@ == start + spaces(i as nat),
        decreases 8 - i,
    {
        out.push(' ');
        i += 1;
        assert(out@ =~= start + spaces(i as nat));
    }
    push_padded(out, key, 6);
    extend_chars(out, value);
    out.push('\n');
    assert(out@ =~= start + indent_text(key@, value@));
}

/// Appends the lines of an id map.
fn push_id_map(out: &mut Vec<char>, label: &str, entries: &[MapEntry])
    ensures
        final(out)@ == old(out)@ + id_map_text(label@, entries@),
{
    if entries.len() == 0 {
        let empty = chars_of("(empty)");
        push_line(out, label, empty.as_slice());
        return;
    }
    let ghost start = out@;
    let ghost texts = entries@.map_values(|e: MapEntry| map_entry_text(label@, e));
    let mut i: usize = 0;
    assert(texts.take(0).flatten_alt() =~= Seq::<char>::empty());
    while i < entries.len()
        invariant
            i <= entries.len(),
            texts == entries@.map_values(|e: MapEntry| map_entry_text(label@, e)),
            out@ == start + texts.take(i as int).flatten_alt(),
        decreases entries.len() - i,
    {
        let e = entries[i];
        let mut v: Vec<char> = Vec::new();
        push_dec(&mut v, e.first as u64);
        v.push(' ');
        push_dec(&mut v, e.lower_first as u64);
        v.push(' ');
        push_dec(&mut v, e.count as u64);
        assert(v@ =~= entry_fields_text(e));
        push_line(out, label, v.as_slice());
        assert(texts.take(i + 1).drop_last() =~= texts.take(i as int));
        i += 1;
        assert(out@ =~= start + texts.take(i as int).flatten_alt());
    }
    assert(texts.take(entries.len() as int) =~= texts);
    proof {
        texts.lemma_flatten_and_flatten_alt_are_equivalent();
    }
}

/// An id as mapped into the namespace, or `unmapped`.
fn format_mapped_id(id: Option<u32>) -> (s: String)
    ensures
        s@ == mapped_id_text(id),
{
    match id {
        Some(i) => crate::text::dec_string(i as u64),
        None => "unmapped".to_owned(),
    }
}

/// Appends the sub-line for an optional overlay directory.
fn push_opt_indent(out: &mut Vec<char>, key: &str, v: &Option<String>)
    ensures
        final(out)@ == old(out)@ + opt_indent_text(key@, *v),
{
    match v {
        Some(s) => {
            let cs = chars_of(s.as_str());
            push_indent(out, key, cs.as_slice());
        },
        None => {
            assert(out@ =~= old(out)@ + opt_indent_text(key@, *v));
        },
    }
}

/// Appends one `warning` line per warning.
fn push_warnings(out: &mut Vec<char>, ws: &Vec<String>)
    ensures
        final(out)@ == old(out)@ + warning_lines(strings_view(ws@)),
{
    let ghost start = out@;
    let ghost texts = strings_view(ws@).map_values(|w: Seq<char>| line_text("warning"@, w));
    let mut i: usize = 0;
    assert(texts.take(0).flatten_alt() =~= Seq::<char>::empty());
    while i < ws.len()
        invariant
            i <= ws.len(),
            texts == strings_view(ws@).map_values(|w: Seq<char>| line_text("warning"@, w)),
            out@ == start + texts.take(i as int).flatten_alt(),
        decreases ws.len() - i,
    {
        let cs = chars_of(ws[i].as_str());
        push_line(out, "warning", cs.as_slice());
        assert(texts.take(i + 1).drop_last() =~= texts.take(i as int));
        i += 1;
        assert(out@ =~= start + texts.take(i as int).flatten_alt());
    }
    assert(texts.take(ws.len() as int) =~= texts);
    proof {
        texts.lemma_flatten_and_flatten_alt_are_equivalent();
    }
}

/// Appends the block about a resolved path.
fn push_details(out: &mut Vec<char>, path: &str, p: &PathDetails)
    ensures
        final(out)@ == old(out)@ + details_text(path@, *p),
{
    let ghost start = out@;
    let mut v: Vec<char> = Vec::new();
    push_dec(&mut v, p.inode);
    extend_str(&mut v, "  dev ");
    push_dec(&mut v, p.dev_major as u64);
    extend_str(&mut v, ":");
    push_dec(&mut v, p.dev_minor as u64);
    push_line(out, "inode", v.as_slice());
    let ghost a = out@;

    let mut v: Vec<char> = Vec::new();
    extend_str(&mut v, "disk ");
    push_dec(&mut v, p.disk_uid as u64);
    extend_str(&mut v, ":");
    push_dec(&mut v, p.disk_gid as u64);
    extend_str(&mut v, "  mapped ");
    let mu = format_mapped_id(p.mapped_uid);
    extend_str(&mut v, mu.as_str());
    extend_str(&mut v, ":");
    let mg = format_mapped_id(p.mapped_gid);
    extend_str(&mut v, mg.as_str());
    push_line(out, "owner", v.as_slice());
    let ghost b = out@;

    let mut v: Vec<char> = Vec::new();
    extend_str(&mut v, "id=");
    push_dec(&mut v, p.mount_id as u64);
    extend_str(&mut v, "  ");
    extend_str(&mut v, p.mount_fstype.as_str());
    extend_str(&mut v, "  ");
    extend_str(&mut v, p.mount_target.as_str());
    extend_str(&mut v, "  ");
    extend_str(&mut v, p.mount_flags.as_str());
    push_line(out, "mount", v.as_slice());
    let ghost c = out@;

    let bind = chars_of(p.mount_bind.as_str());
    push_indent(out, "bind", bind.as_slice());
    let ghost d = out@;

    match &p.overlay {
        Some(ov) => {
            push_opt_indent(out, "lower", &ov.lowerdir);
            push_opt_indent(out, "upper", &ov.upperdir);
            push_opt_indent(out, "work", &ov.workdir);
        },
        None => {},
    }
    assert(out@ =~= d + overlay_text(p.overlay));
    let ghost e = out@;

    let ws = path_warnings(path, p);
    push_warnings(out, &ws);
    assert(out@ =~= start + details_text(path@, *p));
}

/// The text report of an inspection.
pub fn format_inspect_text(r: &InspectResult) -> (text: String)
    ensures
        text@ == inspect_text(*r),
{
    let mut out: Vec<char> = Vec::new();

    let mut v: Vec<char> = Vec::new();
    push_dec(&mut v, r.pid as u64);
    push_line(&mut out, "pid", v.as_slice());
    let path = chars_of(r.path.as_str());
    push_line(&mut out, "path", path.as_slice());
    let root = chars_of(r.root.as_str());
    push_line(&mut out, "root", root.as_slice());
    let cwd = chars_of(r.cwd.as_str());
    push_line(&mut out, "cwd", cwd.as_slice());
    let ns_mnt = chars_of(r.ns_mnt.as_str());
    push_line(&mut out, "ns.mnt", ns_mnt.as_slice());
    let ns_user = chars_of(r.ns_user.as_str());
    push_line(&mut out, "ns.user", ns_user.as_slice());
    out.push('\n');
    assert(out@ =~= context_text(*r));
    let ghost ctx = out@;

    let uid = quad_chars(&r.uid);
    push_line(&mut out, "uid", uid.as_slice());
    let gid = quad_chars(&r.gid);
    push_line(&mut out, "gid", gid.as_slice());
    push_id_map(&mut out, "uid.map", r.uid_map.as_slice());
    push_id_map(&mut out, "gid.map", r.gid_map.as_slice());
    out.push('\n');
    assert(out@ =~= ctx + creds_text(*r));
    let ghost creds = out@;

    match &r.outcome {
        PathOutcome::Resolved(p) => {
            push_details(&mut out, r.path.as_str(), p);
        },
        PathOutcome::Missing => {
            let m = chars_of(ERR_MISSING);
            push_line(&mut out, "error", m.as_slice());
        },
        PathOutcome::AccessDenied => {
            let m = chars_of(ERR_ACCESS);
            push_line(&mut out, "error", m.as_slice());
        },
    }
    assert(out@ =~= inspect_text(*r));
    string_of(out.as_slice())
}

/// `r=.. e=.. s=.. fs=..`.
fn quad_chars(a: &[u32; 4]) -> (v: Vec<char>)
    ensures
        v@ == id_quad_text(a@),
{
    let mut v: Vec<char> = Vec::new();
    extend_str(&mut v, "r=");
    push_dec(&mut v, a[0] as u64);
    extend_str(&mut v, " e=");
    push_dec(&mut v, a[1] as u64);
    extend_str(&mut v, " s=");
    push_dec(&mut v, a[2] as u64);
    extend_str(&mut v, " fs=");
    push_dec(&mut v, a[3] as u64);
    assert(v@ =~= id_quad_text(a@));
    v
}


// ---------------------------------------------------------------------------
// JSON record
// ---------------------------------------------------------------------------

/// A real/effective/saved/filesystem id quadruple, by name.
pub struct IdSet {
    pub r: u32,
    pub e: u32,
    pub s: u32,
    pub fs: u32,
}

pub struct DevJson {
    pub major: u32,
    pub minor: u32,
}

pub struct OwnerJson {
    pub disk_uid: u32,
    pub disk_gid: u32,
    pub mapped_uid: Option<u32>,
    pub mapped_gid: Option<u32>,
}

pub struct MountJson {
    pub id: u32,
    pub fstype: String,
    pub target: String,
    pub bind: String,
    pub flags: String,
}

/// Overlay directories; an absent one is left out of the JSON.
pub struct OverlayJson {
    pub lowerdir: Option<String>,
    pub upperdir: Option<String>,
    pub workdir: Option<String>,
}

/// The record the JSON report is written from. `None` fields and an empty
/// `warnings` are left out of the JSON.
pub struct InspectJson {
    pub pid: u32,
    pub path: String,
    pub root: String,
    pub cwd: String,
    pub ns_mnt: String,
    pub ns_user: String,
    pub uid: IdSet,
    pub gid: IdSet,
    pub uid_map: Vec<MapEntry>,
    pub gid_map: Vec<MapEntry>,
    pub inode: Option<u64>,
    pub dev: Option<DevJson>,
    pub owner: Option<OwnerJson>,
    pub mount: Option<MountJson>,
    pub overlay: Option<OverlayJson>,
    pub error: Option<String>,
    pub warnings: Vec<String>,
}

/// `s` names the quadruple `a` field by field.
pub open spec fn id_set_of(s: IdSet, a: Seq<u32>) -> bool {
    s.r == a[0] && s.e == a[1] && s.s == a[2] && s.fs == a[3]
}

/// The JSON record `j` carries what the result `r` says, field by field.
pub open spec fn json_mirrors(j: InspectJson, r: InspectResult) -> bool {
    &&& j.pid == r.pid
    &&& j.path@ == r.path@
    &&& j.root@ == r.root@
    &&& j.cwd@ == r.cwd@
    &&& j.ns_mnt@ == r.ns_mnt@
    &&& j.ns_user@ == r.ns_user@
    &&& id_set_of(j.uid, r.uid@)
    &&& id_set_of(j.gid, r.gid@)
    &&& j.uid_map@ == r.uid_map@
    &&& j.gid_map@ == r.gid_map@
    &&& match r.outcome {
        PathOutcome::Resolved(p) => {
            &&& j.inode == Some(p.inode)
            &&& j.dev matches Some(d) && d.major == p.dev_major && d.minor == p.dev_minor
            &&& j.owner matches Some(o) && o.disk_uid == p.disk_uid && o.disk_gid == p.disk_gid
                && o.mapped_uid == p.mapped_uid && o.mapped_gid == p.mapped_gid
            &&& j.mount matches Some(m) && m.id == p.mount_id && m.fstype@ == p.mount_fstype@
                && m.target@ == p.mount_target@ && m.bind@ == p.mount_bind@ && m.flags@
                == p.mount_flags@
            &&& match p.overlay {
                Some(ov) => j.overlay matches Some(oj) && opt_str_view(oj.lowerdir)
                    == opt_str_view(ov.lowerdir) && opt_str_view(oj.upperdir) == opt_str_view(
                    ov.upperdir,
                ) && opt_str_view(oj.workdir) == opt_str_view(ov.workdir),
                None => j.overlay is None,
            }
            &&& j.error is None
            &&& strings_view(j.warnings@) == warnings_spec(r.path@, p)
        },
        PathOutcome::Missing => {
            &&& j.inode is None && j.dev is None && j.owner is None && j.mount is None
            &&& j.overlay is None
            &&& opt_str_view(j.error) == Some(ERR_MISSING@)
            &&& j.warnings@.len() == 0
        },
        PathOutcome::AccessDenied => {
            &&& j.inode is None && j.dev is None && j.owner is None && j.mount is None
            &&& j.overlay is None
            &&& opt_str_view(j.error) == Some(ERR_ACCESS@)
            &&& j.warnings@.len() == 0
        },
    }
}

/// A quadruple of ids, by name.
pub fn id_set(ids: [u32; 4]) -> (s: IdSet)
    ensures
        id_set_of(s, ids@),
{
    IdSet { r: ids[0], e: ids[1], s: ids[2], fs: ids[3] }
}

fn copy_entries(v: &Vec<MapEntry>) -> (c: Vec<MapEntry>)
    ensures
        c@ == v@,
{
    let mut c: Vec<MapEntry> = Vec::new();
    let mut i: usize = 0;
    while i < v.len()
        invariant
            i <= v.len(),
            c@ == v@.take(i as int),
        decreases v.len() - i,
    {
        c.push(v[i]);
        i += 1;
        assert(c@ =~= v@.take(i as int));
    }
    assert(v@.take(v.len() as int) =~= v@);
    c
}

fn copy_opt_string(o: &Option<String>) -> (c: Option<String>)
    ensures
        opt_str_view(c) == opt_str_view(*o),
{
    match o {
        Some(s) => Some(s.clone()),
        None => None,
    }
}

/// The record that the JSON report of `r` is written from.
pub fn inspect_json(r: &InspectResult) -> (j: InspectJson)
    ensures
        json_mirrors(j, *r),
{
    let mut j = InspectJson {
        pid: r.pid,
        path: r.path.clone(),
        root: r.root.clone(),
        cwd: r.cwd.clone(),
        ns_mnt: r.ns_mnt.clone(),
        ns_user: r.ns_user.clone(),
        uid: id_set(r.uid),
        gid: id_set(r.gid),
        uid_map: copy_entries(&r.uid_map),
        gid_map: copy_entries(&r.gid_map),
        inode: None,
        dev: None,
        owner: None,
        mount: None,
        overlay: None,
        error: None,
        warnings: Vec::new(),
    };
    match &r.outcome {
        PathOutcome::Resolved(p) => {
            j.inode = Some(p.inode);
            j.dev = Some(DevJson { major: p.dev_major, minor: p.dev_minor });
            j.owner = Some(
                OwnerJson {
                    disk_uid: p.disk_uid,
                    disk_gid: p.disk_gid,
                    mapped_uid: p.mapped_uid,
                    mapped_gid: p.mapped_gid,
                },
            );
            j.mount = Some(
                MountJson {
                    id: p.mount_id,
                    fstype: p.mount_fstype.clone(),
                    target: p.mount_target.clone(),
                    bind: p.mount_bind.clone(),
                    flags: p.mount_flags.clone(),
                },
            );
            match &p.overlay {
                Some(ov) => {
                    j.overlay = Some(
                        OverlayJson {
                            lowerdir: copy_opt_string(&ov.lowerdir),
                            upperdir: copy_opt_string(&ov.upperdir),
                            workdir: copy_opt_string(&ov.workdir),
                        },
                    );
                },
                None => {},
            }
            j.warnings = path_warnings(r.path.as_str(), p);
        },
        PathOutcome::Missing => {
            j.error = Some(ERR_MISSING.to_owned());
        },
        PathOutcome::AccessDenied => {
            j.error = Some(ERR_ACCESS.to_owned());
        },
    }
    j
}


// ---------------------------------------------------------------------------
// Laws
// ---------------------------------------------------------------------------

/// The JSON record and the text report say the same: the text ends in the
/// record's error, if it has one, or in a `warning` line for each of the
/// record's warnings.
pub proof fn law_json_agrees_with_text(j: InspectJson, r: InspectResult)
    requires
        json_mirrors(j, r),
    ensures
        j.error is None <==> r.outcome is Resolved,
        j.inode is Some <==> r.outcome is Resolved,
        j.error matches Some(e) ==> inspect_text(r) == context_text(r) + creds_text(r) + line_text(
            "error"@,
            e@,
        ),
        j.error is None ==> inspect_text(r).take(
            inspect_text(r).len() - warning_lines(strings_view(j.warnings@)).len(),
        ) + warning_lines(strings_view(j.warnings@)) == inspect_text(r),
{
    if let PathOutcome::Resolved(p) = r.outcome {
        let w = warning_lines(strings_view(j.warnings@));
        let t = inspect_text(r);
        assert(t.take(t.len() - w.len()) + w =~= t);
    }
}

/// An empty id map prints one `(empty)` line; a non-empty one prints one line
/// per entry, in order: adding an entry at the end adds its line at the end.
pub proof fn law_id_map_text_lines(label: Seq<char>, es: Seq<MapEntry>, e: MapEntry)
    ensures
        id_map_text(label, Seq::empty()) == line_text(label, "(empty)"@),
        id_map_text(label, seq![e]) == line_text(label, entry_fields_text(e)),
        es.len() > 0 ==> id_map_text(label, es.push(e)) == id_map_text(label, es) + line_text(
            label,
            entry_fields_text(e),
        ),
{
    let f = |x: MapEntry| map_entry_text(label, x);
    let one = seq![e].map_values(f);
    assert(one =~= seq![line_text(label, entry_fields_text(e))]);
    one.lemma_flatten_and_flatten_alt_are_equivalent();
    assert(one.drop_last() =~= Seq::<Seq<char>>::empty());
    assert(Seq::<Seq<char>>::empty().flatten_alt() == Seq::<char>::empty());
    assert(one.last() == line_text(label, entry_fields_text(e)));
    assert(one.flatten_alt() == one.drop_last().flatten_alt() + one.last());
    assert(one.flatten_alt() =~= line_text(label, entry_fields_text(e)));
    if es.len() > 0 {
        let a = es.map_values(f);
        let b = es.push(e).map_values(f);
        a.lemma_flatten_and_flatten_alt_are_equivalent();
        b.lemma_flatten_and_flatten_alt_are_equivalent();
        assert(b.drop_last() =~= a);
        assert(b.last() == line_text(label, entry_fields_text(e)));
    }
}

/// The JSON record names the resolved path's details by the fields of the
/// same name: the device, the disk and mapped owner, and the covering mount's
/// id, type, target, bind root and options.
pub proof fn law_json_fields_match_details(j: InspectJson, r: InspectResult, p: PathDetails)
    requires
        json_mirrors(j, r),
        r.outcome == PathOutcome::Resolved(p),
    ensures
        j.inode == Some(p.inode),
        j.dev matches Some(d) && d.major == p.dev_major && d.minor == p.dev_minor,
        j.owner matches Some(o) && o.disk_uid == p.disk_uid && o.disk_gid == p.disk_gid
            && o.mapped_uid == p.mapped_uid && o.mapped_gid == p.mapped_gid,
        j.mount matches Some(m) && m.id == p.mount_id && m.fstype@ == p.mount_fstype@
            && m.target@ == p.mount_target@ && m.bind@ == p.mount_bind@ && m.flags@
            == p.mount_flags@,
        j.pid == r.pid && j.path@ == r.path@ && j.root@ == r.root@ && j.cwd@ == r.cwd@
            && j.ns_mnt@ == r.ns_mnt@ && j.ns_user@ == r.ns_user@,
        j.uid.r == r.uid[0] && j.uid.e == r.uid[1] && j.uid.s == r.uid[2] && j.uid.fs == r.uid[3],
        j.gid.r == r.gid[0] && j.gid.e == r.gid[1] && j.gid.s == r.gid[2] && j.gid.fs == r.gid[3],
{
}

/// The text report of a resolved path shows what the JSON record carries: the
/// context, the credentials, and the inode, owner, mount, bind and warning
/// lines are built from the record's fields.
pub proof fn law_text_shows_json_fields(j: InspectJson, r: InspectResult, p: PathDetails)
    requires
        json_mirrors(j, r),
        r.outcome == PathOutcome::Resolved(p),
    ensures
        j.dev matches Some(d) && j.owner matches Some(o) && j.mount matches Some(m) && inspect_text(
            r,
        ) == (line_text("pid"@, dec(j.pid as nat)) + line_text("path"@, j.path@) + line_text(
            "root"@,
            j.root@,
        ) + line_text("cwd"@, j.cwd@) + line_text("ns.mnt"@, j.ns_mnt@) + line_text(
            "ns.user"@,
            j.ns_user@,
        ) + seq!['\n']) + (line_text(
            "uid"@,
            "r="@ + dec(j.uid.r as nat) + " e="@ + dec(j.uid.e as nat) + " s="@ + dec(
                j.uid.s as nat,
            ) + " fs="@ + dec(j.uid.fs as nat),
        ) + line_text(
            "gid"@,
            "r="@ + dec(j.gid.r as nat) + " e="@ + dec(j.gid.e as nat) + " s="@ + dec(
                j.gid.s as nat,
            ) + " fs="@ + dec(j.gid.fs as nat),
        ) + id_map_text("uid.map"@, j.uid_map@) + id_map_text("gid.map"@, j.gid_map@) + seq![
            '\n',
        ]) + (line_text(
            "inode"@,
            dec(j.inode->0 as nat) + "  dev "@ + dec(d.major as nat) + ":"@ + dec(d.minor as nat),
        ) + line_text(
            "owner"@,
            "disk "@ + dec(o.disk_uid as nat) + ":"@ + dec(o.disk_gid as nat) + "  mapped "@
                + mapped_id_text(o.mapped_uid) + ":"@ + mapped_id_text(o.mapped_gid),
        ) + line_text(
            "mount"@,
            "id="@ + dec(m.id as nat) + "  "@ + m.fstype@ + "  "@ + m.target@ + "  "@ + m.flags@,
        ) + indent_text("bind"@, m.bind@) + overlay_text(p.overlay) + warning_lines(
            strings_view(j.warnings@),
        )),
{
}

/// Each warning about a resolved path is given exactly when its condition
/// holds: read-only when `ro` is one of the mount's comma-separated options,
/// covered when the path and the mount target are equal up to trailing
/// slashes, unmapped uid or gid when the disk uid or gid has no mapping, and
/// the overlay warning when the mount is an overlay; no other text appears,
/// and none appears twice.
pub proof fn law_warning_conditions(path: Seq<char>, p: PathDetails)
    ensures
        warnings_spec(path, p).contains("mount is read-only"@) <==> split_on(
            p.mount_flags@,
            ',',
        ).contains("ro"@),
        warnings_spec(path, p).contains("path is covered by a mount"@) <==> norm_spec(path)
            == norm_spec(p.mount_target@),
        warnings_spec(path, p).contains("disk uid is unmapped in this user namespace"@) <==> (
        p.mapped_uid is None),
        warnings_spec(path, p).contains("disk gid is unmapped in this user namespace"@) <==> (
        p.mapped_gid is None),
        warnings_spec(path, p).contains("cannot prove overlay upper vs lower"@) <==> (
        p.overlay is Some),
        warnings_spec(path, p).len() == (if split_on(p.mount_flags@, ',').contains("ro"@) {
            1int
        } else {
            0
        }) + (if norm_spec(path) == norm_spec(p.mount_target@) {
            1int
        } else {
            0
        }) + (if p.mapped_uid is None {
            1int
        } else {
            0
        }) + (if p.mapped_gid is None {
            1int
        } else {
            0
        }) + (if p.overlay is Some {
            1int
        } else {
            0
        }),
{
    let m1 = "mount is read-only"@;
    let m2 = "path is covered by a mount"@;
    let m3 = "disk uid is unmapped in this user namespace"@;
    let m4 = "disk gid is unmapped in this user namespace"@;
    let m5 = "cannot prove overlay upper vs lower"@;
    reveal_strlit("mount is read-only");
    reveal_strlit("path is covered by a mount");
    reveal_strlit("disk uid is unmapped in this user namespace");
    reveal_strlit("disk gid is unmapped in this user namespace");
    reveal_strlit("cannot prove overlay upper vs lower");
    // the five messages are pairwise different: their first or fifth
    // characters differ
    assert(m1[0] == 'm' && m2[0] == 'p' && m3[0] == 'd' && m4[0] == 'd' && m5[0] == 'c');
    assert(m3[5] == 'u' && m4[5] == 'g');
    assert(m1 != m2 && m1 != m3 && m1 != m4 && m1 != m5);
    assert(m2 != m3 && m2 != m4 && m2 != m5);
    assert(m3 != m4 && m3 != m5 && m4 != m5);
    let w = warnings_spec(path, p);
    let c1 = has_option(p.mount_flags@, "ro"@);
    let c2 = norm_spec(path) == norm_spec(p.mount_target@);
    let c3 = p.mapped_uid is None;
    let c4 = p.mapped_gid is None;
    let c5 = p.overlay is Some;
    let a = warning_if(c1, m1);
    let b = warning_if(c2, m2);
    let c = warning_if(c3, m3);
    let d = warning_if(c4, m4);
    let e = warning_if(c5, m5);
    assert(w == a + b + c + d + e);
    assert forall|x: Seq<char>| w.contains(x) <==> (a.contains(x) || b.contains(x) || c.contains(x)
        || d.contains(x) || e.contains(x)) by {
        if w.contains(x) {
            let i = choose|i: int| 0 <= i < w.len() && w[i] == x;
            if i < a.len() {
                assert(a[i] == x);
            } else if i < a.len() + b.len() {
                assert(b[i - a.len()] == x);
            } else if i < a.len() + b.len() + c.len() {
                assert(c[i - a.len() - b.len()] == x);
            } else if i < a.len() + b.len() + c.len() + d.len() {
                assert(d[i - a.len() - b.len() - c.len()] == x);
            } else {
                assert(e[i - a.len() - b.len() - c.len() - d.len()] == x);
            }
        }
        if a.contains(x) {
            assert(w[0] == x);
        }
        if b.contains(x) {
            assert(w[a.len() as int] == x);
        }
        if c.contains(x) {
            assert(w[(a.len() + b.len()) as int] == x);
        }
        if d.contains(x) {
            assert(w[(a.len() + b.len() + c.len()) as int] == x);
        }
        if e.contains(x) {
            assert(w[(a.len() + b.len() + c.len() + d.len()) as int] == x);
        }
    }
    if c1 {
        assert(a[0] == m1);
    }
    if c2 {
        assert(b[0] == m2);
    }
    if c3 {
        assert(c[0] == m3);
    }
    if c4 {
        assert(d[0] == m4);
    }
    if c5 {
        assert(e[0] == m5);
    }
}

/// A path that failed to resolve gets just the context, the credentials and
/// one `error` line.
pub proof fn law_unresolved_text(r: InspectResult)
    requires
        !(r.outcome is Resolved),
    ensures
        inspect_text(r) == context_text(r) + creds_text(r) + line_text(
            "error"@,
            if r.outcome is Missing {
                ERR_MISSING@
            } else {
                ERR_ACCESS@
            },
        ),
{
}

} // verus!
