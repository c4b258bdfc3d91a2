//! `/proc/<pid>/mountinfo`: one mount per line, the fields the covering-mount
//! report needs, and the overlay directories kept in the super options.
use crate::text::{
    chars_of, copy_range, opt_str_view, dec, extend_chars, extend_str, first_index, has_prefix, lines, lines_of,
    nonblank_count, split_chars, split_on, starts_with, strip_prefix, trim, trim_chars, lemma_chars_deep_view, lemma_first_index_at,
    lemma_first_index_none, parse_u32, parse_u32_spec, push_dec, string_of, words, words_of,
};
use vstd::prelude::*;
use vstd::utf8::encode_utf8;

verus! {

/// One line of `/proc/<pid>/mountinfo`.
#[derive(Debug, Clone, PartialEq, Eq)]
pub struct MountInfo {
    pub id: u32,
    pub parent: u32,
    pub root: String,
    pub target: String,
    pub fstype: String,
    pub source: String,
    pub options: String,
    pub super_options: String,
}

/// The mathematical value of a `MountInfo`.
pub struct MountView {
    pub id: u32,
    pub parent: u32,
    pub root: Seq<char>,
    pub target: Seq<char>,
    pub fstype: Seq<char>,
    pub source: Seq<char>,
    pub options: Seq<char>,
    pub super_options: Seq<char>,
}

impl View for MountInfo {
    type V = MountView;

    open spec fn view(&self) -> MountView {
        MountView {
            id: self.id,
            parent: self.parent,
            root: self.root@,
            target: self.target@,
            fstype: self.fstype@,
            source: self.source@,
            options: self.options@,
            super_options: self.super_options@,
        }
    }
}

/// The overlay directories named in a mount's super options.
#[derive(Debug, Clone, PartialEq, Eq, Default)]
pub struct OverlayDirs {
    pub lowerdir: Option<String>,
    pub upperdir: Option<String>,
    pub workdir: Option<String>,
}

/// The mathematical value of an `OverlayDirs`.
pub struct OverlayView {
    pub lowerdir: Option<Seq<char>>,
    pub upperdir: Option<Seq<char>>,
    pub workdir: Option<Seq<char>>,
}

impl View for OverlayDirs {
    type V = OverlayView;

    open spec fn view(&self) -> OverlayView {
        OverlayView {
            lowerdir: opt_str_view(self.lowerdir),
            upperdir: opt_str_view(self.upperdir),
            workdir: opt_str_view(self.workdir),
        }
    }
}

// ---------------------------------------------------------------------------
// Octal escapes
// ---------------------------------------------------------------------------

pub open spec fn is_octal(b: u8) -> bool {
    48 <= b <= 55
}

/// The byte that the escape `\b1 b2 b3` stands for. The digits are shifted
/// into a byte, so a first digit above 3 loses its high bit.
pub open spec fn octal_byte(b1: u8, b2: u8, b3: u8) -> u8 {
    ((64 * (b1 - 48) + 8 * (b2 - 48) + (b3 - 48)) % 256) as u8
}

/// A mountinfo field with its `\ooo` escapes decoded. The field is read byte
/// by byte, and each byte becomes the character of the same number.
pub open spec fn unescape_spec(b: Seq<u8>) -> Seq<char>
    decreases b.len(),
{
    if b.len() == 0 {
        Seq::empty()
    } else if b[0] == 92 && b.len() > 3 && is_octal(b[1]) && is_octal(b[2]) && is_octal(b[3]) {
        seq![octal_byte(b[1], b[2], b[3]) as char] + unescape_spec(b.skip(4))
    } else {
        seq![b[0] as char] + unescape_spec(b.skip(1))
    }
}

/// The field `f` of a mountinfo line, unescaped.
pub open spec fn unescaped(f: Seq<char>) -> Seq<char> {
    unescape_spec(encode_utf8(f))
}

/// Decodes the `\ooo` octal escapes that mountinfo writes for spaces and a few
/// control characters.
pub fn unescape_mount_field(s: &str) -> (out: String)
    ensures
        out@ == unescaped(s@),
{
    let bytes = s.as_bytes();
    let ghost b = bytes@;
    let mut out: Vec<char> = Vec::new();
    let mut i: usize = 0;
    assert(b.skip(0) =~= b);
    while i < bytes.len()
        invariant
            i <= bytes.len(),
            b == bytes@,
            out@ + unescape_spec(b.skip(i as int)) == unescape_spec(b),
        decreases bytes.len() - i,
    {
        let ghost rest = b.skip(i as int);
        if bytes[i] == 92u8 && bytes.len() - i > 3 {
            let b1 = bytes[i + 1];
            let b2 = bytes[i + 2];
            let b3 = bytes[i + 3];
            if 48 <= b1 && b1 <= 55 && 48 <= b2 && b2 <= 55 && 48 <= b3 && b3 <= 55 {
                let val: u8 = ((64 * (b1 as u32 - 48) + 8 * (b2 as u32 - 48) + (b3 as u32 - 48))
                    % 256) as u8;
                assert(rest[0] == 92 && rest[1] == b1 && rest[2] == b2 && rest[3] == b3);
                assert(rest.skip(4) =~= b.skip(i + 4));
                out.push(val as char);
                i += 4;
                continue;
            }
        }
        assert(rest[0] == bytes@[i as int]);
        assert(rest.skip(1) =~= b.skip(i + 1));
        out.push(bytes[i] as char);
        i += 1;
    }
    assert(b.skip(i as int) =~= Seq::<u8>::empty());
    assert(out@ =~= unescape_spec(b));
    string_of(&out)
}

// ---------------------------------------------------------------------------
// Lines
// ---------------------------------------------------------------------------

pub open spec fn is_dash(f: Seq<char>) -> bool {
    f == seq!['-']
}

pub open spec fn dash_pred() -> spec_fn(Seq<char>) -> bool {
    |w: Seq<char>| is_dash(w)
}

/// One trimmed, non-empty mountinfo line:
/// `id parent maj:min root target options [optional...] - fstype source super`.
pub open spec fn mount_line_spec(line: Seq<char>) -> Result<MountView, Seq<char>> {
    let f = words(line);
    match first_index(f, dash_pred()) {
        None => Err("missing '-' separator"@),
        Some(sep) => if sep < 6 {
            Err("expected at least 6 fields before '-', got "@ + dec(sep as nat))
        } else if f.len() - sep < 4 {
            Err("expected fstype, source, and super options after '-'"@)
        } else {
            match parse_u32_spec(f[0]) {
                None => Err("bad mount id `"@ + f[0] + "`"@),
                Some(id) => match parse_u32_spec(f[1]) {
                    None => Err("bad parent id `"@ + f[1] + "`"@),
                    Some(parent) => Ok(
                        MountView {
                            id,
                            parent,
                            root: unescaped(f[3]),
                            target: unescaped(f[4]),
                            fstype: f[sep + 1],
                            source: unescaped(f[sep + 2]),
                            options: f[5],
                            super_options: f[sep + 3],
                        },
                    ),
                },
            }
        },
    }
}

/// Whether the word `w` is the separator `-`.
fn is_dash_word(w: &Vec<char>) -> (b: bool)
    ensures
        b == is_dash(w@),
{
    let b = w.len() == 1 && w[0] == '-';
    if b {
        assert(w@ =~= seq!['-']);
    }
    b
}

/// The message `prefix`, then `t`, then `suffix`.
fn quoted_message(prefix: &str, t: &[char], suffix: &str) -> (m: String)
    ensures
        m@ == prefix@ + t@ + suffix@,
{
    let mut v: Vec<char> = Vec::new();
    extend_str(&mut v, prefix);
    extend_chars(&mut v, t);
    extend_str(&mut v, suffix);
    string_of(&v)
}

/// Parses one line of `/proc/<pid>/mountinfo`.
pub fn parse_mountinfo_line(line: &str) -> (r: Result<MountInfo, String>)
    ensures
        match r {
            Ok(m) => mount_line_spec(line@) == Ok::<MountView, Seq<char>>(m@),
            Err(e) => mount_line_spec(line@) == Err::<MountView, Seq<char>>(e@),
        },
{
    let chars = chars_of(line);
    let fields = words_of(chars.as_slice());
    let ghost f = words(line@);
    let ghost p = dash_pred();
    let mut sep: usize = 0;
    while sep < fields.len() && !is_dash_word(&fields[sep])
        invariant
            sep <= fields.len(),
            fields.deep_view() == f,
            p == dash_pred(),
            forall|j: int| 0 <= j < sep ==> !p(#[trigger] f[j]),
        decreases fields.len() - sep,
    {
        proof {
            lemma_chars_deep_view(&fields@[sep as int]);
        }
        assert(!p(f[sep as int]));
        sep += 1;
    }
    if sep == fields.len() {
        proof {
            lemma_first_index_none(f, p);
        }
        return Err("missing '-' separator".to_owned());
    }
    proof {
        lemma_chars_deep_view(&fields@[sep as int]);
        lemma_first_index_at(f, p, sep as int);
    }
    if sep < 6 {
        let mut v: Vec<char> = Vec::new();
        extend_str(&mut v, "expected at least 6 fields before '-', got ");
        push_dec(&mut v, sep as u64);
        return Err(string_of(&v));
    }
    if fields.len() - sep < 4 {
        return Err("expected fstype, source, and super options after '-'".to_owned());
    }
    proof {
        assert forall|k: int| 0 <= k < fields.len() implies #[trigger] fields@[k]@ == f[k] by {
            lemma_chars_deep_view(&fields@[k]);
        }
    }
    let id = match parse_u32(fields[0].as_slice()) {
        Some(v) => v,
        None => {
            return Err(quoted_message("bad mount id `", fields[0].as_slice(), "`"));
        },
    };
    let parent = match parse_u32(fields[1].as_slice()) {
        Some(v) => v,
        None => {
            return Err(quoted_message("bad parent id `", fields[1].as_slice(), "`"));
        },
    };
    let root_raw = string_of(fields[3].as_slice());
    let target_raw = string_of(fields[4].as_slice());
    let source_raw = string_of(fields[sep + 2].as_slice());
    Ok(
        MountInfo {
            id,
            parent,
            root: unescape_mount_field(root_raw.as_str()),
            target: unescape_mount_field(target_raw.as_str()),
            fstype: string_of(fields[sep + 1].as_slice()),
            source: unescape_mount_field(source_raw.as_str()),
            options: string_of(fields[5].as_slice()),
            super_options: string_of(fields[sep + 3].as_slice()),
        },
    )
}


/// The mounts of the first `k` lines of `ls`, or the error of the first line
/// among them that does not parse. Blank lines are skipped; lines count from 1.
pub open spec fn mounts_from(ls: Seq<Seq<char>>, k: nat) -> Result<Seq<MountView>, Seq<char>>
    decreases k,
{
    if k == 0 {
        Ok(Seq::empty())
    } else {
        match mounts_from(ls, (k - 1) as nat) {
            Err(e) => Err(e),
            Ok(ms) => {
                let l = trim(ls[k - 1]);
                if l.len() == 0 {
                    Ok(ms)
                } else {
                    match mount_line_spec(l) {
                        Ok(m) => Ok(ms.push(m)),
                        Err(e) => Err("mountinfo line "@ + dec(k) + ": "@ + e),
                    }
                }
            },
        }
    }
}

/// Once a line fails, every longer prefix fails with the same error.
pub proof fn lemma_mounts_from_err_sticks(ls: Seq<Seq<char>>, k: nat, n: nat)
    requires
        k <= n,
        mounts_from(ls, k) is Err,
    ensures
        mounts_from(ls, n) == mounts_from(ls, k),
    decreases n,
{
    if n > k {
        lemma_mounts_from_err_sticks(ls, k, (n - 1) as nat);
    }
}

/// The mounts of a whole mountinfo text.
pub open spec fn parse_mountinfo_spec(text: Seq<char>) -> Result<Seq<MountView>, Seq<char>> {
    mounts_from(lines(text), lines(text).len())
}

pub open spec fn mounts_view(v: Seq<MountInfo>) -> Seq<MountView> {
    v.map_values(|m: MountInfo| m@)
}

/// Parses the text of `/proc/<pid>/mountinfo`.
pub fn parse_mountinfo(text: &str) -> (r: Result<Vec<MountInfo>, String>)
    ensures
        match r {
            Ok(v) => parse_mountinfo_spec(text@) == Ok::<Seq<MountView>, Seq<char>>(
                mounts_view(v@),
            ),
            Err(e) => parse_mountinfo_spec(text@) == Err::<Seq<MountView>, Seq<char>>(e@),
        },
{
    let cs = chars_of(text);
    let ls = lines_of(cs.as_slice());
    let ghost l = lines(text@);
    let mut mounts: Vec<MountInfo> = Vec::new();
    let mut i: usize = 0;
    assert(mounts_view(mounts@) =~= Seq::<MountView>::empty());
    while i < ls.len()
        invariant
            i <= ls.len(),
            ls.deep_view() == l,
            l == lines(text@),
            mounts_from(l, i as nat) == Ok::<Seq<MountView>, Seq<char>>(mounts_view(mounts@)),
        decreases ls.len() - i,
    {
        proof {
            lemma_chars_deep_view(&ls@[i as int]);
        }
        let line = trim_chars(ls[i].as_slice());
        if line.len() > 0 {
            let line_text = string_of(line.as_slice());
            match parse_mountinfo_line(line_text.as_str()) {
                Ok(m) => {
                    let ghost before = mounts_view(mounts@);
                    mounts.push(m);
                    assert(mounts_view(mounts@) =~= before.push(m@));
                },
                Err(e) => {
                    let mut v: Vec<char> = Vec::new();
                    extend_str(&mut v, "mountinfo line ");
                    push_dec(&mut v, i as u64 + 1);
                    extend_str(&mut v, ": ");
                    extend_str(&mut v, e.as_str());
                    assert(v@ =~= "mountinfo line "@ + dec((i + 1) as nat) + ": "@ + e@);
                    assert(mounts_from(l, (i + 1) as nat) == Err::<Seq<MountView>, Seq<char>>(
                        v@,
                    ));
                    proof {
                        lemma_mounts_from_err_sticks(l, (i + 1) as nat, l.len());
                    }
                    return Err(string_of(&v));
                },
            }
        }
        i += 1;
    }
    Ok(mounts)
}

pub open spec fn has_id(id: u64) -> spec_fn(MountInfo) -> bool {
    |m: MountInfo| m.id as u64 == id
}

/// The first mount whose id is `id`.
pub fn find_mount(mounts: &[MountInfo], id: u64) -> (r: Option<&MountInfo>)
    ensures
        match first_index(mounts@, has_id(id)) {
            Some(k) => r == Some(&mounts@[k]),
            None => r is None,
        },
{
    let mut i: usize = 0;
    while i < mounts.len()
        invariant
            i <= mounts.len(),
            forall|j: int| 0 <= j < i ==> !has_id(id)(#[trigger] mounts@[j]),
        decreases mounts.len() - i,
    {
        if mounts[i].id as u64 == id {
            proof {
                lemma_first_index_at(mounts@, has_id(id), i as int);
            }
            return Some(&mounts[i]);
        }
        i += 1;
    }
    proof {
        lemma_first_index_none(mounts@, has_id(id));
    }
    None
}

// ---------------------------------------------------------------------------
// Overlay directories
// ---------------------------------------------------------------------------

pub open spec fn no_overlay_dirs() -> OverlayView {
    OverlayView { lowerdir: None, upperdir: None, workdir: None }
}

/// The effect of one comma-separated super option on the overlay directories.
pub open spec fn overlay_step(d: OverlayView, part: Seq<char>) -> OverlayView {
    let u = unescaped(part);
    if let Some(v) = strip_prefix(u, "lowerdir="@) {
        OverlayView { lowerdir: Some(v), ..d }
    } else if let Some(v) = strip_prefix(u, "upperdir="@) {
        OverlayView { upperdir: Some(v), ..d }
    } else if let Some(v) = strip_prefix(u, "workdir="@) {
        OverlayView { workdir: Some(v), ..d }
    } else {
        d
    }
}

/// The overlay directories named in `super_options`; a later option for the
/// same directory overrides an earlier one.
pub open spec fn overlay_dirs_spec(super_options: Seq<char>) -> OverlayView {
    split_on(super_options, ',').fold_left(no_overlay_dirs(), |d: OverlayView, part: Seq<char>| overlay_step(d, part))
}

/// If `u` begins with `key`, the rest of `u` as a `String`.
fn option_value(u: &[char], key: &str) -> (r: Option<String>)
    ensures
        opt_str_view(r) == strip_prefix(u@, key@),
{
    let k = chars_of(key);
    if has_prefix(u, k.as_slice()) {
        let rest = copy_range(u, k.len(), u.len());
        assert(rest@ =~= u@.skip(key@.len() as int));
        Some(string_of(rest.as_slice()))
    } else {
        None
    }
}

/// lowerdir/upperdir/workdir live in super options (after '-'), not vfs options.
pub fn parse_overlay_dirs(super_options: &str) -> (dirs: OverlayDirs)
    ensures
        dirs@ == overlay_dirs_spec(super_options@),
{
    let cs = chars_of(super_options);
    let parts = split_chars(cs.as_slice(), ',');
    let ghost ps = split_on(super_options@, ',');
    let ghost f = |d: OverlayView, part: Seq<char>| overlay_step(d, part);
    let mut dirs = OverlayDirs { lowerdir: None, upperdir: None, workdir: None };
    let mut i: usize = 0;
    assert(ps.take(0) =~= Seq::<Seq<char>>::empty());
    while i < parts.len()
        invariant
            i <= parts.len(),
            parts.deep_view() == ps,
            f == (|d: OverlayView, part: Seq<char>| overlay_step(d, part)),
            dirs@ == ps.take(i as int).fold_left(no_overlay_dirs(), f),
        decreases parts.len() - i,
    {
        proof {
            lemma_chars_deep_view(&parts@[i as int]);
        }
        let raw = string_of(parts[i].as_slice());
        let part = unescape_mount_field(raw.as_str());
        let u = chars_of(part.as_str());
        let ghost before = dirs@;
        let low = option_value(u.as_slice(), "lowerdir=");
        if low.is_some() {
            dirs.lowerdir = low;
        } else {
            let up = option_value(u.as_slice(), "upperdir=");
            if up.is_some() {
                dirs.upperdir = up;
            } else {
                let work = option_value(u.as_slice(), "workdir=");
                if work.is_some() {
                    dirs.workdir = work;
                }
            }
        }
        assert(ps.take(i + 1).drop_last() =~= ps.take(i as int));
        assert(dirs@ == overlay_step(before, ps[i as int]));
        i += 1;
    }
    assert(ps.take(parts.len() as int) =~= ps);
    dirs
}


// ---------------------------------------------------------------------------
// Laws
// ---------------------------------------------------------------------------

proof fn lemma_mounts_from_len(ls: Seq<Seq<char>>, k: nat)
    ensures
        mounts_from(ls, k) matches Ok(ms) ==> ms.len() == nonblank_count(ls, k),
    decreases k,
{
    if k > 0 {
        lemma_mounts_from_len(ls, (k - 1) as nat);
    }
}

/// A mount table that parses has exactly one mount for each line that is not
/// blank.
pub proof fn law_one_mount_per_line(text: Seq<char>)
    ensures
        parse_mountinfo_spec(text) matches Ok(ms) ==> ms.len() == nonblank_count(
            lines(text),
            lines(text).len(),
        ),
{
    lemma_mounts_from_len(lines(text), lines(text).len());
}

/// A line whose first `-` word stands at `sep`, with at least six words
/// before it and three after it, and whose first two words are numbers, is
/// the mount these words name: the id, the parent, the root (unescaped), the
/// target (unescaped) and the options before `-`; the filesystem type, the
/// source (unescaped) and the super options after it. The device number, the
/// optional fields before `-` and any words after the super options play no
/// part.
pub proof fn law_mount_line_fields(line: Seq<char>, sep: int)
    requires
        0 <= sep < words(line).len(),
        is_dash(words(line)[sep]),
        forall|j: int| 0 <= j < sep ==> !is_dash(#[trigger] words(line)[j]),
        sep >= 6,
        words(line).len() - sep >= 4,
        parse_u32_spec(words(line)[0]) is Some,
        parse_u32_spec(words(line)[1]) is Some,
    ensures
        mount_line_spec(line) == Ok::<MountView, Seq<char>>(
            MountView {
                id: parse_u32_spec(words(line)[0])->0,
                parent: parse_u32_spec(words(line)[1])->0,
                root: unescaped(words(line)[3]),
                target: unescaped(words(line)[4]),
                fstype: words(line)[sep + 1],
                source: unescaped(words(line)[sep + 2]),
                options: words(line)[5],
                super_options: words(line)[sep + 3],
            },
        ),
{
    let f = words(line);
    assert forall|j: int| 0 <= j < sep implies !dash_pred()(#[trigger] f[j]) by {}
    lemma_first_index_at(f, dash_pred(), sep);
}

/// A field without a backslash is taken byte for byte.
pub proof fn law_unescape_without_backslash(b: Seq<u8>)
    requires
        forall|i: int| 0 <= i < b.len() ==> b[i] != 92,
    ensures
        unescape_spec(b) == b.map_values(|x: u8| x as char),
    decreases b.len(),
{
    if b.len() > 0 {
        assert forall|i: int| 0 <= i < b.skip(1).len() implies b.skip(1)[i] != 92 by {
            assert(b.skip(1)[i] == b[i + 1]);
        }
        law_unescape_without_backslash(b.skip(1));
        assert(unescape_spec(b) =~= b.map_values(|x: u8| x as char));
    }
}

/// An escape `\ooo` of three octal digits stands for one character, and the
/// rest of the field follows it unchanged by the escape.
pub proof fn law_unescape_octal(b1: u8, b2: u8, b3: u8, rest: Seq<u8>)
    requires
        is_octal(b1),
        is_octal(b2),
        is_octal(b3),
    ensures
        unescape_spec(seq![92u8, b1, b2, b3] + rest) == seq![octal_byte(b1, b2, b3) as char]
            + unescape_spec(rest),
{
    let b = seq![92u8, b1, b2, b3] + rest;
    assert(b.skip(4) =~= rest);
}

/// Super options that name none of `lowerdir=`, `upperdir=` and `workdir=`
/// give no overlay directories.
pub proof fn law_overlay_dirs_absent(super_options: Seq<char>)
    requires
        forall|i: int|
            0 <= i < split_on(super_options, ',').len() ==> {
                let u = unescaped(#[trigger] split_on(super_options, ',')[i]);
                !starts_with(u, "lowerdir="@) && !starts_with(u, "upperdir="@) && !starts_with(
                    u,
                    "workdir="@,
                )
            },
    ensures
        overlay_dirs_spec(super_options) == no_overlay_dirs(),
{
    let ps = split_on(super_options, ',');
    lemma_fold_no_keys(ps, ps.len() as int);
    assert(ps.take(ps.len() as int) =~= ps);
}

/// Among the first `k` options, option `j` is the last that begins with `key`,
/// and `v` follows the key in it (all after unescaping).
pub open spec fn last_option(ps: Seq<Seq<char>>, k: int, key: Seq<char>, v: Seq<char>) -> bool {
    exists|j: int|
        0 <= j < k && strip_prefix(unescaped(#[trigger] ps[j]), key) == Some(v) && forall|jj: int|
            j < jj < k ==> !starts_with(unescaped(#[trigger] ps[jj]), key)
}

/// None of the first `k` options begins with `key` (after unescaping).
pub open spec fn no_option(ps: Seq<Seq<char>>, k: int, key: Seq<char>) -> bool {
    forall|j: int| 0 <= j < k ==> !starts_with(unescaped(#[trigger] ps[j]), key)
}

/// The overlay field that option `key` sets says what the options say of it.
pub open spec fn field_from_options(
    field: Option<Seq<char>>,
    ps: Seq<Seq<char>>,
    k: int,
    key: Seq<char>,
) -> bool {
    match field {
        Some(v) => last_option(ps, k, key, v),
        None => no_option(ps, k, key),
    }
}

proof fn lemma_overlay_keys_differ(u: Seq<char>)
    ensures
        !(starts_with(u, "lowerdir="@) && starts_with(u, "upperdir="@)),
        !(starts_with(u, "lowerdir="@) && starts_with(u, "workdir="@)),
        !(starts_with(u, "upperdir="@) && starts_with(u, "workdir="@)),
{
    reveal_strlit("lowerdir=");
    reveal_strlit("upperdir=");
    reveal_strlit("workdir=");
    if starts_with(u, "lowerdir="@) {
        assert(u.take(9)[0] == 'l');
        assert(u[0] == 'l');
    }
    if starts_with(u, "upperdir="@) {
        assert(u.take(9)[0] == 'u');
        assert(u[0] == 'u');
    }
    if starts_with(u, "workdir="@) {
        assert(u.take(8)[0] == 'w');
        assert(u[0] == 'w');
    }
}

proof fn lemma_field_keep(field: Option<Seq<char>>, ps: Seq<Seq<char>>, k: int, key: Seq<char>)
    requires
        0 <= k < ps.len(),
        field_from_options(field, ps, k, key),
        !starts_with(unescaped(ps[k]), key),
    ensures
        field_from_options(field, ps, k + 1, key),
{
    if let Some(v) = field {
        let j = choose|j: int|
            0 <= j < k && strip_prefix(unescaped(#[trigger] ps[j]), key) == Some(v) && forall|jj: int|
                j < jj < k ==> !starts_with(unescaped(#[trigger] ps[jj]), key);
        assert(strip_prefix(unescaped(ps[j]), key) == Some(v));
    }
}

proof fn lemma_field_set(ps: Seq<Seq<char>>, k: int, key: Seq<char>, v: Seq<char>)
    requires
        0 <= k < ps.len(),
        strip_prefix(unescaped(ps[k]), key) == Some(v),
    ensures
        field_from_options(Some(v), ps, k + 1, key),
{
    assert(strip_prefix(unescaped(ps[k]), key) == Some(v));
}

proof fn lemma_overlay_fold_fields(ps: Seq<Seq<char>>, k: int)
    requires
        0 <= k <= ps.len(),
    ensures
        ({
            let d = ps.take(k).fold_left(
                no_overlay_dirs(),
                |d: OverlayView, part: Seq<char>| overlay_step(d, part),
            );
            &&& field_from_options(d.lowerdir, ps, k, "lowerdir="@)
            &&& field_from_options(d.upperdir, ps, k, "upperdir="@)
            &&& field_from_options(d.workdir, ps, k, "workdir="@)
        }),
    decreases k,
{
    if k > 0 {
        lemma_overlay_fold_fields(ps, k - 1);
        let f = |d: OverlayView, part: Seq<char>| overlay_step(d, part);
        let d0 = ps.take(k - 1).fold_left(no_overlay_dirs(), f);
        assert(ps.take(k).drop_last() =~= ps.take(k - 1));
        assert(ps.take(k).last() == ps[k - 1]);
        let u = unescaped(ps[k - 1]);
        lemma_overlay_keys_differ(u);
        if let Some(v) = strip_prefix(u, "lowerdir="@) {
            lemma_field_set(ps, k - 1, "lowerdir="@, v);
            lemma_field_keep(d0.upperdir, ps, k - 1, "upperdir="@);
            lemma_field_keep(d0.workdir, ps, k - 1, "workdir="@);
        } else if let Some(v) = strip_prefix(u, "upperdir="@) {
            lemma_field_keep(d0.lowerdir, ps, k - 1, "lowerdir="@);
            lemma_field_set(ps, k - 1, "upperdir="@, v);
            lemma_field_keep(d0.workdir, ps, k - 1, "workdir="@);
        } else if let Some(v) = strip_prefix(u, "workdir="@) {
            lemma_field_keep(d0.lowerdir, ps, k - 1, "lowerdir="@);
            lemma_field_keep(d0.upperdir, ps, k - 1, "upperdir="@);
            lemma_field_set(ps, k - 1, "workdir="@, v);
        } else {
            lemma_field_keep(d0.lowerdir, ps, k - 1, "lowerdir="@);
            lemma_field_keep(d0.upperdir, ps, k - 1, "upperdir="@);
            lemma_field_keep(d0.workdir, ps, k - 1, "workdir="@);
        }
    }
}

/// Each overlay directory comes from the last comma-separated super option
/// that begins with its key (`lowerdir=`, `upperdir=`, `workdir=`), after
/// unescaping, and is what follows the key there; it is absent when no option
/// begins with the key.
pub proof fn law_overlay_dirs_from_last_option(super_options: Seq<char>)
    ensures
        ({
            let ps = split_on(super_options, ',');
            let d = overlay_dirs_spec(super_options);
            &&& field_from_options(d.lowerdir, ps, ps.len() as int, "lowerdir="@)
            &&& field_from_options(d.upperdir, ps, ps.len() as int, "upperdir="@)
            &&& field_from_options(d.workdir, ps, ps.len() as int, "workdir="@)
        }),
{
    let ps = split_on(super_options, ',');
    lemma_overlay_fold_fields(ps, ps.len() as int);
    assert(ps.take(ps.len() as int) =~= ps);
}

/// The first mount with a given id: `find_mount` returns mount `k` exactly
/// when mount `k` has that id and no earlier one does, and nothing exactly
/// when no mount has it.
pub proof fn law_find_mount_first(mounts: Seq<MountInfo>, id: u64)
    ensures
        first_index(mounts, has_id(id)) matches Some(k) ==> 0 <= k < mounts.len()
            && mounts[k].id as u64 == id && forall|j: int|
            0 <= j < k ==> (#[trigger] mounts[j]).id as u64 != id,
        first_index(mounts, has_id(id)) is None ==> forall|j: int|
            0 <= j < mounts.len() ==> (#[trigger] mounts[j]).id as u64 != id,
{
    crate::text::lemma_first_index_props(mounts, has_id(id));
    if let Some(k) = first_index(mounts, has_id(id)) {
        assert forall|j: int| 0 <= j < k implies (#[trigger] mounts[j]).id as u64 != id by {
            assert(!has_id(id)(mounts[j]));
        }
    } else {
        assert forall|j: int| 0 <= j < mounts.len() implies (#[trigger] mounts[j]).id as u64
            != id by {
            assert(!has_id(id)(mounts[j]));
        }
    }
}

/// An escape of three octal digits, the first at most 3, stands for the byte
/// those digits write in base eight.
pub proof fn law_octal_byte_value(b1: u8, b2: u8, b3: u8)
    requires
        48 <= b1 <= 51,
        is_octal(b2),
        is_octal(b3),
    ensures
        octal_byte(b1, b2, b3) == (b1 - 48) * 64 + (b2 - 48) * 8 + (b3 - 48),
{
}

proof fn lemma_fold_no_keys(ps: Seq<Seq<char>>, k: int)
    requires
        0 <= k <= ps.len(),
        forall|i: int|
            0 <= i < ps.len() ==> {
                let u = unescaped(#[trigger] ps[i]);
                !starts_with(u, "lowerdir="@) && !starts_with(u, "upperdir="@) && !starts_with(
                    u,
                    "workdir="@,
                )
            },
    ensures
        ps.take(k).fold_left(
            no_overlay_dirs(),
            |d: OverlayView, part: Seq<char>| overlay_step(d, part),
        ) == no_overlay_dirs(),
    decreases k,
{
    if k > 0 {
        lemma_fold_no_keys(ps, k - 1);
        assert(ps.take(k).drop_last() =~= ps.take(k - 1));
        assert(ps.take(k).last() == ps[k - 1]);
    }
}

} // verus!
