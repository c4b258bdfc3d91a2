//! The process credentials in `/proc/<pid>/status`, the user-namespace id
//! maps in `/proc/<pid>/uid_map` and `gid_map`, and mapping an id through them.
use crate::report::{entry_fields_text, MapEntry};
use crate::text::{
    chars_of, dec, is_digit, is_ws, lemma_dec_digits, lemma_parse_dec, lemma_split_on_append,
    lemma_split_on_nonempty, lemma_split_on_push_sep, lemma_word_scan_append, nonblank_count,
    split_on, starts_with, strip_cr, trim_end, trim_start, word_scan, extend_chars, extend_str, first_index, has_prefix, lemma_chars_deep_view,
    lemma_first_index_at, lemma_first_index_none, lines, lines_of, parse_u32, parse_u32_spec,
    push_dec, string_of, strip_prefix, trim, trim_chars, words, words_of, copy_range,
};
use vstd::prelude::*;

verus! {

/// The real, effective, saved and filesystem ids of a process.
#[derive(Debug, PartialEq, Eq)]
pub struct Creds {
    pub uid: [u32; 4],
    pub gid: [u32; 4],
}

// ---------------------------------------------------------------------------
// status
// ---------------------------------------------------------------------------

pub open spec fn unparsable() -> spec_fn(Seq<char>) -> bool {
    |s: Seq<char>| parse_u32_spec(s) is None
}

/// The four ids after `Uid:` or `Gid:` in a status line; `label` names the
/// line in the error.
pub open spec fn id_line_spec(label: Seq<char>, rest: Seq<char>) -> Result<Seq<u32>, Seq<char>> {
    let nums = words(rest);
    if nums.len() != 4 {
        Err(label + " line needs 4 fields, got "@ + dec(nums.len()))
    } else {
        match first_index(nums, unparsable()) {
            Some(k) => Err("bad "@ + label + " value `"@ + nums[k] + "`"@),
            None => Ok(nums.map_values(|s: Seq<char>| parse_u32_spec(s)->0)),
        }
    }
}

/// The ids found in the first `k` lines of a status text, or the error of the
/// first `Uid:` or `Gid:` line among them that does not parse. A later line
/// overrides an earlier one.
pub open spec fn status_from(ls: Seq<Seq<char>>, k: nat) -> Result<
    (Option<Seq<u32>>, Option<Seq<u32>>),
    Seq<char>,
>
    decreases k,
{
    if k == 0 {
        Ok((None, None))
    } else {
        match status_from(ls, (k - 1) as nat) {
            Err(e) => Err(e),
            Ok((u, g)) => {
                let line = ls[k - 1];
                if let Some(rest) = strip_prefix(line, "Uid:"@) {
                    match id_line_spec("Uid"@, rest) {
                        Ok(v) => Ok((Some(v), g)),
                        Err(e) => Err(e),
                    }
                } else if let Some(rest) = strip_prefix(line, "Gid:"@) {
                    match id_line_spec("Gid"@, rest) {
                        Ok(v) => Ok((u, Some(v))),
                        Err(e) => Err(e),
                    }
                } else {
                    Ok((u, g))
                }
            },
        }
    }
}

/// The uid and gid quadruples of a status text.
pub open spec fn status_spec(text: Seq<char>) -> Result<(Seq<u32>, Seq<u32>), Seq<char>> {
    let ls = lines(text);
    match status_from(ls, ls.len()) {
        Err(e) => Err(e),
        Ok((Some(u), Some(g))) => Ok((u, g)),
        Ok((None, _)) => Err("status missing Uid line"@),
        Ok((_, None)) => Err("status missing Gid line"@),
    }
}

/// Parses the four ids of a `Uid:` or `Gid:` status line.
pub fn parse_status_id_line(label: &str, rest: &[char]) -> (r: Result<[u32; 4], String>)
    ensures
        match r {
            Ok(a) => id_line_spec(label@, rest@) == Ok::<Seq<u32>, Seq<char>>(a@),
            Err(e) => id_line_spec(label@, rest@) == Err::<Seq<u32>, Seq<char>>(e@),
        },
{
    let nums = words_of(rest);
    let ghost ns = words(rest@);
    if nums.len() != 4 {
        let mut v: Vec<char> = Vec::new();
        extend_str(&mut v, label);
        extend_str(&mut v, " line needs 4 fields, got ");
        push_dec(&mut v, nums.len() as u64);
        return Err(string_of(&v));
    }
    proof {
        assert forall|k: int| 0 <= k < nums.len() implies #[trigger] nums@[k]@ == ns[k] by {
            lemma_chars_deep_view(&nums@[k]);
        }
    }
    let mut vals: Vec<u32> = Vec::new();
    let mut i: usize = 0;
    while i < 4
        invariant
            i <= 4,
            nums.len() == 4,
            nums.deep_view() == ns,
            ns == words(rest@),
            forall|k: int| 0 <= k < nums.len() ==> #[trigger] nums@[k]@ == ns[k],
            vals.len() == i,
            forall|j: int| 0 <= j < i ==> !unparsable()(#[trigger] ns[j]),
            forall|j: int| 0 <= j < i ==> Some(#[trigger] vals@[j]) == parse_u32_spec(ns[j]),
        decreases 4 - i,
    {
        match parse_u32(nums[i].as_slice()) {
            Some(x) => vals.push(x),
            None => {
                proof {
                    lemma_first_index_at(ns, unparsable(), i as int);
                }
                let mut v: Vec<char> = Vec::new();
                extend_str(&mut v, "bad ");
                extend_str(&mut v, label);
                extend_str(&mut v, " value `");
                extend_chars(&mut v, nums[i].as_slice());
                extend_str(&mut v, "`");
                assert(v@ =~= "bad "@ + label@ + " value `"@ + ns[i as int] + "`"@);
                return Err(string_of(&v));
            },
        }
        i += 1;
    }
    proof {
        lemma_first_index_none(ns, unparsable());
    }
    let a = [vals[0], vals[1], vals[2], vals[3]];
    assert(a@ =~= ns.map_values(|s: Seq<char>| parse_u32_spec(s)->0));
    Ok(a)
}

/// Parses the `Uid:` and `Gid:` lines of `/proc/<pid>/status`.
pub fn parse_status_ids(text: &str) -> (r: Result<Creds, String>)
    ensures
        match r {
            Ok(c) => status_spec(text@) == Ok::<(Seq<u32>, Seq<u32>), Seq<char>>(
                (c.uid@, c.gid@),
            ),
            Err(e) => status_spec(text@) == Err::<(Seq<u32>, Seq<u32>), Seq<char>>(e@),
        },
{
    let cs = chars_of(text);
    let ls = lines_of(cs.as_slice());
    let ghost l = lines(text@);
    let uid_key = chars_of("Uid:");
    let gid_key = chars_of("Gid:");
    let mut uid: Option<[u32; 4]> = None;
    let mut gid: Option<[u32; 4]> = None;
    let mut i: usize = 0;
    while i < ls.len()
        invariant
            i <= ls.len(),
            ls.deep_view() == l,
            l == lines(text@),
            uid_key@ == "Uid:"@,
            gid_key@ == "Gid:"@,
            status_from(l, i as nat) == Ok::<(Option<Seq<u32>>, Option<Seq<u32>>), Seq<char>>(
                (opt_ids(uid), opt_ids(gid)),
            ),
        decreases ls.len() - i,
    {
        proof {
            lemma_chars_deep_view(&ls@[i as int]);
        }
        let line = ls[i].as_slice();
        if has_prefix(line, uid_key.as_slice()) {
            let rest = copy_range(line, uid_key.len(), line.len());
            assert(rest@ =~= line@.skip(uid_key@.len() as int));
            match parse_status_id_line("Uid", rest.as_slice()) {
                Ok(a) => uid = Some(a),
                Err(e) => {
                    proof {
                        lemma_status_from_err_sticks(l, (i + 1) as nat, l.len());
                    }
                    return Err(e);
                },
            }
        } else if has_prefix(line, gid_key.as_slice()) {
            let rest = copy_range(line, gid_key.len(), line.len());
            assert(rest@ =~= line@.skip(gid_key@.len() as int));
            match parse_status_id_line("Gid", rest.as_slice()) {
                Ok(a) => gid = Some(a),
                Err(e) => {
                    proof {
                        lemma_status_from_err_sticks(l, (i + 1) as nat, l.len());
                    }
                    return Err(e);
                },
            }
        }
        i += 1;
    }
    match (uid, gid) {
        (Some(u), Some(g)) => Ok(Creds { uid: u, gid: g }),
        (None, _) => Err("status missing Uid line".to_owned()),
        (_, None) => Err("status missing Gid line".to_owned()),
    }
}

pub open spec fn opt_ids(o: Option<[u32; 4]>) -> Option<Seq<u32>> {
    match o {
        Some(a) => Some(a@),
        None => None,
    }
}

/// Once a status line fails, every longer prefix fails with the same error.
pub proof fn lemma_status_from_err_sticks(ls: Seq<Seq<char>>, k: nat, n: nat)
    requires
        k <= n,
        status_from(ls, k) is Err,
    ensures
        status_from(ls, n) == status_from(ls, k),
    decreases n,
{
    if n > k {
        lemma_status_from_err_sticks(ls, k, (n - 1) as nat);
    }
}


// ---------------------------------------------------------------------------
// uid_map / gid_map
// ---------------------------------------------------------------------------

/// `"id map line <k>: <what>"`.
pub open spec fn id_map_error(k: nat, what: Seq<char>) -> Seq<char> {
    "id map line "@ + dec(k) + ": "@ + what
}

/// The entries of the first `k` lines of an id map, or the error of the first
/// line among them that does not parse. Blank lines are skipped; lines count
/// from 1.
pub open spec fn id_map_from(ls: Seq<Seq<char>>, k: nat) -> Result<Seq<MapEntry>, Seq<char>>
    decreases k,
{
    if k == 0 {
        Ok(Seq::empty())
    } else {
        match id_map_from(ls, (k - 1) as nat) {
            Err(e) => Err(e),
            Ok(es) => {
                let line = trim(ls[k - 1]);
                let parts = words(line);
                if line.len() == 0 {
                    Ok(es)
                } else if parts.len() != 3 {
                    Err(id_map_error(k, "expected 3 fields, got "@ + dec(parts.len())))
                } else {
                    match (
                        parse_u32_spec(parts[0]),
                        parse_u32_spec(parts[1]),
                        parse_u32_spec(parts[2]),
                    ) {
                        (None, _, _) => Err(id_map_error(k, "bad first id `"@ + parts[0] + "`"@)),
                        (_, None, _) => Err(id_map_error(k, "bad lower id `"@ + parts[1] + "`"@)),
                        (_, _, None) => Err(id_map_error(k, "bad count `"@ + parts[2] + "`"@)),
                        (Some(first), Some(lower_first), Some(count)) => Ok(
                            es.push(MapEntry { first, lower_first, count }),
                        ),
                    }
                }
            },
        }
    }
}

/// The entries of a whole `uid_map` or `gid_map` text.
pub open spec fn id_map_spec(text: Seq<char>) -> Result<Seq<MapEntry>, Seq<char>> {
    id_map_from(lines(text), lines(text).len())
}

/// Once an id map line fails, every longer prefix fails with the same error.
pub proof fn lemma_id_map_from_err_sticks(ls: Seq<Seq<char>>, k: nat, n: nat)
    requires
        k <= n,
        id_map_from(ls, k) is Err,
    ensures
        id_map_from(ls, n) == id_map_from(ls, k),
    decreases n,
{
    if n > k {
        lemma_id_map_from_err_sticks(ls, k, (n - 1) as nat);
    }
}

/// `"id map line <k>: <what>"` built from its parts.
fn id_map_message(k: usize, what: &str, field: &[char], close: &str) -> (m: String)
    requires
        k < usize::MAX,
    ensures
        m@ == id_map_error((k + 1) as nat, what@ + field@ + close@),
{
    let mut v: Vec<char> = Vec::new();
    extend_str(&mut v, "id map line ");
    push_dec(&mut v, k as u64 + 1);
    extend_str(&mut v, ": ");
    extend_str(&mut v, what);
    extend_chars(&mut v, field);
    extend_str(&mut v, close);
    assert(v@ =~= id_map_error((k + 1) as nat, what@ + field@ + close@));
    string_of(&v)
}

/// Parses the text of `/proc/<pid>/uid_map` or `gid_map`.
pub fn parse_id_map(text: &str) -> (r: Result<Vec<MapEntry>, String>)
    ensures
        match r {
            Ok(v) => id_map_spec(text@) == Ok::<Seq<MapEntry>, Seq<char>>(v@),
            Err(e) => id_map_spec(text@) == Err::<Seq<MapEntry>, Seq<char>>(e@),
        },
{
    let cs = chars_of(text);
    let ls = lines_of(cs.as_slice());
    let ghost l = lines(text@);
    let mut entries: Vec<MapEntry> = Vec::new();
    let mut i: usize = 0;
    while i < ls.len()
        invariant
            i <= ls.len(),
            ls.deep_view() == l,
            l == lines(text@),
            id_map_from(l, i as nat) == Ok::<Seq<MapEntry>, Seq<char>>(entries@),
        decreases ls.len() - i,
    {
        proof {
            lemma_chars_deep_view(&ls@[i as int]);
        }
        let line = trim_chars(ls[i].as_slice());
        if line.len() > 0 {
            let parts = words_of(line.as_slice());
            let ghost ps = words(line@);
            if parts.len() != 3 {
                let mut v: Vec<char> = Vec::new();
                extend_str(&mut v, "id map line ");
                push_dec(&mut v, i as u64 + 1);
                extend_str(&mut v, ": expected 3 fields, got ");
                push_dec(&mut v, parts.len() as u64);
                proof {
                    reveal_strlit(": expected 3 fields, got ");
                    reveal_strlit("expected 3 fields, got ");
                    reveal_strlit(": ");
                }
                assert(v@ =~= id_map_error(
                    (i + 1) as nat,
                    "expected 3 fields, got "@ + dec(parts.len() as nat),
                ));
                proof {
                    lemma_id_map_from_err_sticks(l, (i + 1) as nat, l.len());
                }
                return Err(string_of(&v));
            }
            proof {
                assert forall|k: int| 0 <= k < 3 implies #[trigger] parts@[k]@ == ps[k] by {
                    lemma_chars_deep_view(&parts@[k]);
                }
            }
            let first = match parse_u32(parts[0].as_slice()) {
                Some(x) => x,
                None => {
                    proof {
                        lemma_id_map_from_err_sticks(l, (i + 1) as nat, l.len());
                    }
                    return Err(id_map_message(i, "bad first id `", parts[0].as_slice(), "`"));
                },
            };
            let lower_first = match parse_u32(parts[1].as_slice()) {
                Some(x) => x,
                None => {
                    proof {
                        lemma_id_map_from_err_sticks(l, (i + 1) as nat, l.len());
                    }
                    return Err(id_map_message(i, "bad lower id `", parts[1].as_slice(), "`"));
                },
            };
            let count = match parse_u32(parts[2].as_slice()) {
                Some(x) => x,
                None => {
                    proof {
                        lemma_id_map_from_err_sticks(l, (i + 1) as nat, l.len());
                    }
                    return Err(id_map_message(i, "bad count `", parts[2].as_slice(), "`"));
                },
            };
            entries.push(MapEntry { first, lower_first, count });
        }
        i += 1;
    }
    Ok(entries)
}

// ---------------------------------------------------------------------------
// Mapping an id into a user namespace
// ---------------------------------------------------------------------------

/// Whether `e` maps the outside id `id`.
pub open spec fn covers(e: MapEntry, id: u32) -> bool {
    e.lower_first <= id && id < e.lower_first + e.count
}

pub open spec fn covering(id: u32) -> spec_fn(MapEntry) -> bool {
    |e: MapEntry| covers(e, id)
}

/// The id inside the namespace that `e` gives for the outside id `id`.
pub open spec fn mapped_value(e: MapEntry, id: u32) -> int {
    e.first + (id - e.lower_first)
}

/// The first entry that covers `id` maps it to an id that fits in a `u32`
/// (otherwise the addition overflows).
pub open spec fn map_id_fits(map: Seq<MapEntry>, id: u32) -> bool {
    match first_index(map, covering(id)) {
        Some(k) => mapped_value(map[k], id) <= u32::MAX,
        None => true,
    }
}

/// `id` mapped through the first entry of `map` that covers it.
pub open spec fn map_id_spec(map: Seq<MapEntry>, id: u32) -> Option<u32> {
    match first_index(map, covering(id)) {
        Some(k) => Some(mapped_value(map[k], id) as u32),
        None => None,
    }
}

/// Whether `map_id_into_ns` can map `id` through `map` without overflow.
pub fn id_mapping_fits(map: &[MapEntry], id: u32) -> (b: bool)
    ensures
        b == map_id_fits(map@, id),
{
    let mut i: usize = 0;
    while i < map.len()
        invariant
            i <= map.len(),
            forall|j: int| 0 <= j < i ==> !covering(id)(#[trigger] map@[j]),
        decreases map.len() - i,
    {
        let e = map[i];
        let start = e.lower_first as u64;
        let end = start + e.count as u64;
        if (id as u64) >= start && (id as u64) < end {
            proof {
                lemma_first_index_at(map@, covering(id), i as int);
            }
            return e.first as u64 + (id - e.lower_first) as u64 <= 4294967295u64;
        }
        i += 1;
    }
    proof {
        lemma_first_index_none(map@, covering(id));
    }
    true
}

/// Maps a host/parent-namespace id into the process's user namespace through
/// its uid_map or gid_map.
pub fn map_id_into_ns(map: &[MapEntry], id: u32) -> (r: Option<u32>)
    requires
        map_id_fits(map@, id),
    ensures
        r == map_id_spec(map@, id),
{
    let mut i: usize = 0;
    while i < map.len()
        invariant
            i <= map.len(),
            map_id_fits(map@, id),
            forall|j: int| 0 <= j < i ==> !covering(id)(#[trigger] map@[j]),
        decreases map.len() - i,
    {
        let e = map[i];
        let start = e.lower_first as u64;
        let end = start + e.count as u64;
        if (id as u64) >= start && (id as u64) < end {
            proof {
                lemma_first_index_at(map@, covering(id), i as int);
            }
            return Some(e.first + (id - e.lower_first));
        }
        i += 1;
    }
    proof {
        lemma_first_index_none(map@, covering(id));
    }
    None
}


// ---------------------------------------------------------------------------
// Laws
// ---------------------------------------------------------------------------

/// The identity map `0 0 4294967295` maps every id below `u32::MAX` to itself.
pub proof fn law_identity_map(id: u32)
    requires
        id < u32::MAX,
    ensures
        map_id_fits(seq![MapEntry { first: 0, lower_first: 0, count: u32::MAX }], id),
        map_id_spec(seq![MapEntry { first: 0, lower_first: 0, count: u32::MAX }], id) == Some(id),
{
    let map = seq![MapEntry { first: 0, lower_first: 0, count: u32::MAX }];
    lemma_first_index_at(map, covering(id), 0);
}

/// A single range maps each id inside it by the range's offset, and no id
/// outside it.
pub proof fn law_single_range(e: MapEntry, id: u32)
    requires
        e.first + e.count <= u32::MAX + 1,
    ensures
        map_id_fits(seq![e], id),
        map_id_spec(seq![e], id) == if e.lower_first <= id < e.lower_first + e.count {
            Some((e.first + (id - e.lower_first)) as u32)
        } else {
            None
        },
{
    let map = seq![e];
    if covers(e, id) {
        lemma_first_index_at(map, covering(id), 0);
    } else {
        lemma_first_index_none(map, covering(id));
    }
}

/// Whatever the map, an id that entry `k` is the first to cover is mapped by
/// that entry's offset: `first + (id - lower_first)`.
pub proof fn law_first_covering_entry_maps(map: Seq<MapEntry>, id: u32, k: int)
    requires
        0 <= k < map.len(),
        map[k].lower_first <= id < map[k].lower_first + map[k].count,
        forall|j: int|
            0 <= j < k ==> !((#[trigger] map[j]).lower_first <= id < map[j].lower_first
                + map[j].count),
        map[k].first + (id - map[k].lower_first) <= u32::MAX,
    ensures
        map_id_fits(map, id),
        map_id_spec(map, id) == Some((map[k].first + (id - map[k].lower_first)) as u32),
{
    assert forall|j: int| 0 <= j < k implies !covering(id)(#[trigger] map[j]) by {}
    lemma_first_index_at(map, covering(id), k);
}

/// `line` is a status line `<key>` followed by exactly four numbers, which
/// are, in order, `ids`.
pub open spec fn id_line_holds(line: Seq<char>, key: Seq<char>, ids: Seq<u32>) -> bool {
    &&& starts_with(line, key)
    &&& words(line.skip(key.len() as int)).len() == 4
    &&& ids.len() == 4
    &&& forall|i: int|
        0 <= i < 4 ==> parse_u32_spec(#[trigger] words(line.skip(key.len() as int))[i]) == Some(
            ids[i],
        )
}

/// Among the first `k` lines, line `j` is the last one that starts with `key`
/// and it holds the ids `ids`.
pub open spec fn last_id_line(ls: Seq<Seq<char>>, k: int, key: Seq<char>, ids: Seq<u32>) -> bool {
    exists|j: int|
        0 <= j < k && #[trigger] id_line_holds(ls[j], key, ids) && forall|jj: int|
            j < jj < k ==> !starts_with(#[trigger] ls[jj], key)
}

proof fn lemma_uid_gid_keys_differ(line: Seq<char>)
    ensures
        !(starts_with(line, "Uid:"@) && starts_with(line, "Gid:"@)),
{
    reveal_strlit("Uid:");
    reveal_strlit("Gid:");
    if starts_with(line, "Uid:"@) && starts_with(line, "Gid:"@) {
        assert(line.take(4)[0] == 'U');
        assert(line.take(4)[0] == 'G');
    }
}

proof fn lemma_id_line_spec_values(label: Seq<char>, rest: Seq<char>)
    ensures
        id_line_spec(label, rest) matches Ok(v) ==> words(rest).len() == 4 && v.len() == 4
            && forall|i: int| 0 <= i < 4 ==> parse_u32_spec(#[trigger] words(rest)[i]) == Some(v[i]),
{
    let nums = words(rest);
    if nums.len() == 4 {
        crate::text::lemma_first_index_props(nums, unparsable());
    }
}

proof fn lemma_status_from_last_lines(ls: Seq<Seq<char>>, k: nat)
    requires
        k <= ls.len(),
    ensures
        status_from(ls, k) matches Ok((Some(u), _)) ==> last_id_line(ls, k as int, "Uid:"@, u),
        status_from(ls, k) matches Ok((_, Some(g))) ==> last_id_line(ls, k as int, "Gid:"@, g),
    decreases k,
{
    if k > 0 {
        let km = (k - 1) as nat;
        lemma_status_from_last_lines(ls, km);
        let line = ls[km as int];
        lemma_uid_gid_keys_differ(line);
        if let Ok((u, g)) = status_from(ls, k) {
            if let Some(rest) = strip_prefix(line, "Uid:"@) {
                lemma_id_line_spec_values("Uid"@, rest);
                if let Some(uu) = u {
                    assert(id_line_holds(ls[km as int], "Uid:"@, uu));
                }
                if let Some(gg) = g {
                    let j = choose|j: int|
                        0 <= j < km && #[trigger] id_line_holds(ls[j], "Gid:"@, gg) && forall|jj: int|
                            j < jj < km ==> !starts_with(#[trigger] ls[jj], "Gid:"@);
                    assert(id_line_holds(ls[j], "Gid:"@, gg));
                }
            } else if let Some(rest) = strip_prefix(line, "Gid:"@) {
                lemma_id_line_spec_values("Gid"@, rest);
                if let Some(gg) = g {
                    assert(id_line_holds(ls[km as int], "Gid:"@, gg));
                }
                if let Some(uu) = u {
                    let j = choose|j: int|
                        0 <= j < km && #[trigger] id_line_holds(ls[j], "Uid:"@, uu) && forall|jj: int|
                            j < jj < km ==> !starts_with(#[trigger] ls[jj], "Uid:"@);
                    assert(id_line_holds(ls[j], "Uid:"@, uu));
                }
            } else {
                if let Some(uu) = u {
                    let j = choose|j: int|
                        0 <= j < km && #[trigger] id_line_holds(ls[j], "Uid:"@, uu) && forall|jj: int|
                            j < jj < km ==> !starts_with(#[trigger] ls[jj], "Uid:"@);
                    assert(id_line_holds(ls[j], "Uid:"@, uu));
                }
                if let Some(gg) = g {
                    let j = choose|j: int|
                        0 <= j < km && #[trigger] id_line_holds(ls[j], "Gid:"@, gg) && forall|jj: int|
                            j < jj < km ==> !starts_with(#[trigger] ls[jj], "Gid:"@);
                    assert(id_line_holds(ls[j], "Gid:"@, gg));
                }
            }
        }
    }
}

/// The credentials of a status text are the four numbers of its last `Uid:`
/// line and of its last `Gid:` line, each in the order the line gives them.
pub proof fn law_status_ids_from_last_lines(text: Seq<char>)
    ensures
        status_spec(text) matches Ok((u, g)) ==> last_id_line(
            lines(text),
            lines(text).len() as int,
            "Uid:"@,
            u,
        ) && last_id_line(lines(text), lines(text).len() as int, "Gid:"@, g),
{
    lemma_status_from_last_lines(lines(text), lines(text).len());
}

/// An id is unmapped exactly when no entry of the map covers it.
pub proof fn law_unmapped_iff_uncovered(map: Seq<MapEntry>, id: u32)
    ensures
        map_id_spec(map, id) is None <==> forall|j: int|
            0 <= j < map.len() ==> !covers(#[trigger] map[j], id),
{
    crate::text::lemma_first_index_props(map, covering(id));
    if map_id_spec(map, id) is Some {
        let k = first_index(map, covering(id))->0;
        assert(covering(id)(map[k]));
    }
}

proof fn lemma_id_map_from_len(ls: Seq<Seq<char>>, k: nat)
    ensures
        id_map_from(ls, k) matches Ok(es) ==> es.len() == nonblank_count(ls, k),
    decreases k,
{
    if k > 0 {
        lemma_id_map_from_len(ls, (k - 1) as nat);
    }
}

/// An id map that parses has exactly one entry for each line that is not blank.
pub proof fn law_one_entry_per_line(text: Seq<char>)
    ensures
        id_map_spec(text) matches Ok(es) ==> es.len() == nonblank_count(
            lines(text),
            lines(text).len(),
        ),
{
    lemma_id_map_from_len(lines(text), lines(text).len());
}


/// An id map as the kernel writes it: one line of three numbers per entry.
pub open spec fn id_map_print(es: Seq<MapEntry>) -> Seq<char> {
    es.map_values(|e: MapEntry| entry_fields_text(e).push('\n')).flatten()
}

pub open spec fn entry_texts(es: Seq<MapEntry>) -> Seq<Seq<char>> {
    es.map_values(|e: MapEntry| entry_fields_text(e))
}

proof fn lemma_entry_text_shape(e: MapEntry)
    ensures
        entry_fields_text(e).len() > 0,
        is_digit(entry_fields_text(e)[0]),
        is_digit(entry_fields_text(e).last()),
        forall|i: int|
            0 <= i < entry_fields_text(e).len() ==> #[trigger] entry_fields_text(e)[i] != '\n',
        trim(entry_fields_text(e)) == entry_fields_text(e),
        words(entry_fields_text(e)) == seq![
            dec(e.first as nat),
            dec(e.lower_first as nat),
            dec(e.count as nat),
        ],
{
    let a = dec(e.first as nat);
    let b = dec(e.lower_first as nat);
    let c = dec(e.count as nat);
    lemma_dec_digits(e.first as nat);
    lemma_dec_digits(e.lower_first as nat);
    lemma_dec_digits(e.count as nat);
    let t = entry_fields_text(e);
    assert(is_digit(a[0]));
    assert(is_digit(c[c.len() - 1]));
    assert(t[0] == a[0]);
    assert(t.last() == c[c.len() - 1]);
    assert forall|i: int| 0 <= i < t.len() implies #[trigger] t[i] != '\n' by {
        if i < a.len() {
            assert(is_digit(a[i]));
        } else if i == a.len() {
        } else if i < a.len() + 1 + b.len() {
            assert(is_digit(b[i - a.len() - 1]));
        } else if i == a.len() + 1 + b.len() {
        } else {
            assert(is_digit(c[i - a.len() - 2 - b.len()]));
        }
    }
    // trimming changes nothing: the text begins and ends with a digit
    assert(trim_start(t) == t);
    assert(trim_end(t) == t);
    // the words are the three numbers
    assert forall|i: int| 0 <= i < a.len() implies !is_ws(#[trigger] a[i]) by {
        assert(is_digit(a[i]));
    }
    assert forall|i: int| 0 <= i < b.len() implies !is_ws(#[trigger] b[i]) by {
        assert(is_digit(b[i]));
    }
    assert forall|i: int| 0 <= i < c.len() implies !is_ws(#[trigger] c[i]) by {
        assert(is_digit(c[i]));
    }
    let e0 = Seq::<char>::empty();
    lemma_word_scan_append(e0, a);
    assert(e0 + a =~= a);
    assert(word_scan(e0) == (Seq::<Seq<char>>::empty(), e0));
    assert(word_scan(a) == (Seq::<Seq<char>>::empty(), e0 + a));
    let x1 = a.push(' ');
    assert(x1.drop_last() =~= a);
    assert(word_scan(x1) == (seq![a], e0));
    lemma_word_scan_append(x1, b);
    let x2 = (x1 + b).push(' ');
    assert(x2.drop_last() =~= x1 + b);
    assert(word_scan(x2) == (seq![a].push(e0 + b), e0));
    assert(seq![a].push(e0 + b) =~= seq![a, b]);
    lemma_word_scan_append(x2, c);
    assert(x2 + c =~= t);
    assert(seq![a, b].push(e0 + c) =~= seq![a, b, c]);
}

proof fn lemma_print_split(es: Seq<MapEntry>)
    ensures
        split_on(id_map_print(es), '\n') == entry_texts(es).push(Seq::<char>::empty()),
    decreases es.len(),
{
    let f = |e: MapEntry| entry_fields_text(e).push('\n');
    let texts = es.map_values(f);
    texts.lemma_flatten_and_flatten_alt_are_equivalent();
    if es.len() == 0 {
        assert(id_map_print(es) =~= Seq::<char>::empty());
        assert(entry_texts(es).push(Seq::<char>::empty()) =~= seq![Seq::<char>::empty()]);
    } else {
        let rest = es.drop_last();
        let e = es.last();
        lemma_print_split(rest);
        rest.map_values(f).lemma_flatten_and_flatten_alt_are_equivalent();
        assert(texts.drop_last() =~= rest.map_values(f));
        let prev = id_map_print(rest);
        let body = entry_fields_text(e);
        assert(id_map_print(es) == texts.flatten_alt());
        assert(texts.flatten_alt() == texts.drop_last().flatten_alt() + texts.last());
        assert(id_map_print(es) =~= (prev + body).push('\n'));
        lemma_entry_text_shape(e);
        lemma_split_on_append(prev, body, '\n');
        lemma_split_on_push_sep(prev + body, '\n');
        let p = entry_texts(rest).push(Seq::<char>::empty());
        assert(p.last() + body =~= body);
        assert(entry_texts(es) =~= entry_texts(rest).push(body));
        assert(split_on(id_map_print(es), '\n') =~= entry_texts(es).push(Seq::<char>::empty()));
    }
}

proof fn lemma_print_lines(es: Seq<MapEntry>)
    ensures
        lines(id_map_print(es)) == entry_texts(es),
{
    lemma_print_split(es);
    let pieces = split_on(id_map_print(es), '\n');
    let l = lines(id_map_print(es));
    assert(l.len() == es.len());
    assert forall|i: int| 0 <= i < l.len() implies l[i] == entry_texts(es)[i] by {
        lemma_entry_text_shape(es[i]);
        assert(pieces[i] == entry_fields_text(es[i]));
        assert(strip_cr(pieces[i]) == pieces[i]);
    }
    assert(l =~= entry_texts(es));
}

proof fn lemma_parse_entry_texts(es: Seq<MapEntry>, k: nat)
    requires
        k <= es.len(),
    ensures
        id_map_from(entry_texts(es), k) == Ok::<Seq<MapEntry>, Seq<char>>(es.take(k as int)),
    decreases k,
{
    if k == 0 {
        assert(es.take(0) =~= Seq::<MapEntry>::empty());
    } else {
        lemma_parse_entry_texts(es, (k - 1) as nat);
        let e = es[k - 1];
        lemma_entry_text_shape(e);
        lemma_parse_dec(e.first);
        lemma_parse_dec(e.lower_first);
        lemma_parse_dec(e.count);
        assert(entry_texts(es)[k - 1] == entry_fields_text(e));
        assert(es.take(k as int) =~= es.take(k - 1).push(e));
    }
}

/// Printing id map entries one per line, three numbers each, and parsing the
/// text gives back the same entries.
pub proof fn law_print_then_parse(es: Seq<MapEntry>)
    ensures
        id_map_spec(id_map_print(es)) == Ok::<Seq<MapEntry>, Seq<char>>(es),
{
    lemma_print_lines(es);
    lemma_parse_entry_texts(es, es.len());
    assert(es.take(es.len() as int) =~= es);
}

} // verus!
