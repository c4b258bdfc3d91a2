use pathsight::procfs::{id_mapping_fits, map_id_into_ns, parse_id_map, parse_status_ids};
use pathsight::report::MapEntry;

#[test]
fn parse_identity_uid_map() {
    let map = parse_id_map("         0          0 4294967295\n").unwrap();
    assert_eq!(
        map,
        vec![MapEntry {
            first: 0,
            lower_first: 0,
            count: 4294967295,
        }]
    );
}

#[test]
fn parse_rootless_uid_map() {
    let fixture = "\
         0     100000      65536
     65536     165536      65536
";
    let map = parse_id_map(fixture).unwrap();
    assert_eq!(
        map,
        vec![
            MapEntry {
                first: 0,
                lower_first: 100000,
                count: 65536,
            },
            MapEntry {
                first: 65536,
                lower_first: 165536,
                count: 65536,
            },
        ]
    );
}

#[test]
fn parse_empty_uid_map() {
    assert_eq!(parse_id_map("").unwrap(), vec![]);
    assert_eq!(parse_id_map("\n\n").unwrap(), vec![]);
}

#[test]
fn parse_id_map_rejects_bad_line() {
    assert!(parse_id_map("0 0\n").is_err());
    assert!(parse_id_map("0 x 1\n").is_err());
}

#[test]
fn parse_status_uid_gid() {
    let fixture = "\
Name:\tpsight
Umask:\t0022
State:\tR (running)
Uid:\t1000\t1000\t1000\t1000
Gid:\t100\t100\t100\t100
";
    let creds = parse_status_ids(fixture).unwrap();
    assert_eq!(creds.uid, [1000, 1000, 1000, 1000]);
    assert_eq!(creds.gid, [100, 100, 100, 100]);
}

#[test]
fn map_id_into_ns_identity() {
    let map = parse_id_map("0 0 4294967295\n").unwrap();
    assert_eq!(map_id_into_ns(&map, 0), Some(0));
    assert_eq!(map_id_into_ns(&map, 1000), Some(1000));
}

#[test]
fn map_id_into_ns_rootless() {
    let map = parse_id_map("0 100000 65536\n").unwrap();
    assert_eq!(map_id_into_ns(&map, 100000), Some(0));
    assert_eq!(map_id_into_ns(&map, 100001), Some(1));
    assert_eq!(map_id_into_ns(&map, 99999), None);
    assert_eq!(map_id_into_ns(&map, 165536), None);
}

// ---------------------------------------------------------------------------
// Further cases
// ---------------------------------------------------------------------------

#[test]
fn id_map_error_messages() {
    assert_eq!(
        parse_id_map("0 0\n").unwrap_err(),
        "id map line 1: expected 3 fields, got 2"
    );
    assert_eq!(
        parse_id_map("\n0 x 1\n").unwrap_err(),
        "id map line 2: bad lower id `x`"
    );
    assert_eq!(
        parse_id_map("y 0 1\n").unwrap_err(),
        "id map line 1: bad first id `y`"
    );
    assert_eq!(
        parse_id_map("0 0 4294967296\n").unwrap_err(),
        "id map line 1: bad count `4294967296`"
    );
}

#[test]
fn status_errors() {
    assert_eq!(
        parse_status_ids("Gid:\t1\t1\t1\t1\n").unwrap_err(),
        "status missing Uid line"
    );
    assert_eq!(
        parse_status_ids("Uid:\t1\t1\t1\t1\n").unwrap_err(),
        "status missing Gid line"
    );
    assert_eq!(
        parse_status_ids("Uid:\t1\t1\t1\n").unwrap_err(),
        "Uid line needs 4 fields, got 3"
    );
    assert_eq!(
        parse_status_ids("Uid:\t1\t1\t1\t1\nGid:\t1\tz\t1\t1\n").unwrap_err(),
        "bad Gid value `z`"
    );
}

#[test]
fn status_later_line_overrides() {
    let creds = parse_status_ids("Uid: 1 2 3 4\nGid: 5 6 7 8\nUid: 9 9 9 9\n").unwrap();
    assert_eq!(creds.uid, [9, 9, 9, 9]);
    assert_eq!(creds.gid, [5, 6, 7, 8]);
}

#[test]
fn map_id_first_covering_entry_wins() {
    let map = vec![
        MapEntry { first: 10, lower_first: 0, count: 5 },
        MapEntry { first: 20, lower_first: 3, count: 5 },
    ];
    assert_eq!(map_id_into_ns(&map, 3), Some(13));
    assert_eq!(map_id_into_ns(&map, 6), Some(23));
    assert_eq!(map_id_into_ns(&map, 8), None);
    assert_eq!(map_id_into_ns(&[], 0), None);
}

#[test]
fn identity_map_law_at_the_edges() {
    let map = parse_id_map("0 0 4294967295\n").unwrap();
    assert_eq!(map_id_into_ns(&map, 4294967294), Some(4294967294));
    assert_eq!(map_id_into_ns(&map, 4294967295), None);
}

#[test]
fn mapping_that_would_overflow_is_detected() {
    let map = vec![MapEntry { first: 4294967295, lower_first: 0, count: 2 }];
    assert!(id_mapping_fits(&map, 0));
    assert!(!id_mapping_fits(&map, 1));
    assert!(id_mapping_fits(&map, 2));
}

#[test]
fn one_entry_per_nonblank_id_map_line() {
    let map = parse_id_map("\n 0 1 2 \n\n3 4 5\n   \n").unwrap();
    assert_eq!(
        map,
        vec![
            MapEntry { first: 0, lower_first: 1, count: 2 },
            MapEntry { first: 3, lower_first: 4, count: 5 },
        ]
    );
}

#[test]
fn printed_entries_parse_back() {
    let entries = vec![
        MapEntry { first: 0, lower_first: 100000, count: 65536 },
        MapEntry { first: 4294967295, lower_first: 7, count: 0 },
        MapEntry { first: 10, lower_first: 0, count: 4294967295 },
    ];
    let text: String = entries
        .iter()
        .map(|e| format!("{} {} {}\n", e.first, e.lower_first, e.count))
        .collect();
    assert_eq!(parse_id_map(&text).unwrap(), entries);
    assert_eq!(parse_id_map("").unwrap(), vec![]);
}
