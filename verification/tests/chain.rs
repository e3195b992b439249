use benilla::chain::{
    contains, index_key, is_missing, is_patch_glob_match, mount_order, read_source, resolve,
    vanilla_base_name, ArchiveEntry, ChainError, VANILLA_BASE_COUNT,
};

fn owned(names: &[&str]) -> Vec<String> {
    names.iter().map(|n| n.to_string()).collect()
}

#[test]
fn patch_glob_matches_exactly_one_character_case_insensitively() {
    assert!(is_patch_glob_match("patch-2.MPQ"));
    assert!(is_patch_glob_match("patch-3.MPQ"));
    assert!(is_patch_glob_match("PATCH-A.mpq"));
    // Zero or two-plus characters: the glob's `?` is exactly one.
    assert!(!is_patch_glob_match("patch-.MPQ"));
    assert!(!is_patch_glob_match("patch-10.MPQ"));
    assert!(!is_patch_glob_match("patch-33.MPQ"));
    // Not the glob's shape at all.
    assert!(!is_patch_glob_match("patch.MPQ"));
    assert!(!is_patch_glob_match("patch-2.MPQ.bak"));
    assert!(!is_patch_glob_match("mypatch-2.MPQ"));
}

#[test]
fn mount_order_is_the_carved_law() {
    // A shuffled install with a custom patch, plus files the mounter must ignore.
    let dir = owned(&[
        "patch-2.MPQ",
        "backup.MPQ",
        "model.MPQ",
        "base.MPQ",
        "dbc.MPQ",
        "patch.MPQ",
        "eula.html",
        "patch-3.MPQ",
        "speech2.MPQ",
        "texture.MPQ",
    ]);
    assert_eq!(
        mount_order(&dir),
        owned(&[
            "dbc.MPQ",
            "texture.MPQ",
            "model.MPQ",
            "patch.MPQ",
            "patch-2.MPQ",
            "patch-3.MPQ",
            "speech2.MPQ",
        ])
    );
}

#[test]
fn patch_sort_is_ascending_and_case_folded() {
    let dir = owned(&["patch-B.MPQ", "patch-3.MPQ", "patch-a.MPQ", "patch-2.MPQ"]);
    assert_eq!(
        mount_order(&dir),
        owned(&["patch-2.MPQ", "patch-3.MPQ", "patch-a.MPQ", "patch-B.MPQ"])
    );
}

#[test]
fn base_archives_are_found_case_insensitively() {
    let dir = owned(&["DBC.mpq", "Model.MPQ", "PATCH.mpq"]);
    assert_eq!(
        mount_order(&dir),
        owned(&["DBC.mpq", "Model.MPQ", "PATCH.mpq"])
    );
}

#[test]
fn an_empty_directory_mounts_nothing() {
    assert!(mount_order(&[]).is_empty());
    assert!(mount_order(&owned(&["readme.txt", "patch-10.MPQ"])).is_empty());
}

#[test]
fn speech_mounts_above_every_patch() {
    let order = mount_order(&owned(&["speech2.MPQ", "patch-9.MPQ", "patch.MPQ", "speech.MPQ"]));
    assert_eq!(order.last().map(String::as_str), Some("speech2.MPQ"));
    assert_eq!(order[order.len() - 2], "patch-9.MPQ");
}

#[test]
fn the_base_table_has_ten_names_in_priority_order() {
    assert_eq!(VANILLA_BASE_COUNT, 10);
    assert_eq!(vanilla_base_name(0), "dbc.MPQ");
    let names: Vec<&str> = (0..VANILLA_BASE_COUNT).map(vanilla_base_name).collect();
    let dbc = names.iter().position(|n| *n == "dbc.MPQ").unwrap();
    let texture = names.iter().position(|n| *n == "texture.MPQ").unwrap();
    let model = names.iter().position(|n| *n == "model.MPQ").unwrap();
    assert!(dbc < texture && texture < model);
}

#[test]
fn index_keys_fold_case_and_separators() {
    assert_eq!(index_key("Interface/Glues\\Common.BLP"), "interface\\glues\\common.blp");
    assert_eq!(index_key(""), "");
    assert_eq!(index_key("ÄBC"), "Äbc");
}

#[test]
fn the_last_archive_with_an_entry_wins() {
    assert_eq!(resolve(&[ArchiveEntry::File, ArchiveEntry::Absent, ArchiveEntry::File, ArchiveEntry::Absent]), Some(2));
    assert_eq!(resolve(&[ArchiveEntry::Absent, ArchiveEntry::Absent]), None);
    assert_eq!(resolve(&[]), None);
    // A tombstone shadows every lower copy.
    assert_eq!(resolve(&[ArchiveEntry::File, ArchiveEntry::DeleteMarker]), Some(1));
    assert!(contains(&[ArchiveEntry::File, ArchiveEntry::Absent]));
    assert!(!contains(&[ArchiveEntry::File, ArchiveEntry::DeleteMarker]));
    assert!(contains(&[ArchiveEntry::DeleteMarker, ArchiveEntry::File]));
    assert!(!contains(&[ArchiveEntry::Absent]));
}

#[test]
fn a_read_names_its_archive_or_says_why_it_cannot() {
    let paths = owned(&["Data/dbc.MPQ", "Data/patch.MPQ"]);
    assert_eq!(read_source("x.dbc", &[ArchiveEntry::File, ArchiveEntry::Absent], &paths).unwrap(), 0);
    match read_source("x.dbc", &[ArchiveEntry::Absent, ArchiveEntry::Absent], &paths) {
        Err(e) => assert_eq!(e.message(), "file not in patch chain: x.dbc"),
        Ok(_) => panic!("an absent name must not read"),
    }
    match read_source("x.dbc", &[ArchiveEntry::File, ArchiveEntry::DeleteMarker], &paths) {
        Err(e) => assert_eq!(
            e.message(),
            "file deleted from patch chain: x.dbc (tombstoned by Data/patch.MPQ)"
        ),
        Ok(_) => panic!("a tombstoned name must not read"),
    }
}

#[test]
fn missing_reads_are_told_apart_from_faults() {
    let not_in = ChainError::NotInChain { name: "a".to_string() };
    let deleted = ChainError::Deleted { name: "a".to_string(), archive: "p.MPQ".to_string() };
    let fetch = ChainError::Fetch { name: "a".to_string(), cause: "timed out".to_string() };
    assert!(is_missing(&not_in.message()));
    assert!(is_missing(&deleted.message()));
    assert!(!is_missing(&fetch.message()));
    assert!(!is_missing("reading a from p.MPQ: bad block"));
    assert_eq!(fetch.message(), "fetching a from web host: timed out");
    assert_eq!(
        ChainError::Index { cause: "503".to_string() }.message(),
        "fetching chain index: 503"
    );
    assert_eq!(ChainError::IndexParse.message(), "parsing chain index JSON");
}

#[test]
fn mount_order_does_not_depend_on_listing_order() {
    let names = ["patch-3.MPQ", "dbc.MPQ", "speech2.MPQ", "Patch-2.mpq", "readme.txt", "patch.MPQ", "model.MPQ"];
    let forward = mount_order(&owned(&names));
    let mut reversed = names;
    reversed.reverse();
    assert_eq!(mount_order(&owned(&reversed)), forward);
    let rotated = ["readme.txt", "patch.MPQ", "model.MPQ", "patch-3.MPQ", "dbc.MPQ", "speech2.MPQ", "Patch-2.mpq"];
    assert_eq!(mount_order(&owned(&rotated)), forward);
    assert_eq!(
        forward,
        owned(&["dbc.MPQ", "model.MPQ", "patch.MPQ", "Patch-2.mpq", "patch-3.MPQ", "speech2.MPQ"])
    );
}
