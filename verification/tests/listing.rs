use benilla::chain::ArchiveEntry;
use benilla::listing::{list_entry, listfile_names};

#[test]
fn every_archive_listfile_is_unioned_once_per_key() {
    let base = Some(b"DBFilesClient\\AreaTable.dbc\r\nInterface\\FrameXML\\UI.lua\r\n".to_vec());
    let patch = Some(b"interface/framexml/ui.lua;Interface\\New.lua\n  \n".to_vec());
    let names = listfile_names(&[base, None, patch]);
    assert_eq!(
        names,
        vec![
            "DBFilesClient\\AreaTable.dbc".to_string(),
            "Interface\\FrameXML\\UI.lua".to_string(),
            "Interface\\New.lua".to_string(),
        ]
    );
}

#[test]
fn names_are_trimmed_and_empty_pieces_dropped() {
    let names = listfile_names(&[Some(b" a \t;;\r\n b".to_vec())]);
    assert_eq!(names, vec!["a".to_string(), "b".to_string()]);
    assert!(listfile_names(&[]).is_empty());
    assert!(listfile_names(&[None, None]).is_empty());
}

#[test]
fn invalid_utf8_in_a_listfile_is_replaced_not_fatal() {
    let names = listfile_names(&[Some(b"ok.lua;bad\xff.lua".to_vec())]);
    assert_eq!(names, vec!["ok.lua".to_string(), "bad\u{FFFD}.lua".to_string()]);
}

#[test]
fn a_tombstoned_name_is_not_listed() {
    let e = list_entry("a.dbc".to_string(), &[ArchiveEntry::File, ArchiveEntry::Absent], Some(42)).unwrap();
    assert_eq!((e.name.as_str(), e.size), ("a.dbc", 42));
    assert_eq!(list_entry("a.dbc".to_string(), &[ArchiveEntry::File], None).unwrap().size, 0);
    assert!(list_entry("a.dbc".to_string(), &[ArchiveEntry::File, ArchiveEntry::DeleteMarker], Some(1)).is_none());
    assert!(list_entry("a.dbc".to_string(), &[ArchiveEntry::Absent], Some(1)).is_none());
}
