use benilla::addons::{index_line, safe_relative};

#[test]
fn only_a_plain_relative_path_reaches_the_disk() {
    assert!(safe_relative("AtlasLoot/AtlasLoot.toc").is_some());
    assert!(safe_relative("Bagnon/Core/Bagnon.lua").is_some());
    for bad in [
        "",
        "..",
        "../WTF/Account/config.wtf",
        "AtlasLoot/../../Data/patch.MPQ",
        "AtlasLoot//AtlasLoot.toc",
        "AtlasLoot/./AtlasLoot.toc",
        "C:/Windows/System32/drivers/etc/hosts",
        "AtlasLoot\\..\\..\\secret",
        "AtlasLoot/AtlasLoot.toc:Zone.Identifier",
    ] {
        assert!(safe_relative(bad).is_none(), "{bad:?} must not become a path");
    }
}

#[test]
fn a_safe_path_comes_back_as_its_segments() {
    assert_eq!(
        safe_relative("Bagnon/Core/Bagnon.lua").unwrap(),
        vec!["Bagnon".to_string(), "Core".to_string(), "Bagnon.lua".to_string()]
    );
    assert!(safe_relative("a/b\0c").is_none());
    assert!(safe_relative("/etc/passwd").is_none());
    assert!(safe_relative("AtlasLoot/").is_none());
}

#[test]
fn index_lines_join_with_slashes_and_drop_newlines() {
    let parts = vec!["Bagnon".to_string(), "Core".to_string(), "Bagnon.lua".to_string()];
    assert_eq!(index_line(&parts).as_deref(), Some("Bagnon/Core/Bagnon.lua"));
    assert_eq!(index_line(&["one".to_string()]).as_deref(), Some("one"));
    assert_eq!(index_line(&[]).as_deref(), Some(""));
    assert_eq!(index_line(&["bad\nname".to_string(), "x".to_string()]), None);
}
