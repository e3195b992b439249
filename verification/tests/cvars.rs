use benilla::cvars::{apply_override, CvarRow};

fn row(name: &str, value: &str, numeric: bool) -> CvarRow {
    CvarRow { name: name.to_string(), value: value.to_string(), numeric }
}

#[test]
fn url_override_updates_knobs_and_mirror_without_overwriting_saved_value() {
    // The saved file holds 300; the URL asks for 150.
    let farclip = row("farclip", "300", true);
    let applied = apply_override(Some(&farclip), "150", true).unwrap();
    assert_eq!(applied.value, "150");
    assert_eq!(farclip.value, "300");
    let changed = applied.changed.unwrap();
    assert!(changed.name.eq_ignore_ascii_case("farclip") && changed.new == "150");
    assert_eq!(changed.old, "300");
    assert!(applied.name.eq_ignore_ascii_case("farclip"));
}

#[test]
fn a_boot_url_applies_a_latched_setting_immediately() {
    let ms = row("gxMultisample", "1", true);
    let applied = apply_override(Some(&ms), "4", true).unwrap();
    assert_eq!(applied.value, "4");
    assert_eq!(applied.name, "gxMultisample");
    let changed = applied.changed.unwrap();
    assert!(changed.name == "gxMultisample" && changed.new == "4");
    assert_eq!(changed.old, "1");
}

#[test]
fn invalid_url_value_does_not_block_the_saved_setting() {
    let farclip = row("farclip", "300", true);
    assert!(apply_override(Some(&farclip), "invalid", false).is_none());
    assert_eq!(farclip.value, "300");
}

#[test]
fn an_override_is_owned_under_the_settings_own_name_and_announced() {
    let farclip = row("farClip", "300", true);
    let applied = apply_override(Some(&farclip), "150", true).unwrap();
    assert_eq!(applied.name, "farClip");
    assert_eq!(applied.value, "150");
    let changed = applied.changed.unwrap();
    assert_eq!((changed.name.as_str(), changed.old.as_str(), changed.new.as_str()), ("farClip", "300", "150"));
}

#[test]
fn an_override_to_the_current_value_announces_nothing() {
    let ms = row("gxMultisample", "4", true);
    let applied = apply_override(Some(&ms), "4", true).unwrap();
    assert_eq!(applied.value, "4");
    assert!(applied.changed.is_none());
}

#[test]
fn an_invalid_or_unknown_override_is_left_alone() {
    let farclip = row("farclip", "300", true);
    assert!(apply_override(Some(&farclip), "invalid", false).is_none());
    assert!(apply_override(None, "150", true).is_none());
    // A text setting takes anything.
    let realm = row("realmList", "a.example", false);
    assert_eq!(apply_override(Some(&realm), "b.example", false).unwrap().value, "b.example");
}
