use benilla::chain::ChainEntry;
use benilla::data::{content_type, decode_path, index_body, module_filename, request_name};

#[test]
fn already_compressed_families_get_a_skipped_content_type() {
    assert_eq!(
        content_type("Interface\\Glues\\Common\\Glue-Panel-Button-Up.blp"),
        "image/x-blp"
    );
    assert_eq!(
        content_type("Sound\\Music\\CityMusic\\Stormwind\\1.mp3"),
        "audio/mpeg"
    );
}

#[test]
fn the_extension_match_is_case_insensitive() {
    assert_eq!(content_type("World\\Textures\\FOO.BLP"), "image/x-blp");
    assert_eq!(content_type("Sound\\ambience\\Forest.Mp3"), "audio/mpeg");
}

#[test]
fn everything_else_is_compressible() {
    assert_eq!(
        content_type("DBFilesClient\\AreaTable.dbc"),
        "application/octet-stream"
    );
    assert_eq!(
        content_type("Interface\\FrameXML\\ContainerFrame.lua"),
        "application/octet-stream"
    );
    assert_eq!(
        content_type("World\\Maps\\Azeroth\\Azeroth_32_48.adt"),
        "application/octet-stream"
    );
    assert_eq!(content_type("Readme"), "application/octet-stream");
    assert_eq!(content_type("some.dir\\file"), "application/octet-stream");
}

#[test]
fn only_the_last_extension_counts() {
    assert_eq!(content_type("x.blp.dbc"), "application/octet-stream");
    assert_eq!(content_type("x.dbc.blp"), "image/x-blp");
    // A name with no dot is its own last piece.
    assert_eq!(content_type("blp"), "image/x-blp");
    assert_eq!(content_type(".mp3"), "audio/mpeg");
}

#[test]
fn module_ids_become_uppercase_filenames_and_nothing_else_does() {
    assert_eq!(
        module_filename("BA877D8E62E30E3373505709FCE6DDCB.cr").as_deref(),
        Some("BA877D8E62E30E3373505709FCE6DDCB.cr")
    );
    assert_eq!(
        module_filename("ba877d8e62e30e3373505709fce6ddcb.cr").as_deref(),
        Some("BA877D8E62E30E3373505709FCE6DDCB.cr"),
        "case is normalised, because the files on disk are uppercase"
    );
    for bad in [
        "../../../../etc/passwd",
        "../BA877D8E62E30E3373505709FCE6DDCB.cr",
        "BA877D8E62E30E3373505709FCE6DDCB",
        "BA877D8E62E30E3373505709FCE6DDC.cr",
        "BA877D8E62E30E3373505709FCE6DDCBA.cr",
        "BA877D8E62E30E3373505709FCE6DDCG.cr",
        "BA877D8E62E30E33/505709FCE6DDCB.cr",
        ".cr",
        "",
    ] {
        assert!(module_filename(bad).is_none(), "{bad:?} must not become a path");
    }
}

#[test]
fn request_names_are_percent_decoded_with_backslash_separators() {
    assert_eq!(
        request_name("Interface/Glues%5CCommon/Glue-Panel.blp"),
        "Interface\\Glues\\Common\\Glue-Panel.blp"
    );
    assert_eq!(request_name("a%2Fb"), "a\\b");
    assert_eq!(request_name("100%25"), "100%");
    // A lone `%` and a `%` without two hex digits stand for themselves.
    assert_eq!(request_name("50%"), "50%");
    assert_eq!(request_name("%zz"), "%zz");
    assert_eq!(request_name("Sound%20Effects"), "Sound Effects");
}

#[test]
fn decoded_paths_replace_invalid_utf8() {
    assert_eq!(decode_path("%C3%A9t%C3%A9"), "été");
    assert_eq!(decode_path("bad%FF"), "bad\u{FFFD}");
    assert_eq!(decode_path("plain"), "plain");
}

#[test]
fn the_index_body_is_a_json_list_of_names() {
    let entries = vec![
        ChainEntry { name: "Interface\\FrameXML\\UI.lua".to_string(), size: 10 },
        ChainEntry { name: "a\"b".to_string(), size: 0 },
    ];
    assert_eq!(
        String::from_utf8(index_body(&entries)).unwrap(),
        r#"["Interface\\FrameXML\\UI.lua","a\"b"]"#
    );
    assert_eq!(index_body(&[]), b"[]".to_vec());
}
