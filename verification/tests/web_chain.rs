use benilla::chain::ChainError;
use benilla::web_chain::{list_from_index, miss_report_due, FetchOutcome, ReadStep, WebChain};

fn fetch_listed(step: ReadStep) -> bool {
    match step {
        ReadStep::Fetch { listed } => listed,
        _ => panic!("expected a request"),
    }
}

#[test]
fn the_index_vouches_and_its_silence_is_not_an_answer() {
    let mut chain = WebChain::new();
    assert!(chain.needs_index());
    chain.install_index(Some(br#"["Interface\\FrameXML\\UI.lua","World/Maps/A.wdt"]"#));
    assert!(!chain.needs_index());
    assert_eq!(chain.contains_known("interface/framexml/ui.LUA"), Some(true));
    assert_eq!(chain.contains_known("WORLD\\MAPS\\a.WDT"), Some(true));
    assert_eq!(chain.contains_known("Interface\\WorldMap\\Northwind\\1.blp"), None);
    assert!(chain.may_fetch("Interface\\FrameXML\\UI.lua"));
    assert!(!chain.may_fetch("not\\listed.blp"));
    // A name the index does not list is still asked for by a read.
    assert!(!fetch_listed(chain.read_start("not\\listed.blp")));
    assert!(fetch_listed(chain.read_start("Interface\\FrameXML\\UI.lua")));
}

#[test]
fn a_second_index_answer_changes_nothing() {
    let mut chain = WebChain::new();
    chain.install_index(None);
    chain.install_index(Some(br#"["a"]"#));
    assert_eq!(chain.contains_known("a"), None);
    assert!(chain.may_fetch("a"));
}

#[test]
fn an_index_that_is_not_json_is_no_index() {
    let mut chain = WebChain::new();
    chain.install_index(Some(b"<html>503</html>"));
    assert!(!chain.needs_index());
    assert_eq!(chain.contains_known("a"), None);
    assert!(chain.may_fetch("a"));
}

#[test]
fn a_host_answer_about_a_name_is_remembered() {
    let mut chain = WebChain::new();
    assert!(chain.contains_answered("Extra\\Tile.blp", Some(true)));
    assert_eq!(chain.contains_known("extra/tile.blp"), Some(true));
    assert!(!chain.contains_answered("Gone.blp", Some(false)));
    assert_eq!(chain.contains_known("gone.BLP"), Some(false));
    // A request that never went out answers no and remembers nothing.
    assert!(!chain.contains_answered("Outage.blp", None));
    assert_eq!(chain.contains_known("Outage.blp"), None);
}

#[test]
fn a_not_found_name_is_refused_without_a_request() {
    let mut chain = WebChain::new();
    chain.install_index(None);
    let listed = fetch_listed(chain.read_start("Foo.tga"));
    match chain.read_finish("Foo.tga", listed, FetchOutcome::NotFound) {
        Err(e) => assert_eq!(e.message(), "file not in patch chain: Foo.tga"),
        Ok(_) => panic!("a 404 is not bytes"),
    }
    match chain.read_start("foo.TGA") {
        ReadStep::Refused(e) => assert_eq!(e.message(), "file not in patch chain: foo.TGA"),
        _ => panic!("the host already said no"),
    }
}

#[test]
fn a_transport_failure_records_nothing() {
    let mut chain = WebChain::new();
    chain.install_index(None);
    let listed = fetch_listed(chain.read_start("Skin.blp"));
    match chain.read_finish("Skin.blp", listed, FetchOutcome::Failed("ERR_NO_BUFFER_SPACE".to_string())) {
        Err(ChainError::Fetch { name, cause }) => {
            assert_eq!(name, "Skin.blp");
            assert_eq!(cause, "ERR_NO_BUFFER_SPACE");
        }
        _ => panic!("a failed request is a fetch error"),
    }
    assert_eq!(chain.contains_known("Skin.blp"), None);
    assert!(!fetch_listed(chain.read_start("Skin.blp")));
}

#[test]
fn a_second_read_is_served_from_memory() {
    let mut chain = WebChain::new();
    chain.install_index(Some(br#"["Emblem.blp"]"#));
    let listed = fetch_listed(chain.read_start("Emblem.blp"));
    assert!(listed);
    let bytes = chain.read_finish("Emblem.blp", listed, FetchOutcome::Got(vec![1, 2, 3])).unwrap();
    assert_eq!(bytes, vec![1, 2, 3]);
    match chain.read_start("EMBLEM.blp") {
        ReadStep::Cached(b) => assert_eq!(b, vec![1, 2, 3]),
        _ => panic!("the bytes were already read"),
    }
    // A listed read verifies nothing: the index already vouched.
    assert_eq!(chain.contains_known("Emblem.blp"), Some(true));
}

#[test]
fn an_unlisted_read_that_got_bytes_marks_the_name_present() {
    let mut chain = WebChain::new();
    chain.install_index(Some(b"[]"));
    let listed = fetch_listed(chain.read_start("Northwind\\1.blp"));
    assert!(!listed);
    chain.read_finish("Northwind\\1.blp", listed, FetchOutcome::Got(vec![9])).unwrap();
    assert_eq!(chain.contains_known("northwind/1.blp"), Some(true));
}

#[test]
fn the_listing_comes_from_the_index_route() {
    let entries = list_from_index(Ok(br#"["a","b\\c"]"#.to_vec())).unwrap();
    let names: Vec<&str> = entries.iter().map(|e| e.name.as_str()).collect();
    assert_eq!(names, vec!["a", "b\\c"]);
    assert!(entries.iter().all(|e| e.size == 0));
    match list_from_index(Err("timed out".to_string())) {
        Err(e) => assert_eq!(e.message(), "fetching chain index: timed out"),
        Ok(_) => panic!("no bytes, no listing"),
    }
    match list_from_index(Ok(b"{".to_vec())) {
        Err(e) => assert_eq!(e.message(), "parsing chain index JSON"),
        Ok(_) => panic!("not JSON"),
    }
}

#[test]
fn verified_misses_are_counted_and_reported_by_order_of_magnitude() {
    let mut chain = WebChain::new();
    chain.install_index(Some(b"[]"));
    assert_eq!(chain.misses(), 0);
    chain.contains_answered("a", Some(true));
    chain.contains_answered("A", Some(false));
    chain.contains_answered("b", Some(false));
    chain.contains_answered("c", None);
    assert_eq!(chain.misses(), 2);
    let due: Vec<usize> = (0..20001).filter(|n| miss_report_due(*n)).collect();
    assert_eq!(due, vec![1, 10, 100, 1000, 10000]);
}
