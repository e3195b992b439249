use benilla::ws::{client_host, hex_head, RelayStats, WsRoutes, LOGIN_PORT, WORLD_PORT};

#[test]
fn the_page_host_is_trimmed_and_checked() {
    assert_eq!(client_host("  logon.realm.example \n"), Some("logon.realm.example"));
    assert_eq!(client_host("10.0.0.5"), Some("10.0.0.5"));
    assert_eq!(client_host("[::1]"), Some("::1"));
    assert_eq!(client_host(" [fe80::1] "), Some("fe80::1"));
    assert_eq!(client_host("[]"), None);
    assert_eq!(client_host("["), Some("["));
    assert_eq!(client_host(""), None);
    assert_eq!(client_host("   "), None);
    assert_eq!(client_host("realm.example:3724"), None);
    assert_eq!(client_host("http://realm.example"), None);
    assert_eq!(client_host("user@realm.example"), None);
    assert_eq!(client_host("realm.example?x"), None);
    assert_eq!(client_host("realm example"), None);
}

#[test]
fn a_host_is_at_most_253_bytes() {
    let ok = "a".repeat(253);
    let long = "a".repeat(254);
    assert_eq!(client_host(&ok), Some(ok.as_str()));
    assert_eq!(client_host(&long), None);
    // Bytes, not characters.
    let wide = "é".repeat(127);
    assert_eq!(client_host(&wide), None);
}

#[test]
fn a_port_off_the_allowlist_is_refused() {
    let routes = WsRoutes::for_host("127.0.0.1", None, false);
    assert_eq!(routes.dial(22, "realm.example"), None);
    assert_eq!(routes.dial(80, ""), None);
    let pinned = WsRoutes::single("127.0.0.1", &[3724, 8085]);
    assert_eq!(pinned.dial(8086, ""), None);
}

#[test]
fn pinned_routes_ignore_the_page() {
    let routes = WsRoutes::for_host("logon.example", Some("10.0.0.5"), true);
    assert_eq!(routes.dial(LOGIN_PORT, "elsewhere.example").as_deref(), Some("logon.example"));
    assert_eq!(routes.dial(WORLD_PORT, "elsewhere.example").as_deref(), Some("10.0.0.5"));
    assert_eq!(routes.dial(WORLD_PORT, "").as_deref(), Some("10.0.0.5"));
}

#[test]
fn following_routes_dial_the_page_host_and_fall_back() {
    let routes = WsRoutes::for_host("logon.example", None, false);
    assert_eq!(routes.dial(LOGIN_PORT, "other.example").as_deref(), Some("other.example"));
    assert_eq!(routes.dial(WORLD_PORT, " [::1] ").as_deref(), Some("::1"));
    // No usable host: the configured one, and the world defaults to the login host.
    assert_eq!(routes.dial(LOGIN_PORT, "").as_deref(), Some("logon.example"));
    assert_eq!(routes.dial(WORLD_PORT, "other.example:8085").as_deref(), Some("logon.example"));
}

#[test]
fn a_later_pair_for_the_same_port_wins() {
    let pairs = vec![
        (3724u16, "first".to_string()),
        (8085u16, "world".to_string()),
        (3724u16, "second".to_string()),
    ];
    let routes = WsRoutes::from_pairs(&pairs, false);
    assert_eq!(routes.dial(3724, "").as_deref(), Some("second"));
    assert_eq!(routes.dial(8085, "").as_deref(), Some("world"));
    assert_eq!(routes.dial(1, ""), None);
    let following = WsRoutes::from_pairs(&pairs, true);
    assert_eq!(following.dial(3724, "x.example").as_deref(), Some("x.example"));
}

#[test]
fn the_first_answer_is_logged_as_hex() {
    assert_eq!(hex_head(&[0x00, 0x00, 0x04]).iter().collect::<String>(), "00 00 04");
    assert_eq!(
        hex_head(&[1, 2, 3, 4, 5, 6, 7, 8, 9, 10]).iter().collect::<String>(),
        "01 02 03 04 05 06 07 08"
    );
    assert_eq!(hex_head(&[0xab, 0xff]).iter().collect::<String>(), "ab ff");
    assert!(hex_head(&[]).is_empty());
}

#[test]
fn relay_stats_count_both_ways_and_keep_the_first_head() {
    let mut stats = RelayStats::new();
    stats.on_up(5);
    stats.on_down(&[0, 0, 4]);
    stats.on_down(&[9, 9]);
    stats.on_up(7);
    assert_eq!(stats.up, 12);
    assert_eq!(stats.down, 5);
    assert_eq!(stats.first_down.iter().collect::<String>(), "00 00 04");
}
