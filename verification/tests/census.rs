use benilla::census::{census_drops, census_ents, census_gos, census_states, decimal_of, ents_text, hex16_of, signed_decimal_of, EntCounts, EntKind};

fn text(v: Vec<char>) -> String {
    v.into_iter().collect()
}

#[test]
fn numbers_are_written_in_decimal_and_hex() {
    assert_eq!(text(decimal_of(0)), "0");
    assert_eq!(text(decimal_of(179918)), "179918");
    assert_eq!(text(decimal_of(u64::MAX)), "18446744073709551615");
    assert_eq!(text(signed_decimal_of(-7)), "-7");
    assert_eq!(text(signed_decimal_of(i32::MIN)), "-2147483648");
    assert_eq!(text(signed_decimal_of(42)), "42");
    assert_eq!(text(hex16_of(0x2a)), "0x002a");
    assert_eq!(text(hex16_of(0xbeef)), "0xbeef");
}

#[test]
fn gameobjects_are_grouped_by_entry_with_their_first_name() {
    let seen = vec![
        (179918, Some("Doodad_PortcullisActive01".to_string())),
        (179830, None),
        (179918, Some("Doodad_PortcullisActive01".to_string())),
        (179831, Some("Warsong Flag".to_string())),
        (179830, Some("Silverwing Flag".to_string())),
    ];
    assert_eq!(
        census_gos(&seen),
        "179830×2 179831:Warsong Flag 179918:Doodad_PortcullisActive01×2"
    );
    assert_eq!(census_gos(&vec![]), "none");
    assert_eq!(census_gos(&vec![(5, Some("b".to_string())), (5, Some("a".to_string()))]), "5:a×2");
}

#[test]
fn world_states_are_listed_by_key() {
    let states = vec![(2339, 1), (1581, 0), (2338, -1), (1582, 3)];
    assert_eq!(census_states(&states), "1581=0 1582=3 2338=-1 2339=1");
    assert_eq!(census_states(&vec![]), "");
    // Pairs that share a key keep their order.
    assert_eq!(census_states(&vec![(5, 1), (2, 0), (5, -3)]), "2=0 5=1 5=-3");
}

#[test]
fn dropped_opcodes_are_named_or_numbered() {
    let drops = vec![
        (0x2e9u16, 3u64, 0u64, Some("MSG_PVP_LOG_DATA".to_string())),
        (0x0042u16, 1u64, 2u64, None),
    ];
    assert_eq!(
        census_drops(&drops),
        "0x0042:unknown=1,unparseable=2 MSG_PVP_LOG_DATA:unknown=3,unparseable=0"
    );
    assert_eq!(census_drops(&vec![]), "none");
}

#[test]
fn entities_are_counted_by_kind() {
    let kinds = vec![
        EntKind::Unit,
        EntKind::GameObject,
        EntKind::Unit,
        EntKind::Player,
        EntKind::Other,
        EntKind::Corpse,
        EntKind::GameObject,
        EntKind::GameObject,
    ];
    let c = census_ents(&kinds);
    assert_eq!(c, EntCounts { units: 2, players: 1, gos: 3, dynamic: 0, corpses: 1 });
    assert_eq!(ents_text(&c), "units=2 players=1 gos=3 dyn=0 corpses=1");
    let none = census_ents(&Vec::new());
    assert_eq!(ents_text(&none), "units=0 players=0 gos=0 dyn=0 corpses=0");
}
