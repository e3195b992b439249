use benilla::hover::{parse_aim, parse_i32_of, sweep_cell, Aim, ProbeReport};

fn parse(s: &str) -> Option<i32> {
    parse_i32_of(&s.chars().collect::<Vec<char>>())
}

#[test]
fn integers_parse_as_the_standard_library_does() {
    for s in ["0", "42", "-7", "+13", "-2147483648", "2147483647", "007"] {
        assert_eq!(parse(s), s.parse::<i32>().ok(), "{s:?}");
    }
    for s in ["", "-", "+", "2147483648", "-2147483649", "1 2", " 1", "1a", "99999999999999999999"] {
        assert_eq!(parse(s), None, "{s:?}");
        assert!(s.parse::<i32>().is_err());
    }
}

#[test]
fn the_aim_is_named_or_a_point() {
    assert_eq!(parse_aim("centre"), Some(Aim::Centre));
    assert_eq!(parse_aim(" center\n"), Some(Aim::Centre));
    assert_eq!(parse_aim("sweep"), Some(Aim::Sweep));
    assert_eq!(parse_aim("320, 180"), Some(Aim::At(320, 180)));
    assert_eq!(parse_aim("-5,+7"), Some(Aim::At(-5, 7)));
    assert_eq!(parse_aim("1,2,3"), None);
    assert_eq!(parse_aim("Centre"), None);
    assert_eq!(parse_aim("x,1"), None);
    assert_eq!(parse_aim(""), None);
}

#[test]
fn the_sweep_grid_cycles_row_by_row() {
    assert_eq!(sweep_cell(0), (0, 0));
    assert_eq!(sweep_cell(6), (6, 0));
    assert_eq!(sweep_cell(7), (0, 1));
    assert_eq!(sweep_cell(34), (6, 4));
    assert_eq!(sweep_cell(35), (0, 0));
    for frame in 0..200u64 {
        let (cx, cy) = sweep_cell(frame);
        assert!(cx < 7 && cy < 5);
    }
}

#[test]
fn the_report_only_speaks_on_change() {
    let mut r = ProbeReport::new();
    assert!(r.say("a".into()));
    assert_eq!(r.last.as_deref(), Some("a"));
    assert!(!r.say("a".into()));
    assert_eq!(r.last.as_deref(), Some("a"));
    assert!(r.say("b".into()));
    assert_eq!(r.last.as_deref(), Some("b"));
}
