use benilla::sysprof::{take_top, trim_quotes_of, NameOf, SpanTotals, SystemProfiler};

#[test]
fn only_armed_system_spans_are_timed() {
    assert!(SystemProfiler::wants_span("system", true));
    assert!(!SystemProfiler::wants_span("system", false));
    assert!(!SystemProfiler::wants_span("render", true));
    assert!(!SystemProfiler::wants_span("System", true));
}

#[test]
fn a_span_without_a_name_is_recorded_as_a_question_mark() {
    assert_eq!(SystemProfiler::span_label(None), "?");
    assert_eq!(SystemProfiler::span_label(Some("bevy::update".to_string())), "bevy::update");
}

#[test]
fn the_debug_rendering_loses_its_quotes_and_never_overrides() {
    let mut name = NameOf::new();
    name.record_debug("target", "\"x\"");
    assert_eq!(name.0, None);
    name.record_debug("name", "\"benilla::net::pump\"");
    assert_eq!(name.0.as_deref(), Some("benilla::net::pump"));
    name.record_debug("name", "\"later\"");
    assert_eq!(name.0.as_deref(), Some("benilla::net::pump"));
    // A string-valued field is taken as it is, over what was there.
    name.record_str("name", "exact");
    assert_eq!(name.0.as_deref(), Some("exact"));
    name.record_str("other", "ignored");
    assert_eq!(name.0.as_deref(), Some("exact"));
}

#[test]
fn trimming_quotes_strips_every_leading_and_trailing_one() {
    assert_eq!(trim_quotes_of("\"\"a\"b\"\""), "a\"b");
    assert_eq!(trim_quotes_of("\"\"\""), "");
    assert_eq!(trim_quotes_of("plain"), "plain");
}

#[test]
fn totals_accumulate_per_name() {
    let mut t = SpanTotals::new();
    assert_eq!(t.total("a"), 0);
    t.record("a", 10);
    t.record("b", 5);
    t.record("a", 7);
    assert_eq!(t.total("a"), 17);
    assert_eq!(t.total("b"), 5);
    assert_eq!(t.total("c"), 0);
}

#[test]
fn the_costliest_come_first_and_reading_drains() {
    let mut t = SpanTotals::new();
    t.record("cheap", 1);
    t.record("dear", 900);
    t.record("middling", 50);
    t.record("cheap", 2);
    let mut totals = Some(t);
    let top = take_top(&mut totals, 2);
    assert_eq!(top, vec![("dear".to_string(), 900), ("middling".to_string(), 50)]);
    assert!(totals.is_none());
    assert!(take_top(&mut totals, 2).is_empty());
}

#[test]
fn asking_for_more_than_there_is_returns_everything_sorted() {
    let mut t = SpanTotals::new();
    t.record("a", 3);
    t.record("b", 9);
    t.record("c", 6);
    let mut totals = Some(t);
    let top = take_top(&mut totals, 10);
    let values: Vec<u64> = top.iter().map(|r| r.1).collect();
    assert_eq!(values, vec![9, 6, 3]);
    let mut empty = Some(SpanTotals::new());
    assert!(take_top(&mut empty, 3).is_empty());
    let mut none: Option<SpanTotals> = None;
    assert!(take_top(&mut none, 3).is_empty());
    let mut t = SpanTotals::new();
    t.record("x", 1);
    let mut zero = Some(t);
    assert!(take_top(&mut zero, 0).is_empty());
    assert!(zero.is_none());
}
