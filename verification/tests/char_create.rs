use benilla::char_create::{TowerRows, CANVAS_H};

#[test]
fn vanilla_is_untouched_and_five_rows_land_where_the_client_puts_them() {
    let v = TowerRows::for_rows(4);
    assert_eq!((v.shift, v.icon, v.tower_top), (0, 48, 74));
    assert_eq!(v.banner_h, 259, "vanilla banner art must not stretch");
    for authored in [303, 369, 480, 645] {
        assert_eq!(v.below_grid(authored), authored, "vanilla offset moved");
    }

    // A grid shorter than the authored four must not pull the stack up either.
    let short = TowerRows::for_rows(1);
    assert_eq!((short.shift, short.tower_top), (0, 74));

    let t = TowerRows::for_rows(5);
    assert_eq!(t.icon, 45);
    assert_eq!(t.shift, 38, "5×45+4×5 against 4×48+3×5");
    assert_eq!(t.tower_top, 55, "the install's own XML says −55");
    assert_eq!(t.banner_h, 500, "and 500 for the banner");
    // And the thing the whole change exists to prevent: Randomize inside the canvas.
    assert!(t.tower_top + t.below_grid(645) + 30 <= CANVAS_H);
}

#[test]
fn a_grid_too_tall_for_the_canvas_pins_the_tower_to_the_top() {
    let t = TowerRows::for_rows(8);
    assert_eq!(t.shift, 8 * 45 + 7 * 5 - 207);
    assert_eq!(t.tower_top, 0);
    let z = TowerRows::for_rows(0);
    assert_eq!((z.shift, z.tower_top, z.icon), (0, 74, 48));
}

#[test]
fn the_catalog_counts_the_taller_column_and_at_least_one_row() {
    let t = TowerRows::of(4, 5);
    assert_eq!((t.icon, t.shift, t.tower_top), (45, 38, 55));
    let none = TowerRows::of(0, 0);
    assert_eq!((none.icon, none.shift, none.tower_top), (48, 0, 74));
}
