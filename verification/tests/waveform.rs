use textstep::ui::waveform::{bar_char, bar_column, place_label, scope_geometry, BarCell};

#[test]
fn bar_column_lights_from_the_bottom() {
    // 13 eighths: one full row and five eighths of the next.
    let cells = bar_column(4, 13);
    assert_eq!(cells, vec![BarCell::Unlit, BarCell::Unlit, BarCell::Partial(5), BarCell::Full]);
    assert_eq!(bar_column(3, 0), vec![BarCell::Unlit; 3]);
    assert_eq!(bar_column(2, 16), vec![BarCell::Full; 2]);
    assert_eq!(bar_column(2, 99), vec![BarCell::Full; 2]);
}

#[test]
fn bar_column_counts_every_eighth() {
    for h in 1..6usize {
        for total in 0..=8 * h {
            let lit: usize = bar_column(h, total)
                .iter()
                .map(|c| match c {
                    BarCell::Full => 8,
                    BarCell::Partial(e) => *e as usize,
                    BarCell::Unlit => 0,
                })
                .sum();
            assert_eq!(lit, total);
        }
    }
}

#[test]
fn bar_chars_by_eighths() {
    assert_eq!(bar_char(0), ' ');
    assert_eq!(bar_char(1), '\u{2581}');
    assert_eq!(bar_char(5), '\u{2585}');
    assert_eq!(bar_char(8), '\u{2588}');
}

#[test]
fn labels_are_centered_and_clipped() {
    let mut row = vec![' '; 10];
    place_label(&mut row, 4, &"2.5k".chars().collect());
    assert_eq!(row.iter().collect::<String>(), "  2.5k    ");
    place_label(&mut row, 0, &"40".chars().collect());
    assert_eq!(row.iter().collect::<String>(), "402.5k    ");
    place_label(&mut row, 9, &"20k".chars().collect());
    assert_eq!(row.iter().collect::<String>(), "402.5k  20");
    place_label(&mut row, 10, &"x".chars().collect());
    assert_eq!(row.iter().collect::<String>(), "402.5k  20");
}

#[test]
fn scope_geometry_needs_room_and_bars() {
    assert_eq!(scope_geometry(40, 8, 32), Some((40, 7)));
    assert_eq!(scope_geometry(9, 8, 32), None);
    assert_eq!(scope_geometry(40, 2, 32), None);
    assert_eq!(scope_geometry(40, 8, 0), None);
    assert_eq!(scope_geometry(10, 3, 1), Some((10, 2)));
}
