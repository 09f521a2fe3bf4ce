use textstep::ui::drum_grid::{
    grid_styles, header_cell, step_style, track_label, GridFocus, HeaderCell, StepColor, StepStyle,
};

#[test]
fn header_numbers_beats_and_dots_the_rest() {
    assert_eq!(header_cell(0), HeaderCell::BeatNumber(1));
    assert_eq!(header_cell(1), HeaderCell::Dot);
    assert_eq!(header_cell(4), HeaderCell::BeatNumber(2));
    assert_eq!(header_cell(12), HeaderCell::BeatNumber(4));
    assert_eq!(header_cell(16), HeaderCell::BeatNumber(1));
    assert_eq!(header_cell(31), HeaderCell::Dot);
}

#[test]
fn step_style_priorities() {
    assert_eq!(step_style(true, 0, true, true), StepStyle::CursorOnPlayhead);
    assert_eq!(step_style(false, 3, true, false), StepStyle::Cursor);
    assert_eq!(step_style(true, 3, false, true), StepStyle::Playhead);
    assert_eq!(step_style(true, 8, false, false), StepStyle::Plain(StepColor::AmberBright));
    assert_eq!(step_style(true, 9, false, false), StepStyle::Plain(StepColor::Amber));
    assert_eq!(step_style(false, 12, false, false), StepStyle::Plain(StepColor::AmberDim));
    assert_eq!(step_style(false, 13, false, false), StepStyle::Plain(StepColor::Border));
}

#[test]
fn grid_marks_cursor_and_playhead() {
    let mut steps = vec![vec![false; 32]; 8];
    steps[2][5] = true;
    let focus = GridFocus {
        focused_grid: true,
        is_playing: true,
        playback_step: 5,
        cursor_track: 2,
        cursor_step: 5,
    };
    let styles = grid_styles(&steps, focus);
    assert_eq!(styles.len(), 8);
    assert_eq!(styles[2][5], StepStyle::CursorOnPlayhead);
    assert_eq!(styles[3][5], StepStyle::Playhead);
    assert_eq!(styles[2][6], StepStyle::Plain(StepColor::Border));
    let cursors = styles.iter().flatten().filter(|s| **s == StepStyle::CursorOnPlayhead || **s == StepStyle::Cursor).count();
    assert_eq!(cursors, 1);

    let unfocused = GridFocus { focused_grid: false, is_playing: false, ..focus };
    let styles = grid_styles(&steps, unfocused);
    assert_eq!(styles[2][5], StepStyle::Plain(StepColor::Amber));
    assert!(styles.iter().flatten().all(|s| matches!(s, StepStyle::Plain(_))));
}

#[test]
fn track_labels_are_padded() {
    let name: Vec<char> = "Kick".chars().collect();
    let selected: String = track_label(&name, true).into_iter().collect();
    assert_eq!(selected, ">Kick    ");
    let plain: String = track_label(&name, false).into_iter().collect();
    assert_eq!(plain, " Kick    ");
    let long: Vec<char> = "Cowbell-XL".chars().collect();
    let label: String = track_label(&long, false).into_iter().collect();
    assert_eq!(label, " Cowbell-XL");
    assert_eq!(label, format!(" {:<width$}", "Cowbell-XL", width = 8));
}
