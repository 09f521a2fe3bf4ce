use textstep::ui::layout::{
    assemble_layout, compute_layout, main_constraints, Constraint, Rect, ACTIVITY_BAR_HEIGHT,
    HELP_HEIGHT, KNOBS_HEIGHT, SYNTH_COLLAPSED_HEIGHT, SYNTH_SECTION_HEIGHT, TRANSPORT_HEIGHT,
    WAVEFORM_HEIGHT,
};

fn rect(x: u16, y: u16, width: u16, height: u16) -> Rect {
    Rect { x, y, width, height }
}

#[test]
fn main_constraints_follow_the_panels_shown() {
    let plain = main_constraints(false, false, false);
    assert_eq!(
        plain,
        vec![
            Constraint::Length(TRANSPORT_HEIGHT),
            Constraint::Length(SYNTH_SECTION_HEIGHT),
            Constraint::Length(1),
            Constraint::Min(11),
            Constraint::Length(KNOBS_HEIGHT),
            Constraint::Length(ACTIVITY_BAR_HEIGHT),
        ]
    );
    let help = main_constraints(true, true, true);
    assert_eq!(help[1], Constraint::Length(SYNTH_COLLAPSED_HEIGHT));
    assert_eq!(help[5], Constraint::Length(HELP_HEIGHT));
    assert_eq!(help.len(), 7);
    let wave = main_constraints(false, false, true);
    assert_eq!(wave[5], Constraint::Length(WAVEFORM_HEIGHT));
}

#[test]
fn layout_without_extra_panel() {
    let l = compute_layout(rect(0, 0, 100, 80), false, false, false);
    assert_eq!(l.transport, rect(0, 0, 100, 6));
    assert_eq!(l.synth_section, rect(0, 6, 100, 36));
    assert_eq!(l.separator, rect(0, 42, 100, 1));
    assert_eq!(l.drum_area, rect(0, 43, 100, 27));
    assert_eq!(l.knobs, rect(0, 70, 100, 9));
    assert_eq!(l.extra, None);
    assert_eq!(l.activity_bar, rect(0, 79, 100, 1));
    assert_eq!(l.synth_fader, rect(0, 6, 3, 36));
    assert_eq!(l.synth_content, rect(3, 6, 97, 36));
    assert_eq!(l.synth_knobs, rect(3, 6, 97, 30));
    assert_eq!(l.synth_grid, rect(3, 36, 97, 6));
    assert_eq!(l.drum_fader, rect(0, 43, 3, 27));
    assert_eq!(l.drum_grid, rect(3, 43, 97, 27));
}

#[test]
fn layout_with_collapsed_synth_and_help() {
    let l = compute_layout(rect(0, 0, 120, 80), true, true, false);
    assert_eq!(l.transport, rect(0, 0, 120, 6));
    assert_eq!(l.synth_section, rect(0, 6, 120, 3));
    assert_eq!(l.drum_area, rect(0, 10, 120, 38));
    assert_eq!(l.extra, Some(rect(0, 57, 120, 22)));
    assert_eq!(l.activity_bar, rect(0, 79, 120, 1));
}

#[test]
fn layout_with_waveform_keeps_width_everywhere() {
    let size = rect(2, 1, 90, 70);
    let l = compute_layout(size, false, false, true);
    let e = l.extra.expect("waveform panel");
    assert_eq!(e.height, WAVEFORM_HEIGHT);
    for r in [l.transport, l.synth_section, l.separator, l.drum_area, l.knobs, l.activity_bar, e] {
        assert_eq!((r.x, r.width), (2, 90));
    }
    assert_eq!(l.drum_fader.y, l.drum_area.y);
    assert_eq!(l.drum_grid.height, l.drum_area.height);
}

#[test]
fn assemble_picks_the_named_panels() {
    let chunks: Vec<Rect> = (0..7).map(|i| rect(i, 0, 1, 1)).collect();
    let two = |a: u16| vec![rect(a, 1, 1, 1), rect(a + 1, 1, 1, 1)];
    let l = assemble_layout(&chunks, &two(10), &two(20), &two(30), true);
    assert_eq!(l.knobs, chunks[4]);
    assert_eq!(l.extra, Some(chunks[5]));
    assert_eq!(l.activity_bar, chunks[6]);
    assert_eq!(l.synth_content, rect(11, 1, 1, 1));
    assert_eq!(l.synth_grid, rect(21, 1, 1, 1));
    assert_eq!(l.drum_fader, rect(30, 1, 1, 1));
    let l = assemble_layout(&chunks[..6].to_vec(), &two(10), &two(20), &two(30), false);
    assert_eq!(l.extra, None);
    assert_eq!(l.activity_bar, chunks[5]);
}

#[test]
fn layout_follows_the_panel_heights_whenever_the_screen_fits() {
    for &(collapsed, help, wave) in &[
        (false, false, false),
        (false, true, false),
        (false, false, true),
        (true, false, true),
        (true, true, true),
    ] {
        let synth = if collapsed { SYNTH_COLLAPSED_HEIGHT } else { SYNTH_SECTION_HEIGHT };
        let extra = if help { HELP_HEIGHT } else if wave { WAVEFORM_HEIGHT } else { 0 };
        let fixed = TRANSPORT_HEIGHT + synth + 1 + KNOBS_HEIGHT + extra + ACTIVITY_BAR_HEIGHT;
        for height in ((fixed + 11)..(fixed + 60)).step_by(6) {
            for width in [23u16, 24, 57, 118] {
                let size = rect(1, 2, width, height);
                let l = compute_layout(size, collapsed, help, wave);
                let drum = height - fixed;
                let sy = 2 + TRANSPORT_HEIGHT;
                let dy = sy + synth + 1;
                assert_eq!(l.transport, rect(1, 2, width, TRANSPORT_HEIGHT));
                assert_eq!(l.synth_section, rect(1, sy, width, synth));
                assert_eq!(l.drum_area, rect(1, dy, width, drum));
                assert_eq!(l.knobs, rect(1, dy + drum, width, KNOBS_HEIGHT));
                let ey = dy + drum + KNOBS_HEIGHT;
                assert_eq!(l.extra, if extra > 0 { Some(rect(1, ey, width, extra)) } else { None });
                assert_eq!(l.activity_bar, rect(1, ey + extra, width, 1));
                assert_eq!(l.drum_fader, rect(1, dy, 3, drum));
                assert_eq!(l.drum_grid, rect(4, dy, width - 3, drum));
                assert_eq!(l.synth_content, rect(4, sy, width - 3, synth));
                if !collapsed {
                    assert_eq!(l.synth_knobs, rect(4, sy, width - 3, 30));
                    assert_eq!(l.synth_grid, rect(4, sy + 30, width - 3, 6));
                }
            }
        }
    }
}
