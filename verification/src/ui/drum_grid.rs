//! Drum step grid: which label heads each step column, which style each
//! cell of the 8 x 32 grid takes (playhead, cursor, active and downbeat
//! steps), and how track names are labelled.
use vstd::prelude::*;

verus! {

/// Track name column: ">Cowbell " or " Cowbell " = 9 chars (padded to longest name)
pub const NAME_WIDTH: usize = 9;

/// The step before which the bar separator is drawn (start of bar 2).
pub const BAR_SEPARATOR_STEP: usize = 16;

/// The label above a step column.
#[derive(Debug, Clone, Copy, PartialEq, Eq, Structural)]
pub enum HeaderCell {
    /// The first step of a beat shows the beat's number, 1..=4.
    BeatNumber(u8),
    /// The other steps show a dot.
    Dot,
}

pub open spec fn header_cell_spec(step: usize) -> HeaderCell {
    let beat_in_bar = step % 16;
    if beat_in_bar % 4 == 0 {
        HeaderCell::BeatNumber((beat_in_bar / 4 + 1) as u8)
    } else {
        HeaderCell::Dot
    }
}

/// Only the first step of each beat (every fourth column) is numbered, with
/// the beat's number within its 16-step bar, 1 to 4; the other columns are
/// dots.
pub proof fn lemma_header_numbers_beats(step: usize)
    ensures
        header_cell_spec(step) is BeatNumber <==> step % 4 == 0,
        header_cell_spec(step) matches HeaderCell::BeatNumber(n) ==> n == (step % 16) / 4 + 1 && 1 <= n <= 4,
        header_cell_spec(step) is Dot <==> step % 4 != 0,
{
    assert((step % 16) % 4 == step % 4);
}

/// The label above column `step`.
pub fn header_cell(step: usize) -> (cell: HeaderCell)
    ensures
        cell == header_cell_spec(step),
        cell is BeatNumber <==> step % 4 == 0,
        cell matches HeaderCell::BeatNumber(n) ==> n == (step % 16) / 4 + 1 && 1 <= n <= 4,
{
    let beat_in_bar = step % 16;
    let beat_num = beat_in_bar / 4 + 1;
    let sub = beat_in_bar % 4;
    if sub == 0 {
        HeaderCell::BeatNumber(beat_num as u8)
    } else {
        HeaderCell::Dot
    }
}

/// Foreground of a step cell that is neither cursor nor playhead.
#[derive(Debug, Clone, Copy, PartialEq, Eq, Structural)]
pub enum StepColor {
    /// Active step on a downbeat.
    AmberBright,
    /// Active step.
    Amber,
    /// Inactive step on a downbeat.
    AmberDim,
    /// Inactive step.
    Border,
}

/// The style of one step cell.
#[derive(Debug, Clone, Copy, PartialEq, Eq, Structural)]
pub enum StepStyle {
    /// The cursor sits on the playhead: cursor colors on the playhead
    /// background, bold and underlined.
    CursorOnPlayhead,
    /// Cursor colors, bold.
    Cursor,
    /// Playhead colors.
    Playhead,
    /// Just the foreground color.
    Plain(StepColor),
}

pub open spec fn step_style_spec(active: bool, step: usize, is_cursor: bool, is_playhead: bool) -> StepStyle {
    let is_downbeat = step % 4 == 0;
    if is_cursor && is_playhead {
        StepStyle::CursorOnPlayhead
    } else if is_cursor {
        StepStyle::Cursor
    } else if is_playhead {
        StepStyle::Playhead
    } else if active && is_downbeat {
        StepStyle::Plain(StepColor::AmberBright)
    } else if active {
        StepStyle::Plain(StepColor::Amber)
    } else if is_downbeat {
        StepStyle::Plain(StepColor::AmberDim)
    } else {
        StepStyle::Plain(StepColor::Border)
    }
}

/// A step with neither cursor nor playhead on it is drawn in a plain
/// color that tells both its facts, in every column of the grid: amber
/// (bright or not) exactly when it is active, so an active step never looks
/// inactive, and the bright or dim tone exactly on downbeats (every fourth
/// step). The cursor and the playhead override the plain color, the two
/// together showing as one style.
pub proof fn lemma_step_colors(active: bool, step: usize, is_cursor: bool, is_playhead: bool)
    ensures
        ({
            let style = step_style_spec(active, step, is_cursor, is_playhead);
            &&& (style == StepStyle::Cursor || style == StepStyle::CursorOnPlayhead) <==> is_cursor
            &&& (style == StepStyle::Playhead || style == StepStyle::CursorOnPlayhead) <==> is_playhead
            &&& !is_cursor && !is_playhead ==> style is Plain
            &&& style matches StepStyle::Plain(c) ==> ((c == StepColor::AmberBright || c == StepColor::Amber)
                <==> active) && ((c == StepColor::AmberBright || c == StepColor::AmberDim) <==> step % 4 == 0)
        }),
{
}

/// The style of the cell at column `step`.
pub fn step_style(active: bool, step: usize, is_cursor: bool, is_playhead: bool) -> (style: StepStyle)
    ensures
        style == step_style_spec(active, step, is_cursor, is_playhead),
        (style == StepStyle::Cursor || style == StepStyle::CursorOnPlayhead) <==> is_cursor,
        (style == StepStyle::Playhead || style == StepStyle::CursorOnPlayhead) <==> is_playhead,
        !is_cursor && !is_playhead ==> style is Plain,
        style matches StepStyle::Plain(c) ==> ((c == StepColor::AmberBright || c == StepColor::Amber) <==> active)
            && ((c == StepColor::AmberBright || c == StepColor::AmberDim) <==> step % 4 == 0),
{
    let is_downbeat = step % 4 == 0;
    // Determine base foreground color based on active/downbeat
    let base_fg = if active && is_downbeat {
        StepColor::AmberBright
    } else if active {
        StepColor::Amber
    } else if is_downbeat {
        StepColor::AmberDim
    } else {
        StepColor::Border
    };
    if is_cursor && is_playhead {
        StepStyle::CursorOnPlayhead
    } else if is_cursor {
        StepStyle::Cursor
    } else if is_playhead {
        StepStyle::Playhead
    } else {
        StepStyle::Plain(base_fg)
    }
}

/// Where the cursor and the playhead are.
#[derive(Debug, Clone, Copy, PartialEq, Eq, Structural)]
pub struct GridFocus {
    /// The drum grid has the input focus (only then is the cursor drawn).
    pub focused_grid: bool,
    /// The transport is playing (only then is the playhead drawn).
    pub is_playing: bool,
    pub playback_step: usize,
    pub cursor_track: usize,
    pub cursor_step: usize,
}

/// The style of the cell of `track` at `step`.
pub open spec fn cell_style(active: bool, track: int, step: int, focus: GridFocus) -> StepStyle {
    let is_cursor = focus.focused_grid && focus.cursor_track == track && focus.cursor_step == step;
    let is_playhead = focus.is_playing && focus.playback_step == step;
    step_style_spec(active, step as usize, is_cursor, is_playhead)
}

/// The styles of all cells: `steps[track][step]` tells whether a step is
/// active.
pub fn grid_styles(steps: &Vec<Vec<bool>>, focus: GridFocus) -> (styles: Vec<Vec<StepStyle>>)
    ensures
        styles.len() == steps.len(),
        forall|t: int| 0 <= t < steps.len() ==> #[trigger] styles[t].len() == steps[t].len(),
        forall|t: int, s: int|
            0 <= t < steps.len() && 0 <= s < steps[t].len() ==> #[trigger] styles[t][s] == cell_style(
                steps[t][s],
                t,
                s,
                focus,
            ),
        forall|t: int, s: int|
            0 <= t < steps.len() && 0 <= s < steps[t].len() ==> (#[trigger] styles[t][s] matches StepStyle::Plain(c)
                ==> ((c == StepColor::AmberBright || c == StepColor::Amber) <==> steps[t][s]) && ((c
                == StepColor::AmberBright || c == StepColor::AmberDim) <==> s % 4 == 0)),
{
    let mut styles: Vec<Vec<StepStyle>> = Vec::new();
    let mut track: usize = 0;
    while track < steps.len()
        invariant
            track <= steps.len(),
            styles.len() == track,
            forall|t: int| 0 <= t < track ==> #[trigger] styles[t].len() == steps[t].len(),
            forall|t: int, s: int|
                0 <= t < track && 0 <= s < steps[t].len() ==> #[trigger] styles[t][s] == cell_style(
                    steps[t][s],
                    t,
                    s,
                    focus,
                ),
        decreases steps.len() - track,
    {
        let row = &steps[track];
        let mut out: Vec<StepStyle> = Vec::new();
        let mut step: usize = 0;
        while step < row.len()
            invariant
                step <= row.len(),
                out.len() == step,
                forall|s: int| 0 <= s < step ==> #[trigger] out[s] == cell_style(row[s], track as int, s, focus),
            decreases row.len() - step,
        {
            let is_playhead = focus.is_playing && focus.playback_step == step;
            let is_cursor = focus.focused_grid && focus.cursor_track == track && focus.cursor_step == step;
            out.push(step_style(row[step], step, is_cursor, is_playhead));
            step = step + 1;
        }
        styles.push(out);
        track = track + 1;
    }
    assert forall|t: int, s: int|
        0 <= t < steps.len() && 0 <= s < steps[t].len() implies (#[trigger] styles[t][s] matches StepStyle::Plain(c)
            ==> ((c == StepColor::AmberBright || c == StepColor::Amber) <==> steps[t][s]) && ((c
            == StepColor::AmberBright || c == StepColor::AmberDim) <==> s % 4 == 0)) by {
        let f = focus;
        lemma_step_colors(
            steps[t][s],
            s as usize,
            f.focused_grid && f.cursor_track == t && f.cursor_step == s,
            f.is_playing && f.playback_step == s,
        );
    }
    styles
}

/// The cursor is drawn on at most one cell, the cursor's own, and only
/// while the grid has focus; the playhead is drawn only while playing, in
/// the playback column.
pub proof fn lemma_cursor_and_playhead(active: bool, track: int, step: int, focus: GridFocus)
    ensures
        ({
            let style = cell_style(active, track, step, focus);
            &&& (style == StepStyle::Cursor || style == StepStyle::CursorOnPlayhead) <==> (focus.focused_grid
                && focus.cursor_track == track && focus.cursor_step == step)
            &&& (style == StepStyle::Playhead || style == StepStyle::CursorOnPlayhead) ==> (focus.is_playing
                && focus.playback_step == step)
            &&& style is Plain ==> !(focus.is_playing && focus.playback_step == step)
        }),
{
}

/// The label of a track: a `>` marks the selected track, then the name
/// left-aligned in `NAME_WIDTH - 1` columns (longer names are kept whole).
pub open spec fn track_label_spec(name: Seq<char>, selected: bool) -> Seq<char> {
    let pad: int = if name.len() < NAME_WIDTH - 1 { NAME_WIDTH - 1 - name.len() } else { 0 };
    seq![if selected { '>' } else { ' ' }] + name + Seq::new(pad as nat, |i: int| ' ')
}

/// The label of a track named `name`.
pub fn track_label(name: &Vec<char>, selected: bool) -> (label: Vec<char>)
    requires
        name.len() < usize::MAX,
    ensures
        label@ == track_label_spec(name@, selected),
        label@.len() == 1 + if name@.len() < NAME_WIDTH - 1 { (NAME_WIDTH - 1) as int } else { name@.len() as int },
        label@[0] == if selected { '>' } else { ' ' },
        forall|i: int| 0 <= i < name@.len() ==> #[trigger] label@[1 + i] == name@[i],
        forall|i: int| 1 + name@.len() <= i < label@.len() ==> #[trigger] label@[i] == ' ',
{
    let mut label: Vec<char> = Vec::new();
    label.push(if selected { '>' } else { ' ' });
    let mut i: usize = 0;
    while i < name.len()
        invariant
            i <= name.len(),
            label@ == seq![if selected { '>' } else { ' ' }] + name@.subrange(0, i as int),
        decreases name.len() - i,
    {
        label.push(name[i]);
        i = i + 1;
        assert(label@ =~= seq![if selected { '>' } else { ' ' }] + name@.subrange(0, i as int));
    }
    assert(name@.subrange(0, name.len() as int) =~= name@);
    let width = NAME_WIDTH - 1;
    let ghost base = label@;
    let mut filled: usize = name.len();
    while filled < width
        invariant
            name.len() <= filled <= width || (filled == name.len() && filled >= width),
            width == NAME_WIDTH - 1,
            label@ == base + Seq::new((filled - name.len()) as nat, |k: int| ' '),
        decreases width - filled,
    {
        label.push(' ');
        filled = filled + 1;
        assert(label@ =~= base + Seq::new((filled - name.len()) as nat, |k: int| ' '));
    }
    assert(label@ =~= track_label_spec(name@, selected));
    label
}

} // verus!
