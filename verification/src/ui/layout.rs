//! Single source of truth for all layout dimensions.
//!
//! The areas are computed by ratatui's constraint solver; this module
//! chooses the constraints, hands them to the solver and assembles its
//! answers into the named panels of the screen.
use vstd::prelude::*;
use ratatui::layout as tui;

verus! {

/// Transport bar height (title border + 4 content lines + bottom border)
pub const TRANSPORT_HEIGHT: u16 = 6;

/// Height of the drum knobs panel (1 label + 5 bars + 1 value + 2 border).
pub const KNOBS_HEIGHT: u16 = 9;

/// Height of the synth knobs panel (OSC 8 + ENV/FILT 8 + LFO 3 + AMP 7 + 2 border = 30).
pub const SYNTH_KNOBS_HEIGHT: u16 = 30;

/// Height of the synth step row (2 border + header + spacer + step row + spacer = 6).
pub const SYNTH_GRID_HEIGHT: u16 = 6;

/// Combined synth section height (knobs + steps).
pub const SYNTH_SECTION_HEIGHT: u16 = SYNTH_KNOBS_HEIGHT + SYNTH_GRID_HEIGHT;

/// Synth section when collapsed (border + step row + border)
pub const SYNTH_COLLAPSED_HEIGHT: u16 = 3;

/// Width of the volume fader column.
pub const FADER_WIDTH: u16 = 3;

/// Height of the waveform/oscilloscope panel (including borders).
pub const WAVEFORM_HEIGHT: u16 = 11;

/// Activity bar (bottom status line)
pub const ACTIVITY_BAR_HEIGHT: u16 = 1;

/// Separator line
pub const SEPARATOR_HEIGHT: u16 = 1;

/// Help panel height
pub const HELP_HEIGHT: u16 = 22;

/// Minimum height of the drum area.
pub const DRUM_AREA_MIN_HEIGHT: u16 = 11;

/// Minimum width of the content next to a fader.
pub const CONTENT_MIN_WIDTH: u16 = 20;

/// A rectangle of terminal cells.
#[derive(Debug, Clone, Copy, PartialEq, Eq, Structural)]
pub struct Rect {
    pub x: u16,
    pub y: u16,
    pub width: u16,
    pub height: u16,
}

/// The size constraint of one area of a split.
#[derive(Debug, Clone, Copy, PartialEq, Eq, Structural)]
pub enum Constraint {
    /// Exactly this many cells, if the space allows.
    Length(u16),
    /// At least this many cells.
    Min(u16),
}

/// The axis along which an area is split.
#[derive(Debug, Clone, Copy, PartialEq, Eq, Structural)]
pub enum Direction {
    Horizontal,
    Vertical,
}

/// Pre-computed layout rects, shared between render and mouse hit-testing.
#[derive(Debug, Clone, Copy, PartialEq, Eq, Structural)]
pub struct ComputedLayout {
    pub transport: Rect,
    pub synth_section: Rect,
    pub separator: Rect,
    pub drum_area: Rect,
    pub knobs: Rect,
    /// Help or Waveform panel
    pub extra: Option<Rect>,
    pub activity_bar: Rect,
    // Synth sub-areas (only valid when expanded)
    pub synth_fader: Rect,
    pub synth_content: Rect,
    pub synth_knobs: Rect,
    pub synth_grid: Rect,
    // Drum sub-areas
    pub drum_fader: Rect,
    pub drum_grid: Rect,
}

/// What a split into `parts` keeps of `area`, whatever sizes the solver
/// chose: one part per constraint, each spanning the whole area across the
/// split axis.
pub open spec fn split_keeps_cross_axis(area: Rect, dir: Direction, constraints: Seq<Constraint>, parts: Seq<Rect>) -> bool {
    &&& parts.len() == constraints.len()
    &&& forall|i: int|
        #![trigger parts[i]]
        0 <= i < parts.len() ==> match dir {
            Direction::Vertical => parts[i].x == area.x && parts[i].width == area.width,
            Direction::Horizontal => parts[i].y == area.y && parts[i].height == area.height,
        }
}

/// Where `r` starts along `dir`.
pub open spec fn axis_start(r: Rect, dir: Direction) -> int {
    match dir {
        Direction::Vertical => r.y as int,
        Direction::Horizontal => r.x as int,
    }
}

/// The extent of `r` along `dir`.
pub open spec fn axis_extent(r: Rect, dir: Direction) -> int {
    match dir {
        Direction::Vertical => r.height as int,
        Direction::Horizontal => r.width as int,
    }
}

/// Where `r` ends along `dir` (clipped to the largest coordinate).
pub open spec fn axis_end(r: Rect, dir: Direction) -> int {
    let end = axis_start(r, dir) + axis_extent(r, dir);
    if end <= u16::MAX { end } else { u16::MAX as int }
}

/// The sum of the `Length` constraints.
pub open spec fn length_total(cs: Seq<Constraint>) -> int
    decreases cs.len(),
{
    if cs.len() == 0 {
        0
    } else {
        length_total(cs.drop_last()) + match cs.last() {
            Constraint::Length(n) => n as int,
            Constraint::Min(_) => 0int,
        }
    }
}

/// The sum of the `Min` constraints.
pub open spec fn min_total(cs: Seq<Constraint>) -> int
    decreases cs.len(),
{
    if cs.len() == 0 {
        0
    } else {
        min_total(cs.drop_last()) + match cs.last() {
            Constraint::Length(_) => 0int,
            Constraint::Min(m) => m as int,
        }
    }
}

/// The number of `Min` constraints.
pub open spec fn min_count(cs: Seq<Constraint>) -> int
    decreases cs.len(),
{
    if cs.len() == 0 {
        0
    } else {
        min_count(cs.drop_last()) + match cs.last() {
            Constraint::Length(_) => 0int,
            Constraint::Min(_) => 1int,
        }
    }
}

/// The extent a part gets when every constraint can be met: a `Length`
/// its length, a `Min` the `rest` the lengths leave.
pub open spec fn planned_extent(c: Constraint, rest: int) -> int {
    match c {
        Constraint::Length(n) => n as int,
        Constraint::Min(_) => rest,
    }
}

/// Where part `i` starts, relative to the area, when the parts are laid
/// one after the other.
pub open spec fn planned_offset(cs: Seq<Constraint>, i: nat, rest: int) -> int
    decreases i,
{
    if i == 0 {
        0
    } else {
        planned_offset(cs, (i - 1) as nat, rest) + planned_extent(cs[i - 1], rest)
    }
}

/// The part of `area` from `start` along `dir`, `len` long, spanning the
/// area across.
pub open spec fn placed(area: Rect, dir: Direction, start: int, len: int) -> Rect {
    match dir {
        Direction::Vertical => Rect { x: area.x, y: start as u16, width: area.width, height: len as u16 },
        Direction::Horizontal => Rect { x: start as u16, y: area.y, width: len as u16, height: area.height },
    }
}

/// Every constraint can be met at once: the area is long enough for all
/// lengths and minimums, at most one `Min` shares out the rest, and the
/// area and the minimums stay within ratatui's coordinate ranges.
pub open spec fn split_fits(area: Rect, dir: Direction, cs: Seq<Constraint>) -> bool {
    &&& axis_extent(area, dir) >= length_total(cs) + min_total(cs)
    &&& min_count(cs) <= 1
    &&& axis_start(area, dir) + axis_extent(area, dir) <= u16::MAX
    &&& forall|i: int| 0 <= i < cs.len() ==> (#[trigger] cs[i] matches Constraint::Min(m) ==> m <= 0x7fff)
}

/// The parts of a split that fits: in order from the area's start, each
/// `Length` part exactly its length, the `Min` part the rest.
pub open spec fn planned_split(area: Rect, dir: Direction, cs: Seq<Constraint>) -> Seq<Rect> {
    let rest = axis_extent(area, dir) - length_total(cs);
    Seq::new(
        cs.len(),
        |i: int| placed(area, dir, axis_start(area, dir) + planned_offset(cs, i as nat, rest), planned_extent(cs[i], rest)),
    )
}

/// The area lies within ratatui's coordinate range along `dir`, at most
/// one `Min` shares out space, and the minimums are within range.
pub open spec fn split_in_range(area: Rect, dir: Direction, cs: Seq<Constraint>) -> bool {
    &&& min_count(cs) <= 1
    &&& axis_start(area, dir) + axis_extent(area, dir) <= u16::MAX
    &&& forall|i: int| 0 <= i < cs.len() ==> (#[trigger] cs[i] matches Constraint::Min(m) ==> m <= 0x7fff)
}

/// The parts are laid one after the other along `dir` from the area's
/// start, with neither gaps nor overlaps.
pub open spec fn parts_contiguous(area: Rect, dir: Direction, parts: Seq<Rect>) -> bool {
    &&& parts.len() > 0 ==> axis_start(parts[0], dir) == axis_start(area, dir)
    &&& forall|i: int|
        0 < i < parts.len() ==> axis_start(#[trigger] parts[i], dir) == axis_start(parts[i - 1], dir)
            + axis_extent(parts[i - 1], dir)
}

/// What is known of the parts a split of `area` along `dir` under `cs`
/// returns, whatever the solver chose: one part per constraint, each
/// spanning the area across the axis and lying within it along the axis.
/// In range, the parts are contiguous from the area's start, a `Min` part
/// is at least its minimum (or the whole area, if that is shorter), and
/// when there is a `Min` or the lengths fill the area the parts reach its
/// end. When every constraint can be met, they are exactly the planned
/// parts.
pub open spec fn split_outcome(area: Rect, dir: Direction, cs: Seq<Constraint>, parts: Seq<Rect>) -> bool {
    &&& split_keeps_cross_axis(area, dir, cs, parts)
    &&& forall|i: int|
        0 <= i < parts.len() ==> axis_start(area, dir) <= axis_start(#[trigger] parts[i], dir)
            && axis_start(parts[i], dir) + axis_extent(parts[i], dir) <= axis_end(area, dir)
    &&& split_in_range(area, dir, cs) ==> {
        &&& parts_contiguous(area, dir, parts)
        &&& forall|i: int|
            0 <= i < parts.len() ==> (#[trigger] cs[i] matches Constraint::Min(m) ==> axis_extent(parts[i], dir)
                >= if m <= axis_extent(area, dir) { m as int } else { axis_extent(area, dir) })
        &&& (min_count(cs) >= 1 || length_total(cs) >= axis_extent(area, dir)) && parts.len() > 0 ==> axis_start(
            parts[parts.len() - 1],
            dir,
        ) + axis_extent(parts[parts.len() - 1], dir) == axis_start(area, dir) + axis_extent(area, dir)
    }
    &&& split_fits(area, dir, cs) ==> parts == planned_split(area, dir, cs)
}

/// Splits `area` along `dir` with ratatui's `Layout` (default flex, no
/// margin, no spacing) under `constraints`.
///
/// Calls `ratatui::layout::Layout::split` (through `split_with_spacers`
/// and `try_split`). Its contract claims what ratatui's source shows of
/// every result. `changes_to_rects` makes one rectangle per constraint,
/// keeping the area's position and extent across the axis, and the
/// REQUIRED constraints of `try_split` keep every segment inside the area.
/// When all constraints can be met (`split_fits`), the strengths in
/// `try_split` decide the sizes: the first spacer is held empty and the
/// inner spacers at zero far above everything else, each `Length` is held
/// at its size (`LENGTH_SIZE_EQ`, strong) and each `Min` at or above its
/// minimum (`MIN_SIZE_GE`), while the single `Min` grows to fill the area
/// (`FILL_GROW`, medium) ahead of the last spacer (`GROW`, a tenth of
/// that); the solver's optimum is therefore the planned split, and it is
/// the only one. Where the constraints cannot all be met, the same
/// strengths still hold the spacers at zero (so the parts stay contiguous
/// from the start, and reach the end unless the lengths leave room and no
/// `Min` takes it) and put a `Min` (`STRONG * 100`) ahead of every
/// `Length` (`STRONG * 10`), so a `Min` part keeps its minimum as far as
/// the area allows. Which lengths give way then is a tie that may depend on
/// the solver's hash-map order, which is seeded per process; nothing is
/// claimed of it.
#[verifier::external_body]
fn split_area(area: Rect, dir: Direction, constraints: &Vec<Constraint>) -> (parts: Vec<Rect>)
    ensures
        split_outcome(area, dir, constraints@, parts@),
{
    let direction = match dir {
        Direction::Horizontal => tui::Direction::Horizontal,
        Direction::Vertical => tui::Direction::Vertical,
    };
    let cs: Vec<tui::Constraint> = constraints.iter().map(|c| match c {
        Constraint::Length(n) => tui::Constraint::Length(*n),
        Constraint::Min(n) => tui::Constraint::Min(*n),
    }).collect();
    let area = tui::Rect { x: area.x, y: area.y, width: area.width, height: area.height };
    let rects = tui::Layout::default().direction(direction).constraints(cs).split(area);
    rects.iter().map(|r| Rect { x: r.x, y: r.y, width: r.width, height: r.height }).collect()
}

/// The vertical constraints of the whole screen: transport, synth section
/// (full or collapsed), separator, drum area (at least 11 rows), knobs,
/// the help or waveform panel when shown (help wins), and the activity bar.
pub open spec fn main_constraints_spec(synth_collapsed: bool, show_help: bool, show_waveform: bool) -> Seq<Constraint> {
    let synth_height = if synth_collapsed { SYNTH_COLLAPSED_HEIGHT } else { SYNTH_SECTION_HEIGHT };
    let top = seq![
        Constraint::Length(TRANSPORT_HEIGHT),
        Constraint::Length(synth_height),
        Constraint::Length(SEPARATOR_HEIGHT),
        Constraint::Min(DRUM_AREA_MIN_HEIGHT),
        Constraint::Length(KNOBS_HEIGHT),
    ];
    if show_help {
        top + seq![Constraint::Length(HELP_HEIGHT), Constraint::Length(ACTIVITY_BAR_HEIGHT)]
    } else if show_waveform {
        top + seq![Constraint::Length(WAVEFORM_HEIGHT), Constraint::Length(ACTIVITY_BAR_HEIGHT)]
    } else {
        top + seq![Constraint::Length(ACTIVITY_BAR_HEIGHT)]
    }
}

/// The constraints that split a section into a fader column and its content.
pub open spec fn fader_constraints_spec() -> Seq<Constraint> {
    seq![Constraint::Length(FADER_WIDTH), Constraint::Min(CONTENT_MIN_WIDTH)]
}

/// The constraints that split the synth content into knobs and step row.
pub open spec fn synth_constraints_spec() -> Seq<Constraint> {
    seq![Constraint::Length(SYNTH_KNOBS_HEIGHT), Constraint::Length(SYNTH_GRID_HEIGHT)]
}

/// The vertical constraints of the whole screen.
pub fn main_constraints(synth_collapsed: bool, show_help: bool, show_waveform: bool) -> (cs: Vec<Constraint>)
    ensures
        cs@ == main_constraints_spec(synth_collapsed, show_help, show_waveform),
        cs@.len() == if show_help || show_waveform { 7int } else { 6int },
        cs@[0] == Constraint::Length(TRANSPORT_HEIGHT),
        cs@[1] == Constraint::Length(if synth_collapsed { SYNTH_COLLAPSED_HEIGHT } else { SYNTH_SECTION_HEIGHT }),
        cs@[2] == Constraint::Length(SEPARATOR_HEIGHT),
        cs@[3] == Constraint::Min(DRUM_AREA_MIN_HEIGHT),
        cs@[4] == Constraint::Length(KNOBS_HEIGHT),
        show_help ==> cs@[5] == Constraint::Length(HELP_HEIGHT),
        !show_help && show_waveform ==> cs@[5] == Constraint::Length(WAVEFORM_HEIGHT),
        cs@[cs@.len() - 1] == Constraint::Length(ACTIVITY_BAR_HEIGHT),
{
    let synth_height = if synth_collapsed { SYNTH_COLLAPSED_HEIGHT } else { SYNTH_SECTION_HEIGHT };
    let mut cs: Vec<Constraint> = Vec::new();
    cs.push(Constraint::Length(TRANSPORT_HEIGHT));
    cs.push(Constraint::Length(synth_height));
    cs.push(Constraint::Length(SEPARATOR_HEIGHT));
    cs.push(Constraint::Min(DRUM_AREA_MIN_HEIGHT));
    cs.push(Constraint::Length(KNOBS_HEIGHT));
    if show_help {
        cs.push(Constraint::Length(HELP_HEIGHT));
    } else if show_waveform {
        cs.push(Constraint::Length(WAVEFORM_HEIGHT));
    }
    cs.push(Constraint::Length(ACTIVITY_BAR_HEIGHT));
    proof {
        assert(cs@ =~= main_constraints_spec(synth_collapsed, show_help, show_waveform));
    }
    cs
}

/// The named panels, read off the solver's answers: `chunks` for the
/// screen, `synth_h` and `synth_v` for the synth section and its content,
/// `drum_h` for the drum area.
pub open spec fn assembled_layout(
    chunks: Seq<Rect>,
    synth_h: Seq<Rect>,
    synth_v: Seq<Rect>,
    drum_h: Seq<Rect>,
    has_extra: bool,
) -> ComputedLayout {
    ComputedLayout {
        transport: chunks[0],
        synth_section: chunks[1],
        separator: chunks[2],
        drum_area: chunks[3],
        knobs: chunks[4],
        extra: if has_extra { Some(chunks[5]) } else { None },
        activity_bar: if has_extra { chunks[6] } else { chunks[5] },
        synth_fader: synth_h[0],
        synth_content: synth_h[1],
        synth_knobs: synth_v[0],
        synth_grid: synth_v[1],
        drum_fader: drum_h[0],
        drum_grid: drum_h[1],
    }
}

/// Assemble the named panels from the solver's answers (see
/// `assembled_layout`).
pub fn assemble_layout(
    chunks: &Vec<Rect>,
    synth_h: &Vec<Rect>,
    synth_v: &Vec<Rect>,
    drum_h: &Vec<Rect>,
    has_extra: bool,
) -> (layout: ComputedLayout)
    requires
        chunks.len() == if has_extra { 7int } else { 6int },
        synth_h.len() == 2,
        synth_v.len() == 2,
        drum_h.len() == 2,
    ensures
        layout == assembled_layout(chunks@, synth_h@, synth_v@, drum_h@, has_extra),
{
    let extra = if has_extra { Some(chunks[5]) } else { None };
    let activity_idx: usize = if has_extra { 6 } else { 5 };
    ComputedLayout {
        transport: chunks[0],
        synth_section: chunks[1],
        separator: chunks[2],
        drum_area: chunks[3],
        knobs: chunks[4],
        extra,
        activity_bar: chunks[activity_idx],
        synth_fader: synth_h[0],
        synth_content: synth_h[1],
        synth_knobs: synth_v[0],
        synth_grid: synth_v[1],
        drum_fader: drum_h[0],
        drum_grid: drum_h[1],
    }
}

/// The height of the synth section.
pub open spec fn synth_height(synth_collapsed: bool) -> int {
    if synth_collapsed { SYNTH_COLLAPSED_HEIGHT as int } else { SYNTH_SECTION_HEIGHT as int }
}

/// The height of the help or waveform panel (0 when neither is shown).
pub open spec fn extra_height(show_help: bool, show_waveform: bool) -> int {
    if show_help {
        HELP_HEIGHT as int
    } else if show_waveform {
        WAVEFORM_HEIGHT as int
    } else {
        0
    }
}

/// The screen holds every panel at its full size: it is tall enough for
/// the fixed panels plus the drum area's minimum, wide enough for a fader
/// and the content minimum, and within ratatui's coordinate range.
pub open spec fn screen_fits(size: Rect, synth_collapsed: bool, show_help: bool, show_waveform: bool) -> bool {
    &&& size.height >= TRANSPORT_HEIGHT + synth_height(synth_collapsed) + SEPARATOR_HEIGHT + DRUM_AREA_MIN_HEIGHT
        + KNOBS_HEIGHT + extra_height(show_help, show_waveform) + ACTIVITY_BAR_HEIGHT
    &&& size.y + size.height <= u16::MAX
    &&& size.width >= FADER_WIDTH + CONTENT_MIN_WIDTH
    &&& size.x + size.width <= u16::MAX
}

/// The screen's panels when it fits: from the top, transport (6 rows),
/// synth section, separator (1), drum area (all rows left over), knobs (9),
/// the help (22) or waveform (11) panel when shown, activity bar (1); the
/// faders 3 columns wide on the left of the synth section and the drum
/// area, and the expanded synth content split into knobs (30 rows) and
/// step row (6 rows).
pub open spec fn expected_layout(size: Rect, synth_collapsed: bool, show_help: bool, show_waveform: bool) -> ComputedLayout {
    let sh = synth_height(synth_collapsed);
    let eh = extra_height(show_help, show_waveform);
    let drum = size.height - (TRANSPORT_HEIGHT + sh + SEPARATOR_HEIGHT + KNOBS_HEIGHT + eh + ACTIVITY_BAR_HEIGHT);
    let y0 = size.y as int;
    let synth_y = y0 + TRANSPORT_HEIGHT;
    let drum_y = synth_y + sh + SEPARATOR_HEIGHT;
    let knobs_y = drum_y + drum;
    let extra_y = knobs_y + KNOBS_HEIGHT;
    let cx = size.x + FADER_WIDTH;
    let cw = size.width - FADER_WIDTH;
    ComputedLayout {
        transport: Rect { x: size.x, y: y0 as u16, width: size.width, height: TRANSPORT_HEIGHT },
        synth_section: Rect { x: size.x, y: synth_y as u16, width: size.width, height: sh as u16 },
        separator: Rect { x: size.x, y: (synth_y + sh) as u16, width: size.width, height: SEPARATOR_HEIGHT },
        drum_area: Rect { x: size.x, y: drum_y as u16, width: size.width, height: drum as u16 },
        knobs: Rect { x: size.x, y: knobs_y as u16, width: size.width, height: KNOBS_HEIGHT },
        extra: if show_help || show_waveform {
            Some(Rect { x: size.x, y: extra_y as u16, width: size.width, height: eh as u16 })
        } else {
            None
        },
        activity_bar: Rect { x: size.x, y: (extra_y + eh) as u16, width: size.width, height: ACTIVITY_BAR_HEIGHT },
        synth_fader: Rect { x: size.x, y: synth_y as u16, width: FADER_WIDTH, height: sh as u16 },
        synth_content: Rect { x: cx as u16, y: synth_y as u16, width: cw as u16, height: sh as u16 },
        synth_knobs: Rect { x: cx as u16, y: synth_y as u16, width: cw as u16, height: SYNTH_KNOBS_HEIGHT },
        synth_grid: Rect {
            x: cx as u16,
            y: (synth_y + SYNTH_KNOBS_HEIGHT) as u16,
            width: cw as u16,
            height: SYNTH_GRID_HEIGHT,
        },
        drum_fader: Rect { x: size.x, y: drum_y as u16, width: FADER_WIDTH, height: drum as u16 },
        drum_grid: Rect { x: cx as u16, y: drum_y as u16, width: cw as u16, height: drum as u16 },
    }
}

/// `a` and `b` agree on every panel but the synth knobs and step row.
pub open spec fn same_panels_but_synth_content(a: ComputedLayout, b: ComputedLayout) -> bool {
    &&& a.transport == b.transport
    &&& a.synth_section == b.synth_section
    &&& a.separator == b.separator
    &&& a.drum_area == b.drum_area
    &&& a.knobs == b.knobs
    &&& a.extra == b.extra
    &&& a.activity_bar == b.activity_bar
    &&& a.synth_fader == b.synth_fader
    &&& a.synth_content == b.synth_content
    &&& a.drum_fader == b.drum_fader
    &&& a.drum_grid == b.drum_grid
}

proof fn lemma_totals_push(cs: Seq<Constraint>, c: Constraint)
    ensures
        length_total(cs.push(c)) == length_total(cs) + match c {
            Constraint::Length(n) => n as int,
            Constraint::Min(_) => 0int,
        },
        min_total(cs.push(c)) == min_total(cs) + match c {
            Constraint::Length(_) => 0int,
            Constraint::Min(m) => m as int,
        },
        min_count(cs.push(c)) == min_count(cs) + match c {
            Constraint::Length(_) => 0int,
            Constraint::Min(_) => 1int,
        },
{
    assert(cs.push(c).drop_last() =~= cs);
}

proof fn lemma_main_totals(synth_collapsed: bool, show_help: bool, show_waveform: bool)
    ensures
        ({
            let cs = main_constraints_spec(synth_collapsed, show_help, show_waveform);
            &&& cs.len() == if show_help || show_waveform { 7int } else { 6int }
            &&& length_total(cs) == TRANSPORT_HEIGHT + synth_height(synth_collapsed) + SEPARATOR_HEIGHT + KNOBS_HEIGHT
                + extra_height(show_help, show_waveform) + ACTIVITY_BAR_HEIGHT
            &&& min_total(cs) == DRUM_AREA_MIN_HEIGHT
            &&& min_count(cs) == 1
            &&& cs[3] == Constraint::Min(DRUM_AREA_MIN_HEIGHT)
            &&& forall|i: int| 0 <= i < cs.len() ==> (#[trigger] cs[i] matches Constraint::Min(m) ==> m <= 0x7fff)
        }),
{
    let cs = main_constraints_spec(synth_collapsed, show_help, show_waveform);
    let sh = synth_height(synth_collapsed);
    let eh = extra_height(show_help, show_waveform);
    let top = seq![
        Constraint::Length(TRANSPORT_HEIGHT),
        Constraint::Length(sh as u16),
        Constraint::Length(SEPARATOR_HEIGHT),
        Constraint::Min(DRUM_AREA_MIN_HEIGHT),
        Constraint::Length(KNOBS_HEIGHT),
    ];
    let e = Seq::<Constraint>::empty();
    assert(top =~= e.push(top[0]).push(top[1]).push(top[2]).push(top[3]).push(top[4]));
    lemma_totals_push(e, top[0]);
    lemma_totals_push(e.push(top[0]), top[1]);
    lemma_totals_push(e.push(top[0]).push(top[1]), top[2]);
    lemma_totals_push(e.push(top[0]).push(top[1]).push(top[2]), top[3]);
    lemma_totals_push(e.push(top[0]).push(top[1]).push(top[2]).push(top[3]), top[4]);
    if show_help || show_waveform {
        assert(cs =~= top.push(Constraint::Length(eh as u16)).push(Constraint::Length(ACTIVITY_BAR_HEIGHT)));
        lemma_totals_push(top, Constraint::Length(eh as u16));
        lemma_totals_push(top.push(Constraint::Length(eh as u16)), Constraint::Length(ACTIVITY_BAR_HEIGHT));
    } else {
        assert(cs =~= top.push(Constraint::Length(ACTIVITY_BAR_HEIGHT)));
        lemma_totals_push(top, Constraint::Length(ACTIVITY_BAR_HEIGHT));
    }
    assert forall|i: int| 0 <= i < cs.len() implies (#[trigger] cs[i] matches Constraint::Min(m) ==> m <= 0x7fff) by {
    }
}

proof fn lemma_pair_totals(cs: Seq<Constraint>)
    requires
        cs.len() == 2,
    ensures
        length_total(cs) == (match cs[0] {
            Constraint::Length(n) => n as int,
            Constraint::Min(_) => 0int,
        }) + (match cs[1] {
            Constraint::Length(n) => n as int,
            Constraint::Min(_) => 0int,
        }),
        min_count(cs) == (if cs[0] is Min { 1int } else { 0int }) + (if cs[1] is Min { 1int } else { 0int }),
        min_total(cs) == (match cs[0] {
            Constraint::Length(_) => 0int,
            Constraint::Min(m) => m as int,
        }) + (match cs[1] {
            Constraint::Length(_) => 0int,
            Constraint::Min(m) => m as int,
        }),
{
    let e = Seq::<Constraint>::empty();
    assert(cs =~= e.push(cs[0]).push(cs[1]));
    lemma_totals_push(e, cs[0]);
    lemma_totals_push(e.push(cs[0]), cs[1]);
}

proof fn lemma_main_plan(size: Rect, synth_collapsed: bool, show_help: bool, show_waveform: bool)
    requires
        screen_fits(size, synth_collapsed, show_help, show_waveform),
    ensures
        ({
            let cs = main_constraints_spec(synth_collapsed, show_help, show_waveform);
            let e = expected_layout(size, synth_collapsed, show_help, show_waveform);
            let p = planned_split(size, Direction::Vertical, cs);
            &&& split_fits(size, Direction::Vertical, cs)
            &&& p.len() == if show_help || show_waveform { 7int } else { 6int }
            &&& p[0] == e.transport
            &&& p[1] == e.synth_section
            &&& p[2] == e.separator
            &&& p[3] == e.drum_area
            &&& p[4] == e.knobs
            &&& (show_help || show_waveform) ==> (e.extra == Some(p[5]) && p[6] == e.activity_bar)
            &&& !(show_help || show_waveform) ==> p[5] == e.activity_bar
        }),
{
    let cs = main_constraints_spec(synth_collapsed, show_help, show_waveform);
    let sh = synth_height(synth_collapsed);
    let eh = extra_height(show_help, show_waveform);
    lemma_main_totals(synth_collapsed, show_help, show_waveform);
    let rest = axis_extent(size, Direction::Vertical) - length_total(cs);
    assert(planned_offset(cs, 0, rest) == 0);
    assert(planned_offset(cs, 1, rest) == 6);
    assert(planned_offset(cs, 2, rest) == 6 + sh);
    assert(planned_offset(cs, 3, rest) == 7 + sh);
    assert(planned_offset(cs, 4, rest) == 7 + sh + rest);
    assert(planned_offset(cs, 5, rest) == 16 + sh + rest);
    if show_help || show_waveform {
        assert(planned_offset(cs, 6, rest) == 16 + sh + rest + eh);
    }
    assert forall|i: int| 0 <= i < cs.len() implies (#[trigger] cs[i] matches Constraint::Min(m) ==> m <= 0x7fff) by {
    }
}

proof fn lemma_fader_plan(area: Rect)
    requires
        area.width >= FADER_WIDTH + CONTENT_MIN_WIDTH,
        area.x + area.width <= u16::MAX,
    ensures
        split_fits(area, Direction::Horizontal, fader_constraints_spec()),
        planned_split(area, Direction::Horizontal, fader_constraints_spec()) == seq![
            Rect { x: area.x, y: area.y, width: FADER_WIDTH, height: area.height },
            Rect { x: (area.x + FADER_WIDTH) as u16, y: area.y, width: (area.width - FADER_WIDTH) as u16, height: area.height },
        ],
{
    let cs = fader_constraints_spec();
    assert(cs.drop_last() =~= seq![Constraint::Length(FADER_WIDTH)]);
    assert(cs.drop_last().drop_last() =~= Seq::<Constraint>::empty());
    let rest = axis_extent(area, Direction::Horizontal) - length_total(cs);
    let e = Seq::<Constraint>::empty();
    assert(cs =~= e.push(cs[0]).push(cs[1]));
    lemma_totals_push(e, cs[0]);
    lemma_totals_push(e.push(cs[0]), cs[1]);
    assert forall|i: int| 0 <= i < cs.len() implies (#[trigger] cs[i] matches Constraint::Min(m) ==> m <= 0x7fff) by {
    }
    assert(length_total(cs.drop_last()) == length_total(cs.drop_last().drop_last()) + FADER_WIDTH);
    assert(planned_offset(cs, 0, rest) == 0);
    assert(planned_offset(cs, 1, rest) == FADER_WIDTH);
    assert(planned_split(area, Direction::Horizontal, cs) =~= seq![
        Rect { x: area.x, y: area.y, width: FADER_WIDTH, height: area.height },
        Rect { x: (area.x + FADER_WIDTH) as u16, y: area.y, width: (area.width - FADER_WIDTH) as u16, height: area.height },
    ]);
}

proof fn lemma_synth_plan(area: Rect)
    requires
        area.height >= SYNTH_KNOBS_HEIGHT + SYNTH_GRID_HEIGHT,
        area.y + area.height <= u16::MAX,
    ensures
        split_fits(area, Direction::Vertical, synth_constraints_spec()),
        planned_split(area, Direction::Vertical, synth_constraints_spec()) == seq![
            Rect { x: area.x, y: area.y, width: area.width, height: SYNTH_KNOBS_HEIGHT },
            Rect { x: area.x, y: (area.y + SYNTH_KNOBS_HEIGHT) as u16, width: area.width, height: SYNTH_GRID_HEIGHT },
        ],
{
    let cs = synth_constraints_spec();
    assert(cs.drop_last() =~= seq![Constraint::Length(SYNTH_KNOBS_HEIGHT)]);
    assert(cs.drop_last().drop_last() =~= Seq::<Constraint>::empty());
    let rest = axis_extent(area, Direction::Vertical) - length_total(cs);
    let e = Seq::<Constraint>::empty();
    assert(cs =~= e.push(cs[0]).push(cs[1]));
    lemma_totals_push(e, cs[0]);
    lemma_totals_push(e.push(cs[0]), cs[1]);
    assert forall|i: int| 0 <= i < cs.len() implies (#[trigger] cs[i] matches Constraint::Min(m) ==> m <= 0x7fff) by {
    }
    assert(length_total(cs.drop_last()) == length_total(cs.drop_last().drop_last()) + SYNTH_KNOBS_HEIGHT);
    assert(planned_offset(cs, 0, rest) == 0);
    assert(planned_offset(cs, 1, rest) == SYNTH_KNOBS_HEIGHT);
    assert(planned_split(area, Direction::Vertical, cs) =~= seq![
        Rect { x: area.x, y: area.y, width: area.width, height: SYNTH_KNOBS_HEIGHT },
        Rect { x: area.x, y: (area.y + SYNTH_KNOBS_HEIGHT) as u16, width: area.width, height: SYNTH_GRID_HEIGHT },
    ]);
}

/// The layout is made of four splits: the screen by `main_constraints`,
/// the synth section into fader and content, that content into knobs and
/// step row, and the drum area into fader and grid.
pub open spec fn layout_from_splits(
    size: Rect,
    synth_collapsed: bool,
    show_help: bool,
    show_waveform: bool,
    chunks: Seq<Rect>,
    synth_h: Seq<Rect>,
    synth_v: Seq<Rect>,
    drum_h: Seq<Rect>,
    layout: ComputedLayout,
) -> bool {
    &&& split_outcome(size, Direction::Vertical, main_constraints_spec(synth_collapsed, show_help, show_waveform), chunks)
    &&& split_outcome(chunks[1], Direction::Horizontal, fader_constraints_spec(), synth_h)
    &&& split_outcome(synth_h[1], Direction::Vertical, synth_constraints_spec(), synth_v)
    &&& split_outcome(chunks[3], Direction::Horizontal, fader_constraints_spec(), drum_h)
    &&& layout == assembled_layout(chunks, synth_h, synth_v, drum_h, show_help || show_waveform)
}

/// The vertical panels tile the screen from its top to its bottom, in
/// order (transport, synth section, separator, drum area, knobs, help or
/// waveform panel when shown, activity bar), and the drum area keeps its
/// minimum height as far as the screen allows.
pub open spec fn panels_tile_screen(layout: ComputedLayout, size: Rect) -> bool {
    &&& layout.transport.y == size.y
    &&& layout.synth_section.y == layout.transport.y + layout.transport.height
    &&& layout.separator.y == layout.synth_section.y + layout.synth_section.height
    &&& layout.drum_area.y == layout.separator.y + layout.separator.height
    &&& layout.knobs.y == layout.drum_area.y + layout.drum_area.height
    &&& match layout.extra {
        Some(e) => e.y == layout.knobs.y + layout.knobs.height && layout.activity_bar.y == e.y + e.height,
        None => layout.activity_bar.y == layout.knobs.y + layout.knobs.height,
    }
    &&& layout.activity_bar.y + layout.activity_bar.height == size.y + size.height
    &&& layout.drum_area.height >= if size.height >= DRUM_AREA_MIN_HEIGHT { DRUM_AREA_MIN_HEIGHT } else { size.height }
}

/// The fader columns and the content next to them tile the screen's width,
/// and the content keeps its minimum width as far as the screen allows.
pub open spec fn faders_tile_width(layout: ComputedLayout, size: Rect) -> bool {
    let min_w = if size.width >= CONTENT_MIN_WIDTH { CONTENT_MIN_WIDTH } else { size.width };
    &&& layout.synth_fader.x == size.x
    &&& layout.synth_content.x == layout.synth_fader.x + layout.synth_fader.width
    &&& layout.synth_content.x + layout.synth_content.width == size.x + size.width
    &&& layout.synth_content.width >= min_w
    &&& layout.drum_fader.x == size.x
    &&& layout.drum_grid.x == layout.drum_fader.x + layout.drum_fader.width
    &&& layout.drum_grid.x + layout.drum_grid.width == size.x + size.width
    &&& layout.drum_grid.width >= min_w
}

/// Compute layout for all sections. When the screen holds every panel at
/// its full size, the layout is `expected_layout` (but for the synth knobs
/// and step row of a collapsed synth section, which do not fit in it).
pub fn compute_layout(size: Rect, synth_collapsed: bool, show_help: bool, show_waveform: bool) -> (layout: ComputedLayout)
    ensures
        screen_fits(size, synth_collapsed, show_help, show_waveform) && !synth_collapsed ==> layout
            == expected_layout(size, synth_collapsed, show_help, show_waveform),
        screen_fits(size, synth_collapsed, show_help, show_waveform) ==> same_panels_but_synth_content(
            layout,
            expected_layout(size, synth_collapsed, show_help, show_waveform),
        ),
        size.y + size.height <= u16::MAX ==> panels_tile_screen(layout, size),
        size.x + size.width <= u16::MAX ==> faders_tile_width(layout, size),
        size.y + size.height <= u16::MAX ==> layout.synth_knobs.y == layout.synth_content.y
            && layout.synth_grid.y == layout.synth_knobs.y + layout.synth_knobs.height,
        exists|chunks: Seq<Rect>, synth_h: Seq<Rect>, synth_v: Seq<Rect>, drum_h: Seq<Rect>|
            layout_from_splits(size, synth_collapsed, show_help, show_waveform, chunks, synth_h, synth_v, drum_h, layout),
        layout.extra is Some <==> show_help || show_waveform,
        layout.transport.x == size.x && layout.transport.width == size.width,
        layout.synth_section.x == size.x && layout.synth_section.width == size.width,
        layout.separator.x == size.x && layout.separator.width == size.width,
        layout.drum_area.x == size.x && layout.drum_area.width == size.width,
        layout.knobs.x == size.x && layout.knobs.width == size.width,
        layout.activity_bar.x == size.x && layout.activity_bar.width == size.width,
        layout.extra matches Some(e) ==> e.x == size.x && e.width == size.width,
        layout.synth_fader.y == layout.synth_section.y && layout.synth_fader.height == layout.synth_section.height,
        layout.synth_content.y == layout.synth_section.y && layout.synth_content.height == layout.synth_section.height,
        layout.synth_knobs.x == layout.synth_content.x && layout.synth_knobs.width == layout.synth_content.width,
        layout.synth_grid.x == layout.synth_content.x && layout.synth_grid.width == layout.synth_content.width,
        layout.drum_fader.y == layout.drum_area.y && layout.drum_fader.height == layout.drum_area.height,
        layout.drum_grid.y == layout.drum_area.y && layout.drum_grid.height == layout.drum_area.height,
{
    let has_extra = show_help || show_waveform;
    let main = main_constraints(synth_collapsed, show_help, show_waveform);
    let chunks = split_area(size, Direction::Vertical, &main);

    let mut fader: Vec<Constraint> = Vec::new();
    fader.push(Constraint::Length(FADER_WIDTH));
    fader.push(Constraint::Min(CONTENT_MIN_WIDTH));
    assert(fader@ =~= fader_constraints_spec());

    // Synth sub-splits
    let synth_h = split_area(chunks[1], Direction::Horizontal, &fader);
    let mut synth_cs: Vec<Constraint> = Vec::new();
    synth_cs.push(Constraint::Length(SYNTH_KNOBS_HEIGHT));
    synth_cs.push(Constraint::Length(SYNTH_GRID_HEIGHT));
    assert(synth_cs@ =~= synth_constraints_spec());
    let synth_v = split_area(synth_h[1], Direction::Vertical, &synth_cs);

    // Drum sub-splits
    let drum_h = split_area(chunks[3], Direction::Horizontal, &fader);

    let layout = assemble_layout(&chunks, &synth_h, &synth_v, &drum_h, has_extra);
    proof {
        assert(layout_from_splits(size, synth_collapsed, show_help, show_waveform, chunks@, synth_h@, synth_v@, drum_h@, layout));
        let c = chunks@;
        assert(c[0].x == size.x && c[1].x == size.x && c[2].x == size.x && c[3].x == size.x && c[4].x == size.x);
        assert(c[5].x == size.x);
        if has_extra {
            assert(c[6].x == size.x);
        }
        assert(synth_h@[0].y == c[1].y && synth_h@[1].y == c[1].y);
        assert(synth_v@[0].x == synth_h@[1].x && synth_v@[1].x == synth_h@[1].x);
        assert(drum_h@[0].y == c[3].y && drum_h@[1].y == c[3].y);
        lemma_main_totals(synth_collapsed, show_help, show_waveform);
        let fcs = fader_constraints_spec();
        lemma_pair_totals(fcs);
        assert forall|i: int| 0 <= i < fcs.len() implies (#[trigger] fcs[i] matches Constraint::Min(m) ==> m <= 0x7fff) by {
        }
        let scs = synth_constraints_spec();
        lemma_pair_totals(scs);
        assert forall|i: int| 0 <= i < scs.len() implies (#[trigger] scs[i] matches Constraint::Min(m) ==> m <= 0x7fff) by {
        }
        let n = c.len() as int;
        if size.y + size.height <= u16::MAX {
            assert(split_in_range(size, Direction::Vertical, main_constraints_spec(synth_collapsed, show_help, show_waveform)));
            assert(axis_start(c[1], Direction::Vertical) == axis_start(c[0], Direction::Vertical) + axis_extent(c[0], Direction::Vertical));
            assert(axis_start(c[2], Direction::Vertical) == axis_start(c[1], Direction::Vertical) + axis_extent(c[1], Direction::Vertical));
            assert(axis_start(c[3], Direction::Vertical) == axis_start(c[2], Direction::Vertical) + axis_extent(c[2], Direction::Vertical));
            assert(axis_start(c[4], Direction::Vertical) == axis_start(c[3], Direction::Vertical) + axis_extent(c[3], Direction::Vertical));
            assert(axis_start(c[5], Direction::Vertical) == axis_start(c[4], Direction::Vertical) + axis_extent(c[4], Direction::Vertical));
            if has_extra {
                assert(axis_start(c[6], Direction::Vertical) == axis_start(c[5], Direction::Vertical) + axis_extent(c[5], Direction::Vertical));
            }
            assert(main_constraints_spec(synth_collapsed, show_help, show_waveform)[3] == Constraint::Min(DRUM_AREA_MIN_HEIGHT));
            assert(axis_extent(c[3], Direction::Vertical) >= if DRUM_AREA_MIN_HEIGHT <= size.height { DRUM_AREA_MIN_HEIGHT as int } else { size.height as int });
            // the synth content spans the synth section, which lies within the screen
            let sc = synth_h@[1];
            assert(sc.y == c[1].y && sc.height == c[1].height);
            assert(c[1].y + c[1].height <= axis_end(size, Direction::Vertical));
            assert(split_in_range(sc, Direction::Vertical, scs));
            assert(axis_start(synth_v@[1], Direction::Vertical) == axis_start(synth_v@[0], Direction::Vertical) + axis_extent(synth_v@[0], Direction::Vertical));
        }
        if size.x + size.width <= u16::MAX {
            assert(split_in_range(c[1], Direction::Horizontal, fcs));
            assert(split_in_range(c[3], Direction::Horizontal, fcs));
            assert(axis_start(synth_h@[1], Direction::Horizontal) == axis_start(synth_h@[0], Direction::Horizontal) + axis_extent(synth_h@[0], Direction::Horizontal));
            assert(axis_start(drum_h@[1], Direction::Horizontal) == axis_start(drum_h@[0], Direction::Horizontal) + axis_extent(drum_h@[0], Direction::Horizontal));
            assert(fcs[1] == Constraint::Min(CONTENT_MIN_WIDTH));
            assert(axis_extent(synth_h@[1], Direction::Horizontal) >= if CONTENT_MIN_WIDTH <= c[1].width { CONTENT_MIN_WIDTH as int } else { c[1].width as int });
            assert(axis_extent(drum_h@[1], Direction::Horizontal) >= if CONTENT_MIN_WIDTH <= c[3].width { CONTENT_MIN_WIDTH as int } else { c[3].width as int });
        }
        if screen_fits(size, synth_collapsed, show_help, show_waveform) {
            let e = expected_layout(size, synth_collapsed, show_help, show_waveform);
            lemma_main_plan(size, synth_collapsed, show_help, show_waveform);
            assert(c[1] == e.synth_section);
            assert(c[3] == e.drum_area);
            lemma_fader_plan(c[1]);
            lemma_fader_plan(c[3]);
            assert(synth_h@[1] == e.synth_content);
            if !synth_collapsed {
                lemma_synth_plan(synth_h@[1]);
            }
        }
    }
    layout
}

} // verus!
