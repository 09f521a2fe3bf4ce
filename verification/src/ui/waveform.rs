//! Spectrum bars and their frequency labels: which cell of a bar column
//! is lit, with which block character, and where labels are written.
use vstd::prelude::*;

verus! {

/// Narrowest inner area (in columns) the spectrum is drawn in.
pub const SCOPE_MIN_WIDTH: u16 = 10;

/// Lowest inner area (in rows) the spectrum is drawn in.
pub const SCOPE_MIN_HEIGHT: u16 = 3;

/// Fewest bar rows (above the label row) the spectrum is drawn with.
pub const SCOPE_MIN_BAR_ROWS: usize = 2;

/// The size of the spectrum's bar grid inside an inner area of
/// `inner_width` x `inner_height` cells showing `num_bars` bars: the
/// width and the number of bar rows (the bottom row holds the labels), or
/// `None` where nothing is drawn.
pub open spec fn scope_geometry_spec(inner_width: u16, inner_height: u16, num_bars: usize) -> Option<(usize, usize)> {
    if inner_width < SCOPE_MIN_WIDTH || inner_height < SCOPE_MIN_HEIGHT || num_bars == 0 {
        None
    } else if inner_height - 1 < SCOPE_MIN_BAR_ROWS {
        None
    } else {
        Some((inner_width as usize, (inner_height - 1) as usize))
    }
}

/// The spectrum is drawn exactly when the inner area is at least
/// `SCOPE_MIN_WIDTH` wide and `SCOPE_MIN_HEIGHT` high and there are bars to
/// show; then it takes the full width and every row above the label row.
/// So a larger inner area never draws less.
pub proof fn lemma_scope_geometry(inner_width: u16, inner_height: u16, num_bars: usize)
    ensures
        scope_geometry_spec(inner_width, inner_height, num_bars) is Some <==> (inner_width >= SCOPE_MIN_WIDTH
            && inner_height >= SCOPE_MIN_HEIGHT && num_bars > 0),
        scope_geometry_spec(inner_width, inner_height, num_bars) matches Some((w, h)) ==> w == inner_width && h
            == inner_height - 1 && h >= SCOPE_MIN_BAR_ROWS,
{
}

/// See `scope_geometry_spec`.
pub fn scope_geometry(inner_width: u16, inner_height: u16, num_bars: usize) -> (geometry: Option<(usize, usize)>)
    ensures
        geometry == scope_geometry_spec(inner_width, inner_height, num_bars),
        inner_width >= SCOPE_MIN_WIDTH && inner_height >= SCOPE_MIN_HEIGHT && num_bars > 0 ==> geometry == Some(
            (inner_width as usize, (inner_height - 1) as usize),
        ),
        inner_width < SCOPE_MIN_WIDTH || inner_height < SCOPE_MIN_HEIGHT || num_bars == 0 ==> geometry is None,
{
    if inner_width < SCOPE_MIN_WIDTH || inner_height < SCOPE_MIN_HEIGHT || num_bars == 0 {
        return None;
    }
    let width = inner_width as usize;
    // Reserve bottom row for frequency labels
    let bar_height = (inner_height as usize).saturating_sub(1);
    if bar_height < SCOPE_MIN_BAR_ROWS {
        return None;
    }
    Some((width, bar_height))
}

/// One cell of a bar column.
#[derive(Debug, Clone, Copy, PartialEq, Eq, Structural)]
pub enum BarCell {
    /// A full block.
    Full,
    /// The top of the bar: this many eighths of the cell (1..=7) are lit.
    Partial(u8),
    /// An unlit LED segment.
    Unlit,
}

/// The cell in row `row` (0 = top) of a column of `bar_height` rows whose
/// bar is `total_sub` eighths of a row high.
pub open spec fn bar_cell_spec(bar_height: int, total_sub: int, row: int) -> BarCell {
    let row_from_bottom = bar_height - 1 - row;
    let full_rows = total_sub / 8;
    let remainder = total_sub % 8;
    if row_from_bottom < full_rows {
        BarCell::Full
    } else if row_from_bottom == full_rows && remainder > 0 {
        BarCell::Partial(remainder as u8)
    } else {
        BarCell::Unlit
    }
}

/// The cells of a column, top row first.
pub fn bar_column(bar_height: usize, total_sub: usize) -> (cells: Vec<BarCell>)
    ensures
        cells.len() == bar_height,
        forall|row: int| 0 <= row < bar_height ==> #[trigger] cells[row] == bar_cell_spec(
            bar_height as int,
            total_sub as int,
            row,
        ),
{
    let full_rows = total_sub / 8;
    let remainder = total_sub % 8;
    let mut cells: Vec<BarCell> = Vec::new();
    let mut row: usize = 0;
    while row < bar_height
        invariant
            row <= bar_height,
            cells.len() == row,
            full_rows == total_sub / 8,
            remainder == total_sub % 8,
            forall|r: int| 0 <= r < row ==> #[trigger] cells[r] == bar_cell_spec(
                bar_height as int,
                total_sub as int,
                r,
            ),
        decreases bar_height - row,
    {
        let row_from_bottom = bar_height - 1 - row;
        let cell = if row_from_bottom < full_rows {
            BarCell::Full
        } else if row_from_bottom == full_rows && remainder > 0 {
            BarCell::Partial(remainder as u8)
        } else {
            BarCell::Unlit
        };
        cells.push(cell);
        row = row + 1;
    }
    cells
}

/// Eighths of a row lit in `cells`.
pub open spec fn lit_eighths(cells: Seq<BarCell>) -> int
    decreases cells.len(),
{
    if cells.len() == 0 {
        0
    } else {
        lit_eighths(cells.drop_last()) + match cells.last() {
            BarCell::Full => 8int,
            BarCell::Partial(e) => e as int,
            BarCell::Unlit => 0int,
        }
    }
}

/// The column of a bar `h` rows high, bottom row first.
pub open spec fn column_bottom_up(h: int, total_sub: int, k: int) -> Seq<BarCell> {
    Seq::new(k as nat, |i: int| bar_cell_spec(h, total_sub, h - 1 - i))
}

proof fn lemma_lit_bottom_up(h: int, total_sub: int, k: int)
    requires
        0 <= k <= h,
        0 <= total_sub,
    ensures
        lit_eighths(column_bottom_up(h, total_sub, k)) == if total_sub < 8 * k { total_sub } else { 8 * k },
    decreases k,
{
    if k > 0 {
        lemma_lit_bottom_up(h, total_sub, k - 1);
        assert(column_bottom_up(h, total_sub, k).drop_last() =~= column_bottom_up(h, total_sub, k - 1));
        let full = total_sub / 8;
        let rem = total_sub % 8;
        assert(total_sub == 8 * full + rem);
        if k - 1 < full {
            assert(8 * (k - 1) + 8 <= total_sub);
        }
    }
}

/// The order of the cells does not change how many eighths are lit.
proof fn lemma_lit_reverse(cells: Seq<BarCell>)
    ensures
        lit_eighths(cells.reverse()) == lit_eighths(cells),
    decreases cells.len(),
{
    if cells.len() > 0 {
        let rest = cells.drop_last();
        lemma_lit_reverse(rest);
        lemma_lit_prepend(cells.last(), rest.reverse());
        assert(cells.reverse() =~= seq![cells.last()] + rest.reverse());
        assert(seq![cells.last()].drop_last() =~= Seq::<BarCell>::empty());
        assert(lit_eighths(seq![cells.last()]) == lit_eighths(Seq::<BarCell>::empty()) + lit_eighths(cells) - lit_eighths(rest));
    } else {
        assert(cells.reverse() =~= cells);
    }
}

proof fn lemma_lit_prepend(c: BarCell, cells: Seq<BarCell>)
    ensures
        lit_eighths(seq![c] + cells) == lit_eighths(seq![c]) + lit_eighths(cells),
    decreases cells.len(),
{
    if cells.len() > 0 {
        lemma_lit_prepend(c, cells.drop_last());
        assert((seq![c] + cells).drop_last() =~= seq![c] + cells.drop_last());
    } else {
        assert(seq![c] + cells =~= seq![c]);
    }
    assert(seq![c].drop_last() =~= Seq::<BarCell>::empty());
}

/// A bar shows its height to the eighth of a row: a column of `bar_height`
/// rows lights exactly `total_sub` eighths when the bar fits, and is full
/// otherwise.
pub proof fn lemma_bar_shows_level(bar_height: nat, total_sub: nat)
    ensures
        lit_eighths(Seq::new(bar_height, |row: int| bar_cell_spec(bar_height as int, total_sub as int, row)))
            == if total_sub < 8 * bar_height { total_sub as int } else { (8 * bar_height) as int },
{
    let h = bar_height as int;
    let top_down = Seq::new(bar_height, |row: int| bar_cell_spec(h, total_sub as int, row));
    lemma_lit_bottom_up(h, total_sub as int, h);
    assert(column_bottom_up(h, total_sub as int, h).reverse() =~= top_down);
    lemma_lit_reverse(column_bottom_up(h, total_sub as int, h));
}

/// A bar grows from the bottom: below a lit cell every cell is full, and
/// above an unlit cell every cell is unlit; the column holds at most one
/// partial cell, with 1 to 7 eighths.
pub proof fn lemma_bar_grows_from_bottom(bar_height: int, total_sub: int, row: int, other: int)
    requires
        0 <= total_sub,
        0 <= row < bar_height,
        0 <= other < bar_height,
    ensures
        !(bar_cell_spec(bar_height, total_sub, row) is Unlit) && row < other ==> bar_cell_spec(
            bar_height,
            total_sub,
            other,
        ) is Full,
        bar_cell_spec(bar_height, total_sub, row) is Unlit && other < row ==> bar_cell_spec(
            bar_height,
            total_sub,
            other,
        ) is Unlit,
        bar_cell_spec(bar_height, total_sub, row) is Partial && bar_cell_spec(bar_height, total_sub, other) is Partial
            ==> row == other,
        bar_cell_spec(bar_height, total_sub, row) matches BarCell::Partial(e) ==> 1 <= e <= 7,
{
}

/// The block character for a bar top lit `eighths` eighths high (a blank
/// for none, a full block for 8 or more).
pub fn bar_char(eighths: u8) -> (c: char)
    ensures
        eighths == 0 ==> c == ' ',
        eighths == 1 ==> c == '\u{2581}',
        eighths == 2 ==> c == '\u{2582}',
        eighths == 3 ==> c == '\u{2583}',
        eighths == 4 ==> c == '\u{2584}',
        eighths == 5 ==> c == '\u{2585}',
        eighths == 6 ==> c == '\u{2586}',
        eighths == 7 ==> c == '\u{2587}',
        eighths >= 8 ==> c == '\u{2588}',
{
    match eighths {
        0 => ' ',
        1 => '\u{2581}',
        2 => '\u{2582}',
        3 => '\u{2583}',
        4 => '\u{2584}',
        5 => '\u{2585}',
        6 => '\u{2586}',
        7 => '\u{2587}',
        _ => '\u{2588}',
    }
}

/// The first column of a label of `len` characters centered on `col`.
pub open spec fn label_start(col: int, len: int) -> int {
    if col >= len / 2 { col - len / 2 } else { 0 }
}

/// A label is centered on its column: its middle character (index
/// `len / 2`) lands on `col`, unless the label would then start left of
/// the row, in which case it starts at the row's first column.
pub proof fn lemma_label_centered(col: int, len: int)
    requires
        0 <= col,
        0 <= len,
    ensures
        col >= len / 2 ==> label_start(col, len) + len / 2 == col,
        col < len / 2 ==> label_start(col, len) == 0,
        0 <= label_start(col, len) <= col,
{
}

/// `row` with `label` written centered on column `col`: nothing when `col`
/// lies outside the row, else the label's characters from
/// `label_start(col, label.len())` on, cut at the row's end.
pub open spec fn place_label_spec(row: Seq<char>, col: int, label: Seq<char>) -> Seq<char> {
    if col >= row.len() {
        row
    } else {
        let start = label_start(col, label.len() as int);
        Seq::new(
            row.len(),
            |k: int|
                if start <= k < start + label.len() {
                    label[k - start]
                } else {
                    row[k]
                },
        )
    }
}

/// Write `label` into `row` centered on column `col` (see `place_label_spec`).
pub fn place_label(row: &mut Vec<char>, col: usize, label: &Vec<char>)
    ensures
        final(row)@ == place_label_spec(old(row)@, col as int, label@),
{
    let width = row.len();
    if col >= width {
        return;
    }
    let label_len = label.len();
    let start = col.saturating_sub(label_len / 2);
    let ghost orig = row@;
    let mut i: usize = 0;
    while i < label_len
        invariant
            i <= label_len,
            label_len == label.len(),
            start == label_start(col as int, label_len as int),
            start <= col < width,
            width == orig.len(),
            row@.len() == width,
            forall|k: int|
                0 <= k < width ==> #[trigger] row@[k] == if start <= k < start + i {
                    label@[k - start]
                } else {
                    orig[k]
                },
        decreases label_len - i,
    {
        if i < width - start {
            let c = start + i;
            row.set(c, label[i]);
        }
        i = i + 1;
    }
    assert(row@ =~= place_label_spec(orig, col as int, label@));
}

} // verus!
