//! CSS-grid-like placement: where items go, how large the grid gets, and
//! which cells an item covers.

use vstd::prelude::*;
use crate::text::str_eq;

verus! {

/// Item alignment within grid cells.
#[derive(Debug, Clone, Copy, PartialEq, Eq, Structural)]
pub enum ItemAlignment {
    /// Align to start.
    Start,
    /// Align to center.
    Center,
    /// Align to end.
    End,
    /// Stretch to fill the cell.
    Stretch,
}

impl Default for ItemAlignment {
    /// Start.
    fn default() -> (r: Self)
        ensures
            r == ItemAlignment::Start,
    {
        ItemAlignment::Start
    }
}

/// Content alignment of the grid within its container.
#[derive(Debug, Clone, Copy, PartialEq, Eq, Structural)]
pub enum ContentAlignment {
    /// Pack at start.
    Start,
    /// Pack at center.
    Center,
    /// Pack at end.
    End,
    /// Distribute with space between.
    SpaceBetween,
    /// Distribute with space around.
    SpaceAround,
    /// Distribute with equal space.
    SpaceEvenly,
    /// Stretch to fill.
    Stretch,
}

impl Default for ContentAlignment {
    /// Start.
    fn default() -> (r: Self)
        ensures
            r == ContentAlignment::Start,
    {
        ContentAlignment::Start
    }
}

/// Grid item placement. Lines are numbered from 1; an end line is
/// exclusive.
#[derive(Debug, Clone, Copy, PartialEq, Eq, Structural)]
pub struct GridPlacement {
    /// Column start line (`None` for automatic).
    pub column_start: Option<usize>,
    /// Column end line (`None` for a span of one).
    pub column_end: Option<usize>,
    /// Row start line (`None` for automatic).
    pub row_start: Option<usize>,
    /// Row end line (`None` for a span of one).
    pub row_end: Option<usize>,
    /// Horizontal alignment override for this item.
    pub justify_self: Option<ItemAlignment>,
    /// Vertical alignment override for this item.
    pub align_self: Option<ItemAlignment>,
}

impl Default for GridPlacement {
    /// Fully automatic: no lines, no overrides.
    fn default() -> (r: Self)
        ensures
            r == (GridPlacement {
                column_start: None,
                column_end: None,
                row_start: None,
                row_end: None,
                justify_self: None,
                align_self: None,
            }),
    {
        GridPlacement {
            column_start: None,
            column_end: None,
            row_start: None,
            row_end: None,
            justify_self: None,
            align_self: None,
        }
    }
}

/// The span between two lines: at least one.
pub open spec fn span_of(start: Option<usize>, end: Option<usize>) -> int {
    match (start, end) {
        (Some(s), Some(e)) => if e > s {
            e - s
        } else {
            1
        },
        _ => 1,
    }
}

impl GridPlacement {
    /// The placement covering one cell.
    pub fn cell(column: usize, row: usize) -> (r: Self)
        requires
            column < usize::MAX,
            row < usize::MAX,
        ensures
            r == (GridPlacement {
                column_start: Some(column),
                column_end: Some((column + 1) as usize),
                row_start: Some(row),
                row_end: Some((row + 1) as usize),
                justify_self: None,
                align_self: None,
            }),
    {
        GridPlacement {
            column_start: Some(column),
            column_end: Some(column + 1),
            row_start: Some(row),
            row_end: Some(row + 1),
            justify_self: None,
            align_self: None,
        }
    }

    /// The placement spanning `span` columns from `column`, in one row.
    pub fn span_columns(column: usize, span: usize, row: usize) -> (r: Self)
        requires
            column + span <= usize::MAX,
            row < usize::MAX,
        ensures
            r == (GridPlacement {
                column_start: Some(column),
                column_end: Some((column + span) as usize),
                row_start: Some(row),
                row_end: Some((row + 1) as usize),
                justify_self: None,
                align_self: None,
            }),
    {
        GridPlacement {
            column_start: Some(column),
            column_end: Some(column + span),
            row_start: Some(row),
            row_end: Some(row + 1),
            justify_self: None,
            align_self: None,
        }
    }

    /// The placement spanning `span` rows from `row`, in one column.
    pub fn span_rows(column: usize, row: usize, span: usize) -> (r: Self)
        requires
            column < usize::MAX,
            row + span <= usize::MAX,
        ensures
            r == (GridPlacement {
                column_start: Some(column),
                column_end: Some((column + 1) as usize),
                row_start: Some(row),
                row_end: Some((row + span) as usize),
                justify_self: None,
                align_self: None,
            }),
    {
        GridPlacement {
            column_start: Some(column),
            column_end: Some(column + 1),
            row_start: Some(row),
            row_end: Some(row + span),
            justify_self: None,
            align_self: None,
        }
    }

    /// The number of columns covered: the distance between the lines when
    /// both are given, at least one.
    pub fn column_span(&self) -> (r: usize)
        ensures
            r == span_of(self.column_start, self.column_end),
    {
        match (self.column_start, self.column_end) {
            (Some(start), Some(end)) => if end > start {
                end - start
            } else {
                1
            },
            _ => 1,
        }
    }

    /// The number of rows covered: the distance between the lines when both
    /// are given, at least one.
    pub fn row_span(&self) -> (r: usize)
        ensures
            r == span_of(self.row_start, self.row_end),
    {
        match (self.row_start, self.row_end) {
            (Some(start), Some(end)) => if end > start {
                end - start
            } else {
                1
            },
            _ => 1,
        }
    }
}

/// The alignment an alignment keyword names; start for anything else.
pub open spec fn item_alignment_of(s: Seq<char>) -> ItemAlignment {
    if s == "start"@ {
        ItemAlignment::Start
    } else if s == "center"@ {
        ItemAlignment::Center
    } else if s == "end"@ {
        ItemAlignment::End
    } else if s == "stretch"@ {
        ItemAlignment::Stretch
    } else {
        ItemAlignment::Start
    }
}

/// Parse an item alignment keyword.
pub fn parse_item_alignment(s: &str) -> (r: ItemAlignment)
    ensures
        r == item_alignment_of(s@),
{
    if str_eq(s, "start") {
        ItemAlignment::Start
    } else if str_eq(s, "center") {
        ItemAlignment::Center
    } else if str_eq(s, "end") {
        ItemAlignment::End
    } else if str_eq(s, "stretch") {
        ItemAlignment::Stretch
    } else {
        ItemAlignment::Start
    }
}

/// The automatic placement of the item at `index`: one cell in the first
/// row, in column `index + 1`.
pub fn auto_placement(index: usize) -> (r: GridPlacement)
    requires
        index + 2 <= usize::MAX,
    ensures
        r == (GridPlacement {
            column_start: Some((index + 1) as usize),
            column_end: Some((index + 2) as usize),
            row_start: Some(1),
            row_end: Some(2),
            justify_self: None,
            align_self: None,
        }),
{
    GridPlacement {
        column_start: Some(index + 1),
        column_end: Some(index + 2),
        row_start: Some(1),
        row_end: Some(2),
        justify_self: None,
        align_self: None,
    }
}

/// The number of tracks one item asks for along an axis: its end line
/// minus one when it has an end, its start line when it has only a start,
/// and none otherwise.
pub open spec fn tracks_needed(start: Option<usize>, end: Option<usize>) -> int {
    match end {
        Some(e) => if e >= 1 {
            e - 1
        } else {
            0
        },
        None => match start {
            Some(s) => s as int,
            None => 0,
        },
    }
}

/// The larger of two integers.
pub open spec fn max_int(a: int, b: int) -> int {
    if a >= b {
        a
    } else {
        b
    }
}

/// The column count asked for by the first `n` items, starting from the
/// explicit count.
pub open spec fn columns_needed(explicit: int, items: Seq<GridPlacement>, n: int) -> int
    decreases n,
{
    if n <= 0 {
        explicit
    } else {
        max_int(
            columns_needed(explicit, items, n - 1),
            tracks_needed(items[n - 1].column_start, items[n - 1].column_end),
        )
    }
}

/// The row count asked for by the first `n` items, starting from the
/// explicit count.
pub open spec fn rows_needed(explicit: int, items: Seq<GridPlacement>, n: int) -> int
    decreases n,
{
    if n <= 0 {
        explicit
    } else {
        max_int(
            rows_needed(explicit, items, n - 1),
            tracks_needed(items[n - 1].row_start, items[n - 1].row_end),
        )
    }
}

/// The column count asked for is never below the explicit count nor below
/// what any item asks for, and it is one of those: the explicit count or
/// some item's need.
pub proof fn lemma_columns_needed(explicit: int, items: Seq<GridPlacement>, n: int)
    requires
        0 <= n <= items.len(),
    ensures
        columns_needed(explicit, items, n) >= explicit,
        forall|k: int|
            0 <= k < n ==> columns_needed(explicit, items, n) >= tracks_needed(
                #[trigger] items[k].column_start,
                items[k].column_end,
            ),
        columns_needed(explicit, items, n) == explicit || exists|k: int|
            0 <= k < n && columns_needed(explicit, items, n) == tracks_needed(
                #[trigger] items[k].column_start,
                items[k].column_end,
            ),
    decreases n,
{
    if n > 0 {
        lemma_columns_needed(explicit, items, n - 1);
    }
}

/// The row count asked for is never below the explicit count nor below
/// what any item asks for, and it is one of those: the explicit count or
/// some item's need.
pub proof fn lemma_rows_needed(explicit: int, items: Seq<GridPlacement>, n: int)
    requires
        0 <= n <= items.len(),
    ensures
        rows_needed(explicit, items, n) >= explicit,
        forall|k: int|
            0 <= k < n ==> rows_needed(explicit, items, n) >= tracks_needed(
                #[trigger] items[k].row_start,
                items[k].row_end,
            ),
        rows_needed(explicit, items, n) == explicit || exists|k: int|
            0 <= k < n && rows_needed(explicit, items, n) == tracks_needed(
                #[trigger] items[k].row_start,
                items[k].row_end,
            ),
    decreases n,
{
    if n > 0 {
        lemma_rows_needed(explicit, items, n - 1);
    }
}

/// The grid's size: as many columns and rows as are defined or as any item
/// reaches, and at least one of each when there are items.
pub fn grid_size(defined_columns: usize, defined_rows: usize, items: &[GridPlacement]) -> (r: (
    usize,
    usize,
))
    ensures
        r.0 == (if items@.len() > 0 {
            max_int(columns_needed(defined_columns as int, items@, items@.len() as int), 1)
        } else {
            defined_columns as int
        }),
        r.1 == (if items@.len() > 0 {
            max_int(rows_needed(defined_rows as int, items@, items@.len() as int), 1)
        } else {
            defined_rows as int
        }),
        r.0 >= defined_columns,
        r.1 >= defined_rows,
        forall|k: int|
            0 <= k < items@.len() ==> r.0 >= tracks_needed(
                #[trigger] items@[k].column_start,
                items@[k].column_end,
            ) && r.1 >= tracks_needed(items@[k].row_start, items@[k].row_end),
{
    proof {
        lemma_columns_needed(defined_columns as int, items@, items@.len() as int);
        lemma_rows_needed(defined_rows as int, items@, items@.len() as int);
    }
    let mut max_col = defined_columns;
    let mut max_row = defined_rows;
    let mut i: usize = 0;
    while i < items.len()
        invariant
            i <= items@.len(),
            max_col as int == columns_needed(defined_columns as int, items@, i as int),
            max_row as int == rows_needed(defined_rows as int, items@, i as int),
        decreases items@.len() - i,
    {
        let p = &items[i];
        let c: usize = match p.column_end {
            Some(end) => if end >= 1 {
                end - 1
            } else {
                0
            },
            None => match p.column_start {
                Some(start) => start,
                None => 0,
            },
        };
        if c > max_col {
            max_col = c;
        }
        let rr: usize = match p.row_end {
            Some(end) => if end >= 1 {
                end - 1
            } else {
                0
            },
            None => match p.row_start {
                Some(start) => start,
                None => 0,
            },
        };
        if rr > max_row {
            max_row = rr;
        }
        i += 1;
    }
    if items.len() > 0 {
        if max_col < 1 {
            max_col = 1;
        }
        if max_row < 1 {
            max_row = 1;
        }
    }
    (max_col, max_row)
}

/// The tracks an item covers along one axis, 0-based: from its start line
/// (line 1 when automatic) up to its end line (one past the start when
/// automatic), as a half-open range; an end before the start gives an
/// empty range.
pub open spec fn track_range(start: Option<usize>, end: Option<usize>) -> (int, int) {
    let s: int = match start {
        Some(v) => if v >= 1 {
            v - 1
        } else {
            0
        },
        None => 0,
    };
    let e: int = match end {
        Some(v) => if v >= 1 {
            v - 1
        } else {
            0
        },
        None => s + 1,
    };
    (s, e)
}

/// The tracks an item covers along one axis (see `track_range`).
pub fn item_tracks(start: Option<usize>, end: Option<usize>) -> (r: (usize, usize))
    ensures
        r.0 == track_range(start, end).0,
        r.1 == track_range(start, end).1,
{
    let s: usize = match start {
        Some(v) => if v >= 1 {
            v - 1
        } else {
            0
        },
        None => 0,
    };
    let e: usize = match end {
        Some(v) => if v >= 1 {
            v - 1
        } else {
            0
        },
        None => s + 1,
    };
    (s, e)
}

} // verus!
