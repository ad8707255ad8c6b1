//! Grid flow strategy.
//!
//! The container is partitioned into `columns x rows` equal cells (column and
//! row counts come from the template list lengths, gaps are subtracted before
//! dividing), and items are assigned to cells in row-major order by index.

use vstd::prelude::*;

use crate::errors::{LayoutError, VeloraError, VeloraResult};
use crate::types::{size_ok, Rect, Size, MAX_COORD};

verus! {

/// Grid container configuration.
pub struct GridContainer {
    /// Column templates; their count is the column count.
    pub template_columns: Vec<String>,
    /// Row templates; their count is the row count.
    pub template_rows: Vec<String>,
    /// Gap between columns.
    pub column_gap: i64,
    /// Gap between rows.
    pub row_gap: i64,
}

impl GridContainer {
    /// The default container: one column, one row, no gaps.
    pub fn new() -> (r: GridContainer)
        ensures
            r.template_columns@.len() == 1,
            r.template_columns@[0]@ == "1fr"@,
            r.template_rows@.len() == 1,
            r.template_rows@[0]@ == "1fr"@,
            r.column_gap == 0,
            r.row_gap == 0,
    {
        let mut template_columns: Vec<String> = Vec::new();
        template_columns.push("1fr".to_owned());
        let mut template_rows: Vec<String> = Vec::new();
        template_rows.push("1fr".to_owned());
        GridContainer { template_columns, template_rows, column_gap: 0, row_gap: 0 }
    }
}

impl Default for GridContainer {
    /// The default container, as `new`.
    fn default() -> (r: GridContainer)
        ensures
            r.template_columns@.len() == 1,
            r.template_rows@.len() == 1,
            r.column_gap == 0,
            r.row_gap == 0,
    {
        GridContainer::new()
    }
}

/// Grid item configuration: explicit cell placement bounds (not applied by
/// this strategy, which places by index).
#[derive(Debug, Clone, Copy, PartialEq, Eq, Structural)]
pub struct GridItem {
    pub column_start: Option<i32>,
    pub column_end: Option<i32>,
    pub row_start: Option<i32>,
    pub row_end: Option<i32>,
}

impl GridItem {
    /// The default item: automatic placement.
    pub fn new() -> (r: GridItem)
        ensures
            r == (GridItem { column_start: None, column_end: None, row_start: None, row_end: None }),
    {
        GridItem { column_start: None, column_end: None, row_start: None, row_end: None }
    }
}

impl Default for GridItem {
    /// The default item, as `new`.
    fn default() -> (r: GridItem)
        ensures
            r == (GridItem { column_start: None, column_end: None, row_start: None, row_end: None }),
    {
        GridItem::new()
    }
}

/// Integer division truncated toward zero, for a positive divisor.
pub open spec fn div_trunc(a: int, b: int) -> int {
    if a >= 0 {
        a / b
    } else {
        -((-a) / b)
    }
}

/// Executable truncated division.
fn div_trunc_i64(a: i64, b: i64) -> (r: i64)
    requires
        b > 0,
        -0x4000_0000_0000_0000 <= a <= 0x4000_0000_0000_0000,
    ensures
        r == div_trunc(a as int, b as int),
        a >= 0 ==> 0 <= r <= a,
        a < 0 ==> a <= r <= 0,
{
    if a >= 0 {
        let q = (a as u64) / (b as u64);
        proof {
            assert(q == a as int / b as int) by (nonlinear_arith)
                requires
                    a >= 0,
                    b > 0,
                    q == (a as u64) as int / (b as u64) as int,
                    (a as u64) as int == a as int,
                    (b as u64) as int == b as int,
            ;
            assert(0 <= a as int / b as int <= a) by (nonlinear_arith)
                requires
                    a >= 0,
                    b > 0,
            ;
        }
        q as i64
    } else {
        let neg = -a;
        let q = (neg as u64) / (b as u64);
        proof {
            assert(q == neg as int / b as int) by (nonlinear_arith)
                requires
                    neg > 0,
                    b > 0,
                    q == (neg as u64) as int / (b as u64) as int,
                    (neg as u64) as int == neg as int,
                    (b as u64) as int == b as int,
            ;
            assert(0 <= neg as int / b as int <= neg) by (nonlinear_arith)
                requires
                    neg >= 0,
                    b > 0,
            ;
        }
        -(q as i64)
    }
}

/// The width of one grid cell: the container width, less the inter-column
/// gaps, divided evenly.
pub open spec fn grid_cell_extent(total: int, count: int, gap: int) -> int {
    div_trunc(total - (count - 1) * gap, count)
}

/// Whether the configuration lies within the accepted coordinate range.
pub open spec fn grid_config_ok(c: GridContainer) -> bool {
    &&& 0 <= c.column_gap <= MAX_COORD
    &&& 0 <= c.row_gap <= MAX_COORD
    &&& c.template_columns@.len() <= MAX_COORD
    &&& c.template_rows@.len() <= MAX_COORD
}

/// Grid layout calculator: a container configuration and an ordered item
/// list.
pub struct GridLayout {
    container: GridContainer,
    items: Vec<GridItem>,
}

impl GridLayout {
    /// The container configuration.
    pub closed spec fn spec_container(self) -> GridContainer {
        self.container
    }

    /// The item list.
    pub closed spec fn spec_items(self) -> Seq<GridItem> {
        self.items@
    }

    /// Column count: the column template count.
    pub open spec fn spec_columns(self) -> int {
        self.spec_container().template_columns@.len() as int
    }

    /// Row count: the row template count.
    pub open spec fn spec_rows(self) -> int {
        self.spec_container().template_rows@.len() as int
    }

    /// Creates a calculator with no items.
    pub fn new(container: GridContainer) -> (r: GridLayout)
        ensures
            r.spec_container() == container,
            r.spec_items().len() == 0,
    {
        GridLayout { container, items: Vec::new() }
    }

    /// Appends an item.
    pub fn add_item(&mut self, item: GridItem)
        ensures
            final(self).spec_container() == old(self).spec_container(),
            final(self).spec_items() == old(self).spec_items().push(item),
    {
        self.items.push(item);
    }

    /// Partitions the container into equal cells and assigns the items to
    /// cells in row-major order. An empty item list yields an empty rectangle
    /// list; with items present, an empty template list is rejected.
    pub fn calculate_layout(&self, container_size: Size) -> (r: VeloraResult<Vec<Rect>>)
        requires
            size_ok(container_size),
            grid_config_ok(self.spec_container()),
            self.spec_items().len() <= MAX_COORD,
        ensures
            ({
                let cols = self.spec_columns();
                let rows = self.spec_rows();
                let cgap = self.spec_container().column_gap as int;
                let rgap = self.spec_container().row_gap as int;
                let cw = grid_cell_extent(container_size.width as int, cols, cgap);
                let ch = grid_cell_extent(container_size.height as int, rows, rgap);
                if self.spec_items().len() == 0 {
                    r is Ok && r->Ok_0@.len() == 0
                } else if cols == 0 || rows == 0 {
                    r matches Err(VeloraError::Layout(LayoutError::InvalidConstraints(_)))
                } else {
                    &&& r is Ok
                    &&& r->Ok_0@.len() == self.spec_items().len()
                    &&& forall|k: int|
                        0 <= k < self.spec_items().len() ==> #[trigger] r->Ok_0@[k] == (Rect {
                            x: ((k % cols) * (cw + cgap)) as i64,
                            y: ((k / cols) * (ch + rgap)) as i64,
                            width: cw as i64,
                            height: ch as i64,
                        })
                }
            }),
    {
        if self.items.len() == 0 {
            let results: Vec<Rect> = Vec::new();
            return Ok(results);
        }
        let columns = self.template_columns_len();
        let rows = self.template_rows_len();
        if columns == 0 || rows == 0 {
            return Err(
                VeloraError::Layout(
                    LayoutError::InvalidConstraints(
                        "grid must have at least one column and one row".to_owned(),
                    ),
                ),
            );
        }
        let cgap = self.container.column_gap;
        let rgap = self.container.row_gap;
        proof {
            lemma_gap_total_bound(container_size.width as int, columns as int, cgap as int);
            lemma_gap_total_bound(container_size.height as int, rows as int, rgap as int);
        }
        let avail_w: i64 = container_size.width - (columns as i64 - 1) * cgap;
        let avail_h: i64 = container_size.height - (rows as i64 - 1) * rgap;
        let cell_width = div_trunc_i64(avail_w, columns as i64);
        let cell_height = div_trunc_i64(avail_h, rows as i64);
        proof {
            lemma_cell_extent_in_range(container_size.width as int, columns as int, cgap as int);
            lemma_cell_extent_in_range(container_size.height as int, rows as int, rgap as int);
        }
        let mut results: Vec<Rect> = Vec::new();
        let n = self.items.len();
        let mut index: usize = 0;
        let ghost cols_g = self.spec_columns();
        let ghost cw = grid_cell_extent(container_size.width as int, cols_g, cgap as int);
        let ghost ch = grid_cell_extent(
            container_size.height as int,
            self.spec_rows(),
            rgap as int,
        );
        while index < n
            invariant
                n == self.spec_items().len(),
                n <= MAX_COORD,
                columns == self.spec_columns(),
                rows == self.spec_rows(),
                1 <= columns,
                1 <= rows,
                columns as int <= MAX_COORD,
                rows as int <= MAX_COORD,
                cols_g == columns as int,
                cgap == self.spec_container().column_gap,
                rgap == self.spec_container().row_gap,
                0 <= cgap <= MAX_COORD,
                0 <= rgap <= MAX_COORD,
                cell_width == cw,
                cell_height == ch,
                -2 * (MAX_COORD as int) <= cw <= 2 * (MAX_COORD as int),
                -2 * (MAX_COORD as int) <= ch <= 2 * (MAX_COORD as int),
                index <= n,
                results@.len() == index,
                forall|k: int|
                    0 <= k < index ==> #[trigger] results@[k] == (Rect {
                        x: ((k % cols_g) * (cw + cgap)) as i64,
                        y: ((k / cols_g) * (ch + rgap)) as i64,
                        width: cw as i64,
                        height: ch as i64,
                    }),
            decreases n - index,
        {
            let col = index % columns;
            let row = index / columns;
            proof {
                assert(col as int == (index as int) % cols_g && row as int == (index as int)
                    / cols_g) by (nonlinear_arith)
                    requires
                        cols_g == columns as int,
                        columns >= 1,
                        col == index % columns,
                        row == index / columns,
                ;
                assert(0 <= (col as int) < cols_g && 0 <= (row as int) <= index as int) by (
                nonlinear_arith)
                    requires
                        cols_g >= 1,
                        col as int == (index as int) % cols_g,
                        row as int == (index as int) / cols_g,
                        index >= 0,
                ;
                lemma_grid_position_bound(col as int, cw, cgap as int);
                lemma_grid_position_bound(row as int, ch, rgap as int);
            }
            let x: i64 = (col as i64) * (cell_width + cgap);
            let y: i64 = (row as i64) * (cell_height + rgap);
            let rect = Rect::new(x, y, cell_width, cell_height);
            results.push(rect);
            index = index + 1;
        }
        Ok(results)
    }

    /// The container configuration.
    pub fn container(&self) -> (r: &GridContainer)
        ensures
            *r == self.spec_container(),
    {
        &self.container
    }

    /// The items.
    pub fn items(&self) -> (r: &[GridItem])
        ensures
            r@ == self.spec_items(),
    {
        self.items.as_slice()
    }

    /// Number of items.
    pub fn item_count(&self) -> (r: usize)
        ensures
            r == self.spec_items().len(),
    {
        self.items.len()
    }

    /// Number of columns.
    pub fn column_count(&self) -> (r: usize)
        ensures
            r == self.spec_columns(),
    {
        self.container.template_columns.len()
    }

    /// Number of rows.
    pub fn row_count(&self) -> (r: usize)
        ensures
            r == self.spec_rows(),
    {
        self.container.template_rows.len()
    }

    fn template_columns_len(&self) -> (r: usize)
        ensures
            r == self.spec_columns(),
    {
        self.container.template_columns.len()
    }

    fn template_rows_len(&self) -> (r: usize)
        ensures
            r == self.spec_rows(),
    {
        self.container.template_rows.len()
    }
}

/// With an in-range size, count and gap, the gap-adjusted extent stays within
/// `MAX_COORD * (count + 1)`.
proof fn lemma_gap_total_bound(total: int, count: int, gap: int)
    requires
        -MAX_COORD <= total <= MAX_COORD,
        1 <= count <= MAX_COORD,
        0 <= gap <= MAX_COORD,
    ensures
        (count - 1) * gap <= (MAX_COORD as int) * count - MAX_COORD,
        0 <= (count - 1) * gap,
        -(MAX_COORD as int) * count <= total - (count - 1) * gap <= (MAX_COORD as int) * count,
{
    assert((count - 1) * gap <= (count - 1) * MAX_COORD) by (nonlinear_arith)
        requires
            count >= 1,
            0 <= gap <= MAX_COORD,
    ;
    assert((count - 1) * (MAX_COORD as int) == (MAX_COORD as int) * count - MAX_COORD) by (
    nonlinear_arith);
    assert(0 <= (count - 1) * gap) by (nonlinear_arith)
        requires
            count >= 1,
            gap >= 0,
    ;
    assert((MAX_COORD as int) * count >= MAX_COORD) by (nonlinear_arith)
        requires
            count >= 1,
    ;
    assert(-(MAX_COORD as int) * count <= total - (count - 1) * gap <= (MAX_COORD as int)
        * count) by (nonlinear_arith)
        requires
            -MAX_COORD <= total <= MAX_COORD,
            1 <= count,
            0 <= gap <= MAX_COORD,
    ;
}

/// The cell extent divides an in-range total by the count, so it stays within
/// `MAX_COORD` on either side.
pub proof fn lemma_cell_extent_in_range(total: int, count: int, gap: int)
    requires
        -MAX_COORD <= total <= MAX_COORD,
        1 <= count <= MAX_COORD,
        0 <= gap <= MAX_COORD,
    ensures
        -(MAX_COORD as int) <= grid_cell_extent(total, count, gap) <= MAX_COORD,
{
    lemma_gap_total_bound(total, count, gap);
    let avail = total - (count - 1) * gap;
    if avail >= 0 {
        assert(avail / count <= avail) by (nonlinear_arith)
            requires
                avail >= 0,
                count >= 1,
        ;
        assert(avail / count >= 0) by (nonlinear_arith)
            requires
                avail >= 0,
                count >= 1,
        ;
        assert(avail <= MAX_COORD);
    } else {
        let neg = -avail;
        assert(neg / count <= neg) by (nonlinear_arith)
            requires
                neg >= 0,
                count >= 1,
        ;
        assert(neg / count >= 0) by (nonlinear_arith)
            requires
                neg >= 0,
                count >= 1,
        ;
        // the negative side is bounded by the gap total plus the size
        assert(neg <= (MAX_COORD as int) * count);
        assert(neg / count <= (MAX_COORD as int)) by (nonlinear_arith)
            requires
                neg >= 0,
                count >= 1,
                neg <= (MAX_COORD as int) * count,
        ;
    }
}

/// One grid position, `slot * (extent + gap)`, stays well inside `i64`.
proof fn lemma_grid_position_bound(slot: int, extent: int, gap: int)
    requires
        0 <= slot <= MAX_COORD,
        -2 * (MAX_COORD as int) <= extent <= 2 * (MAX_COORD as int),
        0 <= gap <= MAX_COORD,
    ensures
        -4 * (MAX_COORD as int) * (MAX_COORD as int) <= slot * (extent + gap) <= 4 * (
        MAX_COORD as int) * (MAX_COORD as int),
        i64::MIN <= slot * (extent + gap) <= i64::MAX,
{
    assert(-4 * (MAX_COORD as int) * (MAX_COORD as int) <= slot * (extent + gap) <= 4 * (
    MAX_COORD as int) * (MAX_COORD as int)) by (nonlinear_arith)
        requires
            0 <= slot <= MAX_COORD,
            -2 * (MAX_COORD as int) <= extent + gap <= 3 * (MAX_COORD as int),
    ;
}

} // verus!
