//! Flex flow strategy.
//!
//! Items are placed in order: each takes a rectangle of its explicit basis
//! (100 units wide and 50 tall by default) and the cursor advances along the
//! main axis. Grow and shrink redistribution, wrapping and cross-axis
//! alignment are out of scope of this strategy.

use vstd::prelude::*;

use crate::errors::VeloraResult;
use crate::types::{coord_ok, AlignItems, FlexDirection, JustifyContent, Rect, Size, MAX_COORD};

verus! {

/// Flex container configuration.
#[derive(Debug, Clone, Copy, PartialEq, Eq, Structural)]
pub struct FlexContainer {
    /// Main-axis direction.
    pub direction: FlexDirection,
    /// Main-axis alignment.
    pub justify_content: JustifyContent,
    /// Cross-axis alignment.
    pub align_items: AlignItems,
    /// Whether items wrap to new lines.
    pub wrap: bool,
}

impl FlexContainer {
    /// The default container: a non-wrapping row, packed at the start and
    /// stretched across.
    pub fn new() -> (r: FlexContainer)
        ensures
            r == (FlexContainer {
                direction: FlexDirection::Row,
                justify_content: JustifyContent::FlexStart,
                align_items: AlignItems::Stretch,
                wrap: false,
            }),
    {
        FlexContainer {
            direction: FlexDirection::Row,
            justify_content: JustifyContent::FlexStart,
            align_items: AlignItems::Stretch,
            wrap: false,
        }
    }
}

impl Default for FlexContainer {
    /// The default container, as `new`.
    fn default() -> (r: FlexContainer)
        ensures
            r == (FlexContainer {
                direction: FlexDirection::Row,
                justify_content: JustifyContent::FlexStart,
                align_items: AlignItems::Stretch,
                wrap: false,
            }),
    {
        FlexContainer::new()
    }
}

/// Flex item configuration.
#[derive(Debug, Clone, Copy, PartialEq, Eq, Structural)]
pub struct FlexItem {
    /// Grow factor (not applied by this strategy).
    pub flex_grow: i64,
    /// Shrink factor (not applied by this strategy).
    pub flex_shrink: i64,
    /// Main-axis basis; 100 units when absent.
    pub flex_basis: Option<i64>,
    /// Per-item cross-axis alignment.
    pub align_self: AlignItems,
}

impl FlexItem {
    /// The default item: no grow, unit shrink, automatic basis, stretched.
    pub fn new() -> (r: FlexItem)
        ensures
            r == (FlexItem {
                flex_grow: 0,
                flex_shrink: 1,
                flex_basis: None,
                align_self: AlignItems::Stretch,
            }),
    {
        FlexItem { flex_grow: 0, flex_shrink: 1, flex_basis: None, align_self: AlignItems::Stretch }
    }
}

impl Default for FlexItem {
    /// The default item, as `new`.
    fn default() -> (r: FlexItem)
        ensures
            r == (FlexItem {
                flex_grow: 0,
                flex_shrink: 1,
                flex_basis: None,
                align_self: AlignItems::Stretch,
            }),
    {
        FlexItem::new()
    }
}

/// Fallback main-axis basis of an item without an explicit one.
pub const DEFAULT_FLEX_BASIS: i64 = 100;

/// Fixed cross-axis height of a placed item.
pub const DEFAULT_FLEX_HEIGHT: i64 = 50;

/// The size an item occupies: its basis (or the default) wide, the default
/// height tall.
pub open spec fn flex_item_size(item: FlexItem) -> Size {
    Size {
        width: match item.flex_basis {
            Some(b) => b,
            None => DEFAULT_FLEX_BASIS,
        },
        height: DEFAULT_FLEX_HEIGHT,
    }
}

/// Whether the main axis of `d` is horizontal.
pub open spec fn is_row_axis(d: FlexDirection) -> bool {
    d == FlexDirection::Row || d == FlexDirection::RowReverse
}

/// Main-axis offset of item `k`: the sum of the main-axis extents of the
/// items before it.
pub open spec fn flex_offset(items: Seq<FlexItem>, d: FlexDirection, k: int) -> int
    decreases k,
{
    if k <= 0 {
        0
    } else {
        flex_offset(items, d, k - 1) + (if is_row_axis(d) {
            flex_item_size(items[k - 1]).width
        } else {
            flex_item_size(items[k - 1]).height
        })
    }
}

/// Whether `r` is the rectangle assigned to item `k`: the item's size, at
/// the accumulated main-axis offset.
pub open spec fn is_flex_rect(items: Seq<FlexItem>, d: FlexDirection, k: int, r: Rect) -> bool {
    &&& r.x == (if is_row_axis(d) {
        flex_offset(items, d, k)
    } else {
        0
    })
    &&& r.y == (if is_row_axis(d) {
        0
    } else {
        flex_offset(items, d, k)
    })
    &&& r.width == flex_item_size(items[k]).width
    &&& r.height == flex_item_size(items[k]).height
}

/// Whether every item's basis lies within the accepted coordinate range.
pub open spec fn flex_items_ok(items: Seq<FlexItem>) -> bool {
    items.len() <= MAX_COORD && forall|i: int|
        0 <= i < items.len() ==> coord_ok(flex_item_size(#[trigger] items[i]).width)
}

proof fn lemma_flex_offset_bound(items: Seq<FlexItem>, d: FlexDirection, k: int)
    requires
        flex_items_ok(items),
        0 <= k <= items.len(),
    ensures
        -(MAX_COORD as int) * k <= flex_offset(items, d, k) <= (MAX_COORD as int) * k,
    decreases k,
{
    if k > 0 {
        lemma_flex_offset_bound(items, d, k - 1);
        assert(coord_ok(flex_item_size(items[k - 1]).width));
        assert((MAX_COORD as int) * k == (MAX_COORD as int) * (k - 1) + MAX_COORD) by (
        nonlinear_arith);
        assert(-(MAX_COORD as int) * k == -(MAX_COORD as int) * (k - 1) - MAX_COORD) by (
        nonlinear_arith);
        if !is_row_axis(d) {
            assert(flex_item_size(items[k - 1]).height == DEFAULT_FLEX_HEIGHT);
        }
    }
}

/// Flex layout calculator: a container configuration and an ordered item
/// list.
pub struct FlexboxLayout {
    container: FlexContainer,
    items: Vec<FlexItem>,
}

impl FlexboxLayout {
    /// The container configuration.
    pub closed spec fn spec_container(self) -> FlexContainer {
        self.container
    }

    /// The item list.
    pub closed spec fn spec_items(self) -> Seq<FlexItem> {
        self.items@
    }

    /// Creates a calculator with no items.
    pub fn new(container: FlexContainer) -> (r: FlexboxLayout)
        ensures
            r.spec_container() == container,
            r.spec_items().len() == 0,
    {
        FlexboxLayout { container, items: Vec::new() }
    }

    /// Appends an item.
    pub fn add_item(&mut self, item: FlexItem)
        ensures
            final(self).spec_container() == old(self).spec_container(),
            final(self).spec_items() == old(self).spec_items().push(item),
    {
        self.items.push(item);
    }

    /// Places the items in order along the main axis. Never fails; an empty
    /// item list yields an empty rectangle list. The container size is not
    /// consulted by this strategy.
    pub fn calculate_layout(&self, container_size: Size) -> (r: VeloraResult<Vec<Rect>>)
        requires
            flex_items_ok(self.spec_items()),
        ensures
            r is Ok,
            r->Ok_0@.len() == self.spec_items().len(),
            forall|k: int|
                0 <= k < self.spec_items().len() ==> is_flex_rect(
                    self.spec_items(),
                    self.spec_container().direction,
                    k,
                    r->Ok_0@[k],
                ),
    {
        let ghost items = self.items@;
        let ghost d = self.container.direction;
        let mut results: Vec<Rect> = Vec::new();
        let n = self.items.len();
        let mut cursor: i64 = 0;
        let mut i: usize = 0;
        while i < n
            invariant
                n == items.len(),
                items == self.items@,
                d == self.container.direction,
                flex_items_ok(items),
                i <= n,
                cursor == flex_offset(items, d, i as int),
                results@.len() == i,
                forall|k: int| 0 <= k < i ==> is_flex_rect(items, d, k, #[trigger] results@[k]),
            decreases n - i,
        {
            proof {
                lemma_flex_offset_bound(items, d, i as int);
                assert(coord_ok(flex_item_size(items[i as int]).width));
            }
            let item = self.items[i];
            let item_width: i64 = match item.flex_basis {
                Some(b) => b,
                None => DEFAULT_FLEX_BASIS,
            };
            let item_height: i64 = DEFAULT_FLEX_HEIGHT;
            let rect = match self.container.direction {
                FlexDirection::Row | FlexDirection::RowReverse => {
                    Rect::new(cursor, 0, item_width, item_height)
                },
                FlexDirection::Column | FlexDirection::ColumnReverse => {
                    Rect::new(0, cursor, item_width, item_height)
                },
            };
            results.push(rect);
            match self.container.direction {
                FlexDirection::Row | FlexDirection::RowReverse => {
                    cursor = cursor + item_width;
                },
                FlexDirection::Column | FlexDirection::ColumnReverse => {
                    cursor = cursor + item_height;
                },
            }
            i = i + 1;
        }
        Ok(results)
    }

    /// The container configuration.
    pub fn container(&self) -> (r: &FlexContainer)
        ensures
            *r == self.spec_container(),
    {
        &self.container
    }

    /// The items.
    pub fn items(&self) -> (r: &[FlexItem])
        ensures
            r@ == self.spec_items(),
    {
        self.items.as_slice()
    }

    /// Number of items.
    pub fn item_count(&self) -> (r: usize)
        ensures
            r == self.spec_items().len(),
    {
        self.items.len()
    }
}

} // verus!
