use velora::box_model::{BoxModel, BoxSizing};
use velora::errors::{LayoutError, VeloraError};
use velora::flexbox::{FlexContainer, FlexItem, FlexboxLayout};
use velora::grid::{GridContainer, GridItem, GridLayout};
use velora::layout_tree::{LayoutNode, LayoutTree};
use velora::types::{AlignItems, FlexDirection, JustifyContent, NodeId, Rect, Size};

#[test]
fn test_box_model_creation() {
    let content = Rect::new(10, 20, 100, 50);
    let box_model = BoxModel::new(content);
    assert_eq!(box_model.content, content);
    assert_eq!(box_model.padding, Rect::zero());
    assert_eq!(box_model.border, Rect::zero());
    assert_eq!(box_model.margin, Rect::zero());
}

#[test]
fn test_total_size_calculation() {
    let content = Rect::new(0, 0, 100, 50);
    let mut box_model = BoxModel::new(content);
    box_model.set_padding(Rect::new(0, 0, 20, 10));
    box_model.set_border(Rect::new(0, 0, 5, 5));
    box_model.set_margin(Rect::new(0, 0, 15, 8));
    let total_size = box_model.total_size();
    assert_eq!(total_size.width, 140);
    assert_eq!(total_size.height, 73);
}

#[test]
fn test_padding_box() {
    let content = Rect::new(10, 20, 100, 50);
    let mut box_model = BoxModel::new(content);
    box_model.set_padding(Rect::new(0, 0, 20, 10));
    let padding_box = box_model.padding_box();
    assert_eq!(padding_box.x, 10);
    assert_eq!(padding_box.y, 20);
    assert_eq!(padding_box.width, 120);
    assert_eq!(padding_box.height, 60);
}

#[test]
fn test_border_box() {
    let content = Rect::new(10, 20, 100, 50);
    let mut box_model = BoxModel::new(content);
    box_model.set_padding(Rect::new(0, 0, 20, 10));
    box_model.set_border(Rect::new(0, 0, 5, 5));
    let border_box = box_model.border_box();
    assert_eq!(border_box.x, 10);
    assert_eq!(border_box.y, 20);
    assert_eq!(border_box.width, 125);
    assert_eq!(border_box.height, 65);
}

#[test]
fn test_margin_box() {
    let content = Rect::new(10, 20, 100, 50);
    let mut box_model = BoxModel::new(content);
    box_model.set_padding(Rect::new(0, 0, 20, 10));
    box_model.set_border(Rect::new(0, 0, 5, 5));
    box_model.set_margin(Rect::new(0, 0, 15, 8));
    let margin_box = box_model.margin_box();
    assert_eq!(margin_box.x, 10);
    assert_eq!(margin_box.y, 20);
    assert_eq!(margin_box.width, 140);
    assert_eq!(margin_box.height, 73);
}

#[test]
fn test_calculate_with_sizing_content_box() {
    let content = Rect::new(0, 0, 100, 50);
    let mut box_model = BoxModel::new(content);
    box_model.set_padding(Rect::new(0, 0, 20, 10));
    box_model.set_border(Rect::new(0, 0, 5, 5));
    box_model.set_margin(Rect::new(0, 0, 15, 8));
    let available_size = Size::new(200, 100);
    let result = box_model.calculate_with_sizing(BoxSizing::ContentBox, available_size);
    assert!(result.is_ok());
    let content_size = result.unwrap();
    assert_eq!(content_size.width, 160);
    assert_eq!(content_size.height, 77);
}

#[test]
fn test_calculate_with_sizing_border_box() {
    let content = Rect::new(0, 0, 100, 50);
    let mut box_model = BoxModel::new(content);
    box_model.set_margin(Rect::new(0, 0, 15, 8));
    let available_size = Size::new(200, 100);
    let result = box_model.calculate_with_sizing(BoxSizing::BorderBox, available_size);
    assert!(result.is_ok());
    let content_size = result.unwrap();
    assert_eq!(content_size.width, 185);
    assert_eq!(content_size.height, 92);
}

#[test]
fn test_calculate_with_sizing_invalid_constraints() {
    let content = Rect::new(0, 0, 100, 50);
    let mut box_model = BoxModel::new(content);
    box_model.set_padding(Rect::new(0, 0, 200, 100));
    let available_size = Size::new(100, 50);
    let result = box_model.calculate_with_sizing(BoxSizing::ContentBox, available_size);
    assert!(result.is_err());
    assert!(matches!(
        result,
        Err(VeloraError::Layout(LayoutError::InvalidConstraints(_)))
    ));
}

#[test]
fn test_flex_container_creation() {
    let container = FlexContainer::new();
    assert_eq!(container.direction, FlexDirection::Row);
    assert_eq!(container.justify_content, JustifyContent::FlexStart);
    assert_eq!(container.align_items, AlignItems::Stretch);
    assert!(!container.wrap);
}

#[test]
fn test_flex_item_creation() {
    let item = FlexItem::new();
    assert_eq!(item.flex_grow, 0);
    assert_eq!(item.flex_shrink, 1);
    assert_eq!(item.flex_basis, None);
    assert_eq!(item.align_self, AlignItems::Stretch);
}

#[test]
fn test_flexbox_layout_creation() {
    let container = FlexContainer::new();
    let layout = FlexboxLayout::new(container);
    assert_eq!(layout.item_count(), 0);
    assert_eq!(layout.container().direction, FlexDirection::Row);
}

#[test]
fn test_flexbox_layout_add_item() {
    let container = FlexContainer::new();
    let mut layout = FlexboxLayout::new(container);
    let item = FlexItem::new();
    layout.add_item(item);
    assert_eq!(layout.item_count(), 1);
}

#[test]
fn test_flexbox_layout_calculation() {
    let container = FlexContainer::new();
    let mut layout = FlexboxLayout::new(container);
    let item = FlexItem::new();
    layout.add_item(item);
    let container_size = Size::new(200, 100);
    let result = layout.calculate_layout(container_size);
    assert!(result.is_ok());
    let rects = result.unwrap();
    assert_eq!(rects.len(), 1);
    let first_rect = &rects[0];
    assert_eq!(first_rect.x, 0);
    assert_eq!(first_rect.y, 0);
}

#[test]
fn test_flexbox_layout_empty() {
    let container = FlexContainer::new();
    let layout = FlexboxLayout::new(container);
    let container_size = Size::new(200, 100);
    let result = layout.calculate_layout(container_size);
    assert!(result.is_ok());
    let rects = result.unwrap();
    assert_eq!(rects.len(), 0);
}

#[test]
fn flex_row_advances_along_main_axis() {
    let mut layout = FlexboxLayout::new(FlexContainer::new());
    let mut wide = FlexItem::new();
    wide.flex_basis = Some(30);
    layout.add_item(wide);
    layout.add_item(FlexItem::new());
    layout.add_item(FlexItem::new());
    let rects = layout.calculate_layout(Size::new(500, 100)).unwrap();
    assert_eq!(rects.len(), 3);
    assert_eq!(rects[0], Rect::new(0, 0, 30, 50));
    assert_eq!(rects[1], Rect::new(30, 0, 100, 50));
    assert_eq!(rects[2], Rect::new(130, 0, 100, 50));
}

#[test]
fn flex_column_advances_down() {
    let mut container = FlexContainer::new();
    container.direction = FlexDirection::Column;
    let mut layout = FlexboxLayout::new(container);
    layout.add_item(FlexItem::new());
    layout.add_item(FlexItem::new());
    let rects = layout.calculate_layout(Size::new(500, 400)).unwrap();
    assert_eq!(rects[0], Rect::new(0, 0, 100, 50));
    assert_eq!(rects[1], Rect::new(0, 50, 100, 50));
}

#[test]
fn test_grid_container_creation() {
    let container = GridContainer::new();
    assert_eq!(container.template_columns.len(), 1);
    assert_eq!(container.template_rows.len(), 1);
    assert_eq!(container.column_gap, 0);
    assert_eq!(container.row_gap, 0);
}

#[test]
fn test_grid_item_creation() {
    let item = GridItem::new();
    assert_eq!(item.column_start, None);
    assert_eq!(item.column_end, None);
    assert_eq!(item.row_start, None);
    assert_eq!(item.row_end, None);
}

#[test]
fn test_grid_layout_creation() {
    let container = GridContainer::new();
    let layout = GridLayout::new(container);
    assert_eq!(layout.item_count(), 0);
    assert_eq!(layout.column_count(), 1);
    assert_eq!(layout.row_count(), 1);
}

#[test]
fn test_grid_layout_add_item() {
    let container = GridContainer::new();
    let mut layout = GridLayout::new(container);
    let item = GridItem::new();
    layout.add_item(item);
    assert_eq!(layout.item_count(), 1);
}

#[test]
fn test_grid_layout_calculation() {
    let container = GridContainer::new();
    let mut layout = GridLayout::new(container);
    let item = GridItem::new();
    layout.add_item(item);
    let container_size = Size::new(200, 100);
    let result = layout.calculate_layout(container_size);
    assert!(result.is_ok());
    let rects = result.unwrap();
    assert_eq!(rects.len(), 1);
    let first_rect = &rects[0];
    assert_eq!(first_rect.x, 0);
    assert_eq!(first_rect.y, 0);
}

#[test]
fn test_grid_layout_empty() {
    let container = GridContainer::new();
    let layout = GridLayout::new(container);
    let container_size = Size::new(200, 100);
    let result = layout.calculate_layout(container_size);
    assert!(result.is_ok());
    let rects = result.unwrap();
    assert_eq!(rects.len(), 0);
}

#[test]
fn grid_partitions_into_equal_cells() {
    let mut container = GridContainer::new();
    container.template_columns = vec!["1fr".to_string(), "1fr".to_string()];
    container.template_rows = vec!["1fr".to_string()];
    let mut layout = GridLayout::new(container);
    layout.add_item(GridItem::new());
    layout.add_item(GridItem::new());
    let rects = layout.calculate_layout(Size::new(200, 100)).unwrap();
    assert_eq!(rects.len(), 2);
    assert_eq!(rects[0], Rect::new(0, 0, 100, 100));
    assert_eq!(rects[1], Rect::new(100, 0, 100, 100));
}

#[test]
fn grid_with_items_needs_a_template() {
    let mut container = GridContainer::new();
    container.template_columns = Vec::new();
    let mut layout = GridLayout::new(container);
    layout.add_item(GridItem::new());
    let result = layout.calculate_layout(Size::new(200, 100));
    assert!(matches!(
        result,
        Err(VeloraError::Layout(LayoutError::InvalidConstraints(_)))
    ));
}

fn plain_layout_node(id: u64) -> LayoutNode {
    LayoutNode {
        node_id: NodeId(id),
        box_model: BoxModel::new(Rect::new(0, 0, 100, 50)),
        flexbox: None,
        grid: None,
        parent_id: None,
        child_ids: Vec::new(),
    }
}

#[test]
fn test_layout_tree_creation() {
    let tree = LayoutTree::new();
    assert!(tree.is_empty());
    assert_eq!(tree.node_count(), 0);
    assert_eq!(tree.get_root(), None);
}

#[test]
fn test_add_layout_node() {
    let mut tree = LayoutTree::new();
    let node = plain_layout_node(1);
    let result = tree.add_node(node);
    assert!(result.is_ok());
    assert_eq!(tree.node_count(), 1);
    assert!(!tree.is_empty());
    assert_eq!(tree.get_root(), Some(NodeId(1)));
}

#[test]
fn test_add_duplicate_node() {
    let mut tree = LayoutTree::new();
    tree.add_node(plain_layout_node(1)).unwrap();
    let result = tree.add_node(plain_layout_node(1));
    assert!(result.is_err());
    assert_eq!(tree.node_count(), 1);
}

#[test]
fn test_get_layout_node() {
    let mut tree = LayoutTree::new();
    tree.add_node(plain_layout_node(1)).unwrap();
    let retrieved = tree.get_node(NodeId(1));
    assert!(retrieved.is_some());
    assert_eq!(
        retrieved.unwrap().box_model.content,
        Rect::new(0, 0, 100, 50)
    );
}

#[test]
fn test_remove_layout_node() {
    let mut tree = LayoutTree::new();
    tree.add_node(plain_layout_node(1)).unwrap();
    assert_eq!(tree.node_count(), 1);
    assert!(tree.remove_node(NodeId(1)));
    assert_eq!(tree.node_count(), 0);
    assert!(tree.is_empty());
}

#[test]
fn test_calculate_layout() {
    let mut tree = LayoutTree::new();
    tree.add_node(plain_layout_node(1)).unwrap();
    let container_size = Size::new(200, 100);
    let result = tree.calculate_layout(container_size);
    assert!(result.is_ok());
    let layouts = result.unwrap();
    assert_eq!(layouts.len(), 1);
    assert!(layouts.contains_key(NodeId(1)));
}

#[test]
fn layout_passes_resolved_size_to_children() {
    let mut tree = LayoutTree::new();
    let mut root = plain_layout_node(1);
    root.box_model.set_margin(Rect::new(0, 0, 20, 10));
    root.child_ids = vec![NodeId(2)];
    tree.add_node(root).unwrap();
    let mut child = plain_layout_node(2);
    child.parent_id = Some(NodeId(1));
    tree.add_node(child).unwrap();

    let layouts = tree.calculate_layout(Size::new(200, 100)).unwrap();
    // the root resolves to the available size less its margin
    assert_eq!(*layouts.get(NodeId(1)).unwrap(), Rect::new(0, 0, 180, 90));
    // the child is offered the root's resolved size
    assert_eq!(*layouts.get(NodeId(2)).unwrap(), Rect::new(0, 0, 180, 90));
}

#[test]
fn layout_strategy_priority_is_flex_then_grid() {
    let mut tree = LayoutTree::new();
    let mut node = plain_layout_node(1);
    let mut flex = FlexboxLayout::new(FlexContainer::new());
    flex.add_item(FlexItem::new());
    node.flexbox = Some(flex);
    let mut grid_container = GridContainer::new();
    grid_container.template_columns = vec!["1fr".to_string(), "1fr".to_string()];
    let mut grid = GridLayout::new(grid_container);
    grid.add_item(GridItem::new());
    node.grid = Some(grid);
    tree.add_node(node).unwrap();
    let layouts = tree.calculate_layout(Size::new(400, 200)).unwrap();
    // the flex strategy wins: the node takes the first flex rectangle
    assert_eq!(*layouts.get(NodeId(1)).unwrap(), Rect::new(0, 0, 100, 50));
}

#[test]
fn empty_layout_tree_resolves_to_nothing() {
    let tree = LayoutTree::new();
    let layouts = tree.calculate_layout(Size::new(200, 100)).unwrap();
    assert_eq!(layouts.len(), 0);
}
