use conclave::layout::boxes::{build_box, Defaults, LayoutBox, Style, StyledNode};
use conclave::layout::flex::{
    axis_plan, column_basis, flex_row_auto_margin_slots, freeze, in_flow_indices, packing,
    AxisSize, ColumnBasis, CrossAnchor, OffsetFrom, Packing,
};
use conclave::layout::flow::{
    flow_steps, inline_container_children_all_inline, line_shift, FlowStep, LineAnchor,
    LineBuilder, LineShift,
};
use conclave::layout::modes::{AutoSides, ContentWidth, LayoutMode, SizeSource};
use conclave::layout::table::{cols_in_row, row_cells, table_rows, table_slots, CellSpan};
use conclave::layout::tracks::ColumnTemplate;
use conclave::layout::tree::{
    box_cacheable, find_box_by_node_id, path_to_node, subtree_has_floats,
};
use conclave::layout::{
    AlignItems, BlendMode, BorderStyle, BoxKind, ClearMode, Color, Display, EdgeAuto,
    FlexDirection, FlexWrap, FloatSide, GridTrack, JustifyContent, LengthSpec, Overflow, Position,
    StyledKind, TextAlign, VerticalAlign,
};

const BLACK: Color = Color { r: 0, g: 0, b: 0, a: 255 };

fn defaults() -> Defaults<i32> {
    Defaults { zero: 0, one: 1, text_color: BLACK, font_size_px: 16 }
}

fn element(tag: &str, style: Style<i32>, children: Vec<StyledNode<i32>>) -> StyledNode<i32> {
    StyledNode { kind: StyledKind::Element { tag: tag.to_string() }, style, children }
}

fn text(s: &str) -> StyledNode<i32> {
    StyledNode {
        kind: StyledKind::Text(s.to_string()),
        style: Style::default(),
        children: vec![],
    }
}

fn shown(display: Display) -> Style<i32> {
    Style { display: Some(display), ..Style::default() }
}

fn boxed(node: StyledNode<i32>) -> LayoutBox<i32> {
    build_box(node, &defaults())
}

fn find_scroller(b: &LayoutBox<i32>) -> Option<&LayoutBox<i32>> {
    if b.is_scroll_container() {
        return Some(b);
    }
    b.children.iter().find_map(find_scroller)
}

#[test]
fn visible_overflow_is_not_a_scroll_container() {
    let plain = element(
        "div",
        Style {
            display: Some(Display::Block),
            width: Some(LengthSpec::Px(100)),
            height: Some(LengthSpec::Px(50)),
            ..Style::default()
        },
        vec![text("hi")],
    );
    let root = boxed(plain);
    assert!(find_scroller(&root).is_none(), "a plain overflow:visible box never scrolls");
}

#[test]
fn overflowing_axes_scroll() {
    for overflow in [Overflow::Auto, Overflow::Scroll] {
        let b = boxed(element("div", Style { overflow_y: overflow, ..Style::default() }, vec![]));
        assert!(b.is_scroll_container());
        assert!(overflow.clips() && overflow.is_scrollable());
    }
    assert!(Overflow::Clip.clips() && !Overflow::Clip.is_scrollable());
}

#[test]
fn hidden_nodes_make_no_box() {
    let root = boxed(element(
        "div",
        shown(Display::Block),
        vec![
            element("p", shown(Display::Block), vec![]),
            element("p", shown(Display::NotShown), vec![text("gone")]),
            element("p", shown(Display::Block), vec![]),
        ],
    ));
    assert_eq!(root.children.len(), 2);
}

#[test]
fn boxes_take_values_from_their_style() {
    let style = Style {
        display: Some(Display::Flex),
        gap_px: Some(7),
        row_gap_px: Some(3),
        font_size_px: Some(20),
        border_width_px: Some(2),
        border_widths_per_side: [None, Some(5), None, None],
        border_styles_per_side: [None, None, Some(BorderStyle::Dashed), None],
        border_color: Some(Color { r: 1, g: 2, b: 3, a: 4 }),
        ..Style::default()
    };
    let b = boxed(element("div", style, vec![]));
    assert!(b.is_flex && !b.is_grid && !b.is_inline);
    assert_eq!((b.column_gap_px, b.row_gap_px), (7, 3));
    assert_eq!(b.font_size_px, 20);
    assert_eq!(b.text_color, BLACK);
    assert_eq!(b.border_width_for(0, 0), 2);
    assert_eq!(b.border_width_for(1, 0), 5);
    assert_eq!(b.border_style_for(2), BorderStyle::Dashed);
    assert_eq!(b.border_style_for(3), BorderStyle::Solid);
    assert_eq!(b.border_color_for(1), Some(Color { r: 1, g: 2, b: 3, a: 4 }));
    let plain = boxed(text("hello"));
    assert_eq!(plain.font_size_px, 0);
    assert_eq!(boxed(element("p", Style::default(), vec![])).font_size_px, 16);
    assert!(matches!(plain.kind, BoxKind::Text(ref s) if s == "hello"));
}

#[test]
fn links_reach_the_boxes_inside() {
    let link = Style { link_href: Some("/a".to_string()), ..Style::default() };
    let root = boxed(element(
        "div",
        Style::default(),
        vec![element("a", link, vec![element("b", Style::default(), vec![text("x")])]), text("y")],
    ));
    assert_eq!(root.link_href, None);
    assert_eq!(root.children[0].children[0].children[0].link_href.as_deref(), Some("/a"));
    assert_eq!(root.children[1].link_href, None);
}

#[test]
fn boxes_are_found_by_identity() {
    let id = |n: u64| Style { node_id: Some(n), ..Style::<i32>::default() };
    let root = boxed(element(
        "div",
        id(1),
        vec![element("p", id(2), vec![]), element("p", id(3), vec![element("b", id(4), vec![])])],
    ));
    assert_eq!(path_to_node(&root, 4), Some(vec![1, 0]));
    assert_eq!(path_to_node(&root, 1), Some(vec![]));
    assert_eq!(path_to_node(&root, 9), None);
    assert_eq!(find_box_by_node_id(&root, 3).map(|b| b.children.len()), Some(1));
    assert!(find_box_by_node_id(&root, 9).is_none());
}

#[test]
fn floats_are_found_anywhere() {
    let float = Style { float_side: FloatSide::Right, ..Style::default() };
    let with = boxed(element(
        "div",
        Style::default(),
        vec![element("p", Style::default(), vec![element("img", float, vec![])])],
    ));
    assert!(subtree_has_floats(&with));
    assert!(!subtree_has_floats(&boxed(text("x"))));
}

#[test]
fn boxes_without_identity_are_not_cached() {
    assert!(!box_cacheable(&boxed(element("div", shown(Display::Block), vec![]))));
    let id = Style { display: Some(Display::Block), node_id: Some(1), ..Style::default() };
    assert!(box_cacheable(&boxed(element("div", id, vec![]))));
}

#[test]
fn children_flow_in_lines_and_blocks() {
    let root = boxed(element(
        "div",
        shown(Display::Block),
        vec![
            element("b", shown(Display::Inline), vec![]),
            element("i", shown(Display::InlineBlock), vec![]),
            element("p", shown(Display::Block), vec![]),
            element(
                "aside",
                Style { float_side: FloatSide::Left, ..shown(Display::Block) },
                vec![],
            ),
            element("b", shown(Display::Inline), vec![]),
        ],
    ));
    assert_eq!(
        flow_steps(&root.children),
        vec![
            FlowStep::Lines { start: 0, end: 2 },
            FlowStep::Block(2),
            FlowStep::Float(3),
            FlowStep::Lines { start: 4, end: 5 },
        ]
    );
    assert!(!inline_container_children_all_inline(&root));
}

#[test]
fn lines_break_before_items_that_are_too_long() {
    let mut lines = LineBuilder::new();
    assert!(lines.at_line_start());
    assert!(!lines.push(0, true));
    assert!(!lines.push(1, false));
    assert!(lines.push(2, true));
    assert_eq!(lines.finish(), vec![vec![0, 1], vec![2]]);
}

#[test]
fn lines_are_aligned() {
    assert_eq!(line_shift(None, 3, false), LineShift::Start);
    assert_eq!(line_shift(Some(TextAlign::Center), 3, false), LineShift::Middle);
    assert_eq!(line_shift(Some(TextAlign::Right), 3, false), LineShift::End);
    assert_eq!(line_shift(Some(TextAlign::Justify), 3, false), LineShift::Gaps(2));
    assert_eq!(line_shift(Some(TextAlign::Justify), 3, true), LineShift::Start);
    assert_eq!(VerticalAlign::Middle.line_anchor(), LineAnchor::Middle);
    assert_eq!(VerticalAlign::Super.line_anchor(), LineAnchor::Baseline);
}

#[test]
fn floats_are_cleared_by_side() {
    assert!(ClearMode::Both.applies_to(FloatSide::Left));
    assert!(ClearMode::Left.applies_to(FloatSide::Left));
    assert!(!ClearMode::Left.applies_to(FloatSide::Right));
    assert!(!ClearMode::NoClear.applies_to(FloatSide::Left));
}

#[test]
fn spans_push_cells_aside() {
    let cell = |child: usize, cols: usize, rows: usize| CellSpan { child, cols, rows };
    let rows = vec![vec![cell(0, 1, 2), cell(1, 1, 1)], vec![cell(0, 1, 1)]];
    let slots = table_slots(&rows, 2);
    assert_eq!(slots[0][1].col, 1);
    assert_eq!(slots[1][0].col, 1);
    assert_eq!(cols_in_row(&[cell(0, 2, 1), cell(1, 1, 1)]), Some(3));
    assert_eq!(cols_in_row(&[cell(0, usize::MAX, 1), cell(1, 1, 1)]), None);
}

#[test]
fn rows_are_collected_from_groups() {
    let row = |n: usize| {
        let cells = (0..n).map(|_| element("td", shown(Display::TableCell), vec![])).collect();
        element("tr", shown(Display::TableRow), cells)
    };
    let table = boxed(element(
        "table",
        shown(Display::Table),
        vec![element("tbody", shown(Display::TableRowGroup), vec![row(2), row(1)]), row(3)],
    ));
    assert_eq!(table_rows(&table), vec![(0, Some(0)), (0, Some(1)), (1, None)]);
    assert_eq!(row_cells(&table.children[1]).len(), 3);
    assert_eq!(row_cells(&table.children[1])[2], CellSpan { child: 2, cols: 1, rows: 1 });
}

#[test]
fn flex_directions() {
    assert!(FlexDirection::RowReverse.is_row() && FlexDirection::RowReverse.is_reversed());
    assert!(!FlexDirection::Column.is_row() && !FlexDirection::Column.is_reversed());
    assert!(FlexWrap::Wrap.wraps() && !FlexWrap::NoWrap.wraps());
}

#[test]
fn leftover_space_is_packed() {
    assert_eq!(packing(JustifyContent::Start, false, 3), Packing::Start);
    assert_eq!(packing(JustifyContent::End, false, 3), Packing::End);
    assert_eq!(packing(JustifyContent::Center, false, 3), Packing::Center);
    assert_eq!(packing(JustifyContent::SpaceBetween, false, 3), Packing::Between(2));
    assert_eq!(packing(JustifyContent::SpaceAround, false, 3), Packing::Around(3));
    assert_eq!(packing(JustifyContent::SpaceEvenly, false, 3), Packing::Evenly(4));
    assert_eq!(packing(JustifyContent::Center, true, 3), Packing::Start);
}

#[test]
fn automatic_margins_are_counted() {
    let both = EdgeAuto { left: true, right: true, ..EdgeAuto::default() };
    let left = EdgeAuto { left: true, ..EdgeAuto::default() };
    let item = |margin_auto: EdgeAuto| {
        element("div", Style { margin_auto, ..shown(Display::Block) }, vec![])
    };
    let root = boxed(element(
        "div",
        shown(Display::Flex),
        vec![item(both), item(left), item(EdgeAuto::default())],
    ));
    let items = in_flow_indices(&root.children);
    assert_eq!(items, vec![0, 1, 2]);
    assert_eq!(flex_row_auto_margin_slots(&root.children, &items), 3);
    assert_eq!(left.leading_and_trailing(false), (true, false));
    assert_eq!(left.leading_and_trailing(true), (false, true));
}

#[test]
fn items_out_of_flow_are_no_flex_items() {
    let fixed = Style { position: Some(Position::Fixed), ..shown(Display::Block) };
    let root = boxed(element(
        "div",
        shown(Display::Flex),
        vec![element("a", fixed, vec![]), element("b", shown(Display::Block), vec![])],
    ));
    assert_eq!(in_flow_indices(&root.children), vec![1]);
    assert!(Position::Relative.is_in_flow() && Position::Relative.is_shifted());
    assert!(!Position::Absolute.is_in_flow());
    assert!(!Position::Static.establishes_abs_containing_block());
    assert!(Position::Sticky.establishes_abs_containing_block());
}

#[test]
fn items_align_across() {
    assert_eq!(AlignItems::Start.for_item(Some(AlignItems::End)), AlignItems::End);
    assert_eq!(AlignItems::Start.for_item(None), AlignItems::Start);
    assert_eq!(AlignItems::End.cross_anchor(), CrossAnchor::End);
    assert_eq!(AlignItems::Center.cross_anchor(), CrossAnchor::Center);
    assert!(AlignItems::Stretch.stretches(false));
    assert!(!AlignItems::Stretch.stretches(true));
}

#[test]
fn base_sizes_of_columns() {
    assert_eq!(column_basis(false, None, true), ColumnBasis::Content);
    assert_eq!(column_basis(false, Some(true), true), ColumnBasis::Container);
}

#[test]
fn items_freeze_once() {
    let mut frozen = vec![false, false, true];
    assert!(freeze(&mut frozen, &[1]));
    assert_eq!(frozen, vec![false, true, true]);
    assert!(!freeze(&mut frozen, &[]));
}

#[test]
fn offsets_place_a_box_along_an_axis() {
    let plan = axis_plan(true, true, false);
    assert_eq!((plan.from, plan.size, plan.far_edge), (OffsetFrom::Start, AxisSize::Between, false));
    let plan = axis_plan(false, true, true);
    assert_eq!((plan.from, plan.size, plan.far_edge), (OffsetFrom::End, AxisSize::Given, true));
    let plan = axis_plan(false, false, false);
    assert_eq!((plan.from, plan.size), (OffsetFrom::Neither, AxisSize::Content));
}

#[test]
fn blend_modes_have_names() {
    assert_eq!(BlendMode::from_str(" Color-Dodge "), BlendMode::ColorDodge);
    assert_eq!(BlendMode::from_str("unknown"), BlendMode::Normal);
    assert!(BlendMode::Normal.is_normal() && !BlendMode::Hue.is_normal());
}

#[test]
fn current_colors_are_marked() {
    assert!(Color::current().is_current_color());
    assert!(!BLACK.is_current_color());
    assert!(BorderStyle::Hidden.is_none() && !BorderStyle::Solid.is_none());
}

#[test]
fn styles_choose_how_boxes_are_laid_out() {
    let mode = |display: Display| boxed(element("x", shown(display), vec![])).layout_mode();
    assert_eq!(mode(Display::Flex), LayoutMode::Flex);
    assert_eq!(mode(Display::Grid), LayoutMode::Grid);
    assert_eq!(mode(Display::Table), LayoutMode::Table);
    assert_eq!(mode(Display::Inline), LayoutMode::Lines);
    assert_eq!(mode(Display::Block), LayoutMode::Flow);
    assert_eq!(boxed(text("t")).layout_mode(), LayoutMode::Text);
}

#[test]
fn widths_come_from_the_content() {
    let with = |display: Display, child: Display| {
        boxed(element("x", shown(display), vec![element("y", shown(child), vec![])]))
    };
    assert_eq!(with(Display::Block, Display::Inline).content_width(), ContentWidth::Sum);
    assert_eq!(with(Display::Block, Display::Block).content_width(), ContentWidth::Widest);
    assert_eq!(with(Display::Flex, Display::Block).content_width(), ContentWidth::Row);
    assert_eq!(with(Display::Grid, Display::Block).content_width(), ContentWidth::Widest);
    let listed = Style {
        grid_template_columns: Some(vec![GridTrack::Px(5), GridTrack::Auto]),
        ..shown(Display::Grid)
    };
    let child = element("y", shown(Display::Block), vec![]);
    let grid = boxed(element("x", listed, vec![child]));
    assert_eq!(grid.content_width(), ContentWidth::Columns);
    assert_eq!(grid.column_template(), ColumnTemplate::Listed);
    assert_eq!(boxed(text("t")).column_template(), ColumnTemplate::Automatic(1));
}

#[test]
fn containers_go_before_styles() {
    let given = Style { width: Some(LengthSpec::Px(7)), ..shown(Display::Block) };
    let mut b = boxed(element("x", given, vec![]));
    assert!(matches!(b.width_source(), SizeSource::Given(LengthSpec::Px(7))));
    assert!(matches!(b.height_source(), SizeSource::Open));
    b.flex_override_width = Some(9);
    assert!(matches!(b.width_source(), SizeSource::Forced(9)));
    assert!(b.fills_cell(Some(AlignItems::Start)));
}

#[test]
fn free_space_goes_to_automatic_sides() {
    let sides = |left: bool, right: bool| {
        EdgeAuto { left, right, ..EdgeAuto::default() }.auto_sides()
    };
    assert_eq!(sides(true, true), AutoSides::Both);
    assert_eq!(sides(true, false), AutoSides::Left);
    assert_eq!(sides(false, true), AutoSides::Right);
    assert_eq!(sides(false, false), AutoSides::Neither);
}
