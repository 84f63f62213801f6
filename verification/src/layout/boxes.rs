//! Boxes, and how they are built from styled nodes.
use std::sync::Arc;

use vstd::prelude::*;

use crate::layout::{
    AlignItems, BackgroundRepeat, BgPos, BgSize, BlendMode, BorderStyle, BoxKind, BoxShadow,
    ClearMode, ClipShape, Color, Display, EdgeAuto, EdgeSizes, EmbeddedImage, FilterEffect,
    FlexDirection, FlexWrap, FloatSide, GradientSpec, GridTrack, JustifyContent, LengthSpec,
    LinearGradientSpec, ObjectFit, Overflow, Position, Rect, StyledKind, TextAlign, TextTransform,
    VerticalAlign,
};

verus! {

/// A box: where it lies, how it looks, and the boxes inside it.
#[derive(Debug)]
pub struct LayoutBox<N> {
    pub content: Rect<N>,
    pub padding: EdgeSizes<N>,
    pub margin: EdgeSizes<N>,
    /// The sides whose margin is `auto`.
    pub margin_auto: EdgeAuto,
    /// The width of borders that have none of their own.
    pub border_width_px: N,
    pub border_color: Option<Color>,
    /// Widths at the top, right, bottom and left.
    pub border_widths_per_side: [Option<N>; 4],
    /// Colors at the top, right, bottom and left.
    pub border_colors_per_side: [Option<Color>; 4],
    /// Styles at the top, right, bottom and left; solid where there is none.
    pub border_styles_per_side: [Option<BorderStyle>; 4],
    pub text_align: Option<TextAlign>,
    pub font_weight_bold: bool,
    /// From 1 to 1000.
    pub font_weight_num: u16,
    pub font_style_italic: bool,
    pub font_family: Option<String>,
    pub text_transform: Option<TextTransform>,
    pub letter_spacing_px: N,
    pub text_decoration_underline: bool,
    pub text_decoration_line_through: bool,
    pub line_height_px: Option<N>,
    pub preserve_whitespace: bool,
    pub box_sizing_border_box: bool,
    pub is_flex: bool,
    pub is_grid: bool,
    /// Flows in lines with its siblings.
    pub is_inline: bool,
    /// Flows in lines and keeps its own size, padding and border.
    pub is_inline_block: bool,
    pub is_table: bool,
    pub is_table_row: bool,
    pub is_table_cell: bool,
    /// Its rows belong to the table around it.
    pub is_table_row_group: bool,
    pub is_list_item: bool,
    pub is_flow_root: bool,
    pub flex_direction: FlexDirection,
    pub flex_wrap: FlexWrap,
    pub flex_grow: N,
    pub flex_shrink: N,
    pub flex_basis: Option<LengthSpec<N>>,
    pub justify_content: JustifyContent,
    pub align_items: AlignItems,
    pub justify_items: Option<AlignItems>,
    pub align_self: Option<AlignItems>,
    pub justify_self: Option<AlignItems>,
    pub gap_px: N,
    pub column_gap_px: N,
    pub row_gap_px: N,
    pub grid_template_columns: Option<Vec<GridTrack<N>>>,
    pub grid_template_rows: Option<Vec<GridTrack<N>>>,
    /// The size of rows behind the template.
    pub grid_auto_rows: Option<GridTrack<N>>,
    /// The size of columns behind the template.
    pub grid_auto_columns: Option<GridTrack<N>>,
    /// The names of the areas that cells belong to, row by row.
    pub grid_template_areas: Option<Vec<Vec<String>>>,
    pub grid_column_start: Option<usize>,
    pub grid_column_span: Option<usize>,
    pub grid_row_start: Option<usize>,
    pub grid_row_span: Option<usize>,
    pub table_col_span: Option<usize>,
    pub table_row_span: Option<usize>,
    /// The area that the box is placed in.
    pub grid_area_name: Option<String>,
    /// Content is clipped on some axis.
    pub overflow_hidden: bool,
    pub overflow_x: Overflow,
    pub overflow_y: Overflow,
    /// How far the content is scrolled.
    pub scroll_offset_x: N,
    pub scroll_offset_y: N,
    /// Takes up space but is not painted.
    pub visibility_hidden: bool,
    pub opacity: N,
    pub border_radius_px: N,
    pub border_radius_percent: Option<N>,
    pub translate_x_px: N,
    pub translate_y_px: N,
    pub translate_x_percent: Option<N>,
    pub translate_y_percent: Option<N>,
    pub scale_x: N,
    pub scale_y: N,
    pub rotate_deg: N,
    /// Takes the place of scaling and rotation.
    pub matrix_2d: Option<[N; 6]>,
    /// The center where there is none.
    pub transform_origin: Option<(BgPos<N>, BgPos<N>)>,
    pub position: Position,
    /// `auto` where there is none.
    pub z_index: Option<i32>,
    pub float_side: FloatSide,
    pub clear: ClearMode,
    pub vertical_align: VerticalAlign,
    pub box_shadow: Option<BoxShadow<N>>,
    pub text_shadow: Option<BoxShadow<N>>,
    /// In the order in which they are applied.
    pub filters: Vec<FilterEffect<N>>,
    pub backdrop_filters: Vec<FilterEffect<N>>,
    pub mix_blend_mode: BlendMode,
    pub background_blend_mode: BlendMode,
    pub animation_name: Option<String>,
    pub animation_duration_ms: N,
    pub animation_delay_ms: N,
    pub animation_iteration_count: N,
    pub animation_timing: u8,
    pub clip_shape: Option<ClipShape<N>>,
    pub has_mask_url: bool,
    pub mask_image_url: Option<String>,
    pub background_gradient: Option<LinearGradientSpec<N>>,
    pub background_radial_gradient: Option<LinearGradientSpec<N>>,
    pub background_gradient_full: Option<GradientSpec<N>>,
    pub background_image_url: Option<String>,
    pub background_repeat: BackgroundRepeat,
    pub top_px: Option<LengthSpec<N>>,
    pub right_px: Option<LengthSpec<N>>,
    pub bottom_px: Option<LengthSpec<N>>,
    pub left_px: Option<LengthSpec<N>>,
    pub explicit_width: Option<LengthSpec<N>>,
    /// The width that the container asks for during a pass.
    pub flex_override_width: Option<N>,
    pub explicit_height: Option<LengthSpec<N>>,
    /// The height that the container asks for during a pass.
    pub flex_override_height: Option<N>,
    pub aspect_ratio: Option<N>,
    pub max_width: Option<LengthSpec<N>>,
    pub max_height: Option<LengthSpec<N>>,
    pub min_width: Option<LengthSpec<N>>,
    pub min_height: Option<LengthSpec<N>>,
    pub background: Option<Color>,
    pub text_color: Color,
    pub font_size_px: N,
    pub kind: BoxKind,
    /// The target of the link that the box belongs to.
    pub link_href: Option<String>,
    pub embedded_image: Option<Arc<EmbeddedImage>>,
    pub mask_image: Option<Arc<EmbeddedImage>>,
    pub background_image: Option<Arc<EmbeddedImage>>,
    pub background_size: Option<BgSize<N>>,
    pub background_position: Option<(BgPos<N>, BgPos<N>)>,
    pub object_fit: Option<ObjectFit>,
    pub object_position: Option<(BgPos<N>, BgPos<N>)>,
    /// Where the element stands in the document.
    pub element_path: Option<Vec<usize>>,
    /// A stable identity; boxes without one are not cached.
    pub node_id: Option<u64>,
    /// Its parent places and sizes it, so that it is not cached by itself.
    pub cache_ineligible: bool,
    pub children: Vec<LayoutBox<N>>,
}

/// The style of a node.
#[derive(Clone, Debug, Default)]
pub struct Style<N> {
    pub display: Option<Display>,
    /// Laid out as a block.
    pub display_is_list_item: bool,
    /// Laid out as a block.
    pub display_is_flow_root: bool,
    pub background: Option<Color>,
    pub text_color: Option<Color>,
    pub font_size_px: Option<N>,
    pub width: Option<LengthSpec<N>>,
    pub height: Option<LengthSpec<N>>,
    pub aspect_ratio: Option<N>,
    pub max_width: Option<LengthSpec<N>>,
    pub max_height: Option<LengthSpec<N>>,
    pub min_width: Option<LengthSpec<N>>,
    pub min_height: Option<LengthSpec<N>>,
    pub margin: EdgeSizes<N>,
    pub margin_auto: EdgeAuto,
    pub padding: EdgeSizes<N>,
    pub border_width_px: Option<N>,
    pub border_color: Option<Color>,
    pub border_widths_per_side: [Option<N>; 4],
    pub border_colors_per_side: [Option<Color>; 4],
    pub border_styles_per_side: [Option<BorderStyle>; 4],
    pub text_align: Option<TextAlign>,
    pub font_weight_bold: Option<bool>,
    /// From 1 to 1000.
    pub font_weight_num: Option<u16>,
    pub font_style_italic: Option<bool>,
    pub font_family: Option<String>,
    pub text_transform: Option<TextTransform>,
    pub letter_spacing_px: Option<N>,
    pub text_decoration_underline: Option<bool>,
    pub text_decoration_line_through: Option<bool>,
    pub line_height_px: Option<N>,
    pub preserve_whitespace: bool,
    pub box_sizing_border_box: Option<bool>,
    pub flex_direction: Option<FlexDirection>,
    pub flex_wrap: Option<FlexWrap>,
    pub flex_grow: Option<N>,
    pub flex_shrink: Option<N>,
    pub flex_basis: Option<LengthSpec<N>>,
    pub justify_content: Option<JustifyContent>,
    pub align_items: Option<AlignItems>,
    pub justify_items: Option<AlignItems>,
    pub align_self: Option<AlignItems>,
    pub justify_self: Option<AlignItems>,
    pub gap_px: Option<N>,
    pub grid_template_columns: Option<Vec<GridTrack<N>>>,
    pub grid_template_rows: Option<Vec<GridTrack<N>>>,
    pub grid_auto_rows: Option<GridTrack<N>>,
    pub grid_auto_columns: Option<GridTrack<N>>,
    pub grid_template_areas: Option<Vec<Vec<String>>>,
    pub grid_column_start: Option<usize>,
    pub grid_column_span: Option<usize>,
    pub grid_row_start: Option<usize>,
    pub grid_row_span: Option<usize>,
    pub table_col_span: Option<usize>,
    pub table_row_span: Option<usize>,
    pub grid_area_name: Option<String>,
    /// `gap_px` where there is none.
    pub column_gap_px: Option<N>,
    /// `gap_px` where there is none.
    pub row_gap_px: Option<N>,
    pub overflow_hidden: bool,
    pub overflow_x: Overflow,
    pub overflow_y: Overflow,
    pub visibility_hidden: Option<bool>,
    pub opacity: Option<N>,
    pub border_radius_px: Option<N>,
    pub border_radius_percent: Option<N>,
    pub translate_x_px: Option<N>,
    pub translate_y_px: Option<N>,
    pub translate_x_percent: Option<N>,
    pub translate_y_percent: Option<N>,
    pub scale_x: Option<N>,
    pub scale_y: Option<N>,
    pub rotate_deg: Option<N>,
    pub matrix_2d: Option<[N; 6]>,
    pub transform_origin: Option<(BgPos<N>, BgPos<N>)>,
    pub box_shadow: Option<BoxShadow<N>>,
    pub text_shadow: Option<BoxShadow<N>>,
    pub filters: Vec<FilterEffect<N>>,
    pub backdrop_filters: Vec<FilterEffect<N>>,
    pub mix_blend_mode: BlendMode,
    pub background_blend_mode: BlendMode,
    pub animation_name: Option<String>,
    pub animation_duration_ms: N,
    pub animation_delay_ms: N,
    pub animation_iteration_count: N,
    /// 0 is linear, 1 eases in, 2 out, 3 both.
    pub animation_timing: u8,
    pub clip_shape: Option<ClipShape<N>>,
    pub has_mask_url: bool,
    pub mask_image_url: Option<String>,
    pub background_gradient: Option<LinearGradientSpec<N>>,
    pub background_radial_gradient: Option<LinearGradientSpec<N>>,
    pub background_gradient_full: Option<GradientSpec<N>>,
    pub background_image_url: Option<String>,
    pub background_repeat: BackgroundRepeat,
    pub position: Option<Position>,
    pub z_index: Option<i32>,
    pub float_side: FloatSide,
    pub clear: ClearMode,
    pub vertical_align: VerticalAlign,
    pub top_px: Option<LengthSpec<N>>,
    pub right_px: Option<LengthSpec<N>>,
    pub bottom_px: Option<LengthSpec<N>>,
    pub left_px: Option<LengthSpec<N>>,
    /// The target of a link.
    pub link_href: Option<String>,
    pub element_path: Option<Vec<usize>>,
    pub node_id: Option<u64>,
    pub embedded_image: Option<Arc<EmbeddedImage>>,
    pub mask_image: Option<Arc<EmbeddedImage>>,
    pub background_image: Option<Arc<EmbeddedImage>>,
    pub background_size: Option<BgSize<N>>,
    pub background_position: Option<(BgPos<N>, BgPos<N>)>,
    pub object_fit: Option<ObjectFit>,
    pub object_position: Option<(BgPos<N>, BgPos<N>)>,
}

/// A node of a document with its style.
#[derive(Debug)]
pub struct StyledNode<N> {
    pub kind: StyledKind,
    pub style: Style<N>,
    pub children: Vec<StyledNode<N>>,
}

/// What boxes have where their style says nothing, and the numbers 0 and 1.
#[derive(Clone, Copy, Debug)]
pub struct Defaults<N> {
    pub zero: N,
    pub one: N,
    pub text_color: Color,
    pub font_size_px: N,
}

/// A value, or another where there is none.
pub open spec fn value_or<T>(o: Option<T>, other: T) -> T {
    match o {
        Some(v) => v,
        None => other,
    }
}

fn take_or<T>(o: Option<T>, other: T) -> (r: T)
    ensures
        r == value_or(o, other),
{
    match o {
        Some(v) => v,
        None => other,
    }
}

/// A value, or another where there is none.
pub open spec fn first_of<T>(o: Option<T>, other: Option<T>) -> Option<T> {
    match o {
        Some(v) => Some(v),
        None => other,
    }
}

fn take_first<T>(o: Option<T>, other: Option<T>) -> (r: Option<T>)
    ensures
        r == first_of(o, other),
{
    match o {
        Some(v) => Some(v),
        None => other,
    }
}

/// The numeric weight of a font: the one given, or that of bold or of normal
/// text.
pub open spec fn font_weight(num: Option<u16>, bold: Option<bool>) -> u16 {
    value_or(
        num,
        if value_or(bold, false) {
            700
        } else {
            400
        },
    )
}

fn font_weight_of(num: Option<u16>, bold: Option<bool>) -> (r: u16)
    ensures
        r == font_weight(num, bold),
{
    match num {
        Some(n) => n,
        None => if take_or(bold, false) {
            700
        } else {
            400
        },
    }
}

/// How a box takes part in layout, from its `display`.
#[derive(Clone, Copy, Debug, PartialEq, Eq, Structural)]
pub struct DisplayFlags {
    pub is_flex: bool,
    pub is_grid: bool,
    pub is_inline: bool,
    pub is_inline_block: bool,
    pub is_table: bool,
    pub is_table_row: bool,
    pub is_table_cell: bool,
    pub is_table_row_group: bool,
}

/// A `display` that makes boxes flow in lines and keep their own size.
pub open spec fn is_atomic_inline(d: Display) -> bool {
    d == Display::InlineBlock || d == Display::InlineFlex || d == Display::InlineGrid || d
        == Display::InlineTable
}

/// How a box takes part in layout.
pub open spec fn display_flags(display: Option<Display>) -> DisplayFlags {
    match display {
        None => DisplayFlags {
            is_flex: false,
            is_grid: false,
            is_inline: false,
            is_inline_block: false,
            is_table: false,
            is_table_row: false,
            is_table_cell: false,
            is_table_row_group: false,
        },
        Some(d) => DisplayFlags {
            is_flex: d == Display::Flex || d == Display::InlineFlex,
            is_grid: d == Display::Grid || d == Display::InlineGrid,
            is_inline: d == Display::Inline || is_atomic_inline(d),
            is_inline_block: is_atomic_inline(d),
            is_table: d == Display::Table || d == Display::InlineTable,
            is_table_row: d == Display::TableRow,
            is_table_cell: d == Display::TableCell,
            is_table_row_group: d == Display::TableRowGroup,
        },
    }
}

fn flags_of(display: Option<Display>) -> (r: DisplayFlags)
    ensures
        r == display_flags(display),
{
    let d: Display = match display {
        None => Display::Block,
        Some(d) => d,
    };
    let atomic: bool = d == Display::InlineBlock || d == Display::InlineFlex || d
        == Display::InlineGrid || d == Display::InlineTable;
    DisplayFlags {
        is_flex: d == Display::Flex || d == Display::InlineFlex,
        is_grid: d == Display::Grid || d == Display::InlineGrid,
        is_inline: d == Display::Inline || atomic,
        is_inline_block: atomic,
        is_table: d == Display::Table || d == Display::InlineTable,
        is_table_row: d == Display::TableRow,
        is_table_cell: d == Display::TableCell,
        is_table_row_group: d == Display::TableRowGroup,
    }
}

/// Every side of the rectangle is `zero`.
pub open spec fn is_zero_rect<N>(r: Rect<N>, zero: N) -> bool {
    r.x == zero && r.y == zero && r.w == zero && r.h == zero
}

fn zero_rect<N: Copy>(zero: N) -> (r: Rect<N>)
    ensures
        is_zero_rect(r, zero),
{
    Rect { x: zero, y: zero, w: zero, h: zero }
}

/// Every edge is `zero`.
pub open spec fn no_edges<N>(e: EdgeSizes<N>, zero: N) -> bool {
    e.top == zero && e.right == zero && e.bottom == zero && e.left == zero
}

fn zero_edges<N: Copy>(zero: N) -> (r: EdgeSizes<N>)
    ensures
        no_edges(r, zero),
{
    EdgeSizes { top: zero, right: zero, bottom: zero, left: zero }
}

/// The box has what the style of an element says, or what boxes have where it
/// says nothing.
pub open spec fn is_styled_element<N>(s: Style<N>, tag: String, d: Defaults<N>, b: LayoutBox<N>) -> bool {
    &&& is_zero_rect(b.content, d.zero)
    &&& b.padding == s.padding
    &&& b.margin == s.margin
    &&& b.margin_auto == s.margin_auto
    &&& b.border_width_px == value_or(s.border_width_px, d.zero)
    &&& b.border_color == s.border_color
    &&& b.border_widths_per_side == s.border_widths_per_side
    &&& b.border_colors_per_side == s.border_colors_per_side
    &&& b.border_styles_per_side == s.border_styles_per_side
    &&& b.text_align == s.text_align
    &&& b.font_weight_bold == value_or(s.font_weight_bold, false)
    &&& b.font_weight_num == font_weight(s.font_weight_num, s.font_weight_bold)
    &&& b.font_style_italic == value_or(s.font_style_italic, false)
    &&& b.font_family == s.font_family
    &&& b.text_transform == s.text_transform
    &&& b.letter_spacing_px == value_or(s.letter_spacing_px, d.zero)
    &&& b.text_decoration_underline == value_or(s.text_decoration_underline, false)
    &&& b.text_decoration_line_through == value_or(s.text_decoration_line_through, false)
    &&& b.line_height_px == s.line_height_px
    &&& b.preserve_whitespace == s.preserve_whitespace
    &&& b.box_sizing_border_box == value_or(s.box_sizing_border_box, false)
    &&& b.is_flex == display_flags(s.display).is_flex
    &&& b.is_grid == display_flags(s.display).is_grid
    &&& b.is_inline == display_flags(s.display).is_inline
    &&& b.is_inline_block == display_flags(s.display).is_inline_block
    &&& b.is_table == display_flags(s.display).is_table
    &&& b.is_table_row == display_flags(s.display).is_table_row
    &&& b.is_table_cell == display_flags(s.display).is_table_cell
    &&& b.is_table_row_group == display_flags(s.display).is_table_row_group
    &&& b.is_list_item == s.display_is_list_item
    &&& b.is_flow_root == s.display_is_flow_root
    &&& b.flex_direction == value_or(s.flex_direction, FlexDirection::Row)
    &&& b.flex_wrap == value_or(s.flex_wrap, FlexWrap::NoWrap)
    &&& b.flex_grow == value_or(s.flex_grow, d.zero)
    &&& b.flex_shrink == value_or(s.flex_shrink, d.one)
    &&& b.flex_basis == s.flex_basis
    &&& b.justify_content == value_or(s.justify_content, JustifyContent::Start)
    &&& b.align_items == value_or(s.align_items, AlignItems::Stretch)
    &&& b.justify_items == s.justify_items
    &&& b.align_self == s.align_self
    &&& b.justify_self == s.justify_self
    &&& b.gap_px == value_or(s.gap_px, d.zero)
    &&& b.column_gap_px == value_or(first_of(s.column_gap_px, s.gap_px), d.zero)
    &&& b.row_gap_px == value_or(first_of(s.row_gap_px, s.gap_px), d.zero)
    &&& b.grid_template_columns == s.grid_template_columns
    &&& b.grid_template_rows == s.grid_template_rows
    &&& b.grid_auto_rows == s.grid_auto_rows
    &&& b.grid_auto_columns == s.grid_auto_columns
    &&& b.grid_template_areas == s.grid_template_areas
    &&& b.grid_column_start == s.grid_column_start
    &&& b.grid_column_span == s.grid_column_span
    &&& b.grid_row_start == s.grid_row_start
    &&& b.grid_row_span == s.grid_row_span
    &&& b.table_col_span == s.table_col_span
    &&& b.table_row_span == s.table_row_span
    &&& b.grid_area_name == s.grid_area_name
    &&& b.overflow_hidden == s.overflow_hidden
    &&& b.overflow_x == s.overflow_x
    &&& b.overflow_y == s.overflow_y
    &&& b.scroll_offset_x == d.zero
    &&& b.scroll_offset_y == d.zero
    &&& b.visibility_hidden == value_or(s.visibility_hidden, false)
    &&& b.opacity == value_or(s.opacity, d.one)
    &&& b.border_radius_px == value_or(s.border_radius_px, d.zero)
    &&& b.border_radius_percent == s.border_radius_percent
    &&& b.translate_x_px == value_or(s.translate_x_px, d.zero)
    &&& b.translate_y_px == value_or(s.translate_y_px, d.zero)
    &&& b.translate_x_percent == s.translate_x_percent
    &&& b.translate_y_percent == s.translate_y_percent
    &&& b.scale_x == value_or(s.scale_x, d.one)
    &&& b.scale_y == value_or(s.scale_y, d.one)
    &&& b.rotate_deg == value_or(s.rotate_deg, d.zero)
    &&& b.matrix_2d == s.matrix_2d
    &&& b.transform_origin == s.transform_origin
    &&& b.position == value_or(s.position, Position::Static)
    &&& b.z_index == s.z_index
    &&& b.float_side == s.float_side
    &&& b.clear == s.clear
    &&& b.vertical_align == s.vertical_align
    &&& b.box_shadow == s.box_shadow
    &&& b.text_shadow == s.text_shadow
    &&& b.filters == s.filters
    &&& b.backdrop_filters == s.backdrop_filters
    &&& b.mix_blend_mode == s.mix_blend_mode
    &&& b.background_blend_mode == s.background_blend_mode
    &&& b.animation_name == s.animation_name
    &&& b.animation_duration_ms == s.animation_duration_ms
    &&& b.animation_delay_ms == s.animation_delay_ms
    &&& b.animation_iteration_count == s.animation_iteration_count
    &&& b.animation_timing == s.animation_timing
    &&& b.clip_shape == s.clip_shape
    &&& b.has_mask_url == s.has_mask_url
    &&& b.mask_image_url == s.mask_image_url
    &&& b.background_gradient == s.background_gradient
    &&& b.background_radial_gradient == s.background_radial_gradient
    &&& b.background_gradient_full == s.background_gradient_full
    &&& b.background_image_url == s.background_image_url
    &&& b.background_repeat == s.background_repeat
    &&& b.top_px == s.top_px
    &&& b.right_px == s.right_px
    &&& b.bottom_px == s.bottom_px
    &&& b.left_px == s.left_px
    &&& b.explicit_width == s.width
    &&& b.flex_override_width is None
    &&& b.explicit_height == s.height
    &&& b.flex_override_height is None
    &&& b.aspect_ratio == s.aspect_ratio
    &&& b.max_width == s.max_width
    &&& b.max_height == s.max_height
    &&& b.min_width == s.min_width
    &&& b.min_height == s.min_height
    &&& b.background == s.background
    &&& b.text_color == value_or(s.text_color, d.text_color)
    &&& b.font_size_px == value_or(s.font_size_px, d.font_size_px)
    &&& b.kind == (BoxKind::Block { tag })
    &&& b.embedded_image == s.embedded_image
    &&& b.mask_image == s.mask_image
    &&& b.background_image == s.background_image
    &&& b.background_size == s.background_size
    &&& b.background_position == s.background_position
    &&& b.object_fit == s.object_fit
    &&& b.object_position == s.object_position
    &&& b.element_path == s.element_path
    &&& b.node_id == s.node_id
}

/// The box has what the style of a text says of text, and is plain otherwise.
pub open spec fn is_styled_text<N>(s: Style<N>, t: String, d: Defaults<N>, b: LayoutBox<N>) -> bool {
    &&& is_zero_rect(b.content, d.zero)
    &&& no_edges(b.padding, d.zero)
    &&& b.margin == s.margin
    &&& !b.margin_auto.top && !b.margin_auto.right && !b.margin_auto.bottom && !b.margin_auto.left
    &&& b.border_width_px == d.zero
    &&& b.border_color is None
    &&& forall|i: int| 0 <= i < 4 ==> (#[trigger] b.border_widths_per_side[i]) is None
    &&& forall|i: int| 0 <= i < 4 ==> (#[trigger] b.border_colors_per_side[i]) is None
    &&& forall|i: int| 0 <= i < 4 ==> (#[trigger] b.border_styles_per_side[i]) is None
    &&& b.text_align == s.text_align
    &&& b.font_weight_bold == value_or(s.font_weight_bold, false)
    &&& b.font_weight_num == font_weight(s.font_weight_num, s.font_weight_bold)
    &&& b.font_style_italic == value_or(s.font_style_italic, false)
    &&& b.font_family == s.font_family
    &&& b.text_transform == s.text_transform
    &&& b.letter_spacing_px == value_or(s.letter_spacing_px, d.zero)
    &&& b.text_decoration_underline == value_or(s.text_decoration_underline, false)
    &&& b.text_decoration_line_through == value_or(s.text_decoration_line_through, false)
    &&& b.line_height_px == s.line_height_px
    &&& b.preserve_whitespace == s.preserve_whitespace
    &&& b.box_sizing_border_box == value_or(s.box_sizing_border_box, false)
    &&& !b.is_flex
    &&& !b.is_grid
    &&& b.is_inline
    &&& !b.is_inline_block
    &&& !b.is_table
    &&& !b.is_table_row
    &&& !b.is_table_cell
    &&& !b.is_table_row_group
    &&& !b.is_list_item
    &&& !b.is_flow_root
    &&& b.flex_direction == FlexDirection::Row
    &&& b.flex_wrap == FlexWrap::NoWrap
    &&& b.flex_grow == d.zero
    &&& b.flex_shrink == d.one
    &&& b.flex_basis is None
    &&& b.justify_content == JustifyContent::Start
    &&& b.align_items == AlignItems::Stretch
    &&& b.justify_items is None
    &&& b.align_self is None
    &&& b.justify_self is None
    &&& b.gap_px == d.zero
    &&& b.column_gap_px == d.zero
    &&& b.row_gap_px == d.zero
    &&& b.grid_template_columns is None
    &&& b.grid_template_rows is None
    &&& b.grid_auto_rows is None
    &&& b.grid_auto_columns is None
    &&& b.grid_template_areas is None
    &&& b.grid_column_start is None
    &&& b.grid_column_span is None
    &&& b.grid_row_start is None
    &&& b.grid_row_span is None
    &&& b.table_col_span is None
    &&& b.table_row_span is None
    &&& b.grid_area_name is None
    &&& !b.overflow_hidden
    &&& b.overflow_x == Overflow::Visible
    &&& b.overflow_y == Overflow::Visible
    &&& b.scroll_offset_x == d.zero
    &&& b.scroll_offset_y == d.zero
    &&& !b.visibility_hidden
    &&& b.opacity == d.one
    &&& b.border_radius_px == d.zero
    &&& b.border_radius_percent is None
    &&& b.translate_x_px == d.zero
    &&& b.translate_y_px == d.zero
    &&& b.translate_x_percent is None
    &&& b.translate_y_percent is None
    &&& b.scale_x == d.one
    &&& b.scale_y == d.one
    &&& b.rotate_deg == d.zero
    &&& b.matrix_2d is None
    &&& b.transform_origin is None
    &&& b.position == Position::Static
    &&& b.z_index is None
    &&& b.float_side == FloatSide::NotFloated
    &&& b.clear == ClearMode::NoClear
    &&& b.vertical_align == VerticalAlign::Baseline
    &&& b.box_shadow is None
    &&& b.text_shadow is None
    &&& b.filters@.len() == 0
    &&& b.backdrop_filters@.len() == 0
    &&& b.mix_blend_mode == BlendMode::Normal
    &&& b.background_blend_mode == BlendMode::Normal
    &&& b.animation_name is None
    &&& b.animation_duration_ms == d.zero
    &&& b.animation_delay_ms == d.zero
    &&& b.animation_iteration_count == d.one
    &&& b.animation_timing == 3
    &&& b.clip_shape is None
    &&& !b.has_mask_url
    &&& b.mask_image_url is None
    &&& b.background_gradient is None
    &&& b.background_radial_gradient is None
    &&& b.background_gradient_full is None
    &&& b.background_image_url is None
    &&& b.background_repeat == BackgroundRepeat::Repeat
    &&& b.top_px is None
    &&& b.right_px is None
    &&& b.bottom_px is None
    &&& b.left_px is None
    &&& b.explicit_width is None
    &&& b.flex_override_width is None
    &&& b.explicit_height is None
    &&& b.flex_override_height is None
    &&& b.aspect_ratio is None
    &&& b.max_width is None
    &&& b.max_height is None
    &&& b.min_width is None
    &&& b.min_height is None
    &&& b.background is None
    &&& b.text_color == value_or(s.text_color, d.text_color)
    &&& b.font_size_px == value_or(s.font_size_px, d.zero)
    &&& b.kind == BoxKind::Text(t)
    &&& b.embedded_image is None
    &&& b.mask_image is None
    &&& b.background_image is None
    &&& b.background_size is None
    &&& b.background_position is None
    &&& b.object_fit is None
    &&& b.object_position is None
    &&& b.element_path == s.element_path
    &&& b.node_id == s.node_id
}

/// The text of an address, if there is one.
pub open spec fn address(h: Option<String>) -> Option<Seq<char>> {
    match h {
        Some(h) => Some(h@),
        None => None,
    }
}

/// An element that is not shown at all.
pub open spec fn is_hidden<N>(node: StyledNode<N>) -> bool {
    node.kind is Element && node.style.display == Some(Display::NotShown)
}

/// A box that places and sizes the boxes inside it by rules of its own.
pub open spec fn arranges_children<N>(b: LayoutBox<N>) -> bool {
    b.is_flex || b.is_grid || b.is_table || b.is_table_row || b.is_table_row_group
}

/// The box of a node: styled as the node says, with the link that it belongs to
/// (its own, or the nearest around it) and with the boxes of its children.
pub open spec fn is_box_of<N>(
    node: StyledNode<N>,
    d: Defaults<N>,
    link: Option<Seq<char>>,
    arranged: bool,
    b: LayoutBox<N>,
) -> bool
    decreases node,
{
    let own = first_of(address(node.style.link_href), link);
    &&& address(b.link_href) == own
    &&& b.cache_ineligible == arranged
    &&& match node.kind {
        StyledKind::Text(t) => is_styled_text(node.style, t, d, b) && b.children@.len() == 0,
        StyledKind::Element { tag } => {
            &&& is_styled_element(node.style, tag, d, b)
            &&& if is_hidden(node) {
                b.children@.len() == 0
            } else {
                are_boxes_of(node.children@, d, own, arranges_children(b), b.children@)
            }
        },
    }
}

/// The boxes of the nodes that are shown, in the same order.
pub open spec fn are_boxes_of<N>(
    nodes: Seq<StyledNode<N>>,
    d: Defaults<N>,
    link: Option<Seq<char>>,
    arranged: bool,
    boxes: Seq<LayoutBox<N>>,
) -> bool
    decreases nodes,
{
    if nodes.len() == 0 {
        boxes.len() == 0
    } else if is_hidden(nodes.last()) {
        are_boxes_of(nodes.drop_last(), d, link, arranged, boxes)
    } else {
        &&& boxes.len() > 0
        &&& is_box_of(nodes.last(), d, link, arranged, boxes.last())
        &&& are_boxes_of(nodes.drop_last(), d, link, arranged, boxes.drop_last())
    }
}

/// The box of an element, without the boxes inside it.
fn element_box<N: Copy>(s: Style<N>, tag: String, d: &Defaults<N>, link_href: Option<String>, arranged: bool) -> (b: LayoutBox<N>)
    ensures
        is_styled_element(s, tag, *d, b),
        b.link_href == link_href,
        b.cache_ineligible == arranged,
        b.children@.len() == 0,
{
    let flags: DisplayFlags = flags_of(s.display);
    LayoutBox {
        content: zero_rect(d.zero),
        padding: s.padding,
        margin: s.margin,
        margin_auto: s.margin_auto,
        border_width_px: take_or(s.border_width_px, d.zero),
        border_color: s.border_color,
        border_widths_per_side: s.border_widths_per_side,
        border_colors_per_side: s.border_colors_per_side,
        border_styles_per_side: s.border_styles_per_side,
        text_align: s.text_align,
        font_weight_bold: take_or(s.font_weight_bold, false),
        font_weight_num: font_weight_of(s.font_weight_num, s.font_weight_bold),
        font_style_italic: take_or(s.font_style_italic, false),
        font_family: s.font_family,
        text_transform: s.text_transform,
        letter_spacing_px: take_or(s.letter_spacing_px, d.zero),
        text_decoration_underline: take_or(s.text_decoration_underline, false),
        text_decoration_line_through: take_or(s.text_decoration_line_through, false),
        line_height_px: s.line_height_px,
        preserve_whitespace: s.preserve_whitespace,
        box_sizing_border_box: take_or(s.box_sizing_border_box, false),
        is_flex: flags.is_flex,
        is_grid: flags.is_grid,
        is_inline: flags.is_inline,
        is_inline_block: flags.is_inline_block,
        is_table: flags.is_table,
        is_table_row: flags.is_table_row,
        is_table_cell: flags.is_table_cell,
        is_table_row_group: flags.is_table_row_group,
        is_list_item: s.display_is_list_item,
        is_flow_root: s.display_is_flow_root,
        flex_direction: take_or(s.flex_direction, FlexDirection::Row),
        flex_wrap: take_or(s.flex_wrap, FlexWrap::NoWrap),
        flex_grow: take_or(s.flex_grow, d.zero),
        flex_shrink: take_or(s.flex_shrink, d.one),
        flex_basis: s.flex_basis,
        justify_content: take_or(s.justify_content, JustifyContent::Start),
        align_items: take_or(s.align_items, AlignItems::Stretch),
        justify_items: s.justify_items,
        align_self: s.align_self,
        justify_self: s.justify_self,
        gap_px: take_or(s.gap_px, d.zero),
        column_gap_px: take_or(take_first(s.column_gap_px, s.gap_px), d.zero),
        row_gap_px: take_or(take_first(s.row_gap_px, s.gap_px), d.zero),
        grid_template_columns: s.grid_template_columns,
        grid_template_rows: s.grid_template_rows,
        grid_auto_rows: s.grid_auto_rows,
        grid_auto_columns: s.grid_auto_columns,
        grid_template_areas: s.grid_template_areas,
        grid_column_start: s.grid_column_start,
        grid_column_span: s.grid_column_span,
        grid_row_start: s.grid_row_start,
        grid_row_span: s.grid_row_span,
        table_col_span: s.table_col_span,
        table_row_span: s.table_row_span,
        grid_area_name: s.grid_area_name,
        overflow_hidden: s.overflow_hidden,
        overflow_x: s.overflow_x,
        overflow_y: s.overflow_y,
        scroll_offset_x: d.zero,
        scroll_offset_y: d.zero,
        visibility_hidden: take_or(s.visibility_hidden, false),
        opacity: take_or(s.opacity, d.one),
        border_radius_px: take_or(s.border_radius_px, d.zero),
        border_radius_percent: s.border_radius_percent,
        translate_x_px: take_or(s.translate_x_px, d.zero),
        translate_y_px: take_or(s.translate_y_px, d.zero),
        translate_x_percent: s.translate_x_percent,
        translate_y_percent: s.translate_y_percent,
        scale_x: take_or(s.scale_x, d.one),
        scale_y: take_or(s.scale_y, d.one),
        rotate_deg: take_or(s.rotate_deg, d.zero),
        matrix_2d: s.matrix_2d,
        transform_origin: s.transform_origin,
        position: take_or(s.position, Position::Static),
        z_index: s.z_index,
        float_side: s.float_side,
        clear: s.clear,
        vertical_align: s.vertical_align,
        box_shadow: s.box_shadow,
        text_shadow: s.text_shadow,
        filters: s.filters,
        backdrop_filters: s.backdrop_filters,
        mix_blend_mode: s.mix_blend_mode,
        background_blend_mode: s.background_blend_mode,
        animation_name: s.animation_name,
        animation_duration_ms: s.animation_duration_ms,
        animation_delay_ms: s.animation_delay_ms,
        animation_iteration_count: s.animation_iteration_count,
        animation_timing: s.animation_timing,
        clip_shape: s.clip_shape,
        has_mask_url: s.has_mask_url,
        mask_image_url: s.mask_image_url,
        background_gradient: s.background_gradient,
        background_radial_gradient: s.background_radial_gradient,
        background_gradient_full: s.background_gradient_full,
        background_image_url: s.background_image_url,
        background_repeat: s.background_repeat,
        top_px: s.top_px,
        right_px: s.right_px,
        bottom_px: s.bottom_px,
        left_px: s.left_px,
        explicit_width: s.width,
        flex_override_width: None,
        explicit_height: s.height,
        flex_override_height: None,
        aspect_ratio: s.aspect_ratio,
        max_width: s.max_width,
        max_height: s.max_height,
        min_width: s.min_width,
        min_height: s.min_height,
        background: s.background,
        text_color: take_or(s.text_color, d.text_color),
        font_size_px: take_or(s.font_size_px, d.font_size_px),
        kind: BoxKind::Block { tag },
        link_href,
        embedded_image: s.embedded_image,
        mask_image: s.mask_image,
        background_image: s.background_image,
        background_size: s.background_size,
        background_position: s.background_position,
        object_fit: s.object_fit,
        object_position: s.object_position,
        element_path: s.element_path,
        node_id: s.node_id,
        cache_ineligible: arranged,
        children: Vec::new(),
    }
}

/// The box of a text.
fn text_box<N: Copy>(s: Style<N>, t: String, d: &Defaults<N>, link_href: Option<String>, arranged: bool) -> (b: LayoutBox<N>)
    ensures
        is_styled_text(s, t, *d, b),
        b.link_href == link_href,
        b.cache_ineligible == arranged,
        b.children@.len() == 0,
{
    LayoutBox {
        content: zero_rect(d.zero),
        padding: zero_edges(d.zero),
        margin: s.margin,
        margin_auto: EdgeAuto { top: false, right: false, bottom: false, left: false },
        border_width_px: d.zero,
        border_color: None,
        border_widths_per_side: [None, None, None, None],
        border_colors_per_side: [None, None, None, None],
        border_styles_per_side: [None, None, None, None],
        text_align: s.text_align,
        font_weight_bold: take_or(s.font_weight_bold, false),
        font_weight_num: font_weight_of(s.font_weight_num, s.font_weight_bold),
        font_style_italic: take_or(s.font_style_italic, false),
        font_family: s.font_family,
        text_transform: s.text_transform,
        letter_spacing_px: take_or(s.letter_spacing_px, d.zero),
        text_decoration_underline: take_or(s.text_decoration_underline, false),
        text_decoration_line_through: take_or(s.text_decoration_line_through, false),
        line_height_px: s.line_height_px,
        preserve_whitespace: s.preserve_whitespace,
        box_sizing_border_box: take_or(s.box_sizing_border_box, false),
        is_flex: false,
        is_grid: false,
        is_inline: true,
        is_inline_block: false,
        is_table: false,
        is_table_row: false,
        is_table_cell: false,
        is_table_row_group: false,
        is_list_item: false,
        is_flow_root: false,
        flex_direction: FlexDirection::Row,
        flex_wrap: FlexWrap::NoWrap,
        flex_grow: d.zero,
        flex_shrink: d.one,
        flex_basis: None,
        justify_content: JustifyContent::Start,
        align_items: AlignItems::Stretch,
        justify_items: None,
        align_self: None,
        justify_self: None,
        gap_px: d.zero,
        column_gap_px: d.zero,
        row_gap_px: d.zero,
        grid_template_columns: None,
        grid_template_rows: None,
        grid_auto_rows: None,
        grid_auto_columns: None,
        grid_template_areas: None,
        grid_column_start: None,
        grid_column_span: None,
        grid_row_start: None,
        grid_row_span: None,
        table_col_span: None,
        table_row_span: None,
        grid_area_name: None,
        overflow_hidden: false,
        overflow_x: Overflow::Visible,
        overflow_y: Overflow::Visible,
        scroll_offset_x: d.zero,
        scroll_offset_y: d.zero,
        visibility_hidden: false,
        opacity: d.one,
        border_radius_px: d.zero,
        border_radius_percent: None,
        translate_x_px: d.zero,
        translate_y_px: d.zero,
        translate_x_percent: None,
        translate_y_percent: None,
        scale_x: d.one,
        scale_y: d.one,
        rotate_deg: d.zero,
        matrix_2d: None,
        transform_origin: None,
        position: Position::Static,
        z_index: None,
        float_side: FloatSide::NotFloated,
        clear: ClearMode::NoClear,
        vertical_align: VerticalAlign::Baseline,
        box_shadow: None,
        text_shadow: None,
        filters: Vec::new(),
        backdrop_filters: Vec::new(),
        mix_blend_mode: BlendMode::Normal,
        background_blend_mode: BlendMode::Normal,
        animation_name: None,
        animation_duration_ms: d.zero,
        animation_delay_ms: d.zero,
        animation_iteration_count: d.one,
        animation_timing: 3,
        clip_shape: None,
        has_mask_url: false,
        mask_image_url: None,
        background_gradient: None,
        background_radial_gradient: None,
        background_gradient_full: None,
        background_image_url: None,
        background_repeat: BackgroundRepeat::Repeat,
        top_px: None,
        right_px: None,
        bottom_px: None,
        left_px: None,
        explicit_width: None,
        flex_override_width: None,
        explicit_height: None,
        flex_override_height: None,
        aspect_ratio: None,
        max_width: None,
        max_height: None,
        min_width: None,
        min_height: None,
        background: None,
        text_color: take_or(s.text_color, d.text_color),
        font_size_px: take_or(s.font_size_px, d.zero),
        kind: BoxKind::Text(t),
        link_href,
        embedded_image: None,
        mask_image: None,
        background_image: None,
        background_size: None,
        background_position: None,
        object_fit: None,
        object_position: None,
        element_path: s.element_path,
        node_id: s.node_id,
        cache_ineligible: arranged,
        children: Vec::new(),
    }
}
/// Whether a node is an element that is not shown at all.
fn not_shown<N>(node: &StyledNode<N>) -> (r: bool)
    ensures
        r == is_hidden(*node),
{
    match (&node.kind, node.style.display) {
        (StyledKind::Element { tag: _ }, Some(d)) => d == Display::NotShown,
        _ => false,
    }
}

/// The items in the opposite order.
fn reversed<T>(v: Vec<T>) -> (r: Vec<T>)
    ensures
        r@ == v@.reverse(),
{
    let ghost all = v@;
    let mut v: Vec<T> = v;
    let mut out: Vec<T> = Vec::new();
    while v.len() > 0
        invariant
            v@.len() + out@.len() == all.len(),
            forall|i: int| 0 <= i < v@.len() ==> v@[i] == all[i],
            forall|i: int| 0 <= i < out@.len() ==> out@[i] == all[all.len() - 1 - i],
        decreases v@.len(),
    {
        match v.pop() {
            Some(x) => {
                out.push(x);
            },
            None => {},
        }
    }
    assert(out@ =~= all.reverse());
    out
}

impl<N> LayoutBox<N> {
    /// Whether the box places and sizes the boxes inside it by rules of its own.
    pub fn arranges_its_children(&self) -> (r: bool)
        ensures
            r == arranges_children(*self),
    {
        self.is_flex || self.is_grid || self.is_table || self.is_table_row
            || self.is_table_row_group
    }
}

fn copy_link(link: &Option<String>) -> (r: Option<String>)
    ensures
        address(r) == address(*link),
{
    match link {
        Some(h) => Some(h.clone()),
        None => None,
    }
}

/// The boxes of nodes built so far, from the last one back, complete those of
/// the nodes before them.
spec fn completes<N>(
    nodes: Seq<StyledNode<N>>,
    left: Seq<StyledNode<N>>,
    d: Defaults<N>,
    link: Option<Seq<char>>,
    arranged: bool,
    built: Seq<LayoutBox<N>>,
) -> bool {
    forall|k: Seq<LayoutBox<N>>| #[trigger]
        are_boxes_of(left, d, link, arranged, k) ==> are_boxes_of(
            nodes,
            d,
            link,
            arranged,
            k + built.reverse(),
        )
}

proof fn completes_step<N>(
    nodes: Seq<StyledNode<N>>,
    left: Seq<StyledNode<N>>,
    d: Defaults<N>,
    link: Option<Seq<char>>,
    arranged: bool,
    built: Seq<LayoutBox<N>>,
    b: LayoutBox<N>,
)
    requires
        completes(nodes, left, d, link, arranged, built),
        left.len() > 0,
    ensures
        is_hidden(left.last()) ==> completes(nodes, left.drop_last(), d, link, arranged, built),
        !is_hidden(left.last()) && is_box_of(left.last(), d, link, arranged, b) ==> completes(
            nodes,
            left.drop_last(),
            d,
            link,
            arranged,
            built.push(b),
        ),
{
    if is_hidden(left.last()) {
        assert forall|k: Seq<LayoutBox<N>>| #[trigger]
            are_boxes_of(left.drop_last(), d, link, arranged, k) implies are_boxes_of(
            nodes,
            d,
            link,
            arranged,
            k + built.reverse(),
        ) by {
            assert(are_boxes_of(left, d, link, arranged, k));
        }
    } else if is_box_of(left.last(), d, link, arranged, b) {
        assert forall|k: Seq<LayoutBox<N>>| #[trigger]
            are_boxes_of(left.drop_last(), d, link, arranged, k) implies are_boxes_of(
            nodes,
            d,
            link,
            arranged,
            k + built.push(b).reverse(),
        ) by {
            let more = k.push(b);
            assert(more.drop_last() =~= k);
            assert(are_boxes_of(left, d, link, arranged, more));
            assert(more + built.reverse() =~= k + built.push(b).reverse());
        }
    }
}

proof fn child_is_smaller<N>(node: StyledNode<N>, i: int)
    requires
        0 <= i < node.children@.len(),
    ensures
        decreases_to!(node => node.children@[i]),
{
    assert(decreases_to!(node => node.children));
    assert(decreases_to!(node.children => node.children@));
    assert(decreases_to!(node.children@ => node.children@[i]));
}

fn build_linked<N: Copy>(
    node: StyledNode<N>,
    d: &Defaults<N>,
    link: &Option<String>,
    arranged: bool,
) -> (b: LayoutBox<N>)
    ensures
        is_box_of(node, *d, address(*link), arranged, b),
    decreases node,
{
    let ghost whole = node;
    let hidden: bool = not_shown(&node);
    let StyledNode { kind, style, children } = node;
    let own: Option<String> = match &style.link_href {
        Some(h) => Some(h.clone()),
        None => copy_link(link),
    };
    match kind {
        StyledKind::Text(t) => text_box(style, t, d, own, arranged),
        StyledKind::Element { tag } => {
            let mut b: LayoutBox<N> = element_box(style, tag, d, own, arranged);
            if hidden {
                return b;
            }
            let inner: bool = b.arranges_its_children();
            let ghost nodes = children@;
            let mut left: Vec<StyledNode<N>> = children;
            let mut built: Vec<LayoutBox<N>> = Vec::new();
            proof {
                assert forall|k: Seq<LayoutBox<N>>| #[trigger]
                    are_boxes_of(nodes, *d, address(b.link_href), inner, k) implies are_boxes_of(
                    nodes,
                    *d,
                    address(b.link_href),
                    inner,
                    k + built@.reverse(),
                ) by {
                    assert(k + built@.reverse() =~= k);
                }
            }
            while left.len() > 0
                invariant
                    node == whole,
                    whole.children@ == nodes,
                    left@.len() <= nodes.len(),
                    left@ == nodes.take(left@.len() as int),
                    completes(nodes, left@, *d, address(b.link_href), inner, built@),
                decreases left@.len(),
            {
                let ghost before = left@;
                match left.pop() {
                    None => {},
                    Some(child) => {
                        assert(before.drop_last() =~= left@);
                        assert(left@ =~= nodes.take(left@.len() as int));
                        proof {
                            child_is_smaller(whole, left@.len() as int);
                            assert(child == whole.children@[left@.len() as int]);
                        }
                        if not_shown(&child) {
                            proof {
                                completes_step(
                                    nodes,
                                    before,
                                    *d,
                                    address(b.link_href),
                                    inner,
                                    built@,
                                    b,
                                );
                            }
                        } else {
                            let ghost done = built@;
                            let kid: LayoutBox<N> = build_linked(child, d, &b.link_href, inner);
                            proof {
                                completes_step(
                                    nodes,
                                    before,
                                    *d,
                                    address(b.link_href),
                                    inner,
                                    done,
                                    kid,
                                );
                            }
                            built.push(kid);
                        }
                    },
                }
            }
            proof {
                let none = Seq::<LayoutBox<N>>::empty();
                assert(are_boxes_of(left@, *d, address(b.link_href), inner, none));
                assert(none + built@.reverse() =~= built@.reverse());
            }
            b.children = reversed(built);
            b
        },
    }
}

/// Builds the box of a node and the boxes inside it. Elements that are not shown
/// have none.
pub fn build_box<N: Copy>(node: StyledNode<N>, d: &Defaults<N>) -> (b: LayoutBox<N>)
    ensures
        is_box_of(node, *d, None, false, b),
{
    build_linked(node, d, &None, false)
}

/// How many of the nodes are shown.
pub open spec fn shown<N>(nodes: Seq<StyledNode<N>>) -> int
    decreases nodes.len(),
{
    if nodes.len() == 0 {
        0
    } else {
        shown(nodes.drop_last()) + if nodes.last().kind is Element
            && nodes.last().style.display == Some(Display::NotShown) {
            0int
        } else {
            1
        }
    }
}

/// There is a box for each node that is shown.
pub proof fn shown_nodes_have_boxes<N>(
    nodes: Seq<StyledNode<N>>,
    d: Defaults<N>,
    link: Option<Seq<char>>,
    arranged: bool,
    boxes: Seq<LayoutBox<N>>,
)
    requires
        are_boxes_of(nodes, d, link, arranged, boxes),
    ensures
        boxes.len() == shown(nodes),
    decreases nodes.len(),
{
    if nodes.len() > 0 {
        if is_hidden(nodes.last()) {
            shown_nodes_have_boxes(nodes.drop_last(), d, link, arranged, boxes);
        } else {
            shown_nodes_have_boxes(nodes.drop_last(), d, link, arranged, boxes.drop_last());
        }
    }
}

/// The box of node `i` stands behind those of the nodes before it that are shown.
pub proof fn boxes_come_in_the_order_of_their_nodes<N>(
    nodes: Seq<StyledNode<N>>,
    d: Defaults<N>,
    link: Option<Seq<char>>,
    arranged: bool,
    boxes: Seq<LayoutBox<N>>,
    i: int,
)
    requires
        are_boxes_of(nodes, d, link, arranged, boxes),
        0 <= i < nodes.len(),
        !is_hidden(nodes[i]),
    ensures
        0 <= shown(nodes.take(i)) < boxes.len(),
        is_box_of(nodes[i], d, link, arranged, boxes[shown(nodes.take(i))]),
    decreases nodes.len(),
{
    let before = nodes.drop_last();
    shown_nodes_have_boxes(nodes, d, link, arranged, boxes);
    if i == nodes.len() - 1 {
        assert(nodes.take(i) =~= before);
        shown_nodes_have_boxes(before, d, link, arranged, boxes.drop_last());
    } else {
        assert(before.take(i) =~= nodes.take(i));
        assert(before[i] == nodes[i]);
        if is_hidden(nodes.last()) {
            boxes_come_in_the_order_of_their_nodes(before, d, link, arranged, boxes, i);
        } else {
            boxes_come_in_the_order_of_their_nodes(
                before,
                d,
                link,
                arranged,
                boxes.drop_last(),
                i,
            );
        }
    }
}

/// A box belongs to its own link or, without one, to that of the box around it; what is
/// inside a box that arranges it cannot be laid out once and used again.
pub proof fn links_and_arrangement_reach_inside<N>(
    node: StyledNode<N>,
    d: Defaults<N>,
    link: Option<Seq<char>>,
    arranged: bool,
    b: LayoutBox<N>,
)
    requires
        is_box_of(node, d, link, arranged, b),
    ensures
        node.style.link_href matches Some(h) ==> address(b.link_href) == Some(h@),
        node.style.link_href is None ==> address(b.link_href) == link,
        b.cache_ineligible == arranged,
        node.kind is Element && !is_hidden(node) && (b.is_flex || b.is_grid || b.is_table
            || b.is_table_row || b.is_table_row_group) ==> are_boxes_of(
            node.children@,
            d,
            address(b.link_href),
            true,
            b.children@,
        ),
        node.kind is Text ==> b.children@.len() == 0,
{
}

/// Text looks the same in a box of its own and in the box of an element of the same
/// style: its color, its font, its weight and its lines.
pub proof fn texts_look_like_their_element<N>(
    s: Style<N>,
    t: String,
    tag: String,
    d: Defaults<N>,
    a: LayoutBox<N>,
    b: LayoutBox<N>,
)
    requires
        is_styled_text(s, t, d, a),
        is_styled_element(s, tag, d, b),
    ensures
        a.text_color == b.text_color,
        a.text_align == b.text_align,
        a.font_weight_bold == b.font_weight_bold,
        a.font_weight_num == b.font_weight_num,
        a.font_style_italic == b.font_style_italic,
        a.font_family == b.font_family,
        a.text_transform == b.text_transform,
        a.letter_spacing_px == b.letter_spacing_px,
        a.text_decoration_underline == b.text_decoration_underline,
        a.text_decoration_line_through == b.text_decoration_line_through,
        a.line_height_px == b.line_height_px,
        a.preserve_whitespace == b.preserve_whitespace,
        a.margin == b.margin,
        s.font_size_px is Some ==> a.font_size_px == b.font_size_px,
        a.is_inline,
        !a.is_inline_block,
        a.position is Static,
        a.background is None,
        a.explicit_width is None && a.explicit_height is None,
{
}

/// Gaps: one of its own for columns and rows goes before the common one, which goes
/// before none.
pub proof fn own_gaps_go_first<N>(s: Style<N>, tag: String, d: Defaults<N>, b: LayoutBox<N>)
    requires
        is_styled_element(s, tag, d, b),
    ensures
        s.column_gap_px matches Some(g) ==> b.column_gap_px == g,
        s.row_gap_px matches Some(g) ==> b.row_gap_px == g,
        s.column_gap_px is None ==> (s.gap_px matches Some(g) ==> b.column_gap_px == g),
        s.row_gap_px is None ==> (s.gap_px matches Some(g) ==> b.row_gap_px == g),
        s.gap_px is None && s.column_gap_px is None ==> b.column_gap_px == d.zero,
        s.gap_px is None && s.row_gap_px is None ==> b.row_gap_px == d.zero,
        s.gap_px matches Some(g) ==> b.gap_px == g,
{
}

/// A weight in numbers goes before one in words; bold is 700 and normal text 400.
pub proof fn weights_in_numbers_go_first(num: Option<u16>, bold: Option<bool>)
    ensures
        num matches Some(n) ==> font_weight(num, bold) == n,
        num is None && bold == Some(true) ==> font_weight(num, bold) == 700,
        num is None && bold != Some(true) ==> font_weight(num, bold) == 400,
{
}

/// A box is of one kind of container at most. Those whose `display` begins with
/// `inline` flow on lines, and keep a size of their own but for `inline` itself.
pub proof fn displays_make_one_container(display: Display)
    ensures
        ({
            let f = display_flags(Some(display));
            &&& f.is_flex == (display is Flex || display is InlineFlex)
            &&& f.is_grid == (display is Grid || display is InlineGrid)
            &&& f.is_table == (display is Table || display is InlineTable)
            &&& f.is_table_row == (display is TableRow)
            &&& f.is_table_cell == (display is TableCell)
            &&& f.is_table_row_group == (display is TableRowGroup)
            &&& f.is_inline == (display is Inline || display is InlineBlock || display is InlineFlex
                || display is InlineGrid || display is InlineTable)
            &&& f.is_inline_block == (f.is_inline && !(display is Inline))
        }),
        display_flags(None) == display_flags(Some(Display::Block)),
{
}

/// Each side of a box, its sizes and its place have what the style says of the same.
pub proof fn sizes_and_places_are_those_of_the_style<N>(
    s: Style<N>,
    tag: String,
    d: Defaults<N>,
    b: LayoutBox<N>,
)
    requires
        is_styled_element(s, tag, d, b),
    ensures
        b.padding.top == s.padding.top && b.padding.right == s.padding.right && b.padding.bottom
            == s.padding.bottom && b.padding.left == s.padding.left,
        b.margin.top == s.margin.top && b.margin.right == s.margin.right && b.margin.bottom
            == s.margin.bottom && b.margin.left == s.margin.left,
        b.explicit_width == s.width,
        b.explicit_height == s.height,
        b.min_width == s.min_width && b.max_width == s.max_width,
        b.min_height == s.min_height && b.max_height == s.max_height,
        b.top_px == s.top_px && b.right_px == s.right_px && b.bottom_px == s.bottom_px && b.left_px
            == s.left_px,
        s.position matches Some(p) ==> b.position == p,
        s.position is None ==> b.position is Static,
        b.float_side == s.float_side,
        b.clear == s.clear,
        b.z_index == s.z_index,
        b.overflow_x == s.overflow_x && b.overflow_y == s.overflow_y,
        b.table_col_span == s.table_col_span && b.table_row_span == s.table_row_span,
        b.grid_column_start == s.grid_column_start && b.grid_row_start == s.grid_row_start,
        b.grid_column_span == s.grid_column_span && b.grid_row_span == s.grid_row_span,
        b.grid_template_columns == s.grid_template_columns && b.grid_template_rows
            == s.grid_template_rows,
        b.node_id == s.node_id,
        b.kind matches BoxKind::Block { tag: t } && t == tag,
{
}

/// Factors are one and lengths nothing where the style says nothing, so that a box
/// without a style is seen as it is, in its place, and shares no space.
pub proof fn unstyled_boxes_are_plain<N>(s: Style<N>, tag: String, d: Defaults<N>, b: LayoutBox<N>)
    requires
        is_styled_element(s, tag, d, b),
    ensures
        s.opacity is None ==> b.opacity == d.one,
        s.scale_x is None ==> b.scale_x == d.one,
        s.scale_y is None ==> b.scale_y == d.one,
        s.rotate_deg is None ==> b.rotate_deg == d.zero,
        s.translate_x_px is None ==> b.translate_x_px == d.zero,
        s.translate_y_px is None ==> b.translate_y_px == d.zero,
        s.flex_grow is None ==> b.flex_grow == d.zero,
        s.flex_shrink is None ==> b.flex_shrink == d.one,
        s.border_width_px is None ==> b.border_width_px == d.zero,
        s.text_color is None ==> b.text_color == d.text_color,
        s.font_size_px is None ==> b.font_size_px == d.font_size_px,
        s.flex_direction is None ==> b.flex_direction is Row,
        s.flex_wrap is None ==> b.flex_wrap is NoWrap,
        s.justify_content is None ==> b.justify_content is Start,
        s.align_items is None ==> b.align_items is Stretch,
        b.scroll_offset_x == d.zero && b.scroll_offset_y == d.zero,
        b.flex_override_width is None && b.flex_override_height is None,
{
}

} // verus!
