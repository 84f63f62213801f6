//! How boxes are laid out and sized, as far as that does not depend on numbers.
use vstd::prelude::*;

use crate::layout::boxes::{self, LayoutBox};
use crate::layout::flow::inline_container_children_all_inline;
use crate::layout::{AlignItems, BoxKind, EdgeAuto, GridTrack, LengthSpec};

verus! {

/// How a box lays out what is inside it.
#[derive(Copy, Clone, Debug, PartialEq, Eq, Structural)]
pub enum LayoutMode {
    /// Words on lines.
    Text,
    /// An image has nothing inside it.
    Image,
    Flex,
    Grid,
    Table,
    /// Everything on lines.
    Lines,
    /// Blocks, floats and lines.
    Flow,
}

/// Where the width of a box comes from that is as wide as its content.
#[derive(Copy, Clone, Debug, PartialEq, Eq, Structural)]
pub enum ContentWidth {
    /// The text.
    Text,
    /// The image.
    Image,
    /// What is inside, side by side.
    Sum,
    /// The columns of a grid.
    Columns,
    /// What is inside, side by side, with gaps between.
    Row,
    /// The widest box inside.
    Widest,
}

/// Where a size comes from.
#[derive(Copy, Clone, Debug)]
pub enum SizeSource<N> {
    /// The container asks for it.
    Forced(N),
    /// The style gives it.
    Given(LengthSpec<N>),
    /// Neither: it depends on the container or the content.
    Open,
}

/// Which margins at the left and right take up free space.
#[derive(Copy, Clone, Debug, PartialEq, Eq, Structural)]
pub enum AutoSides {
    Neither,
    Left,
    Right,
    Both,
}

/// Whether everything in the flow of a box can stand on lines.
pub open spec fn all_on_lines<N>(b: LayoutBox<N>) -> bool {
    forall|i: int|
        0 <= i < b.children@.len() && crate::layout::flows((#[trigger] b.children@[i]).position)
            ==> crate::layout::flow::is_line_content(b.children@[i])
}

/// How a box lays out what is inside it: texts and images by what they are, other
/// boxes by their style.
pub open spec fn layout_mode_of<N>(b: LayoutBox<N>) -> LayoutMode {
    if b.kind is Text {
        LayoutMode::Text
    } else if b.embedded_image is Some {
        LayoutMode::Image
    } else if b.is_flex {
        LayoutMode::Flex
    } else if b.is_grid {
        LayoutMode::Grid
    } else if b.is_table {
        LayoutMode::Table
    } else if b.is_inline && all_on_lines(b) {
        LayoutMode::Lines
    } else {
        LayoutMode::Flow
    }
}

/// Whether the columns of a grid are known without its width: they are listed, and
/// no list is repeated as often as it fits.
pub open spec fn columns_are_listed<N>(b: LayoutBox<N>) -> bool {
    b.grid_template_columns matches Some(tracks) && tracks@.len() > 0 && forall|i: int|
        0 <= i < tracks@.len() ==> !((#[trigger] tracks@[i]) is AutoRepeat)
}

/// Where the width of a box comes from that is as wide as its content.
pub open spec fn content_width_of<N>(b: LayoutBox<N>) -> ContentWidth {
    if b.kind is Text {
        ContentWidth::Text
    } else if b.embedded_image is Some {
        ContentWidth::Image
    } else if all_on_lines(b) {
        ContentWidth::Sum
    } else if b.is_grid && columns_are_listed(b) {
        ContentWidth::Columns
    } else if b.is_flex && crate::layout::flex::runs_along_rows(b.flex_direction) {
        ContentWidth::Row
    } else {
        ContentWidth::Widest
    }
}

/// Where a size comes from: the container goes before the style.
pub open spec fn source_of<N>(forced: Option<N>, given: Option<LengthSpec<N>>) -> SizeSource<N> {
    match (forced, given) {
        (Some(v), _) => SizeSource::Forced(v),
        (None, Some(spec)) => SizeSource::Given(spec),
        (None, None) => SizeSource::Open,
    }
}

/// Which margins at the left and right take up free space.
pub open spec fn auto_sides_of(e: EdgeAuto) -> AutoSides {
    match (e.left, e.right) {
        (true, true) => AutoSides::Both,
        (true, false) => AutoSides::Left,
        (false, true) => AutoSides::Right,
        (false, false) => AutoSides::Neither,
    }
}

/// Whether a grid item is as wide as its cell: it is stretched, or its width is
/// given and may be a share of the cell.
pub open spec fn cell_is_filled<N>(b: LayoutBox<N>, justify_items: Option<AlignItems>) -> bool {
    b.explicit_width is Some || boxes::value_or(
        b.justify_self,
        boxes::value_or(justify_items, AlignItems::Stretch),
    ) == AlignItems::Stretch
}

fn is_text<N>(b: &LayoutBox<N>) -> (r: bool)
    ensures
        r == (b.kind is Text),
{
    match &b.kind {
        BoxKind::Text(_) => true,
        _ => false,
    }
}

impl<N> LayoutBox<N> {
    /// How the box lays out what is inside it.
    pub fn layout_mode(&self) -> (r: LayoutMode)
        ensures
            r == layout_mode_of(*self),
    {
        if is_text(self) {
            LayoutMode::Text
        } else if self.embedded_image.is_some() {
            LayoutMode::Image
        } else if self.is_flex {
            LayoutMode::Flex
        } else if self.is_grid {
            LayoutMode::Grid
        } else if self.is_table {
            LayoutMode::Table
        } else if self.is_inline && inline_container_children_all_inline(self) {
            LayoutMode::Lines
        } else {
            LayoutMode::Flow
        }
    }

    /// Whether the columns of the box are known without its width.
    pub fn has_listed_columns(&self) -> (r: bool)
        ensures
            r == columns_are_listed(*self),
    {
        match &self.grid_template_columns {
            None => false,
            Some(tracks) => {
                let mut i: usize = 0;
                while i < tracks.len()
                    invariant
                        i <= tracks@.len(),
                        self.grid_template_columns == Some(*tracks),
                        forall|j: int| 0 <= j < i ==> !((#[trigger] tracks@[j]) is AutoRepeat),
                    decreases tracks@.len() - i,
                {
                    match &tracks[i] {
                        GridTrack::AutoRepeat(_) => {
                            assert(tracks@[i as int] is AutoRepeat);
                            return false;
                        },
                        _ => {},
                    }
                    i = i + 1;
                }
                tracks.len() > 0
            },
        }
    }

    /// Where the width of the box comes from when it is as wide as its content.
    pub fn content_width(&self) -> (r: ContentWidth)
        ensures
            r == content_width_of(*self),
    {
        if is_text(self) {
            ContentWidth::Text
        } else if self.embedded_image.is_some() {
            ContentWidth::Image
        } else if inline_container_children_all_inline(self) {
            ContentWidth::Sum
        } else if self.is_grid && self.has_listed_columns() {
            ContentWidth::Columns
        } else if self.is_flex && self.flex_direction.is_row() {
            ContentWidth::Row
        } else {
            ContentWidth::Widest
        }
    }

    /// Whether the box, a grid item, is as wide as its cell.
    pub fn fills_cell(&self, justify_items: Option<AlignItems>) -> (r: bool)
        ensures
            r == cell_is_filled(*self, justify_items),
    {
        let align: AlignItems = match self.justify_self {
            Some(own) => own,
            None => match justify_items {
                Some(common) => common,
                None => AlignItems::Stretch,
            },
        };
        self.explicit_width.is_some() || align == AlignItems::Stretch
    }
}

impl<N: Copy> LayoutBox<N> {
    /// Where the width of the box comes from.
    pub fn width_source(&self) -> (r: SizeSource<N>)
        ensures
            r == source_of(self.flex_override_width, self.explicit_width),
    {
        size_source(self.flex_override_width, self.explicit_width)
    }

    /// Where the height of the box comes from.
    pub fn height_source(&self) -> (r: SizeSource<N>)
        ensures
            r == source_of(self.flex_override_height, self.explicit_height),
    {
        size_source(self.flex_override_height, self.explicit_height)
    }
}

fn size_source<N>(forced: Option<N>, given: Option<LengthSpec<N>>) -> (r: SizeSource<N>)
    ensures
        r == source_of(forced, given),
{
    match forced {
        Some(v) => SizeSource::Forced(v),
        None => match given {
            Some(spec) => SizeSource::Given(spec),
            None => SizeSource::Open,
        },
    }
}

impl EdgeAuto {
    /// Which margins at the left and right take up free space.
    pub fn auto_sides(self) -> (r: AutoSides)
        ensures
            r == auto_sides_of(self),
    {
        if self.left {
            if self.right {
                AutoSides::Both
            } else {
                AutoSides::Left
            }
        } else if self.right {
            AutoSides::Right
        } else {
            AutoSides::Neither
        }
    }
}

/// A box that lays everything out on lines is, at its widest, as wide as what
/// stands on them side by side; texts and images are measured as what they are.
pub proof fn lines_are_as_wide_as_their_content<N>(b: LayoutBox<N>)
    ensures
        layout_mode_of(b) == LayoutMode::Lines ==> content_width_of(b) == ContentWidth::Sum,
        layout_mode_of(b) == LayoutMode::Text <==> content_width_of(b) == ContentWidth::Text,
        layout_mode_of(b) == LayoutMode::Image <==> content_width_of(b) == ContentWidth::Image,
{
}

/// What a box is goes before how it is styled: a text is laid out as words and an image
/// as an image whatever their style; of the styles, flex goes before grid and grid
/// before table; lines need a box that flows on lines with nothing but such boxes in
/// its flow.
pub proof fn modes_have_their_order<N>(b: LayoutBox<N>)
    ensures
        b.kind is Text ==> layout_mode_of(b) is Text,
        !(b.kind is Text) && b.embedded_image is Some ==> layout_mode_of(b) is Image,
        !(b.kind is Text) && b.embedded_image is None && b.is_flex ==> layout_mode_of(b) is Flex,
        !(b.kind is Text) && b.embedded_image is None && !b.is_flex && b.is_grid ==> layout_mode_of(
            b,
        ) is Grid,
        !(b.kind is Text) && b.embedded_image is None && !b.is_flex && !b.is_grid && b.is_table
            ==> layout_mode_of(b) is Table,
        layout_mode_of(b) is Lines ==> b.is_inline && forall|i: int|
            0 <= i < b.children@.len() && !((#[trigger] b.children@[i]).position is Absolute
                || b.children@[i].position is Fixed) ==> b.children@[i].is_inline
                || b.children@[i].kind is Text,
        !b.is_inline && !b.is_flex && !b.is_grid && !b.is_table && b.embedded_image is None && !(
        b.kind is Text) ==> layout_mode_of(b) is Flow,
{
}

/// A box without anything in its flow, or with nothing in it but what stands on lines,
/// is as wide as that side by side; otherwise a grid is as wide as its columns if they
/// are listed, a row as its items with their gaps, and anything else as the widest box.
pub proof fn content_gives_the_width<N>(b: LayoutBox<N>)
    requires
        !(b.kind is Text),
        b.embedded_image is None,
    ensures
        b.children@.len() == 0 ==> content_width_of(b) is Sum,
        content_width_of(b) is Columns ==> b.is_grid && b.grid_template_columns is Some,
        content_width_of(b) is Row ==> b.is_flex && (b.flex_direction is Row
            || b.flex_direction is RowReverse),
        !all_on_lines(b) && !b.is_grid && !b.is_flex ==> content_width_of(b) is Widest,
        !all_on_lines(b) && !b.is_grid && b.is_flex && (b.flex_direction is Column
            || b.flex_direction is ColumnReverse) ==> content_width_of(b) is Widest,
        !all_on_lines(b) && !b.is_grid && b.is_flex && (b.flex_direction is Row
            || b.flex_direction is RowReverse) ==> content_width_of(b) is Row,
{
}

/// The container goes before the style.
pub proof fn containers_go_before_styles<N>(forced: Option<N>, given: Option<LengthSpec<N>>)
    ensures
        forced matches Some(v) ==> source_of(forced, given) == SizeSource::Forced(v),
        forced is None ==> (given matches Some(spec) ==> source_of(forced, given)
            == SizeSource::Given(spec)),
        forced is None && given is None ==> source_of(forced, given) is Open,
{
}

/// Margins take up space on the sides that are automatic.
pub proof fn automatic_sides_take_up_space(e: EdgeAuto)
    ensures
        e.left == (auto_sides_of(e) is Left || auto_sides_of(e) is Both),
        e.right == (auto_sides_of(e) is Right || auto_sides_of(e) is Both),
{
}

/// What an item asks for goes before what its grid says; without either it is stretched,
/// and so fills its cell. A width of its own always counts.
pub proof fn items_fill_cells_unless_told<N>(b: LayoutBox<N>, common: Option<AlignItems>)
    ensures
        b.explicit_width is Some ==> cell_is_filled(b, common),
        b.explicit_width is None && b.justify_self is None && common is None ==> cell_is_filled(
            b,
            common,
        ),
        b.explicit_width is None && b.justify_self is Some ==> cell_is_filled(b, common) == (
        b.justify_self == Some(AlignItems::Stretch)),
        b.explicit_width is None && b.justify_self is None && common is Some ==> cell_is_filled(
            b,
            common,
        ) == (common == Some(AlignItems::Stretch)),
{
}

} // verus!
