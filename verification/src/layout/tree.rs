//! Boxes by what they are, and trees of boxes by where a point lies.
use vstd::prelude::*;

use crate::layout::boxes::LayoutBox;
use crate::layout::{BorderStyle, Color, FloatSide, Position};

verus! {

impl<N> LayoutBox<N> {
    /// The color of the border on a side: its own or that of all sides. Sides
    /// are counted from the top in the order of a clock.
    pub fn border_color_for(&self, side: usize) -> (r: Option<Color>)
        requires
            side < 4,
        ensures
            r == crate::layout::boxes::first_of(
                self.border_colors_per_side[side as int],
                self.border_color,
            ),
    {
        match self.border_colors_per_side[side] {
            Some(c) => Some(c),
            None => self.border_color,
        }
    }

    /// The style of the border on a side; solid where none is given.
    pub fn border_style_for(&self, side: usize) -> (r: BorderStyle)
        requires
            side < 4,
        ensures
            r == crate::layout::boxes::value_or(
                self.border_styles_per_side[side as int],
                BorderStyle::Solid,
            ),
    {
        match self.border_styles_per_side[side] {
            Some(s) => s,
            None => BorderStyle::Solid,
        }
    }

    /// Whether the box scrolls by itself on some axis.
    pub fn is_scroll_container(&self) -> (r: bool)
        ensures
            r == (crate::layout::scrolls(self.overflow_x) || crate::layout::scrolls(
                self.overflow_y,
            )),
    {
        self.overflow_x.is_scrollable() || self.overflow_y.is_scrollable()
    }
}

/// The width of the border on a side: nothing where there is no border, and
/// otherwise its own or that of all sides.
pub open spec fn border_width_of<N>(b: LayoutBox<N>, side: int, zero: N) -> N {
    match b.border_styles_per_side[side] {
        Some(s) if crate::layout::is_no_border(s) => zero,
        _ => crate::layout::boxes::value_or(b.border_widths_per_side[side], b.border_width_px),
    }
}

impl<N: Copy> LayoutBox<N> {
    /// The width of the border on a side.
    pub fn border_width_for(&self, side: usize, zero: N) -> (r: N)
        requires
            side < 4,
        ensures
            r == border_width_of(*self, side as int, zero),
    {
        if let Some(s) = self.border_styles_per_side[side] {
            if s.is_none() {
                return zero;
            }
        }
        match self.border_widths_per_side[side] {
            Some(w) => w,
            None => self.border_width_px,
        }
    }
}

/// A box that can be laid out once and used again where nothing has changed: a
/// plain block in the flow, with an identity.
pub open spec fn is_cacheable<N>(b: LayoutBox<N>) -> bool {
    &&& b.node_id is Some
    &&& !b.cache_ineligible
    &&& !b.is_inline
    &&& !b.is_inline_block
    &&& !b.is_table
    &&& !b.is_table_row
    &&& !b.is_table_cell
    &&& !b.is_table_row_group
    &&& b.float_side == FloatSide::NotFloated
    &&& b.flex_override_width is None
    &&& crate::layout::flows(b.position)
}

/// Whether a box can be laid out once and used again.
pub fn box_cacheable<N>(b: &LayoutBox<N>) -> (r: bool)
    ensures
        r == is_cacheable(*b),
{
    b.node_id.is_some() && !b.cache_ineligible && !b.is_inline && !b.is_inline_block && !b.is_table
        && !b.is_table_row && !b.is_table_cell && !b.is_table_row_group && b.float_side
        == FloatSide::NotFloated && b.flex_override_width.is_none() && b.position.is_in_flow()
}

/// The box floats, or one inside it does.
pub open spec fn has_floats<N>(b: LayoutBox<N>) -> bool
    decreases b,
{
    b.float_side != FloatSide::NotFloated || some_have_floats(b.children@)
}

/// One of the boxes floats, or one inside them does.
pub open spec fn some_have_floats<N>(boxes: Seq<LayoutBox<N>>) -> bool
    decreases boxes,
{
    if boxes.len() == 0 {
        false
    } else {
        has_floats(boxes.last()) || some_have_floats(boxes.drop_last())
    }
}

/// A box is larger than those inside it.
pub proof fn child_is_smaller<N>(b: LayoutBox<N>, i: int)
    requires
        0 <= i < b.children@.len(),
    ensures
        decreases_to!(b => b.children@[i]),
{
    assert(decreases_to!(b => b.children));
    assert(decreases_to!(b.children => b.children@));
    assert(decreases_to!(b.children@ => b.children@[i]));
}

proof fn float_among<N>(boxes: Seq<LayoutBox<N>>, i: int)
    requires
        0 <= i < boxes.len(),
        has_floats(boxes[i]),
    ensures
        some_have_floats(boxes),
    decreases boxes.len(),
{
    if i < boxes.len() - 1 {
        float_among(boxes.drop_last(), i);
    }
}

/// Whether a box floats, or one inside it does.
pub fn subtree_has_floats<N>(b: &LayoutBox<N>) -> (r: bool)
    ensures
        r == has_floats(*b),
    decreases b,
{
    if b.float_side != FloatSide::NotFloated {
        return true;
    }
    let mut i: usize = 0;
    assert(b.children@.take(0) =~= Seq::<LayoutBox<N>>::empty());
    while i < b.children.len()
        invariant
            i <= b.children@.len(),
            b.float_side == FloatSide::NotFloated,
            !some_have_floats(b.children@.take(i as int)),
        decreases b.children@.len() - i,
    {
        proof {
            child_is_smaller(*b, i as int);
        }
        if subtree_has_floats(&b.children[i]) {
            proof {
                float_among(b.children@, i as int);
            }
            return true;
        }
        proof {
            let more = b.children@.take(i + 1);
            assert(more.drop_last() =~= b.children@.take(i as int));
            assert(more.last() == b.children@[i as int]);
        }
        i = i + 1;
    }
    assert(b.children@.take(i as int) =~= b.children@);
    false
}

/// The way from a box to the first one inside with an identity, a box before
/// those inside it: the place among its siblings of each box on the way.
pub open spec fn way_to<N>(b: LayoutBox<N>, id: u64) -> Option<Seq<usize>>
    decreases b, b.children@.len() + 1,
{
    if b.node_id == Some(id) {
        Some(Seq::empty())
    } else {
        way_among(b, id, b.children@.len())
    }
}

/// The way to the first box with an identity inside one of the first `n`
/// children.
pub open spec fn way_among<N>(b: LayoutBox<N>, id: u64, n: nat) -> Option<Seq<usize>>
    decreases b, n,
{
    if n == 0 || n > b.children@.len() {
        None
    } else {
        proof {
            child_is_smaller(b, n - 1);
        }
        match way_among(b, id, (n - 1) as nat) {
            Some(way) => Some(way),
            None => match way_to(b.children@[n - 1], id) {
                Some(way) => Some(seq![(n - 1) as usize] + way),
                None => None,
            },
        }
    }
}

proof fn way_stays<N>(b: LayoutBox<N>, id: u64, n: nat, m: nat)
    requires
        n <= m <= b.children@.len(),
        way_among(b, id, n) is Some,
    ensures
        way_among(b, id, m) == way_among(b, id, n),
    decreases m,
{
    if n < m {
        way_stays(b, id, n, (m - 1) as nat);
    }
}

/// Finds the way to the box with an identity.
pub fn path_to_node<N>(b: &LayoutBox<N>, id: u64) -> (r: Option<Vec<usize>>)
    ensures
        match r {
            Some(way) => way_to(*b, id) == Some(way@),
            None => way_to(*b, id) is None,
        },
    decreases b,
{
    if let Some(own) = b.node_id {
        if own == id {
            let way: Vec<usize> = Vec::new();
            assert(way@ =~= Seq::<usize>::empty());
            return Some(way);
        }
    }
    let mut i: usize = 0;
    while i < b.children.len()
        invariant
            i <= b.children@.len(),
            b.node_id != Some(id),
            way_among(*b, id, i as nat) is None,
        decreases b.children@.len() - i,
    {
        proof {
            child_is_smaller(*b, i as int);
        }
        if let Some(rest) = path_to_node(&b.children[i], id) {
            let mut way: Vec<usize> = Vec::new();
            way.push(i);
            let mut k: usize = 0;
            while k < rest.len()
                invariant
                    k <= rest@.len(),
                    way@ =~= seq![i] + rest@.take(k as int),
                decreases rest@.len() - k,
            {
                way.push(rest[k]);
                k = k + 1;
            }
            proof {
                assert(rest@.take(k as int) =~= rest@);
                way_stays(*b, id, (i + 1) as nat, b.children@.len());
            }
            return Some(way);
        }
        i = i + 1;
    }
    None
}

/// Finds the first box with an identity, a box before those inside it.
pub fn find_box_by_node_id<N>(b: &LayoutBox<N>, id: u64) -> (r: Option<&LayoutBox<N>>)
    ensures
        match r {
            Some(found) => found_by(*b, id) == Some(*found),
            None => found_by(*b, id) is None,
        },
    decreases b,
{
    if let Some(own) = b.node_id {
        if own == id {
            return Some(b);
        }
    }
    let mut i: usize = 0;
    while i < b.children.len()
        invariant
            i <= b.children@.len(),
            b.node_id != Some(id),
            found_among(*b, id, i as nat) is None,
        decreases b.children@.len() - i,
    {
        proof {
            child_is_smaller(*b, i as int);
        }
        if let Some(found) = find_box_by_node_id(&b.children[i], id) {
            proof {
                found_stays(*b, id, (i + 1) as nat, b.children@.len());
            }
            return Some(found);
        }
        i = i + 1;
    }
    None
}

/// The first box with an identity, a box before those inside it.
pub open spec fn found_by<N>(b: LayoutBox<N>, id: u64) -> Option<LayoutBox<N>>
    decreases b, b.children@.len() + 1,
{
    if b.node_id == Some(id) {
        Some(b)
    } else {
        found_among(b, id, b.children@.len())
    }
}

/// The first box with an identity inside one of the first `n` children.
pub open spec fn found_among<N>(b: LayoutBox<N>, id: u64, n: nat) -> Option<LayoutBox<N>>
    decreases b, n,
{
    if n == 0 || n > b.children@.len() {
        None
    } else {
        proof {
            child_is_smaller(b, n - 1);
        }
        match found_among(b, id, (n - 1) as nat) {
            Some(found) => Some(found),
            None => found_by(b.children@[n - 1], id),
        }
    }
}

proof fn found_stays<N>(b: LayoutBox<N>, id: u64, n: nat, m: nat)
    requires
        n <= m <= b.children@.len(),
        found_among(b, id, n) is Some,
    ensures
        found_among(b, id, m) == found_among(b, id, n),
    decreases m,
{
    if n < m {
        found_stays(b, id, n, (m - 1) as nat);
    }
}

/// What is found has the identity that was looked for.
pub proof fn found_boxes_have_their_identity<N>(b: LayoutBox<N>, id: u64)
    ensures
        found_by(b, id) matches Some(found) ==> found.node_id == Some(id),
    decreases b, b.children@.len() + 1,
{
    if b.node_id != Some(id) {
        found_among_have(b, id, b.children@.len());
    }
}

proof fn found_among_have<N>(b: LayoutBox<N>, id: u64, n: nat)
    requires
        n <= b.children@.len(),
    ensures
        found_among(b, id, n) matches Some(found) ==> found.node_id == Some(id),
    decreases b, n,
{
    if n > 0 {
        found_among_have(b, id, (n - 1) as nat);
        child_is_smaller(b, n - 1);
        found_boxes_have_their_identity(b.children@[n - 1], id);
    }
}

/// Only plain blocks in the flow that have an identity are laid out once and used again.
pub proof fn kept_boxes_are_plain_blocks<N>(b: LayoutBox<N>)
    requires
        is_cacheable(b),
    ensures
        b.node_id is Some,
        !b.cache_ineligible,
        crate::layout::flow::kind_of(b) is Block,
        !b.is_table && !b.is_table_row && !b.is_table_cell && !b.is_table_row_group,
        b.flex_override_width is None,
{
}

/// A side without a border has no width, whatever is said of it; otherwise what a side
/// says of itself goes before what is said of all.
pub proof fn borders_have_their_width<N>(b: LayoutBox<N>, side: int, zero: N)
    requires
        0 <= side < 4,
    ensures
        b.border_styles_per_side[side] == Some(BorderStyle::NoBorder)
            || b.border_styles_per_side[side] == Some(BorderStyle::Hidden) ==> border_width_of(
            b,
            side,
            zero,
        ) == zero,
        b.border_styles_per_side[side] is None || b.border_styles_per_side[side] == Some(
            BorderStyle::Solid,
        ) ==> {
            &&& b.border_widths_per_side[side] matches Some(w) ==> border_width_of(b, side, zero)
                == w
            &&& b.border_widths_per_side[side] is None ==> border_width_of(b, side, zero)
                == b.border_width_px
        },
{
}

/// The box at the end of a way, if it leads to one.
pub open spec fn box_at<N>(b: LayoutBox<N>, way: Seq<usize>) -> Option<LayoutBox<N>>
    decreases way.len(),
{
    if way.len() == 0 {
        Some(b)
    } else if way[0] < b.children@.len() {
        box_at(b.children@[way[0] as int], way.skip(1))
    } else {
        None
    }
}

/// The way to a box that is looked for leads to the box that is found; there is no way
/// where none is found.
pub proof fn ways_lead_to_the_box_found<N>(b: LayoutBox<N>, id: u64)
    ensures
        way_to(b, id) matches Some(way) ==> found_by(b, id) is Some && box_at(b, way) == found_by(
            b,
            id,
        ),
        way_to(b, id) is None ==> found_by(b, id) is None,
    decreases b, b.children@.len() + 1,
{
    if b.node_id != Some(id) {
        ways_among_lead(b, id, b.children@.len());
    }
}

proof fn ways_among_lead<N>(b: LayoutBox<N>, id: u64, n: nat)
    requires
        n <= b.children@.len(),
    ensures
        way_among(b, id, n) matches Some(way) ==> found_among(b, id, n) is Some && box_at(b, way)
            == found_among(b, id, n),
        way_among(b, id, n) is None ==> found_among(b, id, n) is None,
    decreases b, n,
{
    if n > 0 {
        ways_among_lead(b, id, (n - 1) as nat);
        child_is_smaller(b, n - 1);
        let child = b.children@[n - 1];
        ways_lead_to_the_box_found(child, id);
        assert(b.children@.len() == b.children.len());
        if let Some(way) = way_to(child, id) {
            let whole = seq![(n - 1) as usize] + way;
            assert(whole.skip(1) =~= way);
            assert(whole[0] == n - 1);
        }
    }
}

/// A box with the identity that is looked for is not missed, wherever it is; nor is a
/// box that floats.
pub proof fn no_box_is_missed<N>(b: LayoutBox<N>, way: Seq<usize>, id: u64)
    requires
        box_at(b, way) is Some,
    ensures
        box_at(b, way)->0.node_id == Some(id) ==> way_to(b, id) is Some,
        box_at(b, way)->0.float_side != FloatSide::NotFloated ==> has_floats(b),
    decreases way.len(),
{
    if way.len() > 0 {
        let i = way[0] as int;
        no_box_is_missed(b.children@[i], way.skip(1), id);
        if b.node_id != Some(id) && way_to(b.children@[i], id) is Some {
            assert(way_among(b, id, (i + 1) as nat) is Some);
            way_stays(b, id, (i + 1) as nat, b.children@.len());
        }
        if has_floats(b.children@[i]) {
            float_among(b.children@, i);
        }
    }
}

} // verus!
