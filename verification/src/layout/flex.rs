//! Flex containers and positioned boxes: which way, in which order and against
//! which edge things are placed.
use vstd::prelude::*;

use crate::layout::boxes::LayoutBox;
use crate::layout::{AlignItems, EdgeAuto, FlexDirection, FlexWrap, JustifyContent, Position};

verus! {

/// The main axis runs along lines of text.
pub open spec fn runs_along_rows(d: FlexDirection) -> bool {
    d == FlexDirection::Row || d == FlexDirection::RowReverse
}

/// The main axis runs against the order of the document.
pub open spec fn runs_backwards(d: FlexDirection) -> bool {
    d == FlexDirection::RowReverse || d == FlexDirection::ColumnReverse
}

impl FlexDirection {
    /// Whether the main axis runs along lines of text.
    pub fn is_row(self) -> (r: bool)
        ensures
            r == runs_along_rows(self),
    {
        self == FlexDirection::Row || self == FlexDirection::RowReverse
    }

    /// Whether the main axis runs against the order of the document.
    pub fn is_reversed(self) -> (r: bool)
        ensures
            r == runs_backwards(self),
    {
        self == FlexDirection::RowReverse || self == FlexDirection::ColumnReverse
    }
}

impl FlexWrap {
    /// Whether items are broken into lines.
    pub fn wraps(self) -> (r: bool)
        ensures
            r == (self != FlexWrap::NoWrap),
    {
        self != FlexWrap::NoWrap
    }
}

impl<N: Copy> LayoutBox<N> {
    /// The gap between items along the main axis.
    pub fn main_gap(&self) -> (r: N)
        ensures
            r == if runs_along_rows(self.flex_direction) {
                self.column_gap_px
            } else {
                self.row_gap_px
            },
    {
        if self.flex_direction.is_row() {
            self.column_gap_px
        } else {
            self.row_gap_px
        }
    }

    /// The gap between lines of items.
    pub fn cross_gap(&self) -> (r: N)
        ensures
            r == if runs_along_rows(self.flex_direction) {
                self.row_gap_px
            } else {
                self.column_gap_px
            },
    {
        if self.flex_direction.is_row() {
            self.row_gap_px
        } else {
            self.column_gap_px
        }
    }

    /// Whether the height is known before the content is laid out.
    pub fn has_definite_height(&self) -> (r: bool)
        ensures
            r == (self.flex_override_height is Some || self.explicit_height is Some),
    {
        self.flex_override_height.is_some() || self.explicit_height.is_some()
    }
}

/// The places of the boxes in the flow among the first `n`.
pub open spec fn flow_indices<N>(children: Seq<LayoutBox<N>>, n: int) -> Seq<usize>
    decreases n,
{
    if n <= 0 {
        Seq::empty()
    } else if crate::layout::flows(children[n - 1].position) {
        flow_indices(children, n - 1).push((n - 1) as usize)
    } else {
        flow_indices(children, n - 1)
    }
}

/// The places of the boxes in the flow, in order.
pub fn in_flow_indices<N>(children: &[LayoutBox<N>]) -> (r: Vec<usize>)
    ensures
        r@ == flow_indices(children@, children@.len() as int),
        forall|k: int| 0 <= k < r@.len() ==> #[trigger] r@[k] < children@.len(),
{
    let mut out: Vec<usize> = Vec::new();
    let mut i: usize = 0;
    assert(out@ =~= Seq::<usize>::empty());
    while i < children.len()
        invariant
            i <= children@.len(),
            out@ == flow_indices(children@, i as int),
            forall|k: int| 0 <= k < out@.len() ==> #[trigger] out@[k] < i,
        decreases children@.len() - i,
    {
        if children[i].position.is_in_flow() {
            out.push(i);
        }
        i = i + 1;
    }
    out
}

/// How many sides along a row have an automatic margin.
pub open spec fn auto_sides(m: EdgeAuto) -> int {
    (if m.left {
        1int
    } else {
        0
    }) + (if m.right {
        1int
    } else {
        0
    })
}

/// The automatic margins of the first `n` items along a row.
pub open spec fn auto_slots<N>(children: Seq<LayoutBox<N>>, items: Seq<usize>, n: int) -> int
    decreases n,
{
    if n <= 0 {
        0
    } else {
        auto_slots(children, items, n - 1) + auto_sides(children[items[n - 1] as int].margin_auto)
    }
}

/// Counts the automatic margins of items along a row. They take up the space
/// that is left over before it is distributed in any other way.
pub fn flex_row_auto_margin_slots<N>(children: &[LayoutBox<N>], items: &[usize]) -> (r: u128)
    requires
        forall|k: int| 0 <= k < items@.len() ==> #[trigger] items@[k] < children@.len(),
    ensures
        r == auto_slots(children@, items@, items@.len() as int),
{
    let mut n: u128 = 0;
    let mut k: usize = 0;
    while k < items.len()
        invariant
            k <= items@.len(),
            forall|j: int| 0 <= j < items@.len() ==> #[trigger] items@[j] < children@.len(),
            n == auto_slots(children@, items@, k as int),
            n <= 2 * k,
        decreases items@.len() - k,
    {
        let m: EdgeAuto = children[items[k]].margin_auto;
        if m.left {
            n = n + 1;
        }
        if m.right {
            n = n + 1;
        }
        k = k + 1;
    }
    n
}

/// Where the space goes that items leave over along the main axis.
#[derive(Copy, Clone, Debug, PartialEq, Eq, Structural)]
pub enum Packing {
    Start,
    End,
    Center,
    /// Into the given number of gaps between the items.
    Between(usize),
    /// Around the given number of items, half as much at the ends.
    Around(usize),
    /// Into the given number of gaps, those at the ends among them.
    Evenly(u128),
}

/// Where the space goes that `items` items leave over. Automatic margins take it
/// all, and a single item has no gaps.
pub open spec fn packing_of(justify: JustifyContent, auto_margins: bool, items: int) -> Packing {
    let n = if items > 1 {
        items
    } else {
        1
    };
    if auto_margins {
        Packing::Start
    } else {
        match justify {
            JustifyContent::Start => Packing::Start,
            JustifyContent::End => Packing::End,
            JustifyContent::Center => Packing::Center,
            JustifyContent::SpaceBetween => if n > 1 {
                Packing::Between((n - 1) as usize)
            } else {
                Packing::Start
            },
            JustifyContent::SpaceAround => Packing::Around(n as usize),
            JustifyContent::SpaceEvenly => Packing::Evenly((n + 1) as u128),
        }
    }
}

/// Where the space goes that items leave over.
pub fn packing(justify: JustifyContent, auto_margins: bool, items: usize) -> (r: Packing)
    ensures
        r == packing_of(justify, auto_margins, items as int),
{
    let n: usize = if items > 1 {
        items
    } else {
        1
    };
    if auto_margins {
        return Packing::Start;
    }
    match justify {
        JustifyContent::Start => Packing::Start,
        JustifyContent::End => Packing::End,
        JustifyContent::Center => Packing::Center,
        JustifyContent::SpaceBetween => if n > 1 {
            Packing::Between(n - 1)
        } else {
            Packing::Start
        },
        JustifyContent::SpaceAround => Packing::Around(n),
        JustifyContent::SpaceEvenly => Packing::Evenly(n as u128 + 1),
    }
}

/// The sides of an item that come first and last along a row have an automatic
/// margin.
pub open spec fn auto_ends(m: EdgeAuto, reverse: bool) -> (bool, bool) {
    if reverse {
        (m.right, m.left)
    } else {
        (m.left, m.right)
    }
}

impl EdgeAuto {
    /// Whether the sides that come first and last along a row are automatic.
    pub fn leading_and_trailing(self, reverse: bool) -> (r: (bool, bool))
        ensures
            r == auto_ends(self, reverse),
    {
        if reverse {
            (self.right, self.left)
        } else {
            (self.left, self.right)
        }
    }
}

/// Where an item stands across the main axis.
#[derive(Copy, Clone, Debug, PartialEq, Eq, Structural)]
pub enum CrossAnchor {
    Start,
    Center,
    End,
}

/// Where an item stands across the main axis. Stretched items, and those aligned
/// by their baseline, stand at the start.
pub open spec fn cross_anchor_of(align: AlignItems) -> CrossAnchor {
    match align {
        AlignItems::Center => CrossAnchor::Center,
        AlignItems::End => CrossAnchor::End,
        AlignItems::Start => CrossAnchor::Start,
        AlignItems::Stretch => CrossAnchor::Start,
        AlignItems::Baseline => CrossAnchor::Start,
    }
}

impl AlignItems {
    /// Where an item stands across the main axis.
    pub fn cross_anchor(self) -> (r: CrossAnchor)
        ensures
            r == cross_anchor_of(self),
    {
        match self {
            AlignItems::Center => CrossAnchor::Center,
            AlignItems::End => CrossAnchor::End,
            AlignItems::Start => CrossAnchor::Start,
            AlignItems::Stretch => CrossAnchor::Start,
            AlignItems::Baseline => CrossAnchor::Start,
        }
    }

    /// Whether an item fills its line, if it has no size of its own.
    pub fn stretches(self, sized: bool) -> (r: bool)
        ensures
            r == (self == AlignItems::Stretch && !sized),
    {
        self == AlignItems::Stretch && !sized
    }

    /// What an item asks for, or else what its container says.
    pub fn for_item(self, own: Option<AlignItems>) -> (r: AlignItems)
        ensures
            r == crate::layout::boxes::value_or(own, self),
    {
        match own {
            Some(a) => a,
            None => self,
        }
    }
}

/// What the base size of an item in a column is a part of.
#[derive(Copy, Clone, Debug, PartialEq, Eq, Structural)]
pub enum ColumnBasis {
    /// The item has no base size, and takes that of its content.
    Content,
    /// The base size is resolved against the height of the container.
    Container,
    /// The base size is resolved against the space around the container.
    Space,
}

/// What the base size of an item in a column is a part of, if it has one:
/// `percent` tells whether it is given in percent. It counts only where the item
/// has no height of its own and that of the container is known.
pub open spec fn column_basis_of(
    sized: bool,
    percent: Option<bool>,
    definite: bool,
) -> ColumnBasis {
    match percent {
        Some(p) if !sized && definite => if p {
            ColumnBasis::Container
        } else {
            ColumnBasis::Space
        },
        _ => ColumnBasis::Content,
    }
}

/// What the base size of an item in a column is a part of.
pub fn column_basis(sized: bool, percent: Option<bool>, definite: bool) -> (r: ColumnBasis)
    ensures
        r == column_basis_of(sized, percent, definite),
{
    match percent {
        Some(p) => if !sized && definite {
            if p {
                ColumnBasis::Container
            } else {
                ColumnBasis::Space
            }
        } else {
            ColumnBasis::Content
        },
        None => ColumnBasis::Content,
    }
}

/// How many items can still grow.
pub open spec fn unfrozen(frozen: Seq<bool>) -> int
    decreases frozen.len(),
{
    if frozen.len() == 0 {
        0
    } else {
        unfrozen(frozen.drop_last()) + if frozen.last() {
            0int
        } else {
            1
        }
    }
}

proof fn freezing_one(frozen: Seq<bool>, i: int)
    requires
        0 <= i < frozen.len(),
        !frozen[i],
    ensures
        unfrozen(frozen.update(i, true)) == unfrozen(frozen) - 1,
    decreases frozen.len(),
{
    let after = frozen.update(i, true);
    if i == frozen.len() - 1 {
        assert(after.drop_last() =~= frozen.drop_last());
    } else {
        assert(after.drop_last() =~= frozen.drop_last().update(i, true));
        freezing_one(frozen.drop_last(), i);
    }
}

proof fn unfrozen_bound(frozen: Seq<bool>)
    ensures
        0 <= unfrozen(frozen) <= frozen.len(),
    decreases frozen.len(),
{
    if frozen.len() > 0 {
        unfrozen_bound(frozen.drop_last());
    }
}

/// Freezes the items that have grown as far as they can. Returns whether there
/// were any, in which case fewer are left.
pub fn freeze(frozen: &mut Vec<bool>, full: &[usize]) -> (r: bool)
    requires
        forall|k: int|
            0 <= k < full@.len() ==> #[trigger] full@[k] < old(frozen)@.len() && !old(
                frozen,
            )@[full@[k] as int],
    ensures
        r == (full@.len() > 0),
        final(frozen)@.len() == old(frozen)@.len(),
        forall|i: int|
            0 <= i < old(frozen)@.len() ==> (#[trigger] final(frozen)@[i] <==> old(frozen)@[i]
                || exists|k: int| 0 <= k < full@.len() && #[trigger] full@[k] == i),
        r ==> 0 <= unfrozen(final(frozen)@) < unfrozen(old(frozen)@),
{
    let mut k: usize = 0;
    while k < full.len()
        invariant
            k <= full@.len(),
            frozen@.len() == old(frozen)@.len(),
            forall|j: int|
                0 <= j < full@.len() ==> #[trigger] full@[j] < old(frozen)@.len() && !old(
                    frozen,
                )@[full@[j] as int],
            forall|i: int|
                0 <= i < old(frozen)@.len() ==> (#[trigger] frozen@[i] <==> old(frozen)@[i]
                    || exists|j: int| 0 <= j < k && #[trigger] full@[j] == i),
            unfrozen(frozen@) <= unfrozen(old(frozen)@),
            k > 0 ==> unfrozen(frozen@) < unfrozen(old(frozen)@),
        decreases full@.len() - k,
    {
        let i: usize = full[k];
        let ghost before = frozen@;
        if !frozen[i] {
            frozen.set(i, true);
            proof {
                freezing_one(before, i as int);
            }
        }
        assert(frozen@ =~= before.update(i as int, true));
        assert forall|x: int| 0 <= x < old(frozen)@.len() implies (#[trigger] frozen@[x] <==> old(
            frozen,
        )@[x] || exists|j: int| 0 <= j < k + 1 && #[trigger] full@[j] == x) by {
            if x == i {
                assert(full@[k as int] == x);
            } else if exists|j: int| 0 <= j < k + 1 && #[trigger] full@[j] == x {
                let j = choose|j: int| 0 <= j < k + 1 && #[trigger] full@[j] == x;
                assert(j < k);
            }
        }
        k = k + 1;
    }
    proof {
        unfrozen_bound(frozen@);
    }
    full.len() > 0
}

/// Which edge of its containing block a positioned box is measured from.
#[derive(Copy, Clone, Debug, PartialEq, Eq, Structural)]
pub enum OffsetFrom {
    Start,
    End,
    Neither,
}

/// What the size of a positioned box is.
#[derive(Copy, Clone, Debug, PartialEq, Eq, Structural)]
pub enum AxisSize {
    /// Its own.
    Given,
    /// What lies between the two edges.
    Between,
    /// What its content needs.
    Content,
}

/// How a positioned box is placed along an axis.
#[derive(Copy, Clone, Debug, PartialEq, Eq, Structural)]
pub struct AxisPlan {
    pub from: OffsetFrom,
    pub size: AxisSize,
    /// The far edge of the box, not the near one, is at the offset.
    pub far_edge: bool,
}

/// How a positioned box is placed along an axis: whether it says how far it is
/// from the start and from the end, and whether it has a size of its own. The
/// start wins.
pub open spec fn axis_plan_of(start: bool, end: bool, sized: bool) -> AxisPlan {
    AxisPlan {
        from: if start {
            OffsetFrom::Start
        } else if end {
            OffsetFrom::End
        } else {
            OffsetFrom::Neither
        },
        size: if sized {
            AxisSize::Given
        } else if start && end {
            AxisSize::Between
        } else {
            AxisSize::Content
        },
        far_edge: !start && end,
    }
}

/// How a positioned box is placed along an axis.
pub fn axis_plan(start: bool, end: bool, sized: bool) -> (r: AxisPlan)
    ensures
        r == axis_plan_of(start, end, sized),
{
    AxisPlan {
        from: if start {
            OffsetFrom::Start
        } else if end {
            OffsetFrom::End
        } else {
            OffsetFrom::Neither
        },
        size: if sized {
            AxisSize::Given
        } else if start && end {
            AxisSize::Between
        } else {
            AxisSize::Content
        },
        far_edge: !start && end,
    }
}

impl Position {
    /// Whether a box is moved from its place in the flow by its offsets.
    pub fn is_shifted(self) -> (r: bool)
        ensures
            r == (self == Position::Relative || self == Position::Sticky),
    {
        self == Position::Relative || self == Position::Sticky
    }
}

/// Only boxes in the flow are moved from their place in it.
pub proof fn shifted_boxes_are_in_flow(p: Position)
    requires
        p == Position::Relative || p == Position::Sticky,
    ensures
        crate::layout::flows(p),
{
}

/// The places of the boxes in the flow come in order, each once, and no others.
pub proof fn boxes_in_flow_are_listed<N>(children: Seq<LayoutBox<N>>, n: int, i: int)
    requires
        0 <= i < n <= children.len() <= usize::MAX,
    ensures
        flow_indices(children, n).contains(i as usize) <==> !(children[i].position is Absolute
            || children[i].position is Fixed),
        forall|a: int, b: int|
            0 <= a < b < flow_indices(children, n).len() ==> #[trigger] flow_indices(children, n)[a]
                < #[trigger] flow_indices(children, n)[b],
        forall|a: int|
            0 <= a < flow_indices(children, n).len() ==> 0 <= #[trigger] flow_indices(
                children,
                n,
            )[a] < n,
    decreases n,
{
    let before = flow_indices(children, n - 1);
    if n > 1 {
        boxes_in_flow_are_listed(
            children,
            n - 1,
            if i < n - 1 {
                i
            } else {
                0
            },
        );
    } else {
        reveal_with_fuel(flow_indices, 2);
    }
    let all = flow_indices(children, n);
    if crate::layout::flows(children[n - 1].position) {
        assert(all == before.push((n - 1) as usize));
        assert(all[before.len() as int] == n - 1);
        if i < n - 1 {
            if before.contains(i as usize) {
                let k = choose|k: int| 0 <= k < before.len() && before[k] == i as usize;
                assert(all[k] == i as usize);
            }
            if all.contains(i as usize) {
                let k = choose|k: int| 0 <= k < all.len() && all[k] == i as usize;
                assert(before[k] == i as usize);
            }
        }
    } else {
        assert(all == before);
        if i == n - 1 && all.contains(i as usize) {
            let k = choose|k: int| 0 <= k < all.len() && all[k] == i as usize;
            assert(all[k] < n - 1);
        }
    }
}

/// Each item has as many automatic margins along a row as it has automatic sides there,
/// and they add up.
pub proof fn automatic_margins_add_up<N>(
    children: Seq<LayoutBox<N>>,
    items: Seq<usize>,
    n: int,
    s: int,
)
    requires
        0 <= n <= items.len(),
        0 <= s <= 2,
        forall|k: int|
            0 <= k < n ==> ({
                let m = children[#[trigger] items[k] as int].margin_auto;
                &&& s == 2 ==> m.left && m.right
                &&& s == 1 ==> m.left != m.right
                &&& s == 0 ==> !m.left && !m.right
            }),
    ensures
        auto_slots(children, items, n) == s * n,
    decreases n,
{
    if n > 0 {
        automatic_margins_add_up(children, items, n - 1, s);
        let m = children[items[n - 1] as int].margin_auto;
        assert(s * n == s * (n - 1) + s) by (nonlinear_arith);
    } else {
        assert(s * 0 == 0);
    }
}

/// The space that items leave over is shared out as the container asks: between the
/// items there is one gap less than there are items, evenly one more. Automatic margins
/// take all of it, and a single item has no gap to its neighbours.
pub proof fn free_space_is_shared_out(justify: JustifyContent, items: int)
    requires
        1 <= items <= usize::MAX,
    ensures
        packing_of(justify, true, items) == Packing::Start,
        packing_of(JustifyContent::Start, false, items) == Packing::Start,
        packing_of(JustifyContent::End, false, items) == Packing::End,
        packing_of(JustifyContent::Center, false, items) == Packing::Center,
        items > 1 ==> (packing_of(JustifyContent::SpaceBetween, false, items) matches
            Packing::Between(gaps) && gaps + 1 == items),
        items == 1 ==> packing_of(JustifyContent::SpaceBetween, false, items) == Packing::Start,
        packing_of(JustifyContent::SpaceAround, false, items) matches Packing::Around(n) && n
            == items,
        packing_of(JustifyContent::SpaceEvenly, false, items) matches Packing::Evenly(gaps) && gaps
            == items + 1,
{
}

/// Going backwards turns the ends around; forwards the left one comes first.
pub proof fn reversing_turns_the_ends_around(m: EdgeAuto)
    ensures
        auto_ends(m, false).0 == m.left,
        auto_ends(m, false).1 == m.right,
        auto_ends(m, true).0 == auto_ends(m, false).1,
        auto_ends(m, true).1 == auto_ends(m, false).0,
{
}

/// Each direction and its reverse run along the same axis; rows and columns do not.
pub proof fn directions_have_their_axis(d: FlexDirection)
    ensures
        runs_along_rows(d) == (d is Row || d is RowReverse),
        runs_along_rows(d) != (d is Column || d is ColumnReverse),
        runs_backwards(d) == (d is RowReverse || d is ColumnReverse),
{
}

/// Items stand at the end or in the middle only where they ask for it.
pub proof fn items_stand_where_they_ask(align: AlignItems)
    ensures
        (cross_anchor_of(align) is End) == (align is End),
        (cross_anchor_of(align) is Center) == (align is Center),
{
}

/// A base size counts only for an item without a height of its own in a container whose
/// height is known; percents are then of that height.
pub proof fn base_sizes_count_where_they_can(sized: bool, percent: Option<bool>, definite: bool)
    ensures
        sized ==> column_basis_of(sized, percent, definite) is Content,
        !definite ==> column_basis_of(sized, percent, definite) is Content,
        percent is None ==> column_basis_of(sized, percent, definite) is Content,
        !sized && definite && percent == Some(true) ==> column_basis_of(
            sized,
            percent,
            definite,
        ) is Container,
        !sized && definite && percent == Some(false) ==> column_basis_of(
            sized,
            percent,
            definite,
        ) is Space,
{
}

/// A positioned box is measured from the start if it says how far it is from there, and
/// otherwise from the end if it says so; then its far edge lies at the offset. It lies
/// between the two edges only where it says how far it is from both and has no size.
pub proof fn offsets_place_boxes(start: bool, end: bool, sized: bool)
    ensures
        start ==> axis_plan_of(start, end, sized).from is Start,
        !start && end ==> axis_plan_of(start, end, sized).from is End,
        !start && !end ==> axis_plan_of(start, end, sized).from is Neither,
        axis_plan_of(start, end, sized).far_edge == (axis_plan_of(start, end, sized).from is End),
        sized ==> axis_plan_of(start, end, sized).size is Given,
        !sized && start && end ==> axis_plan_of(start, end, sized).size is Between,
        !sized && !(start && end) ==> axis_plan_of(start, end, sized).size is Content,
{
}

} // verus!
