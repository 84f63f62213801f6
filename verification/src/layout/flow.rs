//! Normal flow: blocks, floats and lines.
use vstd::prelude::*;

use crate::layout::boxes::LayoutBox;
use crate::layout::{BoxKind, FloatSide, TextAlign, VerticalAlign};

verus! {

/// How a box takes part in the flow of its parent.
#[derive(Copy, Clone, Debug, PartialEq, Eq, Structural)]
pub enum ChildKind {
    /// Placed against its containing block, and takes up no space.
    OutOfFlow,
    /// On a line of its own.
    Block,
    /// On a line with others.
    Inline,
    /// At the side, with the flow around it.
    Float,
}

/// How a box takes part in the flow of its parent.
pub open spec fn kind_of<N>(b: LayoutBox<N>) -> ChildKind {
    if !crate::layout::flows(b.position) {
        ChildKind::OutOfFlow
    } else if b.float_side != FloatSide::NotFloated {
        ChildKind::Float
    } else if b.is_inline {
        ChildKind::Inline
    } else {
        ChildKind::Block
    }
}

impl<N> LayoutBox<N> {
    /// How the box takes part in the flow of its parent.
    pub fn child_kind(&self) -> (r: ChildKind)
        ensures
            r == kind_of(*self),
    {
        if !self.position.is_in_flow() {
            ChildKind::OutOfFlow
        } else if self.float_side != FloatSide::NotFloated {
            ChildKind::Float
        } else if self.is_inline {
            ChildKind::Inline
        } else {
            ChildKind::Block
        }
    }
}

/// How each box takes part in the flow of its parent.
pub open spec fn kinds_of<N>(children: Seq<LayoutBox<N>>) -> Seq<ChildKind> {
    children.map_values(|b: LayoutBox<N>| kind_of(b))
}

/// A box in the flow that can stand on a line with others.
pub open spec fn is_line_content<N>(b: LayoutBox<N>) -> bool {
    b.is_inline || b.kind is Text
}

/// Whether everything in the flow of a box can stand on lines.
pub fn inline_container_children_all_inline<N>(b: &LayoutBox<N>) -> (r: bool)
    ensures
        r == forall|i: int|
            0 <= i < b.children@.len() && crate::layout::flows((#[trigger] b.children@[i]).position)
                ==> is_line_content(b.children@[i]),
{
    let mut i: usize = 0;
    while i < b.children.len()
        invariant
            i <= b.children@.len(),
            forall|j: int|
                0 <= j < i && crate::layout::flows((#[trigger] b.children@[j]).position)
                    ==> is_line_content(b.children@[j]),
        decreases b.children@.len() - i,
    {
        let c: &LayoutBox<N> = &b.children[i];
        let text: bool = match &c.kind {
            BoxKind::Text(_) => true,
            _ => false,
        };
        if c.position.is_in_flow() && !c.is_inline && !text {
            assert(!is_line_content(b.children@[i as int]));
            return false;
        }
        i = i + 1;
    }
    true
}

/// A step of laying out the flow of a box: a block, a float, or the boxes from
/// `start` to `end` on lines.
#[derive(Copy, Clone, Debug, PartialEq, Eq, Structural)]
pub enum FlowStep {
    Block(usize),
    Float(usize),
    Lines { start: usize, end: usize },
}

/// The end of the boxes from `i` on that stand on lines.
pub open spec fn run_end(kinds: Seq<ChildKind>, i: int) -> int
    decreases kinds.len() - i,
{
    if i < kinds.len() && kinds[i] == ChildKind::Inline {
        run_end(kinds, i + 1)
    } else {
        i
    }
}

/// The steps from `i` on: boxes in a row that stand on lines are laid out
/// together.
pub open spec fn steps_from(kinds: Seq<ChildKind>, i: int) -> Seq<FlowStep>
    decreases kinds.len() - i,
    via steps_from_decreases
{
    if i >= kinds.len() {
        Seq::empty()
    } else {
        match kinds[i] {
            ChildKind::OutOfFlow => steps_from(kinds, i + 1),
            ChildKind::Block => seq![FlowStep::Block(i as usize)] + steps_from(kinds, i + 1),
            ChildKind::Float => seq![FlowStep::Float(i as usize)] + steps_from(kinds, i + 1),
            ChildKind::Inline => seq![
                FlowStep::Lines { start: i as usize, end: run_end(kinds, i) as usize },
            ] + steps_from(kinds, run_end(kinds, i)),
        }
    }
}

#[via_fn]
proof fn steps_from_decreases(kinds: Seq<ChildKind>, i: int) {
    run_end_bound(kinds, i);
}

proof fn run_end_bound(kinds: Seq<ChildKind>, i: int)
    ensures
        i <= run_end(kinds, i),
        i <= kinds.len() ==> run_end(kinds, i) <= kinds.len(),
        i < kinds.len() && kinds[i] == ChildKind::Inline ==> i < run_end(kinds, i),
        forall|k: int| i <= k < run_end(kinds, i) ==> #[trigger] kinds[k] == ChildKind::Inline,
    decreases kinds.len() - i,
{
    if i < kinds.len() && kinds[i] == ChildKind::Inline {
        run_end_bound(kinds, i + 1);
    }
}

/// The steps of laying out the flow of a box.
pub fn flow_steps<N>(children: &[LayoutBox<N>]) -> (r: Vec<FlowStep>)
    ensures
        r@ == steps_from(kinds_of(children@), 0),
{
    let ghost kinds = kinds_of(children@);
    let mut steps: Vec<FlowStep> = Vec::new();
    let mut i: usize = 0;
    assert(steps@ + steps_from(kinds, 0) =~= steps_from(kinds, 0));
    while i < children.len()
        invariant
            kinds == kinds_of(children@),
            i <= children@.len(),
            steps@ + steps_from(kinds, i as int) == steps_from(kinds, 0),
        decreases children@.len() - i,
    {
        let ghost before = steps@;
        let start: usize = i;
        match children[i].child_kind() {
            ChildKind::OutOfFlow => {
                i = i + 1;
            },
            ChildKind::Block => {
                steps.push(FlowStep::Block(i));
                i = i + 1;
            },
            ChildKind::Float => {
                steps.push(FlowStep::Float(i));
                i = i + 1;
            },
            ChildKind::Inline => {
                while i < children.len() && children[i].child_kind() == ChildKind::Inline
                    invariant
                        kinds == kinds_of(children@),
                        start <= i <= children@.len(),
                        run_end(kinds, start as int) == run_end(kinds, i as int),
                    decreases children@.len() - i,
                {
                    i = i + 1;
                }
                proof {
                    run_end_bound(kinds, start as int);
                }
                steps.push(FlowStep::Lines { start, end: i });
            },
        }
        proof {
            let rest = steps_from(kinds, i as int);
            if steps@.len() > before.len() {
                assert(before + (seq![steps@.last()] + rest) =~= steps@ + rest);
            }
        }
    }
    assert(steps@ + steps_from(kinds, i as int) =~= steps@);
    steps
}

/// Whether a step lays out box `k`.
pub open spec fn lays_out(s: FlowStep, k: int) -> bool {
    match s {
        FlowStep::Block(i) => i == k,
        FlowStep::Float(i) => i == k,
        FlowStep::Lines { start, end } => start <= k < end,
    }
}

/// How many of the steps lay out box `k`.
pub open spec fn times_laid_out(steps: Seq<FlowStep>, k: int) -> int
    decreases steps.len(),
{
    if steps.len() == 0 {
        0
    } else {
        times_laid_out(steps.skip(1), k) + if lays_out(steps[0], k) {
            1int
        } else {
            0
        }
    }
}

/// Every box in the flow is laid out in one step, and no other box in any.
pub proof fn boxes_in_flow_are_laid_out_once(kinds: Seq<ChildKind>, k: int)
    requires
        kinds.len() <= usize::MAX,
        0 <= k < kinds.len(),
    ensures
        times_laid_out(steps_from(kinds, 0), k) == if kinds[k] == ChildKind::OutOfFlow {
            0int
        } else {
            1
        },
{
    laid_out_from(kinds, 0, k);
}

proof fn laid_out_from(kinds: Seq<ChildKind>, i: int, k: int)
    requires
        kinds.len() <= usize::MAX,
        0 <= i <= kinds.len(),
        0 <= k < kinds.len(),
    ensures
        times_laid_out(steps_from(kinds, i), k) == if k < i || kinds[k] == ChildKind::OutOfFlow {
            0int
        } else {
            1
        },
    decreases kinds.len() - i,
{
    if i < kinds.len() {
        let next = if kinds[i] == ChildKind::Inline {
            run_end(kinds, i)
        } else {
            i + 1
        };
        run_end_bound(kinds, i);
        laid_out_from(kinds, next, k);
        if kinds[i] != ChildKind::OutOfFlow {
            assert(steps_from(kinds, i).skip(1) =~= steps_from(kinds, next));
        }
    }
}

/// Items broken into lines, and the line that is being filled.
#[derive(Debug)]
pub struct LineBuilder {
    pub lines: Vec<Vec<usize>>,
    pub current: Vec<usize>,
}

/// Views of lines.
pub open spec fn line_views(lines: Seq<Vec<usize>>) -> Seq<Seq<usize>> {
    lines.map_values(|l: Vec<usize>| l@)
}

/// The items of all lines in a row.
pub open spec fn all_items(lines: Seq<Seq<usize>>) -> Seq<usize>
    decreases lines.len(),
{
    if lines.len() == 0 {
        Seq::empty()
    } else {
        all_items(lines.drop_last()) + lines.last()
    }
}

/// No line is empty.
pub open spec fn none_empty(lines: Seq<Seq<usize>>) -> bool {
    forall|k: int| 0 <= k < lines.len() ==> (#[trigger] lines[k]).len() > 0
}

impl LineBuilder {
    /// The items so far.
    pub open spec fn items(&self) -> Seq<usize> {
        all_items(line_views(self.lines@)) + self.current@
    }

    pub open spec fn wf(&self) -> bool {
        none_empty(line_views(self.lines@))
    }

    pub fn new() -> (r: Self)
        ensures
            r.wf(),
            r.lines@.len() == 0,
            r.current@.len() == 0,
            r.items() == Seq::<usize>::empty(),
    {
        let r: LineBuilder = LineBuilder { lines: Vec::new(), current: Vec::new() };
        assert(r.items() =~= Seq::<usize>::empty());
        r
    }

    /// Whether the line that is being filled has no items.
    pub fn at_line_start(&self) -> (r: bool)
        ensures
            r == (self.current@.len() == 0),
    {
        self.current.len() == 0
    }

    /// Adds an item: to the current line or, where that would be too long and is
    /// not empty, to a new one. Returns whether a line was begun. No item is lost.
    pub fn push(&mut self, item: usize, too_long: bool) -> (broke: bool)
        requires
            old(self).wf(),
        ensures
            final(self).wf(),
            broke == (too_long && old(self).current@.len() > 0),
            broke ==> line_views(final(self).lines@) == line_views(old(self).lines@).push(
                old(self).current@,
            ) && final(self).current@ == seq![item],
            !broke ==> final(self).lines@ == old(self).lines@ && final(self).current@ == old(
                self,
            ).current@.push(item),
            final(self).items() == old(self).items().push(item),
    {
        let ghost views = line_views(self.lines@);
        let ghost line = self.current@;
        if too_long && self.current.len() > 0 {
            let mut fresh: Vec<usize> = Vec::new();
            fresh.push(item);
            let mut full: Vec<usize> = fresh;
            std::mem::swap(&mut full, &mut self.current);
            self.lines.push(full);
            proof {
                let now = line_views(self.lines@);
                assert(now =~= views.push(line));
                assert(now.drop_last() =~= views);
                assert(self.current@ =~= seq![item]);
                assert(all_items(views) + line + seq![item] =~= (all_items(views) + line).push(
                    item,
                ));
            }
            true
        } else {
            self.current.push(item);
            assert(self.items() =~= (all_items(views) + line).push(item));
            false
        }
    }

    /// The lines, when there are no more items.
    pub fn finish(self) -> (r: Vec<Vec<usize>>)
        requires
            self.wf(),
        ensures
            self.current@.len() == 0 ==> r@ == self.lines@,
            self.current@.len() > 0 ==> line_views(r@) == line_views(self.lines@).push(
                self.current@,
            ),
            none_empty(line_views(r@)),
            all_items(line_views(r@)) == self.items(),
    {
        let ghost views = line_views(self.lines@);
        let LineBuilder { lines, current } = self;
        let mut lines: Vec<Vec<usize>> = lines;
        if current.len() > 0 {
            lines.push(current);
            proof {
                let now = line_views(lines@);
                assert(now =~= views.push(self.current@));
                assert(now.drop_last() =~= views);
            }
        } else {
            assert(self.items() =~= all_items(views));
        }
        lines
    }
}

/// Where the space goes that a line leaves over.
#[derive(Copy, Clone, Debug, PartialEq, Eq, Structural)]
pub enum LineShift {
    /// All of it behind the line.
    Start,
    /// Half of it before the line.
    Middle,
    /// All of it before the line.
    End,
    /// Evenly into the gaps between the items.
    Gaps(usize),
}

/// Where the space goes that a line with `items` items leaves over. The last
/// line of a paragraph is not justified.
pub open spec fn shift_of(align: Option<TextAlign>, items: int, last: bool) -> LineShift {
    match align {
        Some(TextAlign::Center) => LineShift::Middle,
        Some(TextAlign::Right) => LineShift::End,
        Some(TextAlign::Justify) => if !last && items > 1 {
            LineShift::Gaps((items - 1) as usize)
        } else {
            LineShift::Start
        },
        _ => LineShift::Start,
    }
}

/// Where the space goes that a line leaves over.
pub fn line_shift(align: Option<TextAlign>, items: usize, last: bool) -> (r: LineShift)
    ensures
        r == shift_of(align, items as int, last),
{
    match align {
        Some(TextAlign::Center) => LineShift::Middle,
        Some(TextAlign::Right) => LineShift::End,
        Some(TextAlign::Justify) => if !last && items > 1 {
            LineShift::Gaps(items - 1)
        } else {
            LineShift::Start
        },
        _ => LineShift::Start,
    }
}

/// What a box on a line is aligned with.
#[derive(Copy, Clone, Debug, PartialEq, Eq, Structural)]
pub enum LineAnchor {
    Top,
    Middle,
    Bottom,
    Baseline,
}

/// What a box on a line is aligned with.
pub open spec fn anchor_of(align: VerticalAlign) -> LineAnchor {
    match align {
        VerticalAlign::Top => LineAnchor::Top,
        VerticalAlign::TextTop => LineAnchor::Top,
        VerticalAlign::Bottom => LineAnchor::Bottom,
        VerticalAlign::TextBottom => LineAnchor::Bottom,
        VerticalAlign::Middle => LineAnchor::Middle,
        VerticalAlign::Baseline => LineAnchor::Baseline,
        VerticalAlign::Sub => LineAnchor::Baseline,
        VerticalAlign::Super => LineAnchor::Baseline,
    }
}

impl VerticalAlign {
    /// What a box on a line is aligned with.
    pub fn line_anchor(self) -> (r: LineAnchor)
        ensures
            r == anchor_of(self),
    {
        match self {
            VerticalAlign::Top => LineAnchor::Top,
            VerticalAlign::TextTop => LineAnchor::Top,
            VerticalAlign::Bottom => LineAnchor::Bottom,
            VerticalAlign::TextBottom => LineAnchor::Bottom,
            VerticalAlign::Middle => LineAnchor::Middle,
            VerticalAlign::Baseline => LineAnchor::Baseline,
            VerticalAlign::Sub => LineAnchor::Baseline,
            VerticalAlign::Super => LineAnchor::Baseline,
        }
    }
}

/// Boxes placed against their container take part in no flow, whatever else they are;
/// of those in the flow, floats stand at the side even where they would flow on lines.
pub proof fn boxes_take_part_as_they_are<N>(b: LayoutBox<N>)
    ensures
        (kind_of(b) is OutOfFlow) == (b.position is Absolute || b.position is Fixed),
        kind_of(b) is OutOfFlow || (kind_of(b) is Float) == (b.float_side is Left
            || b.float_side is Right),
        kind_of(b) is OutOfFlow || kind_of(b) is Float || (kind_of(b) is Inline) == b.is_inline,
{
}

/// Only a justified line that is not the last, with more than one item, is spread: one
/// gap less than it has items. Centered and right-aligned lines are shifted, all others
/// are not.
pub proof fn lines_are_shifted_as_asked(align: Option<TextAlign>, items: int, last: bool)
    requires
        0 <= items <= usize::MAX,
    ensures
        (shift_of(align, items, last) is Middle) == (align == Some(TextAlign::Center)),
        (shift_of(align, items, last) is End) == (align == Some(TextAlign::Right)),
        (shift_of(align, items, last) is Gaps) == (align == Some(TextAlign::Justify) && !last
            && items > 1),
        shift_of(align, items, last) matches LineShift::Gaps(gaps) ==> gaps + 1 == items,
{
}

/// Boxes are aligned with the top, the middle or the bottom of a line only where they
/// ask for it.
pub proof fn boxes_are_aligned_as_asked(align: VerticalAlign)
    ensures
        (anchor_of(align) is Top) == (align is Top || align is TextTop),
        (anchor_of(align) is Bottom) == (align is Bottom || align is TextBottom),
        (anchor_of(align) is Middle) == (align is Middle),
{
}

/// Boxes that stand on lines one behind the other are laid out together, as many as
/// there are: a run begins behind something else and ends before something else.
pub proof fn runs_are_as_long_as_they_can_be(kinds: Seq<ChildKind>, i: int, k: int)
    requires
        0 <= i <= kinds.len(),
    ensures
        i <= run_end(kinds, i) <= kinds.len(),
        i <= k < run_end(kinds, i) ==> kinds[k] is Inline,
        run_end(kinds, i) < kinds.len() ==> !(kinds[run_end(kinds, i)] is Inline),
    decreases kinds.len() - i,
{
    if i < kinds.len() && kinds[i] == ChildKind::Inline {
        runs_are_as_long_as_they_can_be(kinds, i + 1, k);
    }
}

} // verus!
