//! Lists of tracks: the columns and rows of grids.
use vstd::prelude::*;

use crate::layout::boxes::LayoutBox;
use crate::layout::{AutoRepeat, AutoRepeatMode, AutoRepeatTrack, GridTrack, MinMaxBound};

verus! {

/// A repeated track by itself.
pub open spec fn track_of<N>(t: AutoRepeatTrack<N>) -> GridTrack<N> {
    match t {
        AutoRepeatTrack::Px(v) => GridTrack::Px(v),
        AutoRepeatTrack::Pct(v) => GridTrack::Pct(v),
        AutoRepeatTrack::Fr(v) => GridTrack::Fr(v),
        AutoRepeatTrack::Auto => GridTrack::Auto,
    }
}

/// How many times a list is repeated, where there is room for `capacity`
/// repetitions: as often as there is room or, in the fitting mode, no more often
/// than the items need.
pub open spec fn repetitions(mode: AutoRepeatMode, tracks: int, capacity: int, items: int) -> int {
    let room = if capacity > 1 {
        capacity
    } else {
        1
    };
    let count = if items > 1 {
        items
    } else {
        1
    };
    let len = if tracks > 1 {
        tracks
    } else {
        1
    };
    let needed = (count + len - 1) / len;
    match mode {
        AutoRepeatMode::Fill => room,
        AutoRepeatMode::Fit => if room < needed {
            room
        } else {
            needed
        },
    }
}

/// A list repeated `n` times.
pub open spec fn repeated<N>(tracks: Seq<AutoRepeatTrack<N>>, n: int) -> Seq<GridTrack<N>>
    decreases n,
{
    if n <= 0 {
        Seq::empty()
    } else {
        repeated(tracks, n - 1) + tracks.map_values(|t: AutoRepeatTrack<N>| track_of(t))
    }
}

/// The first `n` tracks with repeated lists written out.
pub open spec fn written_out<N>(
    tracks: Seq<GridTrack<N>>,
    capacities: Seq<usize>,
    items: int,
    n: int,
) -> Seq<GridTrack<N>>
    decreases n,
{
    if n <= 0 {
        Seq::empty()
    } else {
        let before = written_out(tracks, capacities, items, n - 1);
        match tracks[n - 1] {
            GridTrack::AutoRepeat(auto) => before + repeated(
                auto.tracks@,
                repetitions(
                    auto.mode,
                    auto.tracks@.len() as int,
                    capacities[n - 1] as int,
                    items,
                ),
            ),
            other => before.push(other),
        }
    }
}

/// The tracks with repeated lists written out, or a single automatic track where
/// there would be none.
pub open spec fn expanded<N>(
    tracks: Seq<GridTrack<N>>,
    capacities: Seq<usize>,
    items: int,
) -> Seq<GridTrack<N>> {
    let out = written_out(tracks, capacities, items, tracks.len() as int);
    if out.len() == 0 {
        seq![GridTrack::Auto]
    } else {
        out
    }
}

fn count_of(mode: AutoRepeatMode, tracks: usize, capacity: usize, items: usize) -> (r: usize)
    ensures
        r == repetitions(mode, tracks as int, capacity as int, items as int),
{
    let room: usize = if capacity > 1 {
        capacity
    } else {
        1
    };
    let count: usize = if items > 1 {
        items
    } else {
        1
    };
    let len: usize = if tracks > 1 {
        tracks
    } else {
        1
    };
    let needed: usize = (count - 1) / len + 1;
    proof {
        let (a, b) = (count - 1, len as int);
        assert((a + b) / b == a / b + 1) by (nonlinear_arith)
            requires
                b > 0,
                a >= 0,
        ;
    }
    match mode {
        AutoRepeatMode::Fill => room,
        AutoRepeatMode::Fit => if room < needed {
            room
        } else {
            needed
        },
    }
}

fn append_repeated<N: Copy>(out: &mut Vec<GridTrack<N>>, auto: &AutoRepeat<N>, count: usize)
    ensures
        final(out)@ == old(out)@ + repeated(auto.tracks@, count as int),
{
    let ghost list = auto.tracks@.map_values(|t: AutoRepeatTrack<N>| track_of(t));
    let mut n: usize = 0;
    assert(out@ + repeated(auto.tracks@, 0) =~= out@);
    while n < count
        invariant
            n <= count,
            list == auto.tracks@.map_values(|t: AutoRepeatTrack<N>| track_of(t)),
            out@ == old(out)@ + repeated(auto.tracks@, n as int),
        decreases count - n,
    {
        let ghost before = out@;
        let mut k: usize = 0;
        assert(before + list.take(0) =~= before);
        while k < auto.tracks.len()
            invariant
                k <= auto.tracks@.len(),
                list == auto.tracks@.map_values(|t: AutoRepeatTrack<N>| track_of(t)),
                out@ == before + list.take(k as int),
            decreases auto.tracks@.len() - k,
        {
            let track: GridTrack<N> = match auto.tracks[k] {
                AutoRepeatTrack::Px(v) => GridTrack::Px(v),
                AutoRepeatTrack::Pct(v) => GridTrack::Pct(v),
                AutoRepeatTrack::Fr(v) => GridTrack::Fr(v),
                AutoRepeatTrack::Auto => GridTrack::Auto,
            };
            out.push(track);
            assert(list.take(k + 1) =~= list.take(k as int).push(list[k as int]));
            assert(out@ =~= before + list.take(k + 1));
            k = k + 1;
        }
        proof {
            assert(list.take(k as int) =~= list);
            assert(old(out)@ + repeated(auto.tracks@, n as int) + list =~= old(out)@ + (repeated(
                auto.tracks@,
                n as int,
            ) + list));
        }
        n = n + 1;
    }
}

/// Writes out repeated lists of tracks. For each repeated list `capacities` tells
/// how many repetitions there is room for; `items` is the number of items in the
/// grid.
pub fn expand_auto_repeat_tracks<N: Copy>(
    tracks: &[GridTrack<N>],
    capacities: &[usize],
    items: usize,
) -> (r: Vec<GridTrack<N>>)
    requires
        capacities@.len() == tracks@.len(),
    ensures
        r@ == expanded(tracks@, capacities@, items as int),
        r@.len() > 0,
{
    let mut out: Vec<GridTrack<N>> = Vec::new();
    let mut i: usize = 0;
    assert(out@ =~= Seq::<GridTrack<N>>::empty());
    while i < tracks.len()
        invariant
            i <= tracks@.len(),
            capacities@.len() == tracks@.len(),
            out@ == written_out(tracks@, capacities@, items as int, i as int),
        decreases tracks@.len() - i,
    {
        match &tracks[i] {
            GridTrack::AutoRepeat(auto) => {
                let count: usize = count_of(auto.mode, auto.tracks.len(), capacities[i], items);
                append_repeated(&mut out, auto, count);
            },
            GridTrack::Px(v) => {
                out.push(GridTrack::Px(*v));
            },
            GridTrack::Pct(v) => {
                out.push(GridTrack::Pct(*v));
            },
            GridTrack::Fr(v) => {
                out.push(GridTrack::Fr(*v));
            },
            GridTrack::Auto => {
                out.push(GridTrack::Auto);
            },
            GridTrack::Subgrid => {
                out.push(GridTrack::Subgrid);
            },
            GridTrack::MinMax { min, max } => {
                out.push(GridTrack::MinMax { min: *min, max: *max });
            },
        }
        i = i + 1;
    }
    if out.len() == 0 {
        out.push(GridTrack::Auto);
        assert(out@ =~= seq![GridTrack::Auto]);
    }
    out
}

/// How high a row is.
#[derive(Clone, Copy, Debug)]
pub enum RowKind<N> {
    /// A number of pixels.
    Px(N),
    /// Percent of the container.
    Pct(N),
    /// As high as its content, and a share of the space that is left over.
    Fr(N),
    /// As high as its content.
    Auto,
}

/// How high a row with the given track is, or one without a track. Of a range
/// the upper bound counts.
pub open spec fn row_kind_of<N>(track: Option<GridTrack<N>>) -> RowKind<N> {
    match track {
        None => RowKind::Auto,
        Some(t) => match t {
            GridTrack::Px(v) => RowKind::Px(v),
            GridTrack::Pct(v) => RowKind::Pct(v),
            GridTrack::Fr(v) => RowKind::Fr(v),
            GridTrack::Auto => RowKind::Auto,
            GridTrack::AutoRepeat(_) => RowKind::Auto,
            GridTrack::Subgrid => RowKind::Auto,
            GridTrack::MinMax { min, max } => match max {
                MinMaxBound::Px(v) => RowKind::Px(v),
                MinMaxBound::Pct(v) => RowKind::Pct(v),
                MinMaxBound::Fr(v) => RowKind::Fr(v),
                MinMaxBound::Auto => RowKind::Auto,
            },
        },
    }
}

/// The track of row `i`: that of the template or, behind its end, the one for
/// all further rows.
pub open spec fn row_track<N>(
    tracks: Seq<GridTrack<N>>,
    auto_row: Option<GridTrack<N>>,
    i: int,
) -> Option<GridTrack<N>> {
    if i < tracks.len() {
        Some(tracks[i])
    } else {
        auto_row
    }
}

fn kind_of_track<N: Copy>(track: &GridTrack<N>) -> (r: RowKind<N>)
    ensures
        r == row_kind_of(Some(*track)),
{
    match track {
        GridTrack::Px(v) => RowKind::Px(*v),
        GridTrack::Pct(v) => RowKind::Pct(*v),
        GridTrack::Fr(v) => RowKind::Fr(*v),
        GridTrack::Auto => RowKind::Auto,
        GridTrack::AutoRepeat(_) => RowKind::Auto,
        GridTrack::Subgrid => RowKind::Auto,
        GridTrack::MinMax { min: _, max } => match max {
            MinMaxBound::Px(v) => RowKind::Px(*v),
            MinMaxBound::Pct(v) => RowKind::Pct(*v),
            MinMaxBound::Fr(v) => RowKind::Fr(*v),
            MinMaxBound::Auto => RowKind::Auto,
        },
    }
}

/// How high each of the first `nrows` rows is.
pub fn row_kinds<N: Copy>(
    tracks: &[GridTrack<N>],
    auto_row: &Option<GridTrack<N>>,
    nrows: usize,
) -> (r: Vec<RowKind<N>>)
    ensures
        r@.len() == nrows,
        forall|i: int|
            0 <= i < nrows ==> #[trigger] r@[i] == row_kind_of(row_track(tracks@, *auto_row, i)),
{
    let mut out: Vec<RowKind<N>> = Vec::new();
    let mut i: usize = 0;
    while i < nrows
        invariant
            i <= nrows,
            out@.len() == i,
            forall|j: int|
                0 <= j < i ==> #[trigger] out@[j] == row_kind_of(row_track(tracks@, *auto_row, j)),
        decreases nrows - i,
    {
        let kind: RowKind<N> = if i < tracks.len() {
            kind_of_track(&tracks[i])
        } else {
            match auto_row {
                Some(t) => kind_of_track(t),
                None => RowKind::Auto,
            }
        };
        out.push(kind);
        i = i + 1;
    }
    out
}

/// How wide a column is.
#[derive(Clone, Copy, Debug)]
pub enum ColumnKind<N> {
    /// A number of pixels.
    Px(N),
    /// Percent of the container.
    Pct(N),
    /// A number of shares of the space that is left over.
    Shares(N),
    /// One share of the space that is left over.
    OneShare,
    /// Nothing.
    Nothing,
    /// One of the others, but no less than a number of pixels.
    AtLeastPx(N, WidthKind<N>),
    /// One of the others, but no less than a number of percent of the container.
    AtLeastPct(N, WidthKind<N>),
    /// One of the others, but no less than nothing.
    AtLeastZero(WidthKind<N>),
}

/// How wide a column with a lower bound is otherwise.
#[derive(Clone, Copy, Debug)]
pub enum WidthKind<N> {
    Px(N),
    Pct(N),
    Shares(N),
    OneShare,
}

/// What the upper bound of a range stands for.
pub open spec fn width_of<N>(bound: MinMaxBound<N>) -> WidthKind<N> {
    match bound {
        MinMaxBound::Px(v) => WidthKind::Px(v),
        MinMaxBound::Pct(v) => WidthKind::Pct(v),
        MinMaxBound::Fr(v) => WidthKind::Shares(v),
        MinMaxBound::Auto => WidthKind::OneShare,
    }
}

/// How wide a column with the given track is.
pub open spec fn column_kind_of<N>(track: GridTrack<N>) -> ColumnKind<N> {
    match track {
        GridTrack::Px(v) => ColumnKind::Px(v),
        GridTrack::Pct(v) => ColumnKind::Pct(v),
        GridTrack::Fr(v) => ColumnKind::Shares(v),
        GridTrack::Auto => ColumnKind::OneShare,
        GridTrack::Subgrid => ColumnKind::OneShare,
        GridTrack::AutoRepeat(_) => ColumnKind::Nothing,
        GridTrack::MinMax { min, max } => match min {
            MinMaxBound::Px(v) => ColumnKind::AtLeastPx(v, width_of(max)),
            MinMaxBound::Pct(v) => ColumnKind::AtLeastPct(v, width_of(max)),
            MinMaxBound::Fr(_) => ColumnKind::AtLeastZero(width_of(max)),
            MinMaxBound::Auto => ColumnKind::AtLeastZero(width_of(max)),
        },
    }
}

/// How wide each column is.
pub fn column_kinds<N: Copy>(tracks: &[GridTrack<N>]) -> (r: Vec<ColumnKind<N>>)
    ensures
        r@ == tracks@.map_values(|t: GridTrack<N>| column_kind_of(t)),
{
    let mut out: Vec<ColumnKind<N>> = Vec::new();
    let mut i: usize = 0;
    while i < tracks.len()
        invariant
            i <= tracks@.len(),
            out@.len() == i,
            forall|j: int| 0 <= j < i ==> #[trigger] out@[j] == column_kind_of(tracks@[j]),
        decreases tracks@.len() - i,
    {
        let kind: ColumnKind<N> = match &tracks[i] {
            GridTrack::Px(v) => ColumnKind::Px(*v),
            GridTrack::Pct(v) => ColumnKind::Pct(*v),
            GridTrack::Fr(v) => ColumnKind::Shares(*v),
            GridTrack::Auto => ColumnKind::OneShare,
            GridTrack::Subgrid => ColumnKind::OneShare,
            GridTrack::AutoRepeat(_) => ColumnKind::Nothing,
            GridTrack::MinMax { min, max } => {
                let width: WidthKind<N> = match max {
                    MinMaxBound::Px(v) => WidthKind::Px(*v),
                    MinMaxBound::Pct(v) => WidthKind::Pct(*v),
                    MinMaxBound::Fr(v) => WidthKind::Shares(*v),
                    MinMaxBound::Auto => WidthKind::OneShare,
                };
                match min {
                    MinMaxBound::Px(v) => ColumnKind::AtLeastPx(*v, width),
                    MinMaxBound::Pct(v) => ColumnKind::AtLeastPct(*v, width),
                    MinMaxBound::Fr(_) => ColumnKind::AtLeastZero(width),
                    MinMaxBound::Auto => ColumnKind::AtLeastZero(width),
                }
            },
        };
        out.push(kind);
        i = i + 1;
    }
    assert(out@ =~= tracks@.map_values(|t: GridTrack<N>| column_kind_of(t)));
    out
}

/// Writing out leaves no repeated lists.
pub proof fn no_repeated_lists_are_left<N>(
    tracks: Seq<GridTrack<N>>,
    capacities: Seq<usize>,
    items: int,
    k: int,
)
    requires
        capacities.len() == tracks.len(),
        0 <= k < expanded(tracks, capacities, items).len(),
    ensures
        !(expanded(tracks, capacities, items)[k] is AutoRepeat),
{
    none_left(tracks, capacities, items, tracks.len() as int);
}

proof fn none_left<N>(tracks: Seq<GridTrack<N>>, capacities: Seq<usize>, items: int, n: int)
    requires
        0 <= n <= tracks.len(),
    ensures
        forall|k: int|
            0 <= k < written_out(tracks, capacities, items, n).len() ==> !(
                #[trigger] written_out(tracks, capacities, items, n)[k] is AutoRepeat),
    decreases n,
{
    if n > 0 {
        none_left(tracks, capacities, items, n - 1);
        if let GridTrack::AutoRepeat(auto) = tracks[n - 1] {
            repeated_is_plain(
                auto.tracks@,
                repetitions(
                    auto.mode,
                    auto.tracks@.len() as int,
                    capacities[n - 1] as int,
                    items,
                ),
            );
        }
    }
}

proof fn repeated_is_plain<N>(tracks: Seq<AutoRepeatTrack<N>>, n: int)
    ensures
        forall|k: int|
            0 <= k < repeated(tracks, n).len() ==> !(#[trigger] repeated(tracks, n)[k] is AutoRepeat),
    decreases n,
{
    if n > 0 {
        repeated_is_plain(tracks, n - 1);
    }
}

/// The columns of a grid before repeated lists are written out.
#[derive(Copy, Clone, Debug, PartialEq, Eq, Structural)]
pub enum ColumnTemplate {
    /// Those that are listed.
    Listed,
    /// A number of automatic ones.
    Automatic(usize),
}

/// The columns of a grid: those listed, or else one for each cell in the first row
/// of its areas, or else one.
pub open spec fn template_of<N>(b: LayoutBox<N>) -> ColumnTemplate {
    match (b.grid_template_columns, b.grid_template_areas) {
        (Some(_), _) => ColumnTemplate::Listed,
        (None, Some(areas)) => if areas@.len() > 0 {
            ColumnTemplate::Automatic(areas@[0]@.len() as usize)
        } else {
            ColumnTemplate::Automatic(1)
        },
        (None, None) => ColumnTemplate::Automatic(1),
    }
}

impl<N> LayoutBox<N> {
    /// The columns of the box before repeated lists are written out.
    pub fn column_template(&self) -> (r: ColumnTemplate)
        ensures
            r == template_of(*self),
    {
        if self.grid_template_columns.is_some() {
            return ColumnTemplate::Listed;
        }
        match &self.grid_template_areas {
            Some(areas) => if areas.len() > 0 {
                ColumnTemplate::Automatic(areas[0].len())
            } else {
                ColumnTemplate::Automatic(1)
            },
            None => ColumnTemplate::Automatic(1),
        }
    }
}

/// A list is repeated as often as there is room, and once at least; in the fitting mode
/// no more often than the items need, which is until there is a track for each.
pub proof fn lists_are_repeated_as_needed(tracks: int, capacity: int, items: int)
    requires
        tracks >= 1,
        items >= 1,
    ensures
        ({
            let fill = repetitions(AutoRepeatMode::Fill, tracks, capacity, items);
            let fit = repetitions(AutoRepeatMode::Fit, tracks, capacity, items);
            &&& fill >= 1
            &&& capacity >= 1 ==> fill == capacity
            &&& capacity < 1 ==> fill == 1
            &&& 1 <= fit <= fill
            &&& fit == fill || fit * tracks >= items
            &&& (fit - 1) * tracks < items
        }),
{
    let needed = (items + tracks - 1) / tracks;
    let fit = repetitions(AutoRepeatMode::Fit, tracks, capacity, items);
    assert(needed >= 1 && needed * tracks >= items && (needed - 1) * tracks < items)
        by (nonlinear_arith)
        requires
            needed == (items + tracks - 1) / tracks,
            tracks >= 1,
            items >= 1,
    ;
    assert((fit - 1) * tracks <= (needed - 1) * tracks) by (nonlinear_arith)
        requires
            fit <= needed,
            tracks >= 1,
    ;
}

/// Track `k` of a repeated list is the one at that place of the list, counted around.
pub proof fn repeated_lists_go_around<N>(tracks: Seq<AutoRepeatTrack<N>>, n: int, i: int, j: int)
    requires
        0 <= i < n,
        0 <= j < tracks.len(),
    ensures
        repeated(tracks, n).len() == n * tracks.len(),
        0 <= i * tracks.len() + j < n * tracks.len(),
        repeated(tracks, n)[i * tracks.len() + j] == track_of(tracks[j]),
    decreases n,
{
    repeated_length(tracks, n);
    repeated_length(tracks, n - 1);
    let len = tracks.len() as int;
    let once = tracks.map_values(|t: AutoRepeatTrack<N>| track_of(t));
    assert(repeated(tracks, n) == repeated(tracks, n - 1) + once);
    assert(0 <= i * len + j < n * len) by (nonlinear_arith)
        requires
            0 <= i < n,
            0 <= j < len,
    ;
    if i == n - 1 {
        assert(once[j] == track_of(tracks[j]));
    } else {
        repeated_lists_go_around(tracks, n - 1, i, j);
    }
}

proof fn repeated_length<N>(tracks: Seq<AutoRepeatTrack<N>>, n: int)
    requires
        n >= 0,
    ensures
        repeated(tracks, n).len() == n * tracks.len(),
    decreases n,
{
    let len = tracks.len() as int;
    if n > 0 {
        repeated_length(tracks, n - 1);
        assert(n * len == (n - 1) * len + len) by (nonlinear_arith);
    } else {
        assert(0 * len == 0);
    }
}

/// A repeated track is of the same kind and size by itself.
pub proof fn repeated_tracks_keep_their_size<N>(v: N)
    ensures
        track_of(AutoRepeatTrack::Px(v)) == GridTrack::Px(v),
        track_of(AutoRepeatTrack::Pct(v)) == GridTrack::Pct(v),
        track_of(AutoRepeatTrack::Fr(v)) == GridTrack::Fr(v),
        track_of::<N>(AutoRepeatTrack::Auto) == GridTrack::<N>::Auto,
{
}

/// Tracks among which no list is repeated stay as they are.
pub proof fn plain_tracks_stay<N>(
    tracks: Seq<GridTrack<N>>,
    capacities: Seq<usize>,
    items: int,
    n: int,
)
    requires
        0 <= n <= tracks.len(),
        forall|i: int| 0 <= i < tracks.len() ==> !((#[trigger] tracks[i]) is AutoRepeat),
    ensures
        written_out(tracks, capacities, items, n) == tracks.take(n),
        n == tracks.len() && n > 0 ==> expanded(tracks, capacities, items) == tracks,
    decreases n,
{
    if n > 0 {
        plain_tracks_stay(tracks, capacities, items, n - 1);
        assert(!(tracks[n - 1] is AutoRepeat));
        assert(tracks.take(n) =~= tracks.take(n - 1).push(tracks[n - 1]));
    } else {
        assert(tracks.take(0) =~= Seq::<GridTrack<N>>::empty());
    }
    if n == tracks.len() {
        assert(tracks.take(n) =~= tracks);
    }
}

/// Sizes are kept: a row or column of a number of pixels, percents or shares is of that
/// number. Of a range, the upper bound gives the height of a row and the width of a
/// column; a column is no narrower than the lower bound where that is a size.
pub proof fn tracks_keep_their_sizes<N>(v: N, w: N, bound: MinMaxBound<N>)
    ensures
        row_kind_of(Some(GridTrack::Px(v))) == RowKind::Px(v),
        row_kind_of(Some(GridTrack::Pct(v))) == RowKind::Pct(v),
        row_kind_of(Some(GridTrack::Fr(v))) == RowKind::Fr(v),
        row_kind_of::<N>(None) == RowKind::<N>::Auto,
        row_kind_of(Some(GridTrack::MinMax { min: bound, max: MinMaxBound::Px(v) })) == RowKind::Px(
            v,
        ),
        row_kind_of(Some(GridTrack::MinMax { min: bound, max: MinMaxBound::Pct(v) }))
            == RowKind::Pct(v),
        row_kind_of(Some(GridTrack::MinMax { min: bound, max: MinMaxBound::Fr(v) })) == RowKind::Fr(
            v,
        ),
        column_kind_of(GridTrack::Px(v)) == ColumnKind::Px(v),
        column_kind_of(GridTrack::Pct(v)) == ColumnKind::Pct(v),
        column_kind_of(GridTrack::Fr(v)) == ColumnKind::Shares(v),
        column_kind_of::<N>(GridTrack::Auto) == ColumnKind::<N>::OneShare,
        column_kind_of(GridTrack::MinMax { min: MinMaxBound::Px(v), max: MinMaxBound::Fr(w) })
            == ColumnKind::AtLeastPx(v, WidthKind::Shares(w)),
        column_kind_of(GridTrack::MinMax { min: MinMaxBound::Px(v), max: MinMaxBound::Px(w) })
            == ColumnKind::AtLeastPx(v, WidthKind::Px(w)),
        column_kind_of(GridTrack::MinMax { min: MinMaxBound::Pct(v), max: MinMaxBound::Pct(w) })
            == ColumnKind::AtLeastPct(v, WidthKind::Pct(w)),
        column_kind_of(GridTrack::MinMax { min: MinMaxBound::Auto, max: MinMaxBound::Fr(w) })
            == ColumnKind::AtLeastZero(WidthKind::Shares(w)),
{
}

/// Rows have the tracks of the template in order, and all rows behind its end the same.
pub proof fn rows_have_their_tracks<N>(
    tracks: Seq<GridTrack<N>>,
    auto_row: Option<GridTrack<N>>,
    i: int,
    j: int,
)
    requires
        0 <= i < tracks.len() <= j,
    ensures
        row_track(tracks, auto_row, i) == Some(tracks[i]),
        row_track(tracks, auto_row, j) == auto_row,
{
}

} // verus!
