//! The decoded picture buffer, and bi-prediction.
//!
//! The buffer holds reconstructed frames for reference and for display. Frames
//! go in in decoding order and come out in display order, that is by picture
//! order count. When it is full, the oldest short-term reference makes room.
use vstd::prelude::*;

use crate::arith;
use crate::h264_mb_loop::Frame;

verus! {

/// A buffered picture.
#[derive(Debug, Clone)]
pub struct DpbEntry {
    pub frame_num: u32,
    pub pic_order_cnt: i32,
    pub frame: Frame,
    /// Whether this is a short-term reference, the usual case.
    pub short_term: bool,
}

/// The decoded picture buffer.
#[derive(Debug)]
pub struct Dpb {
    entries: Vec<DpbEntry>,
    max_num_ref_frames: usize,
    last_output_poc: i32,
}

/// What a buffer holds: its pictures in order of arrival, how many it may hold,
/// and the order count of the picture that came out last.
pub struct DpbModel {
    pub entries: Seq<DpbEntry>,
    pub capacity: nat,
    pub last_output_poc: int,
}

/// Some picture is a short-term reference.
pub open spec fn has_short_term(entries: Seq<DpbEntry>) -> bool {
    exists|j: int| 0 <= j < entries.len() && (#[trigger] entries[j]).short_term
}

/// Picture `j` may make room: it is a short-term reference, or there is none.
pub open spec fn may_go(entries: Seq<DpbEntry>, j: int) -> bool {
    &&& 0 <= j < entries.len()
    &&& entries[j].short_term || !has_short_term(entries)
}

/// Picture `i` makes room: of those that may, it has the lowest frame number,
/// and is the first with it.
pub open spec fn is_victim(entries: Seq<DpbEntry>, i: int) -> bool {
    &&& may_go(entries, i)
    &&& forall|j: int| #[trigger]
        may_go(entries, j) ==> entries[i].frame_num <= entries[j].frame_num && (j < i
            ==> entries[i].frame_num < entries[j].frame_num)
}

/// Picture `i` is next in display order: of those behind the last one that
/// came out, it has the lowest order count, and is the first with it.
pub open spec fn is_next(entries: Seq<DpbEntry>, last_output_poc: int, i: int) -> bool {
    &&& 0 <= i < entries.len()
    &&& entries[i].pic_order_cnt > last_output_poc
    &&& forall|j: int|
        0 <= j < entries.len() && (#[trigger] entries[j]).pic_order_cnt > last_output_poc
            ==> entries[i].pic_order_cnt <= entries[j].pic_order_cnt && (j < i
            ==> entries[i].pic_order_cnt < entries[j].pic_order_cnt)
}

impl View for Dpb {
    type V = DpbModel;

    closed spec fn view(&self) -> DpbModel {
        DpbModel {
            entries: self.entries@,
            capacity: self.max_num_ref_frames as nat,
            last_output_poc: self.last_output_poc as int,
        }
    }
}

impl DpbModel {
    /// `self` with a picture put in: at the end, in place of a victim if the
    /// buffer was full.
    pub open spec fn accepts(self, entry: DpbEntry, next: DpbModel) -> bool {
        &&& next.capacity == self.capacity
        &&& next.last_output_poc == self.last_output_poc
        &&& if self.entries.len() < self.capacity {
            next.entries == self.entries.push(entry)
        } else {
            exists|i: int| #[trigger]
                is_victim(self.entries, i) && next.entries == self.entries.remove(i).push(entry)
        }
    }

    /// `self` with the next picture in display order taken out.
    pub open spec fn yields(self, entry: DpbEntry, next: DpbModel) -> bool {
        &&& next.capacity == self.capacity
        &&& next.last_output_poc == entry.pic_order_cnt
        &&& exists|i: int| #[trigger]
            is_next(self.entries, self.last_output_poc, i) && entry == self.entries[i]
                && next.entries == self.entries.remove(i)
    }
}

fn find_victim(entries: &Vec<DpbEntry>) -> (r: usize)
    requires
        entries@.len() > 0,
    ensures
        is_victim(entries@, r as int),
{
    let mut short: Option<usize> = None;
    let mut any: usize = 0;
    let mut i: usize = 0;
    while i < entries.len()
        invariant
            i <= entries@.len(),
            0 <= any < entries@.len(),
            any < i || i == 0,
            i == 0 ==> any == 0,
            forall|j: int|
                0 <= j < i ==> entries@[any as int].frame_num <= (
                #[trigger] entries@[j]).frame_num && (j < any ==> entries@[any as int].frame_num
                    < entries@[j].frame_num),
            match short {
                None => forall|j: int| 0 <= j < i ==> !(#[trigger] entries@[j]).short_term,
                Some(s) => {
                    &&& s < i
                    &&& entries@[s as int].short_term
                    &&& forall|j: int|
                        0 <= j < i && (#[trigger] entries@[j]).short_term
                            ==> entries@[s as int].frame_num <= entries@[j].frame_num && (j < s
                            ==> entries@[s as int].frame_num < entries@[j].frame_num)
                },
            },
        decreases entries@.len() - i,
    {
        let frame_num: u32 = entries[i].frame_num;
        if frame_num < entries[any].frame_num {
            any = i;
        }
        if entries[i].short_term {
            match short {
                None => {
                    short = Some(i);
                },
                Some(s) => {
                    if frame_num < entries[s].frame_num {
                        short = Some(i);
                    }
                },
            }
        }
        i = i + 1;
    }
    match short {
        Some(s) => {
            assert(has_short_term(entries@));
            s
        },
        None => {
            assert(!has_short_term(entries@));
            any
        },
    }
}

impl Dpb {
    /// An empty buffer for up to `max_num_ref_frames` pictures.
    pub fn new(max_num_ref_frames: usize) -> (r: Self)
        ensures
            r@.entries == Seq::<DpbEntry>::empty(),
            r@.capacity == max_num_ref_frames,
            r@.last_output_poc == i32::MIN,
    {
        Dpb { entries: Vec::new(), max_num_ref_frames, last_output_poc: i32::MIN }
    }

    /// The number of buffered pictures.
    pub fn len(&self) -> (r: usize)
        ensures
            r == self@.entries.len(),
    {
        self.entries.len()
    }

    pub fn is_empty(&self) -> (r: bool)
        ensures
            r == (self@.entries.len() == 0),
    {
        self.entries.len() == 0
    }

    /// Puts in a decoded picture. A full buffer loses a picture for it, so it
    /// has to hold one.
    pub fn insert(&mut self, entry: DpbEntry)
        requires
            old(self)@.capacity > 0 || old(self)@.entries.len() > 0,
        ensures
            old(self)@.accepts(entry, final(self)@),
    {
        if self.entries.len() >= self.max_num_ref_frames {
            let idx: usize = find_victim(&self.entries);
            let ghost before = self.entries@;
            let _evicted: DpbEntry = self.entries.remove(idx);
            assert(is_victim(before, idx as int));
        }
        self.entries.push(entry);
    }

    /// The first buffered picture with the given order count.
    pub fn find_by_poc(&self, poc: i32) -> (r: Option<&DpbEntry>)
        ensures
            match r {
                None => forall|j: int|
                    0 <= j < self@.entries.len() ==> (
                    #[trigger] self@.entries[j]).pic_order_cnt != poc,
                Some(e) => exists|i: int|
                    {
                        &&& 0 <= i < self@.entries.len()
                        &&& *e == #[trigger] self@.entries[i]
                        &&& e.pic_order_cnt == poc
                        &&& forall|j: int|
                            0 <= j < i ==> (#[trigger] self@.entries[j]).pic_order_cnt != poc
                    },
            },
    {
        let mut i: usize = 0;
        while i < self.entries.len()
            invariant
                i <= self.entries@.len(),
                forall|j: int| 0 <= j < i ==> (#[trigger] self@.entries[j]).pic_order_cnt != poc,
            decreases self.entries@.len() - i,
        {
            if self.entries[i].pic_order_cnt == poc {
                assert(self@.entries[i as int].pic_order_cnt == poc);
                return Some(&self.entries[i]);
            }
            i = i + 1;
        }
        None
    }

    /// Takes out the next picture in display order. `None` if no buffered
    /// picture lies behind the one that came out last.
    pub fn output_next(&mut self) -> (r: Option<DpbEntry>)
        ensures
            match r {
                None => final(self)@ == old(self)@ && forall|j: int|
                    0 <= j < old(self)@.entries.len() ==> (
                    #[trigger] old(self)@.entries[j]).pic_order_cnt <= old(self)@.last_output_poc,
                Some(e) => old(self)@.yields(e, final(self)@),
            },
    {
        let mut best: Option<usize> = None;
        let mut i: usize = 0;
        while i < self.entries.len()
            invariant
                i <= self.entries@.len(),
                *self == *old(self),
                match best {
                    None => forall|j: int|
                        0 <= j < i ==> (#[trigger] self.entries@[j]).pic_order_cnt
                            <= self.last_output_poc,
                    Some(b) => {
                        &&& b < i
                        &&& self.entries@[b as int].pic_order_cnt > self.last_output_poc
                        &&& forall|j: int|
                            0 <= j < i && (#[trigger] self.entries@[j]).pic_order_cnt
                                > self.last_output_poc ==> self.entries@[b as int].pic_order_cnt
                                <= self.entries@[j].pic_order_cnt && (j < b
                                ==> self.entries@[b as int].pic_order_cnt
                                < self.entries@[j].pic_order_cnt)
                    },
                },
            decreases self.entries@.len() - i,
        {
            let poc: i32 = self.entries[i].pic_order_cnt;
            if poc > self.last_output_poc {
                match best {
                    None => {
                        best = Some(i);
                    },
                    Some(b) => {
                        if poc < self.entries[b].pic_order_cnt {
                            best = Some(i);
                        }
                    },
                }
            }
            i = i + 1;
        }
        match best {
            None => None,
            Some(idx) => {
                assert(is_next(self@.entries, self@.last_output_poc, idx as int));
                let entry: DpbEntry = self.entries.remove(idx);
                self.last_output_poc = entry.pic_order_cnt;
                Some(entry)
            },
        }
    }
}

/// Bi-prediction: the rounded mean of two predictions, sample by sample.
pub fn bi_predict_avg(p0: &[u8], p1: &[u8]) -> (r: Vec<u8>)
    requires
        p0@.len() == p1@.len(),
    ensures
        r@.len() == p0@.len(),
        forall|i: int|
            0 <= i < p0@.len() ==> #[trigger] r@[i] == arith::mean2(p0@[i] as int, p1@[i] as int),
{
    let mut out: Vec<u8> = Vec::new();
    let mut i: usize = 0;
    while i < p0.len()
        invariant
            p0@.len() == p1@.len(),
            i <= p0@.len(),
            out@.len() == i,
            forall|j: int|
                0 <= j < i ==> #[trigger] out@[j] == arith::mean2(p0@[j] as int, p1@[j] as int),
        decreases p0@.len() - i,
    {
        out.push(((p0[i] as u32 + p1[i] as u32 + 1) / 2) as u8);
        i = i + 1;
    }
    out
}

/// A buffer that can hold a picture never grows beyond its capacity.
pub proof fn buffer_stays_within_capacity(d: DpbModel, entry: DpbEntry, next: DpbModel)
    requires
        d.capacity > 0,
        d.entries.len() <= d.capacity,
        d.accepts(entry, next) || d.yields(entry, next),
    ensures
        next.entries.len() <= next.capacity,
{
}

/// Pictures come out in strictly increasing order of their counts, whatever is
/// put in between.
pub proof fn pictures_come_out_in_display_order(
    a: DpbModel,
    first: DpbEntry,
    b: DpbModel,
    inserted: DpbEntry,
    c: DpbModel,
    second: DpbEntry,
    d: DpbModel,
)
    requires
        a.yields(first, b),
        b == c || b.accepts(inserted, c),
        c.yields(second, d),
    ensures
        first.pic_order_cnt < second.pic_order_cnt,
{
}

/// A picture that has just been put in can be found.
pub proof fn inserted_picture_is_present(d: DpbModel, entry: DpbEntry, next: DpbModel)
    requires
        d.accepts(entry, next),
    ensures
        next.entries.len() > 0,
        next.entries.last() == entry,
{
}

/// Long-term references stay as long as there is a short-term one to evict.
pub proof fn long_term_references_stay(d: DpbModel, entry: DpbEntry, next: DpbModel, j: int)
    requires
        d.accepts(entry, next),
        has_short_term(d.entries),
        0 <= j < d.entries.len(),
        !d.entries[j].short_term,
    ensures
        next.entries.contains(d.entries[j]),
{
    if d.entries.len() < d.capacity {
        assert(next.entries[j] == d.entries[j]);
    } else {
        let i = choose|i: int| #[trigger]
            is_victim(d.entries, i) && next.entries == d.entries.remove(i).push(entry);
        if j < i {
            assert(next.entries[j] == d.entries[j]);
        } else {
            assert(next.entries[j - 1] == d.entries[j]);
        }
    }
}

/// Bi-prediction does not depend on the order of the predictions, and keeps a
/// sample on which both agree.
pub proof fn bi_prediction_is_symmetric(a: u8, b: u8)
    ensures
        arith::mean2(a as int, b as int) == arith::mean2(b as int, a as int),
        arith::mean2(a as int, a as int) == a,
{
}

/// While there is room no picture leaves; in a full buffer one does.
pub proof fn pictures_leave_only_for_room(d: DpbModel, entry: DpbEntry, next: DpbModel)
    requires
        d.accepts(entry, next),
        d.entries.len() > 0,
    ensures
        d.entries.len() < d.capacity ==> next.entries.len() == d.entries.len() + 1
            && next.entries.drop_last() == d.entries,
        d.entries.len() >= d.capacity ==> next.entries.len() == d.entries.len(),
{
    if d.entries.len() < d.capacity {
        assert(next.entries.drop_last() =~= d.entries);
    }
}

/// Of two short-term references, the one decoded later stays.
pub proof fn later_references_stay(d: DpbModel, entry: DpbEntry, next: DpbModel, j: int, k: int)
    requires
        d.accepts(entry, next),
        0 <= j < d.entries.len(),
        0 <= k < d.entries.len(),
        d.entries[j].short_term,
        d.entries[j].frame_num < d.entries[k].frame_num,
    ensures
        next.entries.contains(d.entries[k]),
{
    assert(has_short_term(d.entries));
    assert(may_go(d.entries, j));
    if d.entries.len() < d.capacity {
        assert(next.entries[k] == d.entries[k]);
    } else {
        let i = choose|i: int| #[trigger]
            is_victim(d.entries, i) && next.entries == d.entries.remove(i).push(entry);
        assert(i != k);
        if k < i {
            assert(next.entries[k] == d.entries[k]);
        } else {
            assert(next.entries[k - 1] == d.entries[k]);
        }
    }
}

/// A picture that comes out was in the buffer and lies behind the last one that came
/// out; none that is left and lies behind that one comes before it.
pub proof fn earliest_picture_comes_out(d: DpbModel, entry: DpbEntry, next: DpbModel, j: int)
    requires
        d.yields(entry, next),
        0 <= j < next.entries.len(),
    ensures
        d.entries.contains(entry),
        entry.pic_order_cnt > d.last_output_poc,
        next.entries.len() == d.entries.len() - 1,
        d.entries.contains(next.entries[j]),
        next.entries[j].pic_order_cnt > d.last_output_poc ==> next.entries[j].pic_order_cnt
            >= entry.pic_order_cnt,
{
    let i = choose|i: int| #[trigger]
        is_next(d.entries, d.last_output_poc, i) && entry == d.entries[i] && next.entries
            == d.entries.remove(i);
    if j < i {
        assert(next.entries[j] == d.entries[j]);
    } else {
        assert(next.entries[j] == d.entries[j + 1]);
    }
}

/// The pictures that do not come out stay.
pub proof fn other_pictures_stay(d: DpbModel, entry: DpbEntry, next: DpbModel, j: int)
    requires
        d.yields(entry, next),
        0 <= j < d.entries.len(),
        d.entries[j] != entry,
    ensures
        next.entries.contains(d.entries[j]),
{
    let i = choose|i: int| #[trigger]
        is_next(d.entries, d.last_output_poc, i) && entry == d.entries[i] && next.entries
            == d.entries.remove(i);
    if j < i {
        assert(next.entries[j] == d.entries[j]);
    } else {
        assert(next.entries[j - 1] == d.entries[j]);
    }
}

/// Of two pictures that may go and have the same frame number, the one that arrived later
/// stays. Without short-term references all may go, and a higher frame number stays.
pub proof fn later_arrivals_stay(d: DpbModel, entry: DpbEntry, next: DpbModel, j: int, k: int)
    requires
        d.accepts(entry, next),
        0 <= j < d.entries.len(),
        0 <= k < d.entries.len(),
        d.entries[j].short_term || forall|i: int|
            0 <= i < d.entries.len() ==> !(#[trigger] d.entries[i]).short_term,
        d.entries[j].frame_num < d.entries[k].frame_num || (j < k && d.entries[j].frame_num
            == d.entries[k].frame_num),
    ensures
        next.entries.contains(d.entries[k]),
{
    assert(may_go(d.entries, j));
    if d.entries.len() < d.capacity {
        assert(next.entries[k] == d.entries[k]);
    } else {
        let i = choose|i: int| #[trigger]
            is_victim(d.entries, i) && next.entries == d.entries.remove(i).push(entry);
        assert(i != k);
        if k < i {
            assert(next.entries[k] == d.entries[k]);
        } else {
            assert(next.entries[k - 1] == d.entries[k]);
        }
    }
}

/// Of several pictures with the order count that is next, the first to arrive comes out.
pub proof fn first_arrival_comes_out(d: DpbModel, entry: DpbEntry, next: DpbModel, j: int)
    requires
        d.yields(entry, next),
        0 <= j < d.entries.len(),
        d.entries[j].pic_order_cnt == entry.pic_order_cnt,
        forall|i: int|
            0 <= i < j ==> (#[trigger] d.entries[i]).pic_order_cnt != entry.pic_order_cnt,
    ensures
        entry == d.entries[j],
        next.entries == d.entries.remove(j),
{
    let i = choose|i: int| #[trigger]
        is_next(d.entries, d.last_output_poc, i) && entry == d.entries[i] && next.entries
            == d.entries.remove(i);
    assert(d.entries[i].pic_order_cnt == entry.pic_order_cnt);
    assert(!(i < j));
    assert(!(j < i));
}

} // verus!
