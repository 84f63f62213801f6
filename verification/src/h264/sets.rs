//! The parts of a parameter set that are passed over, as they are written.
use vstd::prelude::*;

use crate::h264::fields;
use crate::h264::Cursor;

verus! {

/// Signed codes from the `k`-th on, one behind the other.
pub open spec fn signed_codes(v: Seq<i32>, k: int) -> Seq<int>
    decreases v.len() - k,
{
    if k >= v.len() {
        Seq::empty()
    } else {
        fields::signed(v[k] as int) + signed_codes(v, k + 1)
    }
}

proof fn signed_codes_are_passed(c: Cursor, v: Seq<i32>, k: int, rest: Seq<int>)
    requires
        0 <= k <= v.len(),
        forall|i: int| 0 <= i < v.len() ==> #[trigger] v[i] > i32::MIN,
        fields::stands_before(c, signed_codes(v, k) + rest),
    ensures
        fields::stands_before(c.past_signed((v.len() - k) as nat), rest),
        c.past_signed((v.len() - k) as nat).data == c.data,
    decreases v.len() - k,
{
    if k < v.len() {
        let tail = signed_codes(v, k + 1) + rest;
        assert(signed_codes(v, k) + rest =~= fields::signed(v[k] as int) + tail);
        fields::signed_codes_are_read(c, v[k], tail);
        signed_codes_are_passed(c.se().1, v, k + 1, rest);
    } else {
        assert(signed_codes(v, k) + rest =~= rest);
    }
}

/// Picture order count fields of the second type as they are written: a flag, two
/// offsets, and a list of offsets with its length before it.
pub open spec fn cycle_fields(always_zero: bool, first: i32, second: i32, offsets: Seq<i32>) -> Seq<
    int,
> {
    fields::unsigned(1) + (fields::flag(always_zero) + (fields::signed(first as int) + (
    fields::signed(second as int) + (fields::unsigned(offsets.len() as int) + signed_codes(
        offsets,
        0,
    )))))
}

/// Behind picture order count fields of the second type, what follows is read.
pub proof fn cycles_are_passed(
    c: Cursor,
    always_zero: bool,
    first: i32,
    second: i32,
    offsets: Seq<i32>,
    rest: Seq<int>,
)
    requires
        first > i32::MIN,
        second > i32::MIN,
        offsets.len() < u32::MAX,
        forall|i: int| 0 <= i < offsets.len() ==> #[trigger] offsets[i] > i32::MIN,
        fields::stands_before(c, cycle_fields(always_zero, first, second, offsets) + rest),
    ensures
        fields::stands_before(c.past_order_count(), rest),
        c.past_order_count().data == c.data,
{
    let n = offsets.len() as u32;
    let r4 = signed_codes(offsets, 0) + rest;
    let r3 = fields::unsigned(n as int) + r4;
    let r2 = fields::signed(second as int) + r3;
    let r1 = fields::signed(first as int) + r2;
    let r0 = fields::flag(always_zero) + r1;
    assert(cycle_fields(always_zero, first, second, offsets) + rest =~= fields::unsigned(1) + r0);
    fields::unsigned_codes_are_read(c, 1, r0);
    let c1 = c.ue().1;
    fields::flags_are_read(c1, always_zero, r1);
    let c2 = c1.bit().1;
    fields::signed_codes_are_read(c2, first, r2);
    let c3 = c2.se().1;
    fields::signed_codes_are_read(c3, second, r3);
    let c4 = c3.se().1;
    fields::unsigned_codes_are_read(c4, n, r4);
    let c5 = c4.ue().1;
    signed_codes_are_passed(c5, offsets, 0, rest);
}

/// The scales from the `k`-th on as they are written: each as the difference to the one
/// before. A list that is shorter than it could be ends with a scale of zero.
pub open spec fn written_scales(scales: Seq<int>, size: nat, k: int, last: int) -> Seq<int>
    decreases scales.len() - k,
{
    if k >= scales.len() {
        if k < size {
            fields::signed(-last)
        } else {
            Seq::empty()
        }
    } else {
        fields::signed(scales[k] - last) + written_scales(scales, size, k + 1, scales[k])
    }
}

proof fn scales_are_passed(
    c: Cursor,
    scales: Seq<int>,
    size: nat,
    k: int,
    last: int,
    rest: Seq<int>,
)
    requires
        0 <= k <= scales.len() <= size,
        1 <= last <= 255,
        forall|i: int| 0 <= i < scales.len() ==> 1 <= #[trigger] scales[i] <= 255,
        fields::stands_before(c, written_scales(scales, size, k, last) + rest),
    ensures
        fields::stands_before(c.past_scaling_entries((size - k) as nat, last), rest),
        c.past_scaling_entries((size - k) as nat, last).data == c.data,
    decreases scales.len() - k,
{
    if k < scales.len() {
        let s = scales[k];
        let tail = written_scales(scales, size, k + 1, s) + rest;
        assert(written_scales(scales, size, k, last) + rest =~= fields::signed(s - last) + tail);
        fields::signed_codes_are_read(c, (s - last) as i32, tail);
        assert((last + (s - last)) % 256 == s);
        scales_are_passed(c.se().1, scales, size, k + 1, s, rest);
    } else if k < size {
        fields::signed_codes_are_read(c, (-last) as i32, rest);
        assert((last + -last) % 256 == 0);
    } else {
        assert(written_scales(scales, size, k, last) + rest =~= rest);
    }
}

/// How many scales the list at place `i` holds.
pub open spec fn list_size(i: int) -> nat {
    if i < 6 {
        16
    } else {
        64
    }
}

/// The scaling lists from the `i`-th on as they are written, each behind a flag that
/// tells whether it is there.
pub open spec fn written_lists(lists: Seq<Option<Seq<int>>>, i: int) -> Seq<int>
    decreases lists.len() - i,
{
    if i >= lists.len() {
        Seq::empty()
    } else {
        match lists[i] {
            Some(scales) => fields::flag(true) + (written_scales(scales, list_size(i), 0, 8)
                + written_lists(lists, i + 1)),
            None => fields::flag(false) + written_lists(lists, i + 1),
        }
    }
}

/// A scaling list that can be written.
pub open spec fn can_be_list(scales: Seq<int>, i: int) -> bool {
    &&& scales.len() <= list_size(i)
    &&& forall|k: int| 0 <= k < scales.len() ==> 1 <= #[trigger] scales[k] <= 255
}

/// Behind scaling lists, of which each may be there or not and may end early, what
/// follows is read.
pub proof fn scaling_lists_are_passed(
    c: Cursor,
    lists: Seq<Option<Seq<int>>>,
    i: int,
    rest: Seq<int>,
)
    requires
        0 <= i <= lists.len(),
        forall|k: int|
            0 <= k < lists.len() ==> ((#[trigger] lists[k]) matches Some(scales) ==> can_be_list(
                scales,
                k,
            )),
        fields::stands_before(c, written_lists(lists, i) + rest),
    ensures
        fields::stands_before(c.past_scaling_lists(i as nat, lists.len()), rest),
        c.past_scaling_lists(i as nat, lists.len()).data == c.data,
    decreases lists.len() - i,
{
    if i < lists.len() {
        let behind = written_lists(lists, i + 1) + rest;
        match lists[i] {
            Some(scales) => {
                let tail = written_scales(scales, list_size(i), 0, 8) + behind;
                assert(written_lists(lists, i) + rest =~= fields::flag(true) + tail);
                fields::flags_are_read(c, true, tail);
                scales_are_passed(c.bit().1, scales, list_size(i), 0, 8, behind);
                scaling_lists_are_passed(
                    c.bit().1.past_scaling_entries(list_size(i), 8),
                    lists,
                    i + 1,
                    rest,
                );
            },
            None => {
                assert(written_lists(lists, i) + rest =~= fields::flag(false) + behind);
                fields::flags_are_read(c, false, behind);
                scaling_lists_are_passed(c.bit().1, lists, i + 1, rest);
            },
        }
    } else {
        assert(written_lists(lists, i) + rest =~= rest);
    }
}

/// The chroma format with scaling lists is passed like the one without: there are twelve
/// lists in the fullest format and eight in the others.
pub proof fn chroma_formats_with_lists_are_passed(
    c: Cursor,
    format: u32,
    separate: bool,
    luma: u32,
    chroma: u32,
    bypass: bool,
    lists: Seq<Option<Seq<int>>>,
    rest: Seq<int>,
)
    requires
        format < u32::MAX,
        luma < u32::MAX,
        chroma < u32::MAX,
        lists.len() == if format == 3 {
            12nat
        } else {
            8
        },
        forall|k: int|
            0 <= k < lists.len() ==> ((#[trigger] lists[k]) matches Some(scales) ==> can_be_list(
                scales,
                k,
            )),
        fields::stands_before(
            c,
            fields::unsigned(format as int) + ((if format == 3 {
                fields::flag(separate)
            } else {
                Seq::empty()
            }) + (fields::unsigned(luma as int) + (fields::unsigned(chroma as int) + (fields::flag(
                bypass,
            ) + (fields::flag(true) + (written_lists(lists, 0) + rest)))))),
        ),
    ensures
        fields::stands_before(c.past_chroma_format(), rest),
        c.past_chroma_format().data == c.data,
{
    let r5 = written_lists(lists, 0) + rest;
    let r4 = fields::flag(true) + r5;
    let r3 = fields::flag(bypass) + r4;
    let r2 = fields::unsigned(chroma as int) + r3;
    let r1 = fields::unsigned(luma as int) + r2;
    let r0 = (if format == 3 {
        fields::flag(separate)
    } else {
        Seq::empty()
    }) + r1;
    fields::unsigned_codes_are_read(c, format, r0);
    let c0 = c.ue().1;
    let c1 = if format == 3 {
        c0.bit().1
    } else {
        c0
    };
    if format == 3 {
        fields::flags_are_read(c0, separate, r1);
    } else {
        assert(r0 =~= r1);
    }
    fields::unsigned_codes_are_read(c1, luma, r2);
    fields::unsigned_codes_are_read(c1.ue().1, chroma, r3);
    let c2 = c1.ue().1.ue().1;
    fields::flags_are_read(c2, bypass, r4);
    let c3 = c2.bit().1;
    fields::flags_are_read(c3, true, r5);
    scaling_lists_are_passed(c3.bit().1, lists, 0, rest);
}

} // verus!
