//! MP4 (ISO base media file format) boxes.
//!
//! A box has a 32-bit size, a four-character type and a payload. A size of 1
//! announces a 64-bit size behind the type; a size of 0 extends the box to the
//! end.
use vstd::prelude::*;
use vstd::utf8::*;

use crate::bytes;

verus! {

/// A box: its type and the bytes behind its header.
#[derive(Debug, Clone, Copy, PartialEq, Eq)]
pub struct Box4<'a> {
    pub box_type: [u8; 4],
    pub payload: &'a [u8],
}

/// What a box holds.
pub struct BoxView {
    pub box_type: Seq<u8>,
    pub payload: Seq<u8>,
}

impl<'a> View for Box4<'a> {
    type V = BoxView;

    open spec fn view(&self) -> BoxView {
        BoxView { box_type: self.box_type@, payload: self.payload@ }
    }
}

/// `std::str::from_utf8`: the text that a byte string encodes, if it is valid
/// UTF-8.
#[verifier::external_body]
fn utf8_text(bytes: &[u8]) -> (r: Option<&str>)
    ensures
        r is Some <==> valid_utf8(bytes@),
        r is Some ==> r->0@ == decode_utf8(bytes@),
{
    std::str::from_utf8(bytes).ok()
}

impl<'a> Box4<'a> {
    /// The type as text, or four question marks if it is not UTF-8.
    pub fn type_as_str(&self) -> (r: &str)
        ensures
            valid_utf8(self.box_type@) ==> r@ == decode_utf8(self.box_type@),
            !valid_utf8(self.box_type@) ==> r@ == "????"@,
    {
        match utf8_text(self.box_type.as_slice()) {
            Some(text) => text,
            None => "????",
        }
    }
}

/// Header length and total length of the box at the start of `buf`, if it is
/// well formed and not cut off.
pub open spec fn box_extent(buf: Seq<u8>) -> Option<(int, int)> {
    let size = bytes::be_value(buf, 0, 4);
    let (header, total) = if size == 0 {
        (8, buf.len() as int)
    } else if size == 1 {
        (16, bytes::be_value(buf, 8, 8))
    } else {
        (8, size)
    };
    if buf.len() < 8 || buf.len() < header || total < header || total > buf.len() {
        None
    } else {
        Some((header, total))
    }
}

/// The boxes of `buf`, up to the first that is malformed or cut off.
pub open spec fn boxes(buf: Seq<u8>) -> Seq<BoxView>
    decreases buf.len(),
{
    match box_extent(buf) {
        None => Seq::empty(),
        Some((header, total)) => seq![
            BoxView {
                box_type: buf.subrange(4, 8),
                payload: buf.subrange(header, total),
            },
        ] + boxes(buf.skip(total)),
    }
}

pub open spec fn box_views(v: Seq<Box4<'_>>) -> Seq<BoxView> {
    v.map_values(|b: Box4<'_>| b@)
}

fn extent(buf: &[u8]) -> (r: Option<(usize, usize)>)
    ensures
        match r {
            None => box_extent(buf@) is None,
            Some((header, total)) => box_extent(buf@) == Some((header as int, total as int)),
        },
{
    if buf.len() < 8 {
        return None;
    }
    let size: u64 = bytes::read_be(buf, 0, 4);
    let (header, total): (usize, u64) = if size == 0 {
        (8, buf.len() as u64)
    } else if size == 1 {
        if buf.len() < 16 {
            return None;
        }
        (16, bytes::read_be(buf, 8, 8))
    } else {
        (8, size)
    };
    if total > buf.len() as u64 || total < header as u64 {
        return None;
    }
    Some((header, total as usize))
}

/// Walks a flat buffer of boxes.
pub fn parse_boxes(buf: &[u8]) -> (r: Vec<Box4<'_>>)
    ensures
        box_views(r@) == boxes(buf@),
{
    let mut out: Vec<Box4<'_>> = Vec::new();
    let mut i: usize = 0;
    proof {
        assert(buf@.skip(0) =~= buf@);
        assert(box_views(out@) + boxes(buf@) =~= boxes(buf@));
    }
    loop
        invariant_except_break
            i <= buf@.len(),
            box_views(out@) + boxes(buf@.skip(i as int)) == boxes(buf@),
        ensures
            box_views(out@) == boxes(buf@),
        decreases buf@.len() - i,
    {
        let rest: &[u8] = vstd::slice::slice_subrange(buf, i, buf.len());
        let ghost tail = buf@.skip(i as int);
        assert(rest@ =~= tail);
        let (header, total): (usize, usize) = match extent(rest) {
            Some(x) => x,
            None => {
                assert(box_views(out@) + boxes(tail) =~= box_views(out@));
                break;
            },
        };
        let box_type: [u8; 4] = [rest[4], rest[5], rest[6], rest[7]];
        let payload: &[u8] = vstd::slice::slice_subrange(rest, header, total);
        let ghost before = box_views(out@);
        let found: Box4<'_> = Box4 { box_type, payload };
        out.push(found);
        proof {
            assert(found.box_type@ =~= tail.subrange(4, 8));
            assert(tail.skip(total as int) =~= buf@.skip(i + total));
            assert(box_views(out@) =~= before.push(found@));
            assert(before + (seq![found@] + boxes(buf@.skip(i + total))) =~= before.push(found@)
                + boxes(buf@.skip(i + total)));
        }
        i = i + total;
    }
    out
}

/// Whether two four-character codes are equal.
fn same_type(a: &[u8; 4], b: &[u8; 4]) -> (r: bool)
    ensures
        r == (a@ == b@),
{
    let r: bool = a[0] == b[0] && a[1] == b[1] && a[2] == b[2] && a[3] == b[3];
    assert(r ==> a@ =~= b@);
    r
}

/// The first box of a payload that has the given type.
pub fn find_child<'a>(container_payload: &'a [u8], type_tag: &[u8; 4]) -> (r: Option<Box4<'a>>)
    ensures
        match r {
            None => forall|j: int|
                0 <= j < boxes(container_payload@).len() ==> (
                #[trigger] boxes(container_payload@)[j]).box_type != type_tag@,
            Some(b) => exists|i: int|
                {
                    &&& 0 <= i < boxes(container_payload@).len()
                    &&& b@ == #[trigger] boxes(container_payload@)[i]
                    &&& b@.box_type == type_tag@
                    &&& forall|j: int|
                        0 <= j < i ==> (#[trigger] boxes(container_payload@)[j]).box_type
                            != type_tag@
                },
        },
{
    let found: Vec<Box4<'a>> = parse_boxes(container_payload);
    let ghost views = boxes(container_payload@);
    let mut i: usize = 0;
    while i < found.len()
        invariant
            i <= found@.len(),
            views == box_views(found@),
            views == boxes(container_payload@),
            forall|j: int| 0 <= j < i ==> (#[trigger] views[j]).box_type != type_tag@,
        decreases found@.len() - i,
    {
        let b: Box4<'a> = found[i];
        assert(views[i as int] == b@);
        if same_type(&b.box_type, type_tag) {
            return Some(b);
        }
        i = i + 1;
    }
    None
}

/// The `ftyp` box with which a file starts.
#[derive(Debug, Clone, PartialEq, Eq)]
pub struct FtypBox {
    pub major_brand: [u8; 4],
    pub minor_version: u32,
    pub compatible_brands: Vec<[u8; 4]>,
}

/// `b` is an `ftyp` box.
pub open spec fn is_ftyp(b: BoxView) -> bool {
    b.box_type == seq![0x66u8, 0x74u8, 0x79u8, 0x70u8] && b.payload.len() >= 8
}

/// `f` is what an `ftyp` box says: the major brand, the minor version and as
/// many compatible brands as there are whole groups of four bytes behind them.
pub open spec fn ftyp_holds(f: FtypBox, payload: Seq<u8>) -> bool {
    &&& f.major_brand@ == payload.subrange(0, 4)
    &&& f.minor_version == bytes::be_value(payload, 4, 4)
    &&& f.compatible_brands@.len() == (payload.len() - 8) / 4
    &&& forall|k: int|
        0 <= k < f.compatible_brands@.len() ==> (#[trigger] f.compatible_brands@[k])@
            == payload.subrange(8 + 4 * k, 12 + 4 * k)
}

/// Parses an `ftyp` box. `None` if `b` has another type or is too short.
pub fn parse_ftyp(b: &Box4<'_>) -> (r: Option<FtypBox>)
    ensures
        r is Some <==> is_ftyp(b@),
        r is Some ==> ftyp_holds(r->0, b.payload@),
{
    let tag: [u8; 4] = [0x66, 0x74, 0x79, 0x70];
    assert(tag@ =~= seq![0x66u8, 0x74u8, 0x79u8, 0x70u8]);
    if !same_type(&b.box_type, &tag) || b.payload.len() < 8 {
        return None;
    }
    let p: &[u8] = b.payload;
    let major_brand: [u8; 4] = [p[0], p[1], p[2], p[3]];
    assert(major_brand@ =~= p@.subrange(0, 4));
    proof {
        bytes::power_256_values();
    }
    let minor_version: u32 = bytes::read_be(p, 4, 4) as u32;
    let mut compatible_brands: Vec<[u8; 4]> = Vec::new();
    let mut i: usize = 8;
    while p.len() - i >= 4
        invariant
            8 <= i <= p@.len(),
            i == 8 + 4 * compatible_brands@.len(),
            forall|k: int|
                0 <= k < compatible_brands@.len() ==> (#[trigger] compatible_brands@[k])@
                    == p@.subrange(8 + 4 * k, 12 + 4 * k),
        decreases p@.len() - i,
    {
        let brand: [u8; 4] = [p[i], p[i + 1], p[i + 2], p[i + 3]];
        assert(brand@ =~= p@.subrange(i as int, i + 4));
        compatible_brands.push(brand);
        i = i + 4;
    }
    Some(FtypBox { major_brand, minor_version, compatible_brands })
}

/// A box of less than 2^32 bytes as it is written: size, type and payload.
pub open spec fn written_box(box_type: Seq<u8>, payload: Seq<u8>) -> Seq<u8> {
    let size = payload.len() + 8;
    seq![
        (size / 0x100_0000) as u8,
        (size / 0x1_0000 % 0x100) as u8,
        (size / 0x100 % 0x100) as u8,
        (size % 0x100) as u8,
    ] + box_type + payload
}

/// Walking a box that was written, followed by others, finds it first and goes
/// on behind it.
pub proof fn written_boxes_are_found(box_type: Seq<u8>, payload: Seq<u8>, rest: Seq<u8>)
    requires
        box_type.len() == 4,
        payload.len() + 8 < 0x1_0000_0000,
    ensures
        boxes(written_box(box_type, payload) + rest) == seq![BoxView { box_type, payload }] + boxes(
            rest,
        ),
{
    let buf = written_box(box_type, payload) + rest;
    let size = payload.len() + 8;
    bytes::be_value_spelled_out(buf, 0);
    assert(bytes::be_value(buf, 0, 4) == size);
    assert(box_extent(buf) == Some((8int, size as int)));
    assert(buf.subrange(4, 8) =~= box_type);
    assert(buf.subrange(8, size as int) =~= payload);
    assert(buf.skip(size as int) =~= rest);
}

/// Payloads take up less room than the buffer that they lie in.
pub proof fn box_payloads_lie_in_the_buffer(buf: Seq<u8>, k: int)
    requires
        0 <= k < boxes(buf).len(),
    ensures
        boxes(buf)[k].payload.len() + 8 <= buf.len(),
    decreases buf.len(),
{
    if k > 0 {
        box_payloads_lie_in_the_buffer(buf.skip((box_extent(buf)->0).1), k - 1);
    }
}

/// A tail too short for a header adds no box.
pub proof fn short_tails_are_ignored(buf: Seq<u8>)
    requires
        buf.len() < 8,
    ensures
        boxes(buf).len() == 0,
{
}

/// The brands from the `k`-th on, one behind the other.
pub open spec fn written_brands(brands: Seq<[u8; 4]>, k: int) -> Seq<u8>
    decreases brands.len() - k,
{
    if k >= brands.len() {
        Seq::empty()
    } else {
        brands[k]@ + written_brands(brands, k + 1)
    }
}

/// The payload of an `ftyp` box as it is written.
pub open spec fn written_ftyp(f: FtypBox) -> Seq<u8> {
    let v = f.minor_version as int;
    f.major_brand@ + (seq![
        (v / 0x100_0000) as u8,
        (v / 0x1_0000 % 0x100) as u8,
        (v / 0x100 % 0x100) as u8,
        (v % 0x100) as u8,
    ] + written_brands(f.compatible_brands@, 0))
}

proof fn brands_in_place(brands: Seq<[u8; 4]>, k: int, j: int)
    requires
        0 <= k <= j < brands.len(),
    ensures
        written_brands(brands, k).len() == 4 * (brands.len() - k),
        written_brands(brands, k).subrange(4 * (j - k), 4 * (j - k) + 4) == brands[j]@,
    decreases brands.len() - k,
{
    let w = written_brands(brands, k);
    let rest = written_brands(brands, k + 1);
    brands_length(brands, k + 1);
    assert(w =~= brands[k]@ + rest);
    if k == j {
        assert(w.subrange(0, 4) =~= brands[k]@);
    } else {
        brands_in_place(brands, k + 1, j);
        assert(w.subrange(4 * (j - k), 4 * (j - k) + 4) =~= rest.subrange(
            4 * (j - k - 1),
            4 * (j - k - 1) + 4,
        ));
    }
}

proof fn brands_length(brands: Seq<[u8; 4]>, k: int)
    requires
        0 <= k <= brands.len(),
    ensures
        written_brands(brands, k).len() == 4 * (brands.len() - k),
    decreases brands.len() - k,
{
    if k < brands.len() {
        brands_length(brands, k + 1);
    }
}

/// An `ftyp` box that was written is one, and is read back; up to three bytes at its end
/// that make up no brand are ignored.
pub proof fn written_types_are_read(f: FtypBox, tail: Seq<u8>)
    requires
        tail.len() < 4,
    ensures
        is_ftyp(
            BoxView {
                box_type: seq![0x66u8, 0x74, 0x79, 0x70],
                payload: written_ftyp(f) + tail,
            },
        ),
        ftyp_holds(f, written_ftyp(f) + tail),
{
    let p = written_ftyp(f) + tail;
    let brands = f.compatible_brands@;
    brands_length(brands, 0);
    bytes::be_value_spelled_out(p, 4);
    assert(p.subrange(0, 4) =~= f.major_brand@);
    assert forall|k: int| 0 <= k < brands.len() implies (#[trigger] brands[k])@ == p.subrange(
        8 + 4 * k,
        12 + 4 * k,
    ) by {
        brands_in_place(brands, 0, k);
        assert(p.subrange(8 + 4 * k, 12 + 4 * k) =~= written_brands(brands, 0).subrange(
            4 * k,
            4 * k + 4,
        ));
    }
}

/// A box with a 64-bit size is found like any other.
pub proof fn large_boxes_are_found(
    box_type: Seq<u8>,
    payload: Seq<u8>,
    high: Seq<u8>,
    rest: Seq<u8>,
)
    requires
        box_type.len() == 4,
        high.len() == 8,
        bytes::be_value(high, 0, 8) == payload.len() + 16,
    ensures
        boxes(seq![0u8, 0, 0, 1] + (box_type + (high + (payload + rest)))) == seq![
            BoxView { box_type, payload },
        ] + boxes(rest),
{
    let buf = seq![0u8, 0, 0, 1] + (box_type + (high + (payload + rest)));
    let size = payload.len() + 16;
    bytes::be_value_spelled_out(buf, 0);
    shifted_number(buf, high, 8, 8);
    assert(buf.subrange(4, 8) =~= box_type);
    assert(buf.subrange(16, size as int) =~= payload);
    assert(buf.skip(size as int) =~= rest);
}

proof fn shifted_number(buf: Seq<u8>, part: Seq<u8>, i: int, n: nat)
    requires
        0 <= i,
        i + n <= buf.len(),
        n <= part.len(),
        forall|k: int| 0 <= k < n ==> #[trigger] buf[i + k] == part[k],
    ensures
        bytes::be_value(buf, i, n) == bytes::be_value(part, 0, n),
    decreases n,
{
    if n > 0 {
        shifted_number(buf, part, i, (n - 1) as nat);
        assert(buf[i + (n - 1)] == part[n - 1]);
    }
}

/// A box whose size is zero extends to the end.
pub proof fn open_boxes_reach_the_end(box_type: Seq<u8>, payload: Seq<u8>)
    requires
        box_type.len() == 4,
    ensures
        boxes(seq![0u8, 0, 0, 0] + (box_type + payload)) == seq![BoxView { box_type, payload }],
{
    let buf = seq![0u8, 0, 0, 0] + (box_type + payload);
    bytes::be_value_spelled_out(buf, 0);
    assert(buf.subrange(4, 8) =~= box_type);
    assert(buf.subrange(8, buf.len() as int) =~= payload);
    let none = buf.skip(buf.len() as int);
    assert(none.len() == 0);
    short_tails_are_ignored(none);
    assert(boxes(none) =~= Seq::<BoxView>::empty());
    assert(box_extent(buf) == Some((8int, buf.len() as int)));
    assert(boxes(buf) =~= seq![BoxView { box_type, payload }]);
}

} // verus!
