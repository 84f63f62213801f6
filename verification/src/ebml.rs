//! EBML, the substrate of Matroska and WebM (RFC 8794): variable-length
//! integers and elements made of an identifier, a size and a payload.
use vstd::prelude::*;

use crate::bytes;

pub mod ids;

verus! {

/// The place value of the highest bit that is set in `first`, 0 for 0.
pub open spec fn marker(first: u8) -> int {
    if first >= 128 {
        128
    } else if first >= 64 {
        64
    } else if first >= 32 {
        32
    } else if first >= 16 {
        16
    } else if first >= 8 {
        8
    } else if first >= 4 {
        4
    } else if first >= 2 {
        2
    } else {
        first as int
    }
}

/// The length that the first byte of a variable-length integer announces: one
/// more than the number of zero bits before its marker. 0 for a reserved byte.
pub open spec fn vint_len(first: u8) -> int {
    if first >= 128 {
        1
    } else if first >= 64 {
        2
    } else if first >= 32 {
        3
    } else if first >= 16 {
        4
    } else if first >= 8 {
        5
    } else if first >= 4 {
        6
    } else if first >= 2 {
        7
    } else if first >= 1 {
        8
    } else {
        0
    }
}

/// Whether `buf` starts with a whole variable-length integer.
pub open spec fn has_vint(buf: Seq<u8>) -> bool {
    buf.len() > 0 && buf[0] != 0 && vint_len(buf[0]) <= buf.len()
}

/// The value of the variable-length integer at the start of `buf`, with or
/// without its marker bit.
pub open spec fn vint_value(buf: Seq<u8>, with_marker: bool) -> int {
    bytes::be_extend(
        if with_marker {
            buf[0] as int
        } else {
            buf[0] - marker(buf[0])
        },
        buf,
        1,
        (vint_len(buf[0]) - 1) as nat,
    )
}

/// An integer without its marker has seven bits for each of its bytes.
pub proof fn vint_value_bound(buf: Seq<u8>)
    requires
        has_vint(buf),
    ensures
        0 <= vint_value(buf, false) < 0x100_0000_0000_0000,
        0 <= vint_value(buf, false) < (marker(buf[0])) * bytes::power_256(
            (vint_len(buf[0]) - 1) as nat,
        ),
{
    bytes::be_extend_bound(
        buf[0] - marker(buf[0]),
        buf,
        1,
        (vint_len(buf[0]) - 1) as nat,
    );
    bytes::power_256_values();
    let (low, m, p) = (
        buf[0] - marker(buf[0]),
        marker(buf[0]),
        bytes::power_256((vint_len(buf[0]) - 1) as nat),
    );
    assert((low + 1) * p <= m * p) by (nonlinear_arith)
        requires
            low + 1 <= m,
            p > 0,
    ;
}

/// Decodes a variable-length integer: its value and its length. The marker bit
/// of the first byte is kept in the value of an identifier (`mask_marker`) and
/// stripped from that of a size.
pub fn read_vint(buf: &[u8], mask_marker: bool) -> (r: Option<(u64, usize)>)
    ensures
        r is Some <==> has_vint(buf@),
        r matches Some((value, length)) ==> value == vint_value(buf@, mask_marker) && length
            == vint_len(buf@[0]),
{
    if buf.len() == 0 {
        return None;
    }
    let first: u8 = buf[0];
    if first == 0 {
        return None;
    }
    let (length, mark): (usize, u8) = if first >= 128 {
        (1, 128)
    } else if first >= 64 {
        (2, 64)
    } else if first >= 32 {
        (3, 32)
    } else if first >= 16 {
        (4, 16)
    } else if first >= 8 {
        (5, 8)
    } else if first >= 4 {
        (6, 4)
    } else if first >= 2 {
        (7, 2)
    } else {
        (8, 1)
    };
    if buf.len() < length {
        return None;
    }
    let seed: u8 = if mask_marker {
        first
    } else {
        first - mark
    };
    proof {
        bytes::power_256_values();
        let p = bytes::power_256((length - 1) as nat);
        assert((seed + 1) * p <= 256 * p) by (nonlinear_arith)
            requires
                seed <= 255,
                p > 0,
        ;
    }
    Some((bytes::extend_be(seed as u64, buf, 1, length - 1), length))
}

/// An element: its identifier and its payload.
#[derive(Debug, Clone, Copy, PartialEq, Eq)]
pub struct Element<'a> {
    pub id: u64,
    pub payload: &'a [u8],
}

/// What an element holds.
pub struct ElementView {
    pub id: int,
    pub payload: Seq<u8>,
}

impl<'a> View for Element<'a> {
    type V = ElementView;

    open spec fn view(&self) -> ElementView {
        ElementView { id: self.id as int, payload: self.payload@ }
    }
}

/// Position of the payload of an element at the start of `buf`.
pub open spec fn payload_start(buf: Seq<u8>) -> int {
    vint_len(buf[0]) + vint_len(buf.skip(vint_len(buf[0]))[0])
}

/// Size of the payload of an element at the start of `buf`.
pub open spec fn payload_size(buf: Seq<u8>) -> int {
    vint_value(buf.skip(vint_len(buf[0])), false)
}

/// Whether `buf` starts with a whole element.
pub open spec fn has_element(buf: Seq<u8>) -> bool {
    &&& has_vint(buf)
    &&& has_vint(buf.skip(vint_len(buf[0])))
    &&& payload_start(buf) + payload_size(buf) <= buf.len()
}

/// The elements of `buf`, up to the first that is malformed or cut off.
pub open spec fn elements(buf: Seq<u8>) -> Seq<ElementView>
    decreases buf.len(),
    via elements_decreases
{
    if !has_element(buf) {
        Seq::empty()
    } else {
        let end = payload_start(buf) + payload_size(buf);
        seq![
            ElementView {
                id: vint_value(buf, true),
                payload: buf.subrange(payload_start(buf), end),
            },
        ] + elements(buf.skip(end))
    }
}

#[via_fn]
proof fn elements_decreases(buf: Seq<u8>) {
    if has_element(buf) {
        vint_value_bound(buf.skip(vint_len(buf[0])));
    }
}

pub open spec fn element_views(v: Seq<Element<'_>>) -> Seq<ElementView> {
    v.map_values(|e: Element<'_>| e@)
}

/// Walks a flat buffer of elements.
pub fn parse_elements(buf: &[u8]) -> (r: Vec<Element<'_>>)
    ensures
        element_views(r@) == elements(buf@),
{
    let mut out: Vec<Element<'_>> = Vec::new();
    let mut i: usize = 0;
    proof {
        assert(buf@.skip(0) =~= buf@);
        assert(element_views(out@) + elements(buf@) =~= elements(buf@));
    }
    while i < buf.len()
        invariant_except_break
            i <= buf@.len(),
            element_views(out@) + elements(buf@.skip(i as int)) == elements(buf@),
        ensures
            element_views(out@) == elements(buf@),
        decreases buf@.len() - i,
    {
        let rest: &[u8] = vstd::slice::slice_subrange(buf, i, buf.len());
        let ghost tail = buf@.skip(i as int);
        assert(rest@ =~= tail);
        assert(!has_element(tail) ==> element_views(out@) + elements(tail) =~= element_views(out@));
        let (id, id_len): (u64, usize) = match read_vint(rest, true) {
            Some(x) => x,
            None => {
                break;
            },
        };
        let rest: &[u8] = vstd::slice::slice_subrange(rest, id_len, rest.len());
        assert(rest@ =~= tail.skip(id_len as int));
        let (size, size_len): (u64, usize) = match read_vint(rest, false) {
            Some(x) => x,
            None => {
                break;
            },
        };
        let start: usize = i + id_len + size_len;
        if size > (buf.len() - start) as u64 {
            break;
        }
        let end: usize = start + size as usize;
        let payload: &[u8] = vstd::slice::slice_subrange(buf, start, end);
        let ghost before = element_views(out@);
        let element: Element<'_> = Element { id, payload };
        out.push(element);
        proof {
            assert(payload@ =~= tail.subrange(start - i, end - i));
            assert(tail.skip(end - i) =~= buf@.skip(end as int));
            assert(element_views(out@) =~= before.push(element@));
            assert(before + (seq![element@] + elements(buf@.skip(end as int))) =~= before.push(
                element@,
            ) + elements(buf@.skip(end as int)));
        }
        i = end;
        assert(i == buf@.len() ==> element_views(out@) + elements(buf@.skip(i as int))
            =~= element_views(out@));
    }
    out
}

/// Payloads take up less room than the buffer that they lie in.
pub proof fn payloads_lie_in_the_buffer(buf: Seq<u8>, k: int)
    requires
        0 <= k < elements(buf).len(),
    ensures
        elements(buf)[k].payload.len() + 2 <= buf.len(),
    decreases buf.len(),
{
    vint_value_bound(buf.skip(vint_len(buf[0])));
    if k > 0 {
        let end = payload_start(buf) + payload_size(buf);
        payloads_lie_in_the_buffer(buf.skip(end), k - 1);
    }
}

/// The marker of integers of `n` bytes.
pub open spec fn marker_of(n: int) -> int {
    if n == 1 {
        128
    } else if n == 2 {
        64
    } else if n == 3 {
        32
    } else if n == 4 {
        16
    } else if n == 5 {
        8
    } else if n == 6 {
        4
    } else if n == 7 {
        2
    } else {
        1
    }
}

/// The `n` lowest bytes of a number, most significant first.
pub open spec fn low_bytes(v: int, n: nat) -> Seq<u8>
    decreases n,
{
    if n == 0 {
        Seq::empty()
    } else {
        low_bytes(v / 256, (n - 1) as nat).push((v % 256) as u8)
    }
}

/// A size as it is written in `n` bytes.
pub open spec fn written_size(v: int, n: int) -> Seq<u8> {
    let p = bytes::power_256((n - 1) as nat);
    seq![(marker_of(n) + v / p) as u8] + low_bytes(v % p, (n - 1) as nat)
}

proof fn low_bytes_read_back(seed: int, v: int, n: nat, buf: Seq<u8>, i: int)
    requires
        0 <= v < bytes::power_256(n),
        0 <= i,
        i + n <= buf.len(),
        buf.subrange(i, i + n) == low_bytes(v, n),
    ensures
        bytes::be_extend(seed, buf, i, n) == seed * bytes::power_256(n) + v,
        low_bytes(v, n).len() == n,
    decreases n,
{
    if n > 0 {
        let m = (n - 1) as nat;
        let p = bytes::power_256(m);
        low_bytes_len(v / 256, m);
        let all = buf.subrange(i, i + n);
        assert(all.drop_last() =~= low_bytes(v / 256, m));
        assert(buf.subrange(i, i + m) =~= all.drop_last());
        assert(all.last() == buf[i + n - 1]);
        low_bytes_read_back(seed, v / 256, m, buf, i);
        assert(256 * (seed * p) == seed * (256 * p)) by (nonlinear_arith);
    }
}

proof fn low_bytes_len(v: int, n: nat)
    ensures
        low_bytes(v, n).len() == n,
    decreases n,
{
    if n > 0 {
        low_bytes_len(v / 256, (n - 1) as nat);
    }
}

/// A size that was written in `n` bytes, followed by anything, is read back.
pub proof fn written_sizes_are_read(v: int, n: int, rest: Seq<u8>)
    requires
        1 <= n <= 8,
        0 <= v < bytes::power_128(n as nat),
    ensures
        written_size(v, n).len() == n,
        has_vint(written_size(v, n) + rest),
        vint_len((written_size(v, n) + rest)[0]) == n,
        vint_value(written_size(v, n) + rest, false) == v,
{
    let m = (n - 1) as nat;
    let p = bytes::power_256(m);
    let buf = written_size(v, n) + rest;
    bytes::power_256_values();
    bytes::power_128_values();
    low_bytes_len(v % p, m);
    assert(marker_of(n) * p == bytes::power_128(n as nat));
    assert(0 <= v / p < marker_of(n) && 0 <= v % p < p && v == (v / p) * p + v % p)
        by (nonlinear_arith)
        requires
            0 <= v < marker_of(n) * p,
            p > 0,
    ;
    assert(buf[0] == marker_of(n) + v / p);
    assert(buf.subrange(1, n) =~= low_bytes(v % p, m));
    low_bytes_read_back(buf[0] - marker(buf[0]), v % p, m, buf, 1);
}

proof fn be_extend_local(seed: int, a: Seq<u8>, b: Seq<u8>, i: int, n: nat)
    requires
        0 <= i,
        i + n <= a.len(),
    ensures
        bytes::be_extend(seed, a + b, i, n) == bytes::be_extend(seed, a, i, n),
    decreases n,
{
    if n > 0 {
        be_extend_local(seed, a, b, i, (n - 1) as nat);
    }
}

/// The header of an element that was written, followed by anything, is read back:
/// its identifier and its size.
pub proof fn written_header_is_read(id: Seq<u8>, n: int, payload: Seq<u8>, rest: Seq<u8>)
    requires
        has_vint(id),
        id.len() == vint_len(id[0]),
        1 <= n <= 8,
        payload.len() < bytes::power_128(n as nat),
    ensures
        ({
            let size = written_size(payload.len() as int, n);
            let buf = id + size + payload + rest;
            let behind = buf.skip(vint_len(buf[0]));
            &&& size.len() == n
            &&& has_vint(buf) && vint_len(buf[0]) == id.len()
            &&& vint_value(buf, true) == vint_value(id, true)
            &&& has_vint(behind) && vint_len(behind[0]) == n
            &&& vint_value(behind, false) == payload.len()
        }),
{
    let size = written_size(payload.len() as int, n);
    let behind = payload + rest;
    let buf = id + size + payload + rest;
    assert(buf =~= id + (size + behind));
    written_sizes_are_read(payload.len() as int, n, behind);
    be_extend_local(id[0] as int, id, size + behind, 1, (id.len() - 1) as nat);
    assert(buf[0] == id[0]);
    assert(buf.skip(id.len() as int) =~= size + behind);
}

/// Walking an element that was written, followed by others, finds it first and
/// goes on behind it. `id` is its identifier, and its size takes `n` bytes.
pub proof fn written_elements_are_found(id: Seq<u8>, n: int, payload: Seq<u8>, rest: Seq<u8>)
    requires
        has_vint(id),
        id.len() == vint_len(id[0]),
        1 <= n <= 8,
        payload.len() < bytes::power_128(n as nat),
    ensures
        elements(id + written_size(payload.len() as int, n) + payload + rest) == seq![
            ElementView { id: vint_value(id, true), payload },
        ] + elements(rest),
{
    let buf = id + written_size(payload.len() as int, n) + payload + rest;
    written_header_is_read(id, n, payload, rest);
    let start = id.len() + n;
    let end = start + payload.len();
    assert(buf.subrange(start, end) =~= payload);
    assert(buf.skip(end) =~= rest);
}

} // verus!
