//! Frames that were laced into a block come apart again.
use vstd::prelude::*;

use crate::bytes;
use crate::ebml;
use crate::webm;

verus! {

/// The sizes of all frames but the last.
pub open spec fn sizes_of(frames: Seq<Seq<u8>>) -> Seq<int> {
    Seq::new((frames.len() - 1) as nat, |k: int| frames[k].len() as int)
}

/// A size as a sum of bytes, the last of them the first that is not 255.
pub open spec fn xiph_coded(size: int) -> Seq<u8>
    decreases size,
{
    if size >= 255 {
        seq![255u8] + xiph_coded(size - 255)
    } else {
        seq![size as u8]
    }
}

/// Sizes from the `k`-th on, one behind the other.
pub open spec fn xiph_coded_from(sizes: Seq<int>, k: int) -> Seq<u8>
    decreases sizes.len() - k,
{
    if k >= sizes.len() {
        Seq::empty()
    } else {
        xiph_coded(sizes[k]) + xiph_coded_from(sizes, k + 1)
    }
}

/// Frames with Xiph lacing.
pub open spec fn xiph_laced(frames: Seq<Seq<u8>>) -> Seq<u8> {
    seq![(frames.len() - 1) as u8] + xiph_coded_from(sizes_of(frames), 0) + frames.flatten()
}

/// Frames of equal size with fixed-size lacing.
pub open spec fn fixed_laced(frames: Seq<Seq<u8>>) -> Seq<u8> {
    seq![(frames.len() - 1) as u8] + frames.flatten()
}

/// The bias of differences that are coded in `n` bytes.
pub open spec fn bias(n: int) -> int {
    bytes::power_128(n as nat) / 2 - 1
}

/// Differences of sizes from the `k`-th on to those before, each in its number of
/// bytes, one behind the other.
pub open spec fn differences_from(sizes: Seq<int>, widths: Seq<int>, k: int) -> Seq<u8>
    decreases sizes.len() - k,
{
    if k >= sizes.len() {
        Seq::empty()
    } else {
        ebml::written_size(sizes[k] - sizes[k - 1] + bias(widths[k]), widths[k]) + differences_from(
            sizes,
            widths,
            k + 1,
        )
    }
}

/// Frames with EBML lacing, where the `k`-th size takes `widths[k]` bytes. A
/// single frame has no size.
pub open spec fn ebml_laced(frames: Seq<Seq<u8>>, widths: Seq<int>) -> Seq<u8> {
    let sizes = sizes_of(frames);
    if frames.len() == 1 {
        seq![0u8] + frames[0]
    } else {
        seq![(frames.len() - 1) as u8] + ebml::written_size(sizes[0], widths[0])
            + differences_from(sizes, widths, 1) + frames.flatten()
    }
}

/// Whether sizes can be coded in the given numbers of bytes.
pub open spec fn widths_fit(sizes: Seq<int>, widths: Seq<int>) -> bool {
    &&& widths.len() == sizes.len()
    &&& forall|k: int| 0 <= k < sizes.len() ==> 1 <= #[trigger] widths[k] <= 8
    &&& sizes.len() > 0 ==> sizes[0] < bytes::power_128(widths[0] as nat)
    &&& forall|k: int|
        1 <= k < sizes.len() ==> 0 <= sizes[k] - sizes[k - 1] + bias(#[trigger] widths[k])
            < bytes::power_128(widths[k] as nat)
}

proof fn flatten_step(frames: Seq<Seq<u8>>, k: int)
    requires
        0 <= k < frames.len(),
    ensures
        frames.skip(k).flatten() == frames[k] + frames.skip(k + 1).flatten(),
{
    let rest = frames.skip(k);
    assert(rest.drop_first() =~= frames.skip(k + 1));
    assert(rest.first() == frames[k]);
    reveal_with_fuel(Seq::flatten, 2);
}

/// Frames that stand one behind the other are cut off by their sizes.
proof fn frames_are_cut(payload: Seq<u8>, pos: int, frames: Seq<Seq<u8>>, k: int)
    requires
        0 <= k < frames.len(),
        0 <= pos <= payload.len(),
        payload.skip(pos) == frames.skip(k).flatten(),
    ensures
        webm::pieces(payload, pos, sizes_of(frames), k) == Some(frames.skip(k)),
    decreases frames.len() - k,
{
    let sizes = sizes_of(frames);
    flatten_step(frames, k);
    if k >= sizes.len() {
        assert(frames.skip(k + 1) =~= Seq::<Seq<u8>>::empty());
        assert(frames.skip(k + 1).flatten() =~= Seq::<u8>::empty());
        assert(payload.skip(pos) =~= frames[k]);
        assert(frames.skip(k) =~= seq![payload.skip(pos)]);
    } else {
        let tail = frames.skip(k + 1).flatten();
        let next = pos + sizes[k];
        let here = payload.skip(pos);
        assert(here.len() == frames[k].len() + tail.len());
        assert(payload.skip(next) =~= here.skip(sizes[k]));
        assert(here.skip(sizes[k]) =~= tail);
        assert(payload.subrange(pos, next) =~= here.take(sizes[k]));
        assert(here.take(sizes[k]) =~= frames[k]);
        frames_are_cut(payload, next, frames, k + 1);
        assert(frames.skip(k) =~= seq![frames[k]] + frames.skip(k + 1));
    }
}

proof fn xiph_size_reads(payload: Seq<u8>, i: int, size: int, rest: Seq<u8>, sum: int)
    requires
        0 <= i <= payload.len(),
        0 <= size,
        payload.skip(i) == xiph_coded(size) + rest,
    ensures
        webm::xiph_size(payload, i, sum) == Some((sum + size, payload.len() - rest.len())),
    decreases size,
{
    let here = payload.skip(i);
    assert(xiph_coded(size).len() > 0);
    assert(here.len() == xiph_coded(size).len() + rest.len());
    assert(here[0] == payload[i]);
    if size >= 255 {
        let more = xiph_coded(size - 255);
        assert(xiph_coded(size) =~= seq![255u8] + more);
        assert(payload.skip(i + 1) =~= here.skip(1));
        assert(here.skip(1) =~= more + rest);
        xiph_size_reads(payload, i + 1, size - 255, rest, sum + 255);
    } else {
        assert(here.len() == 1 + rest.len());
    }
}

proof fn xiph_sizes_read(payload: Seq<u8>, i: int, sizes: Seq<int>, k: int, rest: Seq<u8>)
    requires
        0 <= i <= payload.len(),
        0 <= k <= sizes.len(),
        forall|j: int| 0 <= j < sizes.len() ==> 0 <= #[trigger] sizes[j],
        payload.skip(i) == xiph_coded_from(sizes, k) + rest,
    ensures
        webm::xiph_sizes(payload, i, (sizes.len() - k) as nat, sizes.take(k)) == Some(
            (sizes, payload.len() - rest.len()),
        ),
    decreases sizes.len() - k,
{
    if k == sizes.len() {
        assert(sizes.take(k) =~= sizes);
        assert(payload.skip(i) =~= rest);
    } else {
        let behind = xiph_coded_from(sizes, k + 1) + rest;
        assert(payload.skip(i) =~= xiph_coded(sizes[k]) + behind);
        xiph_size_reads(payload, i, sizes[k], behind, 0);
        let next = payload.len() - behind.len();
        let here = payload.skip(i);
        assert(payload.skip(next) =~= here.skip(here.len() - behind.len()));
        assert(payload.skip(next) =~= behind);
        assert(sizes.take(k).push(sizes[k]) =~= sizes.take(k + 1));
        xiph_sizes_read(payload, next, sizes, k + 1, rest);
    }
}

/// Frames with Xiph lacing come apart again.
pub proof fn xiph_laced_frames_come_apart(frames: Seq<Seq<u8>>)
    requires
        1 <= frames.len() <= 256,
    ensures
        webm::xiph_frames(xiph_laced(frames)) == frames,
{
    let sizes = sizes_of(frames);
    let payload = xiph_laced(frames);
    let data = frames.flatten();
    assert(payload.skip(1) =~= xiph_coded_from(sizes, 0) + data);
    assert(sizes.take(0) =~= Seq::<int>::empty());
    xiph_sizes_read(payload, 1, sizes, 0, data);
    let pos = payload.len() - data.len();
    assert(payload.skip(pos) =~= data);
    assert(frames.skip(0) =~= frames);
    frames_are_cut(payload, pos, frames, 0);
}

/// The place of a frame among frames of equal size.
proof fn equal_frame_at(frames: Seq<Seq<u8>>, size: int, k: int, i: int)
    requires
        0 <= k <= i < frames.len(),
        forall|j: int| 0 <= j < frames.len() ==> (#[trigger] frames[j]).len() == size,
    ensures
        frames.skip(k).flatten().len() == size * (frames.len() - k),
        frames.skip(k).flatten().subrange(size * (i - k), size * (i - k) + size) == frames[i],
    decreases frames.len() - k,
{
    let data = frames.skip(k).flatten();
    let tail = frames.skip(k + 1).flatten();
    flatten_step(frames, k);
    equal_frames_len(frames, size, k + 1);
    assert(size * (frames.len() - k) == size + size * (frames.len() - (k + 1)))
        by (nonlinear_arith);
    if i == k {
        assert(size * 0 == 0);
        assert(data.subrange(0, size) =~= frames[k]);
    } else {
        equal_frame_at(frames, size, k + 1, i);
        let (a, b) = (size * (i - k), size * (i - (k + 1)));
        assert(a == b + size && 0 <= b && b + size <= size * (frames.len() - (k + 1)))
            by (nonlinear_arith)
            requires
                a == size * (i - k),
                b == size * (i - (k + 1)),
                0 <= size,
                k + 1 <= i < frames.len(),
        ;
        assert(data.subrange(a, a + size) =~= tail.subrange(b, b + size));
    }
}

proof fn equal_frames_len(frames: Seq<Seq<u8>>, size: int, k: int)
    requires
        0 <= k <= frames.len(),
        forall|j: int| 0 <= j < frames.len() ==> (#[trigger] frames[j]).len() == size,
    ensures
        frames.skip(k).flatten().len() == size * (frames.len() - k),
    decreases frames.len() - k,
{
    if k == frames.len() {
        assert(frames.skip(k) =~= Seq::<Seq<u8>>::empty());
        assert(frames.skip(k).flatten() =~= Seq::<u8>::empty());
        assert(size * 0 == 0);
    } else {
        flatten_step(frames, k);
        equal_frames_len(frames, size, k + 1);
        assert(size * (frames.len() - k) == size + size * (frames.len() - (k + 1)))
            by (nonlinear_arith);
    }
}

/// Frames of equal size with fixed-size lacing come apart again.
pub proof fn fixed_laced_frames_come_apart(frames: Seq<Seq<u8>>, size: int)
    requires
        1 <= frames.len() <= 256,
        forall|j: int| 0 <= j < frames.len() ==> (#[trigger] frames[j]).len() == size,
    ensures
        webm::fixed_frames(fixed_laced(frames)) == frames,
{
    let payload = fixed_laced(frames);
    let body = payload.skip(1);
    let n = frames.len() as int;
    assert(body =~= frames.flatten());
    assert(frames.skip(0) =~= frames);
    equal_frames_len(frames, size, 0);
    assert(frames[0].len() == size);
    assert((size * n) / n == size && (size * n) % n == 0) by (nonlinear_arith)
        requires
            n > 0,
            size >= 0,
    ;
    let cut = webm::fixed_frames(payload);
    assert(cut.len() == n);
    assert forall|i: int| 0 <= i < n implies #[trigger] cut[i] == frames[i] by {
        equal_frame_at(frames, size, 0, i);
    }
    assert(cut =~= frames);
}

proof fn differences_read(
    payload: Seq<u8>,
    i: int,
    sizes: Seq<int>,
    widths: Seq<int>,
    k: int,
    rest: Seq<u8>,
)
    requires
        0 <= i <= payload.len(),
        1 <= k <= sizes.len(),
        widths_fit(sizes, widths),
        payload.skip(i) == differences_from(sizes, widths, k) + rest,
    ensures
        webm::ebml_sizes(payload, i, (sizes.len() - k) as nat, sizes.take(k)) == Some(
            (sizes, payload.len() - rest.len()),
        ),
    decreases sizes.len() - k,
{
    if k == sizes.len() {
        assert(sizes.take(k) =~= sizes);
        assert(payload.skip(i) =~= rest);
    } else {
        let n = widths[k];
        let v = sizes[k] - sizes[k - 1] + bias(n);
        let behind = differences_from(sizes, widths, k + 1) + rest;
        let here = payload.skip(i);
        assert(here =~= ebml::written_size(v, n) + behind);
        ebml::written_sizes_are_read(v, n, behind);
        assert(payload.skip(i + n) =~= here.skip(n));
        assert(here.skip(n) =~= behind);
        assert(sizes.take(k).last() == sizes[k - 1]);
        assert(sizes.take(k).push(sizes[k]) =~= sizes.take(k + 1));
        differences_read(payload, i + n, sizes, widths, k + 1, rest);
    }
}

proof fn several_ebml_laced_frames_come_apart(frames: Seq<Seq<u8>>, widths: Seq<int>)
    requires
        2 <= frames.len() <= 256,
        widths_fit(sizes_of(frames), widths),
    ensures
        webm::ebml_frames(ebml_laced(frames, widths)) == frames,
{
    let sizes = sizes_of(frames);
    let payload = ebml_laced(frames, widths);
    let data = frames.flatten();
    let n = widths[0];
    let behind = differences_from(sizes, widths, 1) + data;
    let v = payload.skip(1);
    assert(v =~= ebml::written_size(sizes[0], n) + behind);
    ebml::written_sizes_are_read(sizes[0], n, behind);
    assert(payload.skip(1 + n) =~= v.skip(n));
    assert(v.skip(n) =~= behind);
    assert(sizes.take(1) =~= seq![sizes[0]]);
    differences_read(payload, 1 + n, sizes, widths, 1, data);
    let pos = payload.len() - data.len();
    assert(payload.skip(pos) =~= data);
    assert(frames.skip(0) =~= frames);
    frames_are_cut(payload, pos, frames, 0);
}

/// Frames with EBML lacing come apart again.
pub proof fn ebml_laced_frames_come_apart(frames: Seq<Seq<u8>>, widths: Seq<int>)
    requires
        1 <= frames.len() <= 256,
        widths_fit(sizes_of(frames), widths),
    ensures
        webm::ebml_frames(ebml_laced(frames, widths)) == frames,
{
    if frames.len() == 1 {
        assert(ebml_laced(frames, widths).skip(1) =~= frames[0]);
        assert(frames =~= seq![frames[0]]);
    } else {
        several_ebml_laced_frames_come_apart(frames, widths);
    }
}

} // verus!
