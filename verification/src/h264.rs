//! H.264 bitstream front end: NAL units, emulation prevention, Exp-Golomb
//! codes and the part of the sequence parameter set that gives the size of
//! the coded picture.
use vstd::arithmetic::power2::*;
use vstd::prelude::*;

pub mod fields;
pub mod nal_type;
pub mod sets;

verus! {

/// The bit of `byte` whose place value is 128 for `k = 0` down to 1 for `k = 7`.
pub open spec fn bit_of_byte(byte: u8, k: int) -> int {
    let place: int = if k == 0 {
        128
    } else if k == 1 {
        64
    } else if k == 2 {
        32
    } else if k == 3 {
        16
    } else if k == 4 {
        8
    } else if k == 5 {
        4
    } else if k == 6 {
        2
    } else {
        1
    };
    (byte as int / place) % 2
}

/// Bit `pos` of a byte string, the most significant bit of each byte first.
pub open spec fn bit_at(data: Seq<u8>, pos: int) -> int {
    bit_of_byte(data[pos / 8], pos % 8)
}

/// The `n` bits from `pos` on, read as a big-endian number.
pub open spec fn bits_value(data: Seq<u8>, pos: int, n: nat) -> int
    decreases n,
{
    if n == 0 {
        0
    } else {
        2 * bits_value(data, pos, (n - 1) as nat) + bit_at(data, pos + n - 1)
    }
}

/// How many zero bits stand at `pos` before the first one bit or the end.
pub open spec fn zero_run(data: Seq<u8>, pos: int) -> nat
    decreases 8 * data.len() - pos,
{
    if pos >= 8 * data.len() || bit_at(data, pos) == 1 {
        0
    } else {
        1 + zero_run(data, pos + 1)
    }
}

/// The number that an Exp-Golomb code with `zeros` leading zeros and the given
/// tail stands for. The code with 32 leading zeros wraps around.
pub open spec fn golomb_value(zeros: nat, tail: int) -> int {
    if zeros == 32 {
        tail
    } else {
        pow2(zeros) - 1 + tail
    }
}

/// The signed number that `v` stands for in the sequence 0, 1, -1, 2, -2, ...
/// (the largest `v` wraps around to 0).
pub open spec fn signed_of(v: u32) -> int {
    if v == u32::MAX {
        0
    } else if v % 2 == 1 {
        (v + 1) / 2
    } else {
        -(v as int / 2)
    }
}

/// A position in a string of bits, and whether every read so far found its
/// bits. Reads from a failed cursor fail.
pub struct Cursor {
    pub data: Seq<u8>,
    pub pos: int,
    pub ok: bool,
}

impl Cursor {
    /// The cursor before the first bit.
    pub open spec fn start(data: Seq<u8>) -> Cursor {
        Cursor { data, pos: 0, ok: true }
    }

    pub open spec fn end(self) -> int {
        8 * self.data.len() as int
    }

    pub open spec fn advanced(self, pos: int) -> Cursor {
        Cursor { data: self.data, pos, ok: true }
    }

    pub open spec fn failed(self, pos: int) -> Cursor {
        Cursor { data: self.data, pos, ok: false }
    }

    /// The next bit. Fails at the end, where it stays.
    pub open spec fn bit(self) -> (int, Cursor) {
        if !self.ok {
            (0, self)
        } else if self.pos < self.end() {
            (bit_at(self.data, self.pos), self.advanced(self.pos + 1))
        } else {
            (0, self.failed(self.pos))
        }
    }

    /// The next `n` bits as a number. Fails if there are fewer, and then
    /// stands at the end.
    pub open spec fn bits(self, n: nat) -> (int, Cursor) {
        if !self.ok {
            (0, self)
        } else if self.pos + n <= self.end() {
            (bits_value(self.data, self.pos, n), self.advanced(self.pos + n))
        } else {
            (0, self.failed(self.end()))
        }
    }

    /// The next unsigned Exp-Golomb code. Fails after 33 zeros, and where the
    /// code runs past the end.
    pub open spec fn ue(self) -> (u32, Cursor) {
        if !self.ok {
            (0, self)
        } else {
            self.code()
        }
    }

    /// The Exp-Golomb code at this position.
    #[verifier::opaque]
    pub open spec fn code(self) -> (u32, Cursor) {
        let zeros = zero_run(self.data, self.pos);
        if zeros > 32 {
            (0, self.failed(self.pos + 33))
        } else if self.pos + 2 * zeros + 1 > self.end() {
            (0, self.failed(self.end()))
        } else {
            (
                golomb_value(
                    zeros,
                    bits_value(self.data, self.pos + zeros + 1, zeros),
                ) as u32,
                self.advanced(self.pos + 2 * zeros + 1),
            )
        }
    }

    /// The next signed Exp-Golomb code.
    pub open spec fn se(self) -> (int, Cursor) {
        let (v, next) = self.ue();
        if next.ok {
            (signed_of(v), next)
        } else {
            (0, next)
        }
    }
}

pub proof fn bit_is_binary(data: Seq<u8>, pos: int)
    ensures
        bit_at(data, pos) == 0 || bit_at(data, pos) == 1,
{
}

pub proof fn bits_value_bound(data: Seq<u8>, pos: int, n: nat)
    ensures
        0 <= bits_value(data, pos, n) < pow2(n),
    decreases n,
{
    lemma_pow2_pos(n);
    if n > 0 {
        bits_value_bound(data, pos, (n - 1) as nat);
        lemma_pow2_unfold(n);
    }
}

pub proof fn pow2_small(n: nat)
    requires
        n <= 32,
    ensures
        0 < pow2(n) <= 0x1_0000_0000,
        n <= 31 ==> pow2(n) <= 0x8000_0000,
{
    lemma2_to64();
    lemma_pow2_pos(n);
    if n < 32 {
        lemma_pow2_strictly_increases(n, 32);
    }
    if n < 31 {
        lemma_pow2_strictly_increases(n, 31);
    }
}

pub proof fn zero_run_bound(data: Seq<u8>, pos: int)
    requires
        pos <= 8 * data.len(),
    ensures
        pos + zero_run(data, pos) <= 8 * data.len(),
    decreases 8 * data.len() - pos,
{
    if pos < 8 * data.len() && bit_at(data, pos) != 1 {
        zero_run_bound(data, pos + 1);
    }
}

/// Length of the start code at position `i`: 4 for `00 00 00 01`, 3 for
/// `00 00 01`, 0 where there is none.
pub open spec fn start_code_at(bytes: Seq<u8>, i: int) -> int {
    if i + 3 < bytes.len() && bytes[i] == 0 && bytes[i + 1] == 0 && bytes[i + 2] == 0 && bytes[i
        + 3] == 1 {
        4
    } else if i + 2 < bytes.len() && bytes[i] == 0 && bytes[i + 1] == 0 && bytes[i + 2] == 1 {
        3
    } else {
        0
    }
}

/// Position of the first start code at or after `i`, or the end.
pub open spec fn next_start_code(bytes: Seq<u8>, i: int) -> int
    decreases bytes.len() - i,
{
    if i >= bytes.len() || start_code_at(bytes, i) > 0 {
        i
    } else {
        next_start_code(bytes, i + 1)
    }
}

/// The NAL units from position `i` on, where `i` lies behind a start code or
/// before the first one (`open` tells which).
pub open spec fn nal_units_from(bytes: Seq<u8>, i: int, open: bool) -> Seq<Seq<u8>>
    decreases bytes.len() - i,
    when 0 <= i <= bytes.len()
    via nal_units_from_decreases
{
    let e = next_start_code(bytes, i);
    let unit = if open {
        seq![bytes.subrange(i, e)]
    } else {
        Seq::empty()
    };
    if e >= bytes.len() {
        unit
    } else {
        unit + nal_units_from(bytes, e + start_code_at(bytes, e), true)
    }
}

#[via_fn]
proof fn nal_units_from_decreases(bytes: Seq<u8>, i: int, open: bool) {
    next_start_code_bound(bytes, i);
}

proof fn next_start_code_bound(bytes: Seq<u8>, i: int)
    requires
        0 <= i <= bytes.len(),
    ensures
        i <= next_start_code(bytes, i) <= bytes.len(),
        next_start_code(bytes, i) < bytes.len() ==> start_code_at(
            bytes,
            next_start_code(bytes, i),
        ) > 0,
    decreases bytes.len() - i,
{
    if i < bytes.len() && start_code_at(bytes, i) <= 0 {
        next_start_code_bound(bytes, i + 1);
    }
}

/// The NAL units of a byte stream: what stands between its start codes, and
/// behind the last one. Bytes before the first start code belong to none.
pub open spec fn nal_units(bytes: Seq<u8>) -> Seq<Seq<u8>> {
    nal_units_from(bytes, 0, false)
}

fn start_code_len(bytes: &[u8], i: usize) -> (r: usize)
    requires
        i < bytes.len(),
    ensures
        r == start_code_at(bytes@, i as int),
{
    let left: usize = bytes.len() - i;
    if left > 3 && bytes[i] == 0 && bytes[i + 1] == 0 && bytes[i + 2] == 0 && bytes[i + 3] == 1 {
        return 4;
    }
    if left > 2 && bytes[i] == 0 && bytes[i + 1] == 0 && bytes[i + 2] == 1 {
        return 3;
    }
    0
}

/// Views of a list of slices.
pub open spec fn slice_views(v: Seq<&[u8]>) -> Seq<Seq<u8>> {
    v.map_values(|s: &[u8]| s@)
}

/// Splits a byte stream into NAL units, each with its header byte and with
/// its emulation prevention bytes still in place.
pub fn split_nal_units(bytes: &[u8]) -> (r: Vec<&[u8]>)
    ensures
        slice_views(r@) == nal_units(bytes@),
{
    let mut out: Vec<&[u8]> = Vec::new();
    let mut i: usize = 0;
    let mut nal_start: Option<usize> = None;
    proof {
        assert(slice_views(out@) =~= Seq::<Seq<u8>>::empty());
    }
    while i < bytes.len()
        invariant
            i <= bytes.len(),
            match nal_start {
                None => slice_views(out@) + nal_units_from(bytes@, i as int, false) == nal_units(
                    bytes@,
                ),
                Some(s) => s <= i && next_start_code(bytes@, s as int) == next_start_code(
                    bytes@,
                    i as int,
                ) && slice_views(out@) + nal_units_from(bytes@, s as int, true) == nal_units(
                    bytes@,
                ),
            },
        decreases bytes.len() - i,
    {
        let sc_len: usize = start_code_len(bytes, i);
        if sc_len > 0 {
            let ghost before = slice_views(out@);
            if let Some(s) = nal_start {
                let ghost prev = out@;
                out.push(vstd::slice::slice_subrange(bytes, s, i));
                proof {
                    let unit = bytes@.subrange(s as int, i as int);
                    assert(slice_views(out@) =~= before.push(unit));
                    assert(before + (seq![unit] + nal_units_from(bytes@, i + sc_len, true))
                        =~= before.push(unit) + nal_units_from(bytes@, i + sc_len, true));
                }
            } else {
                proof {
                    assert(Seq::<Seq<u8>>::empty() + nal_units_from(bytes@, i + sc_len, true)
                        =~= nal_units_from(bytes@, i + sc_len, true));
                }
            }
            i = i + sc_len;
            nal_start = Some(i);
        } else {
            i = i + 1;
        }
    }
    if let Some(s) = nal_start {
        let ghost before = slice_views(out@);
        out.push(vstd::slice::slice_subrange(bytes, s, bytes.len()));
        proof {
            let unit = bytes@.subrange(s as int, bytes.len() as int);
            assert(slice_views(out@) =~= before.push(unit));
            assert(before + seq![unit] =~= before.push(unit));
        }
    } else {
        proof {
            assert(slice_views(out@) + Seq::<Seq<u8>>::empty() =~= slice_views(out@));
        }
    }
    out
}

/// The fields of the first byte of a NAL unit.
#[derive(Debug, Clone, Copy, PartialEq, Eq, Structural)]
pub struct NalHeader {
    pub forbidden_zero_bit: u8,
    pub nal_ref_idc: u8,
    pub nal_unit_type: u8,
}

impl NalHeader {
    /// Takes a header byte apart: one bit, two bits, five bits.
    pub fn parse(byte: u8) -> (r: Self)
        ensures
            byte == 128 * r.forbidden_zero_bit + 32 * r.nal_ref_idc + r.nal_unit_type,
            r.forbidden_zero_bit < 2,
            r.nal_ref_idc < 4,
            r.nal_unit_type < 32,
    {
        NalHeader {
            forbidden_zero_bit: byte / 128,
            nal_ref_idc: (byte / 32) % 4,
            nal_unit_type: byte % 32,
        }
    }
}

/// Whether `s` starts with `00 00 03`.
pub open spec fn starts_escaped(s: Seq<u8>) -> bool {
    s.len() > 2 && s[0] == 0 && s[1] == 0 && s[2] == 3
}

/// The payload of a NAL unit without its emulation prevention bytes: without
/// the `03` of each `00 00 03`.
pub open spec fn unescaped(ebsp: Seq<u8>) -> Seq<u8>
    decreases ebsp.len(),
{
    if ebsp.len() == 0 {
        Seq::empty()
    } else if starts_escaped(ebsp) {
        seq![0u8, 0u8] + unescaped(ebsp.skip(3))
    } else {
        seq![ebsp[0]] + unescaped(ebsp.skip(1))
    }
}

/// What an encoder emits for a payload: a `03` between two zero bytes and a
/// byte of at most 3.
pub open spec fn escaped(rbsp: Seq<u8>) -> Seq<u8>
    decreases rbsp.len(),
{
    if rbsp.len() == 0 {
        Seq::empty()
    } else if rbsp.len() > 2 && rbsp[0] == 0 && rbsp[1] == 0 && rbsp[2] <= 3 {
        seq![0u8, 0u8, 3u8] + escaped(rbsp.skip(2))
    } else {
        seq![rbsp[0]] + escaped(rbsp.skip(1))
    }
}

/// Strips the emulation prevention bytes.
pub fn ebsp_to_rbsp(ebsp: &[u8]) -> (r: Vec<u8>)
    ensures
        r@ == unescaped(ebsp@),
{
    let mut out: Vec<u8> = Vec::new();
    let mut i: usize = 0;
    assert(ebsp@.skip(0) =~= ebsp@);
    while i < ebsp.len()
        invariant
            i <= ebsp.len(),
            out@ + unescaped(ebsp@.skip(i as int)) == unescaped(ebsp@),
        decreases ebsp.len() - i,
    {
        let ghost before = out@;
        if ebsp.len() - i > 2 && ebsp[i] == 0 && ebsp[i + 1] == 0 && ebsp[i + 2] == 3 {
            out.push(0);
            out.push(0);
            assert(ebsp@.skip(i as int).skip(3) =~= ebsp@.skip(i + 3));
            i = i + 3;
            assert(out@ + unescaped(ebsp@.skip(i as int)) =~= before + (seq![0u8, 0u8]
                + unescaped(ebsp@.skip(i as int))));
        } else {
            out.push(ebsp[i]);
            assert(ebsp@.skip(i as int).skip(1) =~= ebsp@.skip(i + 1));
            i = i + 1;
            assert(out@ + unescaped(ebsp@.skip(i as int)) =~= before + (seq![ebsp@[i - 1]]
                + unescaped(ebsp@.skip(i as int))));
        }
    }
    assert(out@ + unescaped(ebsp@.skip(i as int)) =~= out@);
    out
}

/// Stripping what an encoder emits gives the payload back.
pub proof fn unescaping_undoes_escaping(rbsp: Seq<u8>)
    ensures
        unescaped(escaped(rbsp)) == rbsp,
    decreases rbsp.len(),
{
    if rbsp.len() == 0 {
    } else if rbsp.len() > 2 && rbsp[0] == 0 && rbsp[1] == 0 && rbsp[2] <= 3 {
        unescaping_undoes_escaping(rbsp.skip(2));
        let e = escaped(rbsp);
        assert(e.skip(3) =~= escaped(rbsp.skip(2)));
        assert(seq![0u8, 0u8] + rbsp.skip(2) =~= rbsp);
    } else {
        unescaping_undoes_escaping(rbsp.skip(1));
        let e = escaped(rbsp);
        let tail = escaped(rbsp.skip(1));
        assert(e.skip(1) =~= tail);
        escaped_starts_alike(rbsp.skip(1));
        if starts_escaped(e) {
            assert(tail[0] == 0 && tail[1] == 3);
            assert(rbsp.skip(1).skip(1) =~= rbsp.skip(2));
            assert(tail.skip(1) =~= escaped(rbsp.skip(2)));
            escaped_starts_alike(rbsp.skip(2));
            assert(tail.skip(1)[0] == 3);
        }
        assert(seq![rbsp[0]] + rbsp.skip(1) =~= rbsp);
    }
}

proof fn escaped_starts_alike(rbsp: Seq<u8>)
    ensures
        rbsp.len() == 0 <==> escaped(rbsp).len() == 0,
        rbsp.len() > 0 ==> escaped(rbsp)[0] == rbsp[0],
{
}

/// A payload without `00 00 03` is left alone.
pub proof fn unescaping_keeps_plain_payloads(ebsp: Seq<u8>)
    requires
        forall|i: int| 0 <= i && i + 2 < ebsp.len() ==> !(#[trigger] ebsp[i] == 0 && ebsp[i + 1] == 0
            && ebsp[i + 2] == 3),
    ensures
        unescaped(ebsp) == ebsp,
    decreases ebsp.len(),
{
    if ebsp.len() > 0 {
        assert(!starts_escaped(ebsp)) by {
            if ebsp.len() > 2 {
                assert(!(ebsp[0] == 0 && ebsp[1] == 0 && ebsp[2] == 3));
            }
        }
        let tail = ebsp.skip(1);
        assert forall|i: int| 0 <= i && i + 2 < tail.len() implies !(#[trigger] tail[i] == 0
            && tail[i + 1] == 0 && tail[i + 2] == 3) by {
            assert(tail[i] == ebsp[i + 1]);
        }
        unescaping_keeps_plain_payloads(tail);
        assert(seq![ebsp[0]] + tail =~= ebsp);
    }
}

/// Reads bits, most significant first, from a byte buffer.
#[derive(Debug)]
pub struct BitReader<'a> {
    data: &'a [u8],
    bit_pos: u128,
}

impl<'a> View for BitReader<'a> {
    type V = Cursor;

    closed spec fn view(&self) -> Cursor {
        Cursor { data: self.data@, pos: self.bit_pos as int, ok: true }
    }
}

/// A reader stands at a cursor that has not failed.
pub broadcast proof fn reader_has_not_failed(br: BitReader<'_>)
    ensures
        (#[trigger] br@).ok,
{
}

impl<'a> BitReader<'a> {
    #[verifier::type_invariant]
    spec fn inside(self) -> bool {
        self.bit_pos <= 8 * self.data@.len()
    }

    pub fn new(data: &'a [u8]) -> (r: Self)
        ensures
            r@ == Cursor::start(data@),
    {
        BitReader { data, bit_pos: 0 }
    }

    /// How many bits have not been read.
    pub fn bits_left(&self) -> (r: usize)
        requires
            self@.end() <= usize::MAX,
        ensures
            r == self@.end() - self@.pos,
    {
        proof {
            use_type_invariant(self);
        }
        (8 * self.data.len() as u128 - self.bit_pos) as usize
    }

    /// The next bit, `None` at the end.
    pub fn read_bit(&mut self) -> (r: Option<u8>)
        ensures
            r is Some <==> old(self)@.bit().1.ok,
            r is Some ==> r->0 == old(self)@.bit().0,
            final(self)@ == old(self)@.bit().1.advanced(old(self)@.bit().1.pos),
    {
        proof {
            use_type_invariant(&*self);
        }
        if self.bit_pos >= 8 * self.data.len() as u128 {
            return None;
        }
        let byte: u8 = self.data[(self.bit_pos / 8) as usize];
        let k: u8 = (self.bit_pos % 8) as u8;
        let place: u8 = match k {
            0 => 128,
            1 => 64,
            2 => 32,
            3 => 16,
            4 => 8,
            5 => 4,
            6 => 2,
            _ => 1,
        };
        self.bit_pos = self.bit_pos + 1;
        Some((byte / place) % 2)
    }

    /// The next `n` bits (at most 32) as a big-endian number; `None` if fewer
    /// are left.
    pub fn read_bits(&mut self, n: u32) -> (r: Option<u32>)
        requires
            n <= 32,
        ensures
            r is Some <==> old(self)@.bits(n as nat).1.ok,
            r is Some ==> r->0 == old(self)@.bits(n as nat).0,
            final(self)@ == old(self)@.bits(n as nat).1.advanced(old(self)@.bits(n as nat).1.pos),
    {
        let mut v: u64 = 0;
        let mut i: u32 = 0;
        let ghost start = self@;
        proof {
            use_type_invariant(&*self);
        }
        while i < n
            invariant
                i <= n <= 32,
                start == old(self)@,
                start.ok,
                self@ == start.advanced(start.pos + i),
                self@.pos <= self@.end(),
                v == bits_value(start.data, start.pos, i as nat),
            decreases n - i,
        {
            proof {
                bits_value_bound(start.data, start.pos, i as nat);
                pow2_small(i as nat);
                bit_is_binary(start.data, start.pos + i);
            }
            match self.read_bit() {
                None => {
                    return None;
                },
                Some(bit) => {
                    v = 2 * v + bit as u64;
                    i = i + 1;
                },
            }
        }
        proof {
            bits_value_bound(start.data, start.pos, n as nat);
            pow2_small(n as nat);
        }
        Some(v as u32)
    }

    /// The next unsigned Exp-Golomb code (H.264 section 9.1.1).
    pub fn read_ue(&mut self) -> (r: Option<u32>)
        ensures
            r is Some <==> old(self)@.ue().1.ok,
            r is Some ==> r->0 == old(self)@.ue().0,
            final(self)@ == old(self)@.ue().1.advanced(old(self)@.ue().1.pos),
    {
        let ghost start = self@;
        proof {
            use_type_invariant(&*self);
        }
        let mut zeros: u32 = 0;
        let mut base: u64 = 1;
        proof {
            reveal(Cursor::code);
            lemma2_to64();
            zero_run_bound(start.data, start.pos);
        }
        loop
            invariant_except_break
                zeros <= 32,
                start == old(self)@,
                start.ok,
                self@ == start.advanced(start.pos + zeros),
                self@.pos <= self@.end(),
                start.pos + zero_run(start.data, start.pos) <= start.end(),
                zero_run(start.data, start.pos) == zeros + zero_run(
                    start.data,
                    start.pos + zeros,
                ),
                base == pow2(zeros as nat),
                base <= 0x1_0000_0000,
            ensures
                zeros <= 32,
                start == old(self)@,
                start.ok,
                self@ == start.advanced(start.pos + zeros + 1),
                self@.pos <= self@.end(),
                zero_run(start.data, start.pos) == zeros,
                base == pow2(zeros as nat),
                base <= 0x1_0000_0000,
            decreases 33 - zeros,
        {
            proof {
                reveal(Cursor::code);
                bit_is_binary(start.data, start.pos + zeros);
            }
            match self.read_bit() {
                None => {
                    return None;
                },
                Some(bit) => {
                    if bit != 0 {
                        break;
                    }
                    zeros = zeros + 1;
                    if zeros > 32 {
                        return None;
                    }
                    base = base * 2;
                    proof {
                        lemma_pow2_unfold(zeros as nat);
                        pow2_small(zeros as nat);
                    }
                },
            }
        }
        match self.read_bits(zeros) {
            None => None,
            Some(tail) => {
                proof {
                    bits_value_bound(start.data, start.pos + zeros + 1, zeros as nat);
                    pow2_small(zeros as nat);
                }
                if zeros == 32 {
                    Some(tail)
                } else {
                    Some((base - 1 + tail as u64) as u32)
                }
            },
        }
    }

    /// The next signed Exp-Golomb code (H.264 section 9.1.2).
    pub fn read_se(&mut self) -> (r: Option<i32>)
        ensures
            r is Some <==> old(self)@.se().1.ok,
            r is Some ==> r->0 == old(self)@.se().0,
            final(self)@ == old(self)@.se().1.advanced(old(self)@.se().1.pos),
    {
        match self.read_ue() {
            None => None,
            Some(v) => {
                if v == u32::MAX {
                    Some(0)
                } else if v % 2 == 1 {
                    Some(((v + 1) / 2) as i32)
                } else {
                    Some(-((v / 2) as i32))
                }
            },
        }
    }
}

/// Every signed number of at most 31 bits is the image of exactly one code
/// number, and code numbers other than the largest have different images.
pub proof fn signed_codes_are_a_bijection(v: u32, w: u32, n: int)
    ensures
        v < u32::MAX && w < u32::MAX && signed_of(v) == signed_of(w) ==> v == w,
        -0x8000_0000 < n < 0x8000_0000 ==> signed_of(
            (if n > 0 {
                2 * n - 1
            } else {
                -2 * n
            }) as u32,
        ) == n,
{
}

/// The code for `v`, that is `zeros` zero bits, a one bit and the `zeros` low
/// bits of `v + 1`, reads as `v`.
pub proof fn ue_reads_its_code(c: Cursor, v: u32, zeros: nat)
    requires
        c.ok,
        0 <= c.pos,
        zeros < 32,
        pow2(zeros) <= v + 1 < pow2(zeros + 1),
        c.pos + 2 * zeros + 1 <= c.end(),
        forall|i: int| 0 <= i < zeros ==> #[trigger] bit_at(c.data, c.pos + i) == 0,
        bit_at(c.data, c.pos + zeros) == 1,
        bits_value(c.data, c.pos + zeros + 1, zeros) == v + 1 - pow2(zeros),
    ensures
        c.ue() == (v, c.advanced(c.pos + 2 * zeros + 1)),
{
    reveal(Cursor::code);
    zero_run_is(c.data, c.pos, zeros);
}

proof fn zero_run_is(data: Seq<u8>, pos: int, zeros: nat)
    requires
        pos + zeros < 8 * data.len(),
        forall|i: int| 0 <= i < zeros ==> #[trigger] bit_at(data, pos + i) == 0,
        bit_at(data, pos + zeros) == 1,
    ensures
        zero_run(data, pos) == zeros,
    decreases zeros,
{
    if zeros > 0 {
        assert(bit_at(data, pos + 0) == 0);
        assert forall|i: int| 0 <= i < zeros - 1 implies #[trigger] bit_at(data, pos + 1 + i)
            == 0 by {
            assert(bit_at(data, pos + (i + 1)) == 0);
        }
        zero_run_is(data, pos + 1, (zeros - 1) as nat);
    }
}

/// The part of a sequence parameter set that gives the picture geometry.
#[derive(Debug, Clone, Copy, PartialEq, Eq, Structural)]
pub struct Sps {
    pub profile_idc: u8,
    pub level_idc: u8,
    pub seq_parameter_set_id: u32,
    pub log2_max_frame_num_minus4: u32,
    pub pic_width_in_mbs_minus1: u32,
    pub pic_height_in_map_units_minus1: u32,
    /// Whether all pictures are frames; otherwise fields can occur.
    pub frame_mbs_only_flag: bool,
    /// Coded width in luma samples.
    pub width: u32,
    /// Coded height in luma samples.
    pub height: u32,
}

/// The profiles whose parameter sets carry chroma format and bit depths.
pub open spec fn carries_chroma_format(profile_idc: u8) -> bool {
    ||| profile_idc == 44
    ||| profile_idc == 83
    ||| profile_idc == 86
    ||| profile_idc == 100
    ||| profile_idc == 110
    ||| profile_idc == 118
    ||| profile_idc == 122
    ||| profile_idc == 128
    ||| profile_idc == 134
    ||| profile_idc == 135
    ||| profile_idc == 138
    ||| profile_idc == 139
    ||| profile_idc == 244
}

/// `v` reduced to 32 bits.
pub open spec fn wrapped(v: int) -> u32 {
    (v % 0x1_0000_0000) as u32
}

impl Cursor {
    /// Behind the rest of a scaling list of which `left` entries are to come.
    /// An entry is coded as the difference to the last one, modulo 256; a
    /// value of 0 ends the list early.
    pub open spec fn past_scaling_entries(self, left: nat, last: int) -> Cursor
        decreases left,
    {
        if !self.ok || left == 0 {
            self
        } else {
            let (delta, c) = self.se();
            let scale = (last + delta) % 256;
            if scale == 0 {
                c
            } else {
                c.past_scaling_entries((left - 1) as nat, scale)
            }
        }
    }

    /// Behind the scaling lists `i..lists`. Each is preceded by a bit that
    /// tells whether it is present; the first six hold 16 entries, the others
    /// 64.
    pub open spec fn past_scaling_lists(self, i: nat, lists: nat) -> Cursor
        decreases lists - i,
    {
        if !self.ok || i >= lists {
            self
        } else {
            let (present, c) = self.bit();
            (if present == 1 {
                c.past_scaling_entries(
                    if i < 6 {
                        16
                    } else {
                        64
                    },
                    8,
                )
            } else {
                c
            }).past_scaling_lists(i + 1, lists)
        }
    }

    /// Behind the chroma format, the bit depths and the scaling matrix.
    pub open spec fn past_chroma_format(self) -> Cursor {
        let (chroma_format_idc, c) = self.ue();
        let c = if chroma_format_idc == 3 {
            c.bit().1
        } else {
            c
        };
        let c = c.ue().1.ue().1.bit().1;
        let (matrix_present, c) = c.bit();
        if matrix_present == 1 {
            c.past_scaling_lists(
                0,
                if chroma_format_idc == 3 {
                    12
                } else {
                    8
                },
            )
        } else {
            c
        }
    }

    /// Behind `n` signed codes.
    pub open spec fn past_signed(self, n: nat) -> Cursor
        decreases n,
    {
        if !self.ok || n == 0 {
            self
        } else {
            self.se().1.past_signed((n - 1) as nat)
        }
    }

    /// Behind the picture order count fields. There are three types.
    pub open spec fn past_order_count(self) -> Cursor {
        let (kind, c) = self.ue();
        if kind == 0 {
            c.ue().1
        } else if kind == 1 {
            let (n, c) = c.bit().1.se().1.se().1.ue();
            c.past_signed(n as nat)
        } else if kind == 2 {
            c
        } else {
            c.failed(c.pos)
        }
    }
}

/// The parameter set that `rbsp` holds: three bytes of profile, constraints
/// and level, and a string of codes (H.264 section 7.3.2.1.1).
pub open spec fn sps_of(rbsp: Seq<u8>) -> Option<Sps> {
    let (id, c) = Cursor::start(rbsp.skip(3)).ue();
    let c = if carries_chroma_format(rbsp[0]) {
        c.past_chroma_format()
    } else {
        c
    };
    let (frame_num, c) = c.ue();
    let c = c.past_order_count();
    let (mbs_wide, c) = c.ue().1.bit().1.ue();
    let (units_high, c) = c.ue();
    let (frames_only, c) = c.bit();
    if rbsp.len() < 4 || !c.ok {
        None
    } else {
        Some(
            Sps {
                profile_idc: rbsp[0],
                level_idc: rbsp[2],
                seq_parameter_set_id: id,
                log2_max_frame_num_minus4: frame_num,
                pic_width_in_mbs_minus1: mbs_wide,
                pic_height_in_map_units_minus1: units_high,
                frame_mbs_only_flag: frames_only == 1,
                width: wrapped(16 * (mbs_wide + 1)),
                height: wrapped(
                    16 * (units_high + 1) * (if frames_only == 1 {
                        1int
                    } else {
                        2
                    }),
                ),
            },
        )
    }
}

#[verifier::spinoff_prover]
fn skip_scaling_list(br: &mut BitReader<'_>, size: u32) -> (r: Option<()>)
    ensures
        r is Some <==> old(br)@.past_scaling_entries(size as nat, 8).ok,
        r is Some ==> final(br)@ == old(br)@.past_scaling_entries(size as nat, 8),
{
    let mut last: i64 = 8;
    let mut i: u32 = 0;
    while i < size
        invariant
            i <= size,
            1 <= last < 256,
            br@.ok,
            old(br)@.past_scaling_entries(size as nat, 8) == br@.past_scaling_entries(
                (size - i) as nat,
                last as int,
            ),
        decreases size - i,
    {
        let ghost before = br@;
        let ghost left = (size - i) as nat;
        assert(before.past_scaling_entries(left, last as int) == {
            let (delta, c) = before.se();
            let scale = (last + delta) % 256;
            if scale == 0 {
                c
            } else {
                c.past_scaling_entries((left - 1) as nat, scale)
            }
        });
        let delta: i32 = match br.read_se() {
            Some(delta) => delta,
            None => {
                assert(!before.se().1.ok);
                assert(!before.past_scaling_entries(left, last as int).ok);
                return None;
            },
        };
        let scale: i64 = (last + delta as i64 + 0x1_0000_0000) % 256;
        assert(scale == (last + delta) % 256);
        i = i + 1;
        if scale == 0 {
            return Some(());
        }
        last = scale;
    }
    Some(())
}

fn skip_scaling_lists(br: &mut BitReader<'_>, lists: u32) -> (r: Option<()>)
    ensures
        r is Some <==> old(br)@.past_scaling_lists(0, lists as nat).ok,
        r is Some ==> final(br)@ == old(br)@.past_scaling_lists(0, lists as nat),
{
    let mut i: u32 = 0;
    while i < lists
        invariant
            i <= lists,
            br@.ok,
            old(br)@.past_scaling_lists(0, lists as nat) == br@.past_scaling_lists(
                i as nat,
                lists as nat,
            ),
        decreases lists - i,
    {
        proof {
            reveal_with_fuel(Cursor::past_scaling_lists, 2);
            reveal_with_fuel(Cursor::past_scaling_entries, 2);
        }
        let present: u8 = br.read_bit()?;
        if present == 1 {
            skip_scaling_list(
                br,
                if i < 6 {
                    16
                } else {
                    64
                },
            )?;
        }
        i = i + 1;
    }
    Some(())
}

fn skip_chroma_format(br: &mut BitReader<'_>) -> (r: Option<()>)
    ensures
        r is Some <==> old(br)@.past_chroma_format().ok,
        r is Some ==> final(br)@ == old(br)@.past_chroma_format(),
{
    let chroma_format_idc: u32 = br.read_ue()?;
    if chroma_format_idc == 3 {
        br.read_bit()?;
    }
    br.read_ue()?;
    br.read_ue()?;
    br.read_bit()?;
    let matrix_present: u8 = br.read_bit()?;
    if matrix_present == 1 {
        skip_scaling_lists(
            br,
            if chroma_format_idc == 3 {
                12
            } else {
                8
            },
        )?;
    }
    Some(())
}

fn skip_signed(br: &mut BitReader<'_>, n: u32) -> (r: Option<()>)
    ensures
        r is Some <==> old(br)@.past_signed(n as nat).ok,
        r is Some ==> final(br)@ == old(br)@.past_signed(n as nat),
{
    let mut i: u32 = 0;
    while i < n
        invariant
            i <= n,
            br@.ok,
            old(br)@.past_signed(n as nat) == br@.past_signed((n - i) as nat),
        decreases n - i,
    {
        proof {
            reveal_with_fuel(Cursor::past_signed, 2);
        }
        br.read_se()?;
        i = i + 1;
    }
    Some(())
}

fn skip_order_count(br: &mut BitReader<'_>) -> (r: Option<()>)
    ensures
        r is Some <==> old(br)@.past_order_count().ok,
        r is Some ==> final(br)@ == old(br)@.past_order_count(),
{
    let kind: u32 = br.read_ue()?;
    if kind == 0 {
        br.read_ue()?;
    } else if kind == 1 {
        br.read_bit()?;
        br.read_se()?;
        br.read_se()?;
        let n: u32 = br.read_ue()?;
        skip_signed(br, n)?;
    } else if kind != 2 {
        return None;
    }
    Some(())
}

/// Parses a sequence parameter set: the bytes behind the NAL header, without
/// emulation prevention. `None` where it ends too early or has an unknown
/// kind of picture order count.
pub fn parse_sps(rbsp: &[u8]) -> (r: Option<Sps>)
    ensures
        r == sps_of(rbsp@),
{
    if rbsp.len() < 4 {
        return None;
    }
    let profile_idc: u8 = rbsp[0];
    let level_idc: u8 = rbsp[2];
    assert(rbsp@.skip(3) =~= rbsp@.subrange(3, rbsp@.len() as int));
    let mut br: BitReader<'_> = BitReader::new(
        vstd::slice::slice_subrange(rbsp, 3, rbsp.len()),
    );
    let seq_parameter_set_id: u32 = br.read_ue()?;
    let chroma: bool = match profile_idc {
        100 | 110 | 122 | 244 | 44 | 83 | 86 | 118 | 128 | 138 | 139 | 134 | 135 => true,
        _ => false,
    };
    if chroma {
        skip_chroma_format(&mut br)?;
    }
    let log2_max_frame_num_minus4: u32 = br.read_ue()?;
    skip_order_count(&mut br)?;
    br.read_ue()?;
    br.read_bit()?;
    let pic_width_in_mbs_minus1: u32 = br.read_ue()?;
    let pic_height_in_map_units_minus1: u32 = br.read_ue()?;
    let frames_only: u8 = br.read_bit()?;
    let frame_mbs_only_flag: bool = frames_only == 1;
    let wide: u64 = (pic_width_in_mbs_minus1 as u64 + 1) * 16;
    let high: u64 = (pic_height_in_map_units_minus1 as u64 + 1) * 16 * (if frame_mbs_only_flag {
        1
    } else {
        2
    });
    Some(
        Sps {
            profile_idc,
            level_idc,
            seq_parameter_set_id,
            log2_max_frame_num_minus4,
            pic_width_in_mbs_minus1,
            pic_height_in_map_units_minus1,
            frame_mbs_only_flag,
            width: (wide % 0x1_0000_0000) as u32,
            height: (high % 0x1_0000_0000) as u32,
        },
    )
}

/// A picture whose sides fit in 32 bits is a whole number of macroblocks
/// (of macroblock pairs, where fields can occur).
pub proof fn sps_sizes_are_whole_macroblocks(rbsp: Seq<u8>)
    ensures
        sps_of(rbsp) is Some ==> {
            let s = sps_of(rbsp)->0;
            &&& s.width % 16 == 0
            &&& s.height % 16 == 0
            &&& !s.frame_mbs_only_flag ==> s.height % 32 == 0
        },
{
    assert forall|v: int| v % 16 == 0 implies #[trigger] wrapped(v) % 16 == 0 by {}
    assert forall|v: int| v % 32 == 0 implies #[trigger] wrapped(v) % 32 == 0 by {}
}

/// No start code stands in the unit.
pub open spec fn without_codes(unit: Seq<u8>) -> bool {
    forall|i: int| 0 <= i < unit.len() ==> #[trigger] start_code_at(unit, i) == 0
}

/// A start code of four bytes or of three.
pub open spec fn start_code(long: bool) -> Seq<u8> {
    if long {
        seq![0u8, 0u8, 0u8, 1u8]
    } else {
        seq![0u8, 0u8, 1u8]
    }
}

/// The units from the `k`-th on, each behind a start code; `long` tells which of
/// the codes have four bytes.
pub open spec fn stream_from(units: Seq<Seq<u8>>, long: Seq<bool>, k: int) -> Seq<u8>
    decreases units.len() - k,
{
    if k >= units.len() {
        Seq::empty()
    } else {
        start_code(long[k]) + (units[k] + stream_from(units, long, k + 1))
    }
}

/// Start codes do not depend on what stands before them.
proof fn code_is_the_same_behind(bytes: Seq<u8>, i: int, j: int)
    requires
        0 <= i <= bytes.len(),
        0 <= j,
    ensures
        start_code_at(bytes, i + j) == start_code_at(bytes.skip(i), j),
{
    let s = bytes.skip(i);
    assert forall|k: int| 0 <= k < s.len() implies #[trigger] s[k] == bytes[i + k] by {}
}

/// A start code stands at the start of what begins with one.
proof fn code_is_at_the_start(long: bool, rest: Seq<u8>)
    ensures
        start_code_at(start_code(long) + rest, 0) == start_code(long).len(),
        start_code(long).len() == if long {
            4int
        } else {
            3
        },
{
    let s = start_code(long) + rest;
    assert(s[0] == start_code(long)[0]);
    assert(s[1] == start_code(long)[1]);
    assert(s[2] == start_code(long)[2]);
    if long {
        assert(s[3] == start_code(long)[3]);
    }
}

/// No start code begins inside a unit, where nothing or a start code follows it.
proof fn no_code_begins_inside(u: Seq<u8>, tail: Seq<u8>, j: int)
    requires
        0 <= j < u.len(),
        start_code_at(u, j) == 0,
        tail.len() == 0 || start_code_at(tail, 0) == 4 || start_code_at(tail, 0) == 3 && u.last()
            != 0,
    ensures
        start_code_at(u + tail, j) == 0,
{
    let s = u + tail;
    let n = u.len() as int;
    assert(s[j] == u[j]);
    if j + 1 < n {
        assert(s[j + 1] == u[j + 1]);
    }
    if j + 2 < n {
        assert(s[j + 2] == u[j + 2]);
    }
    if j + 3 < n {
        assert(s[j + 3] == u[j + 3]);
    }
    if tail.len() > 0 {
        assert(s[n] == tail[0] && s[n + 1] == tail[1] && s[n + 2] == tail[2]);
        assert(tail[0] == 0 && tail[1] == 0);
    }
}

proof fn next_code_is(bytes: Seq<u8>, i: int, e: int)
    requires
        0 <= i <= e <= bytes.len(),
        forall|j: int| i <= j < e ==> #[trigger] start_code_at(bytes, j) == 0,
        e == bytes.len() || start_code_at(bytes, e) > 0,
    ensures
        next_start_code(bytes, i) == e,
    decreases e - i,
{
    if i < e {
        assert(start_code_at(bytes, i) == 0);
        next_code_is(bytes, i + 1, e);
    }
}

/// A unit ends where the stream does, or where the next start code begins.
proof fn unit_ends(bytes: Seq<u8>, i: int, u: Seq<u8>, tail: Seq<u8>)
    requires
        0 <= i <= bytes.len(),
        bytes.skip(i) == u + tail,
        without_codes(u),
        tail.len() == 0 || start_code_at(tail, 0) == 4 || start_code_at(tail, 0) == 3 && (u.len()
            == 0 || u.last() != 0),
    ensures
        bytes.len() == i + u.len() + tail.len(),
        next_start_code(bytes, i) == i + u.len(),
        bytes.subrange(i, i + u.len()) == u,
        bytes.skip(i + u.len()) == tail,
        start_code_at(bytes, i + u.len()) == start_code_at(tail, 0),
{
    let e = i + u.len();
    let s = u + tail;
    assert(bytes.skip(i).len() == s.len());
    assert(bytes.subrange(i, e) =~= s.take(u.len() as int));
    assert(s.take(u.len() as int) =~= u);
    assert(bytes.skip(e) =~= s.skip(u.len() as int));
    assert(s.skip(u.len() as int) =~= tail);
    code_is_the_same_behind(bytes, e, 0);
    assert forall|j: int| i <= j < e implies #[trigger] start_code_at(bytes, j) == 0 by {
        assert(start_code_at(u, j - i) == 0);
        no_code_begins_inside(u, tail, j - i);
        code_is_the_same_behind(bytes, i, j - i);
    }
    next_code_is(bytes, i, e);
}

proof fn stream_splits_from(
    bytes: Seq<u8>,
    i: int,
    units: Seq<Seq<u8>>,
    long: Seq<bool>,
    k: int,
)
    requires
        0 <= k < units.len(),
        can_be_stream(units, long),
        0 <= i <= bytes.len(),
        bytes.skip(i) == units[k] + stream_from(units, long, k + 1),
    ensures
        nal_units_from(bytes, i, true) == units.skip(k),
    decreases units.len() - k,
{
    let u = units[k];
    let tail = stream_from(units, long, k + 1);
    let e = i + u.len();
    if k + 1 == units.len() {
        unit_ends(bytes, i, u, tail);
        assert(units.skip(k) =~= seq![u]);
    } else {
        let more = units[k + 1] + stream_from(units, long, k + 2);
        let n = start_code(long[k + 1]).len() as int;
        code_is_at_the_start(long[k + 1], more);
        assert(without_codes(units[k]));
        unit_ends(bytes, i, u, tail);
        assert(bytes.skip(e + n) =~= tail.skip(n));
        assert(tail.skip(n) =~= more);
        stream_splits_from(bytes, e + n, units, long, k + 1);
        assert(units.skip(k) =~= seq![u] + units.skip(k + 1));
    }
}

/// Units that can be put into a stream with the given start codes: no start code
/// stands in them, and none that ends in a zero stands before a short start code,
/// which would become a long one.
pub open spec fn can_be_stream(units: Seq<Seq<u8>>, long: Seq<bool>) -> bool {
    &&& long.len() == units.len()
    &&& forall|k: int| 0 <= k < units.len() ==> without_codes(#[trigger] units[k])
    &&& forall|k: int|
        0 < k < units.len() && !(#[trigger] long[k]) ==> units[k - 1].len() == 0 || units[k
            - 1].last() != 0
}

/// Units behind start codes, of three bytes or of four, are the NAL units of the
/// stream.
pub proof fn stream_splits_into_its_units(units: Seq<Seq<u8>>, long: Seq<bool>)
    requires
        can_be_stream(units, long),
    ensures
        nal_units(stream_from(units, long, 0)) == units,
{
    let bytes = stream_from(units, long, 0);
    if units.len() == 0 {
        assert(nal_units(bytes) =~= units);
    } else {
        let tail = units[0] + stream_from(units, long, 1);
        let n = start_code(long[0]).len() as int;
        code_is_at_the_start(long[0], tail);
        assert(bytes.skip(n) =~= tail);
        stream_splits_from(bytes, n, units, long, 0);
        assert(next_start_code(bytes, 0) == 0);
        assert(units.skip(0) =~= units);
        assert(Seq::<Seq<u8>>::empty() + units =~= units);
    }
}

/// The chroma format of a parameter set as it is written, without scaling lists.
pub open spec fn chroma_fields(format: u32, separate: bool, luma: u32, chroma: u32, bypass: bool)
    -> Seq<int> {
    fields::unsigned(format as int) + ((if format == 3 {
        fields::flag(separate)
    } else {
        Seq::empty()
    }) + (fields::unsigned(luma as int) + (fields::unsigned(chroma as int) + (fields::flag(bypass)
        + fields::flag(false)))))
}

/// The picture order count fields of a parameter set as they are written: of the first
/// type, or of the third.
pub open spec fn order_fields(log2_max: Option<u32>) -> Seq<int> {
    match log2_max {
        Some(n) => fields::unsigned(0) + fields::unsigned(n as int),
        None => fields::unsigned(2),
    }
}

/// A parameter set as it is written behind its first three bytes.
pub open spec fn set_fields(
    set: Sps,
    chroma: Seq<int>,
    order: Option<u32>,
    references: u32,
    gaps: bool,
) -> Seq<int> {
    fields::unsigned(set.seq_parameter_set_id as int) + (chroma + (fields::unsigned(
        set.log2_max_frame_num_minus4 as int,
    ) + (order_fields(order) + (fields::unsigned(references as int) + (fields::flag(gaps) + (
    fields::unsigned(set.pic_width_in_mbs_minus1 as int) + (fields::unsigned(
        set.pic_height_in_map_units_minus1 as int,
    ) + fields::flag(set.frame_mbs_only_flag))))))))
}

proof fn order_fields_are_passed(c: Cursor, order: Option<u32>, rest: Seq<int>)
    requires
        fields::stands_before(c, order_fields(order) + rest),
        order matches Some(n) ==> n < u32::MAX,
    ensures
        fields::stands_before(c.past_order_count(), rest),
        c.past_order_count().data == c.data,
{
    match order {
        Some(n) => {
            let tail = fields::unsigned(n as int) + rest;
            assert(order_fields(order) + rest =~= fields::unsigned(0) + tail);
            fields::unsigned_codes_are_read(c, 0, tail);
            fields::unsigned_codes_are_read(c.ue().1, n, rest);
        },
        None => {
            fields::unsigned_codes_are_read(c, 2, rest);
        },
    }
}

proof fn chroma_fields_are_passed(
    c: Cursor,
    format: u32,
    separate: bool,
    luma: u32,
    chroma: u32,
    bypass: bool,
    rest: Seq<int>,
)
    requires
        fields::stands_before(c, chroma_fields(format, separate, luma, chroma, bypass) + rest),
        format < u32::MAX,
        luma < u32::MAX,
        chroma < u32::MAX,
    ensures
        fields::stands_before(c.past_chroma_format(), rest),
        c.past_chroma_format().data == c.data,
{
    let r4 = fields::flag(false) + rest;
    let r3 = fields::flag(bypass) + r4;
    let r2 = fields::unsigned(chroma as int) + r3;
    let r1 = fields::unsigned(luma as int) + r2;
    let r0 = (if format == 3 {
        fields::flag(separate)
    } else {
        Seq::empty()
    }) + r1;
    assert(chroma_fields(format, separate, luma, chroma, bypass) + rest =~= fields::unsigned(
        format as int,
    ) + r0);
    fields::unsigned_codes_are_read(c, format, r0);
    let c0 = c.ue().1;
    let c1 = if format == 3 {
        c0.bit().1
    } else {
        c0
    };
    if format == 3 {
        fields::flags_are_read(c0, separate, r1);
    } else {
        assert(r0 =~= r1);
    }
    fields::unsigned_codes_are_read(c1, luma, r2);
    fields::unsigned_codes_are_read(c1.ue().1, chroma, r3);
    let c2 = c1.ue().1.ue().1;
    fields::flags_are_read(c2, bypass, r4);
    fields::flags_are_read(c2.bit().1, false, rest);
}

proof fn set_is_read(
    c: Cursor,
    set: Sps,
    order: Option<u32>,
    references: u32,
    gaps: bool,
)
    requires
        fields::stands_before(
            c,
            fields::unsigned(set.log2_max_frame_num_minus4 as int) + (order_fields(order) + (
            fields::unsigned(references as int) + (fields::flag(gaps) + (fields::unsigned(
                set.pic_width_in_mbs_minus1 as int,
            ) + (fields::unsigned(set.pic_height_in_map_units_minus1 as int) + fields::flag(
                set.frame_mbs_only_flag,
            )))))),
        ),
        set.log2_max_frame_num_minus4 < u32::MAX,
        order matches Some(n) ==> n < u32::MAX,
        references < u32::MAX,
        set.pic_width_in_mbs_minus1 < u32::MAX,
        set.pic_height_in_map_units_minus1 < u32::MAX,
    ensures
        ({
            let (frame_num, c1) = c.ue();
            let c2 = c1.past_order_count();
            let (mbs_wide, c3) = c2.ue().1.bit().1.ue();
            let (units_high, c4) = c3.ue();
            let (frames_only, c5) = c4.bit();
            &&& frame_num == set.log2_max_frame_num_minus4
            &&& mbs_wide == set.pic_width_in_mbs_minus1
            &&& units_high == set.pic_height_in_map_units_minus1
            &&& (frames_only == 1) == set.frame_mbs_only_flag
            &&& c5.ok
        }),
{
    let e = Seq::<int>::empty();
    let r6 = fields::flag(set.frame_mbs_only_flag);
    let r5 = fields::unsigned(set.pic_height_in_map_units_minus1 as int) + r6;
    let r4 = fields::unsigned(set.pic_width_in_mbs_minus1 as int) + r5;
    let r3 = fields::flag(gaps) + r4;
    let r2 = fields::unsigned(references as int) + r3;
    let r1 = order_fields(order) + r2;
    fields::unsigned_codes_are_read(c, set.log2_max_frame_num_minus4, r1);
    let c1 = c.ue().1;
    order_fields_are_passed(c1, order, r2);
    let c2 = c1.past_order_count();
    fields::unsigned_codes_are_read(c2, references, r3);
    let c3 = c2.ue().1;
    fields::flags_are_read(c3, gaps, r4);
    let c4 = c3.bit().1;
    fields::unsigned_codes_are_read(c4, set.pic_width_in_mbs_minus1, r5);
    let c5 = c4.ue().1;
    fields::unsigned_codes_are_read(c5, set.pic_height_in_map_units_minus1, r6);
    let c6 = c5.ue().1;
    assert(r6 =~= fields::flag(set.frame_mbs_only_flag) + e);
    fields::flags_are_read(c6, set.frame_mbs_only_flag, e);
}

/// The size that a parameter set gives: macroblocks of 16 by 16 samples, twice as many
/// rows where pictures can be fields.
pub open spec fn has_its_size(set: Sps) -> bool {
    &&& set.width == 16 * (set.pic_width_in_mbs_minus1 + 1)
    &&& set.height == 16 * (set.pic_height_in_map_units_minus1 + 1) * if set.frame_mbs_only_flag {
        1int
    } else {
        2
    }
}

/// A parameter set of the baseline, main or extended profile that was written is read
/// back.
pub proof fn written_sets_are_read(
    rbsp: Seq<u8>,
    set: Sps,
    order: Option<u32>,
    references: u32,
    gaps: bool,
)
    requires
        rbsp.len() >= 4,
        set.profile_idc == 66 || set.profile_idc == 77 || set.profile_idc == 88,
        rbsp[0] == set.profile_idc,
        rbsp[2] == set.level_idc,
        has_its_size(set),
        set.seq_parameter_set_id < u32::MAX,
        set.log2_max_frame_num_minus4 < u32::MAX,
        order matches Some(n) ==> n < u32::MAX,
        references < u32::MAX,
        fields::stands_before(
            Cursor::start(rbsp.skip(3)),
            set_fields(set, Seq::empty(), order, references, gaps),
        ),
    ensures
        sps_of(rbsp) == Some(set),
{
    let c = Cursor::start(rbsp.skip(3));
    let r1 = fields::unsigned(set.log2_max_frame_num_minus4 as int) + (order_fields(order) + (
    fields::unsigned(references as int) + (fields::flag(gaps) + (fields::unsigned(
        set.pic_width_in_mbs_minus1 as int,
    ) + (fields::unsigned(set.pic_height_in_map_units_minus1 as int) + fields::flag(
        set.frame_mbs_only_flag,
    ))))));
    assert(set_fields(set, Seq::empty(), order, references, gaps) =~= fields::unsigned(
        set.seq_parameter_set_id as int,
    ) + r1);
    fields::unsigned_codes_are_read(c, set.seq_parameter_set_id, r1);
    set_is_read(c.ue().1, set, order, references, gaps);
}

/// A parameter set of a profile that carries the chroma format is read back behind it.
pub proof fn written_high_sets_are_read(
    rbsp: Seq<u8>,
    set: Sps,
    format: u32,
    separate: bool,
    luma: u32,
    chroma: u32,
    bypass: bool,
    order: Option<u32>,
    references: u32,
    gaps: bool,
)
    requires
        rbsp.len() >= 4,
        seq![44u8, 83, 86, 100, 110, 118, 122, 128, 134, 135, 138, 139, 244].contains(
            set.profile_idc,
        ),
        rbsp[0] == set.profile_idc,
        rbsp[2] == set.level_idc,
        has_its_size(set),
        set.seq_parameter_set_id < u32::MAX,
        set.log2_max_frame_num_minus4 < u32::MAX,
        format < u32::MAX,
        luma < u32::MAX,
        chroma < u32::MAX,
        order matches Some(n) ==> n < u32::MAX,
        references < u32::MAX,
        fields::stands_before(
            Cursor::start(rbsp.skip(3)),
            set_fields(
                set,
                chroma_fields(format, separate, luma, chroma, bypass),
                order,
                references,
                gaps,
            ),
        ),
    ensures
        sps_of(rbsp) == Some(set),
{
    let c = Cursor::start(rbsp.skip(3));
    let r1 = fields::unsigned(set.log2_max_frame_num_minus4 as int) + (order_fields(order) + (
    fields::unsigned(references as int) + (fields::flag(gaps) + (fields::unsigned(
        set.pic_width_in_mbs_minus1 as int,
    ) + (fields::unsigned(set.pic_height_in_map_units_minus1 as int) + fields::flag(
        set.frame_mbs_only_flag,
    ))))));
    let r0 = chroma_fields(format, separate, luma, chroma, bypass) + r1;
    fields::unsigned_codes_are_read(c, set.seq_parameter_set_id, r0);
    chroma_fields_are_passed(c.ue().1, format, separate, luma, chroma, bypass, r1);
    set_is_read(c.ue().1.past_chroma_format(), set, order, references, gaps);
}

} // verus!
