//! Composites used within buffer operations: what a run of bytes means as a big-endian number,
//! and the 24-bit helpers.
use vstd::prelude::*;

verus! {

/// The number of values that `width` bytes can spell, 256 to the power `width`.
pub open spec fn span(width: nat) -> nat
    decreases width,
{
    if width == 0 {
        1
    } else {
        256 * span((width - 1) as nat)
    }
}

/// The number that `bytes` spell when the first byte is the most significant one.
pub open spec fn be_value(bytes: Seq<u8>) -> nat
    decreases bytes.len(),
{
    if bytes.len() == 0 {
        0
    } else {
        256 * be_value(bytes.drop_last()) + bytes.last() as nat
    }
}

/// The `width` least significant bytes of `value`, the most significant of them first.
pub open spec fn be_bytes(value: nat, width: nat) -> Seq<u8>
    decreases width,
{
    if width == 0 {
        Seq::empty()
    } else {
        be_bytes(value / 256, (width - 1) as nat).push((value % 256) as u8)
    }
}

/// The integer that `value` stands for in two's complement on `width` bytes.
pub open spec fn signed(value: nat, width: nat) -> int {
    if 2 * value < span(width) {
        value as int
    } else {
        value - span(width)
    }
}

/// The number below `span(width)` that stands for `value` in two's complement on `width` bytes.
pub open spec fn unsigned(value: int, width: nat) -> nat {
    if value < 0 {
        (value + span(width)) as nat
    } else {
        value as nat
    }
}

/// The spans of the widths that the codec uses.
pub proof fn lemma_spans()
    ensures
        span(0) == 1,
        span(1) == 0x100,
        span(2) == 0x1_0000,
        span(3) == 0x100_0000,
        span(4) == 0x1_0000_0000,
        span(5) == 0x100_0000_0000,
        span(6) == 0x1_0000_0000_0000,
        span(7) == 0x100_0000_0000_0000,
        span(8) == 0x1_0000_0000_0000_0000,
{
    reveal_with_fuel(span, 9);
}

/// `be_bytes` yields exactly `width` bytes.
pub proof fn lemma_be_bytes_len(value: nat, width: nat)
    ensures
        be_bytes(value, width).len() == width,
    decreases width,
{
    if width > 0 {
        lemma_be_bytes_len(value / 256, (width - 1) as nat);
    }
}

/// A run of bytes spells a number below the span of its length.
pub proof fn lemma_be_value_bound(bytes: Seq<u8>)
    ensures
        be_value(bytes) < span(bytes.len()),
    decreases bytes.len(),
{
    if bytes.len() > 0 {
        lemma_be_value_bound(bytes.drop_last());
    }
}

/// Reading back the `width` bytes written for `value` gives `value` modulo the span of `width`.
pub proof fn lemma_be_value_of_bytes(value: nat, width: nat)
    ensures
        be_value(be_bytes(value, width)) == value % span(width),
    decreases width,
{
    if width > 0 {
        let rest = be_bytes(value / 256, (width - 1) as nat);
        let s = span((width - 1) as nat);
        lemma_be_value_of_bytes(value / 256, (width - 1) as nat);
        assert(be_bytes(value, width).drop_last() == rest);
        assert(value % (256 * s) == 256 * ((value / 256) % s) + value % 256) by {
            lemma_span_positive((width - 1) as nat);
            lemma_mod_by_multiple(value, s);
        }
    }
}

/// Writing the number that `bytes` spell on as many bytes gives `bytes` again.
pub proof fn lemma_be_bytes_of_value(bytes: Seq<u8>)
    ensures
        be_bytes(be_value(bytes), bytes.len()) == bytes,
    decreases bytes.len(),
{
    if bytes.len() > 0 {
        lemma_be_bytes_of_value(bytes.drop_last());
        let v = be_value(bytes);
        assert(v / 256 == be_value(bytes.drop_last()));
        assert(v % 256 == bytes.last());
        assert(be_bytes(v, bytes.len()) == bytes.drop_last().push(bytes.last()));
    }
}

/// Three bytes made of a 32-bit number and read back give the number without its high 8 bits.
pub proof fn lemma_u24_round_trip(value: u32)
    ensures
        be_bytes(value as nat, 3).len() == 3,
        be_value(be_bytes(value as nat, 3).take(3)) == value & 0xFF_FFFF,
{
    lemma_be_bytes_len(value as nat, 3);
    lemma_be_value_of_bytes(value as nat, 3);
    lemma_spans();
    assert(be_bytes(value as nat, 3).take(3) == be_bytes(value as nat, 3));
    assert(value % 0x100_0000 == value & 0xFF_FFFF) by (bit_vector);
}

/// Two's complement on `width` bytes loses nothing.
pub proof fn lemma_signed_of_unsigned(value: int, width: nat)
    requires
        -span(width) <= 2 * value < span(width),
    ensures
        unsigned(value, width) < span(width),
        signed(unsigned(value, width), width) == value,
{
}

proof fn lemma_mod_by_multiple(value: nat, s: nat)
    requires
        s > 0,
    ensures
        value % (256 * s) == 256 * ((value / 256) % s) + value % 256,
{
    let q = value / 256;
    let r = value % 256;
    let qq = q / s;
    let qr = q % s;
    assert(q == s * qq + qr) by {
        vstd::arithmetic::div_mod::lemma_fundamental_div_mod(q as int, s as int);
    }
    let low = 256 * qr + r;
    assert(value == (256 * s) * qq + low) by (nonlinear_arith)
        requires
            value == 256 * q + r,
            q == s * qq + qr,
            low == 256 * qr + r,
    ;
    assert(0 <= low < 256 * s) by (nonlinear_arith)
        requires
            low == 256 * qr + r,
            0 <= r < 256,
            0 <= qr < s,
    ;
    vstd::arithmetic::div_mod::lemma_fundamental_div_mod_converse(
        value as int,
        (256 * s) as int,
        qq as int,
        low as int,
    );
}

/// Reads the big-endian number that the bytes of `buf` spell.
pub fn read_be(buf: &[u8]) -> (r: u64)
    requires
        buf@.len() <= 8,
    ensures
        r == be_value(buf@),
{
    let mut value: u64 = 0;
    let mut i: usize = 0;
    while i < buf.len()
        invariant
            i <= buf@.len() <= 8,
            value == be_value(buf@.take(i as int)),
        decreases buf@.len() - i,
    {
        proof {
            lemma_be_value_bound(buf@.take(i as int));
            lemma_spans();
            reveal_with_fuel(span, 9);
            assert(span(i as nat) <= span(7)) by {
                lemma_span_monotonic(i as nat, 7);
            }
            assert(buf@.take(i + 1).drop_last() == buf@.take(i as int));
        }
        value = value * 256 + buf[i] as u64;
        i += 1;
    }
    assert(buf@.take(i as int) == buf@);
    value
}

/// Writes the `width` least significant bytes of `value`, the most significant of them first.
pub fn write_be(value: u64, width: usize) -> (r: Vec<u8>)
    requires
        width <= isize::MAX,
    ensures
        r@ == be_bytes(value as nat, width as nat),
        r@.len() == width,
{
    let mut out: Vec<u8> = Vec::new();
    out.resize(width, 0u8);
    let mut rest: u64 = value;
    let mut i: usize = width;
    proof {
        lemma_be_bytes_len(value as nat, width as nat);
        assert(span((width - i) as nat) == 1);
    }
    while i > 0
        invariant
            i <= width,
            out@.len() == width,
            be_bytes(value as nat, width as nat).len() == width,
            rest == value as nat / span((width - i) as nat),
            forall|j: int| i <= j < width ==> out@[j] == be_bytes(value as nat, width as nat)[j],
        decreases i,
    {
        i -= 1;
        proof {
            let s = span((width - 1 - i) as nat);
            lemma_be_bytes_index(value as nat, width as nat, i as int);
            lemma_span_positive((width - 1 - i) as nat);
            assert(span((width - i) as nat) == 256 * s);
            assert((value as nat / s) / 256 == value as nat / (s * 256)) by {
                vstd::arithmetic::div_mod::lemma_div_denominator(value as int, s as int, 256);
            }
            assert(s * 256 == 256 * s) by (nonlinear_arith);
        }
        out[i] = (rest % 256) as u8;
        rest = rest / 256;
    }
    assert(out@ =~= be_bytes(value as nat, width as nat));
    out
}

/// The byte at `index` of the `width` bytes of `value` is its digit of weight
/// `span(width - 1 - index)`.
pub proof fn lemma_be_bytes_index(value: nat, width: nat, index: int)
    requires
        0 <= index < width,
    ensures
        be_bytes(value, width).len() == width,
        be_bytes(value, width)[index] == ((value / span((width - 1 - index) as nat)) % 256) as u8,
    decreases width,
{
    let rest = be_bytes(value / 256, (width - 1) as nat);
    lemma_be_bytes_len(value, width);
    lemma_be_bytes_len(value / 256, (width - 1) as nat);
    assert(be_bytes(value, width) == rest.push((value % 256) as u8));
    if index == width - 1 {
        assert(span((width - 1 - index) as nat) == 1);
        assert(value / 1 == value);
    } else {
        lemma_be_bytes_index(value / 256, (width - 1) as nat, index);
        let s = span((width - 2 - index) as nat);
        lemma_span_positive((width - 2 - index) as nat);
        assert(span((width - 1 - index) as nat) == 256 * s);
        assert((value / 256) / s == value / (256 * s)) by {
            vstd::arithmetic::div_mod::lemma_div_denominator(value as int, 256, s as int);
        }
        assert(be_bytes(value, width)[index] == rest[index]);
    }
}

proof fn lemma_span_positive(width: nat)
    ensures
        span(width) > 0,
    decreases width,
{
    if width > 0 {
        lemma_span_positive((width - 1) as nat);
    }
}

proof fn lemma_span_monotonic(a: nat, b: nat)
    requires
        a <= b,
    ensures
        span(a) <= span(b),
    decreases b,
{
    if a < b {
        lemma_span_monotonic(a, (b - 1) as nat);
        lemma_span_positive((b - 1) as nat);
    }
}

/// A helper function reading a 24-bit value from the first three bytes of the slice.
pub fn read_u24(buf: &[u8]) -> (r: usize)
    requires
        buf@.len() >= 3,
    ensures
        r == be_value(buf@.take(3)),
{
    let b0: u32 = buf[0] as u32;
    let b1: u32 = buf[1] as u32;
    let b2: u32 = buf[2] as u32;
    assert((b0 << 16) == b0 * 0x1_0000 && (b1 << 8) == b1 * 0x100 && (b2 & 255) == b2) by (
        bit_vector)
        requires
            b0 < 256,
            b1 < 256,
            b2 < 256,
    ;
    proof {
        let s = buf@.take(3);
        reveal_with_fuel(be_value, 4);
        assert(s.drop_last() == buf@.take(2));
        assert(s.drop_last().drop_last() == buf@.take(1));
        assert(s.drop_last().drop_last().drop_last() == buf@.take(0));
    }
    ((b0 << 16) + (b1 << 8) + (b2 & 255)) as usize
}

/// A helper function writing the low 24 bits of a value into three bytes.
pub fn write_u24(value: u32) -> (r: [u8; 3])
    ensures
        r@ == be_bytes(value as nat, 3),
{
    let b0: u8 = #[verifier::truncate] ((value >> 16) as u8);
    let b1: u8 = #[verifier::truncate] ((value >> 8) as u8);
    let b2: u8 = #[verifier::truncate] (value as u8);
    assert(((value >> 16) as u8) == (value / 0x1_0000) % 256 && ((value >> 8) as u8) == (value
        / 0x100) % 256 && (value as u8) == value % 256) by (bit_vector);
    let bytes = [b0, b1, b2];
    proof {
        lemma_spans();
        lemma_be_bytes_index(value as nat, 3, 0);
        lemma_be_bytes_index(value as nat, 3, 1);
        lemma_be_bytes_index(value as nat, 3, 2);
        assert(bytes@ =~= be_bytes(value as nat, 3));
    }
    bytes
}

} // verus!
