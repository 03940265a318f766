//! What holds of the codec whatever the buffer and the values: what was written is what is
//! read back.
use crate::bytes::composite::{
    be_bytes, be_value, lemma_be_bytes_len, lemma_be_value_of_bytes, lemma_signed_of_unsigned,
    lemma_spans, signed, span, unsigned,
};
use crate::bytes::Bytes;
use crate::{Buffered, BufferedView, ToSlice};
use vstd::prelude::*;
use vstd::utf8::{
    decode_utf8, encode_scalar, encode_utf8, encode_utf8_decode_utf8, encode_utf8_valid_utf8,
    valid_utf8,
};

verus! {

/// The cursor put back to where `view` stood, once `src` was written there.
pub open spec fn rewound(view: BufferedView, src: Seq<u8>) -> BufferedView {
    view.write(src).seek(view.pos)
}

/// Whether none of `bytes` is zero.
pub open spec fn zero_free(bytes: Seq<u8>) -> bool {
    forall|i: int| 0 <= i < bytes.len() ==> bytes[i] != 0
}

/// Whether none of `text` is the NUL character.
pub open spec fn nul_free(text: Seq<char>) -> bool {
    forall|i: int| 0 <= i < text.len() ==> text[i] != '\0'
}

/// For the byte container one item is one byte, so the index of a cursor is its position.
pub proof fn lemma_index_is_pos(cursor: Buffered<Bytes>)
    ensures
        Bytes::spec_item_size_hint() == 1,
        cursor.spec_index() == cursor.spec_pos(),
{
}

/// A write moves the position by the number of bytes written, never shortens the buffer, and
/// leaves the bytes written where the position was: a read of as many bytes from there is
/// possible and finds them.
pub proof fn lemma_write_then_window(view: BufferedView, src: Seq<u8>)
    ensures
        view.write(src).pos == view.pos + src.len(),
        view.write(src).data.len() >= view.data.len(),
        rewound(view, src).available(src.len()),
        rewound(view, src).window(src.len()) == src,
{
    assert(rewound(view, src).window(src.len()) =~= src);
}

/// A write changes no byte of the buffer outside the bytes written, and fills what it adds
/// to the buffer with zero bytes.
pub proof fn lemma_write_elsewhere(view: BufferedView, src: Seq<u8>, i: int)
    requires
        0 <= i < view.write(src).data.len(),
        !(view.pos <= i < view.pos + src.len()),
    ensures
        view.write(src).data[i] == if i < view.data.len() {
            view.data[i]
        } else {
            0u8
        },
{
}

/// An unsigned number written on `width` bytes and read back from the same position on
/// `width` bytes is the number written, as long as it fits on `width` bytes: that is every
/// `u8` for width 1, every `u16` for width 2, every `u32` for width 4 and every `u64` for
/// width 8. The read ends where the write ended.
pub proof fn lemma_put_get_unsigned(view: BufferedView, value: nat, width: nat)
    requires
        value < span(width),
    ensures
        rewound(view, be_bytes(value, width)).available(width),
        be_value(rewound(view, be_bytes(value, width)).window(width)) == value,
        rewound(view, be_bytes(value, width)).advance(width) == view.write(be_bytes(value, width)),
{
    lemma_be_bytes_len(value, width);
    lemma_write_then_window(view, be_bytes(value, width));
    lemma_be_value_of_bytes(value, width);
    vstd::arithmetic::div_mod::lemma_small_mod(value, span(width));
}

/// A signed number written on `width` bytes and read back from the same position on `width`
/// bytes is the number written, as long as it fits on `width` bytes in two's complement:
/// that is every `i8` for width 1, every `i16` for width 2 and every `i32` for width 4.
pub proof fn lemma_put_get_signed(view: BufferedView, value: int, width: nat)
    requires
        -span(width) <= 2 * value < span(width),
    ensures
        rewound(view, be_bytes(unsigned(value, width), width)).available(width),
        signed(
            be_value(rewound(view, be_bytes(unsigned(value, width), width)).window(width)),
            width,
        ) == value,
{
    lemma_signed_of_unsigned(value, width);
    lemma_put_get_unsigned(view, unsigned(value, width), width);
}

/// A 32-bit number written as 24 bits and read back from the same position as 24 bits is
/// the number written without its high 8 bits.
pub proof fn lemma_put_get_u24(view: BufferedView, value: u32)
    ensures
        rewound(view, be_bytes(value as nat, 3)).available(3),
        be_value(rewound(view, be_bytes(value as nat, 3)).window(3)) == value & 0xFF_FFFF,
{
    lemma_be_bytes_len(value as nat, 3);
    lemma_write_then_window(view, be_bytes(value as nat, 3));
    lemma_be_value_of_bytes(value as nat, 3);
    lemma_spans();
    assert(value % 0x100_0000 == value & 0xFF_FFFF) by (bit_vector);
}

/// The integers of each type that the codec writes are read back as they were written.
pub proof fn lemma_put_get_integers(
    view: BufferedView,
    a: u8,
    b: i8,
    c: u16,
    d: i16,
    e: u32,
    f: i32,
    g: u64,
)
    ensures
        be_value(rewound(view, be_bytes(a as nat, 1)).window(1)) == a,
        signed(be_value(rewound(view, be_bytes(unsigned(b as int, 1), 1)).window(1)), 1) == b,
        be_value(rewound(view, be_bytes(c as nat, 2)).window(2)) == c,
        signed(be_value(rewound(view, be_bytes(unsigned(d as int, 2), 2)).window(2)), 2) == d,
        be_value(rewound(view, be_bytes(e as nat, 4)).window(4)) == e,
        signed(be_value(rewound(view, be_bytes(unsigned(f as int, 4), 4)).window(4)), 4) == f,
        be_value(rewound(view, be_bytes(g as nat, 8)).window(8)) == g,
{
    lemma_spans();
    lemma_put_get_unsigned(view, a as nat, 1);
    lemma_put_get_signed(view, b as int, 1);
    lemma_put_get_unsigned(view, c as nat, 2);
    lemma_put_get_signed(view, d as int, 2);
    lemma_put_get_unsigned(view, e as nat, 4);
    lemma_put_get_signed(view, f as int, 4);
    lemma_put_get_unsigned(view, g as nat, 8);
}

/// The UTF-8 encoding of a character other than NUL holds no zero byte.
proof fn lemma_scalar_has_no_zero(c: char)
    requires
        c != '\0',
    ensures
        zero_free(encode_scalar(c as u32)),
{
    let s = c as u32;
    vstd::utf8::char_is_scalar(c);
    assert(s != 0) by {
        if s == 0 {
            vstd::utf8::char_u32_cast(c, s);
            vstd::utf8::char_u32_cast('\0', s);
        }
    }
    assert(0 < s <= 0x7F ==> ((s & 0x7F) as u8) != 0) by (bit_vector);
    assert((0xC0u8 | ((s >> 6) & 0x1F) as u8) != 0) by (bit_vector);
    assert((0xE0u8 | ((s >> 12) & 0x0F) as u8) != 0) by (bit_vector);
    assert((0xF0u8 | ((s >> 18) & 0x7) as u8) != 0) by (bit_vector);
    assert((0x80u8 | (s & 0x3F) as u8) != 0) by (bit_vector);
    assert((0x80u8 | ((s >> 6) & 0x3F) as u8) != 0) by (bit_vector);
    assert((0x80u8 | ((s >> 12) & 0x3F) as u8) != 0) by (bit_vector);
}

/// The UTF-8 encoding of a text without NUL holds no zero byte.
pub proof fn lemma_encoding_has_no_zero(text: Seq<char>)
    requires
        nul_free(text),
    ensures
        zero_free(encode_utf8(text)),
    decreases text.len(),
{
    if text.len() > 0 {
        lemma_scalar_has_no_zero(text[0]);
        lemma_encoding_has_no_zero(text.drop_first());
    }
}

/// A buffer without a zero byte has no terminator, wherever the position is.
pub proof fn lemma_no_zero_no_terminator(view: BufferedView)
    requires
        zero_free(view.data),
    ensures
        view.terminator() is None,
{
}

/// A text without NUL that was written as a string is read back as it was from the same
/// position: the terminator is found right behind its bytes, the bytes in between are
/// well-formed and decode to the text, and writing and reading both leave the position behind
/// the terminator, that is further by the number of bytes of the text and one.
pub proof fn lemma_put_get_str(view: BufferedView, text: Seq<char>)
    requires
        nul_free(text),
    ensures
        ({
            let bytes = encode_utf8(text);
            let written = view.write(bytes).write(seq![0u8]);
            let back = written.seek(view.pos);
            let end = view.pos + bytes.len();
            &&& written.pos == end + 1
            &&& back.terminator() == Some(end as int)
            &&& valid_utf8(back.text(end as int))
            &&& decode_utf8(back.text(end as int)) == text
            &&& back.seek((end + 1) as nat) == written
        }),
{
    let bytes = encode_utf8(text);
    let first = view.write(bytes);
    let written = first.write(seq![0u8]);
    let back = written.seek(view.pos);
    let end = view.pos + bytes.len();
    lemma_encoding_has_no_zero(text);
    assert(back.terminated_at(end as int));
    crate::bytes::lemma_terminator_unique(back, end as int);
    assert(back.text(end as int) =~= bytes);
    encode_utf8_valid_utf8(text);
    encode_utf8_decode_utf8(text);
}

} // verus!
