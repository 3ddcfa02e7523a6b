use crate::codec::{
    decoded_text, escape_at, escape_byte, hex_upper, hex_value, is_hex, percent_decoded,
    percent_encoded, DecodeMode,
};
use crate::encode_set::{escapes, EncodeSet};
use vstd::prelude::*;
use vstd::utf8::*;

verus! {

/// Every set escapes the control bytes, DEL, every byte outside ASCII, and `%`.
pub proof fn lemma_sets_escape_unprintable(set: EncodeSet, b: u8)
    requires
        b <= 0x1f || b == 0x7f || b >= 0x80 || b == 0x25,
    ensures
        escapes(set, b),
{
}

/// The sets are nested: what `Simple` escapes `Query` escapes, and what `Query`
/// escapes `Default` escapes, and so do `PathSegment` and `Userinfo`.
pub proof fn lemma_set_ordering(b: u8)
    ensures
        escapes(EncodeSet::Simple, b) ==> escapes(EncodeSet::Query, b),
        escapes(EncodeSet::Query, b) ==> escapes(EncodeSet::Default, b),
        escapes(EncodeSet::Default, b) ==> escapes(EncodeSet::PathSegment, b),
        escapes(EncodeSet::Default, b) ==> escapes(EncodeSet::Userinfo, b),
{
}

proof fn lemma_hex_digits(b: u8)
    ensures
        is_hex(hex_upper(b / 16)),
        is_hex(hex_upper(b % 16)),
        (hex_value(hex_upper(b / 16)) * 16 + hex_value(hex_upper(b % 16))) as u8 == b,
{
}

/// Decoding undoes encoding, for any bytes.
pub proof fn lemma_decode_of_encoded(b: Seq<u8>, set: EncodeSet)
    ensures
        percent_decoded(percent_encoded(b, set)) == b,
    decreases b.len(),
{
    if b.len() == 0 {
        assert(percent_encoded(b, set) =~= Seq::<u8>::empty());
    } else {
        let rest = b.drop_first();
        let e = percent_encoded(b, set);
        let er = percent_encoded(rest, set);
        assert(e == escape_byte(set, b[0]) + er);
        lemma_decode_of_encoded(rest, set);
        if escapes(set, b[0]) {
            lemma_hex_digits(b[0]);
            assert(escape_at(e, 0));
            assert(e.subrange(3, e.len() as int) =~= er);
            assert(percent_decoded(e) =~= b);
        } else {
            assert(!escape_at(e, 0));
            assert(e.drop_first() =~= er);
            assert(percent_decoded(e) =~= b);
        }
    }
}

/// Decoding the encoding of a text gives the text back, for every set and in
/// either mode.
pub proof fn lemma_round_trip(s: Seq<char>, set: EncodeSet, mode: DecodeMode)
    ensures
        decoded_text(percent_encoded(encode_utf8(s), set), mode) == Some(s),
{
    lemma_decode_of_encoded(encode_utf8(s), set);
    encode_utf8_valid_utf8(s);
    encode_utf8_decode_utf8(s);
}

/// In the output of an encoding, every `%` starts an escape triple.
pub proof fn lemma_percent_starts_escape(b: Seq<u8>, set: EncodeSet, i: int)
    requires
        0 <= i < percent_encoded(b, set).len(),
        percent_encoded(b, set)[i] == 0x25,
    ensures
        escape_at(percent_encoded(b, set), i),
    decreases b.len(),
{
    let rest = b.drop_first();
    let e = percent_encoded(b, set);
    let eb = escape_byte(set, b[0]);
    let er = percent_encoded(rest, set);
    assert(e == eb + er);
    lemma_hex_digits(b[0]);
    if i >= eb.len() {
        assert(er[i - eb.len()] == e[i]);
        lemma_percent_starts_escape(rest, set, i - eb.len());
    }
}

proof fn lemma_utf8_bytes_not_percent(c: u32, y: u8)
    requires
        c <= 0x7f,
        c != 0x25,
    ensures
        (c & 0x7f) as u8 != 0x25,
        (0x80u8 | y) != 0x25,
        (0xc0u8 | y) != 0x25,
        (0xe0u8 | y) != 0x25,
        (0xf0u8 | y) != 0x25,
{
    assert((c & 0x7f) as u8 != 0x25) by (bit_vector)
        requires
            c <= 0x7f,
            c != 0x25,
    ;
    assert((0x80u8 | y) != 0x25 && (0xc0u8 | y) != 0x25 && (0xe0u8 | y) != 0x25 && (0xf0u8 | y)
        != 0x25) by (bit_vector);
}

/// A text without `%` has no `%` byte in its UTF-8 form.
proof fn lemma_no_percent_byte(s: Seq<char>)
    requires
        !s.contains('%'),
    ensures
        !encode_utf8(s).contains(0x25),
    decreases s.len(),
{
    if s.len() > 0 {
        let c = s[0] as u32;
        let head = encode_scalar(c);
        let rest = s.drop_first();
        assert(!rest.contains('%')) by {
            if rest.contains('%') {
                let j = choose|j: int| 0 <= j < rest.len() && rest[j] == '%';
                assert(s[j + 1] == '%');
            }
        }
        lemma_no_percent_byte(rest);
        assert(c != 0x25) by {
            assert(('%' as u32) == 0x25);
            char_u32_cast(s[0], c);
            char_u32_cast('%', 0x25);
        }
        let w1 = if c <= 0x7f { c } else { 0 };
        lemma_utf8_bytes_not_percent(w1, ((c >> 6) & 0x1f) as u8);
        lemma_utf8_bytes_not_percent(w1, ((c >> 12) & 0x0f) as u8);
        lemma_utf8_bytes_not_percent(w1, ((c >> 18) & 0x7) as u8);
        lemma_utf8_bytes_not_percent(w1, (c & 0x3f) as u8);
        lemma_utf8_bytes_not_percent(w1, ((c >> 6) & 0x3f) as u8);
        lemma_utf8_bytes_not_percent(w1, ((c >> 12) & 0x3f) as u8);
        assert(!head.contains(0x25));
        let e = encode_utf8(s);
        assert(e == head + encode_utf8(rest));
        if e.contains(0x25) {
            let j = choose|j: int| 0 <= j < e.len() && e[j] == 0x25;
            if j < head.len() {
                assert(head[j] == 0x25);
            } else {
                assert(encode_utf8(rest)[j - head.len()] == 0x25);
            }
        }
    }
}

/// Bytes without `%` decode to themselves.
proof fn lemma_decode_plain(b: Seq<u8>)
    requires
        !b.contains(0x25),
    ensures
        percent_decoded(b) == b,
    decreases b.len(),
{
    if b.len() > 0 {
        let rest = b.drop_first();
        assert(b[0] != 0x25);
        assert(!rest.contains(0x25)) by {
            if rest.contains(0x25) {
                let j = choose|j: int| 0 <= j < rest.len() && rest[j] == 0x25;
                assert(b[j + 1] == 0x25);
            }
        }
        lemma_decode_plain(rest);
        assert(percent_decoded(b) =~= b);
    }
}

/// Decoding a text that holds no `%` gives the text back, in either mode.
pub proof fn lemma_decode_without_percent(s: Seq<char>, mode: DecodeMode)
    requires
        !s.contains('%'),
    ensures
        decoded_text(encode_utf8(s), mode) == Some(s),
{
    lemma_no_percent_byte(s);
    lemma_decode_plain(encode_utf8(s));
    encode_utf8_valid_utf8(s);
    encode_utf8_decode_utf8(s);
}

} // verus!
