use crate::encode_set::{escapes, in_named_set, EncodeSet};
use percent_encoding as pe;
use vstd::prelude::*;
use vstd::utf8::{
    decode_utf8, encode_utf8, encode_utf8_decode_utf8, encode_utf8_valid_utf8,
    is_leading_byte_width_1, partial_valid_utf8_extend_ascii_block, valid_utf8, valid_utf8_concat,
};

verus! {

/// How the decoder treats bytes that are not valid UTF-8 once unescaped.
#[derive(Clone, Copy, Debug, PartialEq, Eq, Structural)]
pub enum DecodeMode {
    /// Each invalid sequence becomes U+FFFD.
    Lossy,
    /// Invalid UTF-8 fails the whole decode.
    Strict,
}

#[derive(Clone, Copy, Debug, PartialEq, Eq, Structural)]
pub enum DecodeError {
    /// The unescaped bytes are not valid UTF-8.
    InvalidUtf8,
}

/// The ASCII code of the uppercase hexadecimal digit for `n < 16`.
pub open spec fn hex_upper(n: u8) -> u8 {
    if n < 10 {
        (n + 0x30) as u8
    } else {
        (n + 0x37) as u8
    }
}

/// A hexadecimal digit in either case.
pub open spec fn is_hex(c: u8) -> bool {
    (0x30 <= c <= 0x39) || (0x41 <= c <= 0x46) || (0x61 <= c <= 0x66)
}

/// The value of a hexadecimal digit.
pub open spec fn hex_value(c: u8) -> u8 {
    if c <= 0x39 {
        (c - 0x30) as u8
    } else if c <= 0x46 {
        (c - 0x37) as u8
    } else {
        (c - 0x57) as u8
    }
}

/// The bytes that stand for `b` in the output: itself, or `%` and two uppercase digits.
pub open spec fn escape_byte(set: EncodeSet, b: u8) -> Seq<u8> {
    if escapes(set, b) {
        seq![0x25u8, hex_upper(b / 16), hex_upper(b % 16)]
    } else {
        seq![b]
    }
}

/// The percent-encoding of `bytes` under `set`.
pub open spec fn percent_encoded(bytes: Seq<u8>, set: EncodeSet) -> Seq<u8>
    decreases bytes.len(),
{
    if bytes.len() == 0 {
        seq![]
    } else {
        escape_byte(set, bytes[0]) + percent_encoded(bytes.drop_first(), set)
    }
}

/// The percent-encoding of `bytes` with the bytes that the named set of
/// `percent_encoding` lists, `%` escaped only where that set lists it.
pub open spec fn named_set_encoded(bytes: Seq<u8>, set: EncodeSet) -> Seq<u8>
    decreases bytes.len(),
{
    if bytes.len() == 0 {
        seq![]
    } else {
        let b = bytes[0];
        let head = if in_named_set(set, b) {
            seq![0x25u8, hex_upper(b / 16), hex_upper(b % 16)]
        } else {
            seq![b]
        };
        head + named_set_encoded(bytes.drop_first(), set)
    }
}

/// Whether an escape triple `%` digit digit starts at index `i`.
pub open spec fn escape_at(bytes: Seq<u8>, i: int) -> bool {
    0 <= i && i + 2 < bytes.len() && bytes[i] == 0x25 && is_hex(bytes[i + 1]) && is_hex(
        bytes[i + 2],
    )
}

/// Unescapes every `%` followed by two hexadecimal digits; every other byte,
/// a lone `%` included, is kept.
pub open spec fn percent_decoded(bytes: Seq<u8>) -> Seq<u8>
    decreases bytes.len(),
{
    if bytes.len() == 0 {
        seq![]
    } else if escape_at(bytes, 0) {
        seq![(hex_value(bytes[1]) * 16 + hex_value(bytes[2])) as u8] + percent_decoded(
            bytes.subrange(3, bytes.len() as int),
        )
    } else {
        seq![bytes[0]] + percent_decoded(bytes.drop_first())
    }
}

/// What `String::from_utf8_lossy` makes of bytes.
pub uninterp spec fn lossy_utf8(bytes: Seq<u8>) -> Seq<char>;

/// The text that decoding `line` in `mode` yields, or `None` where it fails.
pub open spec fn decoded_text(line: Seq<u8>, mode: DecodeMode) -> Option<Seq<char>> {
    let raw = percent_decoded(line);
    if valid_utf8(raw) {
        Some(decode_utf8(raw))
    } else if mode == DecodeMode::Lossy {
        Some(lossy_utf8(raw))
    } else {
        None
    }
}

/// Relies on `percent_encoding::percent_encode` with the crate's named sets:
/// each byte that the set lists becomes `%` and two uppercase digits, every
/// other byte is kept.
#[verifier::external_body]
fn percent_encode_bytes(bytes: &[u8], set: EncodeSet) -> (r: String)
    ensures
        encode_utf8(r@) == named_set_encoded(bytes@, set),
{
    match set {
        EncodeSet::Default => pe::percent_encode(bytes, pe::DEFAULT_ENCODE_SET).to_string(),
        EncodeSet::PathSegment => pe::percent_encode(bytes, pe::PATH_SEGMENT_ENCODE_SET).to_string(),
        EncodeSet::Query => pe::percent_encode(bytes, pe::QUERY_ENCODE_SET).to_string(),
        EncodeSet::Simple => pe::percent_encode(bytes, pe::SIMPLE_ENCODE_SET).to_string(),
        EncodeSet::Userinfo => pe::percent_encode(bytes, pe::USERINFO_ENCODE_SET).to_string(),
    }
}

/// Relies on `percent_encoding::percent_decode`: `%` and two hexadecimal
/// digits of either case become one byte; every other byte passes through.
#[verifier::external_body]
fn percent_decode_bytes(line: &[u8]) -> (r: Vec<u8>)
    ensures
        r@ == percent_decoded(line@),
{
    pe::percent_decode(line).collect()
}

/// Relies on `String::from_utf8`: it succeeds exactly on valid UTF-8, and the
/// text's UTF-8 form is then the bytes given.
#[verifier::external_body]
fn string_from_utf8(bytes: Vec<u8>) -> (r: Option<String>)
    ensures
        r is Some <==> valid_utf8(bytes@),
        r matches Some(s) ==> encode_utf8(s@) == bytes@,
{
    String::from_utf8(bytes).ok()
}

/// Relies on `String::from_utf8_lossy`: valid UTF-8 is decoded as it is,
/// invalid sequences become U+FFFD, and the result depends on the bytes alone.
#[verifier::external_body]
fn string_from_utf8_lossy(bytes: &[u8]) -> (r: String)
    ensures
        r@ == lossy_utf8(bytes@),
        valid_utf8(bytes@) ==> encode_utf8(r@) == bytes@,
        !valid_utf8(bytes@) ==> r@.contains('\u{FFFD}'),
{
    String::from_utf8_lossy(bytes).into_owned()
}

/// Encoding one byte after another: the encoding of a concatenation is the
/// concatenation of the encodings.
proof fn lemma_encoded_append(a: Seq<u8>, b: Seq<u8>, set: EncodeSet)
    ensures
        percent_encoded(a + b, set) == percent_encoded(a, set) + percent_encoded(b, set),
    decreases a.len(),
{
    if a.len() == 0 {
        assert(a + b =~= b);
        assert(percent_encoded(a, set) =~= Seq::<u8>::empty());
    } else {
        assert((a + b).drop_first() =~= a.drop_first() + b);
        lemma_encoded_append(a.drop_first(), b, set);
        assert(percent_encoded(a + b, set) =~= percent_encoded(a, set) + percent_encoded(b, set));
    }
}

/// ASCII bytes are valid UTF-8.
proof fn lemma_ascii_valid_utf8(bytes: Seq<u8>)
    requires
        forall|i: int| 0 <= i < bytes.len() ==> bytes[i] <= 0x7f,
    ensures
        valid_utf8(bytes),
{
    assert(bytes.subrange(0, 0) =~= Seq::<u8>::empty());
    assert forall|i: int| 0 <= 0 <= i < bytes.len() <= bytes.len() implies #[trigger] is_leading_byte_width_1(bytes[i]) by {}
    partial_valid_utf8_extend_ascii_block(bytes, 0, bytes.len() as int);
    assert(bytes.subrange(0, bytes.len() as int) =~= bytes);
}

/// Without `%`, the named set's encoding is the encoding.
proof fn lemma_named_set_encoded(p: Seq<u8>, set: EncodeSet)
    requires
        !p.contains(0x25),
    ensures
        named_set_encoded(p, set) == percent_encoded(p, set),
    decreases p.len(),
{
    if p.len() > 0 {
        assert(p[0] != 0x25);
        assert(!p.drop_first().contains(0x25)) by {
            if p.drop_first().contains(0x25) {
                let j = choose|j: int| 0 <= j < p.len() - 1 && p.drop_first()[j] == 0x25;
                assert(p[j + 1] == 0x25);
            }
        }
        lemma_named_set_encoded(p.drop_first(), set);
    }
}

/// Percent-encodes the UTF-8 form of `line` under `set`.
pub fn encode(line: &str, set: EncodeSet) -> (r: String)
    ensures
        encode_utf8(r@) == percent_encoded(encode_utf8(line@), set),
{
    let bytes = line.as_bytes();
    let mut out: Vec<u8> = Vec::new();
    let mut piece: Vec<u8> = Vec::new();
    let mut i: usize = 0;
    proof {
        assert(valid_utf8(out@));
        assert(bytes@.subrange(0, 0) =~= Seq::<u8>::empty());
        assert(percent_encoded(piece@, set) =~= Seq::<u8>::empty());
    }
    while i < bytes.len()
        invariant
            i <= bytes@.len(),
            out@ + percent_encoded(piece@, set) == percent_encoded(bytes@.subrange(0, i as int), set),
            valid_utf8(out@),
            !piece@.contains(0x25),
        decreases bytes@.len() - i,
    {
        let b = bytes[i];
        proof {
            assert(bytes@.subrange(0, i + 1) =~= bytes@.subrange(0, i as int) + seq![b]);
            lemma_encoded_append(bytes@.subrange(0, i as int), seq![b], set);
            assert(seq![b].drop_first() =~= Seq::<u8>::empty());
            assert(percent_encoded(Seq::<u8>::empty(), set) =~= Seq::<u8>::empty());
            assert(percent_encoded(seq![b], set) =~= escape_byte(set, b));
        }
        if b == 0x25 {
            let r = percent_encode_bytes(piece.as_slice(), set);
            let rb = r.as_str().as_bytes();
            proof {
                lemma_named_set_encoded(piece@, set);
                encode_utf8_valid_utf8(r@);
                valid_utf8_concat(out@, rb@);
            }
            let ghost before = out@;
            out.extend_from_slice(rb);
            assert(out@ =~= before + rb@);
            let escaped: Vec<u8> = vec![0x25, 0x32, 0x35];
            proof {
                assert(escaped@ =~= escape_byte(set, b));
                lemma_ascii_valid_utf8(escaped@);
                valid_utf8_concat(out@, escaped@);
            }
            let ghost before = out@;
            out.extend_from_slice(escaped.as_slice());
            assert(out@ =~= before + escaped@);
            piece = Vec::new();
            proof {
                assert(percent_encoded(piece@, set) =~= Seq::<u8>::empty());
                assert(out@ + percent_encoded(piece@, set) =~= percent_encoded(
                    bytes@.subrange(0, i + 1),
                    set,
                ));
            }
        } else {
            let ghost old_piece = piece@;
            piece.push(b);
            proof {
                lemma_encoded_append(old_piece, seq![b], set);
                assert(piece@ =~= old_piece + seq![b]);
                assert(!piece@.contains(0x25)) by {
                    if piece@.contains(0x25) {
                        let j = choose|j: int| 0 <= j < piece@.len() && piece@[j] == 0x25;
                        if j < old_piece.len() {
                            assert(old_piece[j] == 0x25);
                        }
                    }
                }
                assert(out@ + percent_encoded(piece@, set) =~= percent_encoded(
                    bytes@.subrange(0, i + 1),
                    set,
                ));
            }
        }
        i += 1;
    }
    let r = percent_encode_bytes(piece.as_slice(), set);
    let rb = r.as_str().as_bytes();
    proof {
        lemma_named_set_encoded(piece@, set);
        encode_utf8_valid_utf8(r@);
        valid_utf8_concat(out@, rb@);
        assert(bytes@.subrange(0, i as int) =~= bytes@);
    }
    let ghost before = out@;
    out.extend_from_slice(rb);
    assert(out@ =~= before + rb@);
    match string_from_utf8(out) {
        Some(s) => s,
        None => {
            assert(false);
            String::new()
        },
    }
}

/// Unescapes `line`, then reads the bytes as UTF-8 as `mode` says.
pub fn decode(line: &[u8], mode: DecodeMode) -> (r: Result<String, DecodeError>)
    ensures
        match r {
            Ok(s) => decoded_text(line@, mode) == Some(s@),
            Err(e) => e == DecodeError::InvalidUtf8 && decoded_text(line@, mode) is None,
        },
{
    let raw = percent_decode_bytes(line);
    match mode {
        DecodeMode::Strict => match string_from_utf8(raw) {
            Some(s) => {
                proof {
                    encode_utf8_decode_utf8(s@);
                }
                Ok(s)
            },
            None => Err(DecodeError::InvalidUtf8),
        },
        DecodeMode::Lossy => {
            let s = string_from_utf8_lossy(raw.as_slice());
            proof {
                encode_utf8_decode_utf8(s@);
            }
            Ok(s)
        },
    }
}

} // verus!
