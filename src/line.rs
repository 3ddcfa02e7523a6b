use crate::codec::{decode, decoded_text, encode, percent_encoded, DecodeError, DecodeMode};
use crate::encode_set::EncodeSet;
use vstd::prelude::*;
use vstd::string::StrSliceExecFns;
use vstd::utf8::encode_utf8;

verus! {

/// What a run does to each line.
#[derive(Clone, Copy, Debug, PartialEq, Eq, Structural)]
pub enum Mode {
    Encode(EncodeSet),
    Decode(DecodeMode),
}

/// The mode that the two decode flags and the chosen set select: decoding when
/// either flag is set, strict only when strict decoding was asked for.
pub fn select_mode(decode: bool, strict_decode: bool, set: EncodeSet) -> (r: Mode)
    ensures
        r == (if strict_decode {
            Mode::Decode(DecodeMode::Strict)
        } else if decode {
            Mode::Decode(DecodeMode::Lossy)
        } else {
            Mode::Encode(set)
        }),
{
    if decode || strict_decode {
        if strict_decode {
            Mode::Decode(DecodeMode::Strict)
        } else {
            Mode::Decode(DecodeMode::Lossy)
        }
    } else {
        Mode::Encode(set)
    }
}

/// The UTF-8 bytes of the strings one after another.
pub open spec fn joined_bytes(strings: Seq<String>) -> Seq<u8>
    decreases strings.len(),
{
    if strings.len() == 0 {
        seq![]
    } else {
        joined_bytes(strings.drop_last()) + encode_utf8(strings.last()@)
    }
}

/// The bytes of one output line: the strings one after another, then a newline.
pub fn write_output(strings: &Vec<String>) -> (r: Vec<u8>)
    ensures
        r@ == joined_bytes(strings@) + seq![0x0au8],
{
    let mut out: Vec<u8> = Vec::new();
    let mut i: usize = 0;
    while i < strings.len()
        invariant
            i <= strings@.len(),
            out@ == joined_bytes(strings@.subrange(0, i as int)),
        decreases strings@.len() - i,
    {
        out.extend_from_slice(strings[i].as_str().as_bytes());
        assert(strings@.subrange(0, i + 1).drop_last() =~= strings@.subrange(0, i as int));
        i += 1;
    }
    assert(strings@.subrange(0, i as int) =~= strings@);
    out.push(0x0a);
    out
}

/// The UTF-8 bytes that `mode` turns the line `line` into, or `None` where
/// decoding fails.
pub open spec fn transformed(line: Seq<char>, mode: Mode) -> Option<Seq<u8>> {
    match mode {
        Mode::Encode(set) => Some(percent_encoded(encode_utf8(line), set)),
        Mode::Decode(m) => match decoded_text(encode_utf8(line), m) {
            Some(t) => Some(encode_utf8(t)),
            None => None,
        },
    }
}

/// The output line for `line`: its transform under `mode`, then a newline.
pub fn transform_line(line: &str, mode: Mode) -> (r: Result<Vec<u8>, DecodeError>)
    ensures
        match r {
            Ok(out) => transformed(line@, mode) matches Some(t) && out@ == t + seq![0x0au8],
            Err(e) => e == DecodeError::InvalidUtf8 && transformed(line@, mode) is None,
        },
{
    let text = match mode {
        Mode::Encode(set) => encode(line, set),
        Mode::Decode(m) => match decode(line.as_bytes(), m) {
            Ok(s) => s,
            Err(e) => return Err(e),
        },
    };
    let strings = vec![text];
    let out = write_output(&strings);
    proof {
        assert(strings@.drop_last() =~= Seq::<String>::empty());
        assert(joined_bytes(Seq::<String>::empty()) =~= Seq::<u8>::empty());
        assert(joined_bytes(strings@) =~= encode_utf8(strings@[0]@));
    }
    Ok(out)
}

/// A line as read from a stream without its terminator: a final `"\r\n"` or
/// `"\n"` is dropped, and nothing else.
pub open spec fn line_content(s: Seq<char>) -> Seq<char> {
    if s.len() >= 2 && s[s.len() - 2] == '\r' && s[s.len() - 1] == '\n' {
        s.subrange(0, s.len() - 2)
    } else if s.len() >= 1 && s[s.len() - 1] == '\n' {
        s.drop_last()
    } else {
        s
    }
}

/// The output line for a line as read from a stream, terminator included:
/// the line without its terminator is transformed.
pub fn transform_input_line(buf: &str, mode: Mode) -> (r: Result<Vec<u8>, DecodeError>)
    ensures
        match r {
            Ok(out) => transformed(line_content(buf@), mode) matches Some(t) && out@ == t + seq![
                0x0au8,
            ],
            Err(e) => e == DecodeError::InvalidUtf8 && transformed(line_content(buf@), mode) is None,
        },
{
    let n = buf.unicode_len();
    if n >= 1 && buf.get_char(n - 1) == '\n' {
        if n >= 2 && buf.get_char(n - 2) == '\r' {
            transform_line(buf.substring_char(0, n - 2), mode)
        } else {
            transform_line(buf.substring_char(0, n - 1), mode)
        }
    } else {
        transform_line(buf, mode)
    }
}

} // verus!
