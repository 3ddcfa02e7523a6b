use percent_encoding as pe;
use vstd::prelude::*;
use vstd::utf8::{encode_utf8, encode_utf8_decode_utf8};

verus! {

/// A named policy that says which bytes the encoder must escape.
///
/// Each set escapes the bytes that the named set of `percent_encoding` 1.0
/// of the same name lists (so `Default` keeps `/`), and `%` besides, so that
/// an encoding can always be undone. Every set escapes control bytes, DEL and
/// every byte outside ASCII.
#[derive(Clone, Copy, Debug, PartialEq, Eq, Structural)]
pub enum EncodeSet {
    Default,
    PathSegment,
    Query,
    Simple,
    Userinfo,
}

/// Control bytes, DEL and every byte outside ASCII.
pub open spec fn in_simple_set(b: u8) -> bool {
    b < 0x20 || b > 0x7e
}

/// Adds space, `"`, `#`, `<` and `>`.
pub open spec fn in_query_set(b: u8) -> bool {
    in_simple_set(b) || b == 0x20 || b == 0x22 || b == 0x23 || b == 0x3c || b == 0x3e
}

/// Adds `` ` ``, `?`, `{` and `}`.
pub open spec fn in_default_set(b: u8) -> bool {
    in_query_set(b) || b == 0x60 || b == 0x3f || b == 0x7b || b == 0x7d
}

/// Adds `%` and `/`.
pub open spec fn in_path_segment_set(b: u8) -> bool {
    in_default_set(b) || b == 0x25 || b == 0x2f
}

/// Adds `/`, `:`, `;`, `=`, `@`, `[`, `\`, `]`, `^` and `|`.
pub open spec fn in_userinfo_set(b: u8) -> bool {
    in_default_set(b) || b == 0x2f || b == 0x3a || b == 0x3b || b == 0x3d || b == 0x40 || b
        == 0x5b || b == 0x5c || b == 0x5d || b == 0x5e || b == 0x7c
}

/// Whether the named set of `percent_encoding` that `set` stands for lists `b`.
pub open spec fn in_named_set(set: EncodeSet, b: u8) -> bool {
    match set {
        EncodeSet::Default => in_default_set(b),
        EncodeSet::PathSegment => in_path_segment_set(b),
        EncodeSet::Query => in_query_set(b),
        EncodeSet::Simple => in_simple_set(b),
        EncodeSet::Userinfo => in_userinfo_set(b),
    }
}

/// Whether `set` escapes the byte `b`: `%` always, and what the named set lists.
pub open spec fn escapes(set: EncodeSet, b: u8) -> bool {
    b == 0x25 || in_named_set(set, b)
}

/// Relies on `percent_encoding::EncodeSet::contains` of the crate's five named
/// sets (`DEFAULT_ENCODE_SET` and the others), whose members the crate lists.
#[verifier::external_body]
fn set_contains(set: EncodeSet, b: u8) -> (r: bool)
    ensures
        r == in_named_set(set, b),
{
    match set {
        EncodeSet::Default => pe::EncodeSet::contains(&pe::DEFAULT_ENCODE_SET, b),
        EncodeSet::PathSegment => pe::EncodeSet::contains(&pe::PATH_SEGMENT_ENCODE_SET, b),
        EncodeSet::Query => pe::EncodeSet::contains(&pe::QUERY_ENCODE_SET, b),
        EncodeSet::Simple => pe::EncodeSet::contains(&pe::SIMPLE_ENCODE_SET, b),
        EncodeSet::Userinfo => pe::EncodeSet::contains(&pe::USERINFO_ENCODE_SET, b),
    }
}

/// Whether two byte slices hold the same bytes.
fn bytes_equal(a: &[u8], b: &[u8]) -> (r: bool)
    ensures
        r == (a@ == b@),
{
    if a.len() != b.len() {
        return false;
    }
    let mut i: usize = 0;
    while i < a.len()
        invariant
            a@.len() == b@.len(),
            i <= a@.len(),
            forall|j: int| 0 <= j < i ==> a@[j] == b@[j],
        decreases a@.len() - i,
    {
        if a[i] != b[i] {
            return false;
        }
        i += 1;
    }
    assert(a@ =~= b@);
    true
}

/// Whether `name` is the text `lit`.
fn names_equal(name: &str, lit: &str) -> (r: bool)
    ensures
        r == (name@ == lit@),
{
    proof {
        encode_utf8_decode_utf8(name@);
        encode_utf8_decode_utf8(lit@);
    }
    bytes_equal(name.as_bytes(), lit.as_bytes())
}

impl EncodeSet {
    /// The set that `name` selects: `default`, `path`, `query`, `simple` or
    /// `userinfo`; `None` for any other name.
    pub fn from_name(name: &str) -> (r: Option<EncodeSet>)
        ensures
            r == (if name@ == "default"@ {
                Some(EncodeSet::Default)
            } else if name@ == "path"@ {
                Some(EncodeSet::PathSegment)
            } else if name@ == "query"@ {
                Some(EncodeSet::Query)
            } else if name@ == "simple"@ {
                Some(EncodeSet::Simple)
            } else if name@ == "userinfo"@ {
                Some(EncodeSet::Userinfo)
            } else {
                None
            }),
    {
        if names_equal(name, "default") {
            Some(EncodeSet::Default)
        } else if names_equal(name, "path") {
            Some(EncodeSet::PathSegment)
        } else if names_equal(name, "query") {
            Some(EncodeSet::Query)
        } else if names_equal(name, "simple") {
            Some(EncodeSet::Simple)
        } else if names_equal(name, "userinfo") {
            Some(EncodeSet::Userinfo)
        } else {
            None
        }
    }

    /// Whether this set escapes the byte `b` when encoding.
    pub fn contains(&self, b: u8) -> (r: bool)
        ensures
            r == escapes(*self, b),
    {
        b == 0x25 || set_contains(*self, b)
    }
}

} // verus!
