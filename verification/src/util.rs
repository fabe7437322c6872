//! Byte classes and small byte-string helpers shared by the tokenizer.

use vstd::prelude::*;
use vstd::string::StringSliceAdditionalSpecFns;
use vstd::utf8::is_ascii_chars_encode_utf8;

verus! {

pub const SPACE: u8 = 0x20;

pub const LINE_FEED: u8 = 0x0a;

pub const BANG: u8 = 0x21;

pub const DOUBLE_QUOTE: u8 = 0x22;

pub const SINGLE_QUOTE: u8 = 0x27;

pub const DASH: u8 = 0x2d;

pub const SLASH: u8 = 0x2f;

pub const OPENING_TAG: u8 = 0x3c;

pub const EQUALS: u8 = 0x3d;

pub const CLOSING_TAG: u8 = 0x3e;

pub const UNDERSCORE: u8 = 0x5f;

/// The bytes of an ASCII literal, as they stand in a source buffer.
pub open spec fn ascii(text: &str) -> Seq<u8> {
    text.spec_bytes()
}

/// Whitespace that separates tokens: space and line feed, nothing else.
/// Tab and carriage return are ordinary bytes to the tokenizer.
pub open spec fn spec_is_strict_whitespace(b: u8) -> bool {
    b == SPACE || b == LINE_FEED
}

#[verifier::when_used_as_spec(spec_is_strict_whitespace)]
pub fn is_strict_whitespace(b: u8) -> (r: bool)
    ensures
        r == spec_is_strict_whitespace(b),
{
    b == SPACE || b == LINE_FEED
}

/// Bytes that may stand in a tag or attribute name: ASCII letters, digits,
/// `-` and `_`.
pub open spec fn spec_is_ident(b: u8) -> bool {
    (0x30 <= b <= 0x39) || (0x41 <= b <= 0x5a) || (0x61 <= b <= 0x7a) || b == DASH
        || b == UNDERSCORE
}

#[verifier::when_used_as_spec(spec_is_ident)]
pub fn is_ident(b: u8) -> (r: bool)
    ensures
        r == spec_is_ident(b),
{
    (0x30 <= b && b <= 0x39) || (0x41 <= b && b <= 0x5a) || (0x61 <= b && b <= 0x7a) || b == DASH
        || b == UNDERSCORE
}

/// Marks the end of an open tag's attribute list: `/` or `>`.
pub open spec fn spec_is_closing(b: u8) -> bool {
    b == SLASH || b == CLOSING_TAG
}

#[verifier::when_used_as_spec(spec_is_closing)]
pub fn is_closing(b: u8) -> (r: bool)
    ensures
        r == spec_is_closing(b),
{
    b == SLASH || b == CLOSING_TAG
}

/// ASCII upper-casing of one byte; bytes outside `a..=z` are unchanged.
pub open spec fn spec_to_upper(b: u8) -> u8 {
    if 0x61 <= b <= 0x7a {
        (b - 0x20) as u8
    } else {
        b
    }
}

#[verifier::when_used_as_spec(spec_to_upper)]
pub fn to_upper(b: u8) -> (r: u8)
    ensures
        r == spec_to_upper(b),
{
    if 0x61 <= b && b <= 0x7a {
        b - 0x20
    } else {
        b
    }
}

/// ASCII upper-casing of a byte string, byte by byte.
pub open spec fn upper(s: Seq<u8>) -> Seq<u8> {
    Seq::new(s.len(), |i: int| spec_to_upper(s[i]))
}

/// Byte-for-byte equality of two byte strings.
pub fn bytes_eq(a: &[u8], b: &[u8]) -> (r: bool)
    ensures
        r == (a@ == b@),
{
    if a.len() != b.len() {
        return false;
    }
    let mut i: usize = 0;
    while i < a.len()
        invariant
            a.len() == b.len(),
            i <= a.len(),
            forall|j: int| 0 <= j < i ==> a@[j] == b@[j],
        decreases a.len() - i,
    {
        if a[i] != b[i] {
            return false;
        }
        i += 1;
    }
    assert(a@ =~= b@);
    true
}

/// Equality after ASCII upper-casing of `a`; `folded` is compared as it is.
pub fn eq_ignore_ascii_case(a: &[u8], folded: &[u8]) -> (r: bool)
    ensures
        r == (upper(a@) == folded@),
{
    if a.len() != folded.len() {
        return false;
    }
    let mut i: usize = 0;
    while i < a.len()
        invariant
            a.len() == folded.len(),
            i <= a.len(),
            forall|j: int| 0 <= j < i ==> upper(a@)[j] == folded@[j],
        decreases a.len() - i,
    {
        if to_upper(a[i]) != folded[i] {
            return false;
        }
        i += 1;
    }
    assert(upper(a@) =~= folded@);
    true
}

/// Whether `needle` occurs in `haystack`.
pub fn contains_byte(haystack: &[u8], needle: u8) -> (r: bool)
    ensures
        r == haystack@.contains(needle),
{
    let mut i: usize = 0;
    while i < haystack.len()
        invariant
            i <= haystack.len(),
            forall|j: int| 0 <= j < i ==> haystack@[j] != needle,
        decreases haystack.len() - i,
    {
        if haystack[i] == needle {
            return true;
        }
        i += 1;
    }
    false
}

/// Names of the elements that never have children or an end tag.
pub open spec fn spec_is_void(name: Seq<u8>) -> bool {
    ||| name == ascii("area")
    ||| name == ascii("base")
    ||| name == ascii("br")
    ||| name == ascii("col")
    ||| name == ascii("embed")
    ||| name == ascii("hr")
    ||| name == ascii("img")
    ||| name == ascii("input")
    ||| name == ascii("keygen")
    ||| name == ascii("link")
    ||| name == ascii("meta")
    ||| name == ascii("param")
    ||| name == ascii("source")
    ||| name == ascii("track")
    ||| name == ascii("wbr")
}

pub fn is_void(name: &[u8]) -> (r: bool)
    ensures
        r == spec_is_void(name@),
{
    bytes_eq(name, "area".as_bytes()) || bytes_eq(name, "base".as_bytes()) || bytes_eq(
        name,
        "br".as_bytes(),
    ) || bytes_eq(name, "col".as_bytes()) || bytes_eq(name, "embed".as_bytes()) || bytes_eq(
        name,
        "hr".as_bytes(),
    ) || bytes_eq(name, "img".as_bytes()) || bytes_eq(name, "input".as_bytes()) || bytes_eq(
        name,
        "keygen".as_bytes(),
    ) || bytes_eq(name, "link".as_bytes()) || bytes_eq(name, "meta".as_bytes()) || bytes_eq(
        name,
        "param".as_bytes(),
    ) || bytes_eq(name, "source".as_bytes()) || bytes_eq(name, "track".as_bytes()) || bytes_eq(
        name,
        "wbr".as_bytes(),
    )
}

/// The names `id` and `class` are different byte strings.
pub proof fn lemma_id_is_not_class()
    ensures
        ascii("id") != ascii("class"),
{
    reveal_strlit("id");
    reveal_strlit("class");
    is_ascii_chars_encode_utf8("id"@);
    is_ascii_chars_encode_utf8("class"@);
}

/// What can be used as a byte string in a query: text and bytes.
pub trait AsBytes {
    /// The bytes that the value stands for.
    spec fn bytes(&self) -> Seq<u8>;

    fn as_bytes(&self) -> (r: &[u8])
        ensures
            r@ == self.bytes(),
    ;
}

impl AsBytes for str {
    open spec fn bytes(&self) -> Seq<u8> {
        self.spec_bytes()
    }

    fn as_bytes(&self) -> (r: &[u8]) {
        str::as_bytes(self)
    }
}

impl AsBytes for [u8] {
    open spec fn bytes(&self) -> Seq<u8> {
        self@
    }

    fn as_bytes(&self) -> (r: &[u8]) {
        self
    }
}

} // verus!
