//! What the generated client methods route through: the check on the values
//! placed in a path, and the query string appended to it.

use vstd::prelude::*;
use crate::text::{chars_of, push_char, push_str, str_eq};
use vstd::utf8::encode_utf8;

verus! {

/// Why a generated method refused to make a request.
#[derive(Debug, Clone)]
pub enum Error {
    /// A value a path segment would carry could change which request is made.
    PathValue { path: String, name: String, value: String },
}

/// Whether a character would reroute or cut off a request placed in a path.
pub open spec fn is_path_delimiter(c: char) -> bool {
    c == '?' || c == '#' || c == '/' || c == '\\' || c == '%'
}

/// Whether a value placed in a path would change which request is made: an
/// empty value collapses its segment, a dot segment resolves one away, and a
/// delimiter or an escape reroutes the request.
pub open spec fn refused_in_path(v: Seq<char>) -> bool {
    ||| v.len() == 0
    ||| v == "."@
    ||| v == ".."@
    ||| exists|i: int| 0 <= i < v.len() && is_path_delimiter(#[trigger] v[i])
}

fn has_path_delimiter(v: &str) -> (r: bool)
    ensures
        r == exists|i: int| 0 <= i < v@.len() && is_path_delimiter(#[trigger] v@[i]),
{
    let cs = chars_of(v);
    let mut i: usize = 0;
    while i < cs.len()
        invariant
            cs@ == v@,
            i <= cs@.len(),
            forall|j: int| 0 <= j < i ==> !is_path_delimiter(#[trigger] cs@[j]),
        decreases cs@.len() - i,
    {
        let c = cs[i];
        if c == '?' || c == '#' || c == '/' || c == '\\' || c == '%' {
            assert(is_path_delimiter(cs@[i as int]));
            return true;
        }
        i = i + 1;
    }
    false
}

/// Check the values a generated method is about to place in its path,
/// refusing the first that would change which request is made.
pub fn segments(path: &str, values: &[(&str, &str)]) -> (r: Result<(), Error>)
    ensures
        r is Ok <==> forall|i: int| 0 <= i < values@.len() ==> !refused_in_path(#[trigger] values@[i].1@),
        r matches Err(Error::PathValue { path: p, name, value }) ==> exists|i: int|
            0 <= i < values@.len() && refused_in_path(values@[i].1@) && p@ == path@ && name@
                == values@[i].0@ && value@ == values@[i].1@ && forall|j: int|
                0 <= j < i ==> !refused_in_path(#[trigger] values@[j].1@),
{
    let mut i: usize = 0;
    while i < values.len()
        invariant
            i <= values@.len(),
            forall|j: int| 0 <= j < i ==> !refused_in_path(#[trigger] values@[j].1@),
        decreases values@.len() - i,
    {
        let (name, value) = values[i];
        if value.is_empty() || str_eq(value, ".") || str_eq(value, "..") || has_path_delimiter(value) {
            return Err(
                Error::PathValue {
                    path: String::from_str(path),
                    name: String::from_str(name),
                    value: String::from_str(value),
                },
            );
        }
        proof {
            reveal_strlit(".");
            reveal_strlit("..");
        }
        i = i + 1;
    }
    Ok(())
}

/// Whether a byte is in RFC 3986's unreserved set.
pub open spec fn unreserved(b: u8) -> bool {
    (0x30 <= b <= 0x39) || (0x41 <= b <= 0x5a) || (0x61 <= b <= 0x7a) || b == 0x2d || b == 0x2e
        || b == 0x5f || b == 0x7e
}

/// An upper-case hexadecimal digit.
pub open spec fn hex_digit(n: u8) -> char {
    if n < 10 {
        ((n + 0x30) as u8) as char
    } else {
        ((n - 10 + 0x41) as u8) as char
    }
}

/// A byte as it is written into a query value.
pub open spec fn encoded_byte(b: u8) -> Seq<char> {
    if unreserved(b) {
        seq![b as char]
    } else {
        seq!['%', hex_digit(b / 16), hex_digit(b % 16)]
    }
}

/// Bytes as they are written into a query value.
pub open spec fn encoded(bytes: Seq<u8>) -> Seq<char>
    decreases bytes.len(),
{
    if bytes.len() == 0 {
        Seq::empty()
    } else {
        encoded(bytes.drop_last()) + encoded_byte(bytes.last())
    }
}

fn hex(n: u8) -> (c: char)
    requires
        n < 16,
    ensures
        c == hex_digit(n),
{
    if n < 10 {
        (n + 0x30) as char
    } else {
        (n - 10 + 0x41) as char
    }
}

/// Percent-encode a query value's UTF-8 bytes, keeping RFC 3986's
/// unreserved set as it is.
pub fn percent_encode(value: &str, out: &mut String)
    ensures
        final(out)@ == old(out)@ + encoded(encode_utf8(value@)),
{
    let bytes = value.as_bytes();
    let mut i: usize = 0;
    while i < bytes.len()
        invariant
            bytes@ == encode_utf8(value@),
            i <= bytes@.len(),
            out@ == old(out)@ + encoded(bytes@.take(i as int)),
        decreases bytes@.len() - i,
    {
        let b = bytes[i];
        proof {
            assert(bytes@.take(i + 1).drop_last() =~= bytes@.take(i as int));
        }
        if (0x30 <= b && b <= 0x39) || (0x41 <= b && b <= 0x5a) || (0x61 <= b && b <= 0x7a) || b == 0x2d
            || b == 0x2e || b == 0x5f || b == 0x7e {
            push_char(out, b as char);
            assert(out@ =~= old(out)@ + encoded(bytes@.take(i + 1)));
        } else {
            push_char(out, '%');
            push_char(out, hex(b / 16));
            push_char(out, hex(b % 16));
            assert(out@ =~= old(out)@ + encoded(bytes@.take(i + 1)));
        }
        i = i + 1;
    }
    assert(bytes@.take(bytes@.len() as int) =~= bytes@);
}

/// Whether a character may stand unescaped in a query value: an ASCII letter
/// or digit, `-`, `.`, `_` or `~`.
pub open spec fn plain_in_query(c: char) -> bool {
    ('0' <= c && c <= '9') || ('A' <= c && c <= 'Z') || ('a' <= c && c <= 'z') || c == '-' || c == '.'
        || c == '_' || c == '~'
}

/// The value of an upper-case hexadecimal digit.
pub open spec fn hex_value(c: char) -> Option<int> {
    if '0' <= c && c <= '9' {
        Some(c as int - 48)
    } else if 'A' <= c && c <= 'F' {
        Some(c as int - 55)
    } else {
        None
    }
}

/// Each byte of a query value is written as the character it is where that
/// character may stand unescaped, and otherwise as `%` and two upper-case
/// hexadecimal digits spelling the byte.
pub proof fn law_each_byte_is_written_as_itself_or_escaped(b: u8)
    ensures
        plain_in_query(b as char) ==> encoded(seq![b]) == seq![b as char],
        !plain_in_query(b as char) ==> {
            let e = encoded(seq![b]);
            &&& e.len() == 3
            &&& e[0] == '%'
            &&& hex_value(e[1]) is Some
            &&& hex_value(e[2]) is Some
            &&& hex_value(e[1])->0 * 16 + hex_value(e[2])->0 == b
        },
{
    assert(seq![b].drop_last() =~= Seq::<u8>::empty());
    assert(encoded(Seq::<u8>::empty()) =~= Seq::<char>::empty());
    assert(seq![b].last() == b);
    assert(encoded(seq![b]) =~= encoded_byte(b));
    assert(plain_in_query(b as char) <==> unreserved(b));
    let hi = b / 16;
    let lo = b % 16;
    assert(hi < 16 && lo < 16);
    assert(hi * 16 + lo == b);
}

/// A query value is written byte by byte: what two runs of bytes make is what
/// each makes, one after the other.
pub proof fn law_encoding_goes_byte_by_byte(x: Seq<u8>, y: Seq<u8>)
    ensures
        encoded(x + y) == encoded(x) + encoded(y),
    decreases y.len(),
{
    if y.len() == 0 {
        assert(x + y =~= x);
        assert(encoded(x) + encoded(y) =~= encoded(x));
    } else {
        law_encoding_goes_byte_by_byte(x, y.drop_last());
        assert((x + y).drop_last() =~= x + y.drop_last());
        assert((x + y).last() == y.last());
        assert(encoded(x + y) =~= encoded(x) + encoded(y));
    }
}

/// Nothing in a written query value but characters that may stand unescaped
/// and the `%` of an escape: no `&`, `=`, `#` or space from a value reaches
/// the query as itself.
pub proof fn law_a_written_value_holds_no_delimiter(bytes: Seq<u8>)
    ensures
        forall|i: int|
            0 <= i < encoded(bytes).len() ==> plain_in_query(#[trigger] encoded(bytes)[i]) || encoded(bytes)[i] == '%',
    decreases bytes.len(),
{
    if bytes.len() > 0 {
        law_a_written_value_holds_no_delimiter(bytes.drop_last());
        let b = bytes.last();
        let rest = encoded(bytes.drop_last());
        let e = encoded_byte(b);
        assert(encoded(bytes) == rest + e);
        assert forall|i: int| 0 <= i < e.len() implies plain_in_query(#[trigger] e[i]) || e[i] == '%' by {
            if unreserved(b) {
                assert(plain_in_query(b as char));
            } else {
                assert(b / 16 < 16 && b % 16 < 16);
            }
        }
        assert forall|i: int| 0 <= i < encoded(bytes).len() implies plain_in_query(#[trigger] encoded(bytes)[i])
            || encoded(bytes)[i] == '%' by {
            if i < rest.len() {
                assert(encoded(bytes)[i] == rest[i]);
            } else {
                assert(encoded(bytes)[i] == e[i - rest.len()]);
            }
        }
    }
}

/// Whether any of these parameters is given.
pub open spec fn any_given(params: Seq<(&str, Option<String>)>) -> bool {
    exists|i: int| 0 <= i < params.len() && (#[trigger] params[i]).1 is Some
}

/// The query the given parameters make: each given one as `name=value`,
/// the first after `?` and the rest after `&`; one given as `None` is left
/// off entirely.
pub open spec fn query_part(params: Seq<(&str, Option<String>)>) -> Seq<char>
    decreases params.len(),
{
    if params.len() == 0 {
        Seq::empty()
    } else {
        let before = params.drop_last();
        let (name, value) = params.last();
        query_part(before) + match value {
            None => Seq::empty(),
            Some(v) => seq![if any_given(before) { '&' } else { '?' }] + name@ + seq!['='] + encoded(
                encode_utf8(v@),
            ),
        }
    }
}

/// Append the given query parameters to `path`. A parameter given as `None`
/// is left off entirely rather than sent empty.
pub fn query(path: &str, params: &[(&str, Option<String>)]) -> (out: String)
    ensures
        out@ == path@ + query_part(params@),
{
    let mut out = String::from_str(path);
    let mut first = true;
    let mut i: usize = 0;
    while i < params.len()
        invariant
            i <= params@.len(),
            out@ == path@ + query_part(params@.take(i as int)),
            first == !any_given(params@.take(i as int)),
        decreases params@.len() - i,
    {
        proof {
            assert(params@.take(i + 1).drop_last() =~= params@.take(i as int));
            assert(params@.take(i + 1).last() == params@[i as int]);
        }
        let (name, value) = &params[i];
        match value {
            None => {
                proof {
                    if any_given(params@.take(i + 1)) {
                        let k = choose|k: int| 0 <= k < i + 1 && (#[trigger] params@.take(i + 1)[k]).1 is Some;
                        assert(params@.take(i as int)[k].1 is Some);
                    }
                }
            },
            Some(v) => {
                push_char(&mut out, if first { '?' } else { '&' });
                first = false;
                push_str(&mut out, name);
                push_char(&mut out, '=');
                percent_encode(v.as_str(), &mut out);
                proof {
                    assert(params@.take(i + 1)[i as int].1 is Some);
                }
            },
        }
        assert(out@ =~= path@ + query_part(params@.take(i + 1)));
        i = i + 1;
    }
    assert(params@.take(params@.len() as int) =~= params@);
    out
}

/// Wraps a sensitive value so that what is printed of it for debugging
/// leaves the contents out. Read the value through the public field.
#[derive(Clone)]
pub struct Redacted<T>(pub T);

impl<T> From<T> for Redacted<T> {
    fn from(value: T) -> (r: Self)
        ensures
            r.0 == value,
    {
        Redacted(value)
    }
}

impl<T> vstd::std_specs::convert::FromSpecImpl<T> for Redacted<T> {
    open spec fn obeys_from_spec() -> bool {
        true
    }

    open spec fn from_spec(v: T) -> Self {
        Redacted(v)
    }
}

impl<T> Redacted<T> {
    /// What is printed of the value for debugging: a fixed placeholder,
    /// whatever the value, so a secret never shows in debug output or logs.
    pub fn debug_text(&self) -> (s: &'static str)
        ensures
            s@ == "<redacted>"@,
    {
        "<redacted>"
    }
}

impl<T> core::ops::Deref for Redacted<T> {
    type Target = T;

    fn deref(&self) -> (r: &T)
        ensures
            *r == self.0,
    {
        &self.0
    }
}

} // verus!
