//! How the generator names what it emits: identifiers, type names and the
//! verbs it quotes in what it says.

use vstd::prelude::*;
use crate::text::{chars_of, push_char, push_str, string_of, string_of_range};

verus! {

/// A character's ASCII upper case; anything but `a`..`z` as it is.
pub open spec fn ascii_upper(c: char) -> char {
    if 'a' <= c && c <= 'z' {
        ((c as u32) - 32) as char
    } else {
        c
    }
}

/// Whether every character is ASCII.
pub open spec fn all_ascii(s: Seq<char>) -> bool {
    forall|i: int| 0 <= i < s.len() ==> (#[trigger] s[i] as u32) < 128
}

/// What `char::to_uppercase` yields for a character.
pub uninterp spec fn upper_case(c: char) -> Seq<char>;

/// `char::to_uppercase`: the characters of the character's upper case. An
/// ASCII character upper-cases to the one character `ascii_upper` gives.
#[verifier::external_body]
fn upper(c: char) -> (r: String)
    ensures
        r@ == upper_case(c),
        (c as u32) < 128 ==> r@ == seq![ascii_upper(c)],
{
    c.to_uppercase().collect()
}

/// What `str::to_uppercase` returns for a text.
pub uninterp spec fn upper_text(s: Seq<char>) -> Seq<char>;

/// `str::to_uppercase`: the text's upper case. ASCII text upper-cases one
/// character for one.
#[verifier::external_body]
pub(crate) fn to_uppercase(s: &str) -> (r: String)
    ensures
        r@ == upper_text(s@),
        all_ascii(s@) ==> r@ == s@.map_values(|c: char| ascii_upper(c)),
{
    s.to_uppercase()
}

/// Whether `syn` parses the text as an identifier.
pub uninterp spec fn is_ident(s: Seq<char>) -> bool;

/// Whether the text is spelled as a plain ASCII identifier: a letter or `_`,
/// then letters, digits and `_`.
pub open spec fn ascii_ident_shape(s: Seq<char>) -> bool {
    &&& s.len() > 0
    &&& ('a' <= s[0] <= 'z' || 'A' <= s[0] <= 'Z' || s[0] == '_')
    &&& forall|i: int| 0 <= i < s.len() ==> {
        let c = #[trigger] s[i];
        'a' <= c <= 'z' || 'A' <= c <= 'Z' || '0' <= c <= '9' || c == '_'
    }
}

/// The words `syn` refuses to read as an identifier: `_` and the keywords.
pub open spec fn syn_reserved(s: Seq<char>) -> bool {
    ||| s == "_"@ || s == "abstract"@ || s == "as"@ || s == "async"@ || s == "await"@
    ||| s == "become"@ || s == "box"@ || s == "break"@ || s == "const"@ || s == "continue"@
    ||| s == "crate"@ || s == "do"@ || s == "dyn"@ || s == "else"@ || s == "enum"@
    ||| s == "extern"@ || s == "false"@ || s == "final"@ || s == "fn"@ || s == "for"@
    ||| s == "if"@ || s == "impl"@ || s == "in"@ || s == "let"@ || s == "loop"@
    ||| s == "macro"@ || s == "match"@ || s == "mod"@ || s == "move"@ || s == "mut"@
    ||| s == "override"@ || s == "priv"@ || s == "pub"@ || s == "ref"@ || s == "return"@
    ||| s == "Self"@ || s == "self"@ || s == "static"@ || s == "struct"@ || s == "super"@
    ||| s == "trait"@ || s == "true"@ || s == "try"@ || s == "type"@ || s == "typeof"@
    ||| s == "unsafe"@ || s == "unsized"@ || s == "use"@ || s == "virtual"@ || s == "where"@
    ||| s == "while"@ || s == "yield"@
}

/// `syn::parse_str::<syn::Ident>(s).is_ok()`: whether the text is one Rust
/// identifier, a raw one included. Text spelled as a plain ASCII identifier
/// parses exactly when it is not one of the words `syn` reserves.
#[verifier::external_body]
fn parses_as_ident(s: &str) -> (r: bool)
    ensures
        r == is_ident(s@),
        ascii_ident_shape(s@) ==> (r <==> !syn_reserved(s@)),
{
    syn::parse_str::<syn::Ident>(s).is_ok()
}

/// The text after its last `/`, or all of it where it has none.
pub open spec fn last_segment(s: Seq<char>) -> Seq<char>
    decreases s.len(),
{
    if s.len() == 0 {
        s
    } else if s.last() == '/' {
        Seq::empty()
    } else {
        last_segment(s.drop_last()).push(s.last())
    }
}

/// Last path segment of a `#/components/schemas/Foo` reference.
pub fn reference_type_name(reference: &str) -> (r: String)
    ensures
        r@ == last_segment(reference@),
{
    let cs = chars_of(reference);
    let mut start: usize = cs.len();
    assert(cs@.take(start as int) =~= cs@);
    assert(cs@.skip(start as int) =~= Seq::<char>::empty());
    assert(last_segment(cs@) + Seq::<char>::empty() =~= last_segment(cs@));
    while start > 0 && cs[start - 1] != '/'
        invariant
            start <= cs@.len(),
            cs@ == reference@,
            last_segment(cs@) == last_segment(cs@.take(start as int)) + cs@.skip(start as int),
        decreases start,
    {
        assert(cs@.take(start as int).drop_last() =~= cs@.take(start - 1));
        assert(cs@.take(start as int).last() == cs@[start - 1]);
        assert(cs@.skip(start - 1) =~= seq![cs@[start - 1]] + cs@.skip(start as int));
        assert(last_segment(cs@.take(start - 1)).push(cs@[start - 1]) + cs@.skip(start as int)
            =~= last_segment(cs@.take(start - 1)) + cs@.skip(start - 1));
        start = start - 1;
    }
    proof {
        assert(cs@.take(cs@.len() as int) =~= cs@);
        if start > 0 {
            assert(cs@.take(start as int).last() == '/');
        }
        assert(last_segment(cs@.take(start as int)) =~= Seq::<char>::empty());
        assert(cs@.skip(start as int) =~= cs@.subrange(start as int, cs@.len() as int));
    }
    string_of_range(cs.as_slice(), start, cs.len())
}

/// Whether a character separates the words of an `operation_id`.
pub open spec fn is_separator(c: char) -> bool {
    c == '_' || c == '-'
}

/// The words of `s` run together, each opening with its first character's
/// upper case; `at_start` says whether `s` opens a word.
pub open spec fn pascal_from(s: Seq<char>, at_start: bool) -> Seq<char>
    decreases s.len(),
{
    if s.len() == 0 {
        Seq::empty()
    } else if is_separator(s[0]) {
        pascal_from(s.drop_first(), true)
    } else if at_start {
        upper_case(s[0]) + pascal_from(s.drop_first(), false)
    } else {
        seq![s[0]] + pascal_from(s.drop_first(), false)
    }
}

/// An `operation_id` as a type name: its words split at `_` and `-`, each
/// capitalised, run together.
pub open spec fn pascal_spec(name: Seq<char>) -> Seq<char> {
    pascal_from(name, true)
}

/// An `operation_id` as a type name.
pub fn pascal(name: &str) -> (r: String)
    ensures
        r@ == pascal_spec(name@),
{
    let cs = chars_of(name);
    let mut out = String::new();
    let mut at_start = true;
    let mut i: usize = 0;
    assert(cs@.skip(0) =~= cs@);
    while i < cs.len()
        invariant
            i <= cs@.len(),
            cs@ == name@,
            out@ + pascal_from(cs@.skip(i as int), at_start) == pascal_spec(name@),
        decreases cs@.len() - i,
    {
        let c = cs[i];
        assert(cs@.skip(i as int)[0] == c);
        assert(cs@.skip(i as int).drop_first() =~= cs@.skip(i + 1));
        if c == '_' || c == '-' {
            at_start = true;
        } else if at_start {
            let u = upper(c);
            let ghost before = out@;
            push_str(&mut out, u.as_str());
            assert(before + (upper_case(c) + pascal_from(cs@.skip(i + 1), false)) =~= out@ + pascal_from(cs@.skip(i + 1), false));
            at_start = false;
        } else {
            let ghost before = out@;
            push_char(&mut out, c);
            assert(before + (seq![c] + pascal_from(cs@.skip(i + 1), false)) =~= out@ + pascal_from(cs@.skip(i + 1), false));
        }
        i = i + 1;
    }
    assert(cs@.skip(i as int) =~= Seq::<char>::empty());
    assert(out@ + Seq::<char>::empty() =~= out@);
    out
}

/// The text with each `-` replaced by `_`.
pub open spec fn dashes_to_underscores(s: Seq<char>) -> Seq<char> {
    s.map_values(|c: char| if c == '-' { '_' } else { c })
}

/// A name as a Rust identifier: itself with `-` written `_`, or that with the
/// raw prefix where only the raw form is an identifier, or why it has no
/// identifier form.
pub open spec fn escape_spec(name: Seq<char>) -> Result<Seq<char>, Seq<char>> {
    let ident = dashes_to_underscores(name);
    if is_ident(ident) {
        Ok(ident)
    } else if is_ident("r#"@ + ident) {
        Ok("r#"@ + ident)
    } else {
        Err(
            name + " has no form that is a Rust identifier, so nothing generated can be named after it: rename it in the document"@,
        )
    }
}

/// A parameter or property name as a Rust identifier: `type` and friends are
/// legal names in a document and reserved here.
///
/// Not every name can be rescued by the raw prefix (`self`, `crate` and a name
/// opening with a digit have no identifier form at all), and one that cannot
/// is refused rather than emitted as source that will not parse.
pub fn escape_ident(name: &str) -> (r: Result<String, String>)
    ensures
        match r {
            Ok(s) => escape_spec(name@) == Ok::<Seq<char>, Seq<char>>(s@),
            Err(e) => escape_spec(name@) == Err::<Seq<char>, Seq<char>>(e@),
        },
{
    let cs = chars_of(name);
    let mut replaced: Vec<char> = Vec::new();
    let mut i: usize = 0;
    while i < cs.len()
        invariant
            i <= cs@.len(),
            cs@ == name@,
            replaced@ == dashes_to_underscores(cs@.take(i as int)),
        decreases cs@.len() - i,
    {
        let c = cs[i];
        replaced.push(if c == '-' { '_' } else { c });
        assert(replaced@ =~= dashes_to_underscores(cs@.take(i + 1)));
        i = i + 1;
    }
    assert(cs@.take(cs@.len() as int) =~= cs@);
    let ident = string_of(replaced.as_slice());
    if parses_as_ident(ident.as_str()) {
        return Ok(ident);
    }
    let mut raw = String::from_str("r#");
    push_str(&mut raw, ident.as_str());
    if parses_as_ident(raw.as_str()) {
        return Ok(raw);
    }
    let mut e = String::from_str(name);
    push_str(
        &mut e,
        " has no form that is a Rust identifier, so nothing generated can be named after it: rename it in the document",
    );
    Err(e)
}

} // verus!
