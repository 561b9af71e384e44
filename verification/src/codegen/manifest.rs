//! Writing the document's version into the `[package]` section of a manifest.

use vstd::prelude::*;
use crate::text::{chars_of, debug_quoted, find_from, find_spec, first_from, occurs_at, push_str, quoted, string_of_range};
use vstd::slice::slice_subrange;

verus! {

/// Where the `[package]` table header starts.
pub open spec fn package_at(text: Seq<char>) -> Option<int> {
    find_spec(text, "[package]"@, 0)
}

/// Where the section starting at `package` ends: just past the newline before
/// the next table header, or at the end of the text.
pub open spec fn section_end(text: Seq<char>, package: int) -> int {
    match find_spec(text, "\n["@, package + 1) {
        Some(newline) => newline + 1,
        None => text.len() as int,
    }
}

/// Where the section's `version = ` line starts, if the section has one.
pub open spec fn version_line(text: Seq<char>, package: int) -> Option<int> {
    match find_spec(text.subrange(package, section_end(text, package)), "\nversion = "@, 0) {
        Some(at) => Some(package + at + 1),
        None => None,
    }
}

/// Where the line starting at `line` ends: at its newline, or at the end of
/// the text.
pub open spec fn line_end(text: Seq<char>, line: int) -> int {
    match find_spec(text, "\n"@, line) {
        Some(at) => at,
        None => text.len() as int,
    }
}

/// The manifest with its package version line replaced, or why it has none.
pub open spec fn stamp_spec(text: Seq<char>, version: Seq<char>) -> Result<Seq<char>, Seq<char>> {
    match package_at(text) {
        None => Err("manifest has no [package] section"@),
        Some(package) => match version_line(text, package) {
            None => Err("[package] section declares no version"@),
            Some(line) => Ok(
                text.subrange(0, line) + "version = "@ + debug_quoted(version) + text.subrange(
                    line_end(text, line),
                    text.len() as int,
                ),
            ),
        },
    }
}

/// The first occurrence at or after `from` is what a search finds.
proof fn lemma_find_first(s: Seq<char>, pat: Seq<char>, from: int, at: int)
    requires
        first_from(s, pat, from, at),
    ensures
        find_spec(s, pat, from) == Some(at),
{
    let c = choose|c: int| first_from(s, pat, from, c);
    if c < at {
        assert(!occurs_at(s, pat, c));
    } else if at < c {
        assert(!occurs_at(s, pat, at));
    }
}

/// A search finds what it found in the other text, where the two agree up to
/// the end of that occurrence.
proof fn lemma_find_carries(s: Seq<char>, t: Seq<char>, pat: Seq<char>, from: int, at: int, n: int)
    requires
        first_from(s, pat, from, at),
        at + pat.len() <= n <= s.len(),
        n <= t.len(),
        s.subrange(0, n) == t.subrange(0, n),
    ensures
        find_spec(t, pat, from) == Some(at),
{
    assert forall|j: int| from <= j < at implies !#[trigger] occurs_at(t, pat, j) by {
        if occurs_at(t, pat, j) {
            assert forall|k: int| 0 <= k < pat.len() implies s[j + k] == pat[k] by {
                assert(s[j + k] == s.subrange(0, n)[j + k]);
                assert(t[j + k] == t.subrange(0, n)[j + k]);
                assert(t[j + k] == t.subrange(j, j + pat.len())[k]);
            }
            assert(s.subrange(j, j + pat.len()) =~= pat);
            assert(!occurs_at(s, pat, j));
        }
    }
    assert forall|k: int| 0 <= k < pat.len() implies t[at + k] == pat[k] by {
        assert(s[at + k] == s.subrange(0, n)[at + k]);
        assert(t[at + k] == t.subrange(0, n)[at + k]);
        assert(s[at + k] == s.subrange(at, at + pat.len())[k]);
    }
    assert(t.subrange(at, at + pat.len()) =~= pat);
    assert(first_from(t, pat, from, at));
    lemma_find_first(t, pat, from, at);
}

/// A search that finds nothing at or after `from`.
proof fn lemma_find_none(s: Seq<char>, pat: Seq<char>, from: int)
    requires
        forall|j: int| from <= j ==> !#[trigger] occurs_at(s, pat, j),
    ensures
        find_spec(s, pat, from) is None,
{
}

/// Where `pat` occurs at or after `from`, a search from `from` finds something.
proof fn lemma_first_exists(s: Seq<char>, pat: Seq<char>, from: int, j: int)
    requires
        from <= j,
        occurs_at(s, pat, j),
    ensures
        find_spec(s, pat, from) is Some,
    decreases j - from,
{
    if forall|k: int| from <= k < j ==> !#[trigger] occurs_at(s, pat, k) {
        assert(first_from(s, pat, from, j));
    } else {
        let k = choose|k: int| from <= k < j && #[trigger] occurs_at(s, pat, k);
        lemma_first_exists(s, pat, from, k);
    }
}

/// A manifest that was just stamped keeps its section, its version line and
/// the line's end where the stamp put them, so stamping it again with the
/// same version writes back the same text.
#[verifier::rlimit(40)]
proof fn lemma_stamp_idempotent(text: Seq<char>, version: Seq<char>, once: Seq<char>)
    requires
        stamp_spec(text, version) == Ok::<Seq<char>, Seq<char>>(once),
        !debug_quoted(version).contains('\n'),
    ensures
        stamp_spec(once, version) == Ok::<Seq<char>, Seq<char>>(once),
{
    reveal_strlit("[package]");
    reveal_strlit("\n[");
    reveal_strlit("\nversion = ");
    reveal_strlit("version = ");
    reveal_strlit("\n");
    let t = text;
    let header = "[package]"@;
    let next = "\n["@;
    let key = "\nversion = "@;
    let nl = "\n"@;
    let p = package_at(t)->0;
    assert(first_from(t, header, 0, p));
    let s_end = section_end(t, p);
    match find_spec(t, next, p + 1) {
        Some(m) => {
            assert(first_from(t, next, p + 1, m));
        },
        None => {},
    }
    assert(p <= s_end <= t.len());
    let w = t.subrange(p, s_end);
    let at = find_spec(w, key, 0)->0;
    assert(first_from(w, key, 0, at));
    let l = p + at + 1;
    assert(l + 10 <= s_end);
    assert forall|i: int| l <= i < l + 10 implies t[i] == "version = "@[i - l] by {
        assert(t[i] == w[i - p]);
        assert(w[i - p] == w.subrange(at, at + key.len())[i - l + 1]);
    }
    let e = line_end(t, l);
    match find_spec(t, nl, l) {
        Some(x) => {
            assert(first_from(t, nl, l, x));
        },
        None => {},
    }
    assert(l <= e <= t.len());
    let q = debug_quoted(version);
    let v = "version = "@ + q;
    assert(once =~= t.subrange(0, l) + v + t.subrange(e, t.len() as int));
    let lv = l + v.len();
    assert(once.len() == lv + (t.len() - e));
    assert forall|i: int| 0 <= i < l + 10 implies once[i] == t[i] by {
        if i >= l {
            assert(once[i] == v[i - l]);
        }
    }
    assert(once.subrange(0, l + 10) =~= t.subrange(0, l + 10));
    // The header is found where it was.
    lemma_find_carries(t, once, header, 0, p, l + 10);
    assert(package_at(once) == Some(p));
    // The section still reaches past the version line's key.
    let s2 = section_end(once, p);
    match find_spec(once, next, p + 1) {
        Some(n) => {
            assert(first_from(once, next, p + 1, n));
            if n < l + 9 {
                assert(t.subrange(n, n + 2) =~= once.subrange(n, n + 2)) by {
                    assert(t[n] == once[n]);
                    assert(t[n + 1] == once[n + 1]);
                }
                assert(occurs_at(t, next, n));
                match find_spec(t, next, p + 1) {
                    Some(m) => {
                        assert(first_from(t, next, p + 1, m));
                        assert(!occurs_at(t, next, n));
                    },
                    None => {
                        lemma_first_exists(t, next, p + 1, n);
                    },
                }
            }
        },
        None => {},
    }
    assert(l + 10 <= s2 <= once.len());
    // The version line is found where it was.
    let w2 = once.subrange(p, s2);
    let k = l + 10 - p;
    assert(w.subrange(0, k) =~= w2.subrange(0, k)) by {
        assert forall|i: int| 0 <= i < k implies w[i] == w2[i] by {
            assert(w[i] == t[p + i]);
            assert(w2[i] == once[p + i]);
        }
    }
    lemma_find_carries(w, w2, key, 0, at, k);
    assert(version_line(once, p) == Some(l));
    // The line now ends just after the quoted version.
    assert forall|i: int| 0 <= i < v.len() implies v[i] != '\n' by {
        if i >= 10 {
            assert(v[i] == q[i - 10]);
        }
    }
    assert forall|j: int| l <= j < lv implies !#[trigger] occurs_at(once, nl, j) by {
        assert(once[j] == v[j - l]);
        if occurs_at(once, nl, j) {
            assert(once.subrange(j, j + 1)[0] == once[j]);
        }
    }
    if e < t.len() {
        assert(first_from(t, nl, l, e));
        assert(t.subrange(e, e + 1)[0] == t[e]);
        assert(once[lv] == t[e]);
        assert(once.subrange(lv, lv + 1) =~= nl);
        assert(first_from(once, nl, l, lv));
        lemma_find_first(once, nl, l, lv);
    } else {
        assert(once.len() == lv);
        lemma_find_none(once, nl, l);
    }
    assert(line_end(once, l) == lv);
    assert(once.subrange(0, l) =~= t.subrange(0, l));
    assert(once.subrange(lv, once.len() as int) =~= t.subrange(e, t.len() as int));
    assert(once.subrange(0, l) + "version = "@ + q + once.subrange(lv, once.len() as int) =~= once);
}

/// Replace the `[package]` section's version line, and only that line.
///
/// Dependency versions live in their own sections, so the search is bounded
/// to the `[package]` table. Stamping the result again with the same version
/// gives it back unchanged.
pub fn stamp(text: &str, version: &str) -> (r: Result<String, String>)
    ensures
        r matches Ok(s) ==> stamp_spec(text@, version@) == Ok::<Seq<char>, Seq<char>>(s@),
        r matches Err(e) ==> stamp_spec(text@, version@) == Err::<Seq<char>, Seq<char>>(e@),
        r matches Ok(s) ==> stamp_spec(s@, version@) == Ok::<Seq<char>, Seq<char>>(s@),
{
    let t = chars_of(text);
    let header = chars_of("[package]");
    let package = match find_from(&t, &header, 0) {
        Some(at) => at,
        None => return Err(String::from_str("manifest has no [package] section")),
    };
    proof {
        reveal_strlit("[package]");
        assert(header@.len() == 9);
        assert(occurs_at(t@, header@, package as int));
        assert(package + 9 <= t@.len());
        assert(t@.len() == t.len());
    }
    let next_header = chars_of("\n[");
    proof {
        reveal_strlit("\n[");
        reveal_strlit("\nversion = ");
    }
    let end = match find_from(&t, &next_header, package + 1) {
        Some(newline) => {
            assert(occurs_at(t@, next_header@, newline as int));
            newline + 1
        },
        None => t.len(),
    };
    proof {
        reveal_strlit("\n[");
        if let Some(n) = find_spec(t@, "\n["@, package + 1) {
            assert(occurs_at(t@, "\n["@, n));
        }
    }
    assert(end == section_end(t@, package as int));
    let window = slice_subrange(t.as_slice(), package, end);
    let key = chars_of("\nversion = ");
    let line = match find_from(window, &key, 0) {
        Some(at) => {
            assert(occurs_at(window@, key@, at as int));
            package + at + 1
        },
        None => return Err(String::from_str("[package] section declares no version")),
    };
    let newline = chars_of("\n");
    let stop = match find_from(&t, &newline, line) {
        Some(at) => at,
        None => t.len(),
    };
    proof {
        reveal_strlit("\nversion = ");
        let at = find_spec(window@, "\nversion = "@, 0)->0;
        assert(occurs_at(window@, "\nversion = "@, at));
    }
    let mut out = string_of_range(&t, 0, line);
    push_str(&mut out, "version = ");
    let q = quoted(version);
    push_str(&mut out, q.as_str());
    let tail = string_of_range(&t, stop, t.len());
    push_str(&mut out, tail.as_str());
    proof {
        assert(stamp_spec(text@, version@) == Ok::<Seq<char>, Seq<char>>(out@));
        lemma_stamp_idempotent(text@, version@, out@);
    }
    Ok(out)
}

} // verus!
