//! Reading a path template and a block of prose the way the generator does:
//! its segments, its parameters, the method name it gives, and the lines a
//! description is written in.

use vstd::prelude::*;
use crate::text::{chars_of, find_from, find_spec, first_from, occurs_at, push_char, push_str, string_of, string_of_range, join, joined};

verus! {

/// The text split at each `/`, as `str::split('/')` splits it: an empty text
/// is one empty segment.
pub open spec fn segments(s: Seq<char>) -> Seq<Seq<char>>
    decreases s.len(),
{
    if s.len() == 0 {
        seq![Seq::empty()]
    } else if s.last() == '/' {
        segments(s.drop_last()).push(Seq::empty())
    } else {
        let r = segments(s.drop_last());
        r.update(r.len() - 1, r.last().push(s.last()))
    }
}

/// `segments` never yields nothing.
proof fn lemma_segments_nonempty(s: Seq<char>)
    ensures
        segments(s).len() > 0,
    decreases s.len(),
{
    if s.len() > 0 {
        lemma_segments_nonempty(s.drop_last());
    }
}

/// The text split at each `/`.
pub fn split_path(path: &str) -> (r: Vec<String>)
    ensures
        r@.map_values(|s: String| s@) == segments(path@),
{
    let cs = chars_of(path);
    let mut out: Vec<String> = Vec::new();
    let mut start: usize = 0;
    let mut i: usize = 0;
    assert(cs@.take(0) =~= Seq::<char>::empty());
    while i < cs.len()
        invariant
            cs@ == path@,
            start <= i <= cs@.len(),
            out@.map_values(|s: String| s@).push(cs@.subrange(start as int, i as int)) == segments(cs@.take(i as int)),
        decreases cs@.len() - i,
    {
        proof {
            lemma_segments_nonempty(cs@.take(i as int));
        }
        assert(cs@.take(i + 1).drop_last() =~= cs@.take(i as int));
        assert(cs@.take(i + 1).last() == cs@[i as int]);
        if cs[i] == '/' {
            let seg = string_of_range(cs.as_slice(), start, i);
            let ghost before = out@.map_values(|s: String| s@);
            out.push(seg);
            assert(out@.map_values(|s: String| s@) =~= before.push(cs@.subrange(start as int, i as int)));
            start = i + 1;
            assert(cs@.subrange(start as int, i + 1) =~= Seq::<char>::empty());
        } else {
            assert(cs@.subrange(start as int, i + 1) =~= cs@.subrange(start as int, i as int).push(cs@[i as int]));
        }
        i = i + 1;
    }
    let last = string_of_range(cs.as_slice(), start, cs.len());
    let ghost before = out@.map_values(|s: String| s@);
    out.push(last);
    assert(out@.map_values(|s: String| s@) =~= before.push(cs@.subrange(start as int, cs@.len() as int)));
    assert(cs@.take(cs@.len() as int) =~= cs@);
    out
}

/// The parameter a segment names, where it is `{name}`.
pub open spec fn segment_param(seg: Seq<char>) -> Option<Seq<char>> {
    if seg.len() >= 2 && seg[0] == '{' && seg.last() == '}' {
        Some(seg.subrange(1, seg.len() - 1))
    } else {
        None
    }
}

/// The parameters the segments name, in order.
pub open spec fn params_in(segs: Seq<Seq<char>>) -> Seq<Seq<char>>
    decreases segs.len(),
{
    if segs.len() == 0 {
        Seq::empty()
    } else {
        match segment_param(segs.last()) {
            Some(p) => params_in(segs.drop_last()).push(p),
            None => params_in(segs.drop_last()),
        }
    }
}

/// The parameters a path template names, in order.
pub open spec fn path_params(path: Seq<char>) -> Seq<Seq<char>> {
    params_in(segments(path))
}

/// The segments a method is named for: the literal ones, with `-` written
/// `_`.
pub open spec fn name_parts(segs: Seq<Seq<char>>) -> Seq<Seq<char>>
    decreases segs.len(),
{
    if segs.len() == 0 {
        Seq::empty()
    } else {
        let seg = segs.last();
        if seg.len() > 0 && seg[0] != '{' {
            name_parts(segs.drop_last()).push(seg.map_values(|c: char| if c == '-' { '_' } else { c }))
        } else {
            name_parts(segs.drop_last())
        }
    }
}

/// The name a path gives its method: its literal segments joined with `_`.
pub open spec fn method_name(path: Seq<char>) -> Seq<char> {
    joined(name_parts(segments(path)), "_"@)
}

/// The parameters a path template names, and the name it gives its method.
pub fn path_parts(path: &str) -> (r: (Vec<String>, String))
    ensures
        r.0@.map_values(|s: String| s@) == path_params(path@),
        r.1@ == method_name(path@),
{
    let segs = split_path(path);
    let ghost sv = segs@.map_values(|s: String| s@);
    let mut params: Vec<String> = Vec::new();
    let mut parts: Vec<String> = Vec::new();
    let mut i: usize = 0;
    assert(sv.take(0) =~= Seq::<Seq<char>>::empty());
    assert(params@.map_values(|s: String| s@) =~= Seq::<Seq<char>>::empty());
    assert(parts@.map_values(|s: String| s@) =~= Seq::<Seq<char>>::empty());
    while i < segs.len()
        invariant
            i <= segs@.len(),
            sv == segs@.map_values(|s: String| s@),
            params@.map_values(|s: String| s@) == params_in(sv.take(i as int)),
            parts@.map_values(|s: String| s@) == name_parts(sv.take(i as int)),
        decreases segs@.len() - i,
    {
        assert(sv.take(i + 1).drop_last() =~= sv.take(i as int));
        assert(sv.take(i + 1).last() == segs@[i as int]@);
        let cs = chars_of(segs[i].as_str());
        let n = cs.len();
        if n >= 2 && cs[0] == '{' && cs[n - 1] == '}' {
            let p = string_of_range(cs.as_slice(), 1, n - 1);
            let ghost before = params@.map_values(|s: String| s@);
            let ghost pv = p@;
            params.push(p);
            assert(params@.map_values(|s: String| s@) =~= before.push(pv));
        }
        if n > 0 && cs[0] != '{' {
            let mut renamed: Vec<char> = Vec::new();
            let mut k: usize = 0;
            while k < n
                invariant
                    k <= n == cs@.len(),
                    renamed@ == cs@.take(k as int).map_values(|c: char| if c == '-' { '_' } else { c }),
                decreases n - k,
            {
                let c = cs[k];
                renamed.push(if c == '-' { '_' } else { c });
                assert(renamed@ =~= cs@.take(k + 1).map_values(|c: char| if c == '-' { '_' } else { c }));
                k = k + 1;
            }
            assert(cs@.take(n as int) =~= cs@);
            let part = string_of(renamed.as_slice());
            let ghost before = parts@.map_values(|s: String| s@);
            let ghost partv = part@;
            parts.push(part);
            assert(parts@.map_values(|s: String| s@) =~= before.push(partv));
        }
        i = i + 1;
    }
    assert(sv.take(segs@.len() as int) =~= sv);
    (params, join(parts.as_slice(), "_"))
}

/// A line as `str::lines` yields it: without its newline, and without a
/// carriage return before that newline.
pub open spec fn strip_ending(chunk: Seq<char>) -> Seq<char> {
    if chunk.len() > 0 && chunk.last() == '\n' {
        let line = chunk.drop_last();
        if line.len() > 0 && line.last() == '\r' {
            line.drop_last()
        } else {
            line
        }
    } else {
        chunk
    }
}

/// The lines of a text, as `str::lines` yields them: split after each
/// newline, a final line ending optional.
pub open spec fn lines_spec(s: Seq<char>) -> Seq<Seq<char>>
    decreases s.len(),
{
    if s.len() == 0 {
        Seq::empty()
    } else {
        match find_spec(s, "\n"@, 0) {
            None => seq![s],
            Some(k) => {
                if k + 1 <= s.len() {
                    seq![strip_ending(s.subrange(0, k + 1))] + lines_spec(s.subrange(k + 1, s.len() as int))
                } else {
                    Seq::empty()
                }
            },
        }
    }
}

/// The lines of a text, as `str::lines` yields them.
pub fn lines(s: &str) -> (r: Vec<String>)
    ensures
        r@.map_values(|l: String| l@) == lines_spec(s@),
{
    let cs = chars_of(s);
    let nl: Vec<char> = vec!['\n'];
    assert(nl@ =~= "\n"@) by {
        reveal_strlit("\n");
    }
    assert(nl@ =~= seq!['\n']);
    let mut out: Vec<String> = Vec::new();
    let mut start: usize = 0;
    assert(cs@.subrange(0, cs@.len() as int) =~= cs@);
    assert(out@.map_values(|l: String| l@) =~= Seq::<Seq<char>>::empty());
    while start < cs.len()
        invariant
            cs@ == s@,
            nl@ == "\n"@,
            nl@ == seq!['\n'],
            start <= cs@.len(),
            out@.map_values(|l: String| l@) + lines_spec(cs@.subrange(start as int, cs@.len() as int)) == lines_spec(s@),
        decreases cs@.len() - start,
    {
        let ghost rest = cs@.subrange(start as int, cs@.len() as int);
        match find_from(cs.as_slice(), nl.as_slice(), start) {
            Some(at) => {
                proof {
                    lemma_find_in_rest(cs@, nl@, start as int, at as int);
                }
                let mut end = at;
                if end > start && cs[end - 1] == '\r' {
                    end = end - 1;
                }
                let line = string_of_range(cs.as_slice(), start, end);
                let ghost before = out@.map_values(|l: String| l@);
                let ghost lv = line@;
                out.push(line);
                proof {
                    let chunk = rest.subrange(0, at - start + 1);
                    assert(cs@.subrange(at as int, at + 1) == nl@);
                    assert(cs@[at as int] == cs@.subrange(at as int, at + 1)[0]);
                    assert(chunk.last() == '\n');
                    assert(chunk.drop_last() =~= cs@.subrange(start as int, at as int));
                    assert(lv =~= strip_ending(chunk));
                    assert(rest.subrange(at - start + 1, rest.len() as int) =~= cs@.subrange(at + 1, cs@.len() as int));
                    assert(out@.map_values(|l: String| l@) =~= before.push(lv));
                    assert(before + lines_spec(rest) =~= out@.map_values(|l: String| l@) + lines_spec(cs@.subrange(at + 1, cs@.len() as int)));
                }
                start = at + 1;
            },
            None => {
                proof {
                    lemma_none_in_rest(cs@, nl@, start as int);
                }
                let line = string_of_range(cs.as_slice(), start, cs.len());
                let ghost before = out@.map_values(|l: String| l@);
                let ghost lv = line@;
                out.push(line);
                proof {
                    assert(out@.map_values(|l: String| l@) =~= before.push(lv));
                    assert(lines_spec(rest) == seq![rest]);
                    assert(cs@.subrange(cs@.len() as int, cs@.len() as int) =~= Seq::<char>::empty());
                    assert(before + lines_spec(rest) =~= out@.map_values(|l: String| l@) + lines_spec(Seq::<char>::empty()));
                }
                start = cs.len();
            },
        }
    }
    assert(out@.map_values(|l: String| l@) + lines_spec(cs@.subrange(start as int, cs@.len() as int)) =~= out@.map_values(|l: String| l@));
    out
}

/// A newline found from `start` is the first newline of what follows it.
proof fn lemma_find_in_rest(s: Seq<char>, pat: Seq<char>, start: int, at: int)
    requires
        0 <= start < s.len(),
        pat.len() == 1,
        first_from(s, pat, start, at),
    ensures
        at < s.len(),
        find_spec(s.subrange(start, s.len() as int), pat, 0) == Some(at - start),
{
    let rest = s.subrange(start, s.len() as int);
    assert(first_from(rest, pat, 0, at - start)) by {
        assert(rest.subrange(at - start, at - start + pat.len()) =~= s.subrange(at, at + pat.len()));
        assert forall|j: int| 0 <= j < at - start implies !#[trigger] occurs_at(rest, pat, j) by {
            assert(!occurs_at(s, pat, j + start));
            if occurs_at(rest, pat, j) {
                assert(rest.subrange(j, j + pat.len()) =~= s.subrange(j + start, j + start + pat.len()));
            }
        }
    }
    let c = choose|c: int| first_from(rest, pat, 0, c);
    if c < at - start {
        assert(!occurs_at(rest, pat, c));
    } else if c > at - start {
        assert(!occurs_at(rest, pat, at - start));
    }
}

/// No newline from `start` leaves none in what follows it.
proof fn lemma_none_in_rest(s: Seq<char>, pat: Seq<char>, start: int)
    requires
        0 <= start < s.len(),
        find_spec(s, pat, start) is None,
    ensures
        find_spec(s.subrange(start, s.len() as int), pat, 0) is None,
{
    let rest = s.subrange(start, s.len() as int);
    if exists|c: int| first_from(rest, pat, 0, c) {
        let c = choose|c: int| first_from(rest, pat, 0, c);
        assert(rest.subrange(c, c + pat.len()) =~= s.subrange(c + start, c + start + pat.len()));
        // The first occurrence from `start` in `s` would be found: some
        // occurrence exists, so there is a first.
        lemma_some_first(s, pat, start, c + start);
    }
}

/// Where `pat` occurs at or after `from`, it has a first occurrence there.
proof fn lemma_some_first(s: Seq<char>, pat: Seq<char>, from: int, at: int)
    requires
        from <= at,
        occurs_at(s, pat, at),
    ensures
        find_spec(s, pat, from) is Some,
    decreases at - from,
{
    if forall|j: int| from <= j < at ==> !#[trigger] occurs_at(s, pat, j) {
        assert(first_from(s, pat, from, at));
    } else {
        let j = choose|j: int| from <= j < at && #[trigger] occurs_at(s, pat, j);
        lemma_some_first(s, pat, from, j);
    }
}

/// The text with every occurrence of `pat` replaced by `with`, left to
/// right, as `str::replace` does for a pattern that is not empty.
pub open spec fn replace_all(s: Seq<char>, pat: Seq<char>, with: Seq<char>) -> Seq<char>
    decreases s.len(),
{
    if pat.len() == 0 {
        s
    } else {
        match find_spec(s, pat, 0) {
            None => s,
            Some(k) => if 0 <= k && k + pat.len() <= s.len() {
                s.subrange(0, k) + with + replace_all(s.subrange(k + pat.len(), s.len() as int), pat, with)
            } else {
                s
            },
        }
    }
}

/// The text with every occurrence of `pat` replaced by `with`.
pub fn replace(s: &str, pat: &str, with: &str) -> (r: String)
    requires
        pat@.len() > 0,
    ensures
        r@ == replace_all(s@, pat@, with@),
{
    let cs = chars_of(s);
    let ps = chars_of(pat);
    let mut out = String::new();
    let mut start: usize = 0;
    assert(cs@.subrange(0, cs@.len() as int) =~= cs@);
    while start <= cs.len()
        invariant
            cs@ == s@,
            ps@ == pat@,
            ps@.len() > 0,
            start <= cs@.len() + 1,
            start <= cs@.len() ==> out@ + replace_all(cs@.subrange(start as int, cs@.len() as int), pat@, with@) == replace_all(s@, pat@, with@),
            start > cs@.len() ==> out@ == replace_all(s@, pat@, with@),
        decreases cs@.len() + 1 - start,
    {
        let ghost rest = cs@.subrange(start as int, cs@.len() as int);
        match find_from(cs.as_slice(), ps.as_slice(), start) {
            Some(at) => {
                proof {
                    lemma_find_from_rest(cs@, ps@, start as int, at as int);
                }
                push_str(&mut out, string_of_range(cs.as_slice(), start, at).as_str());
                push_str(&mut out, with);
                proof {
                    assert(rest.subrange(0, at - start) =~= cs@.subrange(start as int, at as int));
                    assert(rest.subrange(at - start + ps@.len(), rest.len() as int) =~= cs@.subrange(at + ps@.len(), cs@.len() as int));
                }
                start = at + ps.len();
            },
            None => {
                proof {
                    if start < cs@.len() {
                        lemma_none_in_rest(cs@, ps@, start as int);
                    } else {
                        assert(rest =~= Seq::<char>::empty());
                        if exists|c: int| first_from(rest, pat@, 0, c) {
                            let c = choose|c: int| first_from(rest, pat@, 0, c);
                            assert(occurs_at(rest, pat@, c));
                        }
                    }
                }
                push_str(&mut out, string_of_range(cs.as_slice(), start, cs.len()).as_str());
                return out;
            },
        }
    }
    out
}

/// Where `pat` is found from `start`, it is the first occurrence in what
/// follows `start`.
proof fn lemma_find_from_rest(s: Seq<char>, pat: Seq<char>, start: int, at: int)
    requires
        0 <= start <= s.len(),
        pat.len() > 0,
        first_from(s, pat, start, at),
    ensures
        at + pat.len() <= s.len(),
        find_spec(s.subrange(start, s.len() as int), pat, 0) == Some(at - start),
{
    let rest = s.subrange(start, s.len() as int);
    assert(first_from(rest, pat, 0, at - start)) by {
        assert(rest.subrange(at - start, at - start + pat.len()) =~= s.subrange(at, at + pat.len()));
        assert forall|j: int| 0 <= j < at - start implies !#[trigger] occurs_at(rest, pat, j) by {
            assert(!occurs_at(s, pat, j + start));
            if occurs_at(rest, pat, j) {
                assert(rest.subrange(j, j + pat.len()) =~= s.subrange(j + start, j + start + pat.len()));
            }
        }
    }
    let c = choose|c: int| first_from(rest, pat, 0, c);
    if c < at - start {
        assert(!occurs_at(rest, pat, c));
    } else if c > at - start {
        assert(!occurs_at(rest, pat, at - start));
    }
}

} // verus!
