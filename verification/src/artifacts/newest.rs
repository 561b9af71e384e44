//! When anything a reporting-schema build reads for a version last changed.

use vstd::prelude::*;
use super::Artifact;
use super::matching::{SemVer, range_parses, range_satisfied, range_is_satisfied};

verus! {

/// Whether no two entries name one version.
pub open spec fn distinct_ids(v: Seq<(u128, i128)>) -> bool {
    forall|i: int, j: int| 0 <= i < j < v.len() ==> (#[trigger] v[i]).0 != (#[trigger] v[j]).0
}

/// When the version's own artifacts last changed: the last row read for it
/// that carries a time.
pub open spec fn last_exact(exact: Seq<(Option<u128>, Option<i128>)>, id: u128) -> Option<i128>
    decreases exact.len(),
{
    if exact.len() == 0 {
        None
    } else if exact.last().0 == Some(id) && exact.last().1 is Some {
        exact.last().1
    } else {
        last_exact(exact.drop_last(), id)
    }
}

/// Whether range row `j` reads as a range that admits version `k`.
pub open spec fn hit(ranges: Seq<(Option<String>, i128)>, versions: Seq<(u128, SemVer)>, j: int, k: int) -> bool {
    ranges[j].0 matches Some(p) && range_parses(p@) && range_satisfied(
        p@,
        versions[k].1.major,
        versions[k].1.minor,
        versions[k].1.patch,
    )
}

/// Whether `at` is a time something read for version `id` changed, counting
/// the range rows before `j`, and the versions before `k` of row `j`.
pub open spec fn contributes(
    exact: Seq<(Option<u128>, Option<i128>)>,
    ranges: Seq<(Option<String>, i128)>,
    versions: Seq<(u128, SemVer)>,
    id: u128,
    at: i128,
    j: int,
    k: int,
) -> bool {
    ||| last_exact(exact, id) == Some(at)
    ||| exists|rj: int, vk: int|
        #![trigger hit(ranges, versions, rj, vk)]
        ((0 <= rj < j && 0 <= vk < versions.len()) || (rj == j && 0 <= vk < k)) && hit(
            ranges,
            versions,
            rj,
            vk,
        ) && versions[vk].0 == id && ranges[rj].1 == at
}

/// Whether `at` is a time something read for version `id` changed: its own
/// artifacts' newest registration, or that of a range artifact admitting it.
pub open spec fn changed_at(
    exact: Seq<(Option<u128>, Option<i128>)>,
    ranges: Seq<(Option<String>, i128)>,
    versions: Seq<(u128, SemVer)>,
    id: u128,
    at: i128,
) -> bool {
    contributes(exact, ranges, versions, id, at, ranges.len() as int, 0)
}

/// Where the version's entry stands, if it has one.
fn find_entry(v: &Vec<(u128, i128)>, id: u128) -> (r: Option<usize>)
    requires
        distinct_ids(v@),
    ensures
        r matches Some(p) ==> p < v@.len() && v@[p as int].0 == id,
        r is None ==> forall|i: int| 0 <= i < v@.len() ==> (#[trigger] v@[i]).0 != id,
{
    let mut i: usize = 0;
    while i < v.len()
        invariant
            i <= v@.len(),
            forall|m: int| 0 <= m < i ==> (#[trigger] v@[m]).0 != id,
        decreases v@.len() - i,
    {
        if v[i].0 == id {
            return Some(i);
        }
        i = i + 1;
    }
    None
}

impl Artifact {
    /// When anything a build reads was last registered for each of these
    /// versions: for each version, the newest of its own artifacts' time and the
    /// times of the range artifacts whose range admits it. A pattern that is no
    /// range counts for nothing.
    ///
    /// `exact` holds, per version, when its own unscoped artifacts last changed;
    /// `ranges` holds each unscoped range artifact's pattern and time.
    pub fn newest_change_for_versions(
        versions: &Vec<(u128, SemVer)>,
        exact: &Vec<(Option<u128>, Option<i128>)>,
        ranges: &Vec<(Option<String>, i128)>,
    ) -> (r: Vec<(u128, i128)>)
        ensures
            distinct_ids(r@),
            forall|id: u128, at: i128|
                #[trigger] changed_at(exact@, ranges@, versions@, id, at) ==> exists|i: int|
                    0 <= i < r@.len() && (#[trigger] r@[i]).0 == id && r@[i].1 >= at,
            forall|i: int|
                0 <= i < r@.len() ==> changed_at(exact@, ranges@, versions@, (#[trigger] r@[i]).0, r@[i].1),
    {
        let mut out: Vec<(u128, i128)> = Vec::new();
        let mut e: usize = 0;
        while e < exact.len()
            invariant
                e <= exact@.len(),
                distinct_ids(out@),
                forall|id: u128| #[trigger] last_exact(exact@.take(e as int), id) is Some ==> exists|i: int|
                    0 <= i < out@.len() && (#[trigger] out@[i]).0 == id && Some(out@[i].1) == last_exact(exact@.take(e as int), id),
                forall|i: int|
                    0 <= i < out@.len() ==> Some((#[trigger] out@[i]).1) == last_exact(exact@.take(e as int), out@[i].0),
            decreases exact@.len() - e,
        {
            let ghost prev = exact@.take(e as int);
            let ghost next = exact@.take(e + 1);
            proof {
                assert(next.drop_last() =~= prev);
                assert(next.last() == exact@[e as int]);
            }
            if let (Some(id), Some(at)) = exact[e] {
                let ghost was = out@;
                let ghost mut slot: int = 0;
                match find_entry(&out, id) {
                    Some(p) => {
                        out.set(p, (id, at));
                        proof {
                            slot = p as int;
                        }
                    },
                    None => {
                        out.push((id, at));
                        proof {
                            slot = was.len() as int;
                        }
                    },
                }
                assert(0 <= slot < out@.len() && out@[slot] == (id, at));
                proof {
                    assert forall|x: u128| #[trigger] last_exact(next, x) is Some implies exists|i: int|
                        0 <= i < out@.len() && (#[trigger] out@[i]).0 == x && Some(out@[i].1) == last_exact(next, x) by {
                        if x == id {
                            assert(out@[slot].0 == x);
                        } else {
                            let i = choose|i: int| 0 <= i < was.len() && (#[trigger] was[i]).0 == x && Some(was[i].1) == last_exact(prev, x);
                            assert(out@[i] == was[i]);
                        }
                    }
                    assert forall|i: int| 0 <= i < out@.len() implies Some((#[trigger] out@[i]).1) == last_exact(next, out@[i].0) by {
                        if out@[i].0 != id {
                            assert(out@[i] == was[i]);
                        }
                    }
                    assert forall|i: int, j: int| 0 <= i < j < out@.len() implies (#[trigger] out@[i]).0 != (#[trigger] out@[j]).0 by {
                        if j == was.len() {
                            assert(out@[i] == was[i]);
                        }
                    }
                }
            } else {
                proof {
                    assert forall|x: u128| #[trigger] last_exact(next, x) == last_exact(prev, x) by {}
                }
            }
            e = e + 1;
        }
        proof {
            assert(exact@.take(e as int) =~= exact@);
        }
        let mut j: usize = 0;
        while j < ranges.len()
            invariant
                j <= ranges@.len(),
                distinct_ids(out@),
                forall|id: u128, at: i128|
                    #[trigger] contributes(exact@, ranges@, versions@, id, at, j as int, 0) ==> exists|i: int|
                        0 <= i < out@.len() && (#[trigger] out@[i]).0 == id && out@[i].1 >= at,
                forall|i: int|
                    0 <= i < out@.len() ==> contributes(exact@, ranges@, versions@, (#[trigger] out@[i]).0, out@[i].1, j as int, 0),
            decreases ranges@.len() - j,
        {
            let mut k: usize = 0;
            while k < versions.len()
                invariant
                    j < ranges@.len(),
                    k <= versions@.len(),
                    distinct_ids(out@),
                    forall|id: u128, at: i128|
                        #[trigger] contributes(exact@, ranges@, versions@, id, at, j as int, k as int) ==> exists|i: int|
                            0 <= i < out@.len() && (#[trigger] out@[i]).0 == id && out@[i].1 >= at,
                    forall|i: int|
                        0 <= i < out@.len() ==> contributes(exact@, ranges@, versions@, (#[trigger] out@[i]).0, out@[i].1, j as int, k as int),
                decreases versions@.len() - k,
            {
                let hits = match &ranges[j].0 {
                    Some(p) => range_is_satisfied(p.as_str(), versions[k].1),
                    None => false,
                };
                let ghost was = out@;
                let ghost mut slot: int = 0;
                if hits {
                    let id = versions[k].0;
                    let at = ranges[j].1;
                    assert(hit(ranges@, versions@, j as int, k as int));
                    match find_entry(&out, id) {
                        Some(p) => {
                            if out[p].1 < at {
                                out.set(p, (id, at));
                            }
                            proof {
                                slot = p as int;
                            }
                        },
                        None => {
                            out.push((id, at));
                            proof {
                                slot = was.len() as int;
                            }
                        },
                    }
                    assert(0 <= slot < out@.len() && out@[slot].0 == id && out@[slot].1 >= at);
                    assert(out@[slot].1 == at || (slot < was.len() && out@[slot] == was[slot]));
                }
                proof {
                    assert forall|x: u128, t: i128|
                        #[trigger] contributes(exact@, ranges@, versions@, x, t, j as int, k + 1) implies exists|i: int|
                        0 <= i < out@.len() && (#[trigger] out@[i]).0 == x && out@[i].1 >= t by {
                        if contributes(exact@, ranges@, versions@, x, t, j as int, k as int) {
                            let i = choose|i: int| 0 <= i < was.len() && (#[trigger] was[i]).0 == x && was[i].1 >= t;
                            assert(out@[i].0 == x && out@[i].1 >= t);
                        } else {
                            assert(hits && versions@[k as int].0 == x && ranges@[j as int].1 == t);
                            assert(out@[slot].0 == x && out@[slot].1 >= t);
                        }
                    }
                    assert forall|i: int| 0 <= i < out@.len() implies contributes(exact@, ranges@, versions@, (#[trigger] out@[i]).0, out@[i].1, j as int, k + 1) by {
                        if i < was.len() && out@[i] == was[i] {
                            assert(contributes(exact@, ranges@, versions@, was[i].0, was[i].1, j as int, k as int));
                        } else {
                            assert(hit(ranges@, versions@, j as int, k as int));
                        }
                    }
                    assert forall|a: int, b: int| 0 <= a < b < out@.len() implies (#[trigger] out@[a]).0 != (#[trigger] out@[b]).0 by {
                        if b == was.len() {
                            assert(out@[a] == was[a]);
                        }
                    }
                }
                k = k + 1;
            }
            proof {
                assert forall|x: u128, t: i128|
                    #[trigger] contributes(exact@, ranges@, versions@, x, t, j + 1, 0) implies contributes(exact@, ranges@, versions@, x, t, j as int, versions@.len() as int) by {}
                assert forall|x: u128, t: i128|
                    contributes(exact@, ranges@, versions@, x, t, j as int, versions@.len() as int) implies #[trigger] contributes(exact@, ranges@, versions@, x, t, j + 1, 0) by {
                    if !(last_exact(exact@, x) == Some(t)) {
                        let (rj, vk) = choose|rj: int, vk: int|
                            #![trigger hit(ranges@, versions@, rj, vk)]
                            ((0 <= rj < j && 0 <= vk < versions@.len()) || (rj == j && 0 <= vk < versions@.len())) && hit(ranges@, versions@, rj, vk) && versions@[vk].0 == x && ranges@[rj].1 == t;
                        assert(hit(ranges@, versions@, rj, vk));
                    }
                }
            }
            j = j + 1;
        }
        out
    }
}

impl Artifact {
    /// When anything a build reads was last registered for this version.
    pub fn newest_change_for_version(
        version: (u128, SemVer),
        exact: &Vec<(Option<u128>, Option<i128>)>,
        ranges: &Vec<(Option<String>, i128)>,
    ) -> (r: Option<i128>)
        ensures
            r matches Some(t) ==> changed_at(exact@, ranges@, seq![version], version.0, t),
            r matches Some(t) ==> forall|at: i128| #[trigger] changed_at(exact@, ranges@, seq![version], version.0, at) ==> t >= at,
            r is None ==> forall|at: i128| !#[trigger] changed_at(exact@, ranges@, seq![version], version.0, at),
    {
        let versions = vec![version];
        assert(versions@ == seq![version]);
        let all = Artifact::newest_change_for_versions(&versions, exact, ranges);
        match find_entry(&all, version.0) {
            Some(p) => {
                let t = all[p].1;
                proof {
                    assert forall|at: i128| #[trigger] changed_at(exact@, ranges@, seq![version], version.0, at) implies t >= at by {
                        let i = choose|i: int| 0 <= i < all@.len() && (#[trigger] all@[i]).0 == version.0 && all@[i].1 >= at;
                        if i != p {
                            if i < p {
                                assert(all@[i].0 != all@[p as int].0);
                            } else {
                                assert(all@[p as int].0 != all@[i].0);
                            }
                        }
                    }
                }
                Some(t)
            },
            None => {
                proof {
                    assert forall|at: i128| !#[trigger] changed_at(exact@, ranges@, seq![version], version.0, at) by {
                        if changed_at(exact@, ranges@, seq![version], version.0, at) {
                            let i = choose|i: int| 0 <= i < all@.len() && (#[trigger] all@[i]).0 == version.0 && all@[i].1 >= at;
                            assert(all@[i].0 != version.0);
                        }
                    }
                }
                None
            },
        }
    }
}

} // verus!
