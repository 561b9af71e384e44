//! The administrative surface's boundary: the grade each handler declares,
//! and when a session's last-seen is due to be written.

use vstd::prelude::*;
use crate::assoc::{assoc, distinct_keys, has_key, lemma_assoc_at, lemma_assoc_len, lemma_assoc_push, lemma_assoc_update};
use crate::safety::{SafetyMode, parse_spec};
use crate::text::str_eq;

verus! {

/// The methods an OpenAPI path item can declare an operation for.
#[derive(Debug, Clone, Copy, PartialEq, Eq, Structural, Hash)]
pub enum HttpMethod {
    Get,
    Put,
    Post,
    Delete,
    Options,
    Head,
    Patch,
    Trace,
}

/// The grade a declaration names: the rung it spells, or danger where it
/// spells none, since doubt resolves upwards on an enforcement boundary.
pub open spec fn grade_of(declared: Seq<char>) -> SafetyMode {
    match parse_spec(declared) {
        Some(m) => m,
        None => SafetyMode::Danger,
    }
}

/// A declaration that names no rung requires the most restrictive one.
pub proof fn law_an_unreadable_grade_requires_danger(declared: Seq<char>)
    ensures
        parse_spec(declared) is None ==> grade_of(declared) == SafetyMode::Danger,
        parse_spec(declared) matches Some(m) ==> grade_of(declared) == m,
{
}

/// The entries of a grade list, keyed by method and path text.
pub open spec fn grade_entries(s: Seq<(HttpMethod, String, SafetyMode)>) -> Seq<((HttpMethod, Seq<char>), SafetyMode)> {
    s.map_values(|e: (HttpMethod, String, SafetyMode)| ((e.0, e.1@), e.2))
}

/// The grades that a list of operations declares, in order, a later
/// declaration for one method and path replacing an earlier.
pub open spec fn declared_grades(ops: Seq<(String, HttpMethod, Option<String>)>) -> Map<(HttpMethod, Seq<char>), SafetyMode>
    decreases ops.len(),
{
    if ops.len() == 0 {
        Map::empty()
    } else {
        let before = declared_grades(ops.drop_last());
        match ops.last().2 {
            Some(t) => before.insert((ops.last().1, ops.last().0@), grade_of(t@)),
            None => before,
        }
    }
}

/// The grade each handler on the administrative surface requires, keyed by
/// the method and routed path the request matched.
#[derive(Debug)]
pub struct GradeMap {
    grades: Vec<(HttpMethod, String, SafetyMode)>,
}

impl View for GradeMap {
    type V = Map<(HttpMethod, Seq<char>), SafetyMode>;

    closed spec fn view(&self) -> Map<(HttpMethod, Seq<char>), SafetyMode> {
        assoc(grade_entries(self.grades@))
    }
}

impl GradeMap {
    /// No method and path is graded twice.
    pub closed spec fn wf(&self) -> bool {
        distinct_keys(grade_entries(self.grades@))
    }

    /// A map grading nothing.
    pub fn new() -> (m: GradeMap)
        ensures
            m.wf(),
            m@ == Map::<(HttpMethod, Seq<char>), SafetyMode>::empty(),
    {
        let m = GradeMap { grades: Vec::new() };
        assert(m@ =~= Map::<(HttpMethod, Seq<char>), SafetyMode>::empty());
        m
    }

    /// Where the handler for this method and path stands, if it is graded.
    fn slot(&self, method: HttpMethod, path: &str) -> (r: Option<usize>)
        requires
            self.wf(),
        ensures
            r matches Some(i) ==> i < self.grades@.len() && grade_entries(self.grades@)[i as int].0 == (method, path@),
            r is None ==> !has_key(grade_entries(self.grades@), (method, path@)),
    {
        let mut i: usize = 0;
        while i < self.grades.len()
            invariant
                i <= self.grades@.len(),
                forall|m: int| 0 <= m < i ==> (#[trigger] grade_entries(self.grades@)[m]).0 != (method, path@),
            decreases self.grades@.len() - i,
        {
            if self.grades[i].0 == method && str_eq(self.grades[i].1.as_str(), path) {
                return Some(i);
            }
            i = i + 1;
        }
        proof {
            if has_key(grade_entries(self.grades@), (method, path@)) {
                let m = choose|m: int| 0 <= m < grade_entries(self.grades@).len() && (#[trigger] grade_entries(self.grades@)[m]).0 == (method, path@);
                assert(grade_entries(self.grades@)[m].0 != (method, path@));
            }
        }
        None
    }

    /// Grade the handler for this method and path.
    pub fn grade(&mut self, method: HttpMethod, path: &str, mode: SafetyMode)
        requires
            old(self).wf(),
        ensures
            final(self).wf(),
            final(self)@ == old(self)@.insert((method, path@), mode),
    {
        let ghost before = grade_entries(self.grades@);
        match self.slot(method, path) {
            Some(i) => {
                let entry = (method, String::from_str(path), mode);
                self.grades.set(i, entry);
                proof {
                    lemma_assoc_update(before, i as int, mode);
                    assert(grade_entries(self.grades@) =~= before.update(i as int, (before[i as int].0, mode)));
                }
            },
            None => {
                self.grades.push((method, String::from_str(path), mode));
                proof {
                    lemma_assoc_push(before, (method, path@), mode);
                    assert(grade_entries(self.grades@) =~= before.push(((method, path@), mode)));
                }
            },
        }
    }

    /// Read every operation's grade: each operation is a path, a method and
    /// the grade its handler declares, if it declares one. An operation
    /// declaring none is absent from the map rather than defaulting, and a
    /// declaration that names no rung requires danger.
    pub fn from_openapi(operations: &Vec<(String, HttpMethod, Option<String>)>) -> (m: GradeMap)
        ensures
            m.wf(),
            m@ == declared_grades(operations@),
    {
        let mut m = GradeMap::new();
        let mut i: usize = 0;
        while i < operations.len()
            invariant
                i <= operations@.len(),
                m.wf(),
                m@ == declared_grades(operations@.take(i as int)),
            decreases operations@.len() - i,
        {
            proof {
                assert(operations@.take(i + 1).drop_last() =~= operations@.take(i as int));
            }
            let op = &operations[i];
            if let Some(declared) = &op.2 {
                let mode = match SafetyMode::parse(declared.as_str()) {
                    Ok(mode) => mode,
                    Err(_) => SafetyMode::Danger,
                };
                m.grade(op.1, op.0.as_str(), mode);
            }
            i = i + 1;
        }
        proof {
            assert(operations@.take(i as int) =~= operations@);
        }
        m
    }

    /// The grade a request matching this method and path requires, or `None`
    /// where the handler declares none.
    pub fn required(&self, method: HttpMethod, path: &str) -> (r: Option<SafetyMode>)
        requires
            self.wf(),
        ensures
            r == (if self@.contains_key((method, path@)) {
                Some(self@[(method, path@)])
            } else {
                None
            }),
    {
        match self.slot(method, path) {
            Some(i) => {
                proof {
                    lemma_assoc_at(grade_entries(self.grades@), i as int);
                }
                Some(self.grades[i].2)
            },
            None => None,
        }
    }

    /// Whether any method on this path is graded.
    pub fn knows_path(&self, path: &str) -> (r: bool)
        requires
            self.wf(),
        ensures
            r == exists|m: HttpMethod| #[trigger] self@.contains_key((m, path@)),
    {
        let mut i: usize = 0;
        while i < self.grades.len()
            invariant
                i <= self.grades@.len(),
                self.wf(),
                forall|k: int| 0 <= k < i ==> (#[trigger] self.grades@[k]).1@ != path@,
            decreases self.grades@.len() - i,
        {
            if str_eq(self.grades[i].1.as_str(), path) {
                proof {
                    lemma_assoc_at(grade_entries(self.grades@), i as int);
                    assert(self@.contains_key((self.grades@[i as int].0, path@)));
                }
                return true;
            }
            i = i + 1;
        }
        proof {
            assert forall|m: HttpMethod| !#[trigger] self@.contains_key((m, path@)) by {
                if self@.contains_key((m, path@)) {
                    let k = choose|k: int| 0 <= k < grade_entries(self.grades@).len() && (#[trigger] grade_entries(self.grades@)[k]).0 == (m, path@);
                    assert(self.grades@[k].1@ == path@);
                }
            }
        }
        false
    }

    /// How many handlers carry a grade.
    pub fn len(&self) -> (n: usize)
        requires
            self.wf(),
        ensures
            n == self@.len(),
    {
        proof {
            lemma_assoc_len(grade_entries(self.grades@));
        }
        self.grades.len()
    }

    /// Whether no handler carries a grade.
    pub fn is_empty(&self) -> (r: bool)
        requires
            self.wf(),
        ensures
            r == (self@.len() == 0),
    {
        self.len() == 0
    }
}

/// How long a session's last-seen may go unwritten, in nanoseconds: a
/// quarter of an hour.
pub const TOUCH_INTERVAL: u128 = 900_000_000_000;

/// How many sessions the log tracks last-seen writes for before it starts
/// over.
pub const MAX_TRACKED_SESSIONS: usize = 10_000;

/// The time from `at` to `now` on a monotonic clock, none where `at` is the
/// later.
pub open spec fn elapsed(now: u128, at: u128) -> int {
    if now >= at {
        now - at
    } else {
        0
    }
}

/// Whether a write made at `at` still stands in the way of another at `now`.
pub open spec fn fresh(now: u128, at: u128) -> bool {
    elapsed(now, at) < TOUCH_INTERVAL
}

/// The writes that still stand in the way of another at `now`.
pub open spec fn pruned(m: Map<(u128, Seq<char>), u128>, now: u128) -> Map<(u128, Seq<char>), u128> {
    Map::new(|k: (u128, Seq<char>)| m.contains_key(k) && fresh(now, m[k]), |k: (u128, Seq<char>)| m[k])
}

/// The writes once one for `key` landed at `now`: the log starts over first
/// where it already tracks the most it may.
pub open spec fn recorded(m: Map<(u128, Seq<char>), u128>, key: (u128, Seq<char>), now: u128) -> Map<(u128, Seq<char>), u128> {
    (if m.len() >= MAX_TRACKED_SESSIONS {
        Map::<(u128, Seq<char>), u128>::empty()
    } else {
        m
    }).insert(key, now)
}

/// A write that landed holds off the next for the same session and login
/// until the interval has passed, and no longer.
pub proof fn law_a_write_holds_off_the_next(m: Map<(u128, Seq<char>), u128>, key: (u128, Seq<char>), at: u128, later: u128)
    requires
        at <= later,
    ensures
        pruned(recorded(m, key, at), later).contains_key(key) <==> later - at < TOUCH_INTERVAL,
{
}

/// The entries of a touch list, keyed by session and login.
pub open spec fn touch_entries(s: Seq<(u128, String, u128)>) -> Seq<((u128, Seq<char>), u128)> {
    s.map_values(|e: (u128, String, u128)| ((e.0, e.1@), e.2))
}

/// When each session's last-seen was last written by this process, keyed by
/// the session's identifier and the login it was written for. Times are
/// nanoseconds on a monotonic clock.
#[derive(Debug)]
pub struct TouchLog {
    written: Vec<(u128, String, u128)>,
}

impl View for TouchLog {
    type V = Map<(u128, Seq<char>), u128>;

    closed spec fn view(&self) -> Map<(u128, Seq<char>), u128> {
        assoc(touch_entries(self.written@))
    }
}

impl TouchLog {
    /// No session and login is tracked twice.
    pub closed spec fn wf(&self) -> bool {
        distinct_keys(touch_entries(self.written@))
    }

    /// A log of no writes.
    pub fn new() -> (t: TouchLog)
        ensures
            t.wf(),
            t@ == Map::<(u128, Seq<char>), u128>::empty(),
    {
        let t = TouchLog { written: Vec::new() };
        assert(t@ =~= Map::<(u128, Seq<char>), u128>::empty());
        t
    }

    /// Whether this session's last-seen is due to be written at `now`. The
    /// entries no longer standing in the way of a write are dropped first.
    pub fn due(&mut self, id: u128, login: &str, now: u128) -> (r: bool)
        requires
            old(self).wf(),
        ensures
            final(self).wf(),
            final(self)@ == pruned(old(self)@, now),
            r == !final(self)@.contains_key((id, login@)),
    {
        let mut rest: Vec<(u128, String, u128)> = Vec::new();
        std::mem::swap(&mut rest, &mut self.written);
        let ghost orig = touch_entries(rest@);
        let ghost raw = rest@;
        assert(raw.len() == rest.len());
        let mut kept: Vec<(u128, String, u128)> = Vec::new();
        let mut k: usize = 0;
        while rest.len() > 0
            invariant
                k <= raw.len(),
                raw.len() <= usize::MAX,
                orig == touch_entries(raw),
                distinct_keys(orig),
                rest@ == raw.skip(k as int),
                rest@.len() == raw.len() - k,
                distinct_keys(touch_entries(kept@)),
                forall|x: (u128, Seq<char>)|
                    #[trigger] has_key(touch_entries(kept@), x) <==> exists|j: int|
                        0 <= j < k && (#[trigger] orig[j]).0 == x && fresh(now, orig[j].1),
                forall|i: int|
                    0 <= i < kept@.len() ==> exists|j: int|
                        0 <= j < k && #[trigger] orig[j] == #[trigger] touch_entries(kept@)[i],
            decreases rest@.len(),
        {
            let e = rest.remove(0);
            proof {
                assert(e == raw[k as int]);
                assert(rest@ =~= raw.skip(k + 1));
                assert(orig[k as int] == ((e.0, e.1@), e.2));
            }
            let keep = if now >= e.2 {
                now - e.2 < TOUCH_INTERVAL
            } else {
                true
            };
            let ghost was = touch_entries(kept@);
            if keep {
                kept.push(e);
                proof {
                    assert(touch_entries(kept@) =~= was.push(orig[k as int]));
                    assert(!has_key(was, orig[k as int].0)) by {
                        if has_key(was, orig[k as int].0) {
                            let j = choose|j: int| 0 <= j < k && (#[trigger] orig[j]).0 == orig[k as int].0 && fresh(now, orig[j].1);
                            assert(orig[j].0 != orig[k as int].0);
                        }
                    }
                    lemma_assoc_push(was, orig[k as int].0, orig[k as int].1);
                    assert forall|x: (u128, Seq<char>)|
                        #[trigger] has_key(touch_entries(kept@), x) <==> exists|j: int|
                            0 <= j < k + 1 && (#[trigger] orig[j]).0 == x && fresh(now, orig[j].1) by {
                        if has_key(touch_entries(kept@), x) {
                            let i = choose|i: int| 0 <= i < touch_entries(kept@).len() && (#[trigger] touch_entries(kept@)[i]).0 == x;
                            if i < was.len() {
                                assert(touch_entries(kept@)[i] == was[i]);
                                assert(has_key(was, x));
                            } else {
                                assert(orig[k as int].0 == x);
                            }
                        }
                        if exists|j: int| 0 <= j < k + 1 && (#[trigger] orig[j]).0 == x && fresh(now, orig[j].1) {
                            let j = choose|j: int| 0 <= j < k + 1 && (#[trigger] orig[j]).0 == x && fresh(now, orig[j].1);
                            if j < k {
                                assert(has_key(was, x));
                                let i = choose|i: int| 0 <= i < was.len() && (#[trigger] was[i]).0 == x;
                                assert(touch_entries(kept@)[i] == was[i]);
                            } else {
                                assert(touch_entries(kept@)[was.len() as int].0 == x);
                            }
                        }
                    }
                    assert forall|i: int| 0 <= i < kept@.len() implies exists|j: int|
                        0 <= j < k + 1 && #[trigger] orig[j] == #[trigger] touch_entries(kept@)[i] by {
                        if i < was.len() {
                            assert(touch_entries(kept@)[i] == was[i]);
                            let j = choose|j: int| 0 <= j < k && #[trigger] orig[j] == was[i];
                            assert(orig[j] == touch_entries(kept@)[i]);
                        } else {
                            assert(orig[k as int] == touch_entries(kept@)[i]);
                        }
                    }
                }
            } else {
                proof {
                    assert(!fresh(now, orig[k as int].1));
                    assert forall|x: (u128, Seq<char>)|
                        #[trigger] has_key(touch_entries(kept@), x) <==> exists|j: int|
                            0 <= j < k + 1 && (#[trigger] orig[j]).0 == x && fresh(now, orig[j].1) by {
                        if exists|j: int| 0 <= j < k + 1 && (#[trigger] orig[j]).0 == x && fresh(now, orig[j].1) {
                            let j = choose|j: int| 0 <= j < k + 1 && (#[trigger] orig[j]).0 == x && fresh(now, orig[j].1);
                            assert(j < k);
                        }
                    }
                }
            }
            k = k + 1;
        }
        self.written = kept;
        proof {
            let fin = touch_entries(self.written@);
            let target = pruned(assoc(orig), now);
            assert forall|x: (u128, Seq<char>)| #[trigger] assoc(fin).contains_key(x) == target.contains_key(x) by {
                if assoc(fin).contains_key(x) {
                    let j = choose|j: int| 0 <= j < k && (#[trigger] orig[j]).0 == x && fresh(now, orig[j].1);
                    lemma_assoc_at(orig, j);
                }
                if target.contains_key(x) {
                    let j = choose|j: int| 0 <= j < orig.len() && (#[trigger] orig[j]).0 == x;
                    lemma_assoc_at(orig, j);
                }
            }
            assert forall|x: (u128, Seq<char>)| #[trigger] assoc(fin).contains_key(x) implies assoc(fin)[x] == target[x] by {
                let i = choose|i: int| 0 <= i < fin.len() && (#[trigger] fin[i]).0 == x;
                lemma_assoc_at(fin, i);
                let j = choose|j: int| 0 <= j < k && #[trigger] orig[j] == fin[i];
                lemma_assoc_at(orig, j);
            }
            assert(assoc(fin) =~= target);
        }
        let r = self.absent(id, login);
        r
    }

    /// Whether no write is recorded for this session and login.
    fn absent(&self, id: u128, login: &str) -> (r: bool)
        requires
            self.wf(),
        ensures
            r == !self@.contains_key((id, login@)),
    {
        let mut i: usize = 0;
        while i < self.written.len()
            invariant
                i <= self.written@.len(),
                forall|m: int| 0 <= m < i ==> (#[trigger] touch_entries(self.written@)[m]).0 != (id, login@),
            decreases self.written@.len() - i,
        {
            if self.written[i].0 == id && str_eq(self.written[i].1.as_str(), login) {
                assert(touch_entries(self.written@)[i as int].0 == (id, login@));
                return false;
            }
            i = i + 1;
        }
        proof {
            if self@.contains_key((id, login@)) {
                let m = choose|m: int| 0 <= m < touch_entries(self.written@).len() && (#[trigger] touch_entries(self.written@)[m]).0 == (id, login@);
                assert(touch_entries(self.written@)[m].0 != (id, login@));
            }
        }
        true
    }

    /// Record a write that landed at `now`. However many sessions are live,
    /// the log starts over once it tracks the most it may.
    pub fn wrote(&mut self, id: u128, login: &str, now: u128)
        requires
            old(self).wf(),
        ensures
            final(self).wf(),
            final(self)@ == recorded(old(self)@, (id, login@), now),
    {
        proof {
            lemma_assoc_len(touch_entries(self.written@));
        }
        if self.written.len() >= MAX_TRACKED_SESSIONS {
            self.written = Vec::new();
            assert(self@ =~= Map::<(u128, Seq<char>), u128>::empty());
        }
        let ghost before = touch_entries(self.written@);
        let mut slot: Option<usize> = None;
        let mut i: usize = 0;
        while i < self.written.len()
            invariant
                i <= self.written@.len(),
                before == touch_entries(self.written@),
                slot matches Some(p) ==> p < self.written@.len() && before[p as int].0 == (id, login@),
                slot is None ==> forall|m: int| 0 <= m < i ==> (#[trigger] before[m]).0 != (id, login@),
            decreases self.written@.len() - i,
        {
            if slot.is_none() && self.written[i].0 == id && str_eq(self.written[i].1.as_str(), login) {
                slot = Some(i);
            }
            i = i + 1;
        }
        match slot {
            Some(p) => {
                self.written.set(p, (id, String::from_str(login), now));
                proof {
                    lemma_assoc_update(before, p as int, now);
                    assert(touch_entries(self.written@) =~= before.update(p as int, (before[p as int].0, now)));
                }
            },
            None => {
                self.written.push((id, String::from_str(login), now));
                proof {
                    assert(!has_key(before, (id, login@))) by {
                        if has_key(before, (id, login@)) {
                            let m = choose|m: int| 0 <= m < before.len() && (#[trigger] before[m]).0 == (id, login@);
                            assert(before[m].0 != (id, login@));
                        }
                    }
                    lemma_assoc_push(before, (id, login@), now);
                    assert(touch_entries(self.written@) =~= before.push(((id, login@), now)));
                }
            },
        }
    }
}

} // verus!
