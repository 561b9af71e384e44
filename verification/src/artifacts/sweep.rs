//! Which stored bytes no artifact reaches any longer.

use vstd::prelude::*;
use crate::session::in_range;

verus! {

/// How old stored bytes must be before the sweep considers them, in
/// nanoseconds: a day, since a registration stores its bytes before the row
/// that names them.
pub const GRACE: i128 = 86_400_000_000_000;

/// Whether stored bytes are swept: no registered artifact names them, and
/// they were stored no later than the grace before `now`.
pub open spec fn swept(held: Seq<u128>, object: (u128, i128), now: int) -> bool {
    !held.contains(object.0) && object.1 <= now - GRACE
}

/// The stored objects, in order, that are swept.
pub open spec fn sweepable_spec(stored: Seq<(u128, i128)>, held: Seq<u128>, now: int) -> Seq<u128>
    decreases stored.len(),
{
    if stored.len() == 0 {
        seq![]
    } else {
        let before = sweepable_spec(stored.drop_last(), held, now);
        if swept(held, stored.last(), now) {
            before.push(stored.last().0)
        } else {
            before
        }
    }
}

/// Whether the identifier is among these.
fn names(held: &Vec<u128>, id: u128) -> (r: bool)
    ensures
        r == held@.contains(id),
{
    let mut i: usize = 0;
    while i < held.len()
        invariant
            i <= held@.len(),
            forall|m: int| 0 <= m < i ==> held@[m] != id,
        decreases held@.len() - i,
    {
        if held[i] == id {
            assert(held@[i as int] == id);
            return true;
        }
        i = i + 1;
    }
    false
}

/// The stored objects a pass deletes: those no registered artifact reaches,
/// stored at least a day before `now`. `stored` pairs each object with when
/// it was stored; `held` is read after it, so an artifact registered while the
/// listing ran is spared.
pub fn sweepable(stored: &Vec<(u128, i128)>, held: &Vec<u128>, now: i128) -> (r: Vec<u128>)
    requires
        in_range(now as int),
        in_range(now - GRACE),
    ensures
        r@ == sweepable_spec(stored@, held@, now as int),
{
    let cutoff = now - GRACE;
    let mut out: Vec<u128> = Vec::new();
    let mut i: usize = 0;
    while i < stored.len()
        invariant
            i <= stored@.len(),
            cutoff == now - GRACE,
            out@ == sweepable_spec(stored@.take(i as int), held@, now as int),
        decreases stored@.len() - i,
    {
        proof {
            assert(stored@.take(i + 1).drop_last() =~= stored@.take(i as int));
            assert(stored@.take(i + 1).last() == stored@[i as int]);
        }
        let (id, at) = stored[i];
        if !names(held, id) && at <= cutoff {
            out.push(id);
        }
        i = i + 1;
    }
    proof {
        assert(stored@.take(i as int) =~= stored@);
    }
    out
}

} // verus!
