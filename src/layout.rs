//! How the screen's rows are shared among the watched roots.
use vstd::prelude::*;

verus! {

/// The rows given to watched root `i` of `count`: an even share, and the
/// first root also gets what is left over.
pub open spec fn share_of(total: u32, count: u32, i: int) -> int {
    (total / count) as int + if i == 0 {
        (total % count) as int
    } else {
        0
    }
}

/// Divides `total_space` rows among `group_count` watched roots: each gets
/// an even share, the first also the remainder.
pub fn group_shares(total_space: u32, group_count: u32) -> (r: Vec<u32>)
    requires
        group_count > 0,
    ensures
        r@.len() == group_count,
        forall|i: int| 0 <= i < r@.len() ==> r@[i] == share_of(total_space, group_count, i),
{
    let per = total_space / group_count;
    let extra = total_space % group_count;
    assert(per + extra <= total_space) by (nonlinear_arith)
        requires
            per == total_space / group_count,
            extra == total_space % group_count,
            group_count > 0,
    {
        assert(per * group_count + extra == total_space);
        assert(per <= per * group_count);
    }
    let mut shares: Vec<u32> = Vec::new();
    let mut i: u32 = 0;
    while i < group_count
        invariant
            0 <= i <= group_count,
            per == total_space / group_count,
            extra == total_space % group_count,
            per + extra <= total_space,
            shares@.len() == i,
            forall|k: int| 0 <= k < i ==> shares@[k] == share_of(total_space, group_count, k),
        decreases group_count - i,
    {
        let share = if i == 0 {
            per + extra
        } else {
            per
        };
        shares.push(share);
        i = i + 1;
    }
    shares
}

} // verus!
