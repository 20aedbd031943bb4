//! Time zone names of zoneinfo paths.
use vstd::prelude::*;

use crate::classify::{join_segments, join_with, path_segments, segments};
use crate::text::views;

verus! {

/// A segment at which the zone name stops: `zoneinfo`, or a step up.
pub open spec fn is_zone_stop(seg: Seq<char>) -> bool {
    seg == "zoneinfo"@ || seg == ".."@
}

/// Where the zone name starts: after the last stop segment, or at the start.
pub open spec fn zone_start(segs: Seq<Seq<char>>) -> int
    decreases segs.len(),
{
    if segs.len() == 0 {
        0
    } else if is_zone_stop(segs.last()) {
        segs.len() as int
    } else {
        zone_start(segs.drop_last())
    }
}

/// The time zone named by a zoneinfo path: its segments after the last
/// `zoneinfo` or `..` segment, joined with `/`.
pub open spec fn timezone_of(path: Seq<char>) -> Seq<char> {
    let segs = segments(path);
    join_with(segs.subrange(zone_start(segs), segs.len() as int), '/')
}

proof fn lemma_zone_start_skips(s: Seq<Seq<char>>, i: int, k: int)
    requires
        0 <= i <= k <= s.len(),
        forall|j: int| i <= j < s.len() ==> !is_zone_stop(#[trigger] s[j]),
    ensures
        zone_start(s.subrange(0, k)) == zone_start(s.subrange(0, i)),
    decreases k - i,
{
    if i < k {
        assert(s.subrange(0, k).drop_last() =~= s.subrange(0, k - 1));
        assert(s.subrange(0, k).last() == s[k - 1]);
        lemma_zone_start_skips(s, i, k - 1);
    }
}

/// Get timezone from a zoneinfo path
pub fn timezone_from_path(path: &str) -> (r: String)
    ensures
        r@ == timezone_of(path@),
{
    let segs = path_segments(path);
    let zoneinfo = String::from_str("zoneinfo");
    let up = String::from_str("..");
    let n = segs.len();
    let mut i: usize = n;
    let mut stopped = false;
    while i > 0 && !stopped
        invariant
            i <= n == segs@.len(),
            zoneinfo@ == "zoneinfo"@,
            up@ == ".."@,
            stopped ==> i > 0 && is_zone_stop(views(segs@)[i - 1]),
            forall|j: int| i <= j < n ==> !is_zone_stop(#[trigger] views(segs@)[j]),
        decreases 2 * i + (if stopped { 0int } else { 1int }),
    {
        if segs[i - 1] == zoneinfo || segs[i - 1] == up {
            stopped = true;
        } else {
            i = i - 1;
        }
    }
    let ghost s = views(segs@);
    proof {
        lemma_zone_start_skips(s, i as int, n as int);
        assert(s.subrange(0, n as int) =~= s);
        if i > 0 {
            assert(s.subrange(0, i as int).last() == s[i - 1]);
            assert(is_zone_stop(s[i - 1]));
        } else {
            assert(s.subrange(0, 0) =~= Seq::<Seq<char>>::empty());
        }
        reveal_strlit("/");
    }
    join_segments(&segs, i, n, "/")
}

} // verus!
