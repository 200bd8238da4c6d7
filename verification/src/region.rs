//! Address ranges as mathematical values, and what holds of ranges that do
//! not overlap.

use vstd::prelude::*;

verus! {

/// A contiguous range of addresses: `size` bytes beginning at `start`.
pub ghost struct Region {
    pub start: nat,
    pub size: nat,
}

impl Region {
    /// The first address past the range.
    pub open spec fn end(self) -> nat {
        self.start + self.size
    }

    /// The two ranges share no address.
    pub open spec fn disjoint(self, other: Region) -> bool {
        self.end() <= other.start || other.end() <= self.start
    }

    /// Every address of this range is an address of `outer`.
    pub open spec fn within(self, outer: Region) -> bool {
        outer.start <= self.start && self.end() <= outer.end()
    }
}

/// No two ranges at different positions of `s` share an address.
pub open spec fn pairwise_disjoint(s: Seq<Region>) -> bool {
    forall|i: int, j: int| 0 <= i < j < s.len() ==> (#[trigger] s[i]).disjoint(#[trigger] s[j])
}

/// Every range of `s` is non-empty and lies within `outer`.
pub open spec fn all_within(s: Seq<Region>, outer: Region) -> bool {
    forall|i: int| 0 <= i < s.len() ==> (#[trigger] s[i]).size > 0 && s[i].within(outer)
}

/// The number of bytes in all ranges of `s` together.
pub open spec fn total_size(s: Seq<Region>) -> nat
    decreases s.len(),
{
    if s.len() == 0 {
        0
    } else {
        total_size(s.drop_last()) + s.last().size
    }
}

/// The total of a concatenation is the sum of the totals.
pub proof fn lemma_total_size_concat(a: Seq<Region>, b: Seq<Region>)
    ensures
        total_size(a + b) == total_size(a) + total_size(b),
    decreases b.len(),
{
    if b.len() == 0 {
        assert(a + b =~= a);
    } else {
        assert((a + b).drop_last() =~= a + b.drop_last());
        assert((a + b).last() == b.last());
        lemma_total_size_concat(a, b.drop_last());
    }
}

/// Taking one range out lowers the total by that range's size.
pub proof fn lemma_total_size_remove(s: Seq<Region>, k: int)
    requires
        0 <= k < s.len(),
    ensures
        total_size(s) == total_size(s.remove(k)) + s[k].size,
    decreases s.len(),
{
    if k == s.len() - 1 {
        assert(s.remove(k) =~= s.drop_last());
    } else {
        assert(s.remove(k).drop_last() =~= s.drop_last().remove(k));
        assert(s.remove(k).last() == s.last());
        lemma_total_size_remove(s.drop_last(), k);
    }
}

/// Some range of a non-empty sequence ends at least as late as every other.
proof fn lemma_latest_end(s: Seq<Region>) -> (k: int)
    requires
        s.len() > 0,
    ensures
        0 <= k < s.len(),
        forall|i: int| 0 <= i < s.len() ==> (#[trigger] s[i]).end() <= s[k].end(),
    decreases s.len(),
{
    if s.len() == 1 {
        0
    } else {
        let k0 = lemma_latest_end(s.drop_last());
        assert(forall|i: int| 0 <= i < s.len() - 1 ==> s[i] == s.drop_last()[i]);
        if s.last().end() > s[k0].end() {
            s.len() - 1
        } else {
            k0
        }
    }
}

/// Non-empty ranges that lie within one range and do not overlap hold
/// together no more bytes than that range.
pub proof fn lemma_disjoint_ranges_fit(s: Seq<Region>, outer: Region)
    requires
        all_within(s, outer),
        pairwise_disjoint(s),
    ensures
        total_size(s) <= outer.size,
    decreases s.len(),
{
    if s.len() > 0 {
        let k = lemma_latest_end(s);
        let rest = s.remove(k);
        let below = Region { start: outer.start, size: (s[k].start - outer.start) as nat };
        assert forall|i: int| 0 <= i < rest.len() implies (#[trigger] rest[i]).size > 0
            && rest[i].within(below) by {
            let j = if i < k { i } else { i + 1 };
            assert(rest[i] == s[j]);
            assert(s[j].end() <= s[k].end());
            if j < k {
                assert(s[j].disjoint(s[k]));
            } else {
                assert(s[k].disjoint(s[j]));
            }
        }
        assert forall|i: int, j: int| 0 <= i < j < rest.len() implies (#[trigger] rest[i]).disjoint(
            #[trigger] rest[j],
        ) by {
            let i0 = if i < k { i } else { i + 1 };
            let j0 = if j < k { j } else { j + 1 };
            assert(rest[i] == s[i0] && rest[j] == s[j0]);
            assert(s[i0].disjoint(s[j0]));
        }
        lemma_disjoint_ranges_fit(rest, below);
        lemma_total_size_remove(s, k);
    }
}

} // verus!
