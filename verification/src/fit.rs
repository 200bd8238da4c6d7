//! What a request is given and where it fits: the adjustment of a request's
//! size and alignment, the test that decides whether a block can be cut from
//! a free region, and the choice of the first region that passes it.

use vstd::prelude::*;
use vstd::arithmetic::power2::is_pow2;
use crate::align::{align_up_spec, lemma_align_up_bounds, lemma_align_up_least};
use crate::linked_list::{NODE_ALIGN, NODE_SIZE};
use crate::region::Region;

verus! {

/// The range can carry the record of a free region: it starts at an address
/// aligned for the record, is large enough to hold it, and ends within the
/// address space.
pub open spec fn hosts_node(r: Region) -> bool {
    r.start % (NODE_ALIGN as nat) == 0 && r.size >= NODE_SIZE && r.end() <= usize::MAX
}

/// The alignment a block is given: the one asked for, raised to that of a
/// region record.
pub open spec fn adjusted_align(align: nat) -> nat {
    if align >= NODE_ALIGN {
        align
    } else {
        NODE_ALIGN as nat
    }
}

/// The size a block is given: the one asked for, padded to a multiple of the
/// adjusted alignment and then raised to the size of a region record.
pub open spec fn adjusted_size(size: nat, align: nat) -> nat {
    let padded = align_up_spec(size, adjusted_align(align));
    if padded >= NODE_SIZE {
        padded
    } else {
        NODE_SIZE as nat
    }
}

/// A request's size can be adjusted: padded to the adjusted alignment it
/// still fits in a machine word.
pub open spec fn adjustable(size: nat, align: nat) -> bool {
    align_up_spec(size, adjusted_align(align)) <= usize::MAX
}

/// The address at which a block aligned to `align` starts inside `region`.
pub open spec fn block_start(region: Region, align: nat) -> nat {
    align_up_spec(region.start, align)
}

/// What `region` keeps behind a block of `size` bytes aligned to `align`.
pub open spec fn leftover(region: Region, size: nat, align: nat) -> Region {
    Region {
        start: block_start(region, align) + size,
        size: (region.end() - (block_start(region, align) + size)) as nat,
    }
}

/// A block of `size` bytes aligned to `align` can be cut from `region`: it
/// ends within the region, and what the region keeps behind it is nothing or
/// enough to carry a region record.
pub open spec fn fits(region: Region, size: nat, align: nat) -> bool {
    let end = block_start(region, align) + size;
    end <= region.end() && (end == region.end() || region.end() - end >= NODE_SIZE)
}

/// Position `i` holds the first region of `free` in which the block fits.
pub open spec fn is_first_fit(free: Seq<Region>, i: int, size: nat, align: nat) -> bool {
    &&& 0 <= i < free.len()
    &&& fits(free[i], size, align)
    &&& forall|j: int| 0 <= j < i ==> !fits(#[trigger] free[j], size, align)
}

/// The position of the first region of `free` in which the block fits, if
/// there is one.
pub open spec fn first_fit(free: Seq<Region>, size: nat, align: nat) -> Option<int> {
    if exists|i: int| is_first_fit(free, i, size, align) {
        Some(choose|i: int| is_first_fit(free, i, size, align))
    } else {
        None
    }
}

/// The address that a request receives from the list `free`, if any.
pub open spec fn alloc_result(free: Seq<Region>, size: nat, align: nat) -> Option<nat> {
    match first_fit(free, size, align) {
        Some(i) => Some(block_start(free[i], align)),
        None => None,
    }
}

/// The list that a request leaves behind: without the region that served
/// it, and with what that region kept, if anything, in first place.
pub open spec fn free_after_alloc(free: Seq<Region>, size: nat, align: nat) -> Seq<Region> {
    match first_fit(free, size, align) {
        Some(i) => {
            let rest = free.remove(i);
            let left = leftover(free[i], size, align);
            if left.size > 0 {
                seq![left] + rest
            } else {
                rest
            }
        },
        None => free,
    }
}

/// A first fit, once found, is the one that `first_fit` names.
pub proof fn lemma_first_fit_unique(free: Seq<Region>, i: int, size: nat, align: nat)
    requires
        is_first_fit(free, i, size, align),
    ensures
        first_fit(free, size, align) == Some(i),
{
    let c = choose|c: int| is_first_fit(free, c, size, align);
    if c < i {
        assert(!fits(free[c], size, align));
    } else if i < c {
        assert(!fits(free[i], size, align));
    }
}

/// Where no region fits, `first_fit` names none.
pub proof fn lemma_first_fit_none(free: Seq<Region>, size: nat, align: nat)
    requires
        forall|j: int| 0 <= j < free.len() ==> !fits(#[trigger] free[j], size, align),
    ensures
        first_fit(free, size, align) is None,
{
}

/// Where some region fits, `first_fit` names one, and none that comes later.
pub proof fn lemma_fit_has_first(free: Seq<Region>, j: int, size: nat, align: nat)
    requires
        0 <= j < free.len(),
        fits(free[j], size, align),
    ensures
        first_fit(free, size, align) matches Some(i) && i <= j,
    decreases j,
{
    if forall|k: int| 0 <= k < j ==> !fits(#[trigger] free[k], size, align) {
        assert(is_first_fit(free, j, size, align));
        lemma_first_fit_unique(free, j, size, align);
    } else {
        let k = choose|k: int| 0 <= k < j && fits(#[trigger] free[k], size, align);
        lemma_fit_has_first(free, k, size, align);
    }
}

/// A multiple of a multiple of `a` is a multiple of `a`.
pub proof fn lemma_multiple_of_multiple(x: nat, m: nat, a: nat)
    requires
        a > 0,
        m > 0,
        x % m == 0,
        m % a == 0,
    ensures
        x % a == 0,
{
    let q = x / m;
    let p = m / a;
    assert(x == m * q) by (nonlinear_arith)
        requires
            m > 0,
            x % m == 0,
            q == x / m,
    ;
    assert(m == a * p) by (nonlinear_arith)
        requires
            a > 0,
            m % a == 0,
            p == m / a,
    ;
    assert(x == a * (p * q)) by (nonlinear_arith)
        requires
            x == m * q,
            m == a * p,
    ;
    assert((a * (p * q)) % a == 0) by (nonlinear_arith)
        requires
            a > 0,
    ;
}

/// The adjusted alignment of a power of two is a multiple of it and of the
/// alignment of a region record.
pub proof fn lemma_adjusted_align(align: nat)
    requires
        is_pow2(align as int),
    ensures
        align > 0,
        adjusted_align(align) % align == 0,
        adjusted_align(align) % (NODE_ALIGN as nat) == 0,
{
    reveal_with_fuel(is_pow2, 5);
    if align < 8 {
        assert(!is_pow2(3)) by {
            reveal_with_fuel(is_pow2, 3);
        }
        if align == 1 {
            assert(8nat % 1nat == 0);
        } else if align == 2 {
            assert(8nat % 2nat == 0);
        } else {
            assert(align == 4);
            assert(8nat % 4nat == 0);
        }
    } else {
        assert(align % align == 0) by (nonlinear_arith)
            requires
                align > 0,
        ;
        assert(align % 2 == 0);
        assert((align / 2) % 2 == 0);
        assert((align / 4) % 2 == 0);
    }
}

/// The adjusted size is at least the size asked for and the size of a region
/// record, and is a multiple of the alignment of a region record.
pub proof fn lemma_adjusted_size(size: nat, align: nat)
    requires
        is_pow2(align as int),
    ensures
        adjusted_size(size, align) >= size,
        adjusted_size(size, align) >= NODE_SIZE,
        adjusted_size(size, align) % (NODE_ALIGN as nat) == 0,
{
    lemma_adjusted_align(align);
    let a = adjusted_align(align);
    lemma_align_up_bounds(size, a);
    lemma_multiple_of_multiple(align_up_spec(size, a), a, NODE_ALIGN as nat);
}

/// For a request of at least one byte the adjusted size is a multiple of the
/// adjusted alignment, and it is what raising the size to that of a region
/// record first and padding it afterwards gives as well.
pub proof fn lemma_adjusted_size_order(size: nat, align: nat)
    requires
        size > 0,
        is_pow2(align as int),
    ensures
        adjusted_size(size, align) % adjusted_align(align) == 0,
        adjusted_size(size, align) == align_up_spec(
            if size >= NODE_SIZE {
                size
            } else {
                NODE_SIZE as nat
            },
            adjusted_align(align),
        ),
{
    lemma_adjusted_align(align);
    let a = adjusted_align(align);
    let padded = align_up_spec(size, a);
    lemma_align_up_bounds(size, a);
    lemma_align_up_bounds(NODE_SIZE as nat, a);
    if padded >= NODE_SIZE {
        if size < NODE_SIZE {
            let raised = align_up_spec(NODE_SIZE as nat, a);
            lemma_align_up_least(NODE_SIZE as nat, a, padded);
            lemma_align_up_least(size, a, raised);
        }
    } else {
        assert(padded >= a) by (nonlinear_arith)
            requires
                a > 0,
                padded > 0,
                padded % a == 0,
        ;
        assert(a == 8);
        assert(padded == 8);
        assert(16nat % 8nat == 0);
    }
}

} // verus!
