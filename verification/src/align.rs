//! Rounding addresses up to an alignment.

use vstd::prelude::*;

verus! {

/// The smallest multiple of `align` that is not below `addr`.
pub open spec fn align_up_spec(addr: nat, align: nat) -> nat
    recommends
        align > 0,
{
    if addr % align == 0 {
        addr
    } else {
        (addr + align - addr % align) as nat
    }
}

/// `align_up_spec` is a multiple of the alignment, is not below the address,
/// and is less than one alignment step above it.
pub proof fn lemma_align_up_bounds(addr: nat, align: nat)
    requires
        align > 0,
    ensures
        align_up_spec(addr, align) % align == 0,
        addr <= align_up_spec(addr, align) < addr + align,
{
    let r = addr % align;
    if r != 0 {
        assert((addr + align - r) % (align as int) == 0) by (nonlinear_arith)
            requires
                align > 0,
                r == addr % align,
        ;
    }
}

/// No multiple of the alignment lies between the address and
/// `align_up_spec`: it is the least one that is not below the address.
pub proof fn lemma_align_up_least(addr: nat, align: nat, m: nat)
    requires
        align > 0,
        m % align == 0,
        addr <= m,
    ensures
        align_up_spec(addr, align) <= m,
{
    lemma_align_up_bounds(addr, align);
    let a = align_up_spec(addr, align);
    if m < a {
        assert(false) by (nonlinear_arith)
            requires
                align > 0,
                m % align == 0,
                a % align == 0,
                m < a,
                a < m + align,
        ;
    }
}

/// Rounds `addr` up to the next multiple of `align`, or reports that this
/// multiple does not fit in an address.
pub fn checked_align_up(addr: usize, align: usize) -> (r: Option<usize>)
    requires
        align > 0,
    ensures
        match r {
            Some(a) => a == align_up_spec(addr as nat, align as nat),
            None => align_up_spec(addr as nat, align as nat) > usize::MAX,
        },
{
    let rem: usize = addr % align;
    if rem == 0 {
        Some(addr)
    } else {
        addr.checked_add(align - rem)
    }
}

/// Rounds `addr` up to the next multiple of `align`.
pub fn align_up(addr: usize, align: usize) -> (r: usize)
    requires
        align > 0,
        align_up_spec(addr as nat, align as nat) <= usize::MAX,
    ensures
        r == align_up_spec(addr as nat, align as nat),
        r % align == 0,
        addr <= r < addr + align,
{
    proof {
        lemma_align_up_bounds(addr as nat, align as nat);
    }
    let rem: usize = addr % align;
    if rem == 0 {
        addr
    } else {
        addr + (align - rem)
    }
}

} // verus!
