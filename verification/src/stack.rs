//! Green-thread stacks as address arithmetic.
//!
//! A stack is a mapped region `[guard page | usable pages]`.  The lowest page
//! is rendered inaccessible so that running past the usable region faults
//! inside the guard page, where the signal handler can classify the fault as
//! a stack overflow.  The mapping and protection calls live outside the
//! verified boundary; this module fixes the arithmetic they must obey: how a
//! requested size is rounded, where the initial stack pointer sits, and which
//! addresses count as guard-page hits.

use vstd::prelude::*;

verus! {

/// A page size the stack arithmetic can work with: at least 32 bytes and a
/// multiple of 32, so that half of a whole number of pages is 16-byte
/// aligned.  Real page sizes (4096 and up, powers of two) all qualify.
pub open spec fn page_ok(page: usize) -> bool {
    32 <= page && page % 32 == 0
}

/// The mapped size that a request for `requested` usable bytes receives:
/// the request rounded up to the next page boundary (a full extra page when
/// already aligned), plus one page for the guard.
pub open spec fn spec_mapped_size(requested: usize, page: usize) -> int
    recommends
        page_ok(page),
{
    requested - requested % page + 2 * page
}

/// A green-thread stack: the base address of its mapping and the mapped
/// size in bytes.  The guard page is `[base, base + page)`.  The context of
/// the operating-system thread's root carries a zero-sized stack: its native
/// stack is not owned by the runtime.
#[derive(Clone, Copy, PartialEq, Eq, Structural, Debug)]
pub struct Stack {
    pub base: usize,
    pub size: usize,
}

impl Stack {
    /// Basic alignment facts about the mapping, independent of the page size.
    pub open spec fn aligned(self) -> bool {
        &&& self.base % 16 == 0
        &&& self.size % 32 == 0
        &&& self.base + self.size <= usize::MAX
    }

    /// Well-formed for a given page size: aligned, a whole number of pages,
    /// and either empty (the operating-system root) or large enough to hold
    /// the guard page plus at least one usable page.
    pub open spec fn wf(self, page: usize) -> bool {
        &&& page_ok(page)
        &&& self.aligned()
        &&& self.size % page == 0
        &&& self.size == 0 || self.size >= 2 * page
    }

    /// The mapped size that serves a request for `requested` usable bytes.
    ///
    /// The result is page-aligned, holds the request plus a whole guard
    /// page, and is never smaller than two pages, so a request for zero
    /// bytes still receives a usable stack.
    pub fn mapped_size(requested: usize, page: usize) -> (r: usize)
        requires
            page_ok(page),
            requested + 2 * page <= usize::MAX,
        ensures
            r == spec_mapped_size(requested, page),
            r % page == 0,
            r >= requested + page,
            r >= 2 * page,
    {
        let rem: usize = requested % page;
        proof {
            vstd::arithmetic::div_mod::lemma_fundamental_div_mod(
                requested as int,
                page as int,
            );
            vstd::arithmetic::div_mod::lemma_mod_bound(requested as int, page as int);
        }
        let r = requested - rem + 2 * page;
        proof {
            assert((requested - rem + 2 * page) % (page as int) == 0) by {
                let q: int = requested as int / page as int;
                assert(requested - rem == q * page);
                assert(q * page + 2 * page == (q + 2) * page) by (nonlinear_arith);
                assert(((q + 2) * (page as int)) % (page as int) == 0) by (nonlinear_arith)
                    requires page > 0;
            }
        }
        r
    }

    /// The initial stack-pointer target: the midpoint of the mapping,
    /// 16-byte aligned as the ABI demands, and strictly above the guard
    /// page.
    pub fn bottom(&self, page: usize) -> (r: usize)
        requires
            self.wf(page),
            self.size > 0,
        ensures
            r == self.base + self.size / 2,
            r % 16 == 0,
            self.base + page <= r,
            r < self.base + self.size,
    {
        self.base + self.size / 2
    }

    /// Whether a faulting address lies in this stack's guard page, which is
    /// how the signal handler recognises a stack overflow.
    pub fn is_stackoverflow(&self, addr: usize, page: usize) -> (r: bool)
        requires
            self.wf(page),
            self.size > 0,
        ensures
            r <==> self.base <= addr < self.base + page,
    {
        self.base <= addr && addr < self.base + page
    }
}

} // verus!
