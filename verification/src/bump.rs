//! Dual-region early allocator.
//!
//! One contiguous range `[start, start + size)` serves two kinds of requests
//! at once: variably sized byte blocks grow from the low end upward, and
//! fixed-size pages grow from the high end downward.
//!
//! ```text
//! [ bytes-used | avail-area | pages-used ]
//! |            | -->    <-- |            |
//! start       b_pos        p_pos        end
//! ```
//!
//! Byte allocations are reclaimed in bulk: `count` tracks how many are live,
//! and when it returns to zero the whole byte zone is released at once.
//! Pages are never released.
//!
//! All methods take the allocator exclusively (`&mut self`), so callers are
//! serialized; the allocator itself imposes no locking.

use vstd::prelude::*;

verus! {

use vstd::arithmetic::div_mod::{
    lemma_fundamental_div_mod,
    lemma_mod_decreases,
    lemma_mod_multiples_basic,
};
use vstd::arithmetic::mul::lemma_mul_is_distributive_add;
use vstd::arithmetic::power2::pow2;
use vstd::bits::{lemma_usize_pow2_no_overflow, lemma_usize_shl_is_mul};

/// The sole failure signal: the requested resource cannot be provided.
#[derive(Clone, Copy, Debug, PartialEq, Eq, Structural)]
pub enum AllocError {
    /// The request cannot fit in the currently available zone, or region
    /// growth was requested (which this allocator never supports).
    NoMemory,
}

/// Result of an allocation request.
pub type AllocResult<T = ()> = Result<T, AllocError>;

/// `n` is a positive power of two.
pub open spec fn is_pow2(n: nat) -> bool
    decreases n,
{
    if n == 0 {
        false
    } else if n == 1 {
        true
    } else {
        n % 2 == 0 && is_pow2(n / 2)
    }
}

/// `pos` rounded up to the next multiple of `align`.
pub open spec fn align_up(pos: int, align: int) -> int
    recommends
        align >= 1,
        pos >= 0,
{
    if pos % align == 0 {
        pos
    } else {
        pos - pos % align + align
    }
}

/// `pos` rounded down to a multiple of `align`.
pub open spec fn align_down(pos: int, align: int) -> int
    recommends
        align >= 1,
        pos >= 0,
{
    pos - pos % align
}

/// Rounding up stays within one `align` of `pos` and lands on a multiple.
pub proof fn lemma_align_up_bounds(pos: int, align: int)
    requires
        align >= 1,
        pos >= 0,
    ensures
        pos <= align_up(pos, align) < pos + align,
        align_up(pos, align) % align == 0,
{
    let q = pos / align;
    lemma_fundamental_div_mod(pos, align);
    assert(pos - pos % align == align * q);
    if pos % align != 0 {
        lemma_mul_is_distributive_add(align, q, 1);
        assert(align_up(pos, align) == align * (q + 1));
        lemma_mod_multiples_basic(q + 1, align);
        assert(align * (q + 1) == (q + 1) * align);
    }
}

/// Rounding down stays within one `align` of `pos` and lands on a multiple.
pub proof fn lemma_align_down_bounds(pos: int, align: int)
    requires
        align >= 1,
        pos >= 0,
    ensures
        pos - align < align_down(pos, align) <= pos,
        align_down(pos, align) % align == 0,
{
    let q = pos / align;
    lemma_fundamental_div_mod(pos, align);
    assert(pos - pos % align == align * q);
    lemma_mod_multiples_basic(q, align);
    assert(align * q == q * align);
}

/// Early memory allocator: use it before the formal byte and page allocators
/// can work. `PAGE_SIZE` is the fixed page granule, a power of two.
pub struct EarlyAllocator<const PAGE_SIZE: usize> {
    start: usize,
    size: usize,
    b_pos: usize,
    p_pos: usize,
    count: usize,
}

impl<const PAGE_SIZE: usize> EarlyAllocator<PAGE_SIZE> {
    /// Base address of the managed range.
    pub closed spec fn spec_start(&self) -> int {
        self.start as int
    }

    /// Total length of the managed range in bytes.
    pub closed spec fn spec_size(&self) -> int {
        self.size as int
    }

    /// High-water mark of the forward-growing byte zone.
    pub closed spec fn spec_b_pos(&self) -> int {
        self.b_pos as int
    }

    /// Low-water mark of the backward-growing page zone.
    pub closed spec fn spec_p_pos(&self) -> int {
        self.p_pos as int
    }

    /// Number of currently live byte allocations.
    pub closed spec fn spec_count(&self) -> int {
        self.count as int
    }

    /// One past the last address of the managed range.
    pub open spec fn spec_end(&self) -> int {
        self.spec_start() + self.spec_size()
    }

    /// Layout invariant: the three cursors are ordered within the range, the
    /// range fits the address space, the page granule is a power of two, and
    /// a byte zone with no live allocations is empty.
    pub open spec fn wf(&self) -> bool {
        &&& is_pow2(PAGE_SIZE as nat)
        &&& self.spec_start() <= self.spec_b_pos()
        &&& self.spec_b_pos() <= self.spec_p_pos()
        &&& self.spec_p_pos() <= self.spec_end()
        &&& self.spec_end() <= usize::MAX as int
        &&& (self.spec_count() == 0 ==> self.spec_b_pos() == self.spec_start())
    }

    pub open spec fn spec_total_bytes(&self) -> int {
        self.spec_size()
    }

    pub open spec fn spec_used_bytes(&self) -> int {
        self.spec_b_pos() - self.spec_start()
    }

    pub open spec fn spec_available_bytes(&self) -> int {
        self.spec_p_pos() - self.spec_b_pos()
    }

    pub open spec fn spec_total_pages(&self) -> int {
        self.spec_size() / (PAGE_SIZE as int)
    }

    pub open spec fn spec_used_pages(&self) -> int {
        (self.spec_end() - self.spec_p_pos()) / (PAGE_SIZE as int)
    }

    pub open spec fn spec_available_pages(&self) -> int {
        self.spec_available_bytes() / (PAGE_SIZE as int)
    }

    /// A fresh, uninitialized allocator: empty range, all cursors zero.
    pub fn new() -> (r: Self)
        requires
            is_pow2(PAGE_SIZE as nat),
        ensures
            r.wf(),
            r.spec_start() == 0,
            r.spec_size() == 0,
            r.spec_b_pos() == 0,
            r.spec_p_pos() == 0,
            r.spec_count() == 0,
    {
        Self { start: 0, size: 0, b_pos: 0, p_pos: 0, count: 0 }
    }

    /// Whether the allocator has been given a (non-empty) range.
    pub fn is_init(&self) -> (r: bool)
        ensures
            r == (self.spec_size() > 0),
    {
        self.size > 0
    }

    /// Take ownership of the range `[start, start + size)`, discarding all
    /// prior bookkeeping. Callers must not re-initialize while allocations
    /// from the previous range are still referenced.
    pub fn init(&mut self, start: usize, size: usize)
        requires
            old(self).wf(),
            start + size <= usize::MAX,
        ensures
            final(self).wf(),
            final(self).spec_start() == start,
            final(self).spec_size() == size,
            final(self).spec_b_pos() == start,
            final(self).spec_p_pos() == start + size,
            final(self).spec_count() == 0,
    {
        self.start = start;
        self.size = size;
        self.b_pos = start;
        self.p_pos = start + size;
        self.count = 0;
    }

    /// Growing the region is never supported: the call always fails with
    /// resource exhaustion and changes nothing.
    pub fn add_memory(&mut self, _start: usize, _size: usize) -> (r: AllocResult)
        ensures
            *final(self) == *old(self),
            r == Err::<(), AllocError>(AllocError::NoMemory),
    {
        Err(AllocError::NoMemory)
    }

    /// The successful byte-allocation transition: `addr` is the old byte
    /// cursor rounded up to `align`, the cursor advances past the block, the
    /// live count grows by one, and everything else stands.
    pub open spec fn alloc_transition(
        pre: Self,
        size: usize,
        align: usize,
        post: Self,
        addr: usize,
    ) -> bool {
        &&& pre.wf()
        &&& post.wf()
        &&& align >= 1
        &&& post.spec_start() == pre.spec_start()
        &&& post.spec_size() == pre.spec_size()
        &&& post.spec_p_pos() == pre.spec_p_pos()
        &&& addr == align_up(pre.spec_b_pos(), align as int)
        &&& post.spec_b_pos() == addr + size
        &&& post.spec_b_pos() <= pre.spec_p_pos()
        &&& post.spec_count() == pre.spec_count() + 1
    }

    /// Allocate `size` bytes aligned to `align` (a power of two) from the low
    /// end of the range. Succeeds exactly when the aligned block still fits
    /// below the page zone; on failure nothing is mutated.
    pub fn alloc_bytes(&mut self, size: usize, align: usize) -> (r: AllocResult<usize>)
        requires
            old(self).wf(),
            is_pow2(align as nat),
            old(self).spec_count() < usize::MAX,
        ensures
            final(self).wf(),
            r is Ok <==> align_up(old(self).spec_b_pos(), align as int) + size
                <= old(self).spec_p_pos(),
            (r matches Ok(addr) ==> Self::alloc_transition(*old(self), size, align, *final(self), addr)),
            (r matches Ok(addr) ==> ({
                &&& old(self).spec_b_pos() <= addr
                &&& (addr as int) % (align as int) == 0
                &&& addr + size <= old(self).spec_p_pos()
                &&& final(self).spec_b_pos() == addr + size
                &&& final(self).spec_count() == old(self).spec_count() + 1
            })),
            r is Err ==> *final(self) == *old(self) && r == Err::<usize, AllocError>(
                AllocError::NoMemory,
            ),
    {
        proof {
            lemma_align_up_bounds(self.spec_b_pos(), align as int);
        }
        let rem: usize = self.b_pos % align;
        assert(rem <= self.b_pos) by {
            lemma_mod_decreases(self.b_pos as nat, align as nat);
        };
        let cand: usize = if rem == 0 {
            self.b_pos
        } else {
            match (self.b_pos - rem).checked_add(align) {
                Some(c) => c,
                None => {
                    return Err(AllocError::NoMemory);
                },
            }
        };
        let end: usize = match cand.checked_add(size) {
            Some(e) => e,
            None => {
                return Err(AllocError::NoMemory);
            },
        };
        if end > self.p_pos {
            return Err(AllocError::NoMemory);
        }
        self.b_pos = end;
        self.count = self.count + 1;
        Ok(cand)
    }

    /// The byte-free transition: the live count drops (never below zero), the
    /// byte zone is reclaimed wholesale exactly when the count reaches zero,
    /// and the rest of the state stands.
    pub open spec fn dealloc_transition(pre: Self, post: Self) -> bool {
        &&& pre.wf()
        &&& post.wf()
        &&& post.spec_start() == pre.spec_start()
        &&& post.spec_size() == pre.spec_size()
        &&& post.spec_p_pos() == pre.spec_p_pos()
        &&& (pre.spec_count() == 0 ==> post == pre)
        &&& (pre.spec_count() > 1 ==> post.spec_count() == pre.spec_count() - 1
            && post.spec_b_pos() == pre.spec_b_pos())
        &&& (pre.spec_count() == 1 ==> post.spec_count() == 0
            && post.spec_b_pos() == pre.spec_start())
    }

    /// Release one byte allocation. The address and layout of the block are
    /// deliberately ignored: the allocator only counts live blocks, and when
    /// the count returns to zero the whole byte zone is reclaimed at once.
    /// A free with no live allocation is a harmless no-op.
    pub fn dealloc(&mut self, _pos: usize, _size: usize, _align: usize)
        requires
            old(self).wf(),
        ensures
            final(self).wf(),
            Self::dealloc_transition(*old(self), *final(self)),
    {
        if self.count == 0 {
            return ;
        }
        self.count = self.count - 1;
        if self.count == 0 {
            self.b_pos = self.start;
        }
    }

    /// Total length of the range in bytes.
    pub fn total_bytes(&self) -> (r: usize)
        ensures
            r == self.spec_total_bytes(),
    {
        self.size
    }

    /// Length of the bytes-in-use zone.
    pub fn used_bytes(&self) -> (r: usize)
        requires
            self.wf(),
        ensures
            r == self.spec_used_bytes(),
    {
        self.b_pos - self.start
    }

    /// Length of the zone still available to either kind of request.
    pub fn available_bytes(&self) -> (r: usize)
        requires
            self.wf(),
        ensures
            r == self.spec_available_bytes(),
    {
        self.p_pos - self.b_pos
    }

    /// The successful page-allocation transition: the page cursor drops to
    /// `addr`, the requested span fits above the byte zone, and everything
    /// else stands.
    pub open spec fn alloc_pages_transition(
        pre: Self,
        num_pages: usize,
        align_pow2: usize,
        post: Self,
        addr: usize,
    ) -> bool {
        &&& pre.wf()
        &&& post.wf()
        &&& post.spec_start() == pre.spec_start()
        &&& post.spec_size() == pre.spec_size()
        &&& post.spec_b_pos() == pre.spec_b_pos()
        &&& post.spec_count() == pre.spec_count()
        &&& addr == align_down(
            pre.spec_p_pos() - num_pages * PAGE_SIZE,
            pow2(align_pow2 as nat) as int,
        )
        &&& addr >= pre.spec_b_pos()
        &&& post.spec_p_pos() == addr
    }

    /// Allocate `num_pages` pages of `PAGE_SIZE` bytes, aligned to
    /// `2^align_pow2`, from the high end of the range. Succeeds exactly when
    /// the aligned span still lies above the byte zone; on failure nothing is
    /// mutated.
    pub fn alloc_pages(&mut self, num_pages: usize, align_pow2: usize) -> (r: AllocResult<usize>)
        requires
            old(self).wf(),
            (align_pow2 as nat) < (usize::BITS as nat),
        ensures
            final(self).wf(),
            r is Ok <==> ({
                &&& num_pages * PAGE_SIZE <= old(self).spec_p_pos()
                &&& align_down(
                    old(self).spec_p_pos() - num_pages * PAGE_SIZE,
                    pow2(align_pow2 as nat) as int,
                ) >= old(self).spec_b_pos()
            }),
            (r matches Ok(addr) ==> Self::alloc_pages_transition(
                *old(self),
                num_pages,
                align_pow2,
                *final(self),
                addr,
            )),
            (r matches Ok(addr) ==> (addr as int) % (pow2(align_pow2 as nat) as int) == 0),
            r is Err ==> *final(self) == *old(self) && r == Err::<usize, AllocError>(
                AllocError::NoMemory,
            ),
    {
        let align: usize = 1usize << align_pow2;
        proof {
            lemma_usize_pow2_no_overflow(align_pow2 as nat);
            lemma_usize_shl_is_mul(1, align_pow2);
        }
        let req: usize = match num_pages.checked_mul(PAGE_SIZE) {
            Some(s) => s,
            None => {
                return Err(AllocError::NoMemory);
            },
        };
        if req > self.p_pos {
            return Err(AllocError::NoMemory);
        }
        let base: usize = self.p_pos - req;
        proof {
            lemma_align_down_bounds(base as int, align as int);
        }
        assert(base % align <= base) by {
            lemma_mod_decreases(base as nat, align as nat);
        };
        let aligned: usize = base - base % align;
        if aligned < self.b_pos {
            return Err(AllocError::NoMemory);
        }
        self.p_pos = aligned;
        Ok(aligned)
    }

    /// Releasing pages is intentionally a no-op: pages handed out by this
    /// allocator are permanent for the lifetime of the instance.
    pub fn dealloc_pages(&mut self, _pos: usize, _num_pages: usize)
        ensures
            *final(self) == *old(self),
    {
    }

    /// Number of whole pages the range could hold.
    pub fn total_pages(&self) -> (r: usize)
        requires
            self.wf(),
        ensures
            r == self.spec_total_pages(),
    {
        self.size / PAGE_SIZE
    }

    /// Number of whole pages in the pages-in-use zone.
    pub fn used_pages(&self) -> (r: usize)
        requires
            self.wf(),
        ensures
            r == self.spec_used_pages(),
    {
        (self.start + self.size - self.p_pos) / PAGE_SIZE
    }

    /// Number of whole pages that still fit in the available zone.
    pub fn available_pages(&self) -> (r: usize)
        requires
            self.wf(),
        ensures
            r == self.spec_available_pages(),
    {
        (self.p_pos - self.b_pos) / PAGE_SIZE
    }

    /// Law: right after `init(start, size)` nothing is used — the byte zone
    /// is empty, the whole range is available, and the total reports the full
    /// range.
    pub proof fn lemma_init_observation(a: Self, start: usize, size: usize)
        requires
            a.wf(),
            a.spec_start() == start,
            a.spec_size() == size,
            a.spec_b_pos() == start,
            a.spec_p_pos() == start + size,
        ensures
            a.spec_used_bytes() == 0,
            a.spec_available_bytes() == size,
            a.spec_total_bytes() == size,
    {
    }

    /// A run of successful byte allocations: `states` are the allocator
    /// states before and after each call, `addrs` the returned addresses.
    pub open spec fn alloc_chain(
        states: Seq<Self>,
        sizes: Seq<usize>,
        aligns: Seq<usize>,
        addrs: Seq<usize>,
    ) -> bool {
        &&& states.len() == addrs.len() + 1
        &&& sizes.len() == addrs.len()
        &&& aligns.len() == addrs.len()
        &&& forall|i: int|
            0 <= i < addrs.len() ==> #[trigger] Self::alloc_transition(
                states[i],
                sizes[i],
                aligns[i],
                states[i + 1],
                addrs[i],
            )
    }

    /// Along a run of successful byte allocations the byte cursor never
    /// moves backward.
    proof fn lemma_alloc_chain_monotone(
        states: Seq<Self>,
        sizes: Seq<usize>,
        aligns: Seq<usize>,
        addrs: Seq<usize>,
        i: int,
        j: int,
    )
        requires
            Self::alloc_chain(states, sizes, aligns, addrs),
            0 <= i <= j < states.len(),
        ensures
            states[i].spec_b_pos() <= states[j].spec_b_pos(),
        decreases j - i,
    {
        if i < j {
            Self::lemma_alloc_chain_monotone(states, sizes, aligns, addrs, i, j - 1);
            let i0 = j - 1;
            assert(Self::alloc_transition(
                states[i0],
                sizes[i0],
                aligns[i0],
                states[i0 + 1],
                addrs[i0],
            ));
            lemma_align_up_bounds(states[j - 1].spec_b_pos(), aligns[j - 1] as int);
        }
    }

    /// Law: no two blocks returned by a run of successful byte allocations
    /// overlap — the block returned earlier ends at or before the block
    /// returned later begins.
    pub proof fn lemma_alloc_chain_disjoint(
        states: Seq<Self>,
        sizes: Seq<usize>,
        aligns: Seq<usize>,
        addrs: Seq<usize>,
    )
        requires
            Self::alloc_chain(states, sizes, aligns, addrs),
        ensures
            forall|i: int, j: int|
                0 <= i < j < addrs.len() ==> addrs[i] + sizes[i] <= addrs[j],
    {
        assert forall|i: int, j: int|
            0 <= i < j < addrs.len() implies addrs[i] + sizes[i] <= addrs[j] by {
            assert(Self::alloc_transition(states[i], sizes[i], aligns[i], states[i + 1], addrs[i]));
            assert(Self::alloc_transition(states[j], sizes[j], aligns[j], states[j + 1], addrs[j]));
            Self::lemma_alloc_chain_monotone(states, sizes, aligns, addrs, i + 1, j);
            lemma_align_up_bounds(states[j].spec_b_pos(), aligns[j] as int);
        };
    }

    /// A run of byte frees: `states` are the allocator states before and
    /// after each call.
    pub open spec fn dealloc_chain(states: Seq<Self>) -> bool {
        forall|i: int|
            0 <= i < states.len() - 1 ==> #[trigger] Self::dealloc_transition(
                states[i],
                states[i + 1],
            )
    }

    proof fn lemma_dealloc_chain_prefix(states: Seq<Self>, k: int)
        requires
            Self::dealloc_chain(states),
            states.len() >= 1,
            states[0].spec_count() == states.len() - 1,
            0 <= k < states.len(),
        ensures
            states[k].spec_count() == states[0].spec_count() - k,
            states[k].spec_start() == states[0].spec_start(),
            k < states.len() - 1 ==> states[k].spec_b_pos() == states[0].spec_b_pos(),
            (k >= 1 && k == states.len() - 1) ==> states[k].spec_b_pos()
                == states[0].spec_start(),
        decreases k,
    {
        if k > 0 {
            Self::lemma_dealloc_chain_prefix(states, k - 1);
            let i0 = k - 1;
            assert(Self::dealloc_transition(states[i0], states[i0 + 1]));
        }
    }

    /// Law: starting from `N` live byte allocations, a run of `N` frees (the
    /// blocks may be given back in any order, since frees ignore addresses)
    /// returns the byte cursor exactly to `start`; any shorter run leaves it
    /// unchanged.
    pub proof fn lemma_bulk_reclaim(states: Seq<Self>)
        requires
            Self::dealloc_chain(states),
            states.len() >= 2,
            states[0].spec_count() == states.len() - 1,
        ensures
            states.last().spec_count() == 0,
            states.last().spec_b_pos() == states[0].spec_start(),
            forall|k: int|
                0 <= k < states.len() - 1 ==> #[trigger] states[k].spec_b_pos()
                    == states[0].spec_b_pos(),
    {
        Self::lemma_dealloc_chain_prefix(states, states.len() - 1);
        assert forall|k: int|
            0 <= k < states.len() - 1 implies #[trigger] states[k].spec_b_pos()
            == states[0].spec_b_pos() by {
            Self::lemma_dealloc_chain_prefix(states, k);
        };
    }
}

} // verus!
