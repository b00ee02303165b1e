//! Address arithmetic and a size-class allocator over a region of addresses.

use vstd::prelude::*;
use vstd::arithmetic::power2::pow2;

verus! {

/// Whether `v` is a power of two.
pub open spec fn spec_power_of_two(v: usize) -> bool {
    v != 0 && v & ((v - 1) as usize) == 0
}

/// Whether `val` is a power of two (`0` is not).
pub fn is_power_of_two(val: usize) -> (r: bool)
    ensures
        r == spec_power_of_two(val),
{
    val != 0 && val & (val - 1) == 0
}

/// Aligns `addr` down to the nearest multiple of `align`.
pub fn align_down(addr: usize, align: usize) -> (r: usize)
    requires
        spec_power_of_two(align),
    ensures
        r <= addr,
        r % align == 0,
        addr - r < align,
{
    proof {
        lemma_round_down(addr as int, align as int);
    }
    addr - addr % align
}

/// The nearest multiple of `align` at or above `addr`.
pub open spec fn spec_align_up(addr: int, align: int) -> int {
    (addr + (align - 1)) - (addr + (align - 1)) % align
}

/// Whether `k` is the size class of a request of `need` bytes: the smallest
/// `k` with `need <= 2^(k + 3)`.
pub open spec fn size_class(need: int, k: nat) -> bool {
    need <= pow2(k + 3) && (k == 0 || pow2(k + 2) < need)
}

/// A request has one size class at most.
pub proof fn lemma_size_class_unique(need: int, k1: nat, k2: nat)
    requires
        size_class(need, k1),
        size_class(need, k2),
    ensures
        k1 == k2,
{
    if k1 < k2 {
        if k1 + 3 < k2 + 2 {
            vstd::arithmetic::power2::lemma_pow2_strictly_increases(k1 + 3, k2 + 2);
        }
    } else if k2 < k1 {
        if k2 + 3 < k1 + 2 {
            vstd::arithmetic::power2::lemma_pow2_strictly_increases(k2 + 3, k1 + 2);
        }
    }
}

/// Aligns `addr` up to the nearest multiple of `align`.
///
/// The aligned address must fit in a `usize`.
pub fn align_up(addr: usize, align: usize) -> (r: usize)
    requires
        spec_power_of_two(align),
        addr + (align - 1) <= usize::MAX,
    ensures
        r >= addr,
        r % align == 0,
        r - addr < align,
        r == spec_align_up(addr as int, align as int),
{
    let padded = addr + (align - 1);
    proof {
        lemma_round_down(padded as int, align as int);
    }
    padded - padded % align
}

/// The number of size classes.
pub const MAX_BINS: usize = 32;

/// The size class of a request of `size` bytes: the smallest `k` with
/// `size <= 2^(k + 3)`.
pub fn map2bin(size: usize) -> (r: usize)
    requires
        size <= usize::MAX / 2 + 1,
    ensures
        size <= pow2((r + 3) as nat),
        r == 0 || pow2((r + 2) as nat) < size,
{
    let mut bin: usize = 3;
    let mut cap: usize = 8;
    proof {
        vstd::arithmetic::power2::lemma2_to64();
    }
    while size > cap
        invariant
            size <= usize::MAX / 2 + 1,
            3 <= bin <= cap,
            cap == pow2(bin as nat),
            bin == 3 || pow2((bin - 1) as nat) < size,
        decreases usize::MAX - cap,
    {
        proof {
            vstd::arithmetic::power2::lemma_pow2_unfold((bin + 1) as nat);
        }
        cap = cap * 2;
        bin += 1;
    }
    bin - 3
}

/// The block size of size class `bin`: `2^(bin + 3)` bytes.
pub fn size4bin(bin: usize) -> (r: usize)
    requires
        bin + 3 < usize::BITS,
    ensures
        r == pow2((bin + 3) as nat),
{
    let shift: usize = bin + 3;
    proof {
        vstd::bits::lemma_usize_pow2_no_overflow(shift as nat);
        vstd::bits::lemma_usize_shl_is_mul(1, shift);
    }
    1usize << shift
}

/// An allocator that hands out blocks by size class: freed blocks are kept in
/// one free list per class and reused, and new blocks are cut from the region
/// `[start, end)` by a bump pointer.
pub struct Allocator {
    bins: Vec<Vec<usize>>,
    start: usize,
    current: usize,
    end: usize,
}

impl Allocator {
    /// The free blocks of each size class, oldest first.
    pub closed spec fn free_lists(&self) -> Seq<Seq<usize>> {
        self.bins@.map_values(|v: Vec<usize>| v@)
    }

    /// The first address not yet cut from the region.
    pub closed spec fn spec_current(&self) -> usize {
        self.current
    }

    /// The start of the region.
    pub closed spec fn spec_start(&self) -> usize {
        self.start
    }

    /// The end of the region.
    pub closed spec fn spec_end(&self) -> usize {
        self.end
    }

    /// One free list per size class; the bump pointer never falls below the
    /// start; every free block of class `b` lies in the region, with room
    /// for `2^(b + 3)` bytes before its end.
    pub closed spec fn wf(&self) -> bool {
        &&& self.bins@.len() == MAX_BINS
        &&& self.start <= self.current
        &&& forall|b: int, i: int|
            0 <= b < MAX_BINS && 0 <= i < self.bins@[b]@.len() ==> self.start <= #[trigger] self.bins@[b]@[i]
                && self.bins@[b]@[i] + pow2((b + 3) as nat) <= self.end
    }

    /// An allocator over the addresses from `start` up to `end`, with no
    /// free blocks.
    pub fn new(start: usize, end: usize) -> (r: Allocator)
        ensures
            r.wf(),
            r.free_lists() == Seq::new(MAX_BINS as nat, |i: int| Seq::<usize>::empty()),
            r.spec_start() == start,
            r.spec_current() == start,
            r.spec_end() == end,
    {
        let mut bins: Vec<Vec<usize>> = Vec::new();
        let mut i: usize = 0;
        while i < MAX_BINS
            invariant
                i <= MAX_BINS,
                bins@.len() == i,
                forall|k: int| 0 <= k < i ==> (#[trigger] bins@[k])@ == Seq::<usize>::empty(),
            decreases MAX_BINS - i,
        {
            bins.push(Vec::new());
            i += 1;
        }
        let r = Allocator { bins, start, current: start, end };
        assert(r.free_lists() =~= Seq::new(MAX_BINS as nat, |i: int| Seq::<usize>::empty()));
        r
    }

    /// Whether `new` is `old` after handing out the free block `a`: it is
    /// taken out of the free list that held it, and nothing else changes.
    pub open spec fn reused(old: &Self, new: &Self, a: usize) -> bool {
        exists|b: int, i: int|
            0 <= b < MAX_BINS && 0 <= i < old.free_lists()[b].len() && #[trigger] old.free_lists()[b][i]
                == a && new.free_lists() == old.free_lists().update(
                b,
                old.free_lists()[b].remove(i),
            ) && new.spec_current() == old.spec_current()
    }

    /// Whether no block of size class `k` aligned to `align` can be had from
    /// `s`: no free block of the class is so aligned, and the aligned bump
    /// pointer has no room left for a block of the class.
    pub open spec fn exhausted(s: &Self, k: nat, align: usize) -> bool {
        &&& forall|i: int|
            0 <= i < s.free_lists()[k as int].len() ==> #[trigger] s.free_lists()[k as int][i]
                % align != 0
        &&& s.spec_current() + (align - 1) > usize::MAX || spec_align_up(
            s.spec_current() as int,
            align as int,
        ) + pow2(k + 3) > s.spec_end()
    }

    /// Whether `new` is `old` after cutting a block of at least `need` bytes
    /// at `a` from the unused part of the region.
    pub open spec fn cut(old: &Self, new: &Self, a: usize, need: nat) -> bool {
        &&& new.free_lists() == old.free_lists()
        &&& old.spec_current() <= a
        &&& a + need <= new.spec_current() <= old.spec_end()
    }

    /// Allocates a block of at least `size` bytes aligned to `align`: the
    /// most recently freed block of the request's size class that is so
    /// aligned, or else a new block cut from the region. Returns `None`, and
    /// changes nothing, when no size class fits the request or the region is
    /// exhausted.
    pub fn allocate(&mut self, size: usize, align: usize) -> (r: Option<usize>)
        requires
            old(self).wf(),
            spec_power_of_two(align),
        ensures
            final(self).wf(),
            final(self).spec_start() == old(self).spec_start(),
            final(self).spec_end() == old(self).spec_end(),
            r is None ==> final(self).free_lists() == old(self).free_lists()
                && final(self).spec_current() == old(self).spec_current(),
            r is None && vstd::math::max(size as int, align as int) <= usize::MAX / 2 + 1 ==> forall|
                k: nat,
            |
                #![trigger size_class(vstd::math::max(size as int, align as int), k)]
                size_class(vstd::math::max(size as int, align as int), k) && k < MAX_BINS && k + 3
                    < usize::BITS ==> Self::exhausted(old(self), k, align),
            r matches Some(a) ==> old(self).spec_start() <= a && a + vstd::math::max(
                size as int,
                align as int,
            ) <= old(self).spec_end(),
            r matches Some(a) ==> a % align == 0 && (Self::reused(old(self), final(self), a)
                || Self::cut(old(self), final(self), a, vstd::math::max(size as int, align as int) as nat)),
    {
        let need = if size > align {
            size
        } else {
            align
        };
        if need > usize::MAX / 2 + 1 {
            return None;
        }
        let bin = map2bin(need);
        proof {
            assert(size_class(need as int, bin as nat));
            assert forall|k: nat| #[trigger] size_class(need as int, k) implies k == bin by {
                lemma_size_class_unique(need as int, k, bin as nat);
            }
        }
        if bin >= MAX_BINS || bin + 3 >= usize::BITS as usize {
            return None;
        }
        let ghost lists = self.free_lists();
        let mut i: usize = self.bins[bin].len();
        while i > 0
            invariant
                bin < MAX_BINS,
                self.bins@.len() == MAX_BINS,
                self.free_lists() == lists,
                lists == old(self).free_lists(),
                old(self).wf(),
                self.bins@ == old(self).bins@,
                need <= pow2((bin + 3) as nat),
                need == vstd::math::max(size as int, align as int),
                forall|j: int|
                    i <= j < lists[bin as int].len() ==> #[trigger] lists[bin as int][j] % align
                        != 0,
                self.start == old(self).start,
                self.current == old(self).current,
                self.end == old(self).end,
                align > 0,
                i <= lists[bin as int].len(),
            decreases i,
        {
            i -= 1;
            assert(self.bins@[bin as int]@ == lists[bin as int]);
            if self.bins[bin][i] % align == 0 {
                let a = self.bins[bin][i];
                let mut list = self.bins[bin].clone();
                assert(list@ == lists[bin as int]);
                let ghost old_list = list@;
                list.remove(i);
                self.bins.set(bin, list);
                proof {
                    assert(old(self).bins@[bin as int]@ == old_list);
                    assert(old_list[i as int] == a);
                    assert(old(self).start <= old(self).bins@[bin as int]@[i as int]
                        && old(self).bins@[bin as int]@[i as int] + pow2((bin + 3) as nat)
                        <= old(self).end);
                    assert forall|b: int, j: int|
                        0 <= b < MAX_BINS && 0 <= j < self.bins@[b]@.len() implies self.start
                        <= #[trigger] self.bins@[b]@[j] && self.bins@[b]@[j] + pow2(
                        (b + 3) as nat,
                    ) <= self.end by {
                        if b == bin as int {
                            if j < i {
                                assert(self.bins@[b]@[j] == old(self).bins@[b]@[j]);
                            } else {
                                assert(self.bins@[b]@[j] == old(self).bins@[b]@[j + 1]);
                            }
                        } else {
                            assert(self.bins@[b] == old(self).bins@[b]);
                        }
                    }
                }
                proof {
                    assert(self.free_lists() =~= lists.update(
                        bin as int,
                        lists[bin as int].remove(i as int),
                    ));
                    assert(lists[bin as int][i as int] == a);
                    assert(old(self).free_lists()[bin as int][i as int] == a);
                }
                return Some(a);
            }
        }
        let block = size4bin(bin);
        proof {
            assert forall|k: nat| #[trigger] size_class(need as int, k) implies k == bin by {
                lemma_size_class_unique(need as int, k, bin as nat);
            }
        }
        if self.current > usize::MAX - (align - 1) {
            return None;
        }
        let a = align_up(self.current, align);
        if a > usize::MAX - block || a + block > self.end {
            return None;
        }
        self.current = a + block;
        assert(self.free_lists() =~= lists);
        Some(a)
    }

    /// Returns the block at `addr`, allocated with `size` and `align`, to
    /// the free list of its size class.
    pub fn deallocate(&mut self, addr: usize, size: usize, align: usize)
        requires
            old(self).wf(),
            spec_power_of_two(align),
            vstd::math::max(size as int, align as int) <= usize::MAX / 2 + 1,
            vstd::math::max(size as int, align as int) <= pow2((MAX_BINS + 2) as nat),
            old(self).spec_start() <= addr,
            forall|k: nat|
                vstd::math::max(size as int, align as int) <= pow2(k + 3) && (k == 0 || pow2(k + 2)
                    < vstd::math::max(size as int, align as int)) ==> addr + #[trigger] pow2(k + 3)
                    <= old(self).spec_end(),
        ensures
            final(self).wf(),
            final(self).spec_start() == old(self).spec_start(),
            final(self).spec_end() == old(self).spec_end(),
            final(self).spec_current() == old(self).spec_current(),
            exists|b: int|
                0 <= b < MAX_BINS && final(self).free_lists() == old(self).free_lists().update(
                    b,
                    old(self).free_lists()[b].push(addr),
                ),
    {
        let need = if size > align {
            size
        } else {
            align
        };
        proof {
            vstd::arithmetic::power2::lemma2_to64();
            vstd::arithmetic::power2::lemma2_to64_rest();
        }
        let bin = map2bin(need);
        proof {
            if bin >= MAX_BINS {
                vstd::arithmetic::power2::lemma_pow2_strictly_increases(
                    (MAX_BINS + 2) as nat,
                    (bin + 2) as nat,
                );
            }
        }
        let mut list = self.bins[bin].clone();
        list.push(addr);
        self.bins.set(bin, list);
        assert(self.free_lists() =~= old(self).free_lists().update(
            bin as int,
            old(self).free_lists()[bin as int].push(addr),
        ));
    }
}

proof fn lemma_round_down(x: int, a: int)
    requires
        a > 0,
        x >= 0,
    ensures
        0 <= x % a <= x,
        x % a < a,
        (x - x % a) % a == 0,
{
    vstd::arithmetic::div_mod::lemma_fundamental_div_mod(x, a);
    vstd::arithmetic::div_mod::lemma_mod_bound(x, a);
    vstd::arithmetic::div_mod::lemma_mod_multiples_basic(x / a, a);
    vstd::arithmetic::mul::lemma_mul_is_commutative(a, x / a);
    vstd::arithmetic::div_mod::lemma_mod_pos_bound(x, a);
}

} // verus!
