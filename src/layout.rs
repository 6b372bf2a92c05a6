//! Layout arithmetic: rounding to an alignment, the growth policy, and the
//! size of the single region that holds a header and its elements.

use vstd::arithmetic::power2::is_pow2;
use vstd::layout::valid_layout;
use vstd::prelude::*;

verus! {

/// The bookkeeping placed in front of a container's elements.
pub struct Header {
    pub len: usize,
    pub cap: usize,
}

/// A memory request: a size in bytes and a power-of-two alignment.
pub struct Layout {
    pub size: usize,
    pub align: usize,
}

impl Layout {
    /// The number of bytes requested.
    pub fn size(&self) -> (r: usize)
        ensures
            r == self.size,
    {
        self.size
    }

    /// The alignment requested.
    pub fn align(&self) -> (r: usize)
        ensures
            r == self.align,
    {
        self.align
    }
}

/// The smallest multiple of `a` that is at least `n`.
pub open spec fn align_up(n: nat, a: nat) -> nat
    recommends
        a > 0,
{
    if n % a == 0 {
        n
    } else {
        (n + (a - n % a)) as nat
    }
}

/// The capacity a container grows to from `cap` when its elements are
/// `elem_size` bytes each.
pub open spec fn growth(cap: nat, elem_size: nat) -> nat {
    if cap == 0 {
        if elem_size == 1 {
            8
        } else if elem_size <= 1024 {
            4
        } else {
            1
        }
    } else {
        2 * cap
    }
}

/// The number of bytes of one region that holds a header of `header_size`
/// bytes followed by `cap` elements of `elem_size` bytes, each part rounded
/// up to `a`.
pub open spec fn region_size(cap: nat, elem_size: nat, header_size: nat, a: nat) -> nat {
    if cap == 0 {
        align_up(header_size, a)
    } else {
        align_up(header_size, a) + align_up(cap * elem_size, a)
    }
}

/// The alignment that a container of `T` uses by default.
pub open spec fn spec_max_align<T>() -> nat {
    let t = vstd::layout::align_of::<T>();
    let h = vstd::layout::align_of::<Header>();
    if t >= h {
        t
    } else {
        h
    }
}

proof fn lemma_align_up(n: nat, a: nat)
    requires
        a > 0,
    ensures
        align_up(n, a) >= n,
        align_up(n, a) < n + a,
        align_up(n, a) % a == 0,
{
    if n % a != 0 {
        assert((n + (a - n % a)) as int % a as int == 0) by (nonlinear_arith)
            requires
                a > 0,
                n % a != 0,
        {
            assert(n == a * (n / a) + n % a);
            assert(n + (a - n % a) == a * (n / a + 1));
        }
    }
}

/// Rounds `n` up to the next multiple of `alignment`.
pub fn next_aligned(n: usize, alignment: usize) -> (r: usize)
    requires
        alignment > 0,
        align_up(n as nat, alignment as nat) <= usize::MAX,
    ensures
        r == align_up(n as nat, alignment as nat),
        r >= n,
        r < n + alignment,
        r % alignment == 0,
{
    proof {
        lemma_align_up(n as nat, alignment as nat);
    }
    let remaining = n % alignment;
    if remaining == 0 {
        n
    } else {
        n + (alignment - remaining)
    }
}

/// The capacity to grow to from `capacity`: a seed chosen by the element
/// size when empty, twice the capacity otherwise.
pub fn next_capacity<T>(capacity: usize) -> (r: usize)
    requires
        2 * capacity <= usize::MAX,
    ensures
        r == growth(capacity as nat, vstd::layout::size_of::<T>()),
        r > capacity,
{
    let elem_size = core::mem::size_of::<T>();
    if capacity == 0 {
        if elem_size == 1 {
            return 8;
        } else if elem_size <= 1024 {
            return 4;
        } else {
            return 1;
        }
    }
    2 * capacity
}

/// The larger of the alignments of `T` and of `Header`.
pub fn max_align<T>() -> (r: usize)
    ensures
        r == spec_max_align::<T>(),
        r >= vstd::layout::align_of::<T>(),
        r >= vstd::layout::align_of::<Header>(),
        is_pow2(r as int),
{
    vstd::layout::layout_for_type_is_valid::<T>();
    vstd::layout::layout_for_type_is_valid::<Header>();
    let align_t = core::mem::align_of::<T>();
    let header_align = core::mem::align_of::<Header>();
    if align_t >= header_align {
        align_t
    } else {
        header_align
    }
}

/// The size of the region holding a header and `cap` elements of `T`,
/// aligned to `a`.
pub open spec fn layout_size<T>(cap: nat, a: nat) -> nat {
    region_size(cap, vstd::layout::size_of::<T>(), vstd::layout::size_of::<Header>(), a)
}

/// The layout of one region holding a header and `capacity` elements of `T`,
/// aligned to `alignment`.
pub fn make_layout<T>(capacity: usize, alignment: usize) -> (r: Layout)
    requires
        is_pow2(alignment as int),
        layout_size::<T>(capacity as nat, alignment as nat) <= isize::MAX as int - (isize::MAX as int
            % alignment as int),
    ensures
        r.size == layout_size::<T>(capacity as nat, alignment as nat),
        r.align == alignment,
        valid_layout(r.size, r.align),
{
    proof {
        lemma_pow2_pos(alignment);
    }
    let header_size = core::mem::size_of::<Header>();
    proof {
        lemma_align_up(header_size as nat, alignment as nat);
    }
    let num_bytes = if capacity == 0 {
        next_aligned(header_size, alignment)
    } else {
        let elem_size = core::mem::size_of::<T>();
        proof {
            lemma_align_up((capacity * elem_size) as nat, alignment as nat);
            assert(capacity * elem_size <= align_up((capacity * elem_size) as nat, alignment as nat));
        }
        let elems = capacity * elem_size;
        next_aligned(header_size, alignment) + next_aligned(elems, alignment)
    };
    Layout { size: num_bytes, align: alignment }
}

proof fn lemma_pow2_pos(a: usize)
    requires
        is_pow2(a as int),
    ensures
        a > 0,
{
    reveal(is_pow2);
}

} // verus!
