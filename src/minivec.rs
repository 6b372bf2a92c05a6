//! The container: a growable sequence with a capacity that follows the
//! growth policy of the layout module and an alignment fixed at creation.

use crate::layout::{growth, next_capacity, max_align, spec_max_align};
use vstd::arithmetic::power2::is_pow2;
use vstd::prelude::*;
use vstd::std_specs::cmp::PartialEqSpec;

verus! {

/// Why a requested alignment was refused.
#[derive(Debug, PartialEq, Eq, Clone, Copy)]
pub enum LayoutErr {
    /// The alignment is below the alignment of a pointer.
    AlignmentTooSmall,
    /// The alignment is not a power of two.
    AlignmentNotPowerOfTwo,
}

/// The alignment of a pointer, below which no container is aligned.
pub open spec fn pointer_align() -> nat {
    vstd::layout::align_of::<&u8>()
}

/// The capacity that `shrink_to(min)` leaves: `min`, or the length where
/// that is larger, when `min` is below the capacity; else the capacity.
pub open spec fn shrunk_capacity(cap: nat, len: nat, min: nat) -> nat {
    if min < cap {
        max_nat(min, len)
    } else {
        cap
    }
}

/// The larger of two naturals.
pub open spec fn max_nat(a: nat, b: nat) -> nat {
    if a >= b {
        a
    } else {
        b
    }
}

/// Whether `x` is a value that some state of a producer of type `F` may
/// return.
pub open spec fn produced_by<T, F: FnMut() -> T>(x: T) -> bool {
    exists|g: F| call_ensures(g, (), x)
}

/// Whether some state of a predicate of type `F` may answer `b` for `x`.
pub open spec fn judged_by<T, F: FnMut(&T) -> bool>(x: T, b: bool) -> bool {
    exists|g: F| call_ensures(g, (&x,), b)
}

/// Whether some state of a comparison of type `F` may answer `b` for the
/// pair `(x, y)`.
pub open spec fn compared_by<T, F: FnMut(&T, &T) -> bool>(x: T, y: T, b: bool) -> bool {
    exists|g: F| call_ensures(g, (&x, &y), b)
}

/// The elements of `s` whose flag in `keep` is set, in order.
pub open spec fn filter_by<T>(s: Seq<T>, keep: Seq<bool>) -> Seq<T>
    decreases s.len(),
{
    if s.len() == 0 {
        Seq::empty()
    } else {
        let p = filter_by(s.drop_last(), keep.take(s.len() - 1));
        if keep[s.len() - 1] {
            p.push(s.last())
        } else {
            p
        }
    }
}

/// `s` with every run of consecutive equal elements collapsed to its first
/// member, each element compared with the last one kept.
pub open spec fn dedup_seq<T: PartialEq>(s: Seq<T>) -> Seq<T>
    decreases s.len(),
{
    if s.len() == 0 {
        Seq::empty()
    } else {
        let p = dedup_seq(s.drop_last());
        if p.len() > 0 && s.last().eq_spec(&p.last()) {
            p
        } else {
            p.push(s.last())
        }
    }
}

/// The capacity after `n` pushes onto a container of length `len` and
/// capacity `cap` whose elements are `elem_size` bytes each.
pub open spec fn capacity_after_pushes(len: nat, cap: nat, n: nat, elem_size: nat) -> nat
    decreases n,
{
    if n == 0 {
        cap
    } else {
        let c = capacity_after_pushes(len, cap, (n - 1) as nat, elem_size);
        if c == len + n - 1 {
            growth(c, elem_size)
        } else {
            c
        }
    }
}

/// The elements of `v` in reverse order.
fn reversed<T>(v: Vec<T>) -> (r: Vec<T>)
    ensures
        r@.len() == v@.len(),
        forall|j: int| 0 <= j < v@.len() ==> #[trigger] r@[j] == v@[v@.len() - 1 - j],
{
    let ghost orig = v@;
    let mut v = v;
    let mut r: Vec<T> = Vec::new();
    while v.len() > 0
        invariant
            r@.len() + v@.len() == orig.len(),
            v@ == orig.take(v@.len() as int),
            forall|j: int| 0 <= j < r@.len() ==> #[trigger] r@[j] == orig[orig.len() - 1 - j],
        decreases v@.len(),
    {
        match v.pop() {
            Some(x) => {
                r.push(x);
            },
            None => {},
        }
        proof {
            assert(v@ =~= orig.take(v@.len() as int));
        }
    }
    r
}

/// A growable sequence of `T`.
pub struct MiniVec<T> {
    buf: Vec<T>,
    cap: usize,
    align: usize,
}

impl<T> View for MiniVec<T> {
    type V = Seq<T>;

    closed spec fn view(&self) -> Seq<T> {
        self.buf@
    }
}

/// Tests whether `n` is a power of two.
fn is_power_of_two(n: usize) -> (r: bool)
    ensures
        r == is_pow2(n as int),
{
    proof {
        reveal(is_pow2);
    }
    if n == 0 {
        return false;
    }
    let mut m: usize = n;
    while m % 2 == 0
        invariant
            m > 0,
            is_pow2(n as int) == is_pow2(m as int),
        decreases m,
    {
        proof {
            reveal(is_pow2);
        }
        m = m / 2;
    }
    proof {
        reveal(is_pow2);
    }
    m == 1
}

impl<T> MiniVec<T> {
    /// The number of elements the container holds without growing.
    pub closed spec fn spec_capacity(&self) -> nat {
        self.cap as nat
    }

    /// The alignment of the container's element region.
    pub closed spec fn spec_alignment(&self) -> nat {
        self.align as nat
    }

    /// Length within capacity, and a power-of-two alignment no smaller than
    /// the default one.
    pub closed spec fn wf(&self) -> bool {
        &&& self.buf@.len() <= self.cap
        &&& is_pow2(self.align as int)
        &&& self.align >= spec_max_align::<T>()
    }

    /// The capacity after making room for one more element.
    pub open spec fn capacity_after_push(&self) -> nat {
        if self@.len() == self.spec_capacity() {
            growth(self.spec_capacity(), vstd::layout::size_of::<T>())
        } else {
            self.spec_capacity()
        }
    }

    /// Whether one more element can be added without the capacity
    /// overflowing `usize`.
    pub open spec fn can_push(&self) -> bool {
        self@.len() < self.spec_capacity() || 2 * self.spec_capacity() <= usize::MAX
    }

    /// An empty container with no capacity.
    pub fn new() -> (r: Self)
        ensures
            r.wf(),
            r@ == Seq::<T>::empty(),
            r.spec_capacity() == 0,
            r.spec_alignment() == spec_max_align::<T>(),
    {
        let align = max_align::<T>();
        MiniVec { buf: Vec::new(), cap: 0, align }
    }

    /// An empty container with room for `capacity` elements.
    pub fn with_capacity(capacity: usize) -> (r: Self)
        ensures
            r.wf(),
            r@ == Seq::<T>::empty(),
            r.spec_capacity() == capacity,
            r.spec_alignment() == spec_max_align::<T>(),
    {
        let align = max_align::<T>();
        MiniVec { buf: Vec::with_capacity(capacity), cap: capacity, align }
    }

    /// An empty container with room for `capacity` elements that records
    /// `alignment` (or the default alignment, where that is larger) as the
    /// alignment of its elements. The alignment must be a power of two no
    /// smaller than a pointer's. The elements live in a `Vec`, so the
    /// recorded value is a number the container keeps and reports; it does
    /// not place the elements at such an address.
    pub fn with_alignment(capacity: usize, alignment: usize) -> (r: Result<Self, LayoutErr>)
        ensures
            alignment < pointer_align() ==> r == Err::<Self, LayoutErr>(
                LayoutErr::AlignmentTooSmall,
            ),
            alignment >= pointer_align() && !is_pow2(alignment as int) ==> r == Err::<
                Self,
                LayoutErr,
            >(LayoutErr::AlignmentNotPowerOfTwo),
            alignment >= pointer_align() && is_pow2(alignment as int) ==> (r matches Ok(v) && {
                &&& v.wf()
                &&& v@ == Seq::<T>::empty()
                &&& v.spec_capacity() == capacity
                &&& v.spec_alignment() == if alignment >= spec_max_align::<T>() {
                    alignment as nat
                } else {
                    spec_max_align::<T>()
                }
                &&& v.spec_alignment() % (alignment as nat) == 0
            }),
    {
        if alignment < core::mem::align_of::<&u8>() {
            return Err(LayoutErr::AlignmentTooSmall);
        }
        if !is_power_of_two(alignment) {
            return Err(LayoutErr::AlignmentNotPowerOfTwo);
        }
        let default_align = max_align::<T>();
        let align = if alignment >= default_align {
            alignment
        } else {
            default_align
        };
        proof {
            assert(alignment as nat % alignment as nat == 0) by (nonlinear_arith)
                requires
                    alignment > 0,
            ;
            if alignment < default_align {
                lemma_pow2_divides(alignment as nat, default_align as nat);
            }
        }
        Ok(MiniVec { buf: Vec::with_capacity(capacity), cap: capacity, align })
    }

    /// The number of elements.
    pub fn len(&self) -> (r: usize)
        ensures
            r == self@.len(),
    {
        self.buf.len()
    }

    /// The number of elements the container holds without growing.
    pub fn capacity(&self) -> (r: usize)
        ensures
            r == self.spec_capacity(),
    {
        self.cap
    }

    /// The alignment recorded for the container's elements.
    pub fn alignment(&self) -> (r: usize)
        requires
            self.wf(),
        ensures
            r == self.spec_alignment(),
            is_pow2(r as int),
            r >= spec_max_align::<T>(),
    {
        self.align
    }

    /// Whether the container holds no element.
    pub fn is_empty(&self) -> (r: bool)
        ensures
            r == (self@.len() == 0),
    {
        self.buf.len() == 0
    }

    /// The elements, in order.
    pub fn as_slice(&self) -> (r: &[T])
        ensures
            r@ == self@,
    {
        self.buf.as_slice()
    }

    /// Makes room for one more element, growing by the growth policy when
    /// the container is full.
    fn grow_for_one(&mut self)
        requires
            old(self).wf(),
            old(self).can_push(),
        ensures
            final(self).wf(),
            final(self)@ == old(self)@,
            final(self).spec_capacity() == old(self).capacity_after_push(),
            final(self).spec_alignment() == old(self).spec_alignment(),
            final(self)@.len() < final(self).spec_capacity(),
    {
        if self.buf.len() == self.cap {
            let new_cap = next_capacity::<T>(self.cap);
            self.buf.reserve(new_cap - self.buf.len());
            self.cap = new_cap;
        }
    }

    /// Appends `value` at the end, growing first when the container is full.
    pub fn push(&mut self, value: T)
        requires
            old(self).wf(),
            old(self).can_push(),
        ensures
            final(self).wf(),
            final(self)@ == old(self)@.push(value),
            final(self)@.len() <= final(self).spec_capacity(),
            final(self).spec_capacity() == old(self).capacity_after_push(),
            final(self).spec_alignment() == old(self).spec_alignment(),
    {
        self.grow_for_one();
        self.buf.push(value);
    }

    /// Inserts `value` at `index`, shifting the elements from `index` on
    /// one place to the right.
    pub fn insert(&mut self, index: usize, value: T)
        requires
            old(self).wf(),
            old(self).can_push(),
            index <= old(self)@.len(),
        ensures
            final(self).wf(),
            final(self)@ == old(self)@.insert(index as int, value),
            final(self)@.len() <= final(self).spec_capacity(),
            final(self).spec_capacity() == old(self).capacity_after_push(),
            final(self).spec_alignment() == old(self).spec_alignment(),
    {
        self.grow_for_one();
        self.buf.insert(index, value);
    }

    /// Removes and returns the element at `index`, shifting the elements
    /// after it one place to the left.
    pub fn remove(&mut self, index: usize) -> (r: T)
        requires
            old(self).wf(),
            index < old(self)@.len(),
        ensures
            final(self).wf(),
            r == old(self)@[index as int],
            final(self)@ == old(self)@.remove(index as int),
            final(self).spec_capacity() == old(self).spec_capacity(),
            final(self).spec_alignment() == old(self).spec_alignment(),
    {
        self.buf.remove(index)
    }

    /// Removes and returns the element at `index`, putting the last element
    /// in its place.
    pub fn swap_remove(&mut self, index: usize) -> (r: T)
        requires
            old(self).wf(),
            index < old(self)@.len(),
        ensures
            final(self).wf(),
            r == old(self)@[index as int],
            final(self)@ == old(self)@.update(index as int, old(self)@.last()).drop_last(),
            final(self).spec_capacity() == old(self).spec_capacity(),
            final(self).spec_alignment() == old(self).spec_alignment(),
    {
        self.buf.swap_remove(index)
    }

    /// Keeps the first `len` elements and drops the rest; does nothing when
    /// `len` is not below the length.
    pub fn truncate(&mut self, len: usize)
        requires
            old(self).wf(),
        ensures
            final(self).wf(),
            final(self)@ == if len < old(self)@.len() {
                old(self)@.subrange(0, len as int)
            } else {
                old(self)@
            },
            final(self).spec_capacity() == old(self).spec_capacity(),
            final(self).spec_alignment() == old(self).spec_alignment(),
    {
        self.buf.truncate(len);
    }

    /// Moves the elements from `at` on into a new container, which has
    /// exactly the room for them and the default alignment.
    pub fn split_off(&mut self, at: usize) -> (r: Self)
        requires
            old(self).wf(),
            at <= old(self)@.len(),
        ensures
            final(self).wf(),
            r.wf(),
            final(self)@ == old(self)@.subrange(0, at as int),
            r@ == old(self)@.subrange(at as int, old(self)@.len() as int),
            final(self).spec_capacity() == old(self).spec_capacity(),
            final(self).spec_alignment() == old(self).spec_alignment(),
            r.spec_capacity() == old(self)@.len() - at,
            r.spec_alignment() == spec_max_align::<T>(),
    {
        let tail = self.buf.split_off(at);
        let cap = tail.len();
        let align = max_align::<T>();
        MiniVec { buf: tail, cap, align }
    }

    /// Lowers the recorded capacity to `min_capacity` when that is below it;
    /// the target may not be below the length. Only the recorded capacity
    /// changes: no memory is handed back.
    pub fn shrink_to(&mut self, min_capacity: usize)
        requires
            old(self).wf(),
            min_capacity >= old(self)@.len(),
        ensures
            final(self).wf(),
            final(self)@ == old(self)@,
            final(self).spec_capacity() == shrunk_capacity(
                old(self).spec_capacity(),
                old(self)@.len(),
                min_capacity as nat,
            ),
            final(self).spec_alignment() == old(self).spec_alignment(),
    {
        if min_capacity < self.cap {
            let len = self.buf.len();
            self.cap = if min_capacity > len {
                min_capacity
            } else {
                len
            };
        }
    }

    /// Removes the elements of `range` and returns them in order; the
    /// elements after the range close the gap.
    pub fn drain(&mut self, range: core::ops::Range<usize>) -> (r: Vec<T>)
        requires
            old(self).wf(),
            range.start <= range.end <= old(self)@.len(),
        ensures
            final(self).wf(),
            r@ == old(self)@.subrange(range.start as int, range.end as int),
            final(self)@ == old(self)@.subrange(0, range.start as int) + old(self)@.subrange(
                range.end as int,
                old(self)@.len() as int,
            ),
            final(self).spec_capacity() == old(self).spec_capacity(),
            final(self).spec_alignment() == old(self).spec_alignment(),
    {
        let mut tail = self.buf.split_off(range.end);
        let removed = self.buf.split_off(range.start);
        self.buf.append(&mut tail);
        removed
    }

    /// Replaces the elements of `range` by those of `replacement` and
    /// returns the removed ones in order; the capacity grows to the new
    /// length where it is short of it.
    pub fn splice(&mut self, range: core::ops::Range<usize>, replacement: Vec<T>) -> (r: Vec<T>)
        requires
            old(self).wf(),
            range.start <= range.end <= old(self)@.len(),
            old(self)@.len() - (range.end - range.start) + replacement@.len() <= usize::MAX,
        ensures
            final(self).wf(),
            r@ == old(self)@.subrange(range.start as int, range.end as int),
            final(self)@ == old(self)@.subrange(0, range.start as int) + replacement@
                + old(self)@.subrange(range.end as int, old(self)@.len() as int),
            final(self).spec_capacity() == max_nat(old(self).spec_capacity(), final(self)@.len()),
            final(self).spec_alignment() == old(self).spec_alignment(),
    {
        let mut tail = self.buf.split_off(range.end);
        let removed = self.buf.split_off(range.start);
        let mut replacement = replacement;
        self.buf.append(&mut replacement);
        self.buf.append(&mut tail);
        let len = self.buf.len();
        if len > self.cap {
            self.cap = len;
        }
        removed
    }

    /// Hands out the elements, the length and the capacity.
    pub fn into_raw_parts(self) -> (r: (Vec<T>, usize, usize))
        requires
            self.wf(),
        ensures
            r.0@ == self@,
            r.1 == self@.len(),
            r.2 == self.spec_capacity(),
            r.1 <= r.2,
    {
        let len = self.buf.len();
        (self.buf, len, self.cap)
    }

    /// Rebuilds a container from the parts that `into_raw_parts` handed out
    /// and the alignment that `alignment` reported: `len` must be the number
    /// of elements, `cap` at least that, and `alignment` a power of two no
    /// smaller than the default alignment.
    pub fn from_raw_parts(buf: Vec<T>, len: usize, cap: usize, alignment: usize) -> (r: Self)
        requires
            buf@.len() == len,
            len <= cap,
            is_pow2(alignment as int),
            alignment >= spec_max_align::<T>(),
        ensures
            r.wf(),
            r@ == buf@,
            r.spec_capacity() == cap,
            r.spec_alignment() == alignment,
    {
        MiniVec { buf, cap, align: alignment }
    }

    /// The capacity after making room for `n` more elements: exactly the
    /// new length where the current capacity is short of it.
    pub open spec fn capacity_for(&self, n: nat) -> nat {
        max_nat(self.spec_capacity(), self@.len() + n)
    }

    /// Makes room for `n` more elements, raising the capacity to exactly the
    /// length needed when it is short.
    fn reserve_exact_for(&mut self, n: usize)
        requires
            old(self).wf(),
            old(self)@.len() + n <= usize::MAX,
        ensures
            final(self).wf(),
            final(self)@ == old(self)@,
            final(self).spec_capacity() == old(self).capacity_for(n as nat),
            final(self).spec_alignment() == old(self).spec_alignment(),
    {
        let needed = self.buf.len() + n;
        if needed > self.cap {
            self.buf.reserve(needed - self.buf.len());
            self.cap = needed;
        }
    }

    /// Appends clones of the elements of `other`, growing to exactly the
    /// length needed.
    pub fn extend_from_slice(&mut self, other: &[T])
        where
            T: Clone,
        requires
            old(self).wf(),
            old(self)@.len() + other@.len() <= usize::MAX,
        ensures
            final(self).wf(),
            final(self)@.len() == old(self)@.len() + other@.len(),
            final(self)@.subrange(0, old(self)@.len() as int) == old(self)@,
            forall|i: int|
                0 <= i < other@.len() ==> cloned::<T>(
                    other@[i],
                    #[trigger] final(self)@[old(self)@.len() + i],
                ),
            final(self).spec_capacity() == old(self).capacity_for(other@.len()),
            final(self).spec_alignment() == old(self).spec_alignment(),
    {
        self.reserve_exact_for(other.len());
        let ghost before = self.buf@;
        self.buf.extend_from_slice(other);
        proof {
            assert(self.buf@.subrange(0, before.len() as int) =~= before);
        }
    }

    /// Sets the length to `new_len`: appends clones of `value` when it is
    /// larger, growing to exactly that length, and truncates otherwise.
    pub fn resize(&mut self, new_len: usize, value: T)
        where
            T: Clone,
        requires
            old(self).wf(),
        ensures
            final(self).wf(),
            final(self)@.len() == new_len,
            new_len <= old(self)@.len() ==> final(self)@ == old(self)@.subrange(0, new_len as int),
            new_len > old(self)@.len() ==> final(self)@.subrange(0, old(self)@.len() as int)
                == old(self)@,
            forall|i: int|
                old(self)@.len() <= i < new_len ==> cloned::<T>(value, #[trigger] final(self)@[i]),
            final(self).spec_capacity() == max_nat(old(self).spec_capacity(), new_len as nat),
            final(self).spec_alignment() == old(self).spec_alignment(),
    {
        let len = self.buf.len();
        if new_len > len {
            self.reserve_exact_for(new_len - len);
        }
        self.buf.resize(new_len, value);
    }

    /// Sets the length to `new_len`: appends the results of successive calls
    /// of `f` when it is larger, growing to exactly that length, and
    /// truncates otherwise.
    pub fn resize_with<F: FnMut() -> T>(&mut self, new_len: usize, f: F)
        requires
            old(self).wf(),
            forall|g: F| call_requires(g, ()),
        ensures
            final(self).wf(),
            final(self)@.len() == new_len,
            new_len <= old(self)@.len() ==> final(self)@ == old(self)@.subrange(0, new_len as int),
            new_len > old(self)@.len() ==> final(self)@.subrange(0, old(self)@.len() as int)
                == old(self)@,
            forall|i: int|
                old(self)@.len() <= i < new_len ==> produced_by::<T, F>(
                    #[trigger] final(self)@[i],
                ),
            final(self).spec_capacity() == max_nat(old(self).spec_capacity(), new_len as nat),
            final(self).spec_alignment() == old(self).spec_alignment(),
    {
        let len = self.buf.len();
        if new_len <= len {
            self.buf.truncate(new_len);
            return;
        }
        self.reserve_exact_for(new_len - len);
        let mut f = f;
        while self.buf.len() < new_len
            invariant
                self.wf(),
                len <= self.buf@.len() <= new_len,
                self.buf@.subrange(0, len as int) == old(self)@,
                forall|i: int|
                    len <= i < self.buf@.len() ==> produced_by::<T, F>(
                        #[trigger] self.buf@[i],
                    ),
                forall|g: F| call_requires(g, ()),
                self.cap == max_nat(old(self).spec_capacity(), new_len as nat),
                self.align == old(self).align,
            decreases new_len - self.buf@.len(),
        {
            let ghost g0 = f;
            let x = f();
            let ghost before = self.buf@;
            self.buf.push(x);
            proof {
                assert(call_ensures(g0, (), x));
                assert(self.buf@.subrange(0, len as int) =~= before.subrange(0, len as int));
                assert forall|i: int| len <= i < self.buf@.len() implies produced_by::<T, F>(
                    #[trigger] self.buf@[i],
                ) by {
                    if i < before.len() {
                        assert(self.buf@[i] == before[i]);
                    } else {
                        assert(call_ensures(g0, (), self.buf@[i]));
                    }
                }
            }
        }
    }

    /// Keeps the elements for which `f` answers `true`, in order; `f` is
    /// asked once for each element, front to back.
    pub fn retain<F: FnMut(&T) -> bool>(&mut self, f: F)
        requires
            old(self).wf(),
            forall|g: F, x: &T| call_requires(g, (x,)),
        ensures
            final(self).wf(),
            exists|keep: Seq<bool>|
                {
                    &&& keep.len() == old(self)@.len()
                    &&& forall|i: int|
                        0 <= i < keep.len() ==> judged_by::<T, F>(old(self)@[i], #[trigger] keep[i])
                    &&& final(self)@ == filter_by(old(self)@, keep)
                },
            final(self).spec_capacity() == old(self).spec_capacity(),
            final(self).spec_alignment() == old(self).spec_alignment(),
    {
        let ghost orig = self.buf@;
        let n = self.buf.len();
        let mut items: Vec<T> = Vec::new();
        core::mem::swap(&mut self.buf, &mut items);
        let mut rest = reversed(items);
        let mut f = f;
        let ghost mut keep: Seq<bool> = Seq::empty();
        let mut i: usize = 0;
        while rest.len() > 0
            invariant
                n == orig.len(),
                self.cap == old(self).cap,
                self.align == old(self).align,
                n <= self.cap,
                rest@.len() == n - i,
                forall|j: int| 0 <= j < rest@.len() ==> #[trigger] rest@[j] == orig[n - 1 - j],
                keep.len() == i,
                forall|j: int| 0 <= j < i ==> judged_by::<T, F>(orig[j], #[trigger] keep[j]),
                self.buf@ == filter_by(orig.take(i as int), keep),
                self.buf@.len() <= i,
                forall|g: F, x: &T| call_requires(g, (x,)),
            decreases rest@.len(),
        {
            let x = match rest.pop() {
                Some(x) => x,
                None => {
                    return;
                },
            };
            assert(x == orig[i as int]);
            let ghost g0 = f;
            let b = f(&x);
            proof {
                assert(call_ensures(g0, (&x,), b));
                assert(judged_by::<T, F>(orig[i as int], b));
                let k2 = keep.push(b);
                assert(orig.take(i + 1).drop_last() =~= orig.take(i as int));
                assert(k2.take(i as int) =~= keep);
                keep = k2;
            }
            if b {
                self.buf.push(x);
            }
            i = i + 1;
        }
        proof {
            assert(orig.take(n as int) =~= orig);
        }
    }

    /// Drops every element that `same` reports equal to the last element
    /// kept before it, so that runs of such elements collapse to their first
    /// member; `same` is asked once for each element after the first, front to
    /// back, with that element and the last one kept.
    pub fn dedup_by<F: FnMut(&T, &T) -> bool>(&mut self, same: F)
        requires
            old(self).wf(),
            forall|g: F, x: &T, y: &T| call_requires(g, (x, y)),
        ensures
            final(self).wf(),
            exists|keep: Seq<bool>|
                {
                    &&& keep.len() == old(self)@.len()
                    &&& keep.len() > 0 ==> keep[0]
                    &&& forall|i: int|
                        0 < i < keep.len() ==> compared_by::<T, F>(
                            old(self)@[i],
                            filter_by(old(self)@.take(i), keep.take(i)).last(),
                            !#[trigger] keep[i],
                        )
                    &&& final(self)@ == filter_by(old(self)@, keep)
                },
            final(self).spec_capacity() == old(self).spec_capacity(),
            final(self).spec_alignment() == old(self).spec_alignment(),
    {
        let ghost orig = self.buf@;
        let n = self.buf.len();
        let mut items: Vec<T> = Vec::new();
        core::mem::swap(&mut self.buf, &mut items);
        let mut rest = reversed(items);
        let mut same = same;
        let ghost mut keep: Seq<bool> = Seq::empty();
        let mut i: usize = 0;
        while rest.len() > 0
            invariant
                n == orig.len(),
                self.cap == old(self).cap,
                self.align == old(self).align,
                n <= self.cap,
                rest@.len() == n - i,
                forall|j: int| 0 <= j < rest@.len() ==> #[trigger] rest@[j] == orig[n - 1 - j],
                keep.len() == i,
                i > 0 ==> keep[0],
                forall|j: int|
                    0 < j < i ==> compared_by::<T, F>(
                        orig[j],
                        filter_by(orig.take(j), keep.take(j)).last(),
                        !#[trigger] keep[j],
                    ),
                self.buf@ == filter_by(orig.take(i as int), keep),
                self.buf@.len() <= i,
                i > 0 ==> self.buf@.len() > 0,
                forall|g: F, x: &T, y: &T| call_requires(g, (x, y)),
            decreases rest@.len(),
        {
            let x = match rest.pop() {
                Some(x) => x,
                None => {
                    return;
                },
            };
            assert(x == orig[i as int]);
            let len = self.buf.len();
            let b = if len == 0 {
                true
            } else {
                let last = &self.buf[len - 1];
                let ghost g0 = same;
                let r = same(&x, last);
                proof {
                    assert(call_ensures(g0, (&x, last), r));
                    assert(keep.take(i as int) =~= keep);
                    assert(compared_by::<T, F>(
                        orig[i as int],
                        filter_by(orig.take(i as int), keep.take(i as int)).last(),
                        r,
                    ));
                }
                !r
            };
            proof {
                let k2 = keep.push(b);
                assert(orig.take(i + 1).drop_last() =~= orig.take(i as int));
                assert(k2.take(i as int) =~= keep);
                assert forall|j: int| 0 <= j <= i implies #[trigger] k2.take(j) =~= keep.take(j) by {}
                keep = k2;
            }
            if b {
                self.buf.push(x);
            }
            i = i + 1;
        }
        proof {
            assert(orig.take(n as int) =~= orig);
        }
    }

    /// Collapses every run of consecutive equal elements to its first
    /// member, each element compared with the last one kept.
    pub fn dedup(&mut self)
        where
            T: PartialEq,
        requires
            old(self).wf(),
        ensures
            final(self).wf(),
            T::obeys_eq_spec() ==> final(self)@ == dedup_seq(old(self)@),
            final(self)@.len() <= old(self)@.len(),
            final(self).spec_capacity() == old(self).spec_capacity(),
            final(self).spec_alignment() == old(self).spec_alignment(),
    {
        let ghost orig = self.buf@;
        let n = self.buf.len();
        let mut items: Vec<T> = Vec::new();
        core::mem::swap(&mut self.buf, &mut items);
        let mut rest = reversed(items);
        let mut i: usize = 0;
        while rest.len() > 0
            invariant
                n == orig.len(),
                self.cap == old(self).cap,
                self.align == old(self).align,
                n <= self.cap,
                rest@.len() == n - i,
                forall|j: int| 0 <= j < rest@.len() ==> #[trigger] rest@[j] == orig[n - 1 - j],
                T::obeys_eq_spec() ==> self.buf@ == dedup_seq(orig.take(i as int)),
                self.buf@.len() <= i,
            decreases rest@.len(),
        {
            let x = match rest.pop() {
                Some(x) => x,
                None => {
                    return;
                },
            };
            assert(x == orig[i as int]);
            let len = self.buf.len();
            let dup = if len == 0 {
                false
            } else {
                x.eq(&self.buf[len - 1])
            };
            proof {
                assert(orig.take(i + 1).drop_last() =~= orig.take(i as int));
            }
            if !dup {
                self.buf.push(x);
            }
            i = i + 1;
        }
        proof {
            assert(orig.take(n as int) =~= orig);
        }
    }

    /// Appends the elements of `items` in order, pushing them one by one,
    /// so that the capacity grows by the growth policy as needed.
    pub fn extend(&mut self, items: Vec<T>)
        requires
            old(self).wf(),
            2 * (old(self)@.len() + items@.len()) <= usize::MAX,
        ensures
            final(self).wf(),
            final(self)@ == old(self)@ + items@,
            final(self).spec_capacity() == capacity_after_pushes(
                old(self)@.len(),
                old(self).spec_capacity(),
                items@.len(),
                vstd::layout::size_of::<T>(),
            ),
            final(self).spec_alignment() == old(self).spec_alignment(),
    {
        let ghost orig = items@;
        let ghost start = self.buf@;
        let n = items.len();
        let mut rest = reversed(items);
        let mut i: usize = 0;
        while rest.len() > 0
            invariant
                n == orig.len(),
                2 * (start.len() + n) <= usize::MAX,
                start.len() <= old(self).spec_capacity(),
                rest@.len() == n - i,
                forall|j: int| 0 <= j < rest@.len() ==> #[trigger] rest@[j] == orig[n - 1 - j],
                self.wf(),
                self@ == start + orig.take(i as int),
                self.spec_capacity() == capacity_after_pushes(
                    start.len(),
                    old(self).spec_capacity(),
                    i as nat,
                    vstd::layout::size_of::<T>(),
                ),
                self.spec_alignment() == old(self).spec_alignment(),
            decreases rest@.len(),
        {
            let x = match rest.pop() {
                Some(x) => x,
                None => {
                    return;
                },
            };
            proof {
                lemma_pushes_capacity_bounds(
                    start.len(),
                    old(self).spec_capacity(),
                    i as nat,
                    vstd::layout::size_of::<T>(),
                );
            }
            self.push(x);
            proof {
                assert(self@ =~= start + orig.take(i + 1));
            }
            i = i + 1;
        }
        proof {
            assert(orig.take(n as int) =~= orig);
        }
    }

    /// A container holding the elements of `items` in order, built by
    /// pushing them one by one onto an empty container.
    pub fn from_iter(items: Vec<T>) -> (r: Self)
        requires
            2 * items@.len() <= usize::MAX,
        ensures
            r.wf(),
            r@ == items@,
            r.spec_capacity() == capacity_after_pushes(
                0,
                0,
                items@.len(),
                vstd::layout::size_of::<T>(),
            ),
            r.spec_alignment() == spec_max_align::<T>(),
    {
        let ghost orig = items@;
        let mut v: MiniVec<T> = MiniVec::new();
        v.extend(items);
        proof {
            assert(v@ =~= orig);
        }
        v
    }

    /// Removes and returns the last element, or `None` when empty.
    pub fn pop(&mut self) -> (r: Option<T>)
        requires
            old(self).wf(),
        ensures
            final(self).wf(),
            final(self).spec_capacity() == old(self).spec_capacity(),
            final(self).spec_alignment() == old(self).spec_alignment(),
            old(self)@.len() == 0 ==> r is None && final(self)@ == old(self)@,
            old(self)@.len() > 0 ==> r == Some(old(self)@.last()) && final(self)@
                == old(self)@.drop_last(),
    {
        self.buf.pop()
    }
}

impl<T> Default for MiniVec<T> {
    /// An empty container with no capacity.
    fn default() -> (r: Self)
        ensures
            r.wf(),
            r@ == Seq::<T>::empty(),
            r.spec_capacity() == 0,
            r.spec_alignment() == spec_max_align::<T>(),
    {
        MiniVec::new()
    }
}

/// What a well-formed container keeps: its length within its capacity, and
/// a power-of-two alignment no smaller than the default one.
pub proof fn lemma_wf_facts<T>(v: MiniVec<T>)
    requires
        v.wf(),
    ensures
        v@.len() <= v.spec_capacity(),
        is_pow2(v.spec_alignment() as int),
        v.spec_alignment() >= spec_max_align::<T>(),
{
}

/// Handing out a container's parts and rebuilding it from them with its
/// alignment gives back the same elements, length, capacity and alignment;
/// the parts handed out meet what the rebuilding asks of them.
pub proof fn lemma_raw_parts_round_trip<T>(
    v: MiniVec<T>,
    parts: (Vec<T>, usize, usize),
    alignment: usize,
    r: MiniVec<T>,
)
    requires
        v.wf(),
        parts.0@ == v@,
        parts.1 == v@.len(),
        parts.2 == v.spec_capacity(),
        alignment == v.spec_alignment(),
        r@ == parts.0@,
        r.spec_capacity() == parts.2,
        r.spec_alignment() == alignment,
    ensures
        parts.0@.len() == parts.1 && parts.1 <= parts.2,
        is_pow2(alignment as int) && alignment >= spec_max_align::<T>(),
        r@ == v@,
        r@.len() == v@.len(),
        r.spec_capacity() == v.spec_capacity(),
        r.spec_alignment() == v.spec_alignment(),
{
}

/// Shrinking to a target no smaller than the length a second time leaves
/// the capacity as the first time left it.
pub proof fn lemma_shrink_to_twice(cap: nat, len: nat, min: nat)
    requires
        len <= cap,
        len <= min,
    ensures
        shrunk_capacity(shrunk_capacity(cap, len, min), len, min) == shrunk_capacity(cap, len, min),
        len <= shrunk_capacity(cap, len, min),
{
}

/// Removing at `i` right after inserting `v` at `i` restores the sequence,
/// and the removed element is `v`.
pub proof fn lemma_remove_after_insert<T>(s: Seq<T>, i: int, v: T)
    requires
        0 <= i <= s.len(),
    ensures
        s.insert(i, v).remove(i) == s,
        s.insert(i, v)[i] == v,
{
    assert(s.insert(i, v).remove(i) =~= s);
}

/// Every growth from a non-zero capacity doubles it, and the first growth
/// from zero is eight for one-byte elements, four for other elements of up
/// to 1024 bytes (zero-sized ones included), and one otherwise.
pub proof fn lemma_growth_policy(cap: nat, elem_size: nat)
    ensures
        cap > 0 ==> growth(cap, elem_size) == 2 * cap,
        cap == 0 && elem_size == 1 ==> growth(cap, elem_size) == 8,
        cap == 0 && elem_size != 1 && elem_size <= 1024 ==> growth(cap, elem_size) == 4,
        cap == 0 && elem_size > 1024 ==> growth(cap, elem_size) == 1,
        growth(cap, elem_size) > cap,
{
}

/// Over any sequence of pushes the length stays within the capacity, and
/// the capacity stays below eight or twice the length, where it was not
/// already above both.
pub proof fn lemma_pushes_capacity_bounds(len: nat, cap: nat, n: nat, elem_size: nat)
    requires
        len <= cap,
    ensures
        len + n <= capacity_after_pushes(len, cap, n, elem_size),
        capacity_after_pushes(len, cap, n, elem_size) <= max_nat(cap, max_nat(8, 2 * (len + n))),
    decreases n,
{
    if n > 0 {
        lemma_pushes_capacity_bounds(len, cap, (n - 1) as nat, elem_size);
    }
}

/// A power of two divides every larger power of two.
pub proof fn lemma_pow2_divides(a: nat, b: nat)
    requires
        is_pow2(a as int),
        is_pow2(b as int),
        a <= b,
    ensures
        b % a == 0,
    decreases a,
{
    reveal(is_pow2);
    if a != 1 {
        lemma_pow2_divides(a / 2, b / 2);
        let (ha, hb) = (a / 2, b / 2);
        assert(b % a == 0) by (nonlinear_arith)
            requires
                hb % ha == 0,
                b == 2 * hb,
                a == 2 * ha,
                ha > 0,
        {
            assert(hb == ha * (hb / ha));
            assert(b == a * (hb / ha));
        }
    }
}

} // verus!
