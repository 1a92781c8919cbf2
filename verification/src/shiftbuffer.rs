//! Operate on the tail of a data stream that is managed using a buffer of
//! limited size.
//!
//! A [ShiftBuffer] enables pointer arithmetics on data that is occasionally
//! 'shifted'; i.e. the data is being moved to the beginning of the buffer to
//! retain its size while allowing for further data to be read into the buffer.
//! To that end, [ShiftBuffer] maintains a sliding window which can be extended
//! (the upper end moves up) or shrunk (the lower end moves up). To access the
//! data within the window, the buffer can be indexed using a [Pointer].
//!
//! A pointer keeps its position within the data stream as a whole. That
//! position is called 'absolute' and it is revealed by [Pointer::abs]. The
//! buffer maps it to an index of its backing store on every access,
//! so a pointer stays meaningful across shifts and growth for as long as it
//! lies inside the window.
//!
//! ```text
//! before:
//!         |<----------- buffer ----------->|
//!         |     |<----- window ----->|
//!                           ^
//!                           |
//! ~~ data stream ~~~~~~~~[cursor]~~~~~
//! after:                    |
//!                           v
//!               |<----------- buffer ----------->|
//!               |<----- window ----->|<- free -->|
//! ```
//!
//! The mathematical model of a buffer is a [ShiftBufferView]: the backing
//! store as a sequence together with the three absolute positions `offset`,
//! `lower` and `upper`. Every contract in this module is stated over it.

use std::ops::Add;
use std::ops::AddAssign;
use std::ops::Index;
use std::ops::IndexMut;
use std::ops::Range;
use std::ops::Sub;
use std::ops::SubAssign;
use vstd::prelude::*;
use vstd::std_specs::ops::AddSpecImpl;
use vstd::std_specs::ops::SubSpecImpl;

verus! {

/// An absolute position in the byte stream that passes through a
/// [ShiftBuffer]. Its view is that position as a natural number.
#[derive(PartialEq, Eq, Structural, PartialOrd, Ord, Debug, Clone, Copy)]
pub struct Pointer(usize);

impl View for Pointer {
    type V = nat;

    closed spec fn view(&self) -> nat {
        self.0 as nat
    }
}

impl Pointer {
    /// The pointer whose absolute position is `n`.
    pub closed spec fn at(n: nat) -> Pointer {
        Pointer(n as usize)
    }

    /// The pointer returns the _absolute_ position in the byte stream that was
    /// consumed using the shift buffer.
    pub fn abs(&self) -> (r: usize)
        ensures
            r == self@,
    {
        self.0
    }

    /// A pointer is nothing but its position: positions fit the machine
    /// word, equal positions mean equal pointers, and `at` inverts the view.
    pub broadcast proof fn lemma_position(self)
        ensures
            #![trigger self@]
            self@ <= usize::MAX,
            Pointer::at(self@) == self,
    {
    }

    /// The view inverts `at` on every position that fits the machine word.
    pub broadcast proof fn lemma_at(n: nat)
        requires
            n <= usize::MAX,
        ensures
            #[trigger] Pointer::at(n)@ == n,
    {
    }
}

impl Default for Pointer {
    fn default() -> (r: Pointer)
        ensures
            r@ == 0,
    {
        Pointer(0)
    }
}

impl AddSpecImpl<usize> for Pointer {
    open spec fn obeys_add_spec() -> bool {
        true
    }

    open spec fn add_req(self, rhs: usize) -> bool {
        self@ + rhs <= usize::MAX
    }

    open spec fn add_spec(self, rhs: usize) -> Pointer {
        Pointer::at(self@ + rhs as nat)
    }
}

impl Add<usize> for Pointer {
    type Output = Pointer;

    fn add(self, rhs: usize) -> (r: Pointer)
        ensures
            r@ == self@ + rhs,
    {
        Pointer(self.0 + rhs)
    }
}

impl AddAssign<usize> for Pointer {
    fn add_assign(&mut self, rhs: usize)
        requires
            old(self)@ + rhs <= usize::MAX,
        ensures
            final(self)@ == old(self)@ + rhs,
    {
        self.0 = self.0 + rhs;
    }
}

impl SubSpecImpl<usize> for Pointer {
    open spec fn obeys_sub_spec() -> bool {
        true
    }

    open spec fn sub_req(self, rhs: usize) -> bool {
        rhs <= self@
    }

    open spec fn sub_spec(self, rhs: usize) -> Pointer {
        Pointer::at((self@ - rhs) as nat)
    }
}

impl Sub<usize> for Pointer {
    type Output = Pointer;

    fn sub(self, rhs: usize) -> (r: Pointer)
        ensures
            r@ == self@ - rhs,
    {
        Pointer(self.0 - rhs)
    }
}

impl SubAssign<usize> for Pointer {
    fn sub_assign(&mut self, rhs: usize)
        requires
            rhs <= old(self)@,
        ensures
            final(self)@ == old(self)@ - rhs,
    {
        self.0 = self.0 - rhs;
    }
}

impl SubSpecImpl<Pointer> for Pointer {
    open spec fn obeys_sub_spec() -> bool {
        true
    }

    open spec fn sub_req(self, rhs: Pointer) -> bool {
        rhs@ <= self@
    }

    open spec fn sub_spec(self, rhs: Pointer) -> usize {
        (self@ - rhs@) as usize
    }
}

impl Sub<Pointer> for Pointer {
    type Output = usize;

    fn sub(self, rhs: Pointer) -> (r: usize)
        ensures
            r == self@ - rhs@,
    {
        self.0 - rhs.0
    }
}

/// What a [ShiftBuffer] is, mathematically: the backing store and the three
/// absolute positions. `offset` is the position that index 0 of the store
/// stands for; `lower` and `upper` bound the window.
pub struct ShiftBufferView<T> {
    pub store: Seq<T>,
    pub offset: nat,
    pub lower: nat,
    pub upper: nat,
}

impl<T> ShiftBufferView<T> {
    /// The invariant of a buffer: `offset <= lower <= upper <= offset + C`,
    /// and every position fits the machine word.
    pub open spec fn wf(self) -> bool {
        &&& self.offset <= self.lower
        &&& self.lower <= self.upper
        &&& self.upper <= self.offset + self.store.len()
        &&& self.upper <= usize::MAX
    }

    /// The size `C` of the backing store.
    pub open spec fn capacity(self) -> nat {
        self.store.len()
    }

    /// The index in the backing store that the absolute position `p` maps to.
    pub open spec fn rel(self, p: nat) -> int {
        p - self.offset
    }

    /// The element at the absolute position `p`.
    pub open spec fn at(self, p: nat) -> T {
        self.store[self.rel(p)]
    }

    /// The elements between two absolute positions.
    pub open spec fn span(self, from: nat, to: nat) -> Seq<T> {
        self.store.subrange(self.rel(from), self.rel(to))
    }

    /// The elements of the window, from `lower` up to `upper`.
    pub open spec fn window(self) -> Seq<T> {
        self.span(self.lower, self.upper)
    }

    /// The unused tail of the backing store, behind `upper`.
    pub open spec fn free(self) -> Seq<T> {
        self.store.subrange(self.rel(self.upper), self.store.len() as int)
    }

    /// The window ends where the backing store ends: nothing is free.
    pub open spec fn is_full(self) -> bool {
        self.rel(self.upper) == self.store.len()
    }

    /// Making room doubles the store: it is full and nothing can be discarded.
    pub open spec fn must_grow(self) -> bool {
        self.is_full() && self.lower == self.offset
    }

    /// Making room shifts the window: it is full and elements before `lower` can go.
    pub open spec fn must_shift(self) -> bool {
        self.is_full() && self.lower != self.offset
    }

    /// Every position that lies inside the window of both buffers holds
    /// the same element in both: a pointer that was good for `other` and
    /// still points into the window finds what it found before.
    pub open spec fn agrees(self, other: ShiftBufferView<T>) -> bool {
        forall|p: nat|
            self.lower <= p < self.upper && other.lower <= p < other.upper ==> #[trigger] self.at(
                p,
            ) == other.at(p)
    }

    /// This buffer is what making room turns `before` into: window and
    /// positions are the same, the store is twice as large if `before` had
    /// to grow, and starts at `lower` if it had to shift.
    pub open spec fn room_made(self, before: ShiftBufferView<T>) -> bool {
        &&& self.lower == before.lower
        &&& self.upper == before.upper
        &&& self.window() == before.window()
        &&& self.offset == if before.must_shift() {
            before.lower
        } else {
            before.offset
        }
        &&& self.capacity() == if before.must_grow() {
            2 * before.capacity()
        } else {
            before.capacity()
        }
    }

    /// Growth or shift. Making room changes the size of the store exactly
    /// where it must grow, and moves the start of the store exactly where
    /// it must shift; it never does both, and it does neither while the
    /// window ends before the store does.
    pub proof fn lemma_grow_or_shift(self, before: ShiftBufferView<T>)
        requires
            before.wf(),
            self.room_made(before),
        ensures
            self.capacity() != before.capacity() ==> before.must_grow(),
            before.must_grow() ==> self.capacity() == 2 * before.capacity() && self.offset
                == before.offset,
            self.offset != before.offset <==> before.must_shift(),
            before.must_shift() ==> self.capacity() == before.capacity() && self.offset
                == before.lower,
            !(before.must_grow() && before.must_shift()),
            !before.is_full() ==> self.capacity() == before.capacity() && self.offset
                == before.offset,
    {
    }

    /// Buffers whose windows hold the same elements at the same positions
    /// agree, wherever their stores begin.
    pub proof fn lemma_same_window_agrees(self, other: ShiftBufferView<T>)
        requires
            self.wf(),
            other.wf(),
            self.lower == other.lower,
            self.upper == other.upper,
            self.window() == other.window(),
        ensures
            self.agrees(other),
    {
        assert forall|p: nat|
            self.lower <= p < self.upper && other.lower <= p < other.upper implies #[trigger] self.at(
            p,
        ) == other.at(p) by {
            assert(self.window()[p - self.lower] == self.at(p));
            assert(other.window()[p - other.lower] == other.at(p));
        }
    }

    /// The buffer with the same positions and window whose free space holds `filled`.
    pub open spec fn with_free(self, filled: Seq<T>) -> ShiftBufferView<T> {
        ShiftBufferView {
            store: self.store.subrange(0, self.rel(self.upper)) + filled,
            ..self
        }
    }

    /// The buffer after its content was moved to the start of the store:
    /// the window comes first, what lay behind its length stays in place.
    pub open spec fn shifted(self) -> ShiftBufferView<T> {
        ShiftBufferView {
            store: self.window() + self.store.subrange(
                self.upper - self.lower,
                self.store.len() as int,
            ),
            offset: self.lower,
            ..self
        }
    }
}

/// `&mut v[from..]` of std, the mutable tail of a vector from an index on.
/// Claimed of it: the slice starts out as that tail, keeps its length
/// whatever is written through it, and what it holds when the borrow ends
/// is the vector's new tail, behind an untouched head.
#[verifier::external_body]
fn tail_mut<T>(v: &mut Vec<T>, from: usize) -> (r: &mut [T])
    requires
        from <= old(v)@.len(),
    ensures
        r@ == old(v)@.subrange(from as int, old(v)@.len() as int),
        final(r)@.len() == r@.len(),
        final(v)@ == old(v)@.subrange(0, from as int) + final(r)@,
{
    &mut v[from..]
}

/// A sliding window over a growable store: the tail of a stream, addressed
/// by [Pointer]s that stay good while the store shifts and grows.
pub struct ShiftBuffer<T> {
    buf: Vec<T>,
    // The absolute position of the first element of `buf` in the overall
    // stream. To put it differently, this is the total sum of all shifts.
    offset: Pointer,
    lower: Pointer,
    upper: Pointer,
}

impl<T> View for ShiftBuffer<T> {
    type V = ShiftBufferView<T>;

    closed spec fn view(&self) -> ShiftBufferView<T> {
        ShiftBufferView {
            store: self.buf@,
            offset: self.offset@,
            lower: self.lower@,
            upper: self.upper@,
        }
    }
}

impl<T: Default + Copy> ShiftBuffer<T> {
    /// A buffer of `init_size` elements, each the default value, with an
    /// empty window at position 0.
    pub fn new(init_size: usize) -> (r: Self)
        ensures
            r@.wf(),
            r@.capacity() == init_size,
            r@.offset == 0,
            r@.lower == 0,
            r@.upper == 0,
            exists|d: T|
                call_ensures(T::default, (), d) && forall|i: int|
                    0 <= i < r@.store.len() ==> cloned(d, #[trigger] r@.store[i]),
    {
        let d = T::default();
        let buf = vec![d; init_size];
        Self { buf, offset: Pointer(0), lower: Pointer(0), upper: Pointer(0) }
    }

    /// Moves the lower end of the window by `n`.
    pub fn shrink(&mut self, n: usize) -> (r: Pointer)
        requires
            old(self)@.wf(),
            old(self)@.lower + n <= old(self)@.upper,
        ensures
            final(self)@ == (ShiftBufferView { lower: old(self)@.lower + n as nat, ..old(self)@ }),
            final(self)@.wf(),
            final(self)@.agrees(old(self)@),
            r@ == final(self)@.lower,
    {
        self.lower = Pointer(self.lower.0 + n);
        self.lower
    }

    /// Moves the upper end of the window by `n`.
    pub fn extend(&mut self, n: usize) -> (r: Pointer)
        requires
            old(self)@.wf(),
            n <= old(self)@.free().len(),
            old(self)@.upper + n <= usize::MAX,
        ensures
            final(self)@ == (ShiftBufferView { upper: old(self)@.upper + n as nat, ..old(self)@ }),
            final(self)@.wf(),
            final(self)@.window() == old(self)@.window() + old(self)@.free().subrange(0, n as int),
            final(self)@.agrees(old(self)@),
            r@ == final(self)@.upper,
    {
        self.upper = Pointer(self.upper.0 + n);
        assert(self@.window() =~= old(self)@.window() + old(self)@.free().subrange(0, n as int));
        self.upper
    }

    /// The number of elements of the backing store.
    pub fn capacity(&self) -> (r: usize)
        ensures
            r == self@.capacity(),
    {
        self.buf.len()
    }

    /// Make room in the buffer for more data.
    ///
    /// If the upper end of the window is not at the stop position of the
    /// internal buffer, this method has no effect on the state of the buffer.
    ///
    /// Otherwise, it performs either of two operations: if the lower end is at
    /// the beginning of the buffer (the window covers the entire buffer), the
    /// buffer is doubled. Otherwise, the buffer is shifted; i.e., all entries
    /// prior to the lower end are discarded and the content is moved to the
    /// beginning of the buffer.
    ///
    /// In all cases, the return value of this method is the same as for
    /// [ShiftBuffer::free]: the free space, which the caller may fill. It
    /// holds at least one element unless the buffer has no capacity at all.
    /// Window and positions stay as they were, so every pointer into the
    /// window still finds its element.
    pub fn make_room(&mut self) -> (r: &mut [T])
        requires
            old(self)@.wf(),
            old(self)@.must_grow() ==> 2 * old(self)@.capacity() <= usize::MAX,
        ensures
            final(self)@.wf(),
            final(self)@.room_made(old(self)@),
            final(self)@.agrees(old(self)@),
            final(self)@.free() == final(r)@,
            r@.len() == final(r)@.len(),
            old(self)@.capacity() > 0 ==> r@.len() > 0,
            !old(self)@.is_full() ==> r@ == old(self)@.free(),
            !old(self)@.is_full() ==> final(self)@ == old(self)@.with_free(final(r)@),
    {
        if self.relative_pos(self.upper) == self.buf.len() {
            if self.lower.0 == self.offset.0 {
                let len: usize = self.buf.len();
                self.buf.resize(len + len, T::default());
                assert(self@.window() =~= old(self)@.window());
            } else {
                self.shift();
            }
        }
        self.free()
    }

    /// Moves the window to the start of the backing store and discards what
    /// came before it.
    pub fn shift(&mut self)
        requires
            old(self)@.wf(),
        ensures
            final(self)@ == old(self)@.shifted(),
            final(self)@.wf(),
            final(self)@.window() == old(self)@.window(),
            final(self)@.agrees(old(self)@),
    {
        let d: usize = self.lower.0 - self.offset.0;
        let w: usize = self.upper.0 - self.lower.0;
        let mut p: usize = 0;
        while p < w
            invariant
                p <= w,
                d + w <= self.buf@.len(),
                self.buf@.len() == old(self).buf@.len(),
                self.offset == old(self).offset,
                self.lower == old(self).lower,
                self.upper == old(self).upper,
                d == old(self)@.lower - old(self)@.offset,
                w == old(self)@.upper - old(self)@.lower,
                forall|i: int| 0 <= i < p ==> self.buf@[i] == old(self).buf@[i + d],
                forall|i: int| p <= i < self.buf@.len() ==> self.buf@[i] == old(self).buf@[i],
            decreases w - p,
        {
            let x = self.buf[p + d];
            self.buf[p] = x;
            p = p + 1;
        }
        self.offset = self.lower;
        proof {
            assert(self@.store =~= old(self)@.shifted().store);
            assert(self@.window() =~= old(self)@.window());
            self@.lemma_same_window_agrees(old(self)@);
        }
    }

    /// The unused capacity behind the window, for the caller to fill before
    /// it extends the window.
    pub fn free(&mut self) -> (r: &mut [T])
        requires
            old(self)@.wf(),
        ensures
            r@ == old(self)@.free(),
            r@.len() == final(r)@.len(),
            final(self)@ == old(self)@.with_free(final(r)@),
            final(self)@.wf(),
            final(self)@.window() == old(self)@.window(),
            final(self)@.agrees(old(self)@),
            final(self)@.free() == final(r)@,
    {
        let from: usize = self.relative_pos(self.upper);
        let ghost before = self@;
        let tail = tail_mut(&mut self.buf, from);
        proof {
            assert(before.with_free(final(tail)@).window() =~= before.window());
            assert(before.with_free(final(tail)@).free() =~= final(tail)@);
            before.with_free(final(tail)@).lemma_same_window_agrees(before);
        }
        tail
    }

    /// The lower end of the window.
    pub fn lower(&self) -> (r: Pointer)
        ensures
            r@ == self@.lower,
    {
        self.lower
    }

    /// The upper end of the window: the position of the next element to come.
    pub fn upper(&self) -> (r: Pointer)
        ensures
            r@ == self@.upper,
    {
        self.upper
    }

    /// The index in the backing store of the element that `p` points to.
    pub fn relative_pos(&self, p: Pointer) -> (r: usize)
        requires
            self@.wf(),
            self@.lower <= p@ <= self@.upper,
        ensures
            r == self@.rel(p@),
    {
        p.0 - self.offset.0
    }

    /// Create a shift buffer that contains a copy of the current window.
    pub fn clone_window(&self) -> (r: ShiftBuffer<T>)
        requires
            self@.wf(),
        ensures
            r@.wf(),
            r@.store == self@.window(),
            r@.offset == self@.lower,
            r@.lower == self@.lower,
            r@.upper == self@.upper,
            r@.window() == self@.window(),
    {
        let (l, u) = (self.lower, self.upper);
        let a: usize = self.relative_pos(l);
        let b: usize = self.relative_pos(u);
        let buf = vstd::slice::slice_to_vec(vstd::slice::slice_subrange(self.buf.as_slice(), a, b));
        let r = ShiftBuffer { buf, offset: l, lower: l, upper: u };
        assert(r@.window() =~= self@.window());
        r
    }
}

impl<T: Default + Copy> vstd::std_specs::core::IndexSpecImpl<Pointer> for ShiftBuffer<T> {
    open spec fn index_req(&self, index: &Pointer) -> bool {
        &&& self@.wf()
        &&& self@.lower <= index@ <= self@.upper
        &&& index@ < self@.offset + self@.capacity()
    }
}

impl<T: Default + Copy> Index<Pointer> for ShiftBuffer<T> {
    type Output = T;

    fn index(&self, index: Pointer) -> (r: &T)
        ensures
            *r == self@.at(index@),
    {
        &self.buf[self.relative_pos(index)]
    }
}

impl<T: Default + Copy> IndexMut<Pointer> for ShiftBuffer<T> {
    fn index_mut(&mut self, index: Pointer) -> (r: &mut T)
        requires
            old(self)@.wf(),
            old(self)@.lower <= index@ <= old(self)@.upper,
            index@ < old(self)@.offset + old(self)@.capacity(),
        ensures
            *r == old(self)@.at(index@),
            final(self)@ == (ShiftBufferView {
                store: old(self)@.store.update(old(self)@.rel(index@), *final(r)),
                ..old(self)@
            }),
            final(self)@.wf(),
    {
        let r: usize = self.relative_pos(index);
        &mut self.buf[r]
    }
}

impl<T: Default + Copy> vstd::std_specs::core::IndexSpecImpl<Range<Pointer>> for ShiftBuffer<T> {
    open spec fn index_req(&self, r: &Range<Pointer>) -> bool {
        &&& self@.wf()
        &&& r.start@ <= r.end@
        &&& self@.lower <= r.start@ <= self@.upper
        &&& self@.lower <= r.end@ <= self@.upper
    }
}

impl<T: Default + Copy> Index<Range<Pointer>> for ShiftBuffer<T> {
    type Output = [T];

    fn index(&self, r: Range<Pointer>) -> (s: &[T])
        ensures
            s@ == self@.span(r.start@, r.end@),
    {
        let a: usize = self.relative_pos(r.start);
        let b: usize = self.relative_pos(r.end);
        vstd::slice::slice_subrange(self.buf.as_slice(), a, b)
    }
}

} // verus!
