//! The growable secure byte buffer: the shared guarded-region primitive and
//! the amortized-growth, drain and erase operations built on it.

use vstd::prelude::*;
use zeroize::Zeroize;

use crate::Error;

verus! {

/// A securely held, growable byte buffer, analogous to `std::vec::Vec<u8>`.
///
/// The buffer owns one backing region whose size is its capacity; the logical
/// length never exceeds it.  The region is in the protection state `Locked`
/// except during the extent of an access that first moved it to `Unlocked`,
/// and every verified operation states in its contract which state it leaves
/// the region in.  Element reads demand the unlocked state in their
/// preconditions, so a bypass of the sanctioned access path is rejected when
/// the caller is verified, instead of faulting at run time.
///
/// Erasing, draining and reallocating overwrite every vacated byte with
/// zeroes through [`zeroize::Zeroize`], whose writes the compiler cannot
/// elide.
pub struct SecureVec {
    /// Backing region; its length is the capacity and never shrinks below 1.
    buf: Vec<u8>,
    /// Logical length: the number of live bytes at the front of `buf`.
    len: usize,
    /// Protection state: `true` is `Locked`, `false` is `Unlocked`.
    locked: bool,
}

/// A growable secure buffer of bytes.
pub type SecureBytes = SecureVec;

impl View for SecureVec {
    type V = Seq<u8>;

    /// The live bytes: the prefix of the backing region up to the logical
    /// length.
    closed spec fn view(&self) -> Seq<u8> {
        self.buf@.take(self.len as int)
    }
}

impl SecureVec {
    #[verifier::type_invariant]
    spec fn wf(self) -> bool {
        self.len <= self.buf@.len() && 1 <= self.buf@.len()
    }

    /// The capacity: the number of bytes the backing region can hold.
    pub closed spec fn spec_capacity(&self) -> nat {
        self.buf@.len()
    }

    /// Every byte of the backing region, the stale suffix included.
    pub closed spec fn backing(&self) -> Seq<u8> {
        self.buf@
    }

    /// Whether the region is in the protection state `Locked`.
    pub closed spec fn is_locked(&self) -> bool {
        self.locked
    }

    /// Creates an empty buffer with a capacity of one byte, so that a region
    /// exists to protect from the start.  Construction cannot fail here: the
    /// fallible signature is kept for the allocating backends this models.
    pub fn new() -> (result: Result<SecureVec, Error>)
        ensures
            result matches Ok(v) && v@ == Seq::<u8>::empty() && v.spec_capacity() == 1
                && v.backing() == seq![0u8] && v.is_locked(),
    {
        Ok(SecureVec { buf: vec![0u8], len: 0, locked: true })
    }

    /// Creates an empty buffer able to hold `capacity` bytes before it must
    /// grow.  A zero request is raised to one byte, the smallest region the
    /// protection toggles can cover.  The region starts zero-filled.
    pub fn new_with_capacity(capacity: usize) -> (result: Result<SecureVec, Error>)
        ensures
            result matches Ok(v) ==> {
                &&& v@ == Seq::<u8>::empty()
                &&& v.spec_capacity() == if capacity == 0 { 1nat } else { capacity as nat }
                &&& v.backing() == Seq::new(v.spec_capacity(), |i: int| 0u8)
                &&& v.is_locked()
            },
            result is Ok,
    {
        let cap: usize = if capacity == 0 { 1 } else { capacity };
        let buf: Vec<u8> = vec![0u8; cap];
        proof {
            assert(buf@ =~= Seq::new(cap as nat, |i: int| 0u8));
        }
        Ok(SecureVec { buf, len: 0, locked: true })
    }

    /// The logical length in bytes.
    pub fn len(&self) -> (n: usize)
        ensures
            n == self@.len(),
            n <= self.spec_capacity(),
    {
        proof {
            use_type_invariant(self);
        }
        self.len
    }

    /// The capacity in bytes.
    pub fn capacity(&self) -> (n: usize)
        ensures
            n == self.spec_capacity(),
            self@.len() <= n,
            1 <= n,
    {
        proof {
            use_type_invariant(self);
        }
        self.buf.len()
    }

    /// Whether the region is currently `Locked`.
    pub fn locked(&self) -> (b: bool)
        ensures
            b == self.is_locked(),
    {
        self.locked
    }

    /// Moves the region to the protection state `Locked`.
    ///
    /// The pair mirrors the two protection steps of the platform adapters
    /// this models: at-rest encryption and the page-protection toggle.  Both
    /// are verified state transitions here and cannot fail, so the pair is
    /// always `(true, true)`; a region is fully protected only when both
    /// hold.
    pub fn lock_memory(&mut self) -> (result: (bool, bool))
        ensures
            final(self).is_locked(),
            final(self)@ == old(self)@,
            final(self).backing() == old(self).backing(),
            final(self).spec_capacity() == old(self).spec_capacity(),
            result == (true, true),
    {
        proof {
            use_type_invariant(&*self);
        }
        self.locked = true;
        (true, true)
    }

    /// Moves the region to the protection state `Unlocked`, making its bytes
    /// readable and writable.  The inverse pair of [`Self::lock_memory`];
    /// like it, a verified transition that cannot fail.
    pub fn unlock_memory(&mut self) -> (result: (bool, bool))
        ensures
            !final(self).is_locked(),
            final(self)@ == old(self)@,
            final(self).backing() == old(self).backing(),
            final(self).spec_capacity() == old(self).spec_capacity(),
            result == (true, true),
    {
        proof {
            use_type_invariant(&*self);
        }
        self.locked = false;
        (true, true)
    }

    /// Reads one byte.  Demands the unlocked state: reading a locked region
    /// is a misuse this signature makes impossible for verified callers — a
    /// compile-time guard chosen deliberately in place of letting the
    /// hardware fault at run time.
    pub fn index(&self, index: usize) -> (byte: u8)
        requires
            !self.is_locked(),
            index < self@.len(),
        ensures
            byte == self@[index as int],
    {
        proof {
            use_type_invariant(self);
        }
        self.buf[index]
    }

    /// Sets the logical length to zero without touching the bytes.  The
    /// stale bytes stay in the backing region until they are overwritten or
    /// erased.
    pub fn clear(&mut self)
        ensures
            final(self)@ == Seq::<u8>::empty(),
            final(self).backing() == old(self).backing(),
            final(self).spec_capacity() == old(self).spec_capacity(),
            final(self).is_locked() == old(self).is_locked(),
    {
        proof {
            use_type_invariant(&*self);
        }
        self.len = 0;
    }

    /// Erases the contents: every live byte is overwritten with zero, the
    /// logical length becomes zero, and the region is left `Locked`.  The
    /// capacity is preserved for reuse.
    pub fn erase(&mut self)
        ensures
            final(self)@ == Seq::<u8>::empty(),
            final(self).spec_capacity() == old(self).spec_capacity(),
            final(self).is_locked(),
            final(self).backing() == Seq::new(
                old(self).backing().len(),
                |i: int| if i < old(self)@.len() { 0u8 } else { old(self).backing()[i] },
            ),
    {
        proof {
            use_type_invariant(&*self);
        }
        self.locked = false;
        zeroize_bytes(&mut self.buf, 0, self.len);
        self.len = 0;
        self.locked = true;
        proof {
            assert(final(self).backing() =~= Seq::new(
                old(self).backing().len(),
                |i: int| if i < old(self)@.len() { 0u8 } else { old(self).backing()[i] },
            ));
        }
    }
}

/// The capacity after a growth step: the old capacity doubled, or the
/// required capacity if doubling is not enough.  Growth is amortized: a
/// buffer that is full never grows by only one element.
pub open spec fn grown_capacity(capacity: nat, required: nat) -> nat {
    if 2 * capacity > required {
        2 * capacity
    } else {
        required
    }
}

impl SecureVec {
    /// Ensures room for at least `additional` more bytes.  A buffer that is
    /// already large enough is left untouched; otherwise a region of
    /// [`grown_capacity`] bytes is allocated zero-filled, the live bytes are
    /// copied over, the live bytes of the old region are zeroized, the old
    /// region is released, and the new region is left `Locked`.
    pub fn reserve(&mut self, additional: usize)
        requires
            old(self)@.len() + additional <= usize::MAX,
            old(self)@.len() + additional > old(self).spec_capacity() ==> 2 * old(
                self,
            ).spec_capacity() <= usize::MAX,
        ensures
            final(self)@ == old(self)@,
            old(self)@.len() + additional <= old(self).spec_capacity() ==> *final(self) == *old(
                self,
            ),
            old(self)@.len() + additional > old(self).spec_capacity() ==> {
                &&& final(self).spec_capacity() == grown_capacity(
                    old(self).spec_capacity(),
                    (old(self)@.len() + additional) as nat,
                )
                &&& final(self).is_locked()
                &&& final(self).backing() == Seq::new(
                    final(self).spec_capacity(),
                    |i: int| if i < old(self)@.len() { old(self)@[i] } else { 0u8 },
                )
            },
    {
        proof {
            use_type_invariant(&*self);
        }
        if self.len + additional <= self.buf.len() {
            return ;
        }
        let required: usize = self.len + additional;
        let doubled: usize = 2 * self.buf.len();
        let new_cap: usize = if doubled > required {
            doubled
        } else {
            required
        };
        self.locked = false;
        let mut new_buf: Vec<u8> = vec![0u8; new_cap];
        proof {
            assert(new_buf@ =~= Seq::new(new_cap as nat, |i: int| 0u8));
        }
        let mut i: usize = 0;
        while i < self.len
            invariant
                i <= self.len,
                self.len <= self.buf@.len(),
                self.len <= new_cap,
                new_buf@.len() == new_cap,
                forall|j: int| 0 <= j < i ==> new_buf@[j] == self.buf@[j],
                forall|j: int| i <= j < new_cap ==> new_buf@[j] == 0u8,
            decreases self.len - i,
        {
            new_buf.set(i, self.buf[i]);
            i += 1;
        }
        zeroize_bytes(&mut self.buf, 0, self.len);
        self.buf = new_buf;
        self.locked = true;
        proof {
            assert(final(self)@ =~= old(self)@);
            assert(final(self).backing() =~= Seq::new(
                final(self).spec_capacity(),
                |i: int| if i < old(self)@.len() { old(self)@[i] } else { 0u8 },
            ));
        }
    }

    /// Appends one byte, growing first when the buffer is full, and leaves
    /// the region `Locked`.  A full buffer doubles its capacity
    /// ([`grown_capacity`]), so repeated pushes cost amortized constant
    /// work.
    pub fn push(&mut self, value: u8)
        requires
            old(self)@.len() < usize::MAX,
            old(self)@.len() == old(self).spec_capacity() ==> 2 * old(self).spec_capacity()
                <= usize::MAX,
        ensures
            final(self)@ == old(self)@.push(value),
            final(self).is_locked(),
            final(self).spec_capacity() == if old(self)@.len() < old(self).spec_capacity() {
                old(self).spec_capacity()
            } else {
                2 * old(self).spec_capacity()
            },
            final(self).backing() == if old(self)@.len() < old(self).spec_capacity() {
                old(self).backing().update(old(self)@.len() as int, value)
            } else {
                Seq::new(
                    final(self).spec_capacity(),
                    |i: int| if i <= old(self)@.len() { old(self)@.push(value)[i] } else { 0u8 },
                )
            },
    {
        proof {
            use_type_invariant(&*self);
        }
        self.reserve(1);
        proof {
            use_type_invariant(&*self);
        }
        self.locked = false;
        let n: usize = self.len;
        vec_set_byte(&mut self.buf, n, value);
        self.len = n + 1;
        self.locked = true;
        proof {
            assert(final(self)@ =~= old(self)@.push(value));
        }
    }

    /// Takes ownership of an exposed byte vector.  The bytes are moved, not
    /// copied, so no second copy of the secret is left behind; the capacity
    /// equals the number of bytes taken (one byte for an empty source), and
    /// the region starts `Locked`.
    pub fn from_vec(source: Vec<u8>) -> (result: Result<SecureVec, Error>)
        ensures
            result matches Ok(v) ==> {
                &&& v@ == source@
                &&& v.spec_capacity() == if source@.len() == 0 {
                    1nat
                } else {
                    source@.len() as nat
                }
                &&& v.is_locked()
            },
            result is Ok,
    {
        let len: usize = source.len();
        let mut buf: Vec<u8> = source;
        if len == 0 {
            buf.push(0);
        }
        let v = SecureVec { buf, len, locked: true };
        proof {
            assert(v@ =~= source@);
        }
        Ok(v)
    }

    /// Copies the given bytes into a fresh secure buffer.  The source is not
    /// zeroized; the caller stays responsible for it.
    pub fn from_slice(content: &[u8]) -> (result: Result<SecureVec, Error>)
        ensures
            result matches Ok(v) ==> {
                &&& v@ == content@
                &&& v.spec_capacity() == if content@.len() == 0 {
                    1nat
                } else {
                    content@.len() as nat
                }
                &&& v.is_locked()
            },
            result is Ok,
    {
        Self::from_vec(vstd::slice::slice_to_vec(content))
    }

    /// Copies the given bytes into a fresh secure buffer and zeroizes the
    /// source, so the only live copy of the secret is the protected one.
    pub fn from_slice_mut(content: &mut Vec<u8>) -> (result: Result<SecureVec, Error>)
        ensures
            result matches Ok(v) ==> {
                &&& v@ == old(content)@
                &&& v.spec_capacity() == if old(content)@.len() == 0 {
                    1nat
                } else {
                    old(content)@.len() as nat
                }
                &&& v.is_locked()
            },
            result is Ok,
            final(content)@ == Seq::new(old(content)@.len(), |i: int| 0u8),
    {
        let copied = Self::from_vec(vstd::slice::slice_to_vec(content.as_slice()));
        let n: usize = content.len();
        zeroize_bytes(content, 0, n);
        proof {
            assert(final(content)@ =~= Seq::new(old(content)@.len(), |i: int| 0u8));
        }
        copied
    }
}

impl Clone for SecureVec {
    /// Copies the live bytes into an independent, equally sized region; the
    /// two buffers share no backing memory, so mutating one cannot affect
    /// the other.  The copy starts `Locked` with its stale suffix
    /// zero-filled.
    fn clone(&self) -> (result: SecureVec)
        ensures
            result@ == self@,
            result.spec_capacity() == self.spec_capacity(),
            result.is_locked(),
            result.backing() == Seq::new(
                self.spec_capacity(),
                |i: int| if i < self@.len() { self@[i] } else { 0u8 },
            ),
    {
        proof {
            use_type_invariant(self);
        }
        let cap: usize = self.buf.len();
        let mut buf: Vec<u8> = vec![0u8; cap];
        proof {
            assert(buf@ =~= Seq::new(cap as nat, |i: int| 0u8));
        }
        let mut i: usize = 0;
        while i < self.len
            invariant
                i <= self.len,
                self.len <= self.buf@.len(),
                buf@.len() == self.buf@.len(),
                forall|j: int| 0 <= j < i ==> buf@[j] == self.buf@[j],
                forall|j: int| i <= j < buf@.len() ==> buf@[j] == 0u8,
            decreases self.len - i,
        {
            buf.set(i, self.buf[i]);
            i += 1;
        }
        let result = SecureVec { buf, len: self.len, locked: true };
        proof {
            assert(result@ =~= self@);
            assert(result.backing() =~= Seq::new(
                self.spec_capacity(),
                |i: int| if i < self@.len() { self@[i] } else { 0u8 },
            ));
        }
        result
    }
}

/// One end of a drain range: the counterpart of the bounds a caller writes
/// as `a..b`, `a..=b`, `..b` or `..`.
#[derive(Clone, Copy, Debug, PartialEq, Eq, Structural)]
pub enum RangeEdge {
    /// The index itself belongs to the range.
    Included(usize),
    /// The range starts or stops just past the index.
    Excluded(usize),
    /// The range extends to the start, or to the end, of the buffer.
    Unbounded,
}

/// The first index of a range whose lower end is `edge`.
pub open spec fn resolved_start(edge: RangeEdge) -> int {
    match edge {
        RangeEdge::Included(s) => s as int,
        RangeEdge::Excluded(s) => s as int + 1,
        RangeEdge::Unbounded => 0,
    }
}

/// The index just past a range whose upper end is `edge`, in a buffer of
/// length `len`.
pub open spec fn resolved_end(edge: RangeEdge, len: nat) -> int {
    match edge {
        RangeEdge::Included(e) => e as int + 1,
        RangeEdge::Excluded(e) => e as int,
        RangeEdge::Unbounded => len as int,
    }
}

/// Resolves the two ends of a range against a buffer of length `len` into a
/// half-open index pair.  Only ranges that lie inside the buffer, with their
/// start not past their end, are accepted.
pub fn resolve_range_indices(start: RangeEdge, end: RangeEdge, len: usize) -> (range: (
    usize,
    usize,
))
    requires
        0 <= resolved_start(start) <= resolved_end(end, len as nat) <= len,
    ensures
        range.0 == resolved_start(start),
        range.1 == resolved_end(end, len as nat),
{
    let resolved_start: usize = match start {
        RangeEdge::Included(s) => s,
        RangeEdge::Excluded(s) => s + 1,
        RangeEdge::Unbounded => 0,
    };
    let resolved_end: usize = match end {
        RangeEdge::Included(e) => e + 1,
        RangeEdge::Excluded(e) => e,
        RangeEdge::Unbounded => len,
    };
    (resolved_start, resolved_end)
}

impl SecureVec {
    /// Removes the bytes of the given range and hands them back in order,
    /// shifting the tail left to close the gap, zeroizing every vacated
    /// byte, and leaving the region `Locked` with its capacity unchanged.
    ///
    /// The removal, compaction and zeroization happen in one call, so no way
    /// of abandoning a drain midway can leave the region unlocked or its
    /// stale tail in place.  Ranges that reach outside the buffer, or run
    /// backwards, are rejected by the precondition.
    pub fn drain(&mut self, start: RangeEdge, end: RangeEdge) -> (drained: Vec<u8>)
        requires
            0 <= resolved_start(start) <= resolved_end(end, old(self)@.len()) <= old(self)@.len(),
        ensures
            ({
                let s = resolved_start(start);
                let e = resolved_end(end, old(self)@.len());
                let n = old(self)@.len() as int;
                &&& drained@ == old(self)@.subrange(s, e)
                &&& final(self)@ == old(self)@.subrange(0, s) + old(self)@.subrange(e, n)
                &&& final(self).spec_capacity() == old(self).spec_capacity()
                &&& final(self).is_locked()
                &&& final(self).backing() == Seq::new(
                    old(self).backing().len(),
                    |i: int|
                        if i < n - (e - s) {
                            final(self)@[i]
                        } else if i < n {
                            0u8
                        } else {
                            old(self).backing()[i]
                        },
                )
            }),
    {
        proof {
            use_type_invariant(&*self);
        }
        let ghost orig_backing = self.buf@;
        let ghost orig_view = self@;
        self.locked = false;
        let original_len: usize = self.len;
        let (drain_start, drain_end) = resolve_range_indices(start, end, original_len);

        let mut drained: Vec<u8> = Vec::new();
        let mut i: usize = drain_start;
        while i < drain_end
            invariant
                drain_start <= i <= drain_end <= original_len,
                original_len == self.len,
                original_len == orig_view.len(),
                self.len <= self.buf@.len(),
                self.buf@ == orig_backing,
                orig_view == orig_backing.take(original_len as int),
                drained@ == orig_view.subrange(drain_start as int, i as int),
            decreases drain_end - i,
        {
            drained.push(self.buf[i]);
            i += 1;
            proof {
                assert(drained@ =~= orig_view.subrange(drain_start as int, i as int));
            }
        }

        let tail_len: usize = original_len - drain_end;
        let mut j: usize = 0;
        while j < tail_len
            invariant
                j <= tail_len,
                tail_len == original_len - drain_end,
                drain_start <= drain_end <= original_len,
                original_len == self.len,
                original_len == orig_view.len(),
                self.len <= self.buf@.len(),
                self.buf@.len() == orig_backing.len(),
                orig_view == orig_backing.take(original_len as int),
                forall|k: int| 0 <= k < drain_start ==> self.buf@[k] == orig_backing[k],
                forall|k: int|
                    0 <= k < j ==> #[trigger] self.buf@[drain_start + k] == orig_backing[drain_end
                        + k],
                forall|k: int|
                    drain_start + j <= k < self.buf@.len() ==> self.buf@[k] == orig_backing[k],
            decreases tail_len - j,
        {
            let moved: u8 = self.buf[drain_end + j];
            vec_set_byte(&mut self.buf, drain_start + j, moved);
            j += 1;
        }

        proof {
            assert forall|k: int|
                drain_start <= k < drain_start + tail_len implies self.buf@[k] == orig_backing[
                drain_end + (k - drain_start)] by {
                assert(self.buf@[drain_start + (k - drain_start)] == orig_backing[drain_end + (k
                    - drain_start)]);
            }
        }
        let new_len: usize = drain_start + tail_len;
        zeroize_bytes(&mut self.buf, new_len, original_len);
        self.len = new_len;
        self.locked = true;
        proof {
            let s = resolved_start(start);
            let e = resolved_end(end, old(self)@.len());
            let n = old(self)@.len() as int;
            assert(final(self)@ =~= old(self)@.subrange(0, s) + old(self)@.subrange(e, n));
            assert(final(self).backing() =~= Seq::new(
                old(self).backing().len(),
                |i: int|
                    if i < n - (e - s) {
                        final(self)@[i]
                    } else if i < n {
                        0u8
                    } else {
                        old(self).backing()[i]
                    },
            ));
        }
        drained
    }
}

impl SecureVec {
    /// Overwrites one byte.  Demands the unlocked state, like
    /// [`Self::index`]: the only sanctioned write path runs between
    /// [`Self::unlock_memory`] and [`Self::lock_memory`].
    pub fn set(&mut self, index: usize, value: u8)
        requires
            !old(self).is_locked(),
            index < old(self)@.len(),
        ensures
            final(self)@ == old(self)@.update(index as int, value),
            final(self).spec_capacity() == old(self).spec_capacity(),
            !final(self).is_locked(),
            final(self).backing() == old(self).backing().update(index as int, value),
    {
        proof {
            use_type_invariant(&*self);
        }
        vec_set_byte(&mut self.buf, index, value);
        proof {
            assert(final(self)@ =~= old(self)@.update(index as int, value));
        }
    }

    /// Unlocks the region, runs `f` on the live bytes, and relocks it before
    /// returning: the sanctioned scoped read path.  The closure's result is
    /// exactly a result of `f` on the buffer's contents.
    pub fn unlock_slice<F: FnOnce(&[u8]) -> R, R>(&mut self, f: F) -> (result: R)
        requires
            forall|s: &[u8]| s@ == old(self)@ ==> call_requires(f, (s,)),
        ensures
            final(self)@ == old(self)@,
            final(self).spec_capacity() == old(self).spec_capacity(),
            final(self).backing() == old(self).backing(),
            final(self).is_locked(),
            exists|s: &[u8]| s@ == old(self)@ && call_ensures(f, (s,), result),
    {
        proof {
            use_type_invariant(&*self);
        }
        self.locked = false;
        let slice: &[u8] = vstd::slice::slice_subrange(self.buf.as_slice(), 0, self.len);
        proof {
            assert(slice@ =~= old(self)@);
        }
        let result = f(slice);
        self.locked = true;
        result
    }

    /// Unlocks the region, runs `f` on the buffer itself, and relocks it
    /// before returning.  Inside the scope the closure sees an unlocked
    /// buffer with the same contents and capacity, so it may read elements
    /// through [`Self::index`].
    pub fn unlock<F: FnOnce(&SecureVec) -> R, R>(&mut self, f: F) -> (result: R)
        requires
            forall|v: &SecureVec|
                v@ == old(self)@ && !v.is_locked() && v.spec_capacity() == old(
                    self,
                ).spec_capacity() ==> call_requires(f, (v,)),
        ensures
            final(self)@ == old(self)@,
            final(self).spec_capacity() == old(self).spec_capacity(),
            final(self).backing() == old(self).backing(),
            final(self).is_locked(),
            exists|v: &SecureVec|
                v@ == old(self)@ && !v.is_locked() && v.spec_capacity() == old(
                    self,
                ).spec_capacity() && call_ensures(f, (v,), result),
    {
        proof {
            use_type_invariant(&*self);
        }
        self.locked = false;
        let shared: &SecureVec = &*self;
        proof {
            assert(shared@ == old(self)@ && !shared.is_locked() && shared.spec_capacity() == old(
                self,
            ).spec_capacity());
        }
        let result = f(shared);
        proof {
            assert(shared@ == old(self)@ && !shared.is_locked() && shared.spec_capacity() == old(
                self,
            ).spec_capacity() && call_ensures(f, (shared,), result));
        }
        self.locked = true;
        result
    }

    /// The live bytes as a borrowed slice, for the sibling containers that
    /// build their own sanctioned access paths on this buffer.
    pub(crate) fn live_slice(&self) -> (slice: &[u8])
        ensures
            slice@ == self@,
    {
        proof {
            use_type_invariant(self);
        }
        let slice: &[u8] = vstd::slice::slice_subrange(self.buf.as_slice(), 0, self.len);
        proof {
            assert(slice@ =~= self@);
        }
        slice
    }

    /// The wire form of the buffer: its live bytes as a plain ordered
    /// sequence, the representation the serialization adapters write.
    pub fn wire_bytes(&self) -> (out: Vec<u8>)
        ensures
            out@ == crate::wire_form(self@),
    {
        proof {
            use_type_invariant(self);
        }
        let slice: &[u8] = vstd::slice::slice_subrange(self.buf.as_slice(), 0, self.len);
        proof {
            assert(slice@ =~= self@);
        }
        vstd::slice::slice_to_vec(slice)
    }
}

impl Drop for SecureVec {
    /// Zeroizes the live bytes before the allocation is released, so a
    /// dropped buffer leaves no copy of its secret behind.
    fn drop(&mut self)
        opens_invariants none
        no_unwind
    {
        proof {
            use_type_invariant(&*self);
        }
        let n: usize = self.len;
        zeroize_bytes(&mut self.buf, 0, n);
    }
}

/// Law: a buffer constructed from a byte sequence shows exactly that
/// sequence to the sanctioned scoped read: what the constructors promise to
/// store is what every scope observes.
pub proof fn lemma_construction_roundtrip(source: Seq<u8>, v: SecureVec, observed: Seq<u8>)
    requires
        v@ == source,
        observed == v@,
    ensures
        observed == source,
{
}

/// Law: growth is amortized doubling.  A buffer whose capacity is exhausted
/// and which needs room for one more byte grows to twice its old capacity —
/// never by a single element.
pub proof fn lemma_amortized_doubling(capacity: nat)
    requires
        1 <= capacity,
    ensures
        grown_capacity(capacity, capacity + 1) == 2 * capacity,
{
}

/// Writes one byte of `buf` in place.
///
/// Relies on the `IndexMut` operator of `Vec<u8>`: assigning through it
/// replaces the byte at `i` and touches nothing else, and stays in bounds
/// because `i` is below the length.
#[verifier::external_body]
pub(crate) fn vec_set_byte(buf: &mut Vec<u8>, i: usize, value: u8)
    requires
        i < old(buf)@.len(),
    ensures
        final(buf)@ == old(buf)@.update(i as int, value),
    no_unwind
{
    buf[i] = value;
}

/// Overwrites `buf[start..end]` with zeroes.
///
/// Relies on `zeroize::Zeroize` for `core::slice::IterMut`: zeroizing the
/// iterator writes zero over every byte it yields, through volatile writes
/// the compiler will not elide, and touches nothing else.
#[verifier::external_body]
pub(crate) fn zeroize_bytes(buf: &mut Vec<u8>, start: usize, end: usize)
    requires
        start <= end,
        end <= old(buf)@.len(),
    ensures
        final(buf)@ == Seq::new(
            old(buf)@.len(),
            |i: int| if start <= i < end { 0u8 } else { old(buf)@[i] },
        ),
    opens_invariants none
    no_unwind
{
    buf[start..end].iter_mut().zeroize();
}

} // verus!
