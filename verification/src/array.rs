//! The fixed-length secure byte container: the same guarded region as the
//! growable buffer, but with a capacity fixed at construction that always
//! equals the logical length.

use vstd::prelude::*;

use crate::vec::SecureVec;
use crate::wire_form;
use crate::Error;

verus! {

/// A fixed-size byte array held in a guarded region.
///
/// Capacity and length coincide and are fixed at `LENGTH` for the whole life
/// of the value; there is no growth path.  Zero-length arrays are rejected at
/// construction, so every live array owns a non-empty region.  The
/// protection state and the sanctioned access paths work as on
/// [`SecureVec`]: reads demand the unlocked state, and the scoped accessors
/// unlock, run the caller's closure, and relock.
pub struct SecureArray<const LENGTH: usize> {
    /// Backing region of exactly `LENGTH` bytes.
    buf: Vec<u8>,
    /// Protection state: `true` is `Locked`, `false` is `Unlocked`.
    locked: bool,
}

impl<const LENGTH: usize> View for SecureArray<LENGTH> {
    type V = Seq<u8>;

    /// All `LENGTH` bytes of the region.
    closed spec fn view(&self) -> Seq<u8> {
        self.buf@
    }
}

impl<const LENGTH: usize> SecureArray<LENGTH> {
    #[verifier::type_invariant]
    spec fn wf(self) -> bool {
        self.buf@.len() == LENGTH && 1 <= LENGTH
    }

    /// Whether the region is in the protection state `Locked`.
    pub closed spec fn is_locked(&self) -> bool {
        self.locked
    }

    /// Creates a zero-filled array, `Locked`, ready to be filled through the
    /// sanctioned write path.  A zero-length array owns no region to guard
    /// and is rejected with [`Error::LengthCannotBeZero`].
    pub fn empty() -> (result: Result<SecureArray<LENGTH>, Error>)
        ensures
            LENGTH == 0 ==> result == Err::<SecureArray<LENGTH>, Error>(Error::LengthCannotBeZero),
            LENGTH >= 1 ==> (result matches Ok(a) && a@ == Seq::new(LENGTH as nat, |i: int| 0u8)
                && a.is_locked()),
    {
        if LENGTH == 0 {
            return Err(Error::LengthCannotBeZero);
        }
        let buf: Vec<u8> = vec![0u8; LENGTH];
        proof {
            assert(buf@ =~= Seq::new(LENGTH as nat, |i: int| 0u8));
        }
        Ok(SecureArray { buf, locked: true })
    }

    /// Copies exactly `LENGTH` bytes from `content` into a fresh array and
    /// zeroizes the source, so the only live copy of the secret is the
    /// protected one.  A zero-length array is rejected before the source is
    /// touched.
    pub fn from_slice_mut(content: &mut Vec<u8>) -> (result: Result<SecureArray<LENGTH>, Error>)
        requires
            old(content)@.len() == LENGTH,
        ensures
            LENGTH == 0 ==> result == Err::<SecureArray<LENGTH>, Error>(Error::LengthCannotBeZero)
                && final(content)@ == old(content)@,
            LENGTH >= 1 ==> (result matches Ok(a) && a@ == old(content)@ && final(content)@
                == Seq::new(LENGTH as nat, |i: int| 0u8)),
    {
        if LENGTH == 0 {
            return Err(Error::LengthCannotBeZero);
        }
        let buf: Vec<u8> = vstd::slice::slice_to_vec(content.as_slice());
        let n: usize = content.len();
        crate::vec::zeroize_bytes(content, 0, n);
        proof {
            assert(final(content)@ =~= Seq::new(LENGTH as nat, |i: int| 0u8));
        }
        Ok(SecureArray { buf, locked: true })
    }

    /// Copies exactly `LENGTH` bytes from `content` into a fresh array.  The
    /// source is not zeroized; the caller stays responsible for it.
    pub fn from_slice(content: &[u8]) -> (result: Result<SecureArray<LENGTH>, Error>)
        requires
            content@.len() == LENGTH,
        ensures
            LENGTH == 0 ==> result == Err::<SecureArray<LENGTH>, Error>(Error::LengthCannotBeZero),
            LENGTH >= 1 ==> (result matches Ok(a) && a@ == content@ && a.is_locked()),
    {
        if LENGTH == 0 {
            return Err(Error::LengthCannotBeZero);
        }
        let buf: Vec<u8> = vstd::slice::slice_to_vec(content);
        Ok(SecureArray { buf, locked: true })
    }

    /// The length, which is also the capacity: always `LENGTH`.
    pub fn len(&self) -> (n: usize)
        ensures
            n == LENGTH,
            n == self@.len(),
    {
        proof {
            use_type_invariant(self);
        }
        self.buf.len()
    }

    /// Whether the array holds no bytes; always false for a live array,
    /// since zero-length arrays cannot be constructed.
    pub fn is_empty(&self) -> (empty: bool)
        ensures
            empty == (LENGTH == 0),
            !empty,
    {
        proof {
            use_type_invariant(self);
        }
        self.len() == 0
    }

    /// Moves the region to the protection state `Locked`.  A verified state
    /// transition that cannot fail, so the result is always true; the
    /// region is protected only when it holds.
    pub fn lock_memory(&mut self) -> (ok: bool)
        ensures
            final(self).is_locked(),
            final(self)@ == old(self)@,
            ok == true,
    {
        proof {
            use_type_invariant(&*self);
        }
        self.locked = true;
        true
    }

    /// Moves the region to the protection state `Unlocked`, making its
    /// bytes readable and writable.  The inverse of [`Self::lock_memory`].
    pub fn unlock_memory(&mut self) -> (ok: bool)
        ensures
            !final(self).is_locked(),
            final(self)@ == old(self)@,
            ok == true,
    {
        proof {
            use_type_invariant(&*self);
        }
        self.locked = false;
        true
    }

    /// Reads one byte.  Demands the unlocked state: reading a locked array
    /// is rejected at verification time rather than faulting at run time.
    pub fn index(&self, index: usize) -> (byte: u8)
        requires
            !self.is_locked(),
            index < LENGTH,
        ensures
            byte == self@[index as int],
    {
        proof {
            use_type_invariant(self);
        }
        self.buf[index]
    }

    /// Overwrites one byte.  Demands the unlocked state, like
    /// [`Self::index`].
    pub fn set(&mut self, index: usize, value: u8)
        requires
            !old(self).is_locked(),
            index < LENGTH,
        ensures
            final(self)@ == old(self)@.update(index as int, value),
            !final(self).is_locked(),
    {
        proof {
            use_type_invariant(&*self);
        }
        crate::vec::vec_set_byte(&mut self.buf, index, value);
    }

    /// Unlocks the region, runs `f` on the bytes, and relocks it before
    /// returning: the sanctioned scoped read path.
    pub fn unlock<F: FnOnce(&[u8]) -> R, R>(&mut self, f: F) -> (result: R)
        requires
            forall|s: &[u8]| s@ == old(self)@ ==> call_requires(f, (s,)),
        ensures
            final(self)@ == old(self)@,
            final(self).is_locked(),
            exists|s: &[u8]| s@ == old(self)@ && call_ensures(f, (s,), result),
    {
        proof {
            use_type_invariant(&*self);
        }
        self.locked = false;
        let slice: &[u8] = self.buf.as_slice();
        let result = f(slice);
        self.locked = true;
        result
    }

    /// Erases the contents: every byte is overwritten with zero and the
    /// region is left `Locked`.
    pub fn erase(&mut self)
        ensures
            final(self)@ == Seq::new(LENGTH as nat, |i: int| 0u8),
            final(self).is_locked(),
    {
        proof {
            use_type_invariant(&*self);
        }
        self.locked = false;
        let n: usize = self.buf.len();
        crate::vec::zeroize_bytes(&mut self.buf, 0, n);
        self.locked = true;
        proof {
            assert(final(self)@ =~= Seq::new(LENGTH as nat, |i: int| 0u8));
        }
    }

    /// Converts a growable buffer into a fixed array, consuming it.  The
    /// conversion succeeds only when the buffer's logical length is exactly
    /// `LENGTH`; any other length is a [`Error::LengthMismatch`], and a
    /// zero-length target is rejected as at construction.
    pub fn try_from(source: SecureVec) -> (result: Result<SecureArray<LENGTH>, Error>)
        ensures
            source@.len() != LENGTH ==> result == Err::<SecureArray<LENGTH>, Error>(
                Error::LengthMismatch,
            ),
            source@.len() == LENGTH && LENGTH == 0 ==> result == Err::<SecureArray<LENGTH>, Error>(
                Error::LengthCannotBeZero,
            ),
            source@.len() == LENGTH && LENGTH >= 1 ==> (result matches Ok(a) && a@ == source@
                && a.is_locked()),
    {
        if source.len() != LENGTH {
            return Err(Error::LengthMismatch);
        }
        if LENGTH == 0 {
            return Err(Error::LengthCannotBeZero);
        }
        let buf: Vec<u8> = source.wire_bytes();
        Ok(SecureArray { buf, locked: true })
    }

    /// Converts this array into a growable buffer of the same contents,
    /// consuming it.  The new buffer's capacity equals `LENGTH` and it
    /// starts `Locked`.
    pub fn into_vec(self) -> (result: SecureVec)
        ensures
            result@ == self@,
            result.spec_capacity() == LENGTH,
            result.is_locked(),
    {
        proof {
            use_type_invariant(&self);
        }
        match SecureVec::from_vec(self.wire_bytes()) {
            Ok(v) => v,
            Err(_) => unreached(),
        }
    }

    /// The wire form of the array: its bytes as a plain ordered sequence,
    /// the representation the serialization adapters write.
    pub fn wire_bytes(&self) -> (out: Vec<u8>)
        ensures
            out@ == wire_form(self@),
    {
        vstd::slice::slice_to_vec(self.buf.as_slice())
    }
}

impl<const LENGTH: usize> Drop for SecureArray<LENGTH> {
    /// Zeroizes every byte before the allocation is released, so a dropped
    /// array leaves no copy of its secret behind.
    fn drop(&mut self)
        opens_invariants none
        no_unwind
    {
        proof {
            use_type_invariant(&*self);
        }
        let n: usize = LENGTH;
        crate::vec::zeroize_bytes(&mut self.buf, 0, n);
    }
}

impl<const LENGTH: usize> Clone for SecureArray<LENGTH> {
    /// Copies the bytes into an independent, equally sized region; the two
    /// arrays share no backing memory, so mutating one cannot affect the
    /// other.  The copy starts `Locked`.
    fn clone(&self) -> (result: SecureArray<LENGTH>)
        ensures
            result@ == self@,
            result.is_locked(),
    {
        proof {
            use_type_invariant(self);
        }
        SecureArray { buf: vstd::slice::slice_to_vec(self.buf.as_slice()), locked: true }
    }
}

/// Law: a fixed array and a growable buffer holding identical bytes have
/// byte-identical wire forms, so the two container kinds are
/// interchangeable on the wire.
pub proof fn lemma_wire_forms_agree<const LENGTH: usize>(array: SecureArray<LENGTH>, vec: SecureVec)
    requires
        array@ == vec@,
    ensures
        wire_form(array@) == wire_form(vec@),
{
}

} // verus!
