//! In-memory containers for secret data (keys, passwords, tokens).
//!
//! The containers hold their bytes in an exclusively owned buffer, expose them
//! only through scoped access while a logical protection state is "unlocked",
//! and erase them by writing zeroes that the compiler cannot elide.  The
//! platform pieces that pin pages and toggle hardware protection are not part
//! of this library; the allocation planning they need (header offsets, origin
//! tags, page rounding) is, and is verified here.

pub mod array;
pub mod string;
pub mod vec;

pub use array::SecureArray;
pub use string::SecureString;
pub use vec::SecureBytes;
pub use vec::SecureVec;

use vstd::arithmetic::div_mod::lemma_fundamental_div_mod;
use vstd::layout::{align_of, layout_for_type_is_valid, size_of};
use vstd::prelude::*;

verus! {

/// The ways an operation on a secure container can fail.
#[derive(Clone, Copy, Debug, PartialEq, Eq, Structural)]
pub enum Error {
    /// The backing allocation call failed.
    AllocationFailed,
    /// A zero-capacity container was requested.
    LengthCannotBeZero,
    /// The allocator reported success but handed back a null pointer.
    NullAllocation,
    /// The page-protection toggle towards "no access" failed.
    LockFailed,
    /// The page-protection toggle towards "read/write" failed.
    UnlockFailed,
    /// The at-rest encryption step failed.
    CryptProtectMemoryFailed,
    /// A fixed-size conversion was given a source of the wrong length.
    LengthMismatch,
}

/// The wire form of a secure byte container holding `content`: the plain
/// ordered sequence of its bytes, shared by the fixed-length and the
/// growable containers so they are interchangeable on the wire.
pub open spec fn wire_form(content: Seq<u8>) -> Seq<u8> {
    content
}

/// Origin tag written in front of a block that came from the ordinary secure
/// allocator.
pub const ALLOC_TAG_MALLOC: usize = 0xDEAD_BEEF;

/// Origin tag written in front of a block that came from the secret-memory
/// facility.
pub const ALLOC_TAG_MEMFD: usize = 0x5EC0_0000;

/// The facility a raw block was allocated from.  Freeing must dispatch to the
/// release call of the same facility.
#[derive(Clone, Copy, Debug, PartialEq, Eq, Structural)]
pub enum AllocBacking {
    /// Secret-backed anonymous memory that the kernel itself cannot read.
    SecretMemory,
    /// Ordinary secure allocation (page-locked, guarded).
    SecureMalloc,
}

/// The origin tag that is written in front of a block of the given backing.
pub fn backing_tag(backing: AllocBacking) -> (tag: usize)
    ensures
        backing == AllocBacking::SecretMemory ==> tag == ALLOC_TAG_MEMFD,
        backing == AllocBacking::SecureMalloc ==> tag == ALLOC_TAG_MALLOC,
{
    match backing {
        AllocBacking::SecretMemory => ALLOC_TAG_MEMFD,
        AllocBacking::SecureMalloc => ALLOC_TAG_MALLOC,
    }
}

/// Reads an origin tag back.  `None` means the tag matches no known facility:
/// the block's header was corrupted (or freed twice), which the caller must
/// treat as fatal, never as a recoverable error.
pub fn classify_tag(tag: usize) -> (backing: Option<AllocBacking>)
    ensures
        backing == Some(AllocBacking::SecretMemory) <==> tag == ALLOC_TAG_MEMFD,
        backing == Some(AllocBacking::SecureMalloc) <==> tag == ALLOC_TAG_MALLOC,
        backing is None <==> tag != ALLOC_TAG_MEMFD && tag != ALLOC_TAG_MALLOC,
{
    if tag == ALLOC_TAG_MEMFD {
        Some(AllocBacking::SecretMemory)
    } else if tag == ALLOC_TAG_MALLOC {
        Some(AllocBacking::SecureMalloc)
    } else {
        None
    }
}

/// The offset at which user data starts in a block that carries a `usize`
/// origin tag in front, while keeping elements of type `T` aligned.
pub open spec fn spec_header_offset<T>() -> nat {
    if align_of::<T>() > size_of::<usize>() {
        align_of::<T>()
    } else {
        size_of::<usize>()
    }
}

/// Calculates the offset needed to store a `usize` header while maintaining
/// the alignment requirements of `T`.
pub fn get_header_offset<T>() -> (offset: usize)
    ensures
        offset == spec_header_offset::<T>(),
{
    layout_for_type_is_valid::<T>();
    layout_for_type_is_valid::<usize>();
    let header_size: usize = core::mem::size_of::<usize>();
    let align: usize = core::mem::align_of::<T>();
    if align > header_size {
        align
    } else {
        header_size
    }
}

/// The common alignment a tagged block must satisfy: the stricter of the
/// header's (`usize`) and the element type's.
pub open spec fn spec_align_requirement<T>() -> nat {
    if align_of::<T>() > align_of::<usize>() {
        align_of::<T>()
    } else {
        align_of::<usize>()
    }
}

/// The total number of bytes the secure allocator must request so that
/// `size` bytes of user data fit behind the origin-tag header: the size plus
/// the header offset, padded up to the common alignment requirement.
/// [`Error::AllocationFailed`] exactly when that total overflows the address
/// space.
pub fn alloc_block_size<T>(size: usize) -> (result: Result<usize, Error>)
    ensures
        ({
            let padded = round_up(
                size + spec_header_offset::<T>(),
                spec_align_requirement::<T>() as int,
            );
            &&& (result matches Ok(total) ==> total == padded)
            &&& (result is Err <==> padded > usize::MAX)
            &&& (result is Err ==> result == Err::<usize, Error>(Error::AllocationFailed))
        }),
{
    layout_for_type_is_valid::<T>();
    layout_for_type_is_valid::<usize>();
    let header_offset: usize = get_header_offset::<T>();
    let align_usize: usize = core::mem::align_of::<usize>();
    let align_elem: usize = core::mem::align_of::<T>();
    let align_req: usize = if align_elem > align_usize {
        align_elem
    } else {
        align_usize
    };
    let raw_size: usize = match size.checked_add(header_offset) {
        Some(s) => s,
        None => {
            proof {
                lemma_round_up_properties(
                    size + spec_header_offset::<T>(),
                    spec_align_requirement::<T>() as int,
                );
            }
            return Err(Error::AllocationFailed);
        },
    };
    proof {
        lemma_round_up_properties(raw_size as int, align_req as int);
    }
    let rem: usize = raw_size % align_req;
    if rem == 0 {
        Ok(raw_size)
    } else {
        match raw_size.checked_add(align_req - rem) {
            Some(total) => Ok(total),
            None => Err(Error::AllocationFailed),
        }
    }
}

/// `x` rounded up to the next multiple of `m` (for `m >= 1`).
pub open spec fn round_up(x: int, m: int) -> int {
    if x % m == 0 {
        x
    } else {
        x + m - x % m
    }
}

proof fn lemma_round_up_properties(x: int, m: int)
    requires
        x >= 0,
        m >= 1,
    ensures
        round_up(x, m) % m == 0,
        x <= round_up(x, m) < x + m,
{
    lemma_fundamental_div_mod(x, m);
    vstd::arithmetic::div_mod::lemma_mod_bound(x, m);
    if x % m == 0 {
    } else {
        let r = x + m - x % m;
        assert(r == m * (x / m + 1)) by (nonlinear_arith)
            requires
                m >= 1,
                x == m * (x / m) + x % m,
                r == x + m - x % m,
        ;
        assert(r % m == 0) by (nonlinear_arith)
            requires
                m >= 1,
                r == m * (x / m + 1),
        ;
    }
}

/// Rounds a byte size up to a whole number of pages, so that page-granular
/// protection always covers the requested bytes exactly.
pub fn page_aligned_size(size: usize, page_size: usize) -> (aligned: usize)
    requires
        page_size >= 1,
        round_up(size as int, page_size as int) <= usize::MAX,
    ensures
        aligned == round_up(size as int, page_size as int),
        aligned % page_size == 0,
        size <= aligned < size + page_size,
{
    proof {
        lemma_round_up_properties(size as int, page_size as int);
    }
    let rem = size % page_size;
    if rem == 0 {
        size
    } else {
        size + (page_size - rem)
    }
}

} // verus!
