//! The secure UTF-8 text container: a growable secure buffer whose bytes are
//! valid UTF-8 at every observable boundary, with character-indexed editing
//! that scans the encoding from the start.

use vstd::prelude::*;
use vstd::string::StringSliceAdditionalSpecFns;
use vstd::utf8::*;

use crate::vec::SecureVec;
use crate::Error;

verus! {

/// The byte offset at which the character at index `char_idx` starts, in a
/// valid UTF-8 byte sequence; the total length when `char_idx` is at or past
/// the last character.  Character offsets are found by scanning from the
/// start, never assumed constant-time.
pub open spec fn char_byte_index(bytes: Seq<u8>, char_idx: int) -> int
    recommends
        valid_utf8(bytes),
    decreases char_idx,
{
    if bytes.len() == 0 || char_idx <= 0 {
        0
    } else {
        length_of_first_scalar(bytes) + char_byte_index(
            pop_first_scalar(bytes),
            char_idx - 1,
        )
    }
}

/// What [`char_byte_index`] finds: an in-bounds character boundary, whose
/// prefix encodes exactly the first `char_idx` characters (all of them when
/// `char_idx` reaches past the end).
pub proof fn lemma_char_byte_index(bytes: Seq<u8>, k: int)
    requires
        valid_utf8(bytes),
        0 <= k,
    ensures
        0 <= char_byte_index(bytes, k) <= bytes.len(),
        is_char_boundary(bytes, char_byte_index(bytes, k)),
        ({
            let n = decode_utf8(bytes).len() as int;
            let kk = if k < n {
                k
            } else {
                n
            };
            bytes.subrange(0, char_byte_index(bytes, k)) == encode_utf8(
                decode_utf8(bytes).take(kk),
            )
        }),
    decreases k,
{
    if bytes.len() == 0 {
        assert(bytes.subrange(0, 0) =~= encode_utf8(decode_utf8(bytes).take(0)));
    } else if k == 0 {
        assert(decode_utf8(bytes).take(0) =~= Seq::<char>::empty());
        assert(bytes.subrange(0, 0) =~= encode_utf8(Seq::<char>::empty()));
    } else {
        let len_first = length_of_first_scalar(bytes);
        let rest = pop_first_scalar(bytes);
        lemma_char_byte_index(rest, k - 1);
        let m = char_byte_index(rest, k - 1);
        let idx = len_first + m;
        assert(1 <= len_first <= bytes.len());
        assert(rest.len() == bytes.len() - len_first);
        assert(is_char_boundary(bytes, idx));

        let chars = decode_utf8(bytes);
        let chars_rest = decode_utf8(rest);
        let n = chars.len() as int;
        let kk = if k < n {
            k
        } else {
            n
        };
        let n_rest = chars_rest.len() as int;
        let kk_rest = if k - 1 < n_rest {
            k - 1
        } else {
            n_rest
        };
        assert(chars == seq![decode_first_scalar(bytes) as char] + chars_rest);
        assert(kk == 1 + kk_rest);
        let taken = chars.take(kk);
        assert(taken.len() == kk && taken[0] == chars[0]);
        assert(taken.drop_first() =~= chars_rest.take(kk_rest));
        decode_utf8_first_scalar(bytes);
        assert(encode_utf8(taken) == encode_scalar(taken[0] as u32) + encode_utf8(
            taken.drop_first(),
        ));
        assert(bytes.subrange(0, idx) =~= take_first_scalar(bytes) + rest.subrange(0, m));
    }
}

/// The byte offset of the character at `char_idx`, found by scanning the
/// UTF-8 encoding from the start; the total length when `char_idx` is at or
/// past the last character.
pub fn char_to_byte_idx(s_bytes: &[u8], char_idx: usize) -> (idx: usize)
    requires
        valid_utf8(s_bytes@),
    ensures
        idx == char_byte_index(s_bytes@, char_idx as int),
{
    let n: usize = s_bytes.len();
    proof {
        assert(s_bytes@.subrange(0, n as int) =~= s_bytes@);
    }
    let mut i: usize = 0;
    let mut remaining: usize = char_idx;
    while i < n && remaining > 0
        invariant
            0 <= i <= n,
            n == s_bytes@.len(),
            remaining <= char_idx,
            valid_utf8(s_bytes@),
            valid_utf8(s_bytes@.subrange(i as int, n as int)),
            char_byte_index(s_bytes@, char_idx as int) == i + char_byte_index(
                s_bytes@.subrange(i as int, n as int),
                remaining as int,
            ),
        decreases n - i,
    {
        let ghost suffix = s_bytes@.subrange(i as int, n as int);
        let lead: u8 = s_bytes[i];
        let width: usize = if lead < 0x80 {
            1
        } else if lead < 0xE0 {
            2
        } else if lead < 0xF0 {
            3
        } else {
            4
        };
        proof {
            assert(suffix.len() > 0 && valid_first_scalar(suffix));
            assert(suffix[0] == lead);
            assert(width == length_of_first_scalar(suffix));
            assert(pop_first_scalar(suffix) =~= s_bytes@.subrange(i + width, n as int));
        }
        i = i + width;
        remaining = remaining - 1;
    }
    proof {
        let suffix = s_bytes@.subrange(i as int, n as int);
        assert(char_byte_index(suffix, remaining as int) == 0);
    }
    i
}

/// Encoding characters distributes over concatenation.
pub proof fn lemma_encode_utf8_concat(a: Seq<char>, b: Seq<char>)
    ensures
        encode_utf8(a + b) == encode_utf8(a) + encode_utf8(b),
    decreases a.len(),
{
    if a.len() == 0 {
        assert(a + b =~= b);
        assert(encode_utf8(a) + encode_utf8(b) =~= encode_utf8(b));
    } else {
        assert((a + b).len() > 0 && (a + b)[0] == a[0]);
        assert((a + b).drop_first() =~= a.drop_first() + b);
        lemma_encode_utf8_concat(a.drop_first(), b);
        assert(encode_scalar(a[0] as u32) + (encode_utf8(a.drop_first()) + encode_utf8(b)) =~= (
        encode_scalar(a[0] as u32) + encode_utf8(a.drop_first())) + encode_utf8(b));
    }
}

/// Only the empty character sequence encodes to the empty byte sequence.
pub proof fn lemma_encode_utf8_empty(chars: Seq<char>)
    requires
        encode_utf8(chars).len() == 0,
    ensures
        chars.len() == 0,
{
    if chars.len() > 0 {
        char_is_scalar(chars[0]);
        assert(encode_scalar(chars[0] as u32).len() >= 1);
    }
}

/// A later character never starts at an earlier byte.
pub proof fn lemma_char_byte_index_monotonic(bytes: Seq<u8>, k1: int, k2: int)
    requires
        valid_utf8(bytes),
        0 <= k1 <= k2,
    ensures
        char_byte_index(bytes, k1) <= char_byte_index(bytes, k2),
    decreases k1,
{
    if bytes.len() == 0 || k1 == 0 {
        lemma_char_byte_index(bytes, k2);
    } else {
        lemma_char_byte_index_monotonic(pop_first_scalar(bytes), k1 - 1, k2 - 1);
    }
}

/// The number of characters encoded in a valid UTF-8 byte sequence, found by
/// scanning from the start.
pub fn char_count_of(s_bytes: &[u8]) -> (count: usize)
    requires
        valid_utf8(s_bytes@),
    ensures
        count == decode_utf8(s_bytes@).len(),
{
    let n: usize = s_bytes.len();
    proof {
        assert(s_bytes@.subrange(0, n as int) =~= s_bytes@);
    }
    let mut i: usize = 0;
    let mut count: usize = 0;
    while i < n
        invariant
            0 <= i <= n,
            count <= i,
            n == s_bytes@.len(),
            valid_utf8(s_bytes@),
            valid_utf8(s_bytes@.subrange(i as int, n as int)),
            decode_utf8(s_bytes@).len() == count + decode_utf8(
                s_bytes@.subrange(i as int, n as int),
            ).len(),
        decreases n - i,
    {
        let ghost suffix = s_bytes@.subrange(i as int, n as int);
        let lead: u8 = s_bytes[i];
        let width: usize = if lead < 0x80 {
            1
        } else if lead < 0xE0 {
            2
        } else if lead < 0xF0 {
            3
        } else {
            4
        };
        proof {
            assert(suffix.len() > 0 && valid_first_scalar(suffix));
            assert(suffix[0] == lead);
            assert(width == length_of_first_scalar(suffix));
            assert(pop_first_scalar(suffix) =~= s_bytes@.subrange(i + width, n as int));
            assert(decode_utf8(suffix) == seq![decode_first_scalar(suffix) as char] + decode_utf8(
                pop_first_scalar(suffix),
            ));
        }
        i = i + width;
        count = count + 1;
    }
    count
}

/// A securely held, growable UTF-8 string, analogous to `std::string::String`.
///
/// A thin wrapper around [`SecureVec`] that keeps one further invariant: the
/// live bytes are valid UTF-8 at every observable boundary.  Character
/// positions are translated to byte offsets by scanning the encoding from
/// the start — linear work per operation, never assumed constant-time.  Its
/// value, as seen by contracts, is the decoded character sequence.
pub struct SecureString {
    /// The guarded byte buffer holding the UTF-8 encoding.
    vec: SecureVec,
}

impl View for SecureString {
    type V = Seq<char>;

    /// The characters encoded by the live bytes.
    closed spec fn view(&self) -> Seq<char> {
        decode_utf8(self.vec@)
    }
}

impl SecureString {
    #[verifier::type_invariant]
    spec fn wf(self) -> bool {
        valid_utf8(self.vec@)
    }

    /// The UTF-8 bytes of the text.
    pub closed spec fn spec_bytes(&self) -> Seq<u8> {
        self.vec@
    }

    /// The capacity in bytes of the underlying buffer.
    pub closed spec fn spec_capacity(&self) -> nat {
        self.vec.spec_capacity()
    }

    /// Whether the underlying region is in the protection state `Locked`.
    pub closed spec fn is_locked(&self) -> bool {
        self.vec.is_locked()
    }

    /// Every byte of the underlying backing region, the stale suffix
    /// included, for stating what erasure and compaction zeroize.
    pub closed spec fn backing(&self) -> Seq<u8> {
        self.vec.backing()
    }

    /// Creates an empty text whose buffer has a capacity of one byte.
    pub fn new() -> (result: Result<SecureString, Error>)
        ensures
            result matches Ok(s) && s@ == Seq::<char>::empty() && s.spec_bytes()
                == Seq::<u8>::empty() && s.spec_capacity() == 1 && s.is_locked(),
    {
        let vec = fresh_vec();
        Ok(SecureString { vec })
    }

    /// Creates an empty text able to hold `capacity` bytes before its buffer
    /// must grow.  A zero request is raised to one byte.
    pub fn new_with_capacity(capacity: usize) -> (result: Result<SecureString, Error>)
        ensures
            result matches Ok(s) ==> {
                &&& s@ == Seq::<char>::empty()
                &&& s.spec_bytes() == Seq::<u8>::empty()
                &&& s.spec_capacity() == if capacity == 0 {
                    1nat
                } else {
                    capacity as nat
                }
                &&& s.is_locked()
            },
            result is Ok,
    {
        match SecureVec::new_with_capacity(capacity) {
            Ok(vec) => Ok(SecureString { vec }),
            Err(_) => unreached(),
        }
    }

    /// Copies the characters of `text` into a fresh secure text.  The source
    /// is not zeroized; the caller stays responsible for it.
    pub fn from(text: &str) -> (result: SecureString)
        ensures
            result@ == text@,
            result.spec_bytes() == text.spec_bytes(),
            result.is_locked(),
    {
        broadcast use encode_utf8_valid_utf8, encode_utf8_decode_utf8;

        let bytes: &[u8] = text.as_bytes();
        let vec = match SecureVec::from_vec(vstd::slice::slice_to_vec(bytes)) {
            Ok(v) => v,
            Err(_) => unreached(),
        };
        SecureString { vec }
    }

    /// Takes ownership of an exposed string: its characters move into a
    /// fresh secure text and the source is zeroized, so the only live copy
    /// of the secret is the protected one.
    pub fn from_string(text: String) -> (result: SecureString)
        ensures
            result@ == text@,
            result.spec_bytes() == encode_utf8(text@),
            result.is_locked(),
    {
        let mut source = text;
        let result = Self::from(source.as_str());
        zeroize_string(&mut source);
        result
    }

    /// The length of the text in bytes.  Also exports the standing relation
    /// between the two views: the bytes are always the UTF-8 encoding of the
    /// characters.
    pub fn len(&self) -> (n: usize)
        ensures
            n == self.spec_bytes().len(),
            n <= self.spec_capacity(),
            valid_utf8(self.spec_bytes()),
            encode_utf8(self@) == self.spec_bytes(),
    {
        proof {
            use_type_invariant(self);
            broadcast use decode_utf8_encode_utf8;

        }
        self.vec.len()
    }

    /// The capacity in bytes of the underlying buffer.
    pub fn capacity(&self) -> (n: usize)
        ensures
            n == self.spec_capacity(),
    {
        self.vec.capacity()
    }

    /// The length of the text in characters, counted by scanning the
    /// encoding.
    pub fn char_len(&self) -> (n: usize)
        ensures
            n == self@.len(),
    {
        proof {
            use_type_invariant(self);
        }
        char_count_of(self.vec.live_slice())
    }

    /// Erases the text: every live byte of the buffer is overwritten with
    /// zero, the text becomes empty, and the region is left `Locked`.  The
    /// buffer's capacity is preserved for reuse.
    pub fn erase(&mut self)
        ensures
            final(self)@ == Seq::<char>::empty(),
            final(self).spec_bytes() == Seq::<u8>::empty(),
            final(self).spec_capacity() == old(self).spec_capacity(),
            final(self).is_locked(),
            final(self).backing() == Seq::new(
                old(self).backing().len(),
                |i: int|
                    if i < old(self).spec_bytes().len() {
                        0u8
                    } else {
                        old(self).backing()[i]
                    },
            ),
    {
        proof {
            use_type_invariant(&*self);
        }
        let mut work = fresh_vec();
        core::mem::swap(&mut self.vec, &mut work);
        work.erase();
        core::mem::swap(&mut self.vec, &mut work);
    }
}

impl SecureString {
    /// Appends the characters of `string`, growing the buffer in one
    /// amortized step when it is too small, and leaves the region `Locked`
    /// whenever bytes were appended.
    pub fn push_str(&mut self, string: &str)
        requires
            old(self).spec_bytes().len() + string.spec_bytes().len() <= usize::MAX,
            old(self).spec_bytes().len() + string.spec_bytes().len() > old(self).spec_capacity()
                ==> 2 * old(self).spec_capacity() <= usize::MAX,
        ensures
            final(self).spec_bytes() == old(self).spec_bytes() + string.spec_bytes(),
            final(self)@ == old(self)@ + string@,
            final(self).spec_capacity() == if old(self).spec_bytes().len()
                + string.spec_bytes().len() <= old(self).spec_capacity() {
                old(self).spec_capacity()
            } else {
                crate::vec::grown_capacity(
                    old(self).spec_capacity(),
                    (old(self).spec_bytes().len() + string.spec_bytes().len()) as nat,
                )
            },
            string.spec_bytes().len() > 0 ==> final(self).is_locked(),
            string.spec_bytes().len() == 0 ==> *final(self) == *old(self),
    {
        proof {
            use_type_invariant(&*self);
        }
        let bytes: &[u8] = string.as_bytes();
        let n: usize = bytes.len();
        if n == 0 {
            let current_len: usize = self.vec.len();
            proof {
                assert(current_len <= old(self).spec_capacity());
                assert(old(self).spec_bytes() + string.spec_bytes() =~= old(self).spec_bytes());
                assert(old(self)@ + string@ =~= old(self)@) by {
                    lemma_encode_utf8_empty(string@);
                }
            }
            return ;
        }
        let mut work = fresh_vec();
        core::mem::swap(&mut self.vec, &mut work);
        let ghost orig = work@;
        work.reserve(n);
        let ghost cap1 = work.spec_capacity();
        let ghost locked1 = work.is_locked();
        let mut i: usize = 0;
        while i < n
            invariant
                0 <= i <= n,
                n == bytes@.len(),
                orig.len() + n <= usize::MAX,
                work@ == orig + bytes@.subrange(0, i as int),
                work@.len() == orig.len() + i,
                orig.len() + n <= cap1,
                work.spec_capacity() == cap1,
                i > 0 ==> work.is_locked(),
                i == 0 ==> work.is_locked() == locked1,
            decreases n - i,
        {
            work.push(bytes[i]);
            i += 1;
            proof {
                assert(work@ =~= orig + bytes@.subrange(0, i as int));
            }
        }
        proof {
            broadcast use encode_utf8_valid_utf8, valid_utf8_concat, decode_utf8_encode_utf8,
                encode_utf8_decode_utf8;

            assert(work@ =~= orig + bytes@);
            assert(valid_utf8(work@));
            lemma_encode_utf8_concat(old(self)@, string@);
            assert(work@ == encode_utf8(old(self)@ + string@));
        }
        core::mem::swap(&mut self.vec, &mut work);
    }

    /// Unlocks the region, runs `f` on the text as `&str`, and relocks it
    /// before returning: the sanctioned scoped read path.
    pub fn str_scope<F: FnOnce(&str) -> R, R>(&mut self, f: F) -> (result: R)
        requires
            forall|s: &str| s@ == old(self)@ ==> call_requires(f, (s,)),
        ensures
            final(self)@ == old(self)@,
            final(self).spec_bytes() == old(self).spec_bytes(),
            final(self).spec_capacity() == old(self).spec_capacity(),
            final(self).is_locked(),
            exists|s: &str| s@ == old(self)@ && call_ensures(f, (s,), result),
    {
        proof {
            use_type_invariant(&*self);
        }
        let mut work = fresh_vec();
        core::mem::swap(&mut self.vec, &mut work);
        work.unlock_memory();
        let result: R;
        {
            let slice: &[u8] = work.live_slice();
            match bytes_as_str(slice) {
                Some(s) => {
                    proof {
                        broadcast use encode_utf8_decode_utf8;

                        assert(s@ == old(self)@);
                    }
                    result = f(s);
                    proof {
                        assert(s@ == old(self)@ && call_ensures(f, (s,), result));
                    }
                },
                None => {
                    result = unreached();
                },
            }
        }
        work.lock_memory();
        core::mem::swap(&mut self.vec, &mut work);
        result
    }

    /// Inserts the characters of `text_to_insert` in front of the character
    /// at `char_idx` (at the end when `char_idx` is past the last
    /// character), and reports how many characters went in.  The byte offset
    /// is found by scanning from the start; when the grown text no longer
    /// fits, the buffer is rebuilt at exactly the new length, and the old
    /// region is zeroized before release.
    pub fn insert_text_at_char_idx(&mut self, char_idx: usize, text_to_insert: &str) -> (inserted:
        usize)
        requires
            old(self).spec_bytes().len() + text_to_insert.spec_bytes().len() <= usize::MAX,
        ensures
            inserted == text_to_insert@.len(),
            ({
                let ob = old(self).spec_bytes();
                let tb = text_to_insert.spec_bytes();
                let bi = char_byte_index(ob, char_idx as int);
                let n = old(self)@.len() as int;
                let kk = if (char_idx as int) < n {
                    char_idx as int
                } else {
                    n
                };
                &&& final(self).spec_bytes() == ob.subrange(0, bi) + tb + ob.subrange(
                    bi,
                    ob.len() as int,
                )
                &&& final(self)@ == old(self)@.take(kk) + text_to_insert@ + old(self)@.skip(kk)
                &&& final(self).spec_capacity() == if ob.len() + tb.len() <= old(
                    self,
                ).spec_capacity() {
                    old(self).spec_capacity()
                } else {
                    (ob.len() + tb.len()) as nat
                }
                &&& (tb.len() > 0 ==> final(self).is_locked())
                &&& (tb.len() > 0 ==> final(self).backing() == Seq::new(
                    final(self).spec_capacity(),
                    |i: int|
                        if i < final(self).spec_bytes().len() {
                            final(self).spec_bytes()[i]
                        } else {
                            0u8
                        },
                ))
                &&& (tb.len() == 0 ==> *final(self) == *old(self))
            }),
    {
        proof {
            use_type_invariant(&*self);
        }
        let ghost ob = self.vec@;
        let ghost n_chars = old(self)@.len() as int;
        let ghost kk = if (char_idx as int) < n_chars {
            char_idx as int
        } else {
            n_chars
        };
        let tbytes: &[u8] = text_to_insert.as_bytes();
        let old_len: usize = self.vec.len();
        let old_cap: usize = self.vec.capacity();
        proof {
            lemma_char_byte_index(ob, char_idx as int);
        }
        if tbytes.len() == 0 {
            proof {
                lemma_encode_utf8_empty(text_to_insert@);
                let bi = char_byte_index(ob, char_idx as int);
                assert(ob.subrange(0, bi) + text_to_insert.spec_bytes() + ob.subrange(
                    bi,
                    ob.len() as int,
                ) =~= ob);
                assert(old(self)@.take(kk) + text_to_insert@ + old(self)@.skip(kk) =~= old(
                    self,
                )@);
            }
            return 0;
        }
        let new_len: usize = old_len + tbytes.len();
        let byte_idx: usize = char_to_byte_idx(self.vec.live_slice(), char_idx);
        let target_cap: usize = if new_len <= old_cap {
            old_cap
        } else {
            new_len
        };
        let mut rebuilt = match SecureVec::new_with_capacity(target_cap) {
            Ok(v) => v,
            Err(_) => unreached(),
        };
        let src: &[u8] = self.vec.live_slice();
        let tn: usize = tbytes.len();
        let mut i: usize = 0;
        while i < byte_idx
            invariant
                0 <= i <= byte_idx <= src@.len(),
                src@ == ob,
                src@.len() == old_len,
                new_len == old_len + tn,
                new_len <= target_cap,
                new_len <= usize::MAX,
                rebuilt@ == ob.subrange(0, i as int),
                rebuilt@.len() == i,
                rebuilt.spec_capacity() == target_cap,
                rebuilt.is_locked(),
                rebuilt.backing() == Seq::new(
                    target_cap as nat,
                    |k: int| if k < rebuilt@.len() { rebuilt@[k] } else { 0u8 },
                ),
            decreases byte_idx - i,
        {
            rebuilt.push(src[i]);
            i += 1;
            proof {
                assert(rebuilt@ =~= ob.subrange(0, i as int));
                assert(rebuilt.backing() =~= Seq::new(
                    target_cap as nat,
                    |k: int| if k < rebuilt@.len() { rebuilt@[k] } else { 0u8 },
                ));
            }
        }
        let mut t: usize = 0;
        while t < tn
            invariant
                0 <= t <= tn,
                tn == tbytes@.len(),
                byte_idx <= ob.len(),
                new_len == ob.len() + tn,
                new_len <= target_cap,
                new_len <= usize::MAX,
                rebuilt@ == ob.subrange(0, byte_idx as int) + tbytes@.subrange(0, t as int),
                rebuilt@.len() == byte_idx + t,
                rebuilt.spec_capacity() == target_cap,
                rebuilt.is_locked(),
                rebuilt.backing() == Seq::new(
                    target_cap as nat,
                    |k: int| if k < rebuilt@.len() { rebuilt@[k] } else { 0u8 },
                ),
            decreases tn - t,
        {
            rebuilt.push(tbytes[t]);
            t += 1;
            proof {
                assert(rebuilt@ =~= ob.subrange(0, byte_idx as int) + tbytes@.subrange(
                    0,
                    t as int,
                ));
                assert(rebuilt.backing() =~= Seq::new(
                    target_cap as nat,
                    |k: int| if k < rebuilt@.len() { rebuilt@[k] } else { 0u8 },
                ));
            }
        }
        let mut j: usize = byte_idx;
        while j < old_len
            invariant
                byte_idx <= j <= old_len,
                src@ == ob,
                src@.len() == old_len,
                tn == tbytes@.len(),
                new_len == old_len + tn,
                new_len <= target_cap,
                new_len <= usize::MAX,
                rebuilt@ == ob.subrange(0, byte_idx as int) + tbytes@ + ob.subrange(
                    byte_idx as int,
                    j as int,
                ),
                rebuilt@.len() == j + tn,
                rebuilt.spec_capacity() == target_cap,
                rebuilt.is_locked(),
                rebuilt.backing() == Seq::new(
                    target_cap as nat,
                    |k: int| if k < rebuilt@.len() { rebuilt@[k] } else { 0u8 },
                ),
            decreases old_len - j,
        {
            rebuilt.push(src[j]);
            j += 1;
            proof {
                assert(rebuilt@ =~= ob.subrange(0, byte_idx as int) + tbytes@ + ob.subrange(
                    byte_idx as int,
                    j as int,
                ));
                assert(rebuilt.backing() =~= Seq::new(
                    target_cap as nat,
                    |k: int| if k < rebuilt@.len() { rebuilt@[k] } else { 0u8 },
                ));
            }
        }
        proof {
            broadcast use encode_utf8_valid_utf8, valid_utf8_concat, decode_utf8_encode_utf8,
                encode_utf8_decode_utf8, valid_utf8_split, decode_utf8_split;

            let bi = char_byte_index(ob, char_idx as int);
            let pre = ob.subrange(0, bi);
            let suf = ob.subrange(bi, ob.len() as int);
            assert(rebuilt@ =~= pre + tbytes@ + suf);
            assert(valid_utf8(pre) && valid_utf8(suf));
            assert(valid_utf8(tbytes@));
            assert(valid_utf8(rebuilt@)) by {
                valid_utf8_concat(pre, tbytes@);
                valid_utf8_concat(pre + tbytes@, suf);
            }
            let taken = old(self)@.take(kk);
            assert(pre == encode_utf8(taken));
            assert(decode_utf8(ob) == decode_utf8(pre) + decode_utf8(suf));
            assert(decode_utf8(pre) == taken);
            assert(decode_utf8(suf) =~= old(self)@.skip(kk));
            assert(suf == encode_utf8(old(self)@.skip(kk)));
            lemma_encode_utf8_concat(taken, text_to_insert@);
            lemma_encode_utf8_concat(taken + text_to_insert@, old(self)@.skip(kk));
            assert(rebuilt@ == encode_utf8((taken + text_to_insert@) + old(self)@.skip(kk)));
            assert((taken + text_to_insert@) + old(self)@.skip(kk) =~= taken + text_to_insert@
                + old(self)@.skip(kk));
        }
        core::mem::swap(&mut self.vec, &mut rebuilt);
        rebuilt.erase();
        let inserted: usize = char_count_of(tbytes);
        proof {
            broadcast use encode_utf8_decode_utf8;

            assert(inserted == text_to_insert@.len());
        }
        inserted
    }
}

impl SecureString {
    /// Deletes the characters with indices in `char_start..char_end`
    /// (clamped to the text's length), shifting the rest left and zeroizing
    /// every vacated byte.  An empty or backwards range changes nothing.
    pub fn delete_text_char_range(&mut self, char_start: usize, char_end: usize)
        ensures
            char_start >= char_end ==> *final(self) == *old(self),
            ({
                let ob = old(self).spec_bytes();
                let bs = char_byte_index(ob, char_start as int);
                let be = char_byte_index(ob, char_end as int);
                let n = old(self)@.len() as int;
                let ks = if (char_start as int) < n {
                    char_start as int
                } else {
                    n
                };
                let ke = if (char_end as int) < n {
                    char_end as int
                } else {
                    n
                };
                char_start < char_end ==> {
                    &&& final(self).spec_bytes() == ob.subrange(0, bs) + ob.subrange(
                        be,
                        ob.len() as int,
                    )
                    &&& final(self)@ == old(self)@.take(ks) + old(self)@.skip(ke)
                    &&& final(self).spec_capacity() == old(self).spec_capacity()
                    &&& final(self).is_locked()
                    &&& final(self).backing() == Seq::new(
                        old(self).backing().len(),
                        |i: int|
                            if i < ob.len() - (be - bs) {
                                final(self).spec_bytes()[i]
                            } else if i < ob.len() {
                                0u8
                            } else {
                                old(self).backing()[i]
                            },
                    )
                }
            }),
    {
        if char_start >= char_end {
            return ;
        }
        proof {
            use_type_invariant(&*self);
        }
        let ghost ob = self.vec@;
        let ghost n_chars = old(self)@.len() as int;
        let ghost ks = if (char_start as int) < n_chars {
            char_start as int
        } else {
            n_chars
        };
        let ghost ke = if (char_end as int) < n_chars {
            char_end as int
        } else {
            n_chars
        };
        let byte_start: usize = char_to_byte_idx(self.vec.live_slice(), char_start);
        let byte_end: usize = char_to_byte_idx(self.vec.live_slice(), char_end);
        proof {
            lemma_char_byte_index(ob, char_start as int);
            lemma_char_byte_index(ob, char_end as int);
            lemma_char_byte_index_monotonic(ob, char_start as int, char_end as int);
        }
        let mut work = fresh_vec();
        core::mem::swap(&mut self.vec, &mut work);
        let mut removed = work.drain(
            crate::vec::RangeEdge::Included(byte_start),
            crate::vec::RangeEdge::Excluded(byte_end),
        );
        let removed_len: usize = removed.len();
        crate::vec::zeroize_bytes(&mut removed, 0, removed_len);
        proof {
            broadcast use encode_utf8_valid_utf8, decode_utf8_encode_utf8, encode_utf8_decode_utf8;

            let bs = byte_start as int;
            let be = byte_end as int;
            let pre = ob.subrange(0, bs);
            let mid = ob.subrange(bs, be);
            let suf = ob.subrange(be, ob.len() as int);
            valid_utf8_split(ob, be);
            let front = ob.subrange(0, be);
            assert(pre =~= front.subrange(0, bs));
            assert(is_char_boundary(front, bs)) by {
                lemma_char_boundary_prefix(ob, bs, be);
            }
            valid_utf8_split(front, bs);
            assert(valid_utf8(pre) && valid_utf8(suf));
            valid_utf8_concat(pre, suf);
            assert(work@ =~= pre + suf);

            let taken = old(self)@.take(ks);
            let dropped = old(self)@.skip(ke);
            assert(pre == encode_utf8(taken));
            decode_utf8_split(ob, be);
            assert(decode_utf8(ob) == decode_utf8(front) + decode_utf8(suf));
            assert(front == encode_utf8(old(self)@.take(ke)));
            assert(decode_utf8(front) == old(self)@.take(ke));
            assert(decode_utf8(suf) =~= dropped);
            assert(suf == encode_utf8(dropped));
            lemma_encode_utf8_concat(taken, dropped);
            assert(work@ == encode_utf8(taken + dropped));
        }
        core::mem::swap(&mut self.vec, &mut work);
    }

    /// Removes the bytes in `start..end`, which must both lie on character
    /// boundaries, shifting the tail left and zeroizing every vacated byte.
    /// The region ends `Locked` with its capacity unchanged.
    pub fn drain(&mut self, start: usize, end: usize)
        requires
            start <= end <= old(self).spec_bytes().len(),
            is_char_boundary(old(self).spec_bytes(), start as int),
            is_char_boundary(old(self).spec_bytes(), end as int),
        ensures
            ({
                let ob = old(self).spec_bytes();
                &&& final(self).spec_bytes() == ob.subrange(0, start as int) + ob.subrange(
                    end as int,
                    ob.len() as int,
                )
                &&& final(self)@ == decode_utf8(ob.subrange(0, start as int)) + decode_utf8(
                    ob.subrange(end as int, ob.len() as int),
                )
                &&& final(self).spec_capacity() == old(self).spec_capacity()
                &&& final(self).is_locked()
                &&& final(self).backing() == Seq::new(
                    old(self).backing().len(),
                    |i: int|
                        if i < ob.len() - (end - start) {
                            final(self).spec_bytes()[i]
                        } else if i < ob.len() {
                            0u8
                        } else {
                            old(self).backing()[i]
                        },
                )
            }),
    {
        proof {
            use_type_invariant(&*self);
        }
        let ghost ob = self.vec@;
        let mut work = fresh_vec();
        core::mem::swap(&mut self.vec, &mut work);
        let mut removed = work.drain(
            crate::vec::RangeEdge::Included(start),
            crate::vec::RangeEdge::Excluded(end),
        );
        let removed_len: usize = removed.len();
        crate::vec::zeroize_bytes(&mut removed, 0, removed_len);
        proof {
            broadcast use decode_utf8_encode_utf8, encode_utf8_decode_utf8;

            let bs = start as int;
            let be = end as int;
            let pre = ob.subrange(0, bs);
            let suf = ob.subrange(be, ob.len() as int);
            valid_utf8_split(ob, be);
            let front = ob.subrange(0, be);
            assert(pre =~= front.subrange(0, bs));
            assert(is_char_boundary(front, bs)) by {
                lemma_char_boundary_prefix(ob, bs, be);
            }
            valid_utf8_split(front, bs);
            assert(valid_utf8(pre) && valid_utf8(suf));
            valid_utf8_concat(pre, suf);
            assert(work@ =~= pre + suf);
            lemma_encode_utf8_concat(decode_utf8(pre), decode_utf8(suf));
            assert(work@ == encode_utf8(decode_utf8(pre) + decode_utf8(suf)));
        }
        core::mem::swap(&mut self.vec, &mut work);
    }
}

/// A character boundary below a split point is still a boundary of the
/// prefix up to that split point.
proof fn lemma_char_boundary_prefix(bytes: Seq<u8>, i: int, j: int)
    requires
        valid_utf8(bytes),
        0 <= i <= j <= bytes.len(),
        is_char_boundary(bytes, i),
        is_char_boundary(bytes, j),
    ensures
        is_char_boundary(bytes.subrange(0, j), i),
    decreases bytes.len(),
{
    let front = bytes.subrange(0, j);
    valid_utf8_split(bytes, j);
    if i == j {
        is_char_boundary_start_end_of_seq(front);
    } else {
        assert(front[i] == bytes[i]);
        is_char_boundary_iff_not_is_continuation_byte(bytes, i);
        is_char_boundary_iff_not_is_continuation_byte(front, i);
    }
}

impl Clone for SecureString {
    /// Copies the characters into an independent, equally sized buffer; the
    /// two texts share no backing memory, so mutating one cannot affect the
    /// other.  The copy starts `Locked`.
    fn clone(&self) -> (result: SecureString)
        ensures
            result@ == self@,
            result.spec_bytes() == self.spec_bytes(),
            result.spec_capacity() == self.spec_capacity(),
            result.is_locked(),
    {
        proof {
            use_type_invariant(self);
        }
        SecureString { vec: self.vec.clone() }
    }
}

/// A one-byte empty secure buffer, the starting point of every text.
fn fresh_vec() -> (v: SecureVec)
    ensures
        v@ == Seq::<u8>::empty(),
        v.spec_capacity() == 1,
        v.is_locked(),
{
    match SecureVec::new() {
        Ok(v) => v,
        Err(_) => unreached(),
    }
}

/// Reinterprets bytes as a string slice.
///
/// Relies on `core::str::from_utf8`: it succeeds exactly on valid UTF-8, and
/// the string slice it returns is those same bytes, so its characters
/// re-encode to them.
#[verifier::external_body]
fn bytes_as_str(bytes: &[u8]) -> (r: Option<&str>)
    ensures
        r is Some <==> valid_utf8(bytes@),
        r matches Some(s) ==> s.spec_bytes() == bytes@,
{
    core::str::from_utf8(bytes).ok()
}

/// Overwrites an exposed string with zeroes and empties it.
///
/// Relies on `zeroize::Zeroize` for `String`: every byte of the string is
/// overwritten with zero through writes the compiler will not elide, and the
/// string is then cleared.
#[verifier::external_body]
fn zeroize_string(s: &mut String)
    ensures
        final(s)@ == Seq::<char>::empty(),
{
    zeroize::Zeroize::zeroize(s)
}

} // verus!
