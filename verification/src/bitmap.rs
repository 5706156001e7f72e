//! A fixed-size bitmap stored in 64-bit words.
use vstd::prelude::*;

verus! {

/// Bits per word of a `Bitmap`.
pub const WORD_BITS: usize = 64;

/// Errors of bitmap operations.
#[derive(Debug, Clone, Copy, PartialEq, Eq, Structural)]
pub enum BitmapError {
    /// The bit index (first field) is not below the bitmap's size (second field).
    OutOfBound(usize, usize),
}

/// Bit `b` of the word `w`.
pub open spec fn word_bit(w: u64, b: u64) -> bool {
    (w >> b) & 1u64 == 1u64
}

proof fn lemma_bit_set(w: u64, b: u64, j: u64)
    requires
        b < 64,
        j < 64,
    ensures
        word_bit(w | (1u64 << b), j) == (j == b || word_bit(w, j)),
{
    assert(((w | (1u64 << b)) >> j) & 1u64 == (if j == b { 1u64 } else { (w >> j) & 1u64 })) by (bit_vector)
        requires b < 64, j < 64;
    assert(((w >> j) & 1u64) == 1u64 || ((w >> j) & 1u64) == 0u64) by (bit_vector);
}

proof fn lemma_bit_clear(w: u64, b: u64, j: u64)
    requires
        b < 64,
        j < 64,
    ensures
        word_bit(w & !(1u64 << b), j) == (j != b && word_bit(w, j)),
{
    assert(((w & !(1u64 << b)) >> j) & 1u64 == (if j == b { 0u64 } else { (w >> j) & 1u64 })) by (bit_vector)
        requires b < 64, j < 64;
}

proof fn lemma_zero_word(j: u64)
    requires
        j < 64,
    ensures
        !word_bit(0u64, j),
{
    assert((0u64 >> j) & 1u64 == 0u64) by (bit_vector);
}

proof fn lemma_full_word(j: u64)
    requires
        j < 64,
    ensures
        word_bit(0xffff_ffff_ffff_ffffu64, j),
{
    assert((0xffff_ffff_ffff_ffffu64 >> j) & 1u64 == 1u64) by (bit_vector)
        requires j < 64;
}

/// `size` rounded up to a multiple of 64, or the largest multiple of 64 that is a
/// `usize` where the rounding does not fit.
pub open spec fn rounded_size(size: usize) -> int {
    if size <= usize::MAX - 63 {
        (size + 63) / 64 * 64
    } else {
        usize::MAX / 64 * 64
    }
}

/// Bits `0..size()` in words of 64; bit `i` is bit `i % 64` of word `i / 64`.
pub struct Bitmap {
    data: Vec<u64>,
}

impl Bitmap {
    /// The bits, lowest index first.
    pub closed spec fn view(&self) -> Seq<bool> {
        Seq::new(
            (self.data@.len() * 64) as nat,
            |i: int| word_bit(self.data@[i / 64], (i % 64) as u64),
        )
    }

    /// The bit count fits in `usize`.
    pub open spec fn wf(&self) -> bool {
        self@.len() <= usize::MAX
    }

    proof fn lemma_view_index(&self, i: int)
        requires
            0 <= i < self@.len(),
        ensures
            0 <= i / 64 < self.data@.len(),
            0 <= i % 64 < 64,
            self@[i] == word_bit(self.data@[i / 64], (i % 64) as u64),
    {
    }

    /// A bitmap of `size` bits rounded up to whole words (but no more words than a
    /// `usize` bit count can address), all clear.
    pub fn new(size: usize) -> (b: Self)
        ensures
            b.wf(),
            b@.len() == rounded_size(size),
            forall|i: int| 0 <= i < b@.len() ==> !b@[i],
    {
        let words: usize = if size > usize::MAX - 63 {
            usize::MAX / WORD_BITS
        } else {
            size / WORD_BITS + if size % WORD_BITS == 0 { 0 } else { 1 }
        };
        assert(words * 64 == rounded_size(size));
        let mut data: Vec<u64> = Vec::new();
        let mut k: usize = 0;
        while k < words
            invariant
                k <= words,
                data@.len() == k,
                forall|j: int| 0 <= j < k ==> data@[j] == 0u64,
            decreases words - k,
        {
            data.push(0u64);
            k = k + 1;
        }
        let b = Bitmap { data };
        proof {
            assert forall|i: int| 0 <= i < b@.len() implies !b@[i] by {
                b.lemma_view_index(i);
                lemma_zero_word((i % 64) as u64);
            }
        }
        b
    }

    /// The number of bits.
    pub fn size(&self) -> (n: usize)
        requires
            self.wf(),
        ensures
            n == self@.len(),
    {
        self.data.len() * WORD_BITS
    }

    /// Whether bit `num` is set; an error if `num` is out of range.
    pub fn contain(&self, num: usize) -> (r: Result<bool, BitmapError>)
        requires
            self.wf(),
        ensures
            num < self@.len() ==> r == Ok::<bool, BitmapError>(self@[num as int]),
            num >= self@.len() ==> r == Err::<bool, BitmapError>(BitmapError::OutOfBound(num, self@.len() as usize)),
    {
        let size = self.size();
        if num >= size {
            return Err(BitmapError::OutOfBound(num, size));
        }
        proof {
            self.lemma_view_index(num as int);
        }
        let w = self.data[num / WORD_BITS];
        let b = (num % WORD_BITS) as u64;
        Ok((w >> b) & 1u64 == 1u64)
    }

    /// Sets bit `num`; an error, with the bitmap unchanged, if `num` is out of range.
    pub fn set(&mut self, num: usize) -> (r: Result<(), BitmapError>)
        requires
            old(self).wf(),
        ensures
            final(self).wf(),
            num < old(self)@.len() ==> r is Ok && final(self)@ == old(self)@.update(num as int, true),
            num >= old(self)@.len() ==> r == Err::<(), BitmapError>(BitmapError::OutOfBound(num, old(self)@.len() as usize))
                && final(self)@ == old(self)@,
    {
        let size = self.size();
        if num >= size {
            return Err(BitmapError::OutOfBound(num, size));
        }
        let ghost old_view = self@;
        let idx = num / WORD_BITS;
        let b = (num % WORD_BITS) as u64;
        let w = self.data[idx];
        self.data.set(idx, w | (1u64 << b));
        proof {
            assert forall|i: int| 0 <= i < self@.len() implies self@[i] == old_view.update(num as int, true)[i] by {
                self.lemma_view_index(i);
                lemma_bit_set(w, b, (i % 64) as u64);
                if i / 64 != idx as int {
                    assert(i != num as int);
                } else if i != num as int {
                    assert((i % 64) as u64 != b);
                }
            }
            assert(self@ =~= old_view.update(num as int, true));
        }
        Ok(())
    }

    /// Clears bit `num`; an error, with the bitmap unchanged, if `num` is out of range.
    pub fn clear(&mut self, num: usize) -> (r: Result<(), BitmapError>)
        requires
            old(self).wf(),
        ensures
            final(self).wf(),
            num < old(self)@.len() ==> r is Ok && final(self)@ == old(self)@.update(num as int, false),
            num >= old(self)@.len() ==> r == Err::<(), BitmapError>(BitmapError::OutOfBound(num, old(self)@.len() as usize))
                && final(self)@ == old(self)@,
    {
        let size = self.size();
        if num >= size {
            return Err(BitmapError::OutOfBound(num, size));
        }
        let ghost old_view = self@;
        let idx = num / WORD_BITS;
        let b = (num % WORD_BITS) as u64;
        let w = self.data[idx];
        self.data.set(idx, w & !(1u64 << b));
        proof {
            assert forall|i: int| 0 <= i < self@.len() implies self@[i] == old_view.update(num as int, false)[i] by {
                self.lemma_view_index(i);
                lemma_bit_clear(w, b, (i % 64) as u64);
                if i / 64 != idx as int {
                    assert(i != num as int);
                } else if i != num as int {
                    assert((i % 64) as u64 != b);
                }
            }
            assert(self@ =~= old_view.update(num as int, false));
        }
        Ok(())
    }

    /// The first clear bit at or after `offset`, or `size()` if there is none.
    pub fn find_next_zero(&self, offset: usize) -> (r: usize)
        requires
            self.wf(),
        ensures
            r == first_zero_from(self@, offset as int),
    {
        let size = self.size();
        let len = self.data.len();
        let mut i: usize = offset / WORD_BITS;
        let mut off: usize = offset % WORD_BITS;
        while i < len
            invariant
                self.wf(),
                size == self@.len(),
                len == self.data@.len(),
                size == len * 64,
                off < 64,
                i * 64 + off >= offset,
                off > 0 ==> i * 64 + off == offset,
                forall|k: int| offset <= k < i * 64 + off && k < size ==> self@[k],
            decreases len - i,
        {
            if self.data[i] == 0xffff_ffff_ffff_ffffu64 {
                proof {
                    assert forall|k: int| offset <= k < (i + 1) * 64 && k < size implies self@[k] by {
                        if k >= i * 64 + off {
                            self.lemma_view_index(k);
                            assert(k / 64 == i as int);
                            lemma_full_word((k % 64) as u64);
                        }
                    }
                }
                i = i + 1;
                off = 0;
                continue;
            }
            let w = self.data[i];
            let mut j: usize = off;
            while j < WORD_BITS
                invariant
                    self.wf(),
                    size == self@.len(),
                    len == self.data@.len(),
                    size == len * 64,
                    i < len,
                    w == self.data@[i as int],
                    off <= j <= 64,
                    i * 64 + off >= offset,
                    forall|k: int| offset <= k < i * 64 + j && k < size ==> self@[k],
                decreases 64 - j,
            {
                proof {
                    self.lemma_view_index(i * 64 + j);
                    assert((i * 64 + j) / 64 == i as int);
                    assert((i * 64 + j) % 64 == j as int);
                }
                if (w >> (j as u64)) & 1u64 != 1u64 {
                    let r = i * WORD_BITS + j;
                    proof {
                        lemma_first_zero_char(self@, offset as int, r as int);
                    }
                    return r;
                }
                j = j + 1;
            }
            i = i + 1;
            off = 0;
        }
        proof {
            lemma_first_zero_none(self@, offset as int);
        }
        size
    }
}

/// The first clear bit of `s` at or after `offset`, or `s.len()` if there is none.
pub open spec fn first_zero_from(s: Seq<bool>, offset: int) -> int
    decreases s.len() - offset,
{
    if offset >= s.len() {
        s.len() as int
    } else if offset < 0 {
        first_zero_from(s, 0)
    } else if !s[offset] {
        offset
    } else {
        first_zero_from(s, offset + 1)
    }
}

proof fn lemma_first_zero_char(s: Seq<bool>, offset: int, r: int)
    requires
        0 <= offset <= r < s.len(),
        !s[r],
        forall|k: int| offset <= k < r ==> s[k],
    ensures
        first_zero_from(s, offset) == r,
    decreases r - offset,
{
    if offset < r {
        lemma_first_zero_char(s, offset + 1, r);
    }
}

proof fn lemma_first_zero_none(s: Seq<bool>, offset: int)
    requires
        0 <= offset,
        forall|k: int| offset <= k < s.len() ==> s[k],
    ensures
        first_zero_from(s, offset) == s.len(),
    decreases s.len() - offset,
{
    if offset < s.len() {
        lemma_first_zero_none(s, offset + 1);
    }
}

/// `first_zero_from` is the least clear bit at or after `offset`.
pub proof fn lemma_first_zero_from(s: Seq<bool>, offset: int)
    requires
        0 <= offset,
    ensures
        offset <= s.len() ==> offset <= first_zero_from(s, offset) <= s.len(),
        offset > s.len() ==> first_zero_from(s, offset) == s.len(),
        first_zero_from(s, offset) < s.len() ==> !s[first_zero_from(s, offset)],
        forall|k: int| offset <= k < first_zero_from(s, offset) ==> s[k],
    decreases s.len() - offset,
{
    if offset < s.len() && s[offset] {
        lemma_first_zero_from(s, offset + 1);
    }
}

/// Clearing a bit that was just set gives back the bitmap from before, when the
/// bit was clear.
pub proof fn law_clear_undoes_set(s: Seq<bool>, i: int)
    requires
        0 <= i < s.len(),
        !s[i],
    ensures
        s.update(i, true).update(i, false) == s,
        s.update(i, true)[i],
{
    assert(s.update(i, true).update(i, false) =~= s);
}

} // verus!
