//! A fixed 2048-bit mask that slides along a growing packet number.

use vstd::prelude::*;

verus! {

/// Number of packets that a window remembers.
pub const WINDOW_PACKETS: u64 = 2048;

/// Whether bit `b` of `w` is set.
pub open spec fn word_bit(w: u64, b: u64) -> bool {
    (w & (1u64 << b)) != 0
}

/// A mask of 2048 bits; bit `i` stands for the packet `i` below the highest one.
pub struct PacketBitmap {
    words: [u64; 32],
}

impl PacketBitmap {
    /// Whether bit `i` is set. Positions outside the mask count as clear.
    pub closed spec fn bit(&self, i: int) -> bool {
        0 <= i < 2048 && word_bit(self.words@[i / 64], (i % 64) as u64)
    }

    /// The bits of word `k`, as one number.
    pub closed spec fn word_value(&self, k: int) -> u64 {
        self.words@[k]
    }

    /// Only positions inside the mask can be set.
    pub proof fn lemma_range(&self)
        ensures
            forall|i: int| #[trigger] self.bit(i) ==> 0 <= i < WINDOW_PACKETS,
    {
    }

    /// A word that is all zeros or all ones says so of each of its bits.
    pub proof fn lemma_uniform_word(&self, k: int)
        requires
            0 <= k < 32,
        ensures
            self.word_value(k) == 0 ==> forall|i: int|
                k * 64 <= i < k * 64 + 64 ==> !#[trigger] self.bit(i),
            self.word_value(k) == u64::MAX ==> forall|i: int|
                k * 64 <= i < k * 64 + 64 ==> #[trigger] self.bit(i),
    {
        assert forall|i: int| k * 64 <= i < k * 64 + 64 implies (self.word_value(k) == 0
            ==> !#[trigger] self.bit(i)) && (self.word_value(k) == u64::MAX ==> self.bit(i)) by {
            let b = (i % 64) as u64;
            assert(i / 64 == k);
            assert((0u64 & (1u64 << b)) == 0) by (bit_vector);
            assert((0xffff_ffff_ffff_ffffu64 & (1u64 << b)) != 0) by (bit_vector)
                requires
                    b < 64,
            ;
        }
    }

    /// A mask with every bit clear.
    pub fn new() -> (r: Self)
        ensures
            forall|i: int| !#[trigger] r.bit(i),
    {
        let r = PacketBitmap { words: [0u64; 32] };
        assert forall|i: int| !#[trigger] r.bit(i) by {
            let b = (i % 64) as u64;
            assert((0u64 & (1u64 << b)) == 0) by (bit_vector);
        }
        r
    }

    /// Clears every bit but the first.
    pub fn reset_to_first(&mut self)
        ensures
            forall|i: int| #[trigger] final(self).bit(i) == (i == 0),
    {
        self.words = [0u64; 32];
        assert forall|i: int| !#[trigger] self.bit(i) by {
            let b = (i % 64) as u64;
            assert((0u64 & (1u64 << b)) == 0) by (bit_vector);
        }
        self.set(0);
    }

    /// Word `k` of the mask.
    pub fn word(&self, k: usize) -> (w: u64)
        requires
            k < 32,
        ensures
            w == self.word_value(k as int),
    {
        self.words[k]
    }

    /// Reads bit `i`.
    pub fn get(&self, i: u64) -> (r: bool)
        requires
            i < 2048,
        ensures
            r == self.bit(i as int),
    {
        let word_idx: usize = (i / 64) as usize;
        let bit_idx: u64 = i % 64;
        (self.words[word_idx] & (1u64 << bit_idx)) != 0
    }

    /// Sets bit `i`.
    pub fn set(&mut self, i: u64)
        requires
            i < 2048,
        ensures
            forall|j: int| #[trigger] final(self).bit(j) == (j == i || old(self).bit(j)),
    {
        let word_idx: usize = (i / 64) as usize;
        let bit_idx: u64 = i % 64;
        let w: u64 = self.words[word_idx];
        let w2: u64 = w | (1u64 << bit_idx);
        self.words[word_idx] = w2;
        assert forall|j: int| #[trigger] self.bit(j) == (j == i || old(self).bit(j)) by {
            if 0 <= j < 2048 && j / 64 == word_idx {
                let b = (j % 64) as u64;
                assert(((w | (1u64 << bit_idx)) & (1u64 << b)) != 0 <==> (b == bit_idx || (w & (1u64
                    << b)) != 0)) by (bit_vector)
                    requires
                        b < 64,
                        bit_idx < 64,
                ;
            }
        }
    }

    /// Moves every bit `shift` places up; bits that leave the mask are lost.
    pub fn shift_left(&mut self, shift: usize)
        ensures
            forall|j: int| #[trigger]
                final(self).bit(j) == (0 <= j < 2048 && old(self).bit(j - shift)),
    {
        if shift == 0 {
            return ;
        }
        if shift >= 2048 {
            self.words = [0u64; 32];
            assert forall|i: int| !#[trigger] self.bit(i) by {
                let b = (i % 64) as u64;
                assert((0u64 & (1u64 << b)) == 0) by (bit_vector);
            }
            return ;
        }
        let word_shift: usize = shift / 64;
        let bit_shift: usize = shift % 64;
        let ghost before = self.words@;
        if word_shift > 0 {
            let mut i: usize = 32;
            while i > word_shift
                invariant
                    0 < word_shift < 32,
                    word_shift <= i <= 32,
                    before.len() == 32,
                    forall|k: int| 0 <= k < i ==> self.words@[k] == before[k],
                    forall|k: int| i <= k < 32 ==> self.words@[k] == before[k - word_shift],
                decreases i,
            {
                i = i - 1;
                self.words[i] = self.words[i - word_shift];
            }
            i = 0;
            while i < word_shift
                invariant
                    0 < word_shift < 32,
                    i <= word_shift,
                    before.len() == 32,
                    forall|k: int| 0 <= k < i ==> self.words@[k] == 0,
                    forall|k: int| word_shift <= k < 32 ==> self.words@[k] == before[k - word_shift],
                decreases word_shift - i,
            {
                self.words[i] = 0;
                i = i + 1;
            }
        }
        let ghost mid = self.words@;
        assert(forall|k: int| 0 <= k < 32 ==> mid[k] == if k >= word_shift {
            before[k - word_shift]
        } else {
            0
        });
        if bit_shift > 0 {
            let bs: u64 = bit_shift as u64;
            let inv_shift: u64 = 64 - bs;
            let mut i: usize = 32;
            while i > 1
                invariant
                    0 < bs < 64,
                    inv_shift == 64 - bs,
                    1 <= i <= 32,
                    mid.len() == 32,
                    forall|k: int| 0 <= k < i ==> self.words@[k] == mid[k],
                    forall|k: int| i <= k < 32 ==> self.words@[k] == (mid[k] << bs) | (mid[k - 1]
                        >> inv_shift),
                decreases i,
            {
                i = i - 1;
                self.words[i] = (self.words[i] << bs) | (self.words[i - 1] >> inv_shift);
            }
            self.words[0] = self.words[0] << bs;
            assert forall|j: int| #[trigger]
                self.bit(j) == (0 <= j < 2048 && old(self).bit(j - shift)) by {
                if 0 <= j < 2048 {
                    let k = j / 64;
                    let b = (j % 64) as u64;
                    if k == 0 {
                        let m = mid[0];
                        assert(((m << bs) & (1u64 << b)) != 0 <==> (b >= bs && (m & (1u64 << ((b
                            - bs) as u64))) != 0)) by (bit_vector)
                            requires
                                b < 64,
                                0 < bs < 64,
                        ;
                        assert((0u64 & (1u64 << ((b - bs) as u64))) == 0) by (bit_vector);
                        assert(j - shift == (k - word_shift) * 64 + (b - bs));
                    } else {
                        let m = mid[k];
                        let p = mid[k - 1];
                        assert((((m << bs) | (p >> inv_shift)) & (1u64 << b)) != 0 <==> if b >= bs {
                            (m & (1u64 << ((b - bs) as u64))) != 0
                        } else {
                            (p & (1u64 << ((b + 64 - bs) as u64))) != 0
                        }) by (bit_vector)
                            requires
                                b < 64,
                                0 < bs < 64,
                                inv_shift == 64 - bs,
                        ;
                        assert((0u64 & (1u64 << ((b - bs) as u64))) == 0) by (bit_vector);
                        assert((0u64 & (1u64 << ((b + 64 - bs) as u64))) == 0) by (bit_vector);
                        if b >= bs {
                            assert(j - shift == (k - word_shift) * 64 + (b - bs));
                        } else {
                            assert(j - shift == (k - 1 - word_shift) * 64 + (b + 64 - bs));
                        }
                    }
                }
            }
        } else {
            assert forall|j: int| #[trigger]
                self.bit(j) == (0 <= j < 2048 && old(self).bit(j - shift)) by {
                if 0 <= j < 2048 {
                    let b = (j % 64) as u64;
                    assert((0u64 & (1u64 << b)) == 0) by (bit_vector);
                    assert(shift == word_shift * 64);
                    assert((j - shift) / 64 == j / 64 - word_shift);
                    assert((j - shift) % 64 == j % 64);
                }
            }
        }
    }
}

/// The packets that a mask stands for when `highest` is the highest one seen.
pub open spec fn marked(highest: Option<u64>, bits: &PacketBitmap) -> Set<u64> {
    Set::new(|pn: u64| highest is Some && pn <= highest->0 && bits.bit(highest->0 - pn))
}

/// Before the first packet the mask is clear; afterwards no bit stands for a negative number.
pub open spec fn mask_fits(highest: Option<u64>, bits: &PacketBitmap) -> bool {
    &&& highest is None ==> forall|i: int| !#[trigger] bits.bit(i)
    &&& highest is Some ==> bits.bit(0) && forall|i: int| #[trigger] bits.bit(i) ==> i <= highest->0
}

/// The larger of the highest packet seen and `pn`.
pub open spec fn raised(highest: Option<u64>, pn: u64) -> u64 {
    match highest {
        Some(h) if h >= pn => h,
        _ => pn,
    }
}

/// What a window holds after `pn`: the packets of `seen` and `pn` itself, less
/// those that lie 2048 or more below the highest.
pub open spec fn slide(seen: Set<u64>, highest: Option<u64>, pn: u64) -> Set<u64> {
    Set::new(
        |x: u64| (x == pn || seen.contains(x)) && x + WINDOW_PACKETS > raised(highest, pn),
    )
}

/// Records `pn` in a mask and returns the new highest packet.
pub fn mark(highest: Option<u64>, bits: &mut PacketBitmap, pn: u64) -> (r: Option<u64>)
    requires
        mask_fits(highest, old(bits)),
    ensures
        mask_fits(r, final(bits)),
        r == Some(raised(highest, pn)),
        marked(r, final(bits)) == slide(marked(highest, old(bits)), highest, pn),
{
    let ghost seen = marked(highest, bits);
    match highest {
        None => {
            bits.reset_to_first();
            assert(marked(Some(pn), bits) =~= slide(seen, highest, pn));
            Some(pn)
        },
        Some(h) => {
            if pn > h {
                let diff: u64 = pn - h;
                if diff >= WINDOW_PACKETS {
                    bits.reset_to_first();
                } else {
                    bits.shift_left(diff as usize);
                    bits.set(0);
                }
                assert(marked(Some(pn), bits) =~= slide(seen, highest, pn));
                Some(pn)
            } else {
                let diff: u64 = h - pn;
                if diff < WINDOW_PACKETS {
                    bits.set(diff);
                }
                assert(marked(highest, bits) =~= slide(seen, highest, pn));
                highest
            }
        },
    }
}

/// What a window remembers: the highest number it has seen only rises, to the
/// packet's own number at most, and of the packets it knew and the new one it
/// keeps those less than 2048 below the highest.
pub proof fn law_windows_remember_what_is_near(seen: Set<u64>, highest: Option<u64>, pn: u64, x: u64)
    ensures
        raised(highest, pn) >= pn,
        highest matches Some(h) ==> raised(highest, pn) >= h,
        raised(highest, pn) == pn || highest == Some(raised(highest, pn)),
        slide(seen, highest, pn).contains(x) ==> x == pn || seen.contains(x),
        slide(seen, highest, pn).contains(x) ==> raised(highest, pn) < x + 2048,
        (x == pn || seen.contains(x)) && raised(highest, pn) < x + 2048 ==> slide(
            seen,
            highest,
            pn,
        ).contains(x),
{
}

} // verus!
