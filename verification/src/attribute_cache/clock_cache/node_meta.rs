use vstd::prelude::*;

verus! {

/// The first byte of the word holds the hotness.
pub const HOTNESS_MASK: u32 = 0xff00_0000;
pub const HOTNESS_SHIFT: u32 = 24;
pub const DIRTY_MASK: u32 = 0x0010_0000;
pub const REF_MASK: u32 = 0x0001_0000;

/// Hotness of a metadata word: its highest byte.
pub open spec fn word_hotness(w: u32) -> u32 {
    w >> 24u32
}

pub open spec fn word_dirty(w: u32) -> bool {
    w & 0x0010_0000u32 != 0
}

pub open spec fn word_refed(w: u32) -> bool {
    w & 0x0001_0000u32 != 0
}

/// Taking off the hotness that was just added gives back the word, when the hotness did not
/// wrap around: `inc_hotness(amount)` then `try_dec_hotness(amount)` succeeds and restores
/// the metadata.
pub proof fn lemma_inc_then_dec_restores(w: u32, amount: u32)
    requires
        word_hotness(w) + amount < 256,
    ensures
        w.wrapping_add(amount << 24u32) >= amount << 24u32,
        (w.wrapping_add(amount << 24u32) - (amount << 24u32)) as u32 == w,
{
    assert(w.wrapping_add(amount << 24u32) >= amount << 24u32 && (w.wrapping_add(amount << 24u32)
        - (amount << 24u32)) as u32 == w) by (bit_vector)
        requires
            (w >> 24u32) + amount < 256,
    ;
}

/// Per cache-entry metadata: a hotness counter, a dirty bit and a reference bit, packed
/// in one word.
pub struct NodeMeta {
    data: u32,
}

impl NodeMeta {
    pub closed spec fn word(&self) -> u32 {
        self.data
    }

    pub open spec fn spec_hotness(&self) -> u32 {
        word_hotness(self.word())
    }

    pub open spec fn spec_dirty(&self) -> bool {
        word_dirty(self.word())
    }

    pub open spec fn spec_refed(&self) -> bool {
        word_refed(self.word())
    }

    pub fn new() -> (r: Self)
        ensures
            r.word() == 0,
            r.spec_hotness() == 0,
            !r.spec_dirty(),
            !r.spec_refed(),
    {
        proof {
            assert(0u32 >> 24u32 == 0u32 && 0u32 & 0x0010_0000u32 == 0u32 && 0u32 & 0x0001_0000u32
                == 0u32) by (bit_vector);
        }
        Self { data: 0 }
    }

    pub fn hotness(&self) -> (r: usize)
        ensures
            r == self.spec_hotness(),
            r < 256,
    {
        let w = self.data;
        assert(w >> 24u32 < 256u32) by (bit_vector);
        (self.data >> HOTNESS_SHIFT) as usize
    }

    pub fn is_dirty(&self) -> (r: bool)
        ensures
            r == self.spec_dirty(),
    {
        self.data & DIRTY_MASK > 0
    }

    pub fn set_dirty(&mut self)
        ensures
            final(self).word() == old(self).word() | DIRTY_MASK,
            final(self).spec_dirty(),
            final(self).spec_hotness() == old(self).spec_hotness(),
            final(self).spec_refed() == old(self).spec_refed(),
    {
        let w = self.data;
        self.data = self.data | DIRTY_MASK;
        proof {
            let n = w | 0x0010_0000u32;
            assert(n & 0x0010_0000u32 != 0 && n >> 24u32 == w >> 24u32 && (n & 0x0001_0000u32
                != 0) == (w & 0x0001_0000u32 != 0)) by (bit_vector)
                requires
                    n == w | 0x0010_0000u32,
            ;
        }
    }

    pub fn set_ref(&mut self)
        ensures
            final(self).word() == old(self).word() | REF_MASK,
            final(self).spec_refed(),
            final(self).spec_hotness() == old(self).spec_hotness(),
            final(self).spec_dirty() == old(self).spec_dirty(),
    {
        let w = self.data;
        self.data = self.data | REF_MASK;
        proof {
            let n = w | 0x0001_0000u32;
            assert(n & 0x0001_0000u32 != 0 && n >> 24u32 == w >> 24u32 && (n & 0x0010_0000u32
                != 0) == (w & 0x0010_0000u32 != 0)) by (bit_vector)
                requires
                    n == w | 0x0001_0000u32,
            ;
        }
    }

    pub fn clear_ref(&mut self)
        ensures
            final(self).word() == old(self).word() & !REF_MASK,
            !final(self).spec_refed(),
            final(self).spec_hotness() == old(self).spec_hotness(),
            final(self).spec_dirty() == old(self).spec_dirty(),
    {
        let w = self.data;
        self.data = self.data & !REF_MASK;
        proof {
            let n = w & !0x0001_0000u32;
            assert(n & 0x0001_0000u32 == 0 && n >> 24u32 == w >> 24u32 && (n & 0x0010_0000u32
                != 0) == (w & 0x0010_0000u32 != 0)) by (bit_vector)
                requires
                    n == w & !0x0001_0000u32,
            ;
        }
    }

    /// Clear the ref bit, return true if the ref bit was set.
    pub fn clear_if_set(&mut self) -> (r: bool)
        ensures
            r == old(self).spec_refed(),
            !final(self).spec_refed(),
            r ==> final(self).word() == old(self).word() & !REF_MASK,
            !r ==> final(self).word() == old(self).word(),
            final(self).spec_hotness() == old(self).spec_hotness(),
            final(self).spec_dirty() == old(self).spec_dirty(),
    {
        let data = self.data;
        if (data & REF_MASK) > 0 {
            self.data = data & !REF_MASK;
            proof {
                let n = data & !0x0001_0000u32;
                assert(n & 0x0001_0000u32 == 0 && n >> 24u32 == data >> 24u32 && (n
                    & 0x0010_0000u32 != 0) == (data & 0x0010_0000u32 != 0)) by (bit_vector)
                    requires
                        n == data & !0x0001_0000u32,
                ;
            }
            true
        } else {
            false
        }
    }

    pub fn is_refed(&self) -> (r: bool)
        ensures
            r == self.spec_refed(),
    {
        let data = self.data;
        (data & REF_MASK) > 0
    }

    /// Adds `amount` to the hotness and returns the hotness before. The hotness is one
    /// byte: past 255 it wraps around (the addition wraps over the whole word).
    pub fn inc_hotness(&mut self, amount: u32) -> (r: u32)
        ensures
            r == old(self).spec_hotness(),
            final(self).word() == old(self).word().wrapping_add(amount << 24u32),
            final(self).spec_hotness() == (old(self).spec_hotness() + amount) % 256,
            final(self).spec_dirty() == old(self).spec_dirty(),
            final(self).spec_refed() == old(self).spec_refed(),
    {
        let w = self.data;
        let shifted: u32 = amount << HOTNESS_SHIFT;
        let mut old = self.data;
        self.data = self.data.wrapping_add(shifted);
        old = old >> HOTNESS_SHIFT;
        proof {
            let n = self.data;
            assert(n >> 24u32 == ((w >> 24u32) + amount) % 256 && (n & 0x0010_0000u32 != 0) == (w
                & 0x0010_0000u32 != 0) && (n & 0x0001_0000u32 != 0) == (w & 0x0001_0000u32 != 0))
                by (bit_vector)
                requires
                    n == w.wrapping_add(amount << 24u32),
            ;
        }
        old
    }

    /// Takes `amount` off the hotness if the hotness is at least `amount`; the result
    /// says whether it did.
    pub fn try_dec_hotness(&mut self, amount: u32) -> (r: bool)
        ensures
            r == (old(self).word() >= amount << 24u32),
            r ==> final(self).word() == old(self).word() - (amount << 24u32),
            !r ==> final(self).word() == old(self).word(),
            amount < 256 ==> (r == (old(self).spec_hotness() >= amount)),
            amount < 256 && r ==> final(self).spec_hotness() == old(self).spec_hotness() - amount,
            final(self).spec_dirty() == old(self).spec_dirty(),
            final(self).spec_refed() == old(self).spec_refed(),
    {
        let amount_shifted: u32 = amount << HOTNESS_SHIFT;
        let old = self.data;
        let mut hotness = old;
        if hotness >= amount_shifted {
            hotness = hotness - amount_shifted;
        } else {
            proof {
                assert(amount < 256 ==> (old >= amount << 24u32) == (old >> 24u32 >= amount))
                    by (bit_vector);
            }
            return false;
        }
        let new = (old & !HOTNESS_MASK) | hotness;
        self.data = new;
        proof {
            assert(new == hotness && (amount < 256 ==> (old >= amount_shifted) == (old >> 24u32
                >= amount)) && (amount < 256 ==> hotness >> 24u32 == (old >> 24u32) - amount) && (
            (hotness & 0x0010_0000u32 != 0) == (old & 0x0010_0000u32 != 0)) && ((hotness
                & 0x0001_0000u32 != 0) == (old & 0x0001_0000u32 != 0))) by (bit_vector)
                requires
                    amount_shifted == amount << 24u32,
                    old >= amount_shifted,
                    hotness == old - amount_shifted,
                    new == (old & !0xff00_0000u32) | hotness,
            ;
        }
        true
    }
}

/// Marking metadata dirty makes it dirty and keeps its hotness and reference bit; marking it
/// dirty again changes nothing: when `b` is `a` marked dirty (as `set_dirty` states) and `c`
/// is `b` marked dirty, `c` is `b`.
pub proof fn lemma_set_dirty_idempotent(a: NodeMeta, b: NodeMeta, c: NodeMeta)
    requires
        b.word() == a.word() | DIRTY_MASK,
        c.word() == b.word() | DIRTY_MASK,
    ensures
        b.spec_dirty(),
        b.spec_hotness() == a.spec_hotness(),
        b.spec_refed() == a.spec_refed(),
        c == b,
{
    let x = a.word();
    assert((x | 0x0010_0000u32) & 0x0010_0000u32 != 0 && (x | 0x0010_0000u32) >> 24u32 == x >> 24u32
        && ((x | 0x0010_0000u32) & 0x0001_0000u32 != 0) == (x & 0x0001_0000u32 != 0)
        && ((x | 0x0010_0000u32) | 0x0010_0000u32) == (x | 0x0010_0000u32)) by (bit_vector);
    assert(b.data == c.data);
}
} // verus!
