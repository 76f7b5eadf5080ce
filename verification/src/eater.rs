//! The corruption side: picking a target from the registry and flipping
//! bits inside an allocation according to the corruption shape.
//!
//! The memory of one tracked allocation is modelled as an owned byte
//! buffer; a bite xors a run of 8-byte words (little-endian) starting at
//! the allocation's rounded midpoint, never reaching at or past its end.

use vstd::prelude::*;

use crate::registry::{Registry, RegistryView, Slot, TRACK_THRESHOLD};
use crate::{spec_mask, spec_words, Allocator, Hunger};

verus! {

/// Byte offset where a bite begins: the midpoint of an allocation of
/// `size` bytes, rounded down to a multiple of 8.
pub open spec fn base_offset(size: nat) -> nat {
    (size / 16) * 8
}

/// How many whole 8-byte words of a bite of `words` words fit between
/// the base offset and the end of an allocation of `size` bytes.
pub open spec fn fit_words(size: nat, words: nat) -> nat {
    let avail = (((size - base_offset(size)) / 8) as nat);
    if words <= avail {
        words
    } else {
        avail
    }
}

/// Whether byte `k` of an allocation of `len` bytes lies inside the
/// stretch a bite of `words` words overwrites.
pub open spec fn in_bite(len: nat, words: nat, k: int) -> bool {
    base_offset(len) <= k < base_offset(len) + 8 * fit_words(len, words)
}

/// Byte `j` (little-endian) of the 8-byte mask.
pub open spec fn mask_byte(mask: u64, j: int) -> u8 {
    if j == 0 {
        (mask & 0xFFu64) as u8
    } else if j == 1 {
        ((mask >> 8u64) & 0xFFu64) as u8
    } else if j == 2 {
        ((mask >> 16u64) & 0xFFu64) as u8
    } else if j == 3 {
        ((mask >> 24u64) & 0xFFu64) as u8
    } else if j == 4 {
        ((mask >> 32u64) & 0xFFu64) as u8
    } else if j == 5 {
        ((mask >> 40u64) & 0xFFu64) as u8
    } else if j == 6 {
        ((mask >> 48u64) & 0xFFu64) as u8
    } else if j == 7 {
        ((mask >> 56u64) & 0xFFu64) as u8
    } else {
        0
    }
}

/// The buffer after one bite of `words` words with mask `mask`: every
/// byte inside the bite stretch is xored with its mask byte, every byte
/// outside it is untouched.
pub open spec fn corrupted(s: Seq<u8>, words: nat, mask: u64) -> Seq<u8> {
    Seq::new(
        s.len(),
        |k: int|
            if in_bite(s.len(), words, k) {
                s[k] ^ mask_byte(mask, (k - base_offset(s.len())) % 8)
            } else {
                s[k]
            },
    )
}

/// Which target one wake-up of the eater picks, given the event count
/// `n`: position `n % len` of the active set, skipped when the set is
/// empty or the chosen slot reads as mid-release (zero address or
/// sub-threshold size).
pub open spec fn spec_select_target(v: RegistryView, n: usize) -> Option<(usize, usize, usize)> {
    if v.active.len() == 0 {
        None
    } else {
        let i = n as int % v.active.len() as int;
        let slot = v.active[i];
        let s = v.slots[slot as int];
        if s.addr == 0 || s.size < TRACK_THRESHOLD {
            None
        } else {
            Some((slot, s.addr, s.size))
        }
    }
}

/// Picks the allocation one wake-up of the eater targets: the slot at
/// position `n % len` of the active set, returned as
/// (slot index, address, size). `None` when the active set is empty or
/// the chosen slot reads as mid-release.
pub fn select_target(reg: &Registry, n: usize) -> (r: Option<(usize, usize, usize)>)
    requires
        reg@.wf(),
    ensures
        r == spec_select_target(reg@, n),
{
    let len: usize = reg.active_len();
    if len == 0 {
        return None;
    }
    let i: usize = n % len;
    let slot: usize = reg.active_at(i);
    proof {
        assert(reg@.active[i as int] < reg@.next_fresh);
    }
    let s: Slot = reg.slot(slot);
    if s.addr == 0 || s.size < TRACK_THRESHOLD {
        None
    } else {
        Some((slot, s.addr, s.size))
    }
}

/// Byte `j` (little-endian) of the 8-byte mask.
fn byte_of_mask(mask: u64, j: usize) -> (b: u8)
    requires
        j < 8,
    ensures
        b == mask_byte(mask, j as int),
{
    if j == 0 {
        (mask & 0xFF) as u8
    } else if j == 1 {
        ((mask >> 8u64) & 0xFF) as u8
    } else if j == 2 {
        ((mask >> 16u64) & 0xFF) as u8
    } else if j == 3 {
        ((mask >> 24u64) & 0xFF) as u8
    } else if j == 4 {
        ((mask >> 32u64) & 0xFF) as u8
    } else if j == 5 {
        ((mask >> 40u64) & 0xFF) as u8
    } else if j == 6 {
        ((mask >> 48u64) & 0xFF) as u8
    } else {
        ((mask >> 56u64) & 0xFF) as u8
    }
}

/// Applies one bite of `words` 8-byte words with mask `mask` to the
/// buffer: bytes from the rounded midpoint on are xored with the mask,
/// word by word, stopping before any word that would reach past the end.
pub fn corrupt_buffer(buf: &mut Vec<u8>, words: usize, mask: u64)
    ensures
        final(buf)@ == corrupted(old(buf)@, words as nat, mask),
        final(buf)@.len() == old(buf)@.len(),
{
    let ghost orig = buf@;
    let len: usize = buf.len();
    let base: usize = len / 16 * 8;
    proof {
        assert(base == base_offset(len as nat));
        assert((len as int / 16) * 16 <= len);
        assert(base <= len);
    }
    let avail: usize = (len - base) / 8;
    let fit: usize = if words <= avail {
        words
    } else {
        avail
    };
    let total: usize = fit * 8;
    proof {
        assert(fit == fit_words(len as nat, words as nat));
        assert(((len - base) as int / 8) * 8 <= len - base);
        assert(base + total <= len);
    }
    let mut j: usize = 0;
    while j < total
        invariant
            buf@.len() == orig.len(),
            len == orig.len(),
            base == base_offset(len as nat),
            fit == fit_words(len as nat, words as nat),
            total == 8 * fit,
            base + total <= len,
            j <= total,
            forall|k: int| 0 <= k < len && !(base <= k < base + j) ==> buf@[k] == orig[k],
            forall|k: int|
                base <= k < base + j ==> buf@[k] == corrupted(orig, words as nat, mask)[k],
        decreases total - j,
    {
        let off: usize = base + j;
        let b: u8 = buf[off];
        let m: u8 = byte_of_mask(mask, j % 8);
        buf[off] = b ^ m;
        proof {
            assert(in_bite(len as nat, words as nat, off as int));
            assert((off as int - base_offset(len as nat)) % 8 == j as int % 8);
        }
        j = j + 1;
    }
    proof {
        assert(buf@ =~= corrupted(orig, words as nat, mask));
    }
}

/// The buffer after one wake-up of the eater under profile `h` at event
/// count `n`: unchanged when the shape is degenerate (zero words or a
/// zero mask), else one bite.
pub open spec fn spec_bite(h: Hunger, n: usize, s: Seq<u8>) -> Seq<u8> {
    let words = spec_words(h);
    let mask = spec_mask(h, n);
    if words == 0 || mask == 0 {
        s
    } else {
        corrupted(s, words as nat, mask)
    }
}

/// The buffer after a whole run of wake-ups, one bite per event count
/// in `ns`, applied in order.
pub open spec fn spec_bites(h: Hunger, ns: Seq<usize>, s: Seq<u8>) -> Seq<u8>
    decreases ns.len(),
{
    if ns.len() == 0 {
        s
    } else {
        spec_bites(h, ns.drop_first(), spec_bite(h, ns[0], s))
    }
}

/// Under `Full` no byte of any allocation ever changes, however many
/// wake-ups pass.
pub proof fn lemma_full_is_inert(ns: Seq<usize>, s: Seq<u8>)
    ensures
        spec_bites(Hunger::Full, ns, s) == s,
    decreases ns.len(),
{
    if ns.len() == 0 {
    } else {
        assert(spec_bite(Hunger::Full, ns[0], s) == s);
        lemma_full_is_inert(ns.drop_first(), s);
    }
}

/// A bite never reaches a byte at or past the recorded size: the buffer
/// keeps its length, the bitten stretch ends at or before the end, and
/// every byte outside the stretch is unchanged.
pub proof fn lemma_corruption_in_bounds(s: Seq<u8>, words: nat, mask: u64)
    ensures
        corrupted(s, words, mask).len() == s.len(),
        base_offset(s.len()) + 8 * fit_words(s.len(), words) <= s.len(),
        forall|k: int|
            0 <= k < s.len() && !in_bite(s.len(), words, k) ==> corrupted(s, words, mask)[k] == s[
                k
            ],
{
    let len = s.len();
    let base = base_offset(len);
    assert((len as int / 16) * 16 <= len);
    assert(((len - base) as int / 8) * 8 <= len - base);
}

/// One `Insatiable` bite on an allocation of at least 128 bytes flips
/// the byte at the rounded midpoint — which sits in the allocation's
/// second half — and touches no byte outside the stretch from that
/// midpoint to the recorded end.
pub proof fn lemma_insatiable_bites_second_half(s: Seq<u8>, n: usize)
    requires
        s.len() >= 128,
    ensures
        spec_bite(Hunger::Insatiable, n, s).len() == s.len(),
        spec_bite(Hunger::Insatiable, n, s)[base_offset(s.len()) as int] != s[base_offset(
            s.len(),
        ) as int],
        s.len() / 2 - 7 <= base_offset(s.len()) <= s.len() / 2,
        forall|k: int|
            0 <= k < s.len() && !(base_offset(s.len()) <= k < s.len()) ==> spec_bite(
                Hunger::Insatiable,
                n,
                s,
            )[k] == s[k],
{
    let len = s.len();
    let base = base_offset(len);
    let words = spec_words(Hunger::Insatiable);
    let mask = spec_mask(Hunger::Insatiable, n);
    assert(words == 8);
    assert(mask == 0xFF);
    assert(16 * (len as int / 16) <= len);
    assert(len as int / 16 >= 8);
    assert(fit_words(len, words as nat) >= 1);
    assert(in_bite(len, words as nat, base as int));
    lemma_corruption_in_bounds(s, words as nat, mask);
    let b = s[base as int];
    assert((0xFFu64 & 0xFFu64) == 0xFFu64) by (bit_vector);
    assert(mask_byte(0xFF, 0) == 0xFF);
    assert(b ^ 0xFF != b) by (bit_vector);
    assert(corrupted(s, words as nat, mask)[base as int] == (b ^ 0xFF));
    assert(2 * (len as int / 2) + len as int % 2 == len);
    assert(16 * (len as int / 16) + len as int % 16 == len);
    assert(s.len() / 2 - 7 <= base <= s.len() / 2);
}

impl Allocator {
    /// One wake-up of the eater applied to the target allocation's
    /// bytes: computes the corruption shape from the profile and the
    /// event count `n` and applies it. Under `Full` the buffer is
    /// untouched.
    pub fn corruption_event(&self, n: usize, buf: &mut Vec<u8>)
        ensures
            final(buf)@ == spec_bite(self.hunger, n, old(buf)@),
            self.hunger == Hunger::Full ==> final(buf)@ == old(buf)@,
    {
        let shape = self.corruption_shape(n);
        let words: usize = shape.0;
        let mask: u64 = shape.1;
        if words == 0 || mask == 0 {
            return;
        }
        corrupt_buffer(buf, words, mask);
    }
}

} // verus!
