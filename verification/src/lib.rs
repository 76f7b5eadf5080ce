//! A chaos-engineering memory-corruption engine.
//!
//! The library models the bookkeeping core of a corrupting allocator: a
//! fixed-capacity registry of live allocations (slot table, active set,
//! free list), the hook logic that registers and unregisters allocations,
//! and the background "eater" that periodically flips bits inside one
//! tracked allocation. All decisions — which slot to take, which bytes
//! to flip, with what mask and on what schedule — are verified here;
//! the thin process-level shell (the global-allocator installation, the
//! background thread, the raw memory writes) lives outside.

use vstd::prelude::*;

pub mod eater;
pub mod registry;

verus! {

/// Intensity profile: how often and how aggressively live memory is
/// corrupted, from `Full` (inert) to `Insatiable`.
#[derive(Clone, Copy, Debug, PartialEq, Eq, Structural)]
pub enum Hunger {
    Full,
    Hungry,
    Starving,
    Devouring,
    Insatiable,
}

/// Delay in milliseconds before the eater's first bite.
pub open spec fn spec_first_bite_ms(h: Hunger) -> u64 {
    match h {
        Hunger::Full => u64::MAX,
        Hunger::Hungry => 1000,
        Hunger::Starving => 0,
        Hunger::Devouring => 0,
        Hunger::Insatiable => 0,
    }
}

/// Delay in milliseconds between recurring bites.
pub open spec fn spec_bite_ms(h: Hunger) -> u64 {
    match h {
        Hunger::Full => u64::MAX,
        Hunger::Hungry => 1000,
        Hunger::Starving => 200,
        Hunger::Devouring => 50,
        Hunger::Insatiable => 10,
    }
}

/// Number of 8-byte words one bite overwrites.
pub open spec fn spec_words(h: Hunger) -> usize {
    match h {
        Hunger::Full => 0,
        Hunger::Hungry => 1,
        Hunger::Starving => 2,
        Hunger::Devouring => 4,
        Hunger::Insatiable => 8,
    }
}

/// Bit mask xored into each overwritten word; for `Hungry` the flipped
/// bit's position follows the parity of the event count `n`.
pub open spec fn spec_mask(h: Hunger, n: usize) -> u64 {
    match h {
        Hunger::Full => 0,
        Hunger::Hungry => if n % 2 == 0 {
            1
        } else {
            2
        },
        Hunger::Starving => 0x3,
        Hunger::Devouring => 0x7,
        Hunger::Insatiable => 0xFF,
    }
}

/// The corrupting allocator's configuration: the one chosen intensity
/// profile, fixed for the life of the process.
#[derive(Clone, Copy, Debug)]
pub struct Allocator {
    pub hunger: Hunger,
}

impl Allocator {
    /// Milliseconds the eater sleeps before its first bite.
    pub fn first_bite_offset(&self) -> (ms: u64)
        ensures
            ms == spec_first_bite_ms(self.hunger),
    {
        match self.hunger {
            Hunger::Full => u64::MAX,
            Hunger::Hungry => 1000,
            Hunger::Starving => 0,
            Hunger::Devouring => 0,
            Hunger::Insatiable => 0,
        }
    }

    /// Milliseconds the eater sleeps between bites.
    pub fn bite_offset(&self) -> (ms: u64)
        ensures
            ms == spec_bite_ms(self.hunger),
    {
        match self.hunger {
            Hunger::Full => u64::MAX,
            Hunger::Hungry => 1000,
            Hunger::Starving => 200,
            Hunger::Devouring => 50,
            Hunger::Insatiable => 10,
        }
    }

    /// The corruption shape of one bite: how many 8-byte words to flip
    /// and with what mask, given the current event count `n`.
    pub fn corruption_shape(self, n: usize) -> (r: (usize, u64))
        ensures
            r.0 == spec_words(self.hunger),
            r.1 == spec_mask(self.hunger, n),
    {
        let words: usize = match self.hunger {
            Hunger::Full => 0,
            Hunger::Hungry => 1,
            Hunger::Starving => 2,
            Hunger::Devouring => 4,
            Hunger::Insatiable => 8,
        };

        let mask: u64 = match self.hunger {
            Hunger::Full => 0,
            Hunger::Hungry => if n % 2 == 0 {
                1
            } else {
                2
            },
            Hunger::Starving => 0x3,
            Hunger::Devouring => 0x7,
            Hunger::Insatiable => 0xFF,
        };

        (words, mask)
    }
}

} // verus!
