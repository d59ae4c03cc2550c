//! Physical modifier masks.
//!
//! A modifier mask is a bitset over the eight physical modifier positions of
//! the core X protocol: Shift, Lock (CapsLock), Control and Mod1 through
//! Mod5.  The bit positions are fixed by the protocol; which *logical*
//! modifier (Super, NumLock) sits on which Mod bit is keymap-dependent and is
//! resolved by name at runtime, never hardcoded.

use vstd::prelude::*;

verus! {

/// Bit for the Shift modifier.
pub const MASK_SHIFT: u32 = 0x1;

/// Bit for the Lock (CapsLock) modifier.
pub const MASK_LOCK: u32 = 0x2;

/// Bit for the Control modifier.
pub const MASK_CONTROL: u32 = 0x4;

/// Bit for the Mod1 modifier.
pub const MASK_MOD1: u32 = 0x8;

/// Bit for the Mod2 modifier.
pub const MASK_MOD2: u32 = 0x10;

/// Bit for the Mod3 modifier.
pub const MASK_MOD3: u32 = 0x20;

/// Bit for the Mod4 modifier (Super on common keymaps).
pub const MASK_MOD4: u32 = 0x40;

/// Bit for the Mod5 modifier.
pub const MASK_MOD5: u32 = 0x80;

/// The wildcard modifier value of grab requests ("any modifier").
pub const MASK_ANY: u32 = 0x8000;

/// Number of physical modifier positions.
pub const MOD_POSITIONS: u32 = 8;

/// The mask holding exactly the bit of one physical modifier position.
pub open spec fn spec_modifier_bit(index: u32) -> u32 {
    (1u32 << index) as u32
}

/// The single-bit mask of the modifier at `index`, or `None` when the index
/// does not name one of the eight physical modifier positions.
pub fn modifier_bit(index: u32) -> (r: Option<u32>)
    ensures
        index < MOD_POSITIONS ==> r == Some(spec_modifier_bit(index)),
        index >= MOD_POSITIONS ==> r is None,
{
    if index < MOD_POSITIONS {
        Some(1u32 << index)
    } else {
        None
    }
}

/// A normalized mask: the incoming physical mask with the two "indifferent"
/// lock modifiers -- Lock (CapsLock) and the keymap's NumLock bit -- cleared,
/// so that they take no part in shortcut identity.
pub open spec fn spec_normalize(mask: u32, numlock_mask: u32) -> u32 {
    mask & !(MASK_LOCK | numlock_mask)
}

/// Clear the Lock bit and the resolved NumLock bit out of a physical
/// modifier mask.
pub fn normalize_mask(mask: u32, numlock_mask: u32) -> (r: u32)
    ensures
        r == spec_normalize(mask, numlock_mask),
{
    mask & !(MASK_LOCK | numlock_mask)
}

/// Lock-key indifference: adding CapsLock, the NumLock bit, or both to a
/// physical mask never changes its normalized form, so a binding fires
/// identically whatever the lock-key state is.
pub proof fn lemma_lock_indifference(mask: u32, numlock_mask: u32)
    ensures
        spec_normalize(mask | MASK_LOCK, numlock_mask) == spec_normalize(mask, numlock_mask),
        spec_normalize(mask | numlock_mask, numlock_mask) == spec_normalize(mask, numlock_mask),
        spec_normalize(mask | MASK_LOCK | numlock_mask, numlock_mask) == spec_normalize(
            mask,
            numlock_mask,
        ),
{
    assert((mask | MASK_LOCK) & !(MASK_LOCK | numlock_mask) == mask & !(MASK_LOCK | numlock_mask))
        by (bit_vector);
    assert((mask | numlock_mask) & !(MASK_LOCK | numlock_mask) == mask & !(MASK_LOCK
        | numlock_mask)) by (bit_vector);
    assert((mask | MASK_LOCK | numlock_mask) & !(MASK_LOCK | numlock_mask) == mask & !(MASK_LOCK
        | numlock_mask)) by (bit_vector);
}

} // verus!
