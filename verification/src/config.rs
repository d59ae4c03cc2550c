//! The keybind registry: an ordered list of bindings.
//!
//! Bindings are matched in registration order and the first match wins, so
//! the registry is implicitly priority-ordered; two bindings with identical
//! key sequences are a silent configuration conflict in which only the first
//! is ever reachable.

use vstd::prelude::*;

use crate::keybind::Keybind;
use crate::modmask::spec_normalize;

verus! {

/// The index of the first binding that fires on the given keycode and
/// *normalized* modifier mask, scanning in registration order.
pub open spec fn first_match(binds: Seq<Keybind>, keycode: u8, normalized_mask: u32) -> Option<
    int,
>
    decreases binds.len(),
{
    if binds.len() == 0 {
        None
    } else if binds[0].spec_matches(keycode, normalized_mask) {
        Some(0int)
    } else {
        match first_match(binds.drop_first(), keycode, normalized_mask) {
            Some(i) => Some(i + 1),
            None => None,
        }
    }
}

/// What `first_match` returns: the least index of a binding that fires, or
/// nothing when none does.
pub proof fn lemma_first_match_characterization(
    binds: Seq<Keybind>,
    keycode: u8,
    normalized_mask: u32,
)
    ensures
        (match first_match(binds, keycode, normalized_mask) {
            Some(i) => 0 <= i < binds.len() && binds[i].spec_matches(keycode, normalized_mask)
                && (forall|j: int|
                0 <= j < i ==> !binds[j].spec_matches(keycode, normalized_mask)),
            None => forall|j: int|
                0 <= j < binds.len() ==> !binds[j].spec_matches(keycode, normalized_mask),
        }),
    decreases binds.len(),
{
    if binds.len() != 0 && !binds[0].spec_matches(keycode, normalized_mask) {
        let rest = binds.drop_first();
        lemma_first_match_characterization(rest, keycode, normalized_mask);
        match first_match(rest, keycode, normalized_mask) {
            Some(i) => {
                assert(binds[i + 1] == rest[i]);
                assert forall|j: int|
                    0 <= j < i + 1 implies !binds[j].spec_matches(keycode, normalized_mask) by {
                    if j >= 1 {
                        assert(binds[j] == rest[j - 1]);
                        assert(!rest[j - 1].spec_matches(keycode, normalized_mask));
                    }
                }
            },
            None => {
                assert forall|j: int|
                    0 <= j < binds.len() implies !binds[j].spec_matches(
                    keycode,
                    normalized_mask,
                ) by {
                    if j >= 1 {
                        assert(binds[j] == rest[j - 1]);
                        assert(!rest[j - 1].spec_matches(keycode, normalized_mask));
                    }
                }
            },
        }
    }
}

/// Conversely, the least matching index is what `first_match` returns.
pub proof fn lemma_first_match_complete(
    binds: Seq<Keybind>,
    keycode: u8,
    normalized_mask: u32,
    i: int,
)
    requires
        0 <= i < binds.len(),
        binds[i].spec_matches(keycode, normalized_mask),
        forall|j: int| 0 <= j < i ==> !binds[j].spec_matches(keycode, normalized_mask),
    ensures
        first_match(binds, keycode, normalized_mask) == Some(i),
{
    lemma_first_match_characterization(binds, keycode, normalized_mask);
    match first_match(binds, keycode, normalized_mask) {
        Some(k) => {
            if k < i {
                assert(!binds[k].spec_matches(keycode, normalized_mask));
            }
            if i < k {
                assert(!binds[i].spec_matches(keycode, normalized_mask));
            }
        },
        None => {
            assert(!binds[i].spec_matches(keycode, normalized_mask));
        },
    }
}

/// The registry of configured key bindings, in registration order.
pub struct Config {
    /// The bindings; earlier entries take priority.
    pub keybinds: Vec<Keybind>,
}

impl Default for Config {
    /// An empty registry.
    fn default() -> (r: Config)
        ensures
            r.keybinds@ == Seq::<Keybind>::empty(),
    {
        Config { keybinds: Vec::new() }
    }
}

impl Config {
    /// Append a binding; it ranks after every binding already registered.
    pub fn add_keybind(&mut self, keybind: Keybind)
        ensures
            final(self).keybinds@ == old(self).keybinds@.push(keybind),
    {
        self.keybinds.push(keybind);
    }

    /// Route a key press: normalize the physical modifier mask by clearing
    /// the two indifferent lock bits (CapsLock and the resolved NumLock
    /// bit), then return the index of the first binding that fires on the
    /// keycode and the normalized mask, if any.  The caller executes that
    /// binding's action and stops scanning.
    pub fn match_keybind(&self, keycode: u8, state_mask: u32, numlock_mask: u32) -> (r: Option<
        usize,
    >)
        ensures
            (match first_match(
                self.keybinds@,
                keycode,
                spec_normalize(state_mask, numlock_mask),
            ) {
                Some(i) => r matches Some(u) && u == i,
                None => r is None,
            }),
    {
        let normalized = crate::modmask::normalize_mask(state_mask, numlock_mask);
        let ghost nm = spec_normalize(state_mask, numlock_mask);
        let mut i: usize = 0;
        while i < self.keybinds.len()
            invariant
                i <= self.keybinds@.len(),
                normalized == nm,
                nm == spec_normalize(state_mask, numlock_mask),
                forall|j: int| 0 <= j < i ==> !self.keybinds@[j].spec_matches(keycode, nm),
            decreases self.keybinds@.len() - i,
        {
            if self.keybinds[i].matches(keycode, normalized) {
                proof {
                    lemma_first_match_complete(self.keybinds@, keycode, nm, i as int);
                }
                return Some(i);
            }
            i += 1;
        }
        proof {
            lemma_first_match_characterization(self.keybinds@, keycode, nm);
        }
        None
    }
}

/// Lock-key indifference at the registry: a key press matches identically
/// whether or not CapsLock, the resolved NumLock bit, or both are part of
/// the physical mask, because normalization clears them before any binding
/// is compared.
pub proof fn lemma_match_lock_indifferent(
    binds: Seq<Keybind>,
    keycode: u8,
    state_mask: u32,
    numlock_mask: u32,
)
    ensures
        first_match(binds, keycode, spec_normalize(state_mask | crate::modmask::MASK_LOCK, numlock_mask))
            == first_match(binds, keycode, spec_normalize(state_mask, numlock_mask)),
        first_match(binds, keycode, spec_normalize(state_mask | numlock_mask, numlock_mask))
            == first_match(binds, keycode, spec_normalize(state_mask, numlock_mask)),
        first_match(
            binds,
            keycode,
            spec_normalize(state_mask | crate::modmask::MASK_LOCK | numlock_mask, numlock_mask),
        ) == first_match(binds, keycode, spec_normalize(state_mask, numlock_mask)),
{
    crate::modmask::lemma_lock_indifference(state_mask, numlock_mask);
}

/// First-match priority: of two bindings with the same key sequence and the
/// same keycode cache, the later one is never the match result -- only the
/// first registered is ever invoked.
pub proof fn lemma_first_match_priority(
    binds: Seq<Keybind>,
    i: int,
    j: int,
    keycode: u8,
    normalized_mask: u32,
)
    requires
        0 <= i < j < binds.len(),
        binds[i].key_sequence == binds[j].key_sequence,
        binds[i].keycodes@ == binds[j].keycodes@,
    ensures
        first_match(binds, keycode, normalized_mask) != Some(j),
{
    lemma_first_match_characterization(binds, keycode, normalized_mask);
    if first_match(binds, keycode, normalized_mask) == Some(j) {
        assert(binds[j].spec_matches(keycode, normalized_mask));
        assert(binds[i].spec_matches(keycode, normalized_mask));
    }
}

} // verus!
