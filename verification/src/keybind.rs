//! Key bindings: a parsed key sequence paired with an action and a cache of
//! the physical keycodes that currently satisfy its keysym.
//!
//! The keycode cache is derived data: it is recomputed on every grab pass
//! (see the grab module) and is otherwise read-only.

use vstd::prelude::*;

use crate::keyseq::KeySequence;

verus! {

/// A bound action: a single fallible operation with no return value.
/// Implementations live outside the verified library (they spawn processes
/// or otherwise touch the system), so the method carries no contract; a
/// failure is reported by the caller and never aborts dispatch.
pub trait Command {
    /// Perform the action.
    fn execute(&self) -> Result<(), String>;
}

/// An owned, dynamically dispatched action.
pub type BoxCommand = Box<dyn Command>;

/// A key binding: a key sequence, the action it triggers, and the cached
/// physical keycodes currently resolving to its keysym.
pub struct Keybind {
    /// The declared key sequence.
    pub key_sequence: KeySequence,
    /// Cache of physical keycodes whose current mapping satisfies the
    /// keysym; replaced on every grab pass.
    pub keycodes: Vec<u8>,
    /// The action to run when the binding fires.
    pub command: BoxCommand,
}

impl Keybind {
    /// Whether a key event with this keycode and this *normalized* modifier
    /// mask fires the binding: the keycode must be in the cache and the
    /// declared modifiers must equal the mask exactly -- no subset or
    /// superset test.
    pub open spec fn spec_matches(&self, keycode: u8, normalized_mask: u32) -> bool {
        self.keycodes@.contains(keycode) && self.key_sequence.modifiers == normalized_mask
    }

    /// A new binding with an empty keycode cache.
    pub fn new(key_sequence: KeySequence, command: BoxCommand) -> (r: Keybind)
        ensures
            r.key_sequence == key_sequence,
            r.keycodes@ == Seq::<u8>::empty(),
    {
        Keybind { key_sequence, keycodes: Vec::new(), command }
    }

    /// The declared key sequence.
    pub fn key_sequence(&self) -> (r: &KeySequence)
        ensures
            *r == self.key_sequence,
    {
        &self.key_sequence
    }

    /// Replace the keycode cache.
    pub fn update_keycodes(&mut self, keycodes: Vec<u8>)
        ensures
            final(self).keycodes == keycodes,
            final(self).key_sequence == old(self).key_sequence,
            final(self).command == old(self).command,
    {
        self.keycodes = keycodes;
    }

    /// The bound action.
    pub fn command(&self) -> (r: &BoxCommand)
        ensures
            r == &self.command,
    {
        &self.command
    }

    /// Whether the binding fires on this keycode and this normalized
    /// modifier mask.
    pub fn matches(&self, keycode: u8, modifiers: u32) -> (r: bool)
        ensures
            r == self.spec_matches(keycode, modifiers),
    {
        if self.key_sequence.modifiers != modifiers {
            return false;
        }
        let mut i: usize = 0;
        while i < self.keycodes.len()
            invariant
                i <= self.keycodes@.len(),
                self.key_sequence.modifiers == modifiers,
                forall|j: int| 0 <= j < i ==> self.keycodes@[j] != keycode,
            decreases self.keycodes@.len() - i,
        {
            if self.keycodes[i] == keycode {
                assert(self.keycodes@.contains(keycode)) by {
                    assert(self.keycodes@[i as int] == keycode);
                }
                return true;
            }
            i += 1;
        }
        false
    }
}

/// Matching a binding demands exact mask equality: with any other normalized
/// mask than the declared one -- be it a superset, a subset, or disjoint --
/// the binding does not fire.
pub proof fn lemma_match_exact_only(b: &Keybind, keycode: u8, normalized_mask: u32)
    requires
        b.key_sequence.modifiers != normalized_mask,
    ensures
        !b.spec_matches(keycode, normalized_mask),
{
}

} // verus!
