//! Keyboard state: the bridge between the XKB symbolic model and the X
//! protocol's physical keycodes.
//!
//! The library's model of the keyboard is plain data: the device id and the
//! server's keyboard mapping table, over which keysym-to-keycode resolution
//! is fully verified.  The compiled XKB keymap and live state object are
//! built and queried by the surrounding binary; they are always compiled
//! from the same device id and replaced together with the mapping, since a
//! mismatched pair yields undefined keycode/keysym translation.

use vstd::prelude::*;

verus! {

/// The server's full keyboard mapping: for every physical keycode between
/// `min_keycode` and `max_keycode` a row of `keysyms_per_keycode` columns,
/// flattened row by row into `keysyms`.
#[derive(Clone, Debug)]
pub struct KeyboardMapping {
    /// Lowest keycode the server reports.
    pub min_keycode: u8,
    /// Highest keycode the server reports.
    pub max_keycode: u8,
    /// Number of columns per keycode row.
    pub keysyms_per_keycode: u8,
    /// The rows, flattened; entries beyond the end of the table count as
    /// unmapped.
    pub keysyms: Vec<u32>,
}

impl KeyboardMapping {
    /// Whether any column of this keycode's row currently maps to `keysym`.
    pub open spec fn spec_maps_to(&self, keycode: u8, keysym: u32) -> bool {
        &&& self.min_keycode <= keycode <= self.max_keycode
        &&& exists|col: int|
            {
                &&& 0 <= col < self.keysyms_per_keycode
                &&& (keycode - self.min_keycode) * self.keysyms_per_keycode + col
                    < self.keysyms@.len()
                &&& #[trigger] self.keysyms@[(keycode - self.min_keycode)
                    * self.keysyms_per_keycode + col] == keysym
            }
    }

    /// The keycodes strictly below `bound` whose rows map to the keysym, in
    /// ascending order.
    pub open spec fn spec_keycodes_below(&self, keysym: u32, bound: int) -> Seq<u8>
        decreases bound,
    {
        if bound <= 0 {
            Seq::empty()
        } else if self.spec_maps_to((bound - 1) as u8, keysym) {
            self.spec_keycodes_below(keysym, bound - 1).push((bound - 1) as u8)
        } else {
            self.spec_keycodes_below(keysym, bound - 1)
        }
    }

    /// Every keycode whose row maps to the keysym, ascending and without
    /// duplicates.
    pub open spec fn spec_keycodes_for(&self, keysym: u32) -> Seq<u8> {
        self.spec_keycodes_below(keysym, 256)
    }

    /// Every physical keycode any of whose columns currently maps to the
    /// given keysym, deduplicated, in ascending keycode order.  A logical
    /// key may live on more than one physical key or column (secondary
    /// layout groups, AltGr layers), and a caller that grabs shortcuts must
    /// grab all of them.
    pub fn keycodes_for_keysym(&self, keysym: u32) -> (r: Vec<u8>)
        ensures
            r@ == self.spec_keycodes_for(keysym),
            forall|kc: u8| r@.contains(kc) <==> self.spec_maps_to(kc, keysym),
            forall|a: int, b: int| 0 <= a < b < r@.len() ==> r@[a] < r@[b],
    {
        let mut r: Vec<u8> = Vec::new();
        if self.min_keycode > self.max_keycode {
            proof {
                assert(forall|kc: u8| !self.spec_maps_to(kc, keysym));
                self.lemma_keycodes_below_stable(keysym, 0, 256);
            }
            return r;
        }
        let min = self.min_keycode as usize;
        let max = self.max_keycode as usize;
        let per = self.keysyms_per_keycode as usize;
        let mut kc: usize = min;
        proof {
            self.lemma_keycodes_below_stable(keysym, 0, min as int);
        }
        while kc <= max
            invariant
                min == self.min_keycode,
                max == self.max_keycode,
                per == self.keysyms_per_keycode,
                min <= kc <= max + 1,
                r@ == self.spec_keycodes_below(keysym, kc as int),
                forall|x: u8| r@.contains(x) <==> (self.spec_maps_to(x, keysym) && x < kc),
                forall|a: int, b: int| 0 <= a < b < r@.len() ==> r@[a] < r@[b],
                forall|a: int| 0 <= a < r@.len() ==> r@[a] < kc,
            decreases max + 1 - kc,
        {
            proof {
                assert((kc - min) * per <= 255 * 255) by (nonlinear_arith)
                    requires
                        0 <= kc - min <= 255,
                        0 <= per <= 255,
                ;
            }
            let row = (kc - min) * per;
            let mut col: usize = 0;
            let mut found = false;
            while col < per
                invariant
                    row == (kc - min) * per,
                    row <= 255 * 255,
                    min == self.min_keycode,
                    per == self.keysyms_per_keycode,
                    min <= kc <= 255,
                    col <= per,
                    found <==> exists|c: int|
                        {
                            &&& 0 <= c < col
                            &&& row + c < self.keysyms@.len()
                            &&& #[trigger] self.keysyms@[row + c] == keysym
                        },
                decreases per - col,
            {
                let idx = row + col;
                if idx < self.keysyms.len() {
                    if self.keysyms[idx] == keysym {
                        found = true;
                        assert(self.keysyms@[row + col] == keysym);
                    }
                }
                col += 1;
            }
            let ghost old_r = r@;
            if found {
                proof {
                    let c = choose|c: int|
                        {
                            &&& 0 <= c < per
                            &&& row + c < self.keysyms@.len()
                            &&& #[trigger] self.keysyms@[row + c] == keysym
                        };
                    assert((kc as u8 - self.min_keycode) * self.keysyms_per_keycode + c == row
                        + c);
                    assert(self.spec_maps_to(kc as u8, keysym));
                }
                r.push(kc as u8);
                proof {
                    assert(r@[old_r.len() as int] == kc as u8);
                    assert forall|x: u8|
                        r@.contains(x) <==> (self.spec_maps_to(x, keysym) && x < kc
                            + 1) by {
                        if x == kc as u8 {
                            assert(r@.contains(x)) by {
                                assert(r@[old_r.len() as int] == x);
                            }
                        } else {
                            if r@.contains(x) {
                                let i = choose|i: int| 0 <= i < r@.len() && r@[i] == x;
                                assert(i < old_r.len());
                                assert(old_r[i] == x);
                                assert(old_r.contains(x));
                            }
                            if old_r.contains(x) {
                                let i = choose|i: int| 0 <= i < old_r.len() && old_r[i] == x;
                                assert(r@[i] == x);
                            }
                        }
                    }
                }
            } else {
                proof {
                    assert(!self.spec_maps_to(kc as u8, keysym)) by {
                        if self.spec_maps_to(kc as u8, keysym) {
                            let c = choose|c: int|
                                {
                                    &&& 0 <= c < self.keysyms_per_keycode
                                    &&& (kc as u8 - self.min_keycode) * self.keysyms_per_keycode
                                        + c < self.keysyms@.len()
                                    &&& #[trigger] self.keysyms@[(kc as u8 - self.min_keycode)
                                        * self.keysyms_per_keycode + c] == keysym
                                };
                            assert(row + c == (kc as u8 - self.min_keycode)
                                * self.keysyms_per_keycode + c);
                            assert(self.keysyms@[row + c] == keysym);
                        }
                    }
                }
            }
            kc += 1;
        }
        proof {
            self.lemma_keycodes_below_stable(keysym, max + 1 as int, 256);
        }
        r
    }

    /// Extending the bound across keycodes that do not map to the keysym
    /// leaves the below-bound keycode sequence unchanged.
    pub proof fn lemma_keycodes_below_stable(&self, keysym: u32, j: int, k: int)
        requires
            0 <= j <= k <= 256,
            forall|c: int| j <= c < k ==> !(#[trigger] self.spec_maps_to(c as u8, keysym)),
        ensures
            self.spec_keycodes_below(keysym, k) == self.spec_keycodes_below(keysym, j),
        decreases k - j,
    {
        if k > j {
            self.lemma_keycodes_below_stable(keysym, j, k - 1);
            assert(!self.spec_maps_to((k - 1) as u8, keysym));
        }
    }
}

/// An incremental modifier/group update from the server, folded into the
/// live state on every keyboard state-change notification.
#[derive(Clone, Copy, Debug, PartialEq, Eq, Structural)]
pub struct StateDelta {
    /// Modifiers physically held down.
    pub base_mods: u32,
    /// Modifiers latched for the next key.
    pub latched_mods: u32,
    /// Modifiers locked until released.
    pub locked_mods: u32,
    /// Layout group physically selected.
    pub base_group: u32,
    /// Layout group latched for the next key.
    pub latched_group: u32,
    /// Layout group locked until changed.
    pub locked_group: u32,
}

/// The library's view of the keyboard: the device id the surrounding
/// binary compiled its XKB keymap and state for, and the server's keyboard
/// mapping table fetched alongside them.  The three are rebuilt and swapped
/// in together on every remap.
pub struct Keyboard {
    /// The device the keymap, state and mapping belong to.
    pub device_id: i32,
    /// The server's keyboard mapping, fetched when the keymap was built.
    pub mapping: KeyboardMapping,
}

impl Keyboard {
    /// Assemble the keyboard state.  The caller must have compiled its XKB
    /// keymap and state from this device id and fetched the mapping from
    /// the same server connection.
    pub fn new(device_id: i32, mapping: KeyboardMapping) -> (r: Keyboard)
        ensures
            r.device_id == device_id,
            r.mapping == mapping,
    {
        Keyboard { device_id, mapping }
    }

    /// Swap in a freshly fetched mapping after a keymap rebuild.  The caller
    /// replaces its compiled keymap and state in the same step, atomically
    /// from this library's perspective; queries between a keymap-change
    /// notification and this call are a caller error.
    pub fn update_keymaps(&mut self, mapping: KeyboardMapping)
        ensures
            final(self).device_id == old(self).device_id,
            final(self).mapping == mapping,
    {
        self.mapping = mapping;
    }

    /// Every keycode that currently resolves to the keysym, ascending and
    /// deduplicated, read from the held keyboard mapping.
    pub fn keysym_to_keycodes(&self, keysym: u32) -> (r: Vec<u8>)
        ensures
            r@ == self.mapping.spec_keycodes_for(keysym),
            forall|kc: u8| r@.contains(kc) <==> self.mapping.spec_maps_to(kc, keysym),
            forall|a: int, b: int| 0 <= a < b < r@.len() ==> r@[a] < r@[b],
    {
        self.mapping.keycodes_for_keysym(keysym)
    }
}

} // verus!
