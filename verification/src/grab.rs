//! The grab manager: deriving the full set of passive key grabs that keeps
//! every configured binding active.
//!
//! For every binding, the grab set is the Cartesian product of its resolved
//! keycodes with four modifier variants of its base mask -- the base alone,
//! base plus NumLock, base plus CapsLock, and base plus both -- so the
//! shortcut fires regardless of lock-key state.  The set is transient: it is
//! recomputed on every grab pass and never persisted.  Ungrabbing is one
//! wildcard request (any key, any modifier), deliberately coarser than the
//! grabs, so that stale grabs from a previous keymap cannot survive a remap.

use vstd::prelude::*;

use crate::config::Config;
use crate::keybind::Keybind;
use crate::keyboard::KeyboardMapping;
use crate::keyseq::KeySequence;
use crate::modmask::{MASK_ANY, MASK_LOCK};

verus! {

/// The modifier bits a grab request can carry: the eight physical modifier
/// positions and the wildcard bit.
pub const GRAB_MASK_BITS: u32 = 0x80ff;

/// The wildcard keycode of ungrab requests ("any key").
pub const ANY_KEY: u8 = 0;

/// One passive key grab to register with the server: a physical keycode and
/// an exact modifier mask.
#[derive(Clone, Copy, Debug, PartialEq, Eq, Structural)]
pub struct GrabRequest {
    /// The physical keycode to grab.
    pub keycode: u8,
    /// The exact modifier mask to grab it under.
    pub modifiers: u32,
}

/// One wildcard ungrab to issue against the root-window grab context.
#[derive(Clone, Copy, Debug, PartialEq, Eq, Structural)]
pub struct UngrabRequest {
    /// The keycode, `ANY_KEY` for every key.
    pub key: u8,
    /// The modifier mask, `MASK_ANY` for every modifier combination.
    pub modifiers: u32,
}

/// The base grab mask of a key sequence: its declared modifier bits,
/// restricted to the bits a grab request can carry.
pub open spec fn spec_base_mask(ks: KeySequence) -> u32 {
    ks.modifiers & GRAB_MASK_BITS
}

/// The four lock-key permutations under which one keycode is grabbed, in
/// issue order: base, base+NumLock, base+CapsLock, base+CapsLock+NumLock.
pub open spec fn lock_variant_grabs(keycode: u8, base: u32, numlock_mask: u32) -> Seq<
    GrabRequest,
> {
    seq![
        GrabRequest { keycode, modifiers: base },
        GrabRequest { keycode, modifiers: base | numlock_mask },
        GrabRequest { keycode, modifiers: base | MASK_LOCK },
        GrabRequest { keycode, modifiers: base | MASK_LOCK | numlock_mask },
    ]
}

/// The grabs of one binding: four variants for each of its keycodes, in
/// keycode order.
pub open spec fn grabs_for_keycodes(base: u32, keycodes: Seq<u8>, numlock_mask: u32) -> Seq<
    GrabRequest,
>
    decreases keycodes.len(),
{
    if keycodes.len() == 0 {
        Seq::empty()
    } else {
        grabs_for_keycodes(base, keycodes.drop_last(), numlock_mask) + lock_variant_grabs(
            keycodes.last(),
            base,
            numlock_mask,
        )
    }
}

/// The full grab set of a registry over a keyboard mapping: for every
/// binding in order, four variants per resolved keycode.
pub open spec fn grab_set(
    binds: Seq<Keybind>,
    mapping: KeyboardMapping,
    numlock_mask: u32,
) -> Seq<GrabRequest>
    decreases binds.len(),
{
    if binds.len() == 0 {
        Seq::empty()
    } else {
        grab_set(binds.drop_last(), mapping, numlock_mask) + grabs_for_keycodes(
            spec_base_mask(binds.last().key_sequence),
            mapping.spec_keycodes_for(binds.last().key_sequence.keysym),
            numlock_mask,
        )
    }
}

/// Compute the grab pass for the whole registry: resolve every binding's
/// keysym over the mapping, store the keycodes on the binding as its new
/// cache, and return the grab set -- one request per (keycode, variant)
/// pair, in registry order.  The caller issues one passive grab per element,
/// with owner-events semantics and asynchronous grab modes, and treats any
/// rejected grab as a fatal configuration error.
pub fn grab_all(config: &mut Config, mapping: &KeyboardMapping, numlock_mask: u32) -> (r: Vec<
    GrabRequest,
>)
    ensures
        r@ == grab_set(old(config).keybinds@, *mapping, numlock_mask),
        final(config).keybinds@.len() == old(config).keybinds@.len(),
        forall|i: int|
            0 <= i < old(config).keybinds@.len() ==> {
                &&& (#[trigger] final(config).keybinds@[i]).key_sequence == old(
                    config,
                ).keybinds@[i].key_sequence
                &&& final(config).keybinds@[i].command == old(config).keybinds@[i].command
                &&& final(config).keybinds@[i].keycodes@ == mapping.spec_keycodes_for(
                    old(config).keybinds@[i].key_sequence.keysym,
                )
            },
{
    let mut r: Vec<GrabRequest> = Vec::new();
    let n = config.keybinds.len();
    let mut i: usize = 0;
    proof {
        assert(old(config).keybinds@.take(0) =~= Seq::<Keybind>::empty());
    }
    while i < n
        invariant
            n == config.keybinds@.len(),
            config.keybinds@.len() == old(config).keybinds@.len(),
            i <= n,
            forall|j: int|
                i <= j < n ==> #[trigger] config.keybinds@[j] == old(config).keybinds@[j],
            forall|j: int|
                0 <= j < i ==> {
                    &&& (#[trigger] config.keybinds@[j]).key_sequence == old(
                        config,
                    ).keybinds@[j].key_sequence
                    &&& config.keybinds@[j].command == old(config).keybinds@[j].command
                    &&& config.keybinds@[j].keycodes@ == mapping.spec_keycodes_for(
                        old(config).keybinds@[j].key_sequence.keysym,
                    )
                },
            r@ == grab_set(old(config).keybinds@.take(i as int), *mapping, numlock_mask),
        decreases n - i,
    {
        let ks: KeySequence = config.keybinds[i].key_sequence;
        let base = ks.modifiers & GRAB_MASK_BITS;
        let keycodes = mapping.keycodes_for_keysym(ks.keysym);
        let ghost r_before = r@;
        let mut k: usize = 0;
        proof {
            assert(keycodes@.take(0) =~= Seq::<u8>::empty());
            assert(r_before + grabs_for_keycodes(base, keycodes@.take(0), numlock_mask)
                =~= r_before);
        }
        while k < keycodes.len()
            invariant
                k <= keycodes@.len(),
                r@ == r_before + grabs_for_keycodes(base, keycodes@.take(k as int), numlock_mask),
            decreases keycodes@.len() - k,
        {
            let kc = keycodes[k];
            r.push(GrabRequest { keycode: kc, modifiers: base });
            r.push(GrabRequest { keycode: kc, modifiers: base | numlock_mask });
            r.push(GrabRequest { keycode: kc, modifiers: base | MASK_LOCK });
            r.push(GrabRequest { keycode: kc, modifiers: base | MASK_LOCK | numlock_mask });
            proof {
                let t1 = keycodes@.take(k + 1 as int);
                assert(t1.drop_last() =~= keycodes@.take(k as int));
                assert(t1.last() == keycodes@[k as int]);
                assert(r@ =~= r_before + grabs_for_keycodes(base, t1, numlock_mask));
            }
            k += 1;
        }
        proof {
            assert(keycodes@.take(keycodes@.len() as int) =~= keycodes@);
        }
        let kb = &mut config.keybinds[i];
        kb.update_keycodes(keycodes);
        proof {
            let t = old(config).keybinds@.take(i + 1 as int);
            assert(t.drop_last() =~= old(config).keybinds@.take(i as int));
            assert(t.last() == old(config).keybinds@[i as int]);
            assert(r@ =~= grab_set(t, *mapping, numlock_mask));
        }
        i += 1;
    }
    proof {
        assert(old(config).keybinds@.take(n as int) =~= old(config).keybinds@);
    }
    r
}

/// The one wildcard ungrab of a remap pass: any key, any modifier, against
/// the root-window grab context.  Coarser than the per-binding grabs on
/// purpose, so stale grabs of a previous keymap cannot survive even when the
/// old keycode set is no longer resolvable.
pub fn ungrab_all() -> (r: UngrabRequest)
    ensures
        r == (UngrabRequest { key: ANY_KEY, modifiers: MASK_ANY }),
{
    UngrabRequest { key: ANY_KEY, modifiers: MASK_ANY }
}

/// The grabs of one binding number four per resolved keycode.
pub proof fn lemma_grabs_for_keycodes_len(base: u32, keycodes: Seq<u8>, numlock_mask: u32)
    ensures
        grabs_for_keycodes(base, keycodes, numlock_mask).len() == 4 * keycodes.len(),
    decreases keycodes.len(),
{
    if keycodes.len() != 0 {
        lemma_grabs_for_keycodes_len(base, keycodes.drop_last(), numlock_mask);
    }
}

/// Grab completeness: when each of the N configured bindings resolves to K
/// keycodes, the grab pass issues exactly N * K * 4 grab requests -- one per
/// lock-key permutation of each keycode of each binding.
pub proof fn lemma_grab_completeness(
    binds: Seq<Keybind>,
    mapping: KeyboardMapping,
    numlock_mask: u32,
    k: int,
)
    requires
        forall|i: int|
            0 <= i < binds.len() ==> (#[trigger] mapping.spec_keycodes_for(
                binds[i].key_sequence.keysym,
            )).len() == k,
    ensures
        grab_set(binds, mapping, numlock_mask).len() == binds.len() * k * 4,
    decreases binds.len(),
{
    if binds.len() == 0 {
        assert(grab_set(binds, mapping, numlock_mask).len() == 0);
    } else {
        let rest = binds.drop_last();
        assert forall|i: int|
            0 <= i < rest.len() implies (#[trigger] mapping.spec_keycodes_for(
            rest[i].key_sequence.keysym,
        )).len() == k by {
            assert(rest[i] == binds[i]);
        }
        lemma_grab_completeness(rest, mapping, numlock_mask, k);
        assert(mapping.spec_keycodes_for(binds.last().key_sequence.keysym).len() == k);
        lemma_grabs_for_keycodes_len(
            spec_base_mask(binds.last().key_sequence),
            mapping.spec_keycodes_for(binds.last().key_sequence.keysym),
            numlock_mask,
        );
        assert(rest.len() * k * 4 + k * 4 == binds.len() * k * 4) by (nonlinear_arith)
            requires
                rest.len() == binds.len() - 1,
        ;
    }
}

/// Remap idempotence: the grab set depends only on the bindings' key
/// sequences, never on their keycode caches, and a grab pass preserves every
/// key sequence.  So running `ungrab_all`, a keymap rebuild, and `grab_all`
/// twice in a row with no intervening server-side keymap change derives the
/// same grab set both times.
pub proof fn lemma_regrab_idempotent(
    binds1: Seq<Keybind>,
    binds2: Seq<Keybind>,
    mapping: KeyboardMapping,
    numlock_mask: u32,
)
    requires
        binds1.len() == binds2.len(),
        forall|i: int|
            0 <= i < binds1.len() ==> (#[trigger] binds1[i]).key_sequence
                == binds2[i].key_sequence,
    ensures
        grab_set(binds1, mapping, numlock_mask) == grab_set(binds2, mapping, numlock_mask),
    decreases binds1.len(),
{
    if binds1.len() != 0 {
        let r1 = binds1.drop_last();
        let r2 = binds2.drop_last();
        assert forall|i: int|
            0 <= i < r1.len() implies (#[trigger] r1[i]).key_sequence == r2[i].key_sequence by {
            assert(r1[i] == binds1[i]);
            assert(r2[i] == binds2[i]);
        }
        lemma_regrab_idempotent(r1, r2, mapping, numlock_mask);
        assert(binds1.last().key_sequence == binds2.last().key_sequence);
    }
}

} // verus!
