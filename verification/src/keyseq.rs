//! Parsing of human-readable key binding descriptions.
//!
//! A binding description is a string of dash-separated tokens, such as
//! `"M-d"` or `"C-S-s"`.  A token that is a single ASCII uppercase letter is
//! a modifier code (`S` for Shift, `C` for Control, `M` for Super/Mod4); any
//! other such letter is rejected.  Every other token names a keysym and is
//! resolved through a keysym table.  Exactly one keysym is required;
//! modifier tokens accumulate by bitwise OR, so duplicates are harmless and
//! their order does not matter.
//!
//! Keysym-name resolution itself lives outside this library: the caller
//! first asks `keysym_names` which names a description uses, resolves each
//! through the XKB keysym-name lookup, and hands the answers back as a
//! `KeysymTable`.  A name the table does not hold, or one it maps to
//! `KEYSYM_NONE`, is unresolvable.

use vstd::prelude::*;
use vstd::string::StrSliceExecFns;

use crate::modmask::{MASK_CONTROL, MASK_MOD4, MASK_SHIFT};

verus! {

/// The keysym value that stands for "no symbol"; never a valid keysym.
pub const KEYSYM_NONE: u32 = 0;

/// One resolved keysym name.
pub struct KeysymEntry {
    /// The name, exactly as it stands in a binding description.
    pub name: String,
    /// What the name resolved to; `KEYSYM_NONE` for a name the resolver
    /// does not know.
    pub keysym: u32,
}

/// Resolved keysym names, looked up by name; the first entry with a given
/// name wins.
pub struct KeysymTable {
    /// The entries, in insertion order.
    pub entries: Vec<KeysymEntry>,
}

/// The keysym of the first entry carrying this name, if any.
pub open spec fn spec_lookup(entries: Seq<KeysymEntry>, name: Seq<char>) -> Option<u32>
    decreases entries.len(),
{
    if entries.len() == 0 {
        None
    } else if entries[0].name@ == name {
        Some(entries[0].keysym)
    } else {
        spec_lookup(entries.drop_first(), name)
    }
}

/// The first entry with a matching name decides the lookup.
proof fn lemma_lookup_found(entries: Seq<KeysymEntry>, name: Seq<char>, i: int)
    requires
        0 <= i < entries.len(),
        entries[i].name@ == name,
        forall|j: int| 0 <= j < i ==> (#[trigger] entries[j].name@) != name,
    ensures
        spec_lookup(entries, name) == Some(entries[i].keysym),
    decreases entries.len(),
{
    if i > 0 {
        let rest = entries.drop_first();
        assert(forall|j: int| 0 <= j < i - 1 ==> (#[trigger] rest[j].name@) == entries[j + 1].name@);
        lemma_lookup_found(rest, name, i - 1);
    }
}

/// With no matching name the lookup is empty.
proof fn lemma_lookup_missing(entries: Seq<KeysymEntry>, name: Seq<char>)
    requires
        forall|j: int| 0 <= j < entries.len() ==> (#[trigger] entries[j].name@) != name,
    ensures
        spec_lookup(entries, name) is None,
    decreases entries.len(),
{
    if entries.len() > 0 {
        let rest = entries.drop_first();
        assert(forall|j: int| 0 <= j < rest.len() ==> (#[trigger] rest[j].name@) == entries[j + 1].name@);
        lemma_lookup_missing(rest, name);
    }
}

impl KeysymTable {
    /// An empty table.
    pub fn new() -> (r: KeysymTable)
        ensures
            r.entries@ == Seq::<KeysymEntry>::empty(),
    {
        KeysymTable { entries: Vec::new() }
    }

    /// Record what a name resolved to, after every entry already recorded.
    pub fn add(&mut self, name: String, keysym: u32)
        ensures
            final(self).entries@.len() == old(self).entries@.len() + 1,
            final(self).entries@[old(self).entries@.len() as int].name@ == name@,
            final(self).entries@[old(self).entries@.len() as int].keysym == keysym,
            forall|i: int|
                0 <= i < old(self).entries@.len() ==> final(self).entries@[i] == old(
                    self,
                ).entries@[i],
    {
        self.entries.push(KeysymEntry { name, keysym });
    }

    /// Look a name up: the keysym of its first entry, if the table holds it.
    pub fn lookup(&self, name: &str) -> (r: Option<u32>)
        ensures
            r == spec_lookup(self.entries@, name@),
    {
        let owned = name.to_owned();
        let mut i: usize = 0;
        while i < self.entries.len()
            invariant
                i <= self.entries@.len(),
                owned@ == name@,
                forall|j: int| 0 <= j < i ==> (#[trigger] self.entries@[j].name@) != name@,
            decreases self.entries@.len() - i,
        {
            let e = &self.entries[i];
            if e.name.eq(&owned) {
                proof {
                    lemma_lookup_found(self.entries@, name@, i as int);
                }
                return Some(e.keysym);
            }
            i += 1;
        }
        proof {
            lemma_lookup_missing(self.entries@, name@);
        }
        None
    }
}

/// An immutable parsed key binding: a symbolic keysym together with the
/// logical modifier bits it was declared with.
#[derive(Clone, Copy, Debug, PartialEq, Eq, Structural)]
pub struct KeySequence {
    /// Symbolic key identity (a keysym value, never `KEYSYM_NONE`
    /// when built by the parser).
    pub keysym: u32,
    /// Declared modifier bits.
    pub modifiers: u32,
}

/// Why a binding description failed to parse.
#[derive(Debug)]
pub enum ParseError {
    /// A single-uppercase-letter token that is not a recognized
    /// modifier code.
    UnknownModifier(char),
    /// A keysym token the table does not resolve.
    UnresolvedKeysym(String),
    /// No keysym token at all.
    MissingKeysym,
}

/// Mathematical form of `ParseError`.
pub enum SpecParseError {
    UnknownModifier(char),
    UnresolvedKeysym(Seq<char>),
    MissingKeysym,
}

impl View for ParseError {
    type V = SpecParseError;

    open spec fn view(&self) -> SpecParseError {
        match self {
            ParseError::UnknownModifier(c) => SpecParseError::UnknownModifier(*c),
            ParseError::UnresolvedKeysym(s) => SpecParseError::UnresolvedKeysym(s@),
            ParseError::MissingKeysym => SpecParseError::MissingKeysym,
        }
    }
}

/// A token treated as a modifier code: a single ASCII uppercase letter.
pub open spec fn is_modifier_token(t: Seq<char>) -> bool {
    t.len() == 1 && 'A' <= t[0] && t[0] <= 'Z'
}

/// The modifier bit of a modifier-code letter, if it is one of the three
/// recognized codes.
pub open spec fn modifier_mask_of(c: char) -> Option<u32> {
    if c == 'S' {
        Some(MASK_SHIFT)
    } else if c == 'C' {
        Some(MASK_CONTROL)
    } else if c == 'M' {
        Some(MASK_MOD4)
    } else {
        None
    }
}

/// Whether a keysym token resolves to a real keysym under the table.
pub open spec fn token_resolves(entries: Seq<KeysymEntry>, t: Seq<char>) -> bool {
    match spec_lookup(entries, t) {
        Some(k) => k != KEYSYM_NONE,
        None => false,
    }
}

/// The keysym a resolvable token stands for.
pub open spec fn resolved_keysym(entries: Seq<KeysymEntry>, t: Seq<char>) -> u32 {
    match spec_lookup(entries, t) {
        Some(k) => k,
        None => KEYSYM_NONE,
    }
}

/// One step of the parse: fold a single token into the running state of
/// optional keysym and accumulated modifier bits.  A later keysym token
/// replaces an earlier one; modifier bits accumulate by OR.
pub open spec fn apply_token(
    entries: Seq<KeysymEntry>,
    t: Seq<char>,
    keysym: Option<u32>,
    mods: u32,
) -> Result<(Option<u32>, u32), SpecParseError> {
    if is_modifier_token(t) {
        match modifier_mask_of(t[0]) {
            Some(m) => Ok((keysym, mods | m)),
            None => Err(SpecParseError::UnknownModifier(t[0])),
        }
    } else {
        if token_resolves(entries, t) {
            Ok((Some(resolved_keysym(entries, t)), mods))
        } else {
            Err(SpecParseError::UnresolvedKeysym(t))
        }
    }
}

/// End of the parse: a keysym must have been seen.
pub open spec fn finalize(st: (Option<u32>, u32)) -> Result<KeySequence, SpecParseError> {
    match st.0 {
        Some(k) => Ok(KeySequence { keysym: k, modifiers: st.1 }),
        None => Err(SpecParseError::MissingKeysym),
    }
}

/// The parse of the rest of a description: `s` is the unread tail, `cur` the
/// characters of the token being read, and `keysym`/`mods` the state folded
/// from the tokens already read.  Tokens are cut at every dash; the first
/// offending token decides the error.
pub open spec fn parse_from(
    entries: Seq<KeysymEntry>,
    s: Seq<char>,
    cur: Seq<char>,
    keysym: Option<u32>,
    mods: u32,
) -> Result<KeySequence, SpecParseError>
    decreases s.len(),
{
    if s.len() == 0 {
        match apply_token(entries, cur, keysym, mods) {
            Ok(st) => finalize(st),
            Err(e) => Err(e),
        }
    } else if s[0] == '-' {
        match apply_token(entries, cur, keysym, mods) {
            Ok(st) => parse_from(entries, s.drop_first(), Seq::empty(), st.0, st.1),
            Err(e) => Err(e),
        }
    } else {
        parse_from(entries, s.drop_first(), cur.push(s[0]), keysym, mods)
    }
}

/// The parsed form of a whole binding description under a keysym table.
pub open spec fn parse_spec(entries: Seq<KeysymEntry>, s: Seq<char>) -> Result<
    KeySequence,
    SpecParseError,
> {
    parse_from(entries, s, Seq::empty(), None, 0)
}

/// The token list of a description: `s` is the unread tail and `cur` the
/// token being read; a dash ends the current token.  Splitting the whole
/// description starts with an empty current token.
pub open spec fn split_tokens(s: Seq<char>, cur: Seq<char>) -> Seq<Seq<char>>
    decreases s.len(),
{
    if s.len() == 0 {
        seq![cur]
    } else if s[0] == '-' {
        seq![cur] + split_tokens(s.drop_first(), Seq::empty())
    } else {
        split_tokens(s.drop_first(), cur.push(s[0]))
    }
}

/// The parse as a fold over a token list.
pub open spec fn parse_tokens(
    entries: Seq<KeysymEntry>,
    toks: Seq<Seq<char>>,
    keysym: Option<u32>,
    mods: u32,
) -> Result<(Option<u32>, u32), SpecParseError>
    decreases toks.len(),
{
    if toks.len() == 0 {
        Ok((keysym, mods))
    } else {
        match apply_token(entries, toks[0], keysym, mods) {
            Ok(st) => parse_tokens(entries, toks.drop_first(), st.0, st.1),
            Err(e) => Err(e),
        }
    }
}

/// Whether a single token folds without error.
pub open spec fn token_ok(entries: Seq<KeysymEntry>, t: Seq<char>) -> bool {
    if is_modifier_token(t) {
        modifier_mask_of(t[0]) is Some
    } else {
        token_resolves(entries, t)
    }
}

/// The subsequence of tokens that are keysym tokens, in order.
pub open spec fn keysym_tokens(toks: Seq<Seq<char>>) -> Seq<Seq<char>>
    decreases toks.len(),
{
    if toks.len() == 0 {
        Seq::empty()
    } else {
        let rest = keysym_tokens(toks.drop_first());
        if is_modifier_token(toks[0]) {
            rest
        } else {
            seq![toks[0]] + rest
        }
    }
}

/// The keysym tokens of a whole description: the names its parse will look
/// up, in order.
pub open spec fn spec_keysym_names(s: Seq<char>) -> Seq<Seq<char>> {
    keysym_tokens(split_tokens(s, Seq::empty()))
}

/// The character-level parse agrees with the token-level fold over the
/// token split.
pub proof fn lemma_parse_from_tokens(
    entries: Seq<KeysymEntry>,
    s: Seq<char>,
    cur: Seq<char>,
    keysym: Option<u32>,
    mods: u32,
)
    ensures
        parse_from(entries, s, cur, keysym, mods) == (match parse_tokens(
            entries,
            split_tokens(s, cur),
            keysym,
            mods,
        ) {
            Ok(st) => finalize(st),
            Err(e) => Err(e),
        }),
    decreases s.len(),
{
    if s.len() == 0 {
        let toks = split_tokens(s, cur);
        assert(toks == seq![cur]);
        assert(toks[0] == cur);
        assert(toks.drop_first() =~= Seq::<Seq<char>>::empty());
        match apply_token(entries, cur, keysym, mods) {
            Ok(st) => {
                assert(parse_tokens(entries, Seq::<Seq<char>>::empty(), st.0, st.1) == Ok::<
                    _,
                    SpecParseError,
                >(st));
                assert(parse_tokens(entries, toks, keysym, mods) == Ok::<_, SpecParseError>(st));
            },
            Err(e) => {
                assert(parse_tokens(entries, toks, keysym, mods) == Err::<
                    (Option<u32>, u32),
                    _,
                >(e));
            },
        }
    } else if s[0] == '-' {
        let toks = split_tokens(s, cur);
        let rest_toks = split_tokens(s.drop_first(), Seq::empty());
        assert(toks == seq![cur] + rest_toks);
        assert(toks[0] == cur);
        assert(toks.drop_first() =~= rest_toks);
        match apply_token(entries, cur, keysym, mods) {
            Ok(st) => {
                lemma_parse_from_tokens(entries, s.drop_first(), Seq::empty(), st.0, st.1);
                assert(parse_tokens(entries, toks, keysym, mods) == parse_tokens(
                    entries,
                    rest_toks,
                    st.0,
                    st.1,
                ));
            },
            Err(e) => {
                assert(parse_tokens(entries, toks, keysym, mods) == Err::<
                    (Option<u32>, u32),
                    _,
                >(e));
            },
        }
    } else {
        lemma_parse_from_tokens(entries, s.drop_first(), cur.push(s[0]), keysym, mods);
    }
}

/// An element is in a non-empty sequence exactly when it is its head or in
/// its tail.
proof fn lemma_contains_cons<A>(s: Seq<A>, x: A)
    requires
        s.len() > 0,
    ensures
        s.contains(x) <==> (s[0] == x || s.drop_first().contains(x)),
{
    if s.drop_first().contains(x) {
        let i = choose|i: int| 0 <= i < s.drop_first().len() && s.drop_first()[i] == x;
        assert(s[i + 1] == x);
    }
    if s.contains(x) {
        let i = choose|i: int| 0 <= i < s.len() && s[i] == x;
        if i > 0 {
            assert(s.drop_first()[i - 1] == x);
        }
    }
}

/// The keysym tokens of a list are exactly its non-modifier members.
proof fn lemma_keysym_tokens_contains(toks: Seq<Seq<char>>, x: Seq<char>)
    ensures
        keysym_tokens(toks).contains(x) <==> (toks.contains(x) && !is_modifier_token(x)),
    decreases toks.len(),
{
    if toks.len() == 0 {
        assert(!toks.contains(x));
    } else {
        let rest = toks.drop_first();
        lemma_keysym_tokens_contains(rest, x);
        lemma_contains_cons(toks, x);
        if !is_modifier_token(toks[0]) {
            let kt = keysym_tokens(toks);
            assert(kt == seq![toks[0]] + keysym_tokens(rest));
            assert(kt[0] == toks[0]);
            assert(kt.drop_first() =~= keysym_tokens(rest));
            lemma_contains_cons(kt, x);
        }
    }
}

/// What the token fold computes, when it succeeds: the keysym of the last
/// keysym token (or the inherited one when there is none), and the modifier
/// bits read off token membership alone -- each of the three recognized
/// modifier bits is set exactly when its token occurs anywhere, and all
/// other bits pass through unchanged.  Success itself holds exactly when
/// every token folds without error.
pub proof fn lemma_parse_tokens_characterization(
    entries: Seq<KeysymEntry>,
    toks: Seq<Seq<char>>,
    keysym: Option<u32>,
    mods: u32,
)
    ensures
        (parse_tokens(entries, toks, keysym, mods) is Ok) <==> (forall|i: int|
            0 <= i < toks.len() ==> token_ok(entries, #[trigger] toks[i])),
        (parse_tokens(entries, toks, keysym, mods) matches Ok(st) ==> {
            &&& st.0 == (if keysym_tokens(toks).len() > 0 {
                Some(resolved_keysym(entries, keysym_tokens(toks).last()))
            } else {
                keysym
            })
            &&& st.1 & MASK_SHIFT == (if mods & MASK_SHIFT != 0 || toks.contains(seq!['S']) {
                MASK_SHIFT
            } else {
                0u32
            })
            &&& st.1 & MASK_CONTROL == (if mods & MASK_CONTROL != 0 || toks.contains(seq!['C']) {
                MASK_CONTROL
            } else {
                0u32
            })
            &&& st.1 & MASK_MOD4 == (if mods & MASK_MOD4 != 0 || toks.contains(seq!['M']) {
                MASK_MOD4
            } else {
                0u32
            })
            &&& st.1 & !(MASK_SHIFT | MASK_CONTROL | MASK_MOD4) == mods & !(MASK_SHIFT
                | MASK_CONTROL | MASK_MOD4)
        }),
    decreases toks.len(),
{
    if toks.len() == 0 {
        assert(mods & MASK_SHIFT != 0 ==> mods & MASK_SHIFT == MASK_SHIFT) by (bit_vector);
        assert(mods & MASK_CONTROL != 0 ==> mods & MASK_CONTROL == MASK_CONTROL) by (bit_vector);
        assert(mods & MASK_MOD4 != 0 ==> mods & MASK_MOD4 == MASK_MOD4) by (bit_vector);
        assert(!toks.contains(seq!['S']));
        assert(!toks.contains(seq!['C']));
        assert(!toks.contains(seq!['M']));
    } else {
        let head = toks[0];
        let rest = toks.drop_first();
        assert(forall|i: int| 0 <= i < rest.len() ==> rest[i] == #[trigger] toks[i + 1]);
        lemma_contains_cons(toks, seq!['S']);
        lemma_contains_cons(toks, seq!['C']);
        lemma_contains_cons(toks, seq!['M']);
        match apply_token(entries, head, keysym, mods) {
            Ok(st0) => {
                assert(token_ok(entries, head));
                lemma_parse_tokens_characterization(entries, rest, st0.0, st0.1);
                if parse_tokens(entries, rest, st0.0, st0.1) is Ok {
                    assert forall|i: int| 0 <= i < toks.len() implies token_ok(
                        entries,
                        #[trigger] toks[i],
                    ) by {
                        if i > 0 {
                            assert(rest[i - 1] == toks[i]);
                            assert(token_ok(entries, rest[i - 1]));
                        }
                    }
                } else {
                    let w = choose|j: int|
                        0 <= j < rest.len() && !token_ok(entries, #[trigger] rest[j]);
                    assert(toks[w + 1] == rest[w]);
                    assert(!token_ok(entries, toks[w + 1]));
                }
                if is_modifier_token(head) {
                    let c = head[0];
                    assert(keysym_tokens(toks) == keysym_tokens(rest));
                    assert(head == seq![c]) by {
                        assert(head =~= seq![c]);
                    }
                    if c == 'S' {
                        assert(st0.1 == mods | MASK_SHIFT);
                        assert((mods | 0x1u32) & 0x1 != 0) by (bit_vector);
                        assert((mods | 0x1u32) & 0x4 == mods & 0x4) by (bit_vector);
                        assert((mods | 0x1u32) & 0x40 == mods & 0x40) by (bit_vector);
                        assert((mods | 0x1u32) & !(0x1u32 | 0x4 | 0x40) == mods & !(0x1u32 | 0x4
                            | 0x40)) by (bit_vector);
                        assert(seq!['S'] != seq!['C']) by {
                            assert(seq!['S'][0] != seq!['C'][0]);
                        }
                        assert(seq!['S'] != seq!['M']) by {
                            assert(seq!['S'][0] != seq!['M'][0]);
                        }
                    } else if c == 'C' {
                        assert(st0.1 == mods | MASK_CONTROL);
                        assert((mods | 0x4u32) & 0x4 != 0) by (bit_vector);
                        assert((mods | 0x4u32) & 0x1 == mods & 0x1) by (bit_vector);
                        assert((mods | 0x4u32) & 0x40 == mods & 0x40) by (bit_vector);
                        assert((mods | 0x4u32) & !(0x1u32 | 0x4 | 0x40) == mods & !(0x1u32 | 0x4
                            | 0x40)) by (bit_vector);
                        assert(seq!['C'] != seq!['S']) by {
                            assert(seq!['C'][0] != seq!['S'][0]);
                        }
                        assert(seq!['C'] != seq!['M']) by {
                            assert(seq!['C'][0] != seq!['M'][0]);
                        }
                    } else {
                        assert(c == 'M');
                        assert(st0.1 == mods | MASK_MOD4);
                        assert((mods | 0x40u32) & 0x40 != 0) by (bit_vector);
                        assert((mods | 0x40u32) & 0x1 == mods & 0x1) by (bit_vector);
                        assert((mods | 0x40u32) & 0x4 == mods & 0x4) by (bit_vector);
                        assert((mods | 0x40u32) & !(0x1u32 | 0x4 | 0x40) == mods & !(0x1u32 | 0x4
                            | 0x40)) by (bit_vector);
                        assert(seq!['M'] != seq!['S']) by {
                            assert(seq!['M'][0] != seq!['S'][0]);
                        }
                        assert(seq!['M'] != seq!['C']) by {
                            assert(seq!['M'][0] != seq!['C'][0]);
                        }
                    }
                } else {
                    assert(st0.0 == Some(resolved_keysym(entries, head)));
                    assert(st0.1 == mods);
                    let kt = keysym_tokens(toks);
                    assert(kt == seq![head] + keysym_tokens(rest));
                    if keysym_tokens(rest).len() > 0 {
                        assert(kt.last() == keysym_tokens(rest).last());
                    } else {
                        assert(kt =~= seq![head]);
                        assert(kt.last() == head);
                    }
                    assert(toks.contains(seq!['S']) <==> (head == seq!['S'] || rest.contains(
                        seq!['S'],
                    )));
                    assert(head != seq!['S']) by {
                        assert(is_modifier_token(seq!['S']));
                    }
                    assert(head != seq!['C']) by {
                        assert(is_modifier_token(seq!['C']));
                    }
                    assert(head != seq!['M']) by {
                        assert(is_modifier_token(seq!['M']));
                    }
                }
            },
            Err(e) => {
                assert(!token_ok(entries, toks[0]));
            },
        }
    }
}

/// Token order does not affect the parsed result.  Under one keysym table,
/// two token lists with the same keysym tokens in the same order and the
/// same modifier tokens present (wherever they stand, however often they
/// repeat) either both fail or both succeed, and on success they parse to
/// the same state.  Only *which* error is reported may depend on order,
/// since the first offending token decides.
pub proof fn lemma_modifier_order_irrelevant(
    entries: Seq<KeysymEntry>,
    t1: Seq<Seq<char>>,
    t2: Seq<Seq<char>>,
    keysym: Option<u32>,
    mods: u32,
)
    requires
        keysym_tokens(t1) == keysym_tokens(t2),
        forall|t: Seq<char>| #[trigger]
            is_modifier_token(t) ==> (t1.contains(t) <==> t2.contains(t)),
    ensures
        (parse_tokens(entries, t1, keysym, mods) is Ok) <==> (parse_tokens(
            entries,
            t2,
            keysym,
            mods,
        ) is Ok),
        parse_tokens(entries, t1, keysym, mods) is Ok ==> parse_tokens(entries, t1, keysym, mods)
            == parse_tokens(entries, t2, keysym, mods),
{
    lemma_parse_tokens_characterization(entries, t1, keysym, mods);
    lemma_parse_tokens_characterization(entries, t2, keysym, mods);
    assert forall|i: int|
        0 <= i < t1.len() && (forall|j: int|
            0 <= j < t2.len() ==> token_ok(entries, #[trigger] t2[j])) implies token_ok(
        entries,
        #[trigger] t1[i],
    ) by {
        lemma_tokens_ok_transfer(entries, t2, t1, i);
    }
    assert forall|i: int|
        0 <= i < t2.len() && (forall|j: int|
            0 <= j < t1.len() ==> token_ok(entries, #[trigger] t1[j])) implies token_ok(
        entries,
        #[trigger] t2[i],
    ) by {
        lemma_tokens_ok_transfer(entries, t1, t2, i);
    }
    if parse_tokens(entries, t1, keysym, mods) is Ok {
        let st1 = parse_tokens(entries, t1, keysym, mods)->Ok_0;
        let st2 = parse_tokens(entries, t2, keysym, mods)->Ok_0;
        assert(is_modifier_token(seq!['S']));
        assert(is_modifier_token(seq!['C']));
        assert(is_modifier_token(seq!['M']));
        assert(st1.0 == st2.0);
        let a = st1.1;
        let b = st2.1;
        assert(a & 0x1 == b & 0x1 && a & 0x4 == b & 0x4 && a & 0x40 == b & 0x40 && a & !(0x1u32
            | 0x4 | 0x40) == b & !(0x1u32 | 0x4 | 0x40) ==> a == b) by (bit_vector);
    }
}

/// A token of one list that also occurs in another list of tokens all of
/// which fold cleanly folds cleanly itself.
proof fn lemma_tokens_ok_transfer(
    entries: Seq<KeysymEntry>,
    good: Seq<Seq<char>>,
    other: Seq<Seq<char>>,
    i: int,
)
    requires
        keysym_tokens(good) == keysym_tokens(other),
        forall|t: Seq<char>| #[trigger]
            is_modifier_token(t) ==> (good.contains(t) <==> other.contains(t)),
        forall|j: int| 0 <= j < good.len() ==> token_ok(entries, #[trigger] good[j]),
        0 <= i < other.len(),
    ensures
        token_ok(entries, other[i]),
{
    let x = other[i];
    assert(other.contains(x));
    if is_modifier_token(x) {
        assert(good.contains(x));
        let j = choose|j: int| 0 <= j < good.len() && good[j] == x;
        assert(token_ok(entries, good[j]));
    } else {
        lemma_keysym_tokens_contains(other, x);
        assert(keysym_tokens(other).contains(x));
        lemma_keysym_tokens_contains(good, x);
        assert(good.contains(x));
        let j = choose|j: int| 0 <= j < good.len() && good[j] == x;
        assert(token_ok(entries, good[j]));
    }
}

/// Modifier order independence lifted to whole descriptions: under one
/// keysym table, two descriptions that split into token lists with the same
/// keysym tokens and the same modifier tokens present parse alike -- both
/// fail, or both succeed with the same key sequence.
pub proof fn lemma_parse_spec_modifier_order(
    entries: Seq<KeysymEntry>,
    s1: Seq<char>,
    s2: Seq<char>,
)
    requires
        spec_keysym_names(s1) == spec_keysym_names(s2),
        forall|t: Seq<char>| #[trigger]
            is_modifier_token(t) ==> (split_tokens(s1, Seq::empty()).contains(t) <==> split_tokens(
                s2,
                Seq::empty(),
            ).contains(t)),
    ensures
        (parse_spec(entries, s1) is Ok) <==> (parse_spec(entries, s2) is Ok),
        parse_spec(entries, s1) is Ok ==> parse_spec(entries, s1) == parse_spec(entries, s2),
{
    lemma_parse_from_tokens(entries, s1, Seq::empty(), None, 0);
    lemma_parse_from_tokens(entries, s2, Seq::empty(), None, 0);
    lemma_modifier_order_irrelevant(
        entries,
        split_tokens(s1, Seq::empty()),
        split_tokens(s2, Seq::empty()),
        None,
        0,
    );
}

/// Whether this token is a modifier code, in executable form.
fn is_modifier_token_exec(token: &str) -> (r: bool)
    ensures
        r == is_modifier_token(token@),
{
    if token.unicode_len() == 1 {
        let c = token.get_char(0);
        let cu = c as u32;
        65 <= cu && cu <= 90
    } else {
        false
    }
}

/// Fold one token, in executable form.
fn apply_token_exec(table: &KeysymTable, token: &str, keysym: Option<u32>, mods: u32) -> (r:
    Result<(Option<u32>, u32), ParseError>)
    ensures
        (match apply_token(table.entries@, token@, keysym, mods) {
            Ok(st) => r matches Ok(st2) && st2 == st,
            Err(e) => r matches Err(pe) && pe@ == e,
        }),
{
    if is_modifier_token_exec(token) {
        let c = token.get_char(0);
        return if c == 'S' {
            Ok((keysym, mods | MASK_SHIFT))
        } else if c == 'C' {
            Ok((keysym, mods | MASK_CONTROL))
        } else if c == 'M' {
            Ok((keysym, mods | MASK_MOD4))
        } else {
            Err(ParseError::UnknownModifier(c))
        };
    }
    match table.lookup(token) {
        Some(sym) => {
            if sym == KEYSYM_NONE {
                Err(ParseError::UnresolvedKeysym(token.to_owned()))
            } else {
                Ok((Some(sym), mods))
            }
        },
        None => Err(ParseError::UnresolvedKeysym(token.to_owned())),
    }
}

/// The keysym names a description will look up, in token order: every
/// dash-separated token that is not a modifier code.  The caller resolves
/// each through the XKB keysym-name table and records the answers in a
/// `KeysymTable` before parsing.
pub fn keysym_names(value: &str) -> (r: Vec<String>)
    ensures
        r@.len() == spec_keysym_names(value@).len(),
        forall|i: int|
            0 <= i < r@.len() ==> (#[trigger] r@[i])@ == spec_keysym_names(value@)[i],
{
    let n = value.unicode_len();
    let mut names: Vec<String> = Vec::new();
    let mut start: usize = 0;
    let mut i: usize = 0;
    let ghost full = spec_keysym_names(value@);
    let ghost view_of = |s: String| s@;
    proof {
        assert(value@.skip(0) =~= value@);
        assert(value@.subrange(0, 0) =~= Seq::<char>::empty());
    }
    while i < n
        invariant
            start <= i <= n,
            n == value@.len(),
            full == spec_keysym_names(value@),
            view_of == (|s: String| s@),
            full =~= names@.map_values(view_of) + keysym_tokens(
                split_tokens(value@.skip(i as int), value@.subrange(start as int, i as int)),
            ),
        decreases n - i,
    {
        if value.get_char(i) == '-' {
            let token = value.substring_char(start, i);
            let ghost cur = value@.subrange(start as int, i as int);
            let ghost rest = split_tokens(value@.skip(i + 1 as int), Seq::empty());
            proof {
                let tail = value@.skip(i as int);
                assert(tail[0] == '-');
                assert(tail.drop_first() =~= value@.skip(i + 1 as int));
                assert(Seq::<char>::empty() =~= value@.subrange(i + 1 as int, i + 1 as int));
                let toks = split_tokens(tail, cur);
                assert(toks == seq![cur] + rest);
                assert(toks[0] == cur);
                assert(toks.drop_first() =~= rest);
                if is_modifier_token(cur) {
                    assert(keysym_tokens(toks) == keysym_tokens(rest));
                } else {
                    assert(keysym_tokens(toks) == seq![cur] + keysym_tokens(rest));
                }
            }
            if !is_modifier_token_exec(token) {
                let ghost names_before = names@;
                names.push(token.to_owned());
                proof {
                    assert(token@ == cur);
                    assert(names@.len() == names_before.len() + 1);
                    assert(names@[names_before.len() as int]@ == cur);
                    assert(names@.map_values(view_of) =~= names_before.map_values(view_of).push(
                        cur,
                    )) by {
                        assert forall|k: int| 0 <= k < names@.len() implies names@.map_values(
                            view_of,
                        )[k] == names_before.map_values(view_of).push(cur)[k] by {
                            assert(names@.map_values(view_of)[k] == view_of(names@[k]));
                            if k < names_before.len() {
                                assert(names@[k] == names_before[k]);
                                assert(names_before.map_values(view_of)[k] == view_of(
                                    names_before[k],
                                ));
                            }
                        }
                    }
                    assert(names_before.map_values(view_of) + (seq![cur] + keysym_tokens(rest))
                        =~= names@.map_values(view_of) + keysym_tokens(rest));
                }
            }
            start = i + 1;
        } else {
            proof {
                assert(value@.skip(i as int)[0] != '-');
                assert(value@.skip(i as int).drop_first() =~= value@.skip(i + 1 as int));
                assert(value@.subrange(start as int, i as int).push(value@[i as int])
                    =~= value@.subrange(start as int, i + 1 as int));
            }
        }
        i += 1;
    }
    let token = value.substring_char(start, n);
    let ghost cur = value@.subrange(start as int, n as int);
    proof {
        assert(value@.skip(n as int) =~= Seq::<char>::empty());
        let toks = split_tokens(Seq::<char>::empty(), cur);
        assert(toks == seq![cur]);
        assert(toks[0] == cur);
        assert(toks.drop_first() =~= Seq::<Seq<char>>::empty());
        assert(keysym_tokens(Seq::<Seq<char>>::empty()) == Seq::<Seq<char>>::empty());
        if is_modifier_token(cur) {
            assert(keysym_tokens(toks) =~= Seq::<Seq<char>>::empty());
        } else {
            assert(keysym_tokens(toks) =~= seq![cur]);
        }
    }
    if !is_modifier_token_exec(token) {
        let ghost names_before = names@;
        names.push(token.to_owned());
        proof {
            assert(token@ == cur);
            assert(names@.len() == names_before.len() + 1);
            assert(names@[names_before.len() as int]@ == cur);
            assert(names@.map_values(view_of) =~= names_before.map_values(view_of).push(cur)) by {
                assert forall|k: int| 0 <= k < names@.len() implies names@.map_values(view_of)[k]
                    == names_before.map_values(view_of).push(cur)[k] by {
                    assert(names@.map_values(view_of)[k] == view_of(names@[k]));
                    if k < names_before.len() {
                        assert(names@[k] == names_before[k]);
                        assert(names_before.map_values(view_of)[k] == view_of(names_before[k]));
                    }
                }
            }
            assert(full =~= names@.map_values(view_of));
        }
    } else {
        proof {
            assert(full =~= names@.map_values(view_of));
        }
    }
    proof {
        assert forall|k: int| 0 <= k < names@.len() implies (#[trigger] names@[k])@ == full[k] by {
            assert(names@.map_values(view_of)[k] == view_of(names@[k]));
        }
    }
    names
}

impl KeySequence {
    /// Build a key sequence directly from a keysym and modifier bits.
    pub fn new(keysym: u32, modifiers: u32) -> (r: KeySequence)
        ensures
            r == (KeySequence { keysym, modifiers }),
    {
        KeySequence { keysym, modifiers }
    }

    /// The symbolic key identity.
    pub fn keysym(&self) -> (r: u32)
        ensures
            r == self.keysym,
    {
        self.keysym
    }

    /// The declared modifier bits.
    pub fn modifiers(&self) -> (r: u32)
        ensures
            r == self.modifiers,
    {
        self.modifiers
    }

    /// Parse a dash-separated binding description into a key sequence, or
    /// report the first offending token.  The table must hold what the
    /// description's keysym names resolved to (see `keysym_names`); a name
    /// it does not hold is unresolvable.
    pub fn try_from(value: &str, table: &KeysymTable) -> (r: Result<KeySequence, ParseError>)
        ensures
            (match parse_spec(table.entries@, value@) {
                Ok(ks) => r matches Ok(k) && k == ks,
                Err(e) => r matches Err(pe) && pe@ == e,
            }),
    {
        let n = value.unicode_len();
        let mut start: usize = 0;
        let mut i: usize = 0;
        let mut keysym: Option<u32> = None;
        let mut mods: u32 = 0;
        proof {
            assert(value@.skip(0) =~= value@);
            assert(value@.subrange(0, 0) =~= Seq::<char>::empty());
        }
        while i < n
            invariant
                start <= i <= n,
                n == value@.len(),
                parse_spec(table.entries@, value@) == parse_from(
                    table.entries@,
                    value@.skip(i as int),
                    value@.subrange(start as int, i as int),
                    keysym,
                    mods,
                ),
            decreases n - i,
        {
            if value.get_char(i) == '-' {
                let token = value.substring_char(start, i);
                proof {
                    assert(value@.skip(i as int)[0] == '-');
                    assert(value@.skip(i as int).drop_first() =~= value@.skip(i + 1 as int));
                    assert(Seq::<char>::empty() =~= value@.subrange(i + 1 as int, i + 1 as int));
                }
                match apply_token_exec(table, token, keysym, mods) {
                    Ok(st) => {
                        keysym = st.0;
                        mods = st.1;
                    },
                    Err(pe) => {
                        return Err(pe);
                    },
                }
                start = i + 1;
            } else {
                proof {
                    assert(value@.skip(i as int)[0] != '-');
                    assert(value@.skip(i as int).drop_first() =~= value@.skip(i + 1 as int));
                    assert(value@.subrange(start as int, i as int).push(value@[i as int])
                        =~= value@.subrange(start as int, i + 1 as int));
                }
            }
            i += 1;
        }
        proof {
            assert(value@.skip(n as int) =~= Seq::<char>::empty());
        }
        let token = value.substring_char(start, n);
        match apply_token_exec(table, token, keysym, mods) {
            Ok(st) => {
                match st.0 {
                    Some(k) => Ok(KeySequence { keysym: k, modifiers: st.1 }),
                    None => Err(ParseError::MissingKeysym),
                }
            },
            Err(pe) => Err(pe),
        }
    }
}

} // verus!
