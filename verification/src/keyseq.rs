//! From a layout to the key presses of each character.
//!
//! A character that stands on a key is typed with that key. A character
//! that a dead key produces is typed with the presses of the dead key and
//! then the key of the symbol that triggers it. Dead keys may chain. Where
//! a character can be typed in several ways the shortest way is kept, then
//! the one with the fewest modifiers, then the one that uses the thumb
//! most; of two ways that are equally good the one found first stays.

use crate::assoc::{distinct_keys, has_key, is_first_index, lemma_first_index, CharMap};
use crate::geometry::Row;
use crate::hands::Finger;
use crate::kalamine::{DeadKey, Layout, Mod, ModMapping, PhysicalKey, Symbol};
use crate::resolution::laws::lemma_resolve_distinct;
use crate::resolution::ties::{
    base_ties, equally_good, expansion_ties, layer_ties, lemma_key_ties, lemma_press_ties_concat,
    lemma_ties_end_once, pair_tie, press_ties, slot_tie, step_ties, steps_ties,
};
use crate::resolution::{
    all_nonempty, base_pass, expand_layer, expand_pair, expand_step, expand_steps, expansion_end,
    initial_resolution, key_presses, layer_names, layers_view, lemma_base_pass_nonempty,
    lemma_expand_step_advances, lemma_expansion_ends_once, lemma_get_nonempty,
    lemma_register_concat, lemma_register_key, lemma_register_slot, merge_base, presses,
    register_all, register_slot, resolve, slot_presses, tally, universe, BaseTables, KeySeqs,
    Resolution,
};
use vstd::prelude::*;

verus! {

/// One key press: the symbol it gives, the key, and the modifier level.
#[derive(Debug, PartialEq, Eq, Hash, Clone, Copy, Structural)]
pub struct KeySymbol {
    pub name: char,
    pub key: PhysicalKey,
    pub dead_key: bool,
    pub modifier: Mod,
}

impl View for KeySymbol {
    type V = KeySymbol;

    open spec fn view(&self) -> KeySymbol {
        *self
    }
}

/// The key presses of every character that a layout can produce.
pub type KeySeqMap = CharMap<Vec<KeySymbol>>;

impl KeySymbol {
    pub open spec fn spec_new(symbol: Symbol, key: PhysicalKey, modifier: Mod) -> KeySymbol {
        KeySymbol { name: symbol.spec_name(), key, dead_key: symbol is DeadKey, modifier }
    }

    /// The press of `key` on the level `modifier` that gives `symbol`.
    #[verifier::when_used_as_spec(spec_new)]
    pub fn new(symbol: Symbol, key: PhysicalKey, modifier: Mod) -> (ks: KeySymbol)
        ensures
            ks == Self::spec_new(symbol, key, modifier),
    {
        KeySymbol {
            name: match symbol {
                Symbol::Character(c) => c,
                Symbol::DeadKey(c) => c,
            },
            key,
            dead_key: match symbol {
                Symbol::Character(_) => false,
                Symbol::DeadKey(_) => true,
            },
            modifier,
        }
    }

    pub open spec fn spec_symbol(&self) -> Symbol {
        if self.dead_key {
            Symbol::DeadKey(self.name)
        } else {
            Symbol::Character(self.name)
        }
    }

    /// The symbol that the press gives.
    #[verifier::when_used_as_spec(spec_symbol)]
    pub fn symbol(&self) -> (s: Symbol)
        ensures
            s == self.spec_symbol(),
    {
        match self.dead_key {
            false => Symbol::Character(self.name),
            true => Symbol::DeadKey(self.name),
        }
    }
}

/// A press and the symbol it gives determine each other.
pub proof fn lemma_keysymbol_symbol(symbol: Symbol, key: PhysicalKey, modifier: Mod, ks: KeySymbol)
    ensures
        KeySymbol::spec_new(symbol, key, modifier).spec_symbol() == symbol,
        KeySymbol::spec_new(ks.spec_symbol(), ks.key, ks.modifier) == ks,
{
}

/// The modifier keys held over a sequence of presses, counted press by
/// press.
pub open spec fn spec_count_mods(sequence: Seq<KeySymbol>) -> nat
    decreases sequence.len(),
{
    if sequence.len() == 0 {
        0
    } else {
        spec_count_mods(sequence.drop_last()) + sequence.last().modifier.spec_mod_count() as nat
    }
}

/// The presses of a sequence that the thumb makes.
pub open spec fn spec_count_thumbs(sequence: Seq<KeySymbol>) -> nat
    decreases sequence.len(),
{
    if sequence.len() == 0 {
        0
    } else {
        spec_count_thumbs(sequence.drop_last()) + if sequence.last().key.spec_finger() == Finger::Thumb {
            1nat
        } else {
            0nat
        }
    }
}

/// The rows between a key and the home row.
pub open spec fn spec_home_distance(key: PhysicalKey) -> u32 {
    Row::spec_distance(Row::Middle, key.spec_row())
}

/// Whether a press is to replace the press kept so far for the same
/// character: it is, where nothing is kept; else where its level is lower;
/// else, on the same level, where its key is nearer to the home row.
pub open spec fn spec_is_better_keysym(keysym: KeySymbol, old_keysym: Option<KeySymbol>) -> bool {
    match old_keysym {
        None => true,
        Some(old) => {
            if keysym.modifier != old.modifier {
                keysym.modifier.spec_level() < old.modifier.spec_level()
            } else {
                spec_home_distance(keysym.key) < spec_home_distance(old.key)
            }
        },
    }
}

/// Whether a sequence is to replace the sequence kept so far for the same
/// symbol: it is, where nothing is kept; else where it is shorter; else, at
/// the same length, where it holds fewer modifiers; else, with as many
/// modifiers, where the thumb makes more of its presses.
pub open spec fn spec_is_better_keyseq(ks: Seq<KeySymbol>, old_ks: Option<Seq<KeySymbol>>) -> bool {
    match old_ks {
        None => true,
        Some(old) => {
            if ks.len() == old.len() {
                if spec_count_mods(ks) != spec_count_mods(old) {
                    spec_count_mods(ks) < spec_count_mods(old)
                } else {
                    spec_count_thumbs(ks) > spec_count_thumbs(old)
                }
            } else {
                ks.len() < old.len()
            }
        },
    }
}

/// Counts the modifier keys held over a sequence of presses.
pub fn count_mods(sequence: &Vec<KeySymbol>) -> (n: u128)
    ensures
        n == spec_count_mods(sequence@),
        n <= 2 * sequence@.len(),
{
    let mut n: u128 = 0;
    let mut i: usize = 0;
    while i < sequence.len()
        invariant
            i <= sequence@.len(),
            n == spec_count_mods(sequence@.take(i as int)),
            n <= 2 * i,
        decreases sequence@.len() - i,
    {
        assert(sequence@.take(i + 1).drop_last() =~= sequence@.take(i as int));
        n = n + sequence[i].modifier.mod_count() as u128;
        i += 1;
    }
    assert(sequence@.take(i as int) =~= sequence@);
    n
}

/// Counts the presses of a sequence that the thumb makes.
pub fn count_thumbs(sequence: &Vec<KeySymbol>) -> (n: usize)
    ensures
        n == spec_count_thumbs(sequence@),
{
    let mut n: usize = 0;
    let mut i: usize = 0;
    while i < sequence.len()
        invariant
            i <= sequence@.len(),
            n == spec_count_thumbs(sequence@.take(i as int)),
            n <= i,
        decreases sequence@.len() - i,
    {
        assert(sequence@.take(i + 1).drop_last() =~= sequence@.take(i as int));
        if sequence[i].key.finger() == Finger::Thumb {
            n += 1;
        }
        i += 1;
    }
    assert(sequence@.take(i as int) =~= sequence@);
    n
}

/// The thumb makes at most every press of a sequence, and each press holds
/// at most two modifiers.
pub proof fn lemma_count_bounds(sequence: Seq<KeySymbol>)
    ensures
        spec_count_thumbs(sequence) <= sequence.len(),
        spec_count_mods(sequence) <= 2 * sequence.len(),
    decreases sequence.len(),
{
    if sequence.len() > 0 {
        lemma_count_bounds(sequence.drop_last());
    }
}

/// Whether a press is to replace the press kept so far for the same
/// character.
pub fn is_bettery_keysym(keysym: &KeySymbol, old_keysym: Option<&KeySymbol>) -> (b: bool)
    ensures
        b == spec_is_better_keysym(
            *keysym,
            match old_keysym {
                Some(o) => Some(*o),
                None => None,
            },
        ),
{
    match old_keysym {
        None => true,
        Some(old_keysym) => {
            if keysym.modifier != old_keysym.modifier {
                keysym.modifier.level() < old_keysym.modifier.level()
            } else {
                let dfh: u32 = Row::distance(Row::Middle, keysym.key.row());
                let old_dfh: u32 = Row::distance(Row::Middle, old_keysym.key.row());
                dfh < old_dfh
            }
        },
    }
}

/// Whether a sequence is to replace the sequence kept so far for the same
/// symbol.
pub fn is_better_keyseq(ks: &Vec<KeySymbol>, old_ks: Option<&Vec<KeySymbol>>) -> (b: bool)
    ensures
        b == spec_is_better_keyseq(
            ks@,
            match old_ks {
                Some(o) => Some(o@),
                None => None,
            },
        ),
{
    match old_ks {
        None => true,
        Some(old_ks) => {
            if ks.len() == old_ks.len() {
                let mod_count: u128 = count_mods(ks);
                let old_mod_count: u128 = count_mods(old_ks);
                if mod_count != old_mod_count {
                    mod_count < old_mod_count
                } else {
                    let thumb_count: usize = count_thumbs(ks);
                    let old_thumb_count: usize = count_thumbs(old_ks);
                    thumb_count > old_thumb_count
                }
            } else {
                ks.len() < old_ks.len()
            }
        },
    }
}

/// Takes one slot of a key into the tables of the base pass, and records
/// the tie where its press is as good as the press kept.
fn register_keysym(
    base: &mut CharMap<KeySymbol>,
    dead: &mut KeySeqMap,
    ties: &mut Vec<char>,
    key: PhysicalKey,
    slot: (Mod, Option<Symbol>),
)
    ensures
        (BaseTables { base: final(base)@, dead: final(dead)@ }) == register_slot(
            BaseTables { base: old(base)@, dead: old(dead)@ },
            key,
            slot,
        ),
        final(ties)@ == old(ties)@ + slot_tie(
            BaseTables { base: old(base)@, dead: old(dead)@ },
            key,
            slot,
        ),
{
    assert(ties@ =~= ties@ + Seq::<char>::empty());
    if let Some(symbol) = slot.1 {
        let keysym = KeySymbol::new(symbol, key, slot.0);
        match symbol {
            Symbol::Character(c) => {
                if is_bettery_keysym(&keysym, base.get(c)) {
                    base.insert(c, keysym);
                } else if let Some(kept) = base.get(c) {
                    if *kept != keysym && !is_bettery_keysym(kept, Some(&keysym)) {
                        ties.push(c);
                        assert(ties@ =~= old(ties)@ + seq![c]);
                    }
                }
            },
            Symbol::DeadKey(c) => {
                let mut sequence: Vec<KeySymbol> = Vec::new();
                sequence.push(keysym);
                assert(sequence@ =~= seq![keysym]);
                dead.insert(c, sequence);
            },
        }
    }
}

/// Takes the four slots of a key into the tables of the base pass, in
/// their order.
fn register_key(
    base: &mut CharMap<KeySymbol>,
    dead: &mut KeySeqMap,
    ties: &mut Vec<char>,
    key: PhysicalKey,
    mapping: &ModMapping,
)
    ensures
        (BaseTables { base: final(base)@, dead: final(dead)@ }) == register_all(
            BaseTables { base: old(base)@, dead: old(dead)@ },
            key_presses(key, *mapping),
        ),
        final(ties)@ == old(ties)@ + press_ties(
            BaseTables { base: old(base)@, dead: old(dead)@ },
            key_presses(key, *mapping),
        ),
{
    let ghost before = BaseTables { base: base@, dead: dead@ };
    let ghost after_base = register_all(before, slot_presses(key, mapping.map[0]));
    let ghost after_shift = register_all(after_base, slot_presses(key, mapping.map[1]));
    let ghost after_altgr = register_all(after_shift, slot_presses(key, mapping.map[2]));
    proof {
        lemma_register_key(before, key, *mapping);
        lemma_register_slot(before, key, mapping.map[0]);
        lemma_register_slot(after_base, key, mapping.map[1]);
        lemma_register_slot(after_shift, key, mapping.map[2]);
        lemma_key_ties(before, key, *mapping);
    }
    register_keysym(base, dead, ties, key, mapping.map[0]);
    let ghost met_base = ties@;
    register_keysym(base, dead, ties, key, mapping.map[1]);
    let ghost met_shift = ties@;
    register_keysym(base, dead, ties, key, mapping.map[2]);
    let ghost met_altgr = ties@;
    register_keysym(base, dead, ties, key, mapping.map[3]);
    assert(ties@ =~= old(ties)@ + (slot_tie(before, key, mapping.map[0]) + slot_tie(
        after_base,
        key,
        mapping.map[1],
    ) + slot_tie(after_shift, key, mapping.map[2]) + slot_tie(after_altgr, key, mapping.map[3])));
}

/// The place of the layer of the dead key `name`.
pub fn find_layer(layout_deadkeys: &Vec<(DeadKey, Vec<(Symbol, Symbol)>)>, name: char) -> (res: Option<usize>)
    ensures
        match res {
            Some(i) => is_first_index(layers_view(layout_deadkeys@), DeadKey { name }, i as int),
            None => !has_key(layers_view(layout_deadkeys@), DeadKey { name }),
        },
{
    let mut i: usize = 0;
    while i < layout_deadkeys.len()
        invariant
            i <= layout_deadkeys@.len(),
            forall|j: int|
                0 <= j < i ==> (#[trigger] layers_view(layout_deadkeys@)[j]).0 != (DeadKey { name }),
        decreases layout_deadkeys@.len() - i,
    {
        if layout_deadkeys[i].0.name == name {
            return Some(i);
        }
        i += 1;
    }
    None
}

/// Whether a dead key waits on the worklist.
fn is_queued(worklist: &Vec<char>, name: char) -> (b: bool)
    ensures
        b == worklist@.contains(name),
{
    let mut i: usize = 0;
    while i < worklist.len()
        invariant
            i <= worklist@.len(),
            forall|j: int| 0 <= j < i ==> worklist@[j] != name,
        decreases worklist@.len() - i,
    {
        if worklist[i] == name {
            return true;
        }
        i += 1;
    }
    false
}

/// A copy of a sequence of presses.
fn copy_keyseq(sequence: &Vec<KeySymbol>) -> (copy: Vec<KeySymbol>)
    ensures
        copy@ == sequence@,
{
    let mut copy: Vec<KeySymbol> = Vec::new();
    let mut i: usize = 0;
    while i < sequence.len()
        invariant
            i <= sequence@.len(),
            copy@ == sequence@.take(i as int),
        decreases sequence@.len() - i,
    {
        copy.push(sequence[i]);
        assert(copy@ =~= sequence@.take(i + 1));
        i += 1;
    }
    assert(sequence@.take(i as int) =~= sequence@);
    copy
}

/// Whether a sequence is as good as the sequence kept, and not better.
fn ties_with(candidate: &Vec<KeySymbol>, kept: Option<&Vec<KeySymbol>>) -> (b: bool)
    requires
        !spec_is_better_keyseq(
            candidate@,
            match kept {
                Some(sequence) => Some(sequence@),
                None => None,
            },
        ),
    ensures
        b == match kept {
            Some(sequence) => equally_good(candidate@, sequence@),
            None => false,
        },
{
    match kept {
        Some(sequence) => !same_keyseq(candidate, sequence) && !is_better_keyseq(
            sequence,
            Some(candidate),
        ),
        None => false,
    }
}

/// Whether two sequences are the same presses.
fn same_keyseq(a: &Vec<KeySymbol>, b: &Vec<KeySymbol>) -> (same: bool)
    ensures
        same == (a@ == b@),
{
    if a.len() != b.len() {
        return false;
    }
    let mut i: usize = 0;
    while i < a.len()
        invariant
            i <= a@.len(),
            a@.len() == b@.len(),
            forall|j: int| 0 <= j < i ==> a@[j] == b@[j],
        decreases a@.len() - i,
    {
        if a[i] != b[i] {
            assert(a@[i as int] != b@[i as int]);
            return false;
        }
        i += 1;
    }
    assert(a@ =~= b@);
    true
}

/// Expands one pair of the layer of the dead key `name`, and records the
/// tie where its sequence is as good as the sequence kept.
fn expand_one(
    base: &CharMap<KeySymbol>,
    name: char,
    prefix: &Vec<KeySymbol>,
    pair: (Symbol, Symbol),
    worklist: &mut Vec<char>,
    dead: &mut KeySeqMap,
    chars: &mut KeySeqMap,
    ties: &mut Vec<Symbol>,
)
    requires
        prefix@.len() > 0,
    ensures
        (Resolution { worklist: final(worklist)@, dead: final(dead)@, chars: final(chars)@ })
            == expand_pair(
            base@,
            name,
            prefix@,
            Resolution { worklist: old(worklist)@, dead: old(dead)@, chars: old(chars)@ },
            pair,
        ),
        final(ties)@ == old(ties)@ + pair_tie(
            base@,
            name,
            prefix@,
            Resolution { worklist: old(worklist)@, dead: old(dead)@, chars: old(chars)@ },
            pair,
        ),
{
    assert(ties@ =~= ties@ + Seq::<Symbol>::empty());
    let trigger_keysym: KeySymbol = match pair.0 {
        Symbol::Character(c) => match base.get(c) {
            Some(ks) => *ks,
            None => {
                return ;
            },
        },
        Symbol::DeadKey(c) => {
            if c == name {
                prefix[prefix.len() - 1]
            } else {
                return ;
            }
        },
    };
    let mut keyseq = copy_keyseq(prefix);
    match pair.1 {
        Symbol::Character(c) => {
            keyseq.push(trigger_keysym);
            if is_better_keyseq(&keyseq, chars.get(c)) {
                chars.insert(c, keyseq);
            } else if ties_with(&keyseq, chars.get(c)) {
                ties.push(pair.1);
                assert(ties@ =~= old(ties)@ + seq![pair.1]);
            }
        },
        Symbol::DeadKey(c) => {
            keyseq.push(KeySymbol::new(pair.1, trigger_keysym.key, trigger_keysym.modifier));
            if is_better_keyseq(&keyseq, dead.get(c)) {
                dead.insert(c, keyseq);
                if !is_queued(worklist, c) {
                    worklist.push(c);
                }
            } else if ties_with(&keyseq, dead.get(c)) {
                ties.push(pair.1);
                assert(ties@ =~= old(ties)@ + seq![pair.1]);
            }
        },
    }
}

/// Expands the layer of the dead key `name`, pair by pair.
fn expand_all(
    base: &CharMap<KeySymbol>,
    name: char,
    prefix: &Vec<KeySymbol>,
    layer: &Vec<(Symbol, Symbol)>,
    worklist: &mut Vec<char>,
    dead: &mut KeySeqMap,
    chars: &mut KeySeqMap,
    ties: &mut Vec<Symbol>,
)
    requires
        prefix@.len() > 0,
    ensures
        (Resolution { worklist: final(worklist)@, dead: final(dead)@, chars: final(chars)@ })
            == expand_layer(
            base@,
            name,
            prefix@,
            Resolution { worklist: old(worklist)@, dead: old(dead)@, chars: old(chars)@ },
            layer@,
        ),
        final(ties)@ == old(ties)@ + layer_ties(
            base@,
            name,
            prefix@,
            Resolution { worklist: old(worklist)@, dead: old(dead)@, chars: old(chars)@ },
            layer@,
        ),
{
    let ghost start = Resolution { worklist: worklist@, dead: dead@, chars: chars@ };
    let mut j: usize = 0;
    assert(ties@ =~= ties@ + Seq::<Symbol>::empty());
    while j < layer.len()
        invariant
            j <= layer@.len(),
            prefix@.len() > 0,
            (Resolution { worklist: worklist@, dead: dead@, chars: chars@ }) == expand_layer(
                base@,
                name,
                prefix@,
                start,
                layer@.take(j as int),
            ),
            ties@ == old(ties)@ + layer_ties(base@, name, prefix@, start, layer@.take(j as int)),
        decreases layer@.len() - j,
    {
        assert(layer@.take(j + 1).drop_last() =~= layer@.take(j as int));
        let ghost met = layer_ties(base@, name, prefix@, start, layer@.take(j as int));
        let ghost before = Resolution { worklist: worklist@, dead: dead@, chars: chars@ };
        expand_one(base, name, prefix, layer[j], worklist, dead, chars, ties);
        assert(ties@ =~= old(ties)@ + (met + pair_tie(base@, name, prefix@, before, layer@[j as int])));
        j += 1;
    }
    assert(layer@.take(j as int) =~= layer@);
}

/// The tables of a layout when expansion has ended.
pub struct Resolved {
    /// The press kept for each character that stands on a key.
    pub base: CharMap<KeySymbol>,
    /// The sequence of each dead key that can be reached.
    pub dead: KeySeqMap,
    /// The sequence of each character that a dead key gives.
    pub chars: KeySeqMap,
    /// The characters for which a press as good as the press kept was
    /// passed over.
    pub tied_presses: Vec<char>,
    /// The symbols for which a sequence as good as the sequence kept was
    /// passed over.
    pub tied_sequences: Vec<Symbol>,
}

/// The tables of a layout when expansion has ended, with the ties met on
/// the way.
pub fn resolve_dead_keys(
    layout_keymap: &Vec<(PhysicalKey, ModMapping)>,
    layout_deadkeys: &Vec<(DeadKey, Vec<(Symbol, Symbol)>)>,
) -> (tables: Resolved)
    ensures
        tables.base@ == base_pass(layout_keymap@).base,
        tables.dead@ == expansion_end(layout_keymap@, layers_view(layout_deadkeys@)).dead,
        tables.chars@ == expansion_end(layout_keymap@, layers_view(layout_deadkeys@)).chars,
        tables.tied_presses@ == base_ties(layout_keymap@),
        tables.tied_sequences@ == expansion_ties(layout_keymap@, layers_view(layout_deadkeys@)),
{
    let ghost empty = BaseTables { base: Seq::empty(), dead: Seq::empty() };
    let mut base: CharMap<KeySymbol> = CharMap::new();
    let mut dead: KeySeqMap = CharMap::new();
    let mut tied_presses: Vec<char> = Vec::new();

    // One key characters
    let mut i: usize = 0;
    while i < layout_keymap.len()
        invariant
            i <= layout_keymap@.len(),
            empty == (BaseTables { base: Seq::empty(), dead: Seq::empty() }),
            (BaseTables { base: base@, dead: dead@ }) == base_pass(layout_keymap@.take(i as int)),
            tied_presses@ == base_ties(layout_keymap@.take(i as int)),
        decreases layout_keymap@.len() - i,
    {
        assert(layout_keymap@.take(i + 1).drop_last() =~= layout_keymap@.take(i as int));
        let key = layout_keymap[i].0;
        let mapping = layout_keymap[i].1;
        register_key(&mut base, &mut dead, &mut tied_presses, key, &mapping);
        proof {
            let offered = presses(layout_keymap@.take(i as int));
            lemma_register_concat(empty, offered, key_presses(key, mapping));
            lemma_press_ties_concat(empty, offered, key_presses(key, mapping));
        }
        i += 1;
    }
    assert(layout_keymap@.take(i as int) =~= layout_keymap@);

    // Dead keys layers
    let ghost layers = layers_view(layout_deadkeys@);
    let ghost tables = base_pass(layout_keymap@);
    let ghost start = initial_resolution(tables, layers);
    let ghost ids = universe(layers);
    let mut worklist: Vec<char> = Vec::new();
    let mut k: usize = 0;
    while k < layout_deadkeys.len()
        invariant
            k <= layout_deadkeys@.len(),
            layers == layers_view(layout_deadkeys@),
            worklist@ == layer_names(layers).take(k as int),
        decreases layout_deadkeys@.len() - k,
    {
        worklist.push(layout_deadkeys[k].0.name);
        assert(worklist@ =~= layer_names(layers).take(k + 1));
        k += 1;
    }
    assert(layer_names(layers).take(k as int) =~= layer_names(layers));
    let mut chars: KeySeqMap = CharMap::new();
    let mut tied_sequences: Vec<Symbol> = Vec::new();
    let ghost mut steps: nat = 0;
    proof {
        lemma_base_pass_nonempty(layout_keymap@);
    }
    while worklist.len() > 0
        invariant
            layers == layers_view(layout_deadkeys@),
            ids == universe(layers),
            base@ == tables.base,
            all_nonempty(dead@),
            (Resolution { worklist: worklist@, dead: dead@, chars: chars@ }) == expand_steps(
                tables.base,
                layers,
                start,
                steps,
            ),
            tied_sequences@ == steps_ties(tables.base, layers, start, steps),
        decreases
                tally(ids, dead@, 0),
                tally(ids, dead@, 1),
                tally(ids, dead@, 2),
                tally(ids, dead@, 3),
                worklist@.len(),
    {
        let ghost before = Resolution { worklist: worklist@, dead: dead@, chars: chars@ };
        let ghost met = tied_sequences@;
        proof {
            lemma_expand_step_advances(tables.base, layers, before);
        }
        let name = worklist.pop().unwrap();
        let found = find_layer(layout_deadkeys, name);
        proof {
            match found {
                Some(at) => {
                    lemma_first_index(layers, DeadKey { name }, at as int);
                },
                None => {},
            }
            lemma_get_nonempty(dead@, name);
        }
        if let Some(at) = found {
            let known = match dead.get(name) {
                Some(sequence) => Some(copy_keyseq(sequence)),
                None => None,
            };
            if let Some(prefix) = known {
                expand_all(
                    &base,
                    name,
                    &prefix,
                    &layout_deadkeys[at].1,
                    &mut worklist,
                    &mut dead,
                    &mut chars,
                    &mut tied_sequences,
                );
            }
        }
        proof {
            steps = steps + 1;
            assert((Resolution { worklist: worklist@, dead: dead@, chars: chars@ }) == expand_step(
                tables.base,
                layers,
                before,
            ));
            assert(tied_sequences@ =~= met + step_ties(tables.base, layers, before));
        }
    }

    proof {
        let n = choose|n: nat| expand_steps(tables.base, layers, start, n).worklist.len() == 0;
        lemma_expansion_ends_once(tables.base, layers, start, steps, n);
        lemma_ties_end_once(tables.base, layers, start, steps, n);
    }
    Resolved { base, dead, chars, tied_presses, tied_sequences }
}

/// The key presses of every character that the layout can produce.
///
/// The keys of `layout_keymap` and the pairs of each layer are read in
/// their order, and the dead key put on the worklist last is expanded
/// first, so the result is the same on every run. A layer whose dead key
/// cannot be reached, a trigger that stands on no key, and a dead key as
/// the trigger of another dead key's layer are passed over; what was
/// passed over is told by `layout_anomalies`.
pub fn build_keyseq_map(
    layout_keymap: &Vec<(PhysicalKey, ModMapping)>,
    layout_deadkeys: &Vec<(DeadKey, Vec<(Symbol, Symbol)>)>,
) -> (map: KeySeqMap)
    ensures
        map@ == resolve(layout_keymap@, layers_view(layout_deadkeys@)),
        distinct_keys(map@),
{
    proof {
        lemma_resolve_distinct(layout_keymap@, layers_view(layout_deadkeys@));
    }
    let Resolved { base, dead: _, chars: reached, tied_presses: _, tied_sequences: _ } =
        resolve_dead_keys(layout_keymap, layout_deadkeys);
    let mut chars = reached;
    let ghost given = chars@;
    let mut m: usize = 0;
    while m < base.len()
        invariant
            m <= base@.len(),
            chars@ == merge_base(given, base@.take(m as int)),
        decreases base@.len() - m,
    {
        assert(base@.take(m + 1).drop_last() =~= base@.take(m as int));
        let entry = base.entries[m];
        let mut sequence: Vec<KeySymbol> = Vec::new();
        sequence.push(entry.1);
        assert(sequence@ =~= seq![entry.1]);
        chars.insert(entry.0, sequence);
        m += 1;
    }
    assert(base@.take(m as int) =~= base@);
    chars
}

/// The keys of a sequence of presses.
pub type Keystrokes = Vec<PhysicalKey>;

/// The table with each press replaced by its key.
pub open spec fn keys_only(map: KeySeqs) -> Seq<(char, Seq<PhysicalKey>)> {
    Seq::new(map.len(), |i: int| (map[i].0, Seq::new(map[i].1.len(), |j: int| map[i].1[j].key)))
}

/// The keys to press for every character that the layout can produce.
pub fn build_keystrokes_map(layout: &Layout) -> (map: CharMap<Keystrokes>)
    ensures
        map@ == keys_only(resolve(layout.keymap@, layers_view(layout.deadkeys@))),
{
    let presses = build_keyseq_map(&layout.keymap, &layout.deadkeys);
    let mut map: CharMap<Keystrokes> = CharMap::new();
    let mut i: usize = 0;
    while i < presses.len()
        invariant
            i <= presses@.len(),
            map@.len() == i,
            forall|j: int| 0 <= j < i ==> (#[trigger] map@[j]) == keys_only(presses@)[j],
        decreases presses@.len() - i,
    {
        let sequence = &presses.entries[i].1;
        let mut keys: Keystrokes = Vec::new();
        let mut t: usize = 0;
        while t < sequence.len()
            invariant
                t <= sequence@.len(),
                keys@.len() == t,
                forall|u: int| 0 <= u < t ==> keys@[u] == sequence@[u].key,
            decreases sequence@.len() - t,
        {
            keys.push(sequence[t].key);
            t += 1;
        }
        assert(keys@ =~= keys_only(presses@)[i as int].1);
        let ghost before = map@;
        map.entries.push((presses.entries[i].0, keys));
        assert(map@ =~= before.push(keys_only(presses@)[i as int]));
        i += 1;
    }
    assert(map@ =~= keys_only(presses@));
    map
}

} // verus!
