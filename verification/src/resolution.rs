//! The rules of resolution, as mathematics: what the base pass keeps for
//! each character and dead key, how one dead key is expanded, and why
//! expanding dead keys comes to an end.

pub mod closure;
pub mod laws;
pub mod soundness;
pub mod ties;

use crate::assoc::{assoc_get, assoc_insert, has_key, lemma_has_key, lemma_insert_get};
use crate::kalamine::{DeadKey, Mod, ModMapping, PhysicalKey, Symbol};
use crate::keyseq::{
    lemma_count_bounds, spec_count_mods, spec_count_thumbs, spec_is_better_keyseq,
    spec_is_better_keysym, KeySymbol,
};
use vstd::prelude::*;

verus! {

/// Sequences of presses, by the glyph they give.
pub type KeySeqs = Seq<(char, Seq<KeySymbol>)>;

/// The layers of the dead keys of a layout: for each dead key the pairs of
/// a trigger and what the trigger then gives.
pub type Layers = Seq<(DeadKey, Seq<(Symbol, Symbol)>)>;

/// The layers of a layout as mathematics.
pub open spec fn layers_view(deadkeys: Seq<(DeadKey, Vec<(Symbol, Symbol)>)>) -> Layers {
    Seq::new(deadkeys.len(), |i: int| (deadkeys[i].0, deadkeys[i].1@))
}

/// What the base pass has found: the press kept for each character that
/// stands on a key, and the one-press sequence of each dead key that
/// stands on a key.
pub struct BaseTables {
    pub base: Seq<(char, KeySymbol)>,
    pub dead: KeySeqs,
}

/// Takes one press into the tables. A character keeps the better of its
/// presses, and the earlier of two equally good ones; a dead key keeps the
/// press seen last.
pub open spec fn register(t: BaseTables, ks: KeySymbol) -> BaseTables {
    if ks.dead_key {
        BaseTables { base: t.base, dead: assoc_insert(t.dead, ks.name, seq![ks]) }
    } else if spec_is_better_keysym(ks, assoc_get(t.base, ks.name)) {
        BaseTables { base: assoc_insert(t.base, ks.name, ks), dead: t.dead }
    } else {
        t
    }
}

/// Takes one slot of a key into the tables; an empty slot changes nothing.
pub open spec fn register_slot(t: BaseTables, key: PhysicalKey, slot: (Mod, Option<Symbol>)) -> BaseTables {
    match slot.1 {
        Some(symbol) => register(t, KeySymbol::spec_new(symbol, key, slot.0)),
        None => t,
    }
}

/// The press of a slot of a key, or nothing for an empty slot.
pub open spec fn slot_presses(key: PhysicalKey, slot: (Mod, Option<Symbol>)) -> Seq<KeySymbol> {
    match slot.1 {
        Some(symbol) => seq![KeySymbol::spec_new(symbol, key, slot.0)],
        None => Seq::empty(),
    }
}

/// The presses of the four slots of a key, in their order.
pub open spec fn key_presses(key: PhysicalKey, mapping: ModMapping) -> Seq<KeySymbol> {
    slot_presses(key, mapping.map[0]) + slot_presses(key, mapping.map[1]) + slot_presses(
        key,
        mapping.map[2],
    ) + slot_presses(key, mapping.map[3])
}

/// Every press that a keymap offers: key after key in the order of the
/// keymap, and on each key level after level.
pub open spec fn presses(keymap: Seq<(PhysicalKey, ModMapping)>) -> Seq<KeySymbol>
    decreases keymap.len(),
{
    if keymap.len() == 0 {
        Seq::empty()
    } else {
        presses(keymap.drop_last()) + key_presses(keymap.last().0, keymap.last().1)
    }
}

/// Takes presses into the tables, one after the other.
pub open spec fn register_all(t: BaseTables, offered: Seq<KeySymbol>) -> BaseTables
    decreases offered.len(),
{
    if offered.len() == 0 {
        t
    } else {
        register(register_all(t, offered.drop_last()), offered.last())
    }
}

/// The tables after every press of the keymap was taken in.
pub open spec fn base_pass(keymap: Seq<(PhysicalKey, ModMapping)>) -> BaseTables {
    register_all(BaseTables { base: Seq::empty(), dead: Seq::empty() }, presses(keymap))
}

/// Taking in two lists of presses one after the other is taking in the
/// two as one list.
pub proof fn lemma_register_concat(t: BaseTables, first: Seq<KeySymbol>, second: Seq<KeySymbol>)
    ensures
        register_all(t, first + second) == register_all(register_all(t, first), second),
    decreases second.len(),
{
    if second.len() == 0 {
        assert(first + second =~= first);
    } else {
        lemma_register_concat(t, first, second.drop_last());
        assert((first + second).drop_last() =~= first + second.drop_last());
        assert((first + second).last() == second.last());
    }
}

/// Taking in the four slots of a key is taking in the presses of the key.
pub proof fn lemma_register_key(t: BaseTables, key: PhysicalKey, mapping: ModMapping)
    ensures
        register_slot(
            register_slot(
                register_slot(register_slot(t, key, mapping.map[0]), key, mapping.map[1]),
                key,
                mapping.map[2],
            ),
            key,
            mapping.map[3],
        ) == register_all(t, key_presses(key, mapping)),
{
    let base = slot_presses(key, mapping.map[0]);
    let shift = slot_presses(key, mapping.map[1]);
    let altgr = slot_presses(key, mapping.map[2]);
    let both = slot_presses(key, mapping.map[3]);
    lemma_register_slot(t, key, mapping.map[0]);
    let after_base = register_all(t, base);
    lemma_register_slot(after_base, key, mapping.map[1]);
    let after_shift = register_all(after_base, shift);
    lemma_register_slot(after_shift, key, mapping.map[2]);
    let after_altgr = register_all(after_shift, altgr);
    lemma_register_slot(after_altgr, key, mapping.map[3]);
    lemma_register_concat(t, base, shift);
    lemma_register_concat(t, base + shift, altgr);
    lemma_register_concat(t, base + shift + altgr, both);
}

/// Taking in a slot of a key is taking in its presses.
pub proof fn lemma_register_slot(t: BaseTables, key: PhysicalKey, slot: (Mod, Option<Symbol>))
    ensures
        register_slot(t, key, slot) == register_all(t, slot_presses(key, slot)),
{
    let offered = slot_presses(key, slot);
    if offered.len() > 0 {
        assert(offered.drop_last().len() == 0);
        assert(register_all(t, offered.drop_last()) == t);
    }
}

/// Where the expansion of dead keys stands: the dead keys still to expand
/// (the last one is next), the best sequence known for each dead key, and
/// the best sequence known for each character that a dead key gives.
pub struct Resolution {
    pub worklist: Seq<char>,
    pub dead: KeySeqs,
    pub chars: KeySeqs,
}

/// The press that triggers a pair of the layer of the dead key `name`,
/// whose own sequence is `prefix`. A character is pressed as the base pass
/// kept it. The dead key itself stands for pressing it once more. Any
/// other dead key triggers nothing.
pub open spec fn trigger_keysym(
    base: Seq<(char, KeySymbol)>,
    name: char,
    prefix: Seq<KeySymbol>,
    trigger: Symbol,
) -> Option<KeySymbol> {
    match trigger {
        Symbol::Character(c) => assoc_get(base, c),
        Symbol::DeadKey(c) => if c == name {
            Some(prefix.last())
        } else {
            None
        },
    }
}

/// Expands one pair of the layer of the dead key `name`. The candidate is
/// the sequence of the dead key and then the trigger. It replaces what is
/// kept for the output where it is better; an output dead key that got a
/// better sequence is put on the worklist, unless it is there already.
pub open spec fn expand_pair(
    base: Seq<(char, KeySymbol)>,
    name: char,
    prefix: Seq<KeySymbol>,
    r: Resolution,
    pair: (Symbol, Symbol),
) -> Resolution {
    match trigger_keysym(base, name, prefix, pair.0) {
        None => r,
        Some(trigger) => match pair.1 {
            Symbol::Character(c) => {
                let candidate = prefix.push(trigger);
                if spec_is_better_keyseq(candidate, assoc_get(r.chars, c)) {
                    Resolution { worklist: r.worklist, dead: r.dead, chars: assoc_insert(r.chars, c, candidate) }
                } else {
                    r
                }
            },
            Symbol::DeadKey(c) => {
                let candidate = prefix.push(KeySymbol::spec_new(pair.1, trigger.key, trigger.modifier));
                if spec_is_better_keyseq(candidate, assoc_get(r.dead, c)) {
                    Resolution {
                        worklist: if r.worklist.contains(c) {
                            r.worklist
                        } else {
                            r.worklist.push(c)
                        },
                        dead: assoc_insert(r.dead, c, candidate),
                        chars: r.chars,
                    }
                } else {
                    r
                }
            },
        },
    }
}

/// Expands the pairs of a layer in their order.
pub open spec fn expand_layer(
    base: Seq<(char, KeySymbol)>,
    name: char,
    prefix: Seq<KeySymbol>,
    r: Resolution,
    layer: Seq<(Symbol, Symbol)>,
) -> Resolution
    decreases layer.len(),
{
    if layer.len() == 0 {
        r
    } else {
        expand_pair(base, name, prefix, expand_layer(base, name, prefix, r, layer.drop_last()), layer.last())
    }
}

/// Takes the last dead key off the worklist and expands its layer. A dead
/// key without a layer, or without a known sequence, is only taken off.
pub open spec fn expand_step(base: Seq<(char, KeySymbol)>, layers: Layers, r: Resolution) -> Resolution {
    if r.worklist.len() == 0 {
        r
    } else {
        let name = r.worklist.last();
        let popped = Resolution { worklist: r.worklist.drop_last(), dead: r.dead, chars: r.chars };
        match (assoc_get(layers, DeadKey { name }), assoc_get(r.dead, name)) {
            (Some(layer), Some(prefix)) => expand_layer(base, name, prefix, popped, layer),
            _ => popped,
        }
    }
}

/// `n` steps of expansion.
pub open spec fn expand_steps(base: Seq<(char, KeySymbol)>, layers: Layers, r: Resolution, n: nat) -> Resolution
    decreases n,
{
    if n == 0 {
        r
    } else {
        expand_step(base, layers, expand_steps(base, layers, r, (n - 1) as nat))
    }
}

/// The names of the dead keys that have a layer, in the order of the
/// layers.
pub open spec fn layer_names(layers: Layers) -> Seq<char> {
    Seq::new(layers.len(), |i: int| layers[i].0.name)
}

/// Adds the one-press sequence of each character of the base pass; it
/// replaces whatever a dead key gave for that character.
pub open spec fn merge_base(chars: KeySeqs, base: Seq<(char, KeySymbol)>) -> KeySeqs
    decreases base.len(),
{
    if base.len() == 0 {
        chars
    } else {
        assoc_insert(merge_base(chars, base.drop_last()), base.last().0, seq![base.last().1])
    }
}

/// Where expansion starts: every dead key with a layer is to be expanded,
/// and the dead keys of the base pass are known.
pub open spec fn initial_resolution(tables: BaseTables, layers: Layers) -> Resolution {
    Resolution { worklist: layer_names(layers), dead: tables.dead, chars: Seq::empty() }
}

/// The tables in which expansion ends: the sequence of each dead key, and
/// the sequence of each character that a dead key gives.
pub open spec fn expansion_end(keymap: Seq<(PhysicalKey, ModMapping)>, layers: Layers) -> Resolution {
    let tables = base_pass(keymap);
    let start = initial_resolution(tables, layers);
    let n = choose|n: nat| expand_steps(tables.base, layers, start, n).worklist.len() == 0;
    expand_steps(tables.base, layers, start, n)
}

/// The sequence of presses of every character of a layout: the result of
/// the base pass, of expansion until the worklist is empty, and of the
/// merge.
pub open spec fn resolve(keymap: Seq<(PhysicalKey, ModMapping)>, layers: Layers) -> KeySeqs {
    merge_base(expansion_end(keymap, layers).chars, base_pass(keymap).base)
}

/// Once the worklist is empty further steps change nothing, so the state
/// in which expansion ends does not depend on how many steps were counted.
pub proof fn lemma_expansion_ends_once(
    base: Seq<(char, KeySymbol)>,
    layers: Layers,
    r: Resolution,
    n: nat,
    m: nat,
)
    requires
        expand_steps(base, layers, r, n).worklist.len() == 0,
        expand_steps(base, layers, r, m).worklist.len() == 0,
    ensures
        expand_steps(base, layers, r, n) == expand_steps(base, layers, r, m),
{
    if n <= m {
        lemma_steps_after_end(base, layers, r, n, m);
    } else {
        lemma_steps_after_end(base, layers, r, m, n);
    }
}

proof fn lemma_steps_after_end(base: Seq<(char, KeySymbol)>, layers: Layers, r: Resolution, n: nat, m: nat)
    requires
        expand_steps(base, layers, r, n).worklist.len() == 0,
        n <= m,
    ensures
        expand_steps(base, layers, r, m) == expand_steps(base, layers, r, n),
    decreases m - n,
{
    if n < m {
        lemma_steps_after_end(base, layers, r, n, (m - 1) as nat);
    }
}

/// Every sequence of the table has at least one press.
pub open spec fn all_nonempty(seqs: KeySeqs) -> bool {
    forall|i: int| 0 <= i < seqs.len() ==> (#[trigger] seqs[i]).1.len() > 0
}

/// The glyphs that the pairs of a layer give.
pub open spec fn layer_outputs(layer: Seq<(Symbol, Symbol)>) -> Seq<char> {
    Seq::new(layer.len(), |j: int| layer[j].1.spec_name())
}

/// The glyphs that any pair of any layer gives: every dead key that
/// expansion can find is among them.
pub open spec fn universe(layers: Layers) -> Seq<char>
    decreases layers.len(),
{
    if layers.len() == 0 {
        Seq::empty()
    } else {
        universe(layers.drop_last()) + layer_outputs(layers.last().1)
    }
}

/// One of four measures of what is known of a dead key: whether it is
/// unknown, and else the length of its sequence, its modifiers, and its
/// presses not made by the thumb.
pub open spec fn component(dead: KeySeqs, c: char, which: int) -> nat {
    match assoc_get(dead, c) {
        None => if which == 0 {
            1
        } else {
            0
        },
        Some(s) => if which == 0 {
            0
        } else if which == 1 {
            s.len()
        } else if which == 2 {
            spec_count_mods(s)
        } else {
            (s.len() - spec_count_thumbs(s)) as nat
        },
    }
}

/// The sum of one measure over a list of glyphs.
pub open spec fn tally(ids: Seq<char>, dead: KeySeqs, which: int) -> nat
    decreases ids.len(),
{
    if ids.len() == 0 {
        0
    } else {
        tally(ids.drop_last(), dead, which) + component(dead, ids.last(), which)
    }
}

/// The table `after` is better than `before`: summed over `ids`, fewer
/// dead keys are unknown, or as many and their sequences are shorter, or
/// as long and hold fewer modifiers, or as many and the thumb presses more.
pub open spec fn improved(ids: Seq<char>, after: KeySeqs, before: KeySeqs) -> bool {
    ||| tally(ids, after, 0) < tally(ids, before, 0)
    ||| tally(ids, after, 0) == tally(ids, before, 0) && tally(ids, after, 1) < tally(ids, before, 1)
    ||| tally(ids, after, 0) == tally(ids, before, 0) && tally(ids, after, 1) == tally(ids, before, 1)
        && tally(ids, after, 2) < tally(ids, before, 2)
    ||| tally(ids, after, 0) == tally(ids, before, 0) && tally(ids, after, 1) == tally(ids, before, 1)
        && tally(ids, after, 2) == tally(ids, before, 2) && tally(ids, after, 3) < tally(ids, before, 3)
}

/// From `before` to `after` either the table of dead keys got better, or
/// neither it nor the worklist changed.
pub open spec fn advanced(ids: Seq<char>, after: Resolution, before: Resolution) -> bool {
    improved(ids, after.dead, before.dead) || (after.dead == before.dead && after.worklist
        == before.worklist)
}

proof fn lemma_tally_le(ids: Seq<char>, after: KeySeqs, before: KeySeqs, which: int)
    requires
        forall|i: int|
            0 <= i < ids.len() ==> component(after, #[trigger] ids[i], which) <= component(
                before,
                ids[i],
                which,
            ),
    ensures
        tally(ids, after, which) <= tally(ids, before, which),
    decreases ids.len(),
{
    if ids.len() > 0 {
        lemma_tally_le(ids.drop_last(), after, before, which);
        assert(ids.last() == ids[ids.len() - 1]);
    }
}

proof fn lemma_tally_lt(ids: Seq<char>, after: KeySeqs, before: KeySeqs, which: int, p: int)
    requires
        forall|i: int|
            0 <= i < ids.len() ==> component(after, #[trigger] ids[i], which) <= component(
                before,
                ids[i],
                which,
            ),
        0 <= p < ids.len(),
        component(after, ids[p], which) < component(before, ids[p], which),
    ensures
        tally(ids, after, which) < tally(ids, before, which),
    decreases ids.len(),
{
    assert(ids.last() == ids[ids.len() - 1]);
    if p == ids.len() - 1 {
        lemma_tally_le(ids.drop_last(), after, before, which);
    } else {
        lemma_tally_lt(ids.drop_last(), after, before, which, p);
    }
}

/// Putting a better sequence for a dead key of `ids` into the table makes
/// the table better.
pub proof fn lemma_insert_improves(ids: Seq<char>, dead: KeySeqs, c: char, candidate: Seq<KeySymbol>, p: int)
    requires
        0 <= p < ids.len(),
        ids[p] == c,
        spec_is_better_keyseq(candidate, assoc_get(dead, c)),
    ensures
        improved(ids, assoc_insert(dead, c, candidate), dead),
{
    let after = assoc_insert(dead, c, candidate);
    assert forall|k: char, which: int| k != c implies component(after, k, which) == component(
        dead,
        k,
        which,
    ) by {
        lemma_insert_get(dead, c, candidate, k);
    }
    lemma_insert_get(dead, c, candidate, c);
    lemma_count_bounds(candidate);
    match assoc_get(dead, c) {
        None => {
            lemma_tally_lt(ids, after, dead, 0, p);
        },
        Some(old) => {
            lemma_count_bounds(old);
            lemma_tally_le(ids, after, dead, 0);
            lemma_tally_le(ids, dead, after, 0);
            if candidate.len() != old.len() {
                lemma_tally_lt(ids, after, dead, 1, p);
            } else {
                lemma_tally_le(ids, after, dead, 1);
                lemma_tally_le(ids, dead, after, 1);
                if spec_count_mods(candidate) != spec_count_mods(old) {
                    lemma_tally_lt(ids, after, dead, 2, p);
                } else {
                    lemma_tally_le(ids, after, dead, 2);
                    lemma_tally_le(ids, dead, after, 2);
                    lemma_tally_lt(ids, after, dead, 3, p);
                }
            }
        },
    }
}

/// Every glyph that a pair of the layer gives is among `ids`.
pub open spec fn covers(ids: Seq<char>, layer: Seq<(Symbol, Symbol)>) -> bool {
    forall|j: int| 0 <= j < layer.len() ==> ids.contains((#[trigger] layer[j]).1.spec_name())
}

/// The universe of the layers covers each of them.
pub proof fn lemma_universe_covers(layers: Layers, i: int)
    requires
        0 <= i < layers.len(),
    ensures
        covers(universe(layers), layers[i].1),
    decreases layers.len(),
{
    let all = universe(layers);
    let front = universe(layers.drop_last());
    let back = layer_outputs(layers.last().1);
    if i == layers.len() - 1 {
        assert forall|j: int| 0 <= j < layers[i].1.len() implies all.contains(
            (#[trigger] layers[i].1[j]).1.spec_name(),
        ) by {
            assert(all[front.len() + j] == back[j]);
        }
    } else {
        lemma_universe_covers(layers.drop_last(), i);
        assert(layers.drop_last()[i] == layers[i]);
        assert forall|j: int| 0 <= j < layers[i].1.len() implies all.contains(
            (#[trigger] layers[i].1[j]).1.spec_name(),
        ) by {
            let g = layers[i].1[j].1.spec_name();
            assert(front.contains(g));
            let q = choose|q: int| 0 <= q < front.len() && front[q] == g;
            assert(all[q] == g);
        }
    }
}

/// Binding a key to a sequence with a press keeps a table of such
/// sequences one.
pub proof fn lemma_insert_nonempty(seqs: KeySeqs, c: char, candidate: Seq<KeySymbol>)
    requires
        all_nonempty(seqs),
        candidate.len() > 0,
    ensures
        all_nonempty(assoc_insert(seqs, c, candidate)),
{
    let after = assoc_insert(seqs, c, candidate);
    if has_key(seqs, c) {
        lemma_has_key(seqs, c);
    }
    assert forall|i: int| 0 <= i < after.len() implies (#[trigger] after[i]).1.len() > 0 by {
        if i < seqs.len() && after[i] != (c, candidate) {
            assert(after[i] == seqs[i]);
        }
    }
}

/// What a table gives for a key is one of its sequences.
pub proof fn lemma_get_nonempty(seqs: KeySeqs, c: char)
    requires
        all_nonempty(seqs),
    ensures
        assoc_get(seqs, c) matches Some(s) ==> s.len() > 0,
{
    if has_key(seqs, c) {
        lemma_has_key(seqs, c);
    }
}

/// Expanding one pair advances the resolution.
pub proof fn lemma_expand_pair_advances(
    ids: Seq<char>,
    base: Seq<(char, KeySymbol)>,
    name: char,
    prefix: Seq<KeySymbol>,
    r: Resolution,
    pair: (Symbol, Symbol),
)
    requires
        ids.contains(pair.1.spec_name()),
        all_nonempty(r.dead),
    ensures
        advanced(ids, expand_pair(base, name, prefix, r, pair), r),
        all_nonempty(expand_pair(base, name, prefix, r, pair).dead),
{
    let after = expand_pair(base, name, prefix, r, pair);
    match trigger_keysym(base, name, prefix, pair.0) {
        None => {},
        Some(trigger) => match pair.1 {
            Symbol::Character(c) => {},
            Symbol::DeadKey(c) => {
                let candidate = prefix.push(KeySymbol::spec_new(pair.1, trigger.key, trigger.modifier));
                if spec_is_better_keyseq(candidate, assoc_get(r.dead, c)) {
                    let p = choose|p: int| 0 <= p < ids.len() && ids[p] == c;
                    lemma_insert_improves(ids, r.dead, c, candidate, p);
                    lemma_insert_nonempty(r.dead, c, candidate);
                }
            },
        },
    }
}

/// Expanding a layer advances the resolution.
pub proof fn lemma_expand_layer_advances(
    ids: Seq<char>,
    base: Seq<(char, KeySymbol)>,
    name: char,
    prefix: Seq<KeySymbol>,
    r: Resolution,
    layer: Seq<(Symbol, Symbol)>,
)
    requires
        covers(ids, layer),
        all_nonempty(r.dead),
    ensures
        advanced(ids, expand_layer(base, name, prefix, r, layer), r),
        all_nonempty(expand_layer(base, name, prefix, r, layer).dead),
    decreases layer.len(),
{
    if layer.len() > 0 {
        let front = layer.drop_last();
        assert forall|j: int| 0 <= j < front.len() implies ids.contains(
            (#[trigger] front[j]).1.spec_name(),
        ) by {
            assert(front[j] == layer[j]);
        }
        lemma_expand_layer_advances(ids, base, name, prefix, r, front);
        let mid = expand_layer(base, name, prefix, r, front);
        assert(layer.last() == layer[layer.len() - 1]);
        lemma_expand_pair_advances(ids, base, name, prefix, mid, layer.last());
    }
}

/// A step of expansion makes the table of dead keys better, or leaves it
/// and shortens the worklist.
pub proof fn lemma_expand_step_advances(base: Seq<(char, KeySymbol)>, layers: Layers, r: Resolution)
    requires
        all_nonempty(r.dead),
        r.worklist.len() > 0,
    ensures
        ({
            let after = expand_step(base, layers, r);
            &&& all_nonempty(after.dead)
            &&& improved(universe(layers), after.dead, r.dead) || (after.dead == r.dead
                && after.worklist.len() < r.worklist.len())
        }),
{
    let ids = universe(layers);
    let name = r.worklist.last();
    let popped = Resolution { worklist: r.worklist.drop_last(), dead: r.dead, chars: r.chars };
    match (assoc_get(layers, DeadKey { name }), assoc_get(r.dead, name)) {
        (Some(layer), Some(prefix)) => {
            lemma_has_key(layers, DeadKey { name });
            lemma_universe_covers(layers, crate::assoc::first_index(layers, DeadKey { name }));
            lemma_expand_layer_advances(ids, base, name, prefix, popped, layer);
        },
        _ => {},
    }
}

/// The base pass gives each dead key a sequence of one press.
pub proof fn lemma_base_pass_nonempty(keymap: Seq<(PhysicalKey, ModMapping)>)
    ensures
        all_nonempty(base_pass(keymap).dead),
{
    lemma_register_all_nonempty(BaseTables { base: Seq::empty(), dead: Seq::empty() }, presses(keymap));
}

proof fn lemma_register_all_nonempty(t: BaseTables, offered: Seq<KeySymbol>)
    requires
        all_nonempty(t.dead),
    ensures
        all_nonempty(register_all(t, offered).dead),
    decreases offered.len(),
{
    if offered.len() > 0 {
        lemma_register_all_nonempty(t, offered.drop_last());
        let before = register_all(t, offered.drop_last());
        let ks = offered.last();
        if ks.dead_key {
            lemma_insert_nonempty(before.dead, ks.name, seq![ks]);
        }
    }
}

proof fn lemma_steps_shift(base: Seq<(char, KeySymbol)>, layers: Layers, r: Resolution, n: nat)
    ensures
        expand_steps(base, layers, expand_step(base, layers, r), n) == expand_steps(
            base,
            layers,
            r,
            n + 1,
        ),
    decreases n,
{
    if n > 0 {
        lemma_steps_shift(base, layers, r, (n - 1) as nat);
    } else {
        assert(expand_steps(base, layers, r, 0) == r);
    }
}

/// Expansion ends: from every state in which each dead key has a press,
/// some number of steps empties the worklist.
pub proof fn lemma_expansion_ends(base: Seq<(char, KeySymbol)>, layers: Layers, r: Resolution) -> (n: nat)
    requires
        all_nonempty(r.dead),
    ensures
        expand_steps(base, layers, r, n).worklist.len() == 0,
    decreases
            tally(universe(layers), r.dead, 0),
            tally(universe(layers), r.dead, 1),
            tally(universe(layers), r.dead, 2),
            tally(universe(layers), r.dead, 3),
            r.worklist.len(),
{
    if r.worklist.len() == 0 {
        0
    } else {
        lemma_expand_step_advances(base, layers, r);
        let m = lemma_expansion_ends(base, layers, expand_step(base, layers, r));
        lemma_steps_shift(base, layers, r, m);
        m + 1
    }
}

/// The resolution of every layout ends.
pub proof fn lemma_resolution_ends(keymap: Seq<(PhysicalKey, ModMapping)>, layers: Layers)
    ensures
        exists|n: nat|
            (#[trigger] expand_steps(
                base_pass(keymap).base,
                layers,
                initial_resolution(base_pass(keymap), layers),
                n,
            )).worklist.len() == 0,
{
    lemma_base_pass_nonempty(keymap);
    let n = lemma_expansion_ends(
        base_pass(keymap).base,
        layers,
        initial_resolution(base_pass(keymap), layers),
    );
}

} // verus!
