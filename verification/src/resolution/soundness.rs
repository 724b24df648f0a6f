//! Every sequence that resolution gives can be typed: it starts with a
//! dead key that stands on a key, and each further press is a trigger in
//! the layer of the dead key typed just before it.

use crate::assoc::{assoc_get, assoc_insert, has_key, lemma_has_key};
use crate::kalamine::{DeadKey, ModMapping, PhysicalKey, Symbol};
use crate::keyseq::KeySymbol;
use crate::resolution::laws::{lemma_best_press_kept, lemma_merge_base};
use crate::resolution::{
    base_pass, expand_layer, expand_pair, expand_steps, initial_resolution, presses, register_all,
    resolve, trigger_keysym, BaseTables, KeySeqs, Layers, Resolution,
};
use vstd::prelude::*;

verus! {

/// What a layout lays down: the presses that its keys offer, the press that
/// the base pass keeps for each character, and the layers of its dead keys.
pub struct Rules {
    pub offered: Seq<KeySymbol>,
    pub base: Seq<(char, KeySymbol)>,
    pub layers: Layers,
}

/// The rules of a layout.
pub open spec fn rules_of(keymap: Seq<(PhysicalKey, ModMapping)>, layers: Layers) -> Rules {
    Rules { offered: presses(keymap), base: base_pass(keymap).base, layers }
}

/// The press that stands for a trigger in a sequence: the press of the
/// trigger itself before a character, and the same key and level under the
/// name of the dead key before a dead key.
pub open spec fn step_press(output: Symbol, trigger: KeySymbol) -> KeySymbol {
    match output {
        Symbol::Character(_) => trigger,
        Symbol::DeadKey(_) => KeySymbol::spec_new(output, trigger.key, trigger.modifier),
    }
}

/// The pair at `j` of a layer gives `output`, and `press` is the press of
/// its trigger after `prefix`, the sequence of the dead key `owner`.
pub open spec fn is_step(
    rules: Rules,
    layer: Seq<(Symbol, Symbol)>,
    owner: char,
    prefix: Seq<KeySymbol>,
    j: int,
    output: Symbol,
    press: KeySymbol,
) -> bool {
    &&& 0 <= j < layer.len()
    &&& layer[j].1 == output
    &&& match trigger_keysym(rules.base, owner, prefix, layer[j].0) {
        Some(trigger) => press == step_press(output, trigger),
        None => false,
    }
}

/// After `prefix`, which ends with a dead key, `press` gives `output`: the
/// layer of that dead key has a pair for it.
pub open spec fn follows(rules: Rules, prefix: Seq<KeySymbol>, output: Symbol, press: KeySymbol) -> bool {
    let layer = assoc_get(rules.layers, DeadKey { name: prefix.last().name });
    layer is Some && exists|j: int| #[trigger]
        is_step(rules, layer->Some_0, prefix.last().name, prefix, j, output, press)
}

proof fn lemma_follows(
    rules: Rules,
    layer: Seq<(Symbol, Symbol)>,
    prefix: Seq<KeySymbol>,
    j: int,
    output: Symbol,
    press: KeySymbol,
)
    requires
        assoc_get(rules.layers, DeadKey { name: prefix.last().name }) == Some(layer),
        is_step(rules, layer, prefix.last().name, prefix, j, output, press),
    ensures
        follows(rules, prefix, output, press),
{
    let found = assoc_get(rules.layers, DeadKey { name: prefix.last().name });
    assert(is_step(rules, found->Some_0, prefix.last().name, prefix, j, output, press));
}

/// The sequence types the symbol. One press types a dead key that stands
/// on a key. A longer sequence types a symbol where all but its last press
/// type a dead key and the last press then gives the symbol.
pub open spec fn types(rules: Rules, target: Symbol, sequence: Seq<KeySymbol>) -> bool
    decreases sequence.len(),
{
    if sequence.len() == 0 {
        false
    } else if sequence.len() == 1 {
        target is DeadKey && rules.offered.contains(sequence[0]) && sequence[0].spec_symbol() == target
    } else {
        let prefix = sequence.drop_last();
        types(rules, Symbol::DeadKey(prefix.last().name), prefix) && follows(
            rules,
            prefix,
            target,
            sequence.last(),
        )
    }
}

/// Every sequence of the tables types the symbol it is kept for.
pub open spec fn sound(rules: Rules, dead: KeySeqs, chars: KeySeqs) -> bool {
    &&& forall|i: int|
        0 <= i < dead.len() ==> types(rules, Symbol::DeadKey((#[trigger] dead[i]).0), dead[i].1)
    &&& forall|i: int|
        0 <= i < chars.len() ==> types(rules, Symbol::Character((#[trigger] chars[i]).0), chars[i].1)
}

/// A sequence that types a dead key ends with the press of that dead key.
pub proof fn lemma_types_dead_key(rules: Rules, name: char, sequence: Seq<KeySymbol>)
    requires
        types(rules, Symbol::DeadKey(name), sequence),
    ensures
        sequence.len() >= 1,
        sequence.last().name == name,
        sequence.last().dead_key,
{
    if sequence.len() >= 2 {
        let prefix = sequence.drop_last();
        let owner = prefix.last().name;
        let layer = assoc_get(rules.layers, DeadKey { name: owner })->Some_0;
        assert(follows(rules, prefix, Symbol::DeadKey(name), sequence.last()));
        let j = choose|j: int| #[trigger]
            is_step(rules, layer, owner, prefix, j, Symbol::DeadKey(name), sequence.last());
        assert(is_step(rules, layer, owner, prefix, j, Symbol::DeadKey(name), sequence.last()));
    }
}

/// A sequence that types a character has two presses or more.
pub proof fn lemma_types_character(rules: Rules, c: char, sequence: Seq<KeySymbol>)
    requires
        types(rules, Symbol::Character(c), sequence),
    ensures
        sequence.len() >= 2,
{
}

proof fn lemma_insert_types(rules: Rules, seqs: KeySeqs, c: char, candidate: Seq<KeySymbol>, dead: bool)
    requires
        forall|i: int|
            0 <= i < seqs.len() ==> types(
                rules,
                if dead {
                    Symbol::DeadKey((#[trigger] seqs[i]).0)
                } else {
                    Symbol::Character(seqs[i].0)
                },
                seqs[i].1,
            ),
        types(
            rules,
            if dead {
                Symbol::DeadKey(c)
            } else {
                Symbol::Character(c)
            },
            candidate,
        ),
    ensures
        forall|i: int|
            0 <= i < assoc_insert(seqs, c, candidate).len() ==> types(
                rules,
                if dead {
                    Symbol::DeadKey((#[trigger] assoc_insert(seqs, c, candidate)[i]).0)
                } else {
                    Symbol::Character(assoc_insert(seqs, c, candidate)[i].0)
                },
                assoc_insert(seqs, c, candidate)[i].1,
            ),
{
    let after = assoc_insert(seqs, c, candidate);
    if has_key(seqs, c) {
        lemma_has_key(seqs, c);
    }
    assert forall|i: int| 0 <= i < after.len() implies types(
        rules,
        if dead {
            Symbol::DeadKey((#[trigger] after[i]).0)
        } else {
            Symbol::Character(after[i].0)
        },
        after[i].1,
    ) by {
        if i < seqs.len() && after[i] != (c, candidate) {
            assert(after[i] == seqs[i]);
        }
    }
}

/// Expanding the pair at `j` of the layer of a dead key keeps the tables
/// sound.
proof fn lemma_expand_pair_sound(
    rules: Rules,
    name: char,
    prefix: Seq<KeySymbol>,
    r: Resolution,
    layer: Seq<(Symbol, Symbol)>,
    j: int,
)
    requires
        sound(rules, r.dead, r.chars),
        types(rules, Symbol::DeadKey(name), prefix),
        assoc_get(rules.layers, DeadKey { name }) == Some(layer),
        0 <= j < layer.len(),
    ensures
        sound(
            rules,
            expand_pair(rules.base, name, prefix, r, layer[j]).dead,
            expand_pair(rules.base, name, prefix, r, layer[j]).chars,
        ),
{
    let pair = layer[j];
    lemma_types_dead_key(rules, name, prefix);
    match trigger_keysym(rules.base, name, prefix, pair.0) {
        None => {},
        Some(trigger) => {
            let candidate = prefix.push(step_press(pair.1, trigger));
            assert(candidate.drop_last() =~= prefix);
            lemma_follows(rules, layer, prefix, j, pair.1, candidate.last());
            assert(types(rules, pair.1, candidate));
            match pair.1 {
                Symbol::Character(c) => {
                    lemma_insert_types(rules, r.chars, c, candidate, false);
                },
                Symbol::DeadKey(c) => {
                    lemma_insert_types(rules, r.dead, c, candidate, true);
                },
            }
        },
    }
}

proof fn lemma_expand_layer_sound(
    rules: Rules,
    name: char,
    prefix: Seq<KeySymbol>,
    r: Resolution,
    layer: Seq<(Symbol, Symbol)>,
    k: int,
)
    requires
        sound(rules, r.dead, r.chars),
        types(rules, Symbol::DeadKey(name), prefix),
        assoc_get(rules.layers, DeadKey { name }) == Some(layer),
        0 <= k <= layer.len(),
    ensures
        sound(
            rules,
            expand_layer(rules.base, name, prefix, r, layer.take(k)).dead,
            expand_layer(rules.base, name, prefix, r, layer.take(k)).chars,
        ),
    decreases k,
{
    if k > 0 {
        lemma_expand_layer_sound(rules, name, prefix, r, layer, k - 1);
        assert(layer.take(k).drop_last() =~= layer.take(k - 1));
        assert(layer.take(k).last() == layer[k - 1]);
        lemma_expand_pair_sound(
            rules,
            name,
            prefix,
            expand_layer(rules.base, name, prefix, r, layer.take(k - 1)),
            layer,
            k - 1,
        );
    }
}

/// Expansion keeps the tables sound, however far it has come.
pub proof fn lemma_expansion_sound(rules: Rules, r: Resolution, n: nat)
    requires
        sound(rules, r.dead, r.chars),
    ensures
        sound(
            rules,
            expand_steps(rules.base, rules.layers, r, n).dead,
            expand_steps(rules.base, rules.layers, r, n).chars,
        ),
    decreases n,
{
    if n > 0 {
        lemma_expansion_sound(rules, r, (n - 1) as nat);
        let before = expand_steps(rules.base, rules.layers, r, (n - 1) as nat);
        if before.worklist.len() > 0 {
            let name = before.worklist.last();
            let popped = Resolution {
                worklist: before.worklist.drop_last(),
                dead: before.dead,
                chars: before.chars,
            };
            match (assoc_get(rules.layers, DeadKey { name }), assoc_get(before.dead, name)) {
                (Some(layer), Some(prefix)) => {
                    lemma_has_key(before.dead, name);
                    lemma_expand_layer_sound(rules, name, prefix, popped, layer, layer.len() as int);
                    assert(layer.take(layer.len() as int) =~= layer);
                },
                _ => {},
            }
        }
    }
}

/// The base pass gives each dead key one press that the keymap offers.
pub proof fn lemma_base_pass_sound(rules: Rules, offered: Seq<KeySymbol>, k: int)
    requires
        rules.offered == offered,
        0 <= k <= offered.len(),
    ensures
        sound(
            rules,
            register_all(BaseTables { base: Seq::empty(), dead: Seq::empty() }, offered.take(k)).dead,
            Seq::empty(),
        ),
    decreases k,
{
    if k > 0 {
        lemma_base_pass_sound(rules, offered, k - 1);
        assert(offered.take(k).drop_last() =~= offered.take(k - 1));
        let before = register_all(
            BaseTables { base: Seq::empty(), dead: Seq::empty() },
            offered.take(k - 1),
        );
        let ks = offered[k - 1];
        assert(offered.take(k).last() == ks);
        if ks.dead_key {
            assert(types(rules, Symbol::DeadKey(ks.name), seq![ks]));
            lemma_insert_types(rules, before.dead, ks.name, seq![ks], true);
        }
    }
}

/// Every sequence that resolution gives can be typed. A character that
/// stands on a key has the one press that the base pass kept for it. Every
/// other character has a sequence that starts with a dead key on a key and
/// goes on, press by press, with a trigger in the layer of the dead key
/// typed before.
pub proof fn lemma_resolved_sequences_type(keymap: Seq<(PhysicalKey, ModMapping)>, layers: Layers, c: char)
    ensures
        match (assoc_get(resolve(keymap, layers), c), assoc_get(base_pass(keymap).base, c)) {
            (Some(sequence), Some(ks)) => sequence == seq![ks],
            (Some(sequence), None) => types(rules_of(keymap, layers), Symbol::Character(c), sequence),
            (None, Some(_)) => false,
            (None, None) => true,
        },
{
    let rules = rules_of(keymap, layers);
    let tables = base_pass(keymap);
    let start = initial_resolution(tables, layers);
    let n = choose|n: nat| expand_steps(tables.base, layers, start, n).worklist.len() == 0;
    let ended = expand_steps(tables.base, layers, start, n);
    lemma_best_press_kept(presses(keymap), c);
    lemma_merge_base(ended.chars, tables.base, c);
    lemma_base_pass_sound(rules, presses(keymap), presses(keymap).len() as int);
    assert(presses(keymap).take(presses(keymap).len() as int) =~= presses(keymap));
    lemma_expansion_sound(rules, start, n);
    if has_key(ended.chars, c) {
        lemma_has_key(ended.chars, c);
    }
}

} // verus!
