//! Ties: where two presses, or two sequences, are equally good for one
//! symbol. The one found first is kept; the tie is recorded.

use crate::assoc::assoc_get;
use crate::kalamine::{DeadKey, Mod, ModMapping, PhysicalKey, Symbol};
use crate::keyseq::{spec_is_better_keyseq, spec_is_better_keysym, KeySymbol};
use crate::resolution::soundness::step_press;
use crate::resolution::{
    base_pass, expand_layer, expand_steps, initial_resolution, key_presses, lemma_register_concat,
    presses, register_all, slot_presses, trigger_keysym, BaseTables, Layers, Resolution,
};
use vstd::prelude::*;

verus! {

/// The presses are two, and neither is better than the other.
pub open spec fn equally_good_presses(a: KeySymbol, b: KeySymbol) -> bool {
    a != b && !spec_is_better_keysym(a, Some(b)) && !spec_is_better_keysym(b, Some(a))
}

/// The sequences are two, and neither is better than the other.
pub open spec fn equally_good(a: Seq<KeySymbol>, b: Seq<KeySymbol>) -> bool {
    a != b && !spec_is_better_keyseq(a, Some(b)) && !spec_is_better_keyseq(b, Some(a))
}

/// The character of a press that ties with the press kept for it.
pub open spec fn press_tie(t: BaseTables, ks: KeySymbol) -> Seq<char> {
    if ks.dead_key {
        Seq::empty()
    } else {
        match assoc_get(t.base, ks.name) {
            Some(kept) => if equally_good_presses(ks, kept) {
                seq![ks.name]
            } else {
                Seq::empty()
            },
            None => Seq::empty(),
        }
    }
}

/// The ties met while presses are taken into the tables, one after the
/// other.
pub open spec fn press_ties(t: BaseTables, offered: Seq<KeySymbol>) -> Seq<char>
    decreases offered.len(),
{
    if offered.len() == 0 {
        Seq::empty()
    } else {
        press_ties(t, offered.drop_last()) + press_tie(
            register_all(t, offered.drop_last()),
            offered.last(),
        )
    }
}

/// The tie met while a slot of a key is taken into the tables.
pub open spec fn slot_tie(t: BaseTables, key: PhysicalKey, slot: (Mod, Option<Symbol>)) -> Seq<char> {
    match slot.1 {
        Some(symbol) => press_tie(t, KeySymbol::spec_new(symbol, key, slot.0)),
        None => Seq::empty(),
    }
}

/// The ties of the base pass: the characters for which a press was offered
/// that is as good as the press kept, once for each such press.
pub open spec fn base_ties(keymap: Seq<(PhysicalKey, ModMapping)>) -> Seq<char> {
    press_ties(BaseTables { base: Seq::empty(), dead: Seq::empty() }, presses(keymap))
}

/// The ties of two lists of presses taken in one after the other are the
/// ties of the two as one list.
pub proof fn lemma_press_ties_concat(t: BaseTables, first: Seq<KeySymbol>, second: Seq<KeySymbol>)
    ensures
        press_ties(t, first + second) == press_ties(t, first) + press_ties(
            register_all(t, first),
            second,
        ),
    decreases second.len(),
{
    if second.len() == 0 {
        assert(first + second =~= first);
        assert(press_ties(t, first) + Seq::<char>::empty() =~= press_ties(t, first));
    } else {
        lemma_press_ties_concat(t, first, second.drop_last());
        lemma_register_concat(t, first, second.drop_last());
        assert((first + second).drop_last() =~= first + second.drop_last());
        assert((first + second).last() == second.last());
        let tie = press_tie(register_all(t, first + second.drop_last()), second.last());
        assert((press_ties(t, first) + press_ties(register_all(t, first), second.drop_last())) + tie
            =~= press_ties(t, first) + (press_ties(register_all(t, first), second.drop_last())
            + tie));
    }
}

/// The tie of a slot is the tie of its presses.
pub proof fn lemma_slot_tie(t: BaseTables, key: PhysicalKey, slot: (Mod, Option<Symbol>))
    ensures
        slot_tie(t, key, slot) == press_ties(t, slot_presses(key, slot)),
{
    let offered = slot_presses(key, slot);
    if offered.len() > 0 {
        assert(offered.drop_last().len() == 0);
        assert(register_all(t, offered.drop_last()) == t);
        assert(press_ties(t, offered.drop_last()) =~= Seq::<char>::empty());
        assert(Seq::<char>::empty() + press_tie(t, offered.last()) =~= press_tie(t, offered.last()));
    }
}

/// The ties of the four slots of a key, met one after the other, are the
/// ties of the presses of the key.
pub proof fn lemma_key_ties(t: BaseTables, key: PhysicalKey, mapping: ModMapping)
    ensures
        ({
            let after_base = register_all(t, slot_presses(key, mapping.map[0]));
            let after_shift = register_all(after_base, slot_presses(key, mapping.map[1]));
            let after_altgr = register_all(after_shift, slot_presses(key, mapping.map[2]));
            slot_tie(t, key, mapping.map[0]) + slot_tie(after_base, key, mapping.map[1]) + slot_tie(
                after_shift,
                key,
                mapping.map[2],
            ) + slot_tie(after_altgr, key, mapping.map[3]) == press_ties(t, key_presses(key, mapping))
        }),
{
    let base = slot_presses(key, mapping.map[0]);
    let shift = slot_presses(key, mapping.map[1]);
    let altgr = slot_presses(key, mapping.map[2]);
    let both = slot_presses(key, mapping.map[3]);
    let after_base = register_all(t, base);
    let after_shift = register_all(after_base, shift);
    let after_altgr = register_all(after_shift, altgr);
    lemma_slot_tie(t, key, mapping.map[0]);
    lemma_slot_tie(after_base, key, mapping.map[1]);
    lemma_slot_tie(after_shift, key, mapping.map[2]);
    lemma_slot_tie(after_altgr, key, mapping.map[3]);
    lemma_register_concat(t, base, shift);
    lemma_register_concat(t, base + shift, altgr);
    lemma_press_ties_concat(t, base, shift);
    lemma_press_ties_concat(t, base + shift, altgr);
    lemma_press_ties_concat(t, base + shift + altgr, both);
}

/// The output of a pair whose sequence ties with the sequence kept for the
/// output.
pub open spec fn pair_tie(
    base: Seq<(char, KeySymbol)>,
    name: char,
    prefix: Seq<KeySymbol>,
    r: Resolution,
    pair: (Symbol, Symbol),
) -> Seq<Symbol> {
    match trigger_keysym(base, name, prefix, pair.0) {
        None => Seq::empty(),
        Some(trigger) => {
            let candidate = prefix.push(step_press(pair.1, trigger));
            let kept = match pair.1 {
                Symbol::Character(c) => assoc_get(r.chars, c),
                Symbol::DeadKey(c) => assoc_get(r.dead, c),
            };
            match kept {
                Some(sequence) => if equally_good(candidate, sequence) {
                    seq![pair.1]
                } else {
                    Seq::empty()
                },
                None => Seq::empty(),
            }
        },
    }
}

/// The ties met while the pairs of a layer are expanded in their order.
pub open spec fn layer_ties(
    base: Seq<(char, KeySymbol)>,
    name: char,
    prefix: Seq<KeySymbol>,
    r: Resolution,
    layer: Seq<(Symbol, Symbol)>,
) -> Seq<Symbol>
    decreases layer.len(),
{
    if layer.len() == 0 {
        Seq::empty()
    } else {
        layer_ties(base, name, prefix, r, layer.drop_last()) + pair_tie(
            base,
            name,
            prefix,
            expand_layer(base, name, prefix, r, layer.drop_last()),
            layer.last(),
        )
    }
}

/// The ties met in one step of expansion.
pub open spec fn step_ties(base: Seq<(char, KeySymbol)>, layers: Layers, r: Resolution) -> Seq<Symbol> {
    if r.worklist.len() == 0 {
        Seq::empty()
    } else {
        let name = r.worklist.last();
        let popped = Resolution { worklist: r.worklist.drop_last(), dead: r.dead, chars: r.chars };
        match (assoc_get(layers, DeadKey { name }), assoc_get(r.dead, name)) {
            (Some(layer), Some(prefix)) => layer_ties(base, name, prefix, popped, layer),
            _ => Seq::empty(),
        }
    }
}

/// The ties met in `n` steps of expansion.
pub open spec fn steps_ties(base: Seq<(char, KeySymbol)>, layers: Layers, r: Resolution, n: nat) -> Seq<
    Symbol,
>
    decreases n,
{
    if n == 0 {
        Seq::empty()
    } else {
        steps_ties(base, layers, r, (n - 1) as nat) + step_ties(
            base,
            layers,
            expand_steps(base, layers, r, (n - 1) as nat),
        )
    }
}

/// The ties of expansion: the outputs for which a sequence was found that
/// is as good as the sequence kept, once for each such sequence.
pub open spec fn expansion_ties(keymap: Seq<(PhysicalKey, ModMapping)>, layers: Layers) -> Seq<Symbol> {
    let tables = base_pass(keymap);
    let start = initial_resolution(tables, layers);
    let n = choose|n: nat| expand_steps(tables.base, layers, start, n).worklist.len() == 0;
    steps_ties(tables.base, layers, start, n)
}

proof fn lemma_ties_after_end(base: Seq<(char, KeySymbol)>, layers: Layers, r: Resolution, n: nat, m: nat)
    requires
        expand_steps(base, layers, r, n).worklist.len() == 0,
        n <= m,
    ensures
        expand_steps(base, layers, r, m) == expand_steps(base, layers, r, n),
        steps_ties(base, layers, r, m) == steps_ties(base, layers, r, n),
    decreases m - n,
{
    if n < m {
        lemma_ties_after_end(base, layers, r, n, (m - 1) as nat);
        assert(steps_ties(base, layers, r, n) + Seq::<Symbol>::empty() =~= steps_ties(
            base,
            layers,
            r,
            n,
        ));
    }
}

/// Once expansion has ended no further tie is met, so the ties of
/// expansion do not depend on how many steps were counted.
pub proof fn lemma_ties_end_once(base: Seq<(char, KeySymbol)>, layers: Layers, r: Resolution, n: nat, m: nat)
    requires
        expand_steps(base, layers, r, n).worklist.len() == 0,
        expand_steps(base, layers, r, m).worklist.len() == 0,
    ensures
        steps_ties(base, layers, r, n) == steps_ties(base, layers, r, m),
{
    if n <= m {
        lemma_ties_after_end(base, layers, r, n, m);
    } else {
        lemma_ties_after_end(base, layers, r, m, n);
    }
}

} // verus!
