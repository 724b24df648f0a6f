//! What resolution guarantees for the characters that stand on a key.

use crate::assoc::{
    assoc_get, assoc_insert, distinct_keys, has_key, lemma_distinct_get, lemma_get_drop_last,
    lemma_has_key, lemma_insert_distinct, lemma_insert_get,
};
use crate::kalamine::{DeadKey, ModMapping, PhysicalKey, Symbol};
use crate::keyseq::{spec_is_better_keysym, KeySymbol};
use crate::resolution::{
    all_nonempty, base_pass, expand_layer, expand_steps, initial_resolution,
    lemma_base_pass_nonempty, lemma_expand_step_advances, lemma_get_nonempty, merge_base, presses,
    register_all, resolve, trigger_keysym, BaseTables, KeySeqs, Layers, Resolution,
};
use vstd::prelude::*;

verus! {

/// The press gives the character `c`.
pub open spec fn gives(ks: KeySymbol, c: char) -> bool {
    !ks.dead_key && ks.name == c
}

/// The press at `p` is the best of the presses offered for the character
/// `c`: it is better than every press for `c` offered before it, and no
/// press for `c` offered after it is better.
pub open spec fn is_best_press_at(offered: Seq<KeySymbol>, c: char, p: int) -> bool {
    &&& 0 <= p < offered.len()
    &&& gives(offered[p], c)
    &&& forall|q: int|
        0 <= q < p && gives(#[trigger] offered[q], c) ==> spec_is_better_keysym(
            offered[p],
            Some(offered[q]),
        )
    &&& forall|q: int|
        p < q < offered.len() && gives(#[trigger] offered[q], c) ==> !spec_is_better_keysym(
            offered[q],
            Some(offered[p]),
        )
}

/// `ks` is the best of the presses offered for the character `c`.
pub open spec fn is_best_press(offered: Seq<KeySymbol>, c: char, ks: KeySymbol) -> bool {
    exists|p: int| #[trigger] is_best_press_at(offered, c, p) && offered[p] == ks
}

/// No press is offered for the character `c`.
pub open spec fn not_offered(offered: Seq<KeySymbol>, c: char) -> bool {
    forall|q: int| 0 <= q < offered.len() ==> !gives(#[trigger] offered[q], c)
}

/// The base pass keeps for each character the best press offered for it,
/// and nothing for a character that no press is offered for. Its tables
/// hold no key twice.
pub proof fn lemma_best_press_kept(offered: Seq<KeySymbol>, c: char)
    ensures
        ({
            let t = register_all(BaseTables { base: Seq::empty(), dead: Seq::empty() }, offered);
            &&& distinct_keys(t.base)
            &&& distinct_keys(t.dead)
            &&& match assoc_get(t.base, c) {
                Some(ks) => is_best_press(offered, c, ks),
                None => not_offered(offered, c),
            }
        }),
    decreases offered.len(),
{
    let empty = BaseTables { base: Seq::empty(), dead: Seq::empty() };
    let t = register_all(empty, offered);
    if offered.len() == 0 {
        assert(!has_key(t.base, c));
    } else {
        let front = offered.drop_last();
        let last = offered.last();
        let before = register_all(empty, front);
        lemma_best_press_kept(front, c);
        assert forall|q: int| 0 <= q < front.len() implies #[trigger] front[q] == offered[q] by {}
        if last.dead_key {
            lemma_insert_distinct(before.dead, last.name, seq![last]);
        } else if spec_is_better_keysym(last, assoc_get(before.base, last.name)) {
            lemma_insert_distinct(before.base, last.name, last);
            lemma_insert_get(before.base, last.name, last, c);
        }
        match assoc_get(before.base, c) {
            Some(old) => {
                let p = choose|p: int| #[trigger] is_best_press_at(front, c, p) && front[p] == old;
                if gives(last, c) && spec_is_better_keysym(last, Some(old)) {
                    let n = offered.len() - 1;
                    assert(is_best_press_at(offered, c, n)) by {
                        assert forall|q: int| 0 <= q < n && gives(#[trigger] offered[q], c) implies spec_is_better_keysym(
                            offered[n],
                            Some(offered[q]),
                        ) by {
                            assert(front[q] == offered[q]);
                            if q < p {
                                assert(spec_is_better_keysym(old, Some(front[q])));
                            } else if q > p {
                                assert(!spec_is_better_keysym(front[q], Some(old)));
                            }
                        }
                    }
                } else {
                    assert(is_best_press_at(offered, c, p)) by {
                        assert forall|q: int| 0 <= q < p && gives(#[trigger] offered[q], c) implies spec_is_better_keysym(
                            offered[p],
                            Some(offered[q]),
                        ) by {
                            assert(front[q] == offered[q]);
                        }
                        assert forall|q: int|
                            p < q < offered.len() && gives(
                                #[trigger] offered[q],
                                c,
                            ) implies !spec_is_better_keysym(offered[q], Some(offered[p])) by {
                            if q < front.len() {
                                assert(front[q] == offered[q]);
                            }
                        }
                    }
                }
            },
            None => {
                if gives(last, c) {
                    let n = offered.len() - 1;
                    assert(is_best_press_at(offered, c, n)) by {
                        assert forall|q: int| 0 <= q < n implies !gives(#[trigger] offered[q], c) by {
                            assert(front[q] == offered[q]);
                        }
                    }
                } else {
                    assert forall|q: int| 0 <= q < offered.len() implies !gives(
                        #[trigger] offered[q],
                        c,
                    ) by {
                        if q < front.len() {
                            assert(front[q] == offered[q]);
                        }
                    }
                }
            },
        }
    }
}

/// After the merge a character of the base pass has its one press, and
/// every other character what it had.
pub proof fn lemma_merge_base(chars: KeySeqs, base: Seq<(char, KeySymbol)>, c: char)
    requires
        distinct_keys(base),
    ensures
        assoc_get(merge_base(chars, base), c) == match assoc_get(base, c) {
            Some(ks) => Some(seq![ks]),
            None => assoc_get(chars, c),
        },
    decreases base.len(),
{
    if base.len() == 0 {
        assert(!has_key(base, c));
    } else {
        let front = base.drop_last();
        let last = base.last();
        assert forall|i: int, j: int| 0 <= i < j < front.len() implies (#[trigger] front[i]).0 != (
        #[trigger] front[j]).0 by {
            assert(front[i] == base[i]);
            assert(front[j] == base[j]);
        }
        lemma_merge_base(chars, front, c);
        lemma_insert_get(merge_base(chars, front), last.0, seq![last.1], c);
        if c == last.0 {
            lemma_distinct_get(base, base.len() - 1);
        } else {
            lemma_get_drop_last(base, c);
        }
    }
}

/// Every sequence of the table has at least two presses.
pub open spec fn all_long(seqs: KeySeqs) -> bool {
    forall|i: int| 0 <= i < seqs.len() ==> (#[trigger] seqs[i]).1.len() >= 2
}

proof fn lemma_insert_long(seqs: KeySeqs, c: char, candidate: Seq<KeySymbol>)
    requires
        all_long(seqs),
        candidate.len() >= 2,
    ensures
        all_long(assoc_insert(seqs, c, candidate)),
{
    let after = assoc_insert(seqs, c, candidate);
    if has_key(seqs, c) {
        lemma_has_key(seqs, c);
    }
    assert forall|i: int| 0 <= i < after.len() implies (#[trigger] after[i]).1.len() >= 2 by {
        if i < seqs.len() && after[i] != (c, candidate) {
            assert(after[i] == seqs[i]);
        }
    }
}

proof fn lemma_expand_layer_long(
    base: Seq<(char, KeySymbol)>,
    name: char,
    prefix: Seq<KeySymbol>,
    r: Resolution,
    layer: Seq<(Symbol, Symbol)>,
)
    requires
        all_long(r.chars),
        prefix.len() > 0,
    ensures
        all_long(expand_layer(base, name, prefix, r, layer).chars),
    decreases layer.len(),
{
    if layer.len() > 0 {
        lemma_expand_layer_long(base, name, prefix, r, layer.drop_last());
        let mid = expand_layer(base, name, prefix, r, layer.drop_last());
        let pair = layer.last();
        match trigger_keysym(base, name, prefix, pair.0) {
            None => {},
            Some(trigger) => match pair.1 {
                Symbol::Character(c) => {
                    lemma_insert_long(mid.chars, c, prefix.push(trigger));
                },
                Symbol::DeadKey(c) => {},
            },
        }
    }
}

/// What dead keys give takes at least two presses, however far expansion
/// has come.
pub proof fn lemma_expansion_long(base: Seq<(char, KeySymbol)>, layers: Layers, r: Resolution, n: nat)
    requires
        all_long(r.chars),
        all_nonempty(r.dead),
    ensures
        all_long(expand_steps(base, layers, r, n).chars),
        all_nonempty(expand_steps(base, layers, r, n).dead),
    decreases n,
{
    if n > 0 {
        lemma_expansion_long(base, layers, r, (n - 1) as nat);
        let before = expand_steps(base, layers, r, (n - 1) as nat);
        if before.worklist.len() > 0 {
            lemma_expand_step_advances(base, layers, before);
            let name = before.worklist.last();
            let popped = Resolution {
                worklist: before.worklist.drop_last(),
                dead: before.dead,
                chars: before.chars,
            };
            match (assoc_get(layers, DeadKey { name }), assoc_get(before.dead, name)) {
                (Some(layer), Some(prefix)) => {
                    lemma_get_nonempty(before.dead, name);
                    lemma_expand_layer_long(base, name, prefix, popped, layer);
                },
                _ => {},
            }
        }
    }
}

/// A character that stands on a key is resolved to one press: the best of
/// the presses that the keymap offers for it, whatever the dead keys give.
/// A character that stands on no key is resolved to two presses or more, or
/// not at all.
pub proof fn lemma_character_on_a_key(keymap: Seq<(PhysicalKey, ModMapping)>, layers: Layers, c: char)
    ensures
        match assoc_get(base_pass(keymap).base, c) {
            Some(ks) => is_best_press(presses(keymap), c, ks) && assoc_get(resolve(keymap, layers), c)
                == Some(seq![ks]),
            None => not_offered(presses(keymap), c) && (assoc_get(resolve(keymap, layers), c) matches Some(
                s,
            ) ==> s.len() >= 2),
        },
{
    let tables = base_pass(keymap);
    let start = initial_resolution(tables, layers);
    let n = choose|n: nat| expand_steps(tables.base, layers, start, n).worklist.len() == 0;
    let ended = expand_steps(tables.base, layers, start, n);
    lemma_best_press_kept(presses(keymap), c);
    lemma_merge_base(ended.chars, tables.base, c);
    lemma_base_pass_nonempty(keymap);
    lemma_expansion_long(tables.base, layers, start, n);
    if has_key(ended.chars, c) {
        lemma_has_key(ended.chars, c);
    }
}

proof fn lemma_expand_layer_distinct(
    base: Seq<(char, KeySymbol)>,
    name: char,
    prefix: Seq<KeySymbol>,
    r: Resolution,
    layer: Seq<(Symbol, Symbol)>,
)
    requires
        distinct_keys(r.dead),
        distinct_keys(r.chars),
    ensures
        distinct_keys(expand_layer(base, name, prefix, r, layer).dead),
        distinct_keys(expand_layer(base, name, prefix, r, layer).chars),
    decreases layer.len(),
{
    if layer.len() > 0 {
        lemma_expand_layer_distinct(base, name, prefix, r, layer.drop_last());
        let mid = expand_layer(base, name, prefix, r, layer.drop_last());
        let pair = layer.last();
        match trigger_keysym(base, name, prefix, pair.0) {
            None => {},
            Some(trigger) => match pair.1 {
                Symbol::Character(c) => {
                    lemma_insert_distinct(mid.chars, c, prefix.push(trigger));
                },
                Symbol::DeadKey(c) => {
                    lemma_insert_distinct(
                        mid.dead,
                        c,
                        prefix.push(KeySymbol::spec_new(pair.1, trigger.key, trigger.modifier)),
                    );
                },
            },
        }
    }
}

proof fn lemma_expansion_distinct(base: Seq<(char, KeySymbol)>, layers: Layers, r: Resolution, n: nat)
    requires
        distinct_keys(r.dead),
        distinct_keys(r.chars),
    ensures
        distinct_keys(expand_steps(base, layers, r, n).dead),
        distinct_keys(expand_steps(base, layers, r, n).chars),
    decreases n,
{
    if n > 0 {
        lemma_expansion_distinct(base, layers, r, (n - 1) as nat);
        let before = expand_steps(base, layers, r, (n - 1) as nat);
        if before.worklist.len() > 0 {
            let name = before.worklist.last();
            let popped = Resolution {
                worklist: before.worklist.drop_last(),
                dead: before.dead,
                chars: before.chars,
            };
            match (assoc_get(layers, DeadKey { name }), assoc_get(before.dead, name)) {
                (Some(layer), Some(prefix)) => {
                    lemma_expand_layer_distinct(base, name, prefix, popped, layer);
                },
                _ => {},
            }
        }
    }
}

proof fn lemma_merge_distinct(chars: KeySeqs, base: Seq<(char, KeySymbol)>)
    requires
        distinct_keys(chars),
    ensures
        distinct_keys(merge_base(chars, base)),
    decreases base.len(),
{
    if base.len() > 0 {
        lemma_merge_distinct(chars, base.drop_last());
        lemma_insert_distinct(merge_base(chars, base.drop_last()), base.last().0, seq![base.last().1]);
    }
}

/// Resolution gives no character two sequences.
pub proof fn lemma_resolve_distinct(keymap: Seq<(PhysicalKey, ModMapping)>, layers: Layers)
    ensures
        distinct_keys(resolve(keymap, layers)),
{
    let tables = base_pass(keymap);
    let start = initial_resolution(tables, layers);
    let n = choose|n: nat| expand_steps(tables.base, layers, start, n).worklist.len() == 0;
    lemma_best_press_kept(presses(keymap), 'a');
    lemma_expansion_distinct(tables.base, layers, start, n);
    lemma_merge_distinct(expand_steps(tables.base, layers, start, n).chars, tables.base);
}

} // verus!
