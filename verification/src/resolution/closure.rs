//! When expansion ends nothing is left to do: no pair of the layer of a
//! dead key gives a sequence that is better than the sequence kept.

use crate::assoc::{assoc_get, assoc_insert, has_key, lemma_has_key, lemma_insert_get};
use crate::kalamine::{DeadKey, ModMapping, PhysicalKey, Symbol};
use crate::keyseq::{spec_is_better_keyseq, KeySymbol};
use crate::resolution::laws::{lemma_best_press_kept, lemma_expansion_long, lemma_merge_base};
use crate::resolution::soundness::step_press;
use crate::resolution::{
    base_pass, expand_layer, expand_pair, expand_step, expand_steps, expansion_end,
    initial_resolution, layer_names, lemma_base_pass_nonempty, lemma_get_nonempty, lemma_resolution_ends, merge_base,
    presses, resolve, trigger_keysym, KeySeqs, Layers, Resolution,
};
use vstd::prelude::*;

verus! {

/// The pair of the layer of the dead key `name` is settled: the sequence
/// that it gives after `prefix` is not better than the sequence kept for
/// its output. A pair whose trigger cannot be pressed is settled.
pub open spec fn pair_settled(
    base: Seq<(char, KeySymbol)>,
    name: char,
    prefix: Seq<KeySymbol>,
    pair: (Symbol, Symbol),
    dead: KeySeqs,
    chars: KeySeqs,
) -> bool {
    match trigger_keysym(base, name, prefix, pair.0) {
        None => true,
        Some(trigger) => {
            let candidate = prefix.push(step_press(pair.1, trigger));
            match pair.1 {
                Symbol::Character(c) => !spec_is_better_keyseq(candidate, assoc_get(chars, c)),
                Symbol::DeadKey(c) => !spec_is_better_keyseq(candidate, assoc_get(dead, c)),
            }
        },
    }
}

/// The dead key `name` is expanded: every pair of its layer is settled
/// after the sequence kept for the dead key. A dead key without a layer or
/// without a sequence has nothing to expand.
pub open spec fn expanded(
    base: Seq<(char, KeySymbol)>,
    layers: Layers,
    name: char,
    dead: KeySeqs,
    chars: KeySeqs,
) -> bool {
    match (assoc_get(layers, DeadKey { name }), assoc_get(dead, name)) {
        (Some(layer), Some(prefix)) => forall|j: int|
            0 <= j < layer.len() ==> pair_settled(base, name, prefix, #[trigger] layer[j], dead, chars),
        _ => true,
    }
}

/// Every dead key that does not wait on the worklist is expanded.
pub open spec fn expanded_but_worklist(base: Seq<(char, KeySymbol)>, layers: Layers, r: Resolution) -> bool {
    forall|name: char|
        !r.worklist.contains(name) ==> #[trigger] expanded(base, layers, name, r.dead, r.chars)
}

/// What is kept for `c` after is at least as good as what was kept before.
pub open spec fn kept_no_worse(after: KeySeqs, before: KeySeqs, c: char) -> bool {
    match assoc_get(before, c) {
        Some(old) => match assoc_get(after, c) {
            Some(new) => !spec_is_better_keyseq(old, Some(new)),
            None => false,
        },
        None => true,
    }
}

/// Every sequence of the table after is at least as good as before.
pub open spec fn no_worse(after: KeySeqs, before: KeySeqs) -> bool {
    forall|c: char| #[trigger] kept_no_worse(after, before, c)
}

/// From `before` to `after` sequences only got better, the worklist only
/// grew, and every dead key whose sequence changed waits on the worklist.
pub open spec fn progressed(after: Resolution, before: Resolution) -> bool {
    &&& no_worse(after.dead, before.dead)
    &&& no_worse(after.chars, before.chars)
    &&& forall|x: char| before.worklist.contains(x) ==> #[trigger] after.worklist.contains(x)
    &&& forall|m: char|
        #[trigger] assoc_get(after.dead, m) != assoc_get(before.dead, m) ==> after.worklist.contains(m)
}

proof fn lemma_insert_no_worse(seqs: KeySeqs, c: char, candidate: Seq<KeySymbol>)
    requires
        spec_is_better_keyseq(candidate, assoc_get(seqs, c)),
    ensures
        no_worse(assoc_insert(seqs, c, candidate), seqs),
        forall|m: char| m != c ==> #[trigger] assoc_get(assoc_insert(seqs, c, candidate), m) == assoc_get(seqs, m),
        assoc_get(assoc_insert(seqs, c, candidate), c) == Some(candidate),
{
    let after = assoc_insert(seqs, c, candidate);
    assert forall|m: char| #[trigger] kept_no_worse(after, seqs, m) by {
        lemma_insert_get(seqs, c, candidate, m);
    }
    assert forall|m: char| m != c implies #[trigger] assoc_get(after, m) == assoc_get(seqs, m) by {
        lemma_insert_get(seqs, c, candidate, m);
    }
    lemma_insert_get(seqs, c, candidate, c);
}

proof fn lemma_no_worse_reflexive(seqs: KeySeqs)
    ensures
        no_worse(seqs, seqs),
{
    assert forall|c: char| #[trigger] kept_no_worse(seqs, seqs, c) by {}
}

proof fn lemma_no_worse_transitive(a: KeySeqs, b: KeySeqs, c: KeySeqs)
    requires
        no_worse(a, b),
        no_worse(b, c),
    ensures
        no_worse(a, c),
{
    assert forall|x: char| #[trigger] kept_no_worse(a, c, x) by {
        assert(kept_no_worse(a, b, x));
        assert(kept_no_worse(b, c, x));
    }
}

/// A settled pair stays settled while sequences only get better.
proof fn lemma_settled_stays(
    base: Seq<(char, KeySymbol)>,
    name: char,
    prefix: Seq<KeySymbol>,
    pair: (Symbol, Symbol),
    before: Resolution,
    after: Resolution,
)
    requires
        pair_settled(base, name, prefix, pair, before.dead, before.chars),
        no_worse(after.dead, before.dead),
        no_worse(after.chars, before.chars),
    ensures
        pair_settled(base, name, prefix, pair, after.dead, after.chars),
{
    match trigger_keysym(base, name, prefix, pair.0) {
        None => {},
        Some(trigger) => {
            match pair.1 {
                Symbol::Character(c) => {
                    assert(kept_no_worse(after.chars, before.chars, c));
                },
                Symbol::DeadKey(c) => {
                    assert(kept_no_worse(after.dead, before.dead, c));
                },
            }
        },
    }
}

/// Expanding a pair settles it, and is progress.
proof fn lemma_expand_pair_progress(
    base: Seq<(char, KeySymbol)>,
    name: char,
    prefix: Seq<KeySymbol>,
    r: Resolution,
    pair: (Symbol, Symbol),
)
    ensures
        progressed(expand_pair(base, name, prefix, r, pair), r),
        pair_settled(
            base,
            name,
            prefix,
            pair,
            expand_pair(base, name, prefix, r, pair).dead,
            expand_pair(base, name, prefix, r, pair).chars,
        ),
{
    let after = expand_pair(base, name, prefix, r, pair);
    lemma_no_worse_reflexive(r.dead);
    lemma_no_worse_reflexive(r.chars);
    match trigger_keysym(base, name, prefix, pair.0) {
        None => {},
        Some(trigger) => {
            let candidate = prefix.push(step_press(pair.1, trigger));
            match pair.1 {
                Symbol::Character(c) => {
                    if spec_is_better_keyseq(candidate, assoc_get(r.chars, c)) {
                        lemma_insert_no_worse(r.chars, c, candidate);
                    }
                },
                Symbol::DeadKey(c) => {
                    if spec_is_better_keyseq(candidate, assoc_get(r.dead, c)) {
                        lemma_insert_no_worse(r.dead, c, candidate);
                        if !r.worklist.contains(c) {
                            let grown = r.worklist.push(c);
                            assert(grown[grown.len() - 1] == c);
                            assert forall|x: char| r.worklist.contains(x) implies #[trigger] grown.contains(
                                x,
                            ) by {
                                let i = choose|i: int| 0 <= i < r.worklist.len() && r.worklist[i] == x;
                                assert(grown[i] == x);
                            }
                        }
                    }
                },
            }
        },
    }
}

proof fn lemma_progress_transitive(a: Resolution, b: Resolution, c: Resolution)
    requires
        progressed(a, b),
        progressed(b, c),
    ensures
        progressed(a, c),
{
    lemma_no_worse_transitive(a.dead, b.dead, c.dead);
    lemma_no_worse_transitive(a.chars, b.chars, c.chars);
    assert forall|x: char| c.worklist.contains(x) implies #[trigger] a.worklist.contains(x) by {
        assert(b.worklist.contains(x));
    }
    assert forall|m: char| #[trigger] assoc_get(a.dead, m) != assoc_get(c.dead, m) implies a.worklist.contains(
        m,
    ) by {
        if assoc_get(b.dead, m) != assoc_get(c.dead, m) {
            assert(b.worklist.contains(m));
        }
    }
}

/// Expanding the first `k` pairs of a layer settles them, and is progress.
proof fn lemma_expand_layer_progress(
    base: Seq<(char, KeySymbol)>,
    name: char,
    prefix: Seq<KeySymbol>,
    r: Resolution,
    layer: Seq<(Symbol, Symbol)>,
    k: int,
)
    requires
        0 <= k <= layer.len(),
    ensures
        progressed(expand_layer(base, name, prefix, r, layer.take(k)), r),
        forall|j: int|
            0 <= j < k ==> pair_settled(
                base,
                name,
                prefix,
                #[trigger] layer[j],
                expand_layer(base, name, prefix, r, layer.take(k)).dead,
                expand_layer(base, name, prefix, r, layer.take(k)).chars,
            ),
    decreases k,
{
    if k == 0 {
        lemma_no_worse_reflexive(r.dead);
        lemma_no_worse_reflexive(r.chars);
    } else {
        lemma_expand_layer_progress(base, name, prefix, r, layer, k - 1);
        assert(layer.take(k).drop_last() =~= layer.take(k - 1));
        assert(layer.take(k).last() == layer[k - 1]);
        let mid = expand_layer(base, name, prefix, r, layer.take(k - 1));
        let after = expand_layer(base, name, prefix, r, layer.take(k));
        lemma_expand_pair_progress(base, name, prefix, mid, layer[k - 1]);
        lemma_progress_transitive(after, mid, r);
        assert forall|j: int| 0 <= j < k implies pair_settled(
            base,
            name,
            prefix,
            #[trigger] layer[j],
            after.dead,
            after.chars,
        ) by {
            if j < k - 1 {
                lemma_settled_stays(base, name, prefix, layer[j], mid, after);
            }
        }
    }
}

/// A step of expansion leaves every dead key expanded that does not wait on
/// the worklist.
pub proof fn lemma_expand_step_expanded(base: Seq<(char, KeySymbol)>, layers: Layers, r: Resolution)
    requires
        expanded_but_worklist(base, layers, r),
    ensures
        expanded_but_worklist(base, layers, expand_step(base, layers, r)),
{
    if r.worklist.len() > 0 {
        let after = expand_step(base, layers, r);
        let name = r.worklist.last();
        let popped = Resolution { worklist: r.worklist.drop_last(), dead: r.dead, chars: r.chars };
        assert forall|x: char| !after.worklist.contains(x) implies #[trigger] expanded(
            base,
            layers,
            x,
            after.dead,
            after.chars,
        ) by {
            match (assoc_get(layers, DeadKey { name }), assoc_get(r.dead, name)) {
                (Some(layer), Some(prefix)) => {
                    lemma_expand_layer_progress(base, name, prefix, popped, layer, layer.len() as int);
                    assert(layer.take(layer.len() as int) =~= layer);
                    assert(progressed(after, popped));
                    assert(assoc_get(after.dead, x) == assoc_get(popped.dead, x));
                    if x != name {
                        lemma_waits(r.worklist, x);
                        assert(expanded(base, layers, x, r.dead, r.chars));
                        match (assoc_get(layers, DeadKey { name: x }), assoc_get(r.dead, x)) {
                            (Some(other), Some(kept)) => {
                                assert forall|j: int| 0 <= j < other.len() implies pair_settled(
                                    base,
                                    x,
                                    kept,
                                    #[trigger] other[j],
                                    after.dead,
                                    after.chars,
                                ) by {
                                    lemma_settled_stays(base, x, kept, other[j], popped, after);
                                }
                            },
                            _ => {},
                        }
                    }
                },
                _ => {
                    if x != name {
                        lemma_waits(r.worklist, x);
                    }
                },
            }
        }
    }
}

/// What waits on a worklist waits on it without its last entry, or is its
/// last entry.
proof fn lemma_waits(worklist: Seq<char>, x: char)
    requires
        worklist.len() > 0,
    ensures
        worklist.contains(x) <==> worklist.drop_last().contains(x) || worklist.last() == x,
{
    let front = worklist.drop_last();
    if worklist.contains(x) {
        let i = choose|i: int| 0 <= i < worklist.len() && worklist[i] == x;
        if i < front.len() {
            assert(front[i] == x);
        }
    }
    if front.contains(x) {
        let i = choose|i: int| 0 <= i < front.len() && front[i] == x;
        assert(worklist[i] == x);
    }
    if worklist.last() == x {
        assert(worklist[worklist.len() - 1] == x);
    }
}

/// However far expansion has come, every dead key that does not wait on
/// the worklist is expanded.
pub proof fn lemma_expansion_expanded(base: Seq<(char, KeySymbol)>, layers: Layers, r: Resolution, n: nat)
    requires
        expanded_but_worklist(base, layers, r),
    ensures
        expanded_but_worklist(base, layers, expand_steps(base, layers, r, n)),
    decreases n,
{
    if n > 0 {
        lemma_expansion_expanded(base, layers, r, (n - 1) as nat);
        lemma_expand_step_expanded(base, layers, expand_steps(base, layers, r, (n - 1) as nat));
    }
}

/// Where expansion ends, every dead key is expanded: after the sequence
/// kept for a dead key no pair of its layer gives a sequence that is
/// better than the sequence kept for the output of the pair. So every
/// output of such a pair has a sequence.
pub proof fn lemma_expansion_complete(keymap: Seq<(PhysicalKey, ModMapping)>, layers: Layers, name: char)
    ensures
        expansion_end(keymap, layers).worklist.len() == 0,
        expanded(
            base_pass(keymap).base,
            layers,
            name,
            expansion_end(keymap, layers).dead,
            expansion_end(keymap, layers).chars,
        ),
{
    let tables = base_pass(keymap);
    let start = initial_resolution(tables, layers);
    lemma_resolution_ends(keymap, layers);
    let n = choose|n: nat| expand_steps(tables.base, layers, start, n).worklist.len() == 0;
    assert forall|x: char| !start.worklist.contains(x) implies #[trigger] expanded(
        tables.base,
        layers,
        x,
        start.dead,
        start.chars,
    ) by {
        if has_key(layers, DeadKey { name: x }) {
            lemma_has_key(layers, DeadKey { name: x });
            let i = crate::assoc::first_index(layers, DeadKey { name: x });
            assert(layer_names(layers)[i] == x);
        }
    }
    lemma_expansion_expanded(tables.base, layers, start, n);
    let ended = expand_steps(tables.base, layers, start, n);
    assert(!ended.worklist.contains(name));
}

/// A character that a dead key gives is resolved, and to a sequence at
/// least as good as the one through that dead key: where the dead key
/// `name` has a sequence and the pair at `j` of its layer gives the
/// character `c` for a trigger that can be pressed, resolution gives `c` a
/// sequence, and the sequence of the dead key with the trigger is not
/// better than it.
pub proof fn lemma_character_of_a_dead_key(
    keymap: Seq<(PhysicalKey, ModMapping)>,
    layers: Layers,
    name: char,
    j: int,
    c: char,
)
    requires
        assoc_get(layers, DeadKey { name }) matches Some(layer) && 0 <= j < layer.len() && layer[j].1
            == Symbol::Character(c),
        assoc_get(expansion_end(keymap, layers).dead, name) is Some,
        trigger_keysym(
            base_pass(keymap).base,
            name,
            assoc_get(expansion_end(keymap, layers).dead, name)->Some_0,
            assoc_get(layers, DeadKey { name })->Some_0[j].0,
        ) is Some,
    ensures
        ({
            let prefix = assoc_get(expansion_end(keymap, layers).dead, name)->Some_0;
            let trigger = trigger_keysym(
                base_pass(keymap).base,
                name,
                prefix,
                assoc_get(layers, DeadKey { name })->Some_0[j].0,
            )->Some_0;
            &&& assoc_get(resolve(keymap, layers), c) is Some
            &&& !spec_is_better_keyseq(prefix.push(trigger), assoc_get(resolve(keymap, layers), c))
        }),
{
    let ended = expansion_end(keymap, layers);
    let layer = assoc_get(layers, DeadKey { name })->Some_0;
    let prefix = assoc_get(ended.dead, name)->Some_0;
    lemma_expansion_complete(keymap, layers, name);
    assert(pair_settled(base_pass(keymap).base, name, prefix, layer[j], ended.dead, ended.chars));
    lemma_best_press_kept(presses(keymap), c);
    lemma_merge_base(ended.chars, base_pass(keymap).base, c);
    lemma_base_pass_nonempty(keymap);
    let tables = base_pass(keymap);
    let start = initial_resolution(tables, layers);
    let n = choose|n: nat| expand_steps(tables.base, layers, start, n).worklist.len() == 0;
    lemma_expansion_long(tables.base, layers, start, n);
    lemma_get_nonempty(ended.dead, name);
    assert(resolve(keymap, layers) == merge_base(ended.chars, tables.base));
}

} // verus!
