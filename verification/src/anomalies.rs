//! What is amiss in a layout. None of it stops resolution: the pair of a
//! layer that an anomaly is found in is passed over.

use crate::assoc::{has_key, is_first_index, lemma_first_index, CharMap};
use crate::kalamine::{DeadKey, ModMapping, PhysicalKey, Symbol};
use crate::keyseq::{find_layer, resolve_dead_keys, KeySymbol, Resolved};
use crate::resolution::ties::{base_ties, expansion_ties};
use crate::resolution::{base_pass, expansion_end, layers_view, KeySeqs, Layers};
use vstd::prelude::*;

verus! {

/// Something amiss in a pair of the layer of the dead key `layer`.
#[derive(Debug, Clone, Copy, PartialEq, Eq, Structural)]
pub enum Anomaly {
    /// The pair gives the dead key `name`, which has no layer.
    UndefinedLayer { layer: char, name: char },
    /// The character that triggers the pair stands on no key.
    MissingTrigger { layer: char, trigger: char },
    /// The pair is triggered by a dead key other than the dead key of the
    /// layer.
    InvalidTrigger { layer: char, trigger: char },
    /// A press for the character is as good as the press kept for it; the
    /// press kept is the one that the keymap offers first.
    TiedPress { character: char },
    /// A sequence for the symbol is as good as the sequence kept for it;
    /// the sequence kept is the one found first.
    TiedSequence { output: Symbol },
}

/// The ties of the base pass as anomalies.
pub open spec fn press_anomalies(ties: Seq<char>) -> Seq<Anomaly>
    decreases ties.len(),
{
    if ties.len() == 0 {
        Seq::empty()
    } else {
        press_anomalies(ties.drop_last()).push(Anomaly::TiedPress { character: ties.last() })
    }
}

/// The ties of expansion as anomalies.
pub open spec fn sequence_anomalies(ties: Seq<Symbol>) -> Seq<Anomaly>
    decreases ties.len(),
{
    if ties.len() == 0 {
        Seq::empty()
    } else {
        sequence_anomalies(ties.drop_last()).push(Anomaly::TiedSequence { output: ties.last() })
    }
}

/// What is amiss in the output of a pair whose trigger can be pressed.
pub open spec fn output_anomalies(layers: Layers, owner: char, output: Symbol) -> Seq<Anomaly> {
    match output {
        Symbol::DeadKey(name) => if has_key(layers, DeadKey { name }) {
            Seq::empty()
        } else {
            seq![Anomaly::UndefinedLayer { layer: owner, name }]
        },
        Symbol::Character(_) => Seq::empty(),
    }
}

/// What is amiss in a pair of the layer of the dead key `owner`: its
/// trigger first, and its output where the trigger can be pressed.
pub open spec fn pair_anomalies(
    base: Seq<(char, KeySymbol)>,
    layers: Layers,
    owner: char,
    pair: (Symbol, Symbol),
) -> Seq<Anomaly> {
    match pair.0 {
        Symbol::Character(trigger) => if has_key(base, trigger) {
            output_anomalies(layers, owner, pair.1)
        } else {
            seq![Anomaly::MissingTrigger { layer: owner, trigger }]
        },
        Symbol::DeadKey(trigger) => if trigger == owner {
            output_anomalies(layers, owner, pair.1)
        } else {
            seq![Anomaly::InvalidTrigger { layer: owner, trigger }]
        },
    }
}

/// What is amiss in the pairs of a layer, in their order.
pub open spec fn layer_anomalies(
    base: Seq<(char, KeySymbol)>,
    layers: Layers,
    owner: char,
    layer: Seq<(Symbol, Symbol)>,
) -> Seq<Anomaly>
    decreases layer.len(),
{
    if layer.len() == 0 {
        Seq::empty()
    } else {
        layer_anomalies(base, layers, owner, layer.drop_last()) + pair_anomalies(
            base,
            layers,
            owner,
            layer.last(),
        )
    }
}

/// Resolution reads the layer at `i`: it is the first layer of its dead
/// key, and the dead key can be reached.
pub open spec fn is_read(layers: Layers, dead: KeySeqs, i: int) -> bool {
    is_first_index(layers, layers[i].0, i) && has_key(dead, layers[i].0.name)
}

/// What is amiss in the first `k` layers that resolution reads.
pub open spec fn anomalies_among(base: Seq<(char, KeySymbol)>, layers: Layers, dead: KeySeqs, k: int) -> Seq<
    Anomaly,
>
    decreases k,
{
    if k <= 0 {
        Seq::empty()
    } else {
        anomalies_among(base, layers, dead, k - 1) + if is_read(layers, dead, k - 1) {
            layer_anomalies(base, layers, layers[k - 1].0.name, layers[k - 1].1)
        } else {
            Seq::empty()
        }
    }
}

/// What is amiss in a layout: the ties of the base pass, the ties of
/// expansion, and then the anomalies of every layer that resolution reads,
/// layer after layer and pair after pair.
pub open spec fn anomalies(keymap: Seq<(PhysicalKey, ModMapping)>, layers: Layers) -> Seq<Anomaly> {
    press_anomalies(base_ties(keymap)) + sequence_anomalies(expansion_ties(keymap, layers))
        + anomalies_among(
        base_pass(keymap).base,
        layers,
        expansion_end(keymap, layers).dead,
        layers.len() as int,
    )
}

/// Adds what is amiss in one pair.
fn check_pair(
    base: &CharMap<KeySymbol>,
    layout_deadkeys: &Vec<(DeadKey, Vec<(Symbol, Symbol)>)>,
    owner: char,
    pair: (Symbol, Symbol),
    found: &mut Vec<Anomaly>,
)
    ensures
        final(found)@ == old(found)@ + pair_anomalies(base@, layers_view(layout_deadkeys@), owner, pair),
{
    match pair.0 {
        Symbol::Character(trigger) => {
            if !base.contains_key(trigger) {
                found.push(Anomaly::MissingTrigger { layer: owner, trigger });
                assert(found@ =~= old(found)@ + seq![Anomaly::MissingTrigger { layer: owner, trigger }]);
                return ;
            }
        },
        Symbol::DeadKey(trigger) => {
            if trigger != owner {
                found.push(Anomaly::InvalidTrigger { layer: owner, trigger });
                assert(found@ =~= old(found)@ + seq![Anomaly::InvalidTrigger { layer: owner, trigger }]);
                return ;
            }
        },
    }
    match pair.1 {
        Symbol::DeadKey(name) => {
            let layer = find_layer(layout_deadkeys, name);
            proof {
                if let Some(at) = layer {
                    lemma_first_index(layers_view(layout_deadkeys@), DeadKey { name }, at as int);
                }
            }
            if layer.is_none() {
                found.push(Anomaly::UndefinedLayer { layer: owner, name });
                assert(found@ =~= old(found)@ + seq![Anomaly::UndefinedLayer { layer: owner, name }]);
            } else {
                assert(found@ =~= old(found)@ + Seq::<Anomaly>::empty());
            }
        },
        Symbol::Character(_) => {
            assert(found@ =~= old(found)@ + Seq::<Anomaly>::empty());
        },
    }
}

/// What is amiss in a layout.
///
/// Only the layers that resolution reads are looked at: the layer of a
/// dead key that cannot be reached is passed over as a whole, and so is a
/// second layer of a dead key.
pub fn layout_anomalies(
    layout_keymap: &Vec<(PhysicalKey, ModMapping)>,
    layout_deadkeys: &Vec<(DeadKey, Vec<(Symbol, Symbol)>)>,
) -> (found: Vec<Anomaly>)
    ensures
        found@ == anomalies(layout_keymap@, layers_view(layout_deadkeys@)),
{
    let Resolved { base, dead, chars: _, tied_presses, tied_sequences } = resolve_dead_keys(
        layout_keymap,
        layout_deadkeys,
    );
    let ghost layers = layers_view(layout_deadkeys@);
    let mut found: Vec<Anomaly> = Vec::new();
    let mut p: usize = 0;
    while p < tied_presses.len()
        invariant
            p <= tied_presses@.len(),
            found@ == press_anomalies(tied_presses@.take(p as int)),
        decreases tied_presses@.len() - p,
    {
        assert(tied_presses@.take(p + 1).drop_last() =~= tied_presses@.take(p as int));
        found.push(Anomaly::TiedPress { character: tied_presses[p] });
        p += 1;
    }
    assert(tied_presses@.take(p as int) =~= tied_presses@);
    let mut q: usize = 0;
    assert(found@ =~= found@ + Seq::<Anomaly>::empty());
    while q < tied_sequences.len()
        invariant
            q <= tied_sequences@.len(),
            found@ == press_anomalies(tied_presses@) + sequence_anomalies(
                tied_sequences@.take(q as int),
            ),
        decreases tied_sequences@.len() - q,
    {
        assert(tied_sequences@.take(q + 1).drop_last() =~= tied_sequences@.take(q as int));
        let ghost listed = sequence_anomalies(tied_sequences@.take(q as int));
        found.push(Anomaly::TiedSequence { output: tied_sequences[q] });
        assert(found@ =~= press_anomalies(tied_presses@) + listed.push(
            Anomaly::TiedSequence { output: tied_sequences@[q as int] },
        ));
        q += 1;
    }
    assert(tied_sequences@.take(q as int) =~= tied_sequences@);
    let ghost ties = found@;
    let mut i: usize = 0;
    assert(found@ =~= ties + anomalies_among(base@, layers, dead@, 0));
    while i < layout_deadkeys.len()
        invariant
            i <= layout_deadkeys@.len(),
            layers == layers_view(layout_deadkeys@),
            found@ == ties + anomalies_among(base@, layers, dead@, i as int),
        decreases layout_deadkeys@.len() - i,
    {
        let ghost sofar = anomalies_among(base@, layers, dead@, i as int);
        let owner: char = layout_deadkeys[i].0.name;
        let first = find_layer(layout_deadkeys, owner);
        proof {
            if let Some(at) = first {
                lemma_first_index(layers, DeadKey { name: owner }, at as int);
                if at == i {
                    assert(is_first_index(layers, layers[i as int].0, i as int));
                } else {
                    assert(crate::assoc::first_index(layers, layers[i as int].0) == at);
                    if is_first_index(layers, layers[i as int].0, i as int) {
                        lemma_first_index(layers, layers[i as int].0, i as int);
                    }
                }
            } else {
                assert(layers[i as int].0 == (DeadKey { name: owner }));
            }
        }
        let read: bool = match first {
            Some(at) => at == i && dead.contains_key(owner),
            None => false,
        };
        assert(read == is_read(layers, dead@, i as int));
        if read {
            let layer = &layout_deadkeys[i].1;
            let ghost before = found@;
            let mut j: usize = 0;
            assert(found@ =~= before + layer_anomalies(base@, layers, owner, layer@.take(0)));
            while j < layer.len()
                invariant
                    j <= layer@.len(),
                    layers == layers_view(layout_deadkeys@),
                    found@ == before + layer_anomalies(base@, layers, owner, layer@.take(j as int)),
                decreases layer@.len() - j,
            {
                assert(layer@.take(j + 1).drop_last() =~= layer@.take(j as int));
                let ghost sofar = layer_anomalies(base@, layers, owner, layer@.take(j as int));
                check_pair(&base, layout_deadkeys, owner, layer[j], &mut found);
                assert(found@ =~= before + (sofar + pair_anomalies(
                    base@,
                    layers,
                    owner,
                    layer@[j as int],
                )));
                j += 1;
            }
            assert(layer@.take(j as int) =~= layer@);
            assert(found@ =~= ties + (sofar + layer_anomalies(base@, layers, owner, layer@)));
        } else {
            assert(found@ =~= ties + (sofar + Seq::<Anomaly>::empty()));
        }
        i += 1;
    }
    found
}

} // verus!
