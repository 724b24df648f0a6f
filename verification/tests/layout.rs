use klayan::kalamine::PhysicalKey::{KeyA, KeyG, Minus};
use klayan::kalamine::Symbol::Character;
use klayan::kalamine::{DeadKey, Layout, ModMapping, Symbol};

#[test]
fn build_keystrokes_map() {
    let keymap = vec![
        (KeyA, ModMapping::from(vec!["a", "A", "(", ")"])),
        (KeyG, ModMapping::from(vec!["g"])),
        (Minus, ModMapping::from(vec!["*^", "-"])),
    ];
    let deadkeys = vec![
        (
            DeadKey { name: '^' },
            vec![
                (Character('a'), Character('â')),
                (Character('A'), Character('Â')),
                (Character('('), Character('{')),
                (Character(')'), Character('}')),
                (Character('g'), Symbol::DeadKey('µ')),
            ],
        ),
        (
            DeadKey { name: 'µ' },
            vec![
                (Character('a'), Character('α')),
                (Character('g'), Character('γ')),
            ],
        ),
    ];
    let keystrokes_map = klayan::keyseq::build_keystrokes_map(&Layout { keymap, deadkeys });
    let expected = vec![
        ('a', vec![KeyA]),
        ('A', vec![KeyA]),
        ('(', vec![KeyA]),
        (')', vec![KeyA]),
        ('g', vec![KeyG]),
        ('-', vec![Minus]),
        ('â', vec![Minus, KeyA]),
        ('Â', vec![Minus, KeyA]),
        ('{', vec![Minus, KeyA]),
        ('}', vec![Minus, KeyA]),
        ('α', vec![Minus, KeyG, KeyA]),
        ('γ', vec![Minus, KeyG, KeyG]),
    ];
    for (sym, keys) in expected.iter() {
        assert_eq!(keystrokes_map.get(*sym), Some(keys), "symbol: {}", sym);
    }
    assert_eq!(keystrokes_map.len(), expected.len());
}
