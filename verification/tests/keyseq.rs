use klayan::assoc::CharMap;
use klayan::kalamine::Mod::{Altgr, AltgrShift, Base, Shift};
use klayan::kalamine::PhysicalKey::{
    Digit5, KeyA, KeyB, KeyE, KeyF, KeyG, KeyQ, KeyZ, Minus, Period, Quote, Space,
};
use klayan::kalamine::Symbol::Character;
use klayan::kalamine::{DeadKey, Mod, ModMapping, PhysicalKey, Symbol};
use klayan::keyseq::{
    build_keyseq_map, count_mods, count_thumbs, is_better_keyseq, is_bettery_keysym, KeySeqMap,
    KeySymbol,
};

fn test_keymap() -> Vec<(PhysicalKey, ModMapping)> {
    vec![
        (KeyA, ModMapping::from(vec!["a", "A", "(", ")"])),
        (KeyB, ModMapping::from(vec!["b", "b", "b", "b"])),
        (Digit5, ModMapping::from(vec!["b", "b", "b", "b"])),
        (KeyG, ModMapping::from(vec!["g"])),
        (Space, ModMapping::from(vec![" "])),
        (Quote, ModMapping::from(vec!["'"])),
        (Period, ModMapping::from(vec!["."])),
        (Minus, ModMapping::from(vec!["*^", "-"])),
    ]
}

fn test_deadkeys() -> Vec<(DeadKey, Vec<(Symbol, Symbol)>)> {
    vec![
        (
            DeadKey { name: '^' },
            vec![
                (Character('a'), Character('â')),
                (Character('A'), Character('Â')),
                (Character('('), Character('{')),
                (Character(')'), Character('}')),
                (Character('i'), Character('ï')),
                (Character('.'), Character('.')),
                (Character('\''), Character('’')),
                (Character(' '), Character('’')),
                (Character('g'), Symbol::DeadKey('µ')),
                (Symbol::DeadKey('^'), Symbol::DeadKey('¨')),
            ],
        ),
        (
            DeadKey { name: 'µ' },
            vec![
                (Character('a'), Character('α')),
                (Character('g'), Character('γ')),
            ],
        ),
        (
            DeadKey { name: '¨' },
            vec![
                (Character('a'), Character('ä')),
                (Character('.'), Character('.')),
            ],
        ),
    ]
}

fn assert_same_map(map: &KeySeqMap, expected: &Vec<(char, Vec<KeySymbol>)>) {
    for (sym, expected_seq) in expected.iter() {
        assert!(
            map.contains_key(*sym),
            "keystrokes_map does not contain symbol: {}",
            sym
        );
        assert_eq!(map.get(*sym).unwrap(), expected_seq, "symbol: {}", sym);
    }
    assert_eq!(map.len(), expected.len());
    for (i, (c, _)) in map.entries.iter().enumerate() {
        assert_eq!(map.position(*c), Some(i));
    }
}

#[test]
fn keyseq_test_build_keyseq_map() {
    let keymap = test_keymap();
    let deadkeys = test_deadkeys();
    let keystrokes_map = build_keyseq_map(&keymap, &deadkeys);

    let ks_a = KeySymbol::new(Character('a'), KeyA, Base);
    let ks_a_maj = KeySymbol::new(Character('A'), KeyA, Shift);
    let ks_lp = KeySymbol::new(Character('('), KeyA, Altgr);
    let ks_rp = KeySymbol::new(Character(')'), KeyA, AltgrShift);
    let ks_b = KeySymbol::new(Character('b'), KeyB, Base);
    let ks_g = KeySymbol::new(Character('g'), KeyG, Base);
    let ks_space = KeySymbol::new(Character(' '), Space, Base);
    let ks_quote = KeySymbol::new(Character('\''), Quote, Base);
    let ks_period = KeySymbol::new(Character('.'), Period, Base);
    let ks_mu = KeySymbol::new(Symbol::DeadKey('µ'), KeyG, Base);
    let ks_minus = KeySymbol::new(Character('-'), Minus, Shift);
    let ks_caret = KeySymbol::new(Symbol::DeadKey('^'), Minus, Base);
    let ks_diae = KeySymbol::new(Symbol::DeadKey('¨'), Minus, Base);
    let expected = vec![
        ('a', vec![ks_a.clone()]),
        ('A', vec![ks_a_maj.clone()]),
        ('(', vec![ks_lp.clone()]),
        (')', vec![ks_rp.clone()]),
        ('b', vec![ks_b.clone()]),
        ('g', vec![ks_g.clone()]),
        (' ', vec![ks_space.clone()]),
        ('\'', vec![ks_quote.clone()]),
        ('.', vec![ks_period.clone()]),
        ('-', vec![ks_minus.clone()]),
        ('â', vec![ks_caret.clone(), ks_a.clone()]),
        ('Â', vec![ks_caret.clone(), ks_a_maj.clone()]),
        ('{', vec![ks_caret.clone(), ks_lp.clone()]),
        ('}', vec![ks_caret.clone(), ks_rp.clone()]),
        ('’', vec![ks_caret.clone(), ks_space.clone()]),
        ('ä', vec![ks_caret.clone(), ks_diae.clone(), ks_a.clone()]),
        ('α', vec![ks_caret.clone(), ks_mu.clone(), ks_a.clone()]),
        ('γ', vec![ks_caret.clone(), ks_mu.clone(), ks_g.clone()]),
    ];
    assert_same_map(&keystrokes_map, &expected);
}

#[test]
fn keystrokes_test_build_keyseq_map() {
    let keymap = vec![
        (KeyA, ModMapping::from(vec!["a", "A", "(", ")"])),
        (KeyG, ModMapping::from(vec!["g"])),
        (Space, ModMapping::from(vec![" "])),
        (Quote, ModMapping::from(vec!["'"])),
        (Period, ModMapping::from(vec!["."])),
        (Minus, ModMapping::from(vec!["*^", "-"])),
    ];
    let deadkeys = test_deadkeys();
    let keystrokes_map = build_keyseq_map(&keymap, &deadkeys);

    // name, key, dead key
    let ks_a = ('a', KeyA, false);
    let ks_a_maj = ('A', KeyA, false);
    let ks_lp = ('(', KeyA, false);
    let ks_rp = (')', KeyA, false);
    let ks_g = ('g', KeyG, false);
    let ks_space = (' ', Space, false);
    let ks_quote = ('\'', Quote, false);
    let ks_period = ('.', Period, false);
    let ks_mu = ('µ', KeyG, true);
    let ks_minus = ('-', Minus, false);
    let ks_caret = ('^', Minus, true);
    let ks_diae = ('¨', Minus, true);
    let expected = vec![
        ('a', vec![ks_a.clone()]),
        ('A', vec![ks_a_maj.clone()]),
        ('(', vec![ks_lp.clone()]),
        (')', vec![ks_rp.clone()]),
        ('g', vec![ks_g.clone()]),
        (' ', vec![ks_space.clone()]),
        ('\'', vec![ks_quote.clone()]),
        ('.', vec![ks_period.clone()]),
        ('-', vec![ks_minus.clone()]),
        ('â', vec![ks_caret.clone(), ks_a.clone()]),
        ('Â', vec![ks_caret.clone(), ks_a_maj.clone()]),
        ('{', vec![ks_caret.clone(), ks_lp.clone()]),
        ('}', vec![ks_caret.clone(), ks_rp.clone()]),
        ('’', vec![ks_caret.clone(), ks_space.clone()]),
        ('ä', vec![ks_caret.clone(), ks_diae.clone(), ks_a.clone()]),
        ('α', vec![ks_caret.clone(), ks_mu.clone(), ks_a.clone()]),
        ('γ', vec![ks_caret.clone(), ks_mu.clone(), ks_g.clone()]),
    ];
    for (sym, expected_seq) in expected.iter() {
        // Simplify debug with one to one comparison
        assert!(
            keystrokes_map.contains_key(*sym),
            "keystrokes_map does not contain symbol: {}",
            sym
        );
        let found: Vec<(char, PhysicalKey, bool)> = keystrokes_map
            .get(*sym)
            .unwrap()
            .iter()
            .map(|ks| (ks.name, ks.key, ks.dead_key))
            .collect();
        assert_eq!(&found, expected_seq, "symbol: {}", sym);
    }
    assert_eq!(keystrokes_map.len(), expected.len());
}

#[test]
fn a_character_on_a_key_is_one_press() {
    let keymap = vec![(KeyA, ModMapping::from(vec!["a"]))];
    let map = build_keyseq_map(&keymap, &vec![]);
    assert_eq!(
        map.get('a'),
        Some(&vec![KeySymbol {
            name: 'a',
            key: KeyA,
            dead_key: false,
            modifier: Mod::Base
        }])
    );
    assert_eq!(map.len(), 1);
    assert_eq!(build_keyseq_map(&vec![], &vec![]).len(), 0);
}

#[test]
fn the_better_press_of_a_character_is_kept() {
    // lower level first, then the row nearer to the home row, then the first seen
    let keymap = vec![
        (KeyQ, ModMapping::from(vec!["x", "y", "", "z"])),
        (KeyZ, ModMapping::from(vec!["", "x", "y", "z"])),
        (KeyF, ModMapping::from(vec!["", "", "y", "w"])),
        (KeyA, ModMapping::from(vec!["", "", "", "w"])),
    ];
    let map = build_keyseq_map(&keymap, &vec![]);
    assert_eq!(map.get('x'), Some(&vec![KeySymbol::new(Character('x'), KeyQ, Base)]));
    assert_eq!(map.get('y'), Some(&vec![KeySymbol::new(Character('y'), KeyQ, Shift)]));
    assert_eq!(map.get('z'), Some(&vec![KeySymbol::new(Character('z'), KeyQ, AltgrShift)]));
    assert_eq!(map.get('w'), Some(&vec![KeySymbol::new(Character('w'), KeyF, AltgrShift)]));
}

#[test]
fn a_dead_key_on_two_keys_keeps_the_last() {
    let keymap = vec![
        (KeyQ, ModMapping::from(vec!["*^"])),
        (KeyA, ModMapping::from(vec!["a", "*^"])),
    ];
    let deadkeys = vec![(DeadKey { name: '^' }, vec![(Character('a'), Character('â'))])];
    let map = build_keyseq_map(&keymap, &deadkeys);
    assert_eq!(
        map.get('â'),
        Some(&vec![
            KeySymbol::new(Symbol::DeadKey('^'), KeyA, Shift),
            KeySymbol::new(Character('a'), KeyA, Base),
        ])
    );
}

#[test]
fn dead_keys_that_lead_to_each_other() {
    let keymap = vec![
        (KeyQ, ModMapping::from(vec!["*1"])),
        (KeyA, ModMapping::from(vec!["a"])),
        (KeyE, ModMapping::from(vec!["e"])),
    ];
    let deadkeys = vec![
        (
            DeadKey { name: '1' },
            vec![
                (Character('a'), Symbol::DeadKey('2')),
                (Character('e'), Character('é')),
            ],
        ),
        (
            DeadKey { name: '2' },
            vec![
                (Character('a'), Symbol::DeadKey('1')),
                (Symbol::DeadKey('2'), Symbol::DeadKey('2')),
                (Symbol::DeadKey('1'), Character('x')),
                (Character('e'), Character('è')),
            ],
        ),
        (DeadKey { name: '3' }, vec![(Character('e'), Character('ê'))]),
    ];
    let map = build_keyseq_map(&keymap, &deadkeys);
    let one = KeySymbol::new(Symbol::DeadKey('1'), KeyQ, Base);
    let two = KeySymbol::new(Symbol::DeadKey('2'), KeyA, Base);
    let a = KeySymbol::new(Character('a'), KeyA, Base);
    let e = KeySymbol::new(Character('e'), KeyE, Base);
    assert_eq!(map.get('é'), Some(&vec![one, e]));
    assert_eq!(map.get('è'), Some(&vec![one, two, e]));
    assert_eq!(map.get('a'), Some(&vec![a]));
    assert_eq!(map.get('ê'), None);
    assert_eq!(map.get('x'), None);
    assert_eq!(map.len(), 4);
}

#[test]
fn a_shorter_way_found_later_replaces_the_longer() {
    let keymap = vec![
        (KeyQ, ModMapping::from(vec!["*1"])),
        (KeyZ, ModMapping::from(vec!["*2"])),
        (KeyA, ModMapping::from(vec!["a"])),
        (KeyE, ModMapping::from(vec!["e"])),
    ];
    // 3 is first reached through 1 and 9 and expanded, then reached through 2 alone
    let deadkeys = vec![
        (DeadKey { name: '2' }, vec![(Character('e'), Symbol::DeadKey('3'))]),
        (DeadKey { name: '3' }, vec![(Character('e'), Character('ê'))]),
        (DeadKey { name: '9' }, vec![(Character('e'), Symbol::DeadKey('3'))]),
        (
            DeadKey { name: '1' },
            vec![(Character('a'), Symbol::DeadKey('9'))],
        ),
    ];
    let map = build_keyseq_map(&keymap, &deadkeys);
    assert_eq!(
        map.get('ê'),
        Some(&vec![
            KeySymbol::new(Symbol::DeadKey('2'), KeyZ, Base),
            KeySymbol::new(Symbol::DeadKey('3'), KeyE, Base),
            KeySymbol::new(Character('e'), KeyE, Base),
        ])
    );
}

#[test]
fn better_presses_and_sequences() {
    let base_home = KeySymbol::new(Character('x'), KeyA, Base);
    let base_top = KeySymbol::new(Character('x'), KeyQ, Base);
    let base_low = KeySymbol::new(Character('x'), KeyZ, Base);
    let shift_home = KeySymbol::new(Character('x'), KeyF, Shift);
    let altgr_home = KeySymbol::new(Character('x'), KeyF, Altgr);
    let thumb = KeySymbol::new(Character(' '), Space, Base);
    assert!(is_bettery_keysym(&base_top, None));
    assert!(is_bettery_keysym(&base_top, Some(&shift_home)));
    assert!(!is_bettery_keysym(&shift_home, Some(&base_top)));
    assert!(is_bettery_keysym(&shift_home, Some(&altgr_home)));
    assert!(!is_bettery_keysym(&altgr_home, Some(&shift_home)));
    assert!(is_bettery_keysym(&base_home, Some(&base_top)));
    assert!(!is_bettery_keysym(&base_top, Some(&base_home)));
    assert!(!is_bettery_keysym(&base_top, Some(&base_low)));
    assert!(!is_bettery_keysym(&base_low, Some(&base_top)));

    assert_eq!(count_mods(&vec![]), 0);
    assert_eq!(count_mods(&vec![base_home, shift_home, altgr_home]), 2);
    assert_eq!(
        count_mods(&vec![KeySymbol::new(Character('x'), KeyA, AltgrShift), shift_home]),
        3
    );
    assert_eq!(count_thumbs(&vec![thumb, base_home, thumb]), 2);
    assert_eq!(count_thumbs(&vec![base_home]), 0);

    assert!(is_better_keyseq(&vec![base_home, base_home], None));
    assert!(is_better_keyseq(&vec![shift_home], Some(&vec![base_home, base_home])));
    assert!(!is_better_keyseq(&vec![base_home, base_home], Some(&vec![shift_home])));
    assert!(is_better_keyseq(&vec![base_home, base_top], Some(&vec![base_home, shift_home])));
    assert!(!is_better_keyseq(&vec![thumb, shift_home], Some(&vec![base_home, base_top])));
    assert!(is_better_keyseq(&vec![base_home, thumb], Some(&vec![base_home, base_top])));
    assert!(!is_better_keyseq(&vec![base_home, base_top], Some(&vec![base_home, thumb])));
    assert!(!is_better_keyseq(&vec![base_home, base_top], Some(&vec![base_top, base_home])));
}

#[test]
fn key_symbols() {
    let dead = KeySymbol::new(Symbol::DeadKey('^'), Minus, Shift);
    assert_eq!(
        dead,
        KeySymbol {
            name: '^',
            key: Minus,
            dead_key: true,
            modifier: Shift
        }
    );
    assert_eq!(dead.symbol(), Symbol::DeadKey('^'));
    let plain = KeySymbol::new(Character('a'), KeyA, Base);
    assert!(!plain.dead_key);
    assert_eq!(plain.symbol(), Character('a'));
}

#[test]
fn character_maps() {
    let mut map: CharMap<Vec<PhysicalKey>> = CharMap::new();
    assert_eq!(map.len(), 0);
    assert_eq!(map.get('a'), None);
    map.insert('a', vec![KeyA]);
    map.insert('b', vec![KeyB]);
    map.insert('a', vec![KeyQ, KeyA]);
    assert_eq!(map.len(), 2);
    assert_eq!(map.get('a'), Some(&vec![KeyQ, KeyA]));
    assert_eq!(map.get('b'), Some(&vec![KeyB]));
    assert_eq!(map.position('b'), Some(1));
    assert!(map.contains_key('a'));
    assert!(!map.contains_key('c'));
    assert_eq!(map.entries, vec![('a', vec![KeyQ, KeyA]), ('b', vec![KeyB])]);
}
