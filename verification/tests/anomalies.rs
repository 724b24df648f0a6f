use klayan::anomalies::{layout_anomalies, Anomaly};
use klayan::kalamine::PhysicalKey::{KeyA, KeyB, KeyE, KeyQ, KeyW, KeyZ, Space};
use klayan::kalamine::Symbol::Character;
use klayan::kalamine::{DeadKey, ModMapping, PhysicalKey, Symbol};
use klayan::keyseq::{find_layer, resolve_dead_keys, KeySymbol};
use klayan::kalamine::Mod::Base;

#[test]
fn what_is_amiss_in_a_layout() {
    let keymap = vec![
        (KeyQ, ModMapping::from(vec!["*1"])),
        (KeyA, ModMapping::from(vec!["a"])),
    ];
    let deadkeys = vec![
        (
            DeadKey { name: '1' },
            vec![
                (Character('a'), Character('á')),
                (Character('i'), Character('í')),
                (Symbol::DeadKey('2'), Character('x')),
                (Character('a'), Symbol::DeadKey('7')),
                (Symbol::DeadKey('1'), Symbol::DeadKey('2')),
                (Character('o'), Symbol::DeadKey('8')),
            ],
        ),
        // never reached: not read at all
        (DeadKey { name: '3' }, vec![(Character('u'), Character('ú'))]),
        (
            DeadKey { name: '2' },
            vec![
                (Symbol::DeadKey('2'), Symbol::DeadKey('9')),
                (Symbol::DeadKey('1'), Symbol::DeadKey('9')),
            ],
        ),
        // a second layer of a dead key is not read
        (DeadKey { name: '1' }, vec![(Character('y'), Character('ý'))]),
    ];
    assert_eq!(
        layout_anomalies(&keymap, &deadkeys),
        vec![
            Anomaly::MissingTrigger { layer: '1', trigger: 'i' },
            Anomaly::InvalidTrigger { layer: '1', trigger: '2' },
            Anomaly::UndefinedLayer { layer: '1', name: '7' },
            Anomaly::MissingTrigger { layer: '1', trigger: 'o' },
            Anomaly::UndefinedLayer { layer: '2', name: '9' },
            Anomaly::InvalidTrigger { layer: '2', trigger: '1' },
        ]
    );
    assert_eq!(find_layer(&deadkeys, '1'), Some(0));
    assert_eq!(find_layer(&deadkeys, '2'), Some(2));
    assert_eq!(find_layer(&deadkeys, '7'), None);
}

#[test]
fn ties() {
    let keymap = vec![
        (KeyQ, ModMapping::from(vec!["x", "y"])),
        (KeyZ, ModMapping::from(vec!["x", "", "y"])),
        (KeyE, ModMapping::from(vec!["", "y"])),
        (KeyW, ModMapping::from(vec!["*^"])),
        (KeyA, ModMapping::from(vec!["a"])),
        (KeyB, ModMapping::from(vec!["b"])),
        (Space, ModMapping::from(vec![" "])),
    ];
    let deadkeys = vec![(
        DeadKey { name: '^' },
        vec![
            (Character('a'), Character('â')),
            (Character('b'), Character('â')),
            (Character(' '), Character('â')),
            (Character('a'), Character('â')),
            (Character(' '), Character('â')),
            (Character('a'), Symbol::DeadKey('~')),
            (Character('b'), Symbol::DeadKey('~')),
        ],
    )];
    let resolved = resolve_dead_keys(&keymap, &deadkeys);
    // the upper row and the lower row are as far from the home row
    assert_eq!(resolved.tied_presses, vec!['x', 'y']);
    assert_eq!(resolved.base.get('x'), Some(&KeySymbol::new(Character('x'), KeyQ, Base)));
    // a sequence found a second time does not tie with itself
    assert_eq!(
        resolved.tied_sequences,
        vec![Character('â'), Symbol::DeadKey('~')]
    );
    assert_eq!(
        resolved.chars.get('â'),
        Some(&vec![
            KeySymbol::new(Symbol::DeadKey('^'), KeyW, Base),
            KeySymbol::new(Character(' '), Space, Base),
        ])
    );
    assert_eq!(
        layout_anomalies(&keymap, &deadkeys),
        vec![
            Anomaly::TiedPress { character: 'x' },
            Anomaly::TiedPress { character: 'y' },
            Anomaly::TiedSequence { output: Character('â') },
            Anomaly::TiedSequence { output: Symbol::DeadKey('~') },
            Anomaly::UndefinedLayer { layer: '^', name: '~' },
            Anomaly::UndefinedLayer { layer: '^', name: '~' },
        ]
    );
}

#[test]
fn nothing_amiss() {
    let keymap = vec![
        (KeyQ, ModMapping::from(vec!["*^"])),
        (KeyE, ModMapping::from(vec!["e"])),
    ];
    let deadkeys = vec![(DeadKey { name: '^' }, vec![(Character('e'), Character('ê'))])];
    assert_eq!(layout_anomalies(&keymap, &deadkeys), vec![]);
    assert_eq!(layout_anomalies(&vec![], &vec![]), vec![]);
}

#[test]
fn tables_at_the_end_of_expansion() {
    let keymap = vec![
        (KeyQ, ModMapping::from(vec!["*1"])),
        (KeyZ, ModMapping::from(vec!["*4"])),
        (KeyA, ModMapping::from(vec!["a"])),
    ];
    let deadkeys = vec![
        (
            DeadKey { name: '1' },
            vec![
                (Character('a'), Symbol::DeadKey('2')),
                (Character('a'), Character('a')),
            ],
        ),
        (DeadKey { name: '3' }, vec![(Character('a'), Character('à'))]),
    ];
    let resolved = resolve_dead_keys(&keymap, &deadkeys);
    let (base, dead, chars) = (resolved.base, resolved.dead, resolved.chars);
    assert!(resolved.tied_presses.is_empty());
    assert!(resolved.tied_sequences.is_empty());
    let one = KeySymbol::new(Symbol::DeadKey('1'), KeyQ, Base);
    let four = KeySymbol::new(Symbol::DeadKey('4'), KeyZ, Base);
    let a = KeySymbol::new(Character('a'), KeyA, Base);
    assert_eq!(base.entries, vec![('a', a)]);
    assert_eq!(
        dead.entries,
        vec![
            ('1', vec![one]),
            ('4', vec![four]),
            ('2', vec![one, KeySymbol::new(Symbol::DeadKey('2'), KeyA, Base)]),
        ]
    );
    assert_eq!(chars.entries, vec![('a', vec![one, a])]);
}

#[test]
fn names_of_keys() {
    assert_eq!(PhysicalKey::from_name("KeyQ"), Some(KeyQ));
    assert_eq!(PhysicalKey::from_name("IntlBackslash"), Some(PhysicalKey::IntlBackslash));
    assert_eq!(PhysicalKey::from_name("Digit0"), Some(PhysicalKey::Digit0));
    assert_eq!(PhysicalKey::from_name("keyq"), None);
    assert_eq!(PhysicalKey::from_name("Key"), None);
    assert_eq!(PhysicalKey::from_name(""), None);
    assert_eq!(PhysicalKey::Semicolon.name(), "Semicolon");
    for key in PhysicalKey::all() {
        assert_eq!(PhysicalKey::from_name(key.name()), Some(key));
    }
}
