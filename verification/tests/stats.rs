use klayan::analyse;
use klayan::assoc::CharMap;
use klayan::corpus::{keysym_freq, keysym_ngram_freq};
use klayan::geometry::Geometry;
use klayan::hands::Finger::{
    LeftIndex, LeftMiddle, LeftPinky, LeftRing, RightIndex, RightMiddle, RightPinky, RightRing, Thumb,
};
use klayan::hands::{Finger, Hand};
use klayan::kalamine::Mod::Base;
use klayan::kalamine::PhysicalKey::{
    KeyA, KeyB, KeyC, KeyD, KeyE, KeyF, KeyI, KeyJ, KeyK, KeyL, KeyQ, KeyR, KeyS, KeyT, KeyU, KeyW, KeyY,
    Quote, Semicolon, Space,
};
use klayan::kalamine::Symbol::Character;
use klayan::kalamine::{Corpus, DeadKey, Layout, ModMapping, PhysicalKey, Symbol};
use klayan::keyseq::{build_keyseq_map, KeySeqMap, KeySymbol};
use klayan::stats::bigrams::bigram_stats;
use klayan::stats::classes::{belongs, group_total, groups, select, Category, Group};
use klayan::stats::max_list_len;
use klayan::stats::symbols::{calc_finger_freq, symbol_stats, unsupported_characters};
use klayan::stats::tables::{category_total, name_all, per_finger, per_hand, per_key, ranked_list};
use klayan::stats::trigrams::trigram_stats;
use klayan::stats::unigrams::unigram_stats;
use klayan::stats::utils::{result_sum, result_vec, weights_fit};

fn press(c: char, key: PhysicalKey) -> KeySymbol {
    KeySymbol::new(Character(c), key, Base)
}

/// Weights are whole numbers of a unit; here a unit is a thousandth.
fn units(weight: f64) -> u64 {
    (weight * 1000.0).round() as u64
}

fn weight(units: u64) -> f64 {
    units as f64 / 1000.0
}

#[test]
fn test_unsupported_characters() {
    let supported: Vec<(char, u64)> = vec![('a', units(1.0)), ('é', units(1.0))];
    let unsupported: Vec<(char, u64)> = vec![('b', units(1.0))];
    let mut layout_symbols: CharMap<Vec<PhysicalKey>> = CharMap::new();
    layout_symbols.insert('a', vec![KeyA]);
    layout_symbols.insert('c', vec![KeyC]);
    layout_symbols.insert('é', vec![Quote, KeyE]);
    let mut corpus_symbols = supported.clone();
    corpus_symbols.extend(unsupported.iter());
    let expected_unsupported: Vec<(char, u64)> = unsupported.into_iter().collect();

    let result = unsupported_characters(&corpus_symbols, &layout_symbols);
    assert_eq!(result, expected_unsupported);
}

#[test]
fn finger_freq() {
    let keysym_freq: Vec<(KeySymbol, u64)> = Vec::from([
        (press('q', KeyQ), units(1.0)),
        (press('w', KeyW), units(2.0)),
        (press('e', KeyE), units(3.0)),
        (press('r', KeyR), units(4.0)),
        (press('t', KeyT), units(5.0)),
        (press('y', KeyY), units(6.0)),
        (press('u', KeyU), units(7.0)),
        (press('i', KeyI), units(8.0)),
    ]);
    let mut finger_freq: Vec<(Finger, f64)> = Vec::from([
        (Thumb, 0.0),
        (LeftPinky, 1.0),
        (LeftRing, 2.0),
        (LeftMiddle, 3.0),
        (LeftIndex, 9.0),
        (RightIndex, 13.0),
        (RightMiddle, 8.0),
        (RightRing, 0.0),
        (RightPinky, 0.0),
    ]);
    finger_freq.sort_by_key(|(finger, _)| *finger);
    let result: Vec<(Finger, f64)> = calc_finger_freq(&keysym_freq)
        .into_iter()
        .map(|(finger, units)| (finger, weight(units)))
        .collect();
    assert_eq!(result, finger_freq);
}

#[test]
fn test_unigram_stats() {
    let keysym_freq: Vec<(KeySymbol, u64)> = Vec::from([
        (press('q', KeyQ), units(0.01)),
        (press('w', KeyW), units(0.02)),
        (press('e', KeyE), units(0.03)),
        (press('é', KeyE), units(0.04)),
        (press('r', KeyR), units(0.05)),
        (press('t', KeyT), units(0.06)),
        (press('y', KeyY), units(0.07)),
        (press('u', KeyU), units(0.08)),
        (press('i', KeyI), units(0.09)),
    ]);
    let key_usage: Vec<(PhysicalKey, f64)> = Vec::from([
        (Space, 0.0),
        (KeyQ, 1.0),
        (KeyW, 2.0),
        (KeyE, 7.0),
        (KeyR, 5.0),
        (KeyT, 6.0),
        (KeyY, 7.0),
        (KeyU, 8.0),
        (KeyI, 9.0),
    ]);
    let finger_usage: Vec<(Finger, f64)> = Vec::from([
        (LeftPinky, 1.0),
        (LeftRing, 2.0),
        (LeftMiddle, 7.0),
        (LeftIndex, 11.0),
        (RightIndex, 15.0),
        (RightMiddle, 9.0),
        (RightRing, 0.0),
        (RightPinky, 0.0),
        (Thumb, 0.0),
    ]);
    let hand_usage: Vec<(Hand, f64)> =
        Vec::from([(Hand::Left, 21.0), (Hand::Right, 24.0), (Hand::Thumbs, 0.0)]);
    let result = unigram_stats(&keysym_freq);
    let rounded_fingers: Vec<(Finger, f64)> = result
        .finger_usage
        .iter()
        .map(|(finger, units)| (*finger, weight(*units).round()))
        .collect();
    assert_eq!(rounded_fingers, finger_usage);
    let rounded_hands: Vec<(Hand, f64)> = result
        .hand_usage
        .iter()
        .map(|(hand, units)| (*hand, weight(*units).round()))
        .collect();
    assert_eq!(rounded_hands, hand_usage);
    assert_eq!(result.key_usage.len(), 49);
    for (key, usage) in key_usage.iter() {
        let found = result.key_usage.iter().find(|(k, _)| k == key).unwrap();
        assert_eq!(weight(found.1).round(), *usage);
    }
}

fn simple_layout() -> Layout {
    Layout {
        keymap: vec![
            (KeyA, ModMapping::from(vec!["a"])),
            (KeyS, ModMapping::from(vec!["b"])),
            (KeyD, ModMapping::from(vec!["c"])),
        ],
        deadkeys: vec![],
    }
}

fn simple_corpus() -> Corpus {
    Corpus {
        path: String::from("text.txt"),
        symbols: vec![('a', 9), ('b', 8), ('c', 7)],
        digrams: vec![(['a', 'b'], 6), (['b', 'c'], 5)],
        trigrams: vec![(['a', 'b', 'c'], 4)],
    }
}

#[test]
fn three_characters_on_three_fingers() {
    let stats = analyse(&simple_layout(), &simple_corpus(), Geometry::ANSI).unwrap();
    assert_eq!(stats.symbols.total_unsupported, 0);
    assert!(stats.symbols.list_unsupported.is_empty());

    assert_eq!(stats.bigrams.total_sfb, 0);
    assert_eq!(stats.bigrams.total_sku, 0);
    assert!(stats.bigrams.list_sfb.is_empty());
    assert!(stats.bigrams.list_sku.is_empty());
    assert!(stats.bigrams.per_finger_sfb.iter().all(|(_, w)| *w == 0));
    assert!(stats.bigrams.per_finger_sku.iter().all(|(_, w)| *w == 0));
    assert_eq!(stats.bigrams.per_finger_sfb.len(), 9);
    // pinky to ring and ring to middle on the left hand: both roll to the inside
    assert_eq!(stats.bigrams.total_in_rolls, (6 + 5) * 100);
    assert_eq!(stats.bigrams.total_out_rolls, 0);
    assert_eq!(stats.bigrams.total_all_rolls, 1100);
    assert_eq!(
        stats.bigrams.list_in_rolls,
        vec![
            ([press('a', KeyA), press('b', KeyS)], 600),
            ([press('b', KeyS), press('c', KeyD)], 500),
        ]
    );
    assert_eq!(stats.bigrams.total_lsb, 0);
    assert_eq!(stats.bigrams.total_scissors, 0);

    assert_eq!(stats.trigrams.total_sks, 0);
    assert_eq!(stats.trigrams.total_sfs, 0);
    assert_eq!(stats.trigrams.total_redirects, 0);
    assert_eq!(stats.trigrams.total_bad_redirects, 0);

    let finger = |f: Finger| stats.unigrams.finger_usage[f.position()];
    assert_eq!(finger(Finger::LeftPinky), (Finger::LeftPinky, 900));
    assert_eq!(finger(Finger::LeftRing), (Finger::LeftRing, 800));
    assert_eq!(finger(Finger::LeftMiddle), (Finger::LeftMiddle, 700));
    assert_eq!(finger(Finger::Thumb), (Finger::Thumb, 0));
    assert_eq!(
        stats.unigrams.hand_usage,
        vec![(Hand::Left, 2400), (Hand::Right, 0), (Hand::Thumbs, 0)]
    );
    assert_eq!(max_list_len(&stats), 2);
}

#[test]
fn the_same_corpus_the_other_way_round() {
    let layout = Layout {
        keymap: vec![
            (KeyD, ModMapping::from(vec!["a"])),
            (KeyS, ModMapping::from(vec!["b"])),
            (KeyA, ModMapping::from(vec!["c"])),
        ],
        deadkeys: vec![],
    };
    let stats = analyse(&layout, &simple_corpus(), Geometry::Ortho).unwrap();
    assert_eq!(stats.bigrams.total_in_rolls, 0);
    assert_eq!(stats.bigrams.total_out_rolls, 1100);
    assert_eq!(stats.bigrams.total_all_rolls, 1100);
    assert_eq!(stats.bigrams.total_sfb + stats.bigrams.total_sku, 0);
}

fn double_press_layout() -> Layout {
    Layout {
        keymap: vec![
            (Quote, ModMapping::from(vec!["**"])),
            (KeyE, ModMapping::from(vec!["e"])),
            (KeyR, ModMapping::from(vec!["r"])),
        ],
        deadkeys: vec![
            (
                DeadKey { name: '*' },
                vec![(Symbol::DeadKey('*'), Symbol::DeadKey('¨'))],
            ),
            (DeadKey { name: '¨' }, vec![(Character('e'), Character('ë'))]),
        ],
    }
}

#[test]
fn a_dead_key_pressed_twice() {
    let layout = double_press_layout();
    let map = build_keyseq_map(&layout.keymap, &layout.deadkeys);
    let first = KeySymbol::new(Symbol::DeadKey('*'), Quote, Base);
    let second = KeySymbol::new(Symbol::DeadKey('¨'), Quote, Base);
    let e = press('e', KeyE);
    let r = press('r', KeyR);
    assert_eq!(map.get('ë'), Some(&vec![first, second, e]));

    let digrams = vec![(['ë', 'r'], 1), (['ë', 'e'], 1), (['ë', 'ë'], 1)];
    let bigrams = keysym_ngram_freq(&digrams, &map).unwrap();
    assert_eq!(
        bigrams,
        vec![
            ([first, second], 4),
            ([second, e], 4),
            ([e, r], 1),
            ([e, e], 1),
            ([e, first], 1),
        ]
    );
    // the pair of presses on the dead key occurs twice in "ëë": its weight counts twice
    let only_twice = keysym_ngram_freq(&vec![(['ë', 'ë'], 1)], &map).unwrap();
    assert_eq!(only_twice[0], ([first, second], 2));
    // what each bigram of characters alone comes to as uses of one key twice
    let same_key_use = |bigram: [char; 2]| {
        let presses = keysym_ngram_freq(&vec![(bigram, 1)], &map).unwrap();
        bigram_stats(&presses, Geometry::ISO).total_sku
    };
    assert_eq!(same_key_use(['ë', 'e']), 200);
    assert_eq!(same_key_use(['ë', 'ë']), 200);
    assert_eq!(same_key_use(['ë', 'r']), 100);

    let stats = bigram_stats(&bigrams, Geometry::ISO);
    assert_eq!(
        stats.list_sku,
        vec![
            ([first, second], 400),
            ([e, e], 100),
        ]
    );
    assert_eq!(stats.total_sku, 500);
    assert_eq!(stats.per_finger_sku[Finger::RightPinky.position()], (Finger::RightPinky, 400));
    assert_eq!(stats.per_finger_sku[Finger::LeftMiddle.position()], (Finger::LeftMiddle, 100));
}

#[test]
fn a_dead_key_makes_two_bigrams_of_one() {
    let keymap = vec![
        (Quote, ModMapping::from(vec!["*^"])),
        (KeyA, ModMapping::from(vec!["a"])),
        (KeyD, ModMapping::from(vec!["d"])),
    ];
    let deadkeys = vec![(DeadKey { name: '^' }, vec![(Character('a'), Character('â'))])];
    let map = build_keyseq_map(&keymap, &deadkeys);
    let dead = KeySymbol::new(Symbol::DeadKey('^'), Quote, Base);
    let a = press('a', KeyA);
    let d = press('d', KeyD);
    assert_eq!(
        keysym_ngram_freq(&vec![(['â', 'd'], 3)], &map),
        Some(vec![([dead, a], 3), ([a, d], 3)])
    );
    assert_eq!(
        keysym_ngram_freq(&vec![(['â', 'd', 'a'], 2), (['d', 'a', 'd'], 5)], &map),
        Some(vec![([dead, a, d], 2), ([a, d, a], 2), ([d, a, d], 5)])
    );
    // a character without presses drops the whole n-gram
    assert_eq!(
        keysym_ngram_freq(&vec![(['a', 'x'], 3), (['x', 'a'], 3), (['a', 'a'], 1)], &map),
        Some(vec![([a, a], 1)])
    );
    assert_eq!(
        keysym_freq(&vec![('â', 2), ('a', 5), ('x', 1), ('d', 0)], &map),
        Some(vec![(dead, 2), (a, 7), (d, 0)])
    );
    assert_eq!(keysym_ngram_freq::<2>(&vec![], &map), Some(vec![]));
}

#[test]
fn weights_that_do_not_fit() {
    let map: KeySeqMap = build_keyseq_map(&simple_layout().keymap, &vec![]);
    assert_eq!(
        keysym_ngram_freq(&vec![(['a', 'b'], u64::MAX), (['b', 'c'], 1)], &map),
        None
    );
    assert_eq!(
        keysym_ngram_freq(&vec![(['a', 'b'], u64::MAX - 1), (['b', 'c'], 1)], &map).map(|t| t.len()),
        Some(2)
    );
    assert_eq!(keysym_freq(&vec![('a', u64::MAX), ('a', 1)], &map), None);

    let limit = u64::MAX / 100;
    assert!(weights_fit(&vec![('a', limit - 1), ('b', 1)]));
    assert!(!weights_fit(&vec![('a', limit), ('b', 1)]));
    assert!(!weights_fit(&vec![('a', u64::MAX), ('b', u64::MAX)]));
    assert!(weights_fit::<char>(&vec![]));

    let mut corpus = simple_corpus();
    assert!(analyse(&simple_layout(), &corpus, Geometry::ISO).is_some());
    corpus.trigrams.push((['c', 'b', 'a'], limit));
    assert!(analyse(&simple_layout(), &corpus, Geometry::ISO).is_none());
    corpus.trigrams.pop();
    corpus.symbols.push(('z', limit));
    assert!(analyse(&simple_layout(), &corpus, Geometry::ISO).is_none());
}

fn sample_bigrams() -> Vec<([KeySymbol; 2], u64)> {
    vec![
        ([press('e', KeyE), press('t', KeyT)], 3),  // lateral stretch, in roll
        ([press('d', KeyD), press('e', KeyE)], 7),  // same finger
        ([press('f', KeyF), press('f', KeyF)], 2),  // same key
        ([press('q', KeyQ), press('s', KeyS)], 5),  // scissors, in roll
        ([press('f', KeyF), press('d', KeyD)], 7),  // out roll
        ([press('j', KeyJ), press('u', KeyU)], 1),  // same finger
        ([press('a', KeyA), press('j', KeyJ)], 11), // two hands
        ([press(' ', Space), press(' ', Space)], 4), // same key
        ([press('k', KeyK), press('j', KeyJ)], 7),  // in roll
    ]
}

#[test]
fn bigram_statistics() {
    let bigrams = sample_bigrams();
    let stats = bigram_stats(&bigrams, Geometry::ANSI);
    assert_eq!(stats.total_sku, 600);
    assert_eq!(stats.total_sfb, 800);
    assert_eq!(stats.total_in_rolls, 1500);
    assert_eq!(stats.total_out_rolls, 700);
    assert_eq!(stats.total_all_rolls, 2200);
    assert_eq!(stats.total_scissors, 500);
    assert_eq!(stats.total_lsb, 300);
    assert_eq!(bigram_stats(&bigrams, Geometry::Ortho).total_lsb, 300);
    assert_eq!(bigram_stats(&bigrams, Geometry::Ortho).total_scissors, 500);
    assert_eq!(
        stats.list_sfb,
        vec![
            ([press('d', KeyD), press('e', KeyE)], 700),
            ([press('j', KeyJ), press('u', KeyU)], 100),
        ]
    );
    assert_eq!(
        stats.list_sku,
        vec![
            ([press(' ', Space), press(' ', Space)], 400),
            ([press('f', KeyF), press('f', KeyF)], 200),
        ]
    );
    // entries of one weight stay in the order of the table
    assert_eq!(
        stats.list_in_rolls,
        vec![
            ([press('k', KeyK), press('j', KeyJ)], 700),
            ([press('q', KeyQ), press('s', KeyS)], 500),
            ([press('e', KeyE), press('t', KeyT)], 300),
        ]
    );
    assert_eq!(stats.list_out_rolls, vec![([press('f', KeyF), press('d', KeyD)], 700)]);
    assert_eq!(stats.list_scissors, vec![([press('q', KeyQ), press('s', KeyS)], 500)]);
    assert_eq!(stats.list_lsb, vec![([press('e', KeyE), press('t', KeyT)], 300)]);
    assert_eq!(
        stats.per_finger_sfb,
        vec![
            (LeftPinky, 0),
            (LeftRing, 0),
            (LeftMiddle, 700),
            (LeftIndex, 0),
            (RightIndex, 100),
            (RightMiddle, 0),
            (RightRing, 0),
            (RightPinky, 0),
            (Thumb, 0),
        ]
    );
    assert_eq!(
        stats.per_finger_sku,
        vec![
            (LeftPinky, 0),
            (LeftRing, 0),
            (LeftMiddle, 0),
            (LeftIndex, 200),
            (RightIndex, 0),
            (RightMiddle, 0),
            (RightRing, 0),
            (RightPinky, 0),
            (Thumb, 400),
        ]
    );
}

#[test]
fn the_fingers_add_up_to_the_total() {
    let bigrams = sample_bigrams();
    for geometry in [Geometry::ISO, Geometry::ANSI, Geometry::Ortho] {
        let stats = bigram_stats(&bigrams, geometry);
        let sfb: u64 = stats.per_finger_sfb.iter().map(|(_, w)| *w).sum();
        let sku: u64 = stats.per_finger_sku.iter().map(|(_, w)| *w).sum();
        assert_eq!(sfb, stats.total_sfb);
        assert_eq!(sku, stats.total_sku);
        let listed_sfb: u64 = stats.list_sfb.iter().map(|(_, w)| *w).sum();
        let listed_sku: u64 = stats.list_sku.iter().map(|(_, w)| *w).sum();
        assert_eq!(listed_sfb, stats.total_sfb);
        assert_eq!(listed_sku, stats.total_sku);
    }
    for category in [Category::Sku, Category::Sfb, Category::InRoll, Category::Scissors(Geometry::ANSI)] {
        let by_finger: u64 = per_finger(&bigrams, category).iter().map(|(_, w)| *w).sum();
        let by_hand: u64 = per_hand(&bigrams, category).iter().map(|(_, w)| *w).sum();
        let by_key: u64 = per_key(&bigrams, category).iter().map(|(_, w)| *w).sum();
        assert_eq!(by_finger, category_total(&bigrams, category));
        assert_eq!(by_hand, category_total(&bigrams, category));
        assert_eq!(by_key, category_total(&bigrams, category));
    }
}

#[test]
fn trigram_statistics() {
    let trigrams = vec![
        ([press('j', KeyJ), press('l', KeyL), press('k', KeyK)], 2), // redirect with an index
        ([press('k', KeyK), press(';', Semicolon), press('l', KeyL)], 3), // bad redirect
        ([press('a', KeyA), press('j', KeyJ), press('a', KeyA)], 5), // same key skip
        ([press('a', KeyA), press('j', KeyJ), press('q', KeyQ)], 7), // same finger skip
        ([press('j', KeyJ), press('k', KeyK), press('l', KeyL)], 11), // a roll, no redirect
        ([press('l', KeyL), press('k', KeyK), press('l', KeyL)], 1), // bad redirect and same key skip
    ];
    let stats = trigram_stats(&trigrams);
    assert_eq!(stats.total_redirects, 200);
    assert_eq!(stats.total_bad_redirects, 400);
    assert_eq!(stats.total_sks, 600);
    assert_eq!(stats.total_sfs, 700);
    assert_eq!(
        stats.list_sks,
        vec![
            ([press('a', KeyA), press('j', KeyJ), press('a', KeyA)], 500),
            ([press('l', KeyL), press('k', KeyK), press('l', KeyL)], 100),
        ]
    );
    assert_eq!(
        stats.list_bad_redirects,
        vec![
            ([press('k', KeyK), press(';', Semicolon), press('l', KeyL)], 300),
            ([press('l', KeyL), press('k', KeyK), press('l', KeyL)], 100),
        ]
    );
    assert_eq!(
        stats.list_redirects,
        vec![([press('j', KeyJ), press('l', KeyL), press('k', KeyK)], 200)]
    );
    assert_eq!(
        stats.list_sfs,
        vec![([press('a', KeyA), press('j', KeyJ), press('q', KeyQ)], 700)]
    );
}

#[test]
fn symbol_statistics() {
    let layout = simple_layout();
    let map = build_keyseq_map(&layout.keymap, &layout.deadkeys);
    let symbols = vec![('a', 5), ('x', 2), ('b', 1), ('y', 7), ('z', 2)];
    let stats = symbol_stats(&symbols, &map);
    assert_eq!(stats.total_unsupported, 1100);
    assert_eq!(stats.list_unsupported, vec![('y', 700), ('x', 200), ('z', 200)]);
}

#[test]
fn sums_and_rankings() {
    let list = vec![('a', 1), ('b', 3), ('c', 2), ('d', 3), ('e', 0), ('f', 2)];
    assert_eq!(result_sum(&list), 1100);
    assert_eq!(
        result_vec(list),
        vec![('b', 300), ('d', 300), ('c', 200), ('f', 200), ('a', 100), ('e', 0)]
    );
    assert_eq!(result_sum::<char>(&vec![]), 0);
    assert_eq!(result_vec::<char>(vec![]), vec![]);
    assert_eq!(result_vec(vec![('a', u64::MAX / 100)]), vec![('a', u64::MAX / 100 * 100)]);
}

#[test]
fn classes_and_groups() {
    let bigrams = sample_bigrams();
    let st = [press('s', KeyS), press('t', KeyT)];
    assert!(belongs(Category::Any, &st));
    assert!(belongs(Category::InRoll, &st));
    assert!(!belongs(Category::OutRoll, &st));
    assert!(!belongs(Category::Sfb, &st));
    assert!(!belongs(Category::Lsb(Geometry::Ortho), &st));
    assert!(belongs(Category::Lsb(Geometry::Ortho), &[press('e', KeyE), st[1]]));
    assert!(belongs(Category::Lsb(Geometry::ANSI), &[press('w', KeyW), press('b', KeyB)]));
    assert!(!belongs(Category::Lsb(Geometry::Ortho), &[press('w', KeyW), press('b', KeyB)]));
    assert!(!belongs(Category::Lsb(Geometry::Ortho), &[st[1], st[1]]));
    assert!(groups(Group::Finger(Finger::LeftRing), KeyS));
    assert!(groups(Group::Hand(Hand::Left), KeyS));
    assert!(groups(Group::Key(KeyS), KeyS));
    assert!(!groups(Group::Key(KeyS), KeyT));
    assert_eq!(Category::Any.arity(), 1);
    assert_eq!(Category::Scissors(Geometry::ISO).arity(), 2);
    assert_eq!(Category::BadRedirect.arity(), 3);
    assert_eq!(select(&bigrams, Category::Sfb), vec![bigrams[1], bigrams[5]]);
    assert_eq!(select(&bigrams, Category::Any), bigrams);
    assert_eq!(group_total(&bigrams, Category::Any, Group::Hand(Hand::Left)), 35);
    assert_eq!(group_total(&bigrams, Category::Any, Group::Hand(Hand::Right)), 8);
    assert_eq!(group_total(&bigrams, Category::Any, Group::Hand(Hand::Thumbs)), 4);
    assert_eq!(group_total(&bigrams, Category::InRoll, Group::Key(KeyQ)), 5);
    assert_eq!(
        ranked_list(&bigrams, Category::OutRoll),
        vec![([press('f', KeyF), press('d', KeyD)], 700)]
    );
    assert_eq!(
        name_all(&ranked_list(&bigrams, Category::OutRoll)),
        vec![([Character('f'), Character('d')], 700)]
    );
    assert_eq!(
        name_all(&vec![([KeySymbol::new(Symbol::DeadKey('^'), KeyQ, Base), st[0]], 9)]),
        vec![([Symbol::DeadKey('^'), Character('s')], 9)]
    );
}
