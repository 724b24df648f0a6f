use klayan::kalamine::symbols::{ngram_from_str, ParseError};
use klayan::kalamine::{DeadKey, Mod, ModMapping, Symbol};

#[test]
fn symbols_deserialize_symbol_single_character() {
    let json = r#""a""#;
    let symbol: Symbol = Symbol::from_json(json).unwrap();
    assert_eq!(symbol, Symbol::Character('a'));
}

#[test]
fn symbols_deserialize_symbol_dead_key() {
    let json = r#""*^""#;
    let symbol: Symbol = Symbol::from_json(json).unwrap();
    assert_eq!(symbol, Symbol::DeadKey('^'));
    assert_eq!(Symbol::from_json(r#""**""#), Ok(Symbol::DeadKey('*')));
}

#[test]
fn symbols_deserialize_symbol_none() {
    let json = r#""""#;
    let symbol: Symbol = Symbol::from_json(json).unwrap();
    assert_eq!(symbol, Symbol::Character('\x00'));
}

#[test]
fn symbols_deserialize_symbol_invalid_extra_characters() {
    let json = r#""*ab""#;
    let result: Result<Symbol, _> = Symbol::from_json(json);
    assert!(result.is_err());
    assert_eq!(result, Err(ParseError::InvalidSymbol));
}

#[test]
fn symbols_deserialize_symbol_invalid_dead_key_format() {
    let json = r#""ab""#;
    let result: Result<Symbol, _> = Symbol::from_json(json);
    assert!(result.is_err());
    assert_eq!(result, Err(ParseError::InvalidSymbol));
}

#[test]
fn symbols_deserialize_symbol_escaped_char() {
    let json = r#""\\""#;
    let symbol: Symbol = Symbol::from_json(json).unwrap();
    assert_eq!(symbol, Symbol::Character('\\'));
}

#[test]
fn symbols_deserialize_symbol_unicode() {
    let json = r#""ඞ""#;
    let symbol: Symbol = Symbol::from_json(json).unwrap();
    assert_eq!(symbol, Symbol::Character('ඞ'));
}

#[test]
fn deserialize_dead_key() {
    let json = r#""*^""#;
    let deadkey: DeadKey = DeadKey::from_json(json).unwrap();
    assert_eq!(deadkey, DeadKey { name: '^' });
}

#[test]
fn deserialize_dead_key_invalid() {
    let json = r#""a""#;
    let result: Result<DeadKey, _> = DeadKey::from_json(json);
    assert!(result.is_err());
    assert_eq!(result, Err(ParseError::InvalidDeadKey));
}

#[test]
fn deserialize_dead_key_extra_characters() {
    let json = r#""*ab""#;
    let result: Result<DeadKey, _> = DeadKey::from_json(json);
    assert!(result.is_err());
    assert_eq!(result, Err(ParseError::InvalidDeadKey));
}

#[test]
fn symbols_deserialize_layers() {
    let json = r#"["**", "", "a"]"#;
    let symbols: ModMapping = ModMapping::from_json(json).unwrap();
    let expected = ModMapping {
        map: [
            (Mod::Base, Some(Symbol::DeadKey('*'))),
            (Mod::Shift, None),
            (Mod::Altgr, Some(Symbol::Character('a'))),
            (Mod::AltgrShift, None),
        ],
    };
    assert_eq!(symbols, expected);
}

#[test]
fn symbols_deserialize_layers_empty() {
    let json = r#"[]"#;
    let symbols: ModMapping = ModMapping::from_json(json).unwrap();
    let expected = ModMapping {
        map: [
            (Mod::Base, None),
            (Mod::Shift, None),
            (Mod::Altgr, None),
            (Mod::AltgrShift, None),
        ],
    };
    assert_eq!(symbols, expected);
}

#[test]
fn symbols_deserialize_layers_too_many() {
    let json = r#"["a", "b", "c", "d", "e"]"#;
    let result: Result<ModMapping, _> = ModMapping::from_json(json);
    assert!(result.is_err());
    assert_eq!(result, Err(ParseError::TooManySymbols));
}

#[test]
fn text_that_is_not_json_of_the_shape() {
    assert_eq!(Symbol::from_json("a"), Err(ParseError::Json));
    assert_eq!(Symbol::from_json(r#"["a"]"#), Err(ParseError::Json));
    assert_eq!(Symbol::from_json(r#""a" "b""#), Err(ParseError::Json));
    assert_eq!(DeadKey::from_json("12"), Err(ParseError::Json));
    assert_eq!(ModMapping::from_json(r#""a""#), Err(ParseError::Json));
    assert_eq!(ModMapping::from_json(r#"["a", 1]"#), Err(ParseError::Json));
    assert_eq!(ModMapping::from_json(r#"["a", "bc"]"#), Err(ParseError::InvalidSymbol));
    assert_eq!(
        ModMapping::from_json(r#"["a", "b", "c", "d", "ef"]"#),
        Err(ParseError::InvalidSymbol)
    );
    assert_eq!(Symbol::from_json(" \"\\u0041\" "), Ok(Symbol::Character('A')));
}

#[test]
fn parse_symbol() {
    assert_eq!(Symbol::parse(""), Ok(Symbol::Character('\0')));
    assert_eq!(Symbol::parse("*"), Ok(Symbol::Character('*')));
    assert_eq!(Symbol::parse("é"), Ok(Symbol::Character('é')));
    assert_eq!(Symbol::parse("*é"), Ok(Symbol::DeadKey('é')));
    assert_eq!(Symbol::parse("é*"), Err(ParseError::InvalidSymbol));
    assert_eq!(Symbol::parse("*ab"), Err(ParseError::InvalidSymbol));
    assert_eq!(DeadKey::parse("**"), Ok(DeadKey { name: '*' }));
    assert_eq!(DeadKey::parse("*"), Err(ParseError::InvalidDeadKey));
    assert_eq!(DeadKey::parse("a^"), Err(ParseError::InvalidDeadKey));
    assert_eq!(Symbol::Character('x').name(), 'x');
    assert_eq!(Symbol::DeadKey('^').name(), '^');
}

#[test]
fn filter_empty() {
    assert_eq!(Symbol::filter_empty(None), None);
    assert_eq!(Symbol::filter_empty(Some(Symbol::Character('\0'))), None);
    assert_eq!(
        Symbol::filter_empty(Some(Symbol::DeadKey('\0'))),
        Some(Symbol::DeadKey('\0'))
    );
    assert_eq!(
        Symbol::filter_empty(Some(Symbol::Character('a'))),
        Some(Symbol::Character('a'))
    );
}

#[test]
fn modifier_levels() {
    assert_eq!(Mod::Base.mod_count(), 0);
    assert_eq!(Mod::Shift.mod_count(), 1);
    assert_eq!(Mod::Altgr.mod_count(), 1);
    assert_eq!(Mod::AltgrShift.mod_count(), 2);
    assert_eq!(Mod::Base.level(), 0);
    assert_eq!(Mod::Shift.level(), 1);
    assert_eq!(Mod::Altgr.level(), 2);
    assert_eq!(Mod::AltgrShift.level(), 3);
    assert!(Mod::Base < Mod::Shift && Mod::Shift < Mod::Altgr && Mod::Altgr < Mod::AltgrShift);
}

#[test]
fn mapping_from_strings() {
    let mapping = ModMapping::from(vec!["*^", "-"]);
    let expected = ModMapping {
        map: [
            (Mod::Base, Some(Symbol::DeadKey('^'))),
            (Mod::Shift, Some(Symbol::Character('-'))),
            (Mod::Altgr, None),
            (Mod::AltgrShift, None),
        ],
    };
    assert_eq!(mapping, expected);
    assert_eq!(ModMapping::checked_from(vec!["*^", "-"]), Some(expected));
    assert_eq!(ModMapping::checked_from(vec!["ab"]), None);
    assert_eq!(ModMapping::checked_from(vec!["\""]), None);
    assert_eq!(ModMapping::checked_from(vec!["\\"]), None);
    assert_eq!(
        ModMapping::checked_from(vec!["\\\\", "", "\\u00e9", "d", "e"]),
        Some(ModMapping {
            map: [
                (Mod::Base, Some(Symbol::Character('\\'))),
                (Mod::Shift, None),
                (Mod::Altgr, Some(Symbol::Character('é'))),
                (Mod::AltgrShift, Some(Symbol::Character('d'))),
            ],
        })
    );
}

#[test]
fn mapping_from_symbols() {
    let mapping = ModMapping::from_symbols(&vec![Symbol::Character('\0'), Symbol::DeadKey('x')]);
    assert_eq!(
        mapping.map,
        [
            (Mod::Base, None),
            (Mod::Shift, Some(Symbol::DeadKey('x'))),
            (Mod::Altgr, None),
            (Mod::AltgrShift, None),
        ]
    );
    let strings = vec![String::from("a"), String::from(""), String::from("*b")];
    assert_eq!(
        ModMapping::parse(&strings).unwrap().map,
        [
            (Mod::Base, Some(Symbol::Character('a'))),
            (Mod::Shift, None),
            (Mod::Altgr, Some(Symbol::DeadKey('b'))),
            (Mod::AltgrShift, None),
        ]
    );
}

#[test]
fn ngrams_of_the_corpus() {
    assert_eq!(ngram_from_str::<1>("a"), Ok(['a']));
    assert_eq!(ngram_from_str::<2>("éb"), Ok(['é', 'b']));
    assert_eq!(ngram_from_str::<3>("abc"), Ok(['a', 'b', 'c']));
    assert_eq!(
        ngram_from_str::<1>("ab"),
        Err(ParseError::NgramLength { expected: 1, got: 2 })
    );
    assert_eq!(
        ngram_from_str::<3>(""),
        Err(ParseError::NgramLength { expected: 3, got: 0 })
    );
}
