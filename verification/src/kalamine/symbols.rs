//! Symbols, dead keys and modifier levels, and how a layout file writes
//! them.

use crate::kalamine::json::{json_string, json_string_list, json_string_list_value, json_string_value};
use vstd::prelude::*;
use vstd::string::StringExecFns;

verus! {

/// Why a piece of a layout or corpus file was refused.
#[derive(Debug, Clone, Copy, PartialEq, Eq, Structural)]
pub enum ParseError {
    /// The text is not JSON of the expected shape.
    Json,
    /// A symbol is longer than one character and is not `*` and one
    /// character.
    InvalidSymbol,
    /// A dead key is not `*` and one character.
    InvalidDeadKey,
    /// A key lists more than four symbols.
    TooManySymbols,
    /// An n-gram does not have the number of characters of its table.
    NgramLength { expected: usize, got: usize },
}

/// What a key press produces: a character, or a dead key that changes the
/// symbol typed after it. One glyph may be bound as both.
#[derive(Debug, PartialEq, Eq, Hash, Clone, Copy, Structural)]
pub enum Symbol {
    Character(char),
    DeadKey(char),
}

/// The identity of a dead key.
#[derive(Debug, PartialEq, Eq, Clone, Copy, Hash, Structural)]
pub struct DeadKey {
    pub name: char,
}

/// A modifier level of a key.
#[derive(Debug, PartialEq, Eq, Hash, PartialOrd, Clone, Copy, Structural)]
pub enum Mod {
    Base,
    Shift,
    Altgr,
    AltgrShift,
}

/// The symbols of one key, one slot for each modifier level.
#[derive(Debug, PartialEq, Clone, Copy)]
pub struct ModMapping {
    pub map: [(Mod, Option<Symbol>); 4],
}

impl Symbol {
    /// The glyph of the symbol.
    pub open spec fn spec_name(self) -> char {
        match self {
            Symbol::Character(c) => c,
            Symbol::DeadKey(c) => c,
        }
    }

    #[verifier::when_used_as_spec(spec_name)]
    pub fn name(self) -> (c: char)
        ensures
            c == self.spec_name(),
    {
        match self {
            Symbol::Character(c) => c,
            Symbol::DeadKey(c) => c,
        }
    }

    /// The empty slot, written as the character of code zero, becomes no
    /// symbol; every other symbol stays.
    pub open spec fn spec_filter_empty(symbol: Option<Symbol>) -> Option<Symbol> {
        if symbol == Some(Symbol::Character('\0')) {
            None
        } else {
            symbol
        }
    }

    #[verifier::when_used_as_spec(spec_filter_empty)]
    pub fn filter_empty(symbol: Option<Symbol>) -> (res: Option<Symbol>)
        ensures
            res == Self::spec_filter_empty(symbol),
    {
        match symbol {
            Some(Symbol::Character(c)) => if c == '\0' {
                None
            } else {
                symbol
            },
            _ => symbol,
        }
    }

    /// The symbol that a string of a layout file stands for: the empty
    /// string is the empty slot, one character is that character, `*` and a
    /// character is a dead key.
    pub open spec fn spec_parse(s: Seq<char>) -> Result<Symbol, ParseError> {
        if s.len() == 0 {
            Ok(Symbol::Character('\0'))
        } else if s.len() == 1 {
            Ok(Symbol::Character(s[0]))
        } else if s.len() == 2 && s[0] == '*' {
            Ok(Symbol::DeadKey(s[1]))
        } else {
            Err(ParseError::InvalidSymbol)
        }
    }

    /// Reads a symbol as a layout file writes it.
    pub fn parse(s: &str) -> (res: Result<Symbol, ParseError>)
        ensures
            res == Self::spec_parse(s@),
    {
        let n: usize = s.unicode_len();
        if n == 0 {
            Ok(Symbol::Character('\0'))
        } else if n == 1 {
            Ok(Symbol::Character(s.get_char(0)))
        } else if n == 2 && s.get_char(0) == '*' {
            Ok(Symbol::DeadKey(s.get_char(1)))
        } else {
            Err(ParseError::InvalidSymbol)
        }
    }

    /// The symbol that a decoded JSON text stands for.
    pub open spec fn spec_from_decoded(decoded: Option<Seq<char>>) -> Result<Symbol, ParseError> {
        match decoded {
            Some(s) => Self::spec_parse(s),
            None => Err(ParseError::Json),
        }
    }

    /// Reads a symbol from JSON text, which must be one string.
    pub fn from_json(json: &str) -> (res: Result<Symbol, ParseError>)
        ensures
            res == Self::spec_from_decoded(json_string_value(json@)),
    {
        match json_string(json) {
            Ok(s) => Self::parse(s.as_str()),
            Err(_) => Err(ParseError::Json),
        }
    }
}

impl DeadKey {
    /// The dead key that a string of a layout file stands for: `*` and one
    /// character.
    pub open spec fn spec_parse(s: Seq<char>) -> Result<DeadKey, ParseError> {
        if s.len() == 2 && s[0] == '*' {
            Ok(DeadKey { name: s[1] })
        } else {
            Err(ParseError::InvalidDeadKey)
        }
    }

    /// Reads a dead key as a layout file writes it.
    pub fn parse(s: &str) -> (res: Result<DeadKey, ParseError>)
        ensures
            res == Self::spec_parse(s@),
    {
        let n: usize = s.unicode_len();
        if n == 2 && s.get_char(0) == '*' {
            Ok(DeadKey { name: s.get_char(1) })
        } else {
            Err(ParseError::InvalidDeadKey)
        }
    }

    /// The dead key that a decoded JSON text stands for.
    pub open spec fn spec_from_decoded(decoded: Option<Seq<char>>) -> Result<DeadKey, ParseError> {
        match decoded {
            Some(s) => Self::spec_parse(s),
            None => Err(ParseError::Json),
        }
    }

    /// Reads a dead key from JSON text, which must be one string.
    pub fn from_json(json: &str) -> (res: Result<DeadKey, ParseError>)
        ensures
            res == Self::spec_from_decoded(json_string_value(json@)),
    {
        match json_string(json) {
            Ok(s) => Self::parse(s.as_str()),
            Err(_) => Err(ParseError::Json),
        }
    }
}

impl Mod {
    /// The number of modifier keys held on this level.
    pub open spec fn spec_mod_count(&self) -> u32 {
        match *self {
            Mod::Base => 0,
            Mod::Shift => 1,
            Mod::Altgr => 1,
            Mod::AltgrShift => 2,
        }
    }

    #[verifier::when_used_as_spec(spec_mod_count)]
    pub fn mod_count(&self) -> (n: u32)
        ensures
            n == self.spec_mod_count(),
    {
        match self {
            Mod::Base => 0,
            Mod::Shift => 1,
            Mod::Altgr => 1,
            Mod::AltgrShift => 2,
        }
    }

    /// The place of the level among the four: base, shift, altgr, altgr
    /// with shift. A lower level is preferred to a higher one.
    pub open spec fn spec_level(&self) -> u32 {
        match *self {
            Mod::Base => 0,
            Mod::Shift => 1,
            Mod::Altgr => 2,
            Mod::AltgrShift => 3,
        }
    }

    #[verifier::when_used_as_spec(spec_level)]
    pub fn level(&self) -> (n: u32)
        ensures
            n == self.spec_level(),
    {
        match self {
            Mod::Base => 0,
            Mod::Shift => 1,
            Mod::Altgr => 2,
            Mod::AltgrShift => 3,
        }
    }

    /// The level at a place among the four; places past the third give the
    /// highest level.
    pub open spec fn spec_at(i: int) -> Mod {
        if i == 0 {
            Mod::Base
        } else if i == 1 {
            Mod::Shift
        } else if i == 2 {
            Mod::Altgr
        } else {
            Mod::AltgrShift
        }
    }
}

/// The four slots of a key that a list of symbols fills: the symbols go to
/// the levels in their order, an empty symbol and a missing one leave the
/// slot empty, and symbols past the fourth are dropped.
pub open spec fn spec_slots(symbols: Seq<Symbol>) -> Seq<(Mod, Option<Symbol>)> {
    Seq::new(
        4,
        |i: int|
            (
                Mod::spec_at(i),
                Symbol::spec_filter_empty(
                    if i < symbols.len() {
                        Some(symbols[i])
                    } else {
                        None
                    },
                ),
            ),
    )
}

/// The symbols that a list of strings stands for, where each of them
/// stands for one.
pub open spec fn spec_parse_symbols(strings: Seq<Seq<char>>) -> Result<Seq<Symbol>, ParseError> {
    if forall|i: int| 0 <= i < strings.len() ==> Symbol::spec_parse(#[trigger] strings[i]) is Ok {
        Ok(Seq::new(strings.len(), |i: int| Symbol::spec_parse(strings[i])->Ok_0))
    } else {
        Err(ParseError::InvalidSymbol)
    }
}

/// The string between double quotes, as JSON writes a string.
pub open spec fn spec_quoted(s: Seq<char>) -> Seq<char> {
    seq!['"'] + s + seq!['"']
}

/// The symbol that a string stands for once it was put between double
/// quotes and read as JSON.
pub open spec fn spec_quoted_symbol(s: Seq<char>) -> Result<Symbol, ParseError> {
    Symbol::spec_from_decoded(json_string_value(spec_quoted(s)))
}

/// Reads a string as a symbol the way `ModMapping::from` does.
fn quoted_symbol(s: &str) -> (res: Result<Symbol, ParseError>)
    ensures
        res == spec_quoted_symbol(s@),
{
    proof {
        reveal_strlit("\"");
    }
    let quoted = String::from_str("\"").concat(s).concat("\"");
    assert(quoted@ =~= spec_quoted(s@));
    Symbol::from_json(quoted.as_str())
}

impl ModMapping {
    /// The mapping of a key with the given symbols on its levels.
    pub fn from_symbols(symbols: &Vec<Symbol>) -> (m: ModMapping)
        ensures
            m.map@ == spec_slots(symbols@),
    {
        let n: usize = symbols.len();
        let m = ModMapping {
            map: [
                (
                    Mod::Base,
                    Symbol::filter_empty(
                        if 0 < n {
                            Some(symbols[0])
                        } else {
                            None
                        },
                    ),
                ),
                (
                    Mod::Shift,
                    Symbol::filter_empty(
                        if 1 < n {
                            Some(symbols[1])
                        } else {
                            None
                        },
                    ),
                ),
                (
                    Mod::Altgr,
                    Symbol::filter_empty(
                        if 2 < n {
                            Some(symbols[2])
                        } else {
                            None
                        },
                    ),
                ),
                (
                    Mod::AltgrShift,
                    Symbol::filter_empty(
                        if 3 < n {
                            Some(symbols[3])
                        } else {
                            None
                        },
                    ),
                ),
            ],
        };
        assert(m.map@ =~= spec_slots(symbols@));
        m
    }

    /// The slots that the strings of a key in a layout file stand for.
    /// Each string must stand for a symbol, and a key has four levels.
    pub open spec fn spec_parse(strings: Seq<Seq<char>>) -> Result<Seq<(Mod, Option<Symbol>)>, ParseError> {
        match spec_parse_symbols(strings) {
            Err(e) => Err(e),
            Ok(symbols) => if symbols.len() > 4 {
                Err(ParseError::TooManySymbols)
            } else {
                Ok(spec_slots(symbols))
            },
        }
    }

    /// Reads the mapping of a key from the strings of its levels.
    pub fn parse(strings: &Vec<String>) -> (res: Result<ModMapping, ParseError>)
        ensures
            match res {
                Ok(m) => Self::spec_parse(strings.deep_view()) == Ok::<_, ParseError>(m.map@),
                Err(e) => Self::spec_parse(strings.deep_view()) == Err::<Seq<(Mod, Option<Symbol>)>, _>(e),
            },
    {
        let ghost texts = strings.deep_view();
        let mut symbols: Vec<Symbol> = Vec::new();
        let mut i: usize = 0;
        while i < strings.len()
            invariant
                i <= strings@.len(),
                texts == strings.deep_view(),
                texts.len() == strings@.len(),
                symbols@.len() == i,
                forall|j: int| 0 <= j < i ==> Symbol::spec_parse(#[trigger] texts[j]) == Ok::<_, ParseError>(symbols@[j]),
            decreases strings@.len() - i,
        {
            assert(texts[i as int] == strings@[i as int]@);
            match Symbol::parse(strings[i].as_str()) {
                Ok(symbol) => {
                    symbols.push(symbol);
                },
                Err(e) => {
                    assert(!(Symbol::spec_parse(texts[i as int]) is Ok));
                    return Err(e);
                },
            }
            i += 1;
        }
        assert(spec_parse_symbols(texts) matches Ok(s) && s =~= symbols@);
        if symbols.len() > 4 {
            return Err(ParseError::TooManySymbols);
        }
        Ok(Self::from_symbols(&symbols))
    }

    /// The slots that a decoded JSON text stands for.
    pub open spec fn spec_from_decoded(decoded: Option<Seq<Seq<char>>>) -> Result<
        Seq<(Mod, Option<Symbol>)>,
        ParseError,
    > {
        match decoded {
            Some(strings) => Self::spec_parse(strings),
            None => Err(ParseError::Json),
        }
    }

    /// Reads the mapping of a key from JSON text, which must be a list of
    /// at most four strings.
    pub fn from_json(json: &str) -> (res: Result<ModMapping, ParseError>)
        ensures
            match res {
                Ok(m) => Self::spec_from_decoded(json_string_list_value(json@)) == Ok::<_, ParseError>(
                    m.map@,
                ),
                Err(e) => Self::spec_from_decoded(json_string_list_value(json@)) == Err::<
                    Seq<(Mod, Option<Symbol>)>,
                    _,
                >(e),
            },
    {
        match json_string_list(json) {
            Ok(strings) => Self::parse(&strings),
            Err(_) => Err(ParseError::Json),
        }
    }

    /// The symbols that a list of strings stands for when each is read as
    /// `ModMapping::from` reads it.
    pub open spec fn spec_quoted_symbols(strings: Seq<&str>) -> Seq<Symbol> {
        Seq::new(strings.len(), |i: int| spec_quoted_symbol(strings[i]@)->Ok_0)
    }

    /// Whether each string of a list stands for a symbol when it is read
    /// as `ModMapping::from` reads it.
    pub open spec fn spec_all_symbols(strings: Seq<&str>) -> bool {
        forall|i: int| 0 <= i < strings.len() ==> spec_quoted_symbol((#[trigger] strings[i])@) is Ok
    }

    /// The mapping of a key from the strings of its levels, for writing a
    /// layout down in code. Each string is read as a JSON string, so a
    /// backslash starts an escape; strings past the fourth are dropped.
    pub fn from(vec: Vec<&str>) -> (m: ModMapping)
        requires
            Self::spec_all_symbols(vec@),
        ensures
            m.map@ == spec_slots(Self::spec_quoted_symbols(vec@)),
    {
        let mut symbols: Vec<Symbol> = Vec::new();
        let mut i: usize = 0;
        while i < vec.len()
            invariant
                i <= vec@.len(),
                Self::spec_all_symbols(vec@),
                symbols@.len() == i,
                forall|j: int|
                    0 <= j < i ==> spec_quoted_symbol((#[trigger] vec@[j])@) == Ok::<_, ParseError>(
                        symbols@[j],
                    ),
            decreases vec@.len() - i,
        {
            assert(spec_quoted_symbol(vec@[i as int]@) is Ok);
            let symbol = quoted_symbol(vec[i]).unwrap();
            symbols.push(symbol);
            i += 1;
        }
        assert(symbols@ =~= Self::spec_quoted_symbols(vec@));
        Self::from_symbols(&symbols)
    }

    /// The same as `ModMapping::from`, for strings that may stand for no
    /// symbol: the result is `None` where one of them does not.
    pub fn checked_from(vec: Vec<&str>) -> (res: Option<ModMapping>)
        ensures
            match res {
                Some(m) => Self::spec_all_symbols(vec@) && m.map@ == spec_slots(
                    Self::spec_quoted_symbols(vec@),
                ),
                None => !Self::spec_all_symbols(vec@),
            },
    {
        let mut i: usize = 0;
        while i < vec.len()
            invariant
                i <= vec@.len(),
                forall|j: int| 0 <= j < i ==> spec_quoted_symbol((#[trigger] vec@[j])@) is Ok,
            decreases vec@.len() - i,
        {
            if quoted_symbol(vec[i]).is_err() {
                return None;
            }
            i += 1;
        }
        Some(Self::from(vec))
    }
}

/// The n-gram that a key of a table of the corpus stands for: its
/// characters, where it has as many as the table asks for.
pub open spec fn spec_ngram(s: Seq<char>, n: usize) -> Result<Seq<char>, ParseError> {
    if s.len() == n {
        Ok(s)
    } else {
        Err(ParseError::NgramLength { expected: n, got: s.len() as usize })
    }
}

/// Reads an n-gram of `N` characters.
pub fn ngram_from_str<const N: usize>(s: &str) -> (res: Result<[char; N], ParseError>)
    ensures
        match res {
            Ok(ngram) => spec_ngram(s@, N) == Ok::<_, ParseError>(ngram@),
            Err(e) => spec_ngram(s@, N) == Err::<Seq<char>, _>(e),
        },
{
    let n: usize = s.unicode_len();
    if n != N {
        return Err(ParseError::NgramLength { expected: N, got: n });
    }
    let mut ngram: [char; N] = ['\0';N];
    let mut t: usize = 0;
    while t < N
        invariant
            t <= N,
            s@.len() == N,
            forall|u: int| 0 <= u < t ==> ngram@[u] == s@[u],
        decreases N - t,
    {
        ngram[t] = s.get_char(t);
        t += 1;
    }
    assert(ngram@ =~= s@);
    Ok(ngram)
}

} // verus!
