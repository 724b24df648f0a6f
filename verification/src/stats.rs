//! The statistics of a layout over a corpus.

pub mod bigrams;
pub mod classes;
pub mod symbols;
pub mod tables;
pub mod trigrams;
pub mod unigrams;
pub mod utils;

use crate::corpus::{
    keysym_freq, keysym_ngram_freq, ngrams_view, project, singles_view, total_weight, unigrams_view,
    weights_view,
};
use crate::geometry::Geometry;
use crate::kalamine::{Corpus, Layout};
use crate::keyseq::build_keyseq_map;
use crate::resolution::{layers_view, resolve, KeySeqs};
use crate::stats::bigrams::{bigram_stats, BigramStats};
use crate::stats::symbols::{symbol_stats, SymbolStats};
use crate::stats::trigrams::{trigram_stats, TrigramStats};
use crate::stats::unigrams::{unigram_stats, UnigramStats};
use crate::stats::utils::{lemma_total_same, plain_view, weights_fit};
use vstd::prelude::*;

verus! {

/// The statistics of a layout over a corpus.
#[derive(Debug, Clone, PartialEq)]
pub struct Stats {
    pub symbols: SymbolStats,
    pub unigrams: UnigramStats,
    pub bigrams: BigramStats,
    pub trigrams: TrigramStats,
}

/// The presses of every character of a layout.
pub open spec fn layout_keyseqs(layout: &Layout) -> KeySeqs {
    resolve(layout.keymap@, layers_view(layout.deadkeys@))
}

/// Whether the weights of a corpus, projected onto the presses of a
/// layout and counted in hundredths, add up within 64 bits, table by
/// table.
pub open spec fn analysable(layout: &Layout, corpus: &Corpus) -> bool {
    let map = layout_keyseqs(layout);
    &&& 100 * total_weight(plain_view(corpus.symbols@)) <= u64::MAX
    &&& 100 * total_weight(project(singles_view(corpus.symbols@), map, 1)) <= u64::MAX
    &&& 100 * total_weight(project(ngrams_view(corpus.digrams@), map, 2)) <= u64::MAX
    &&& 100 * total_weight(project(ngrams_view(corpus.trigrams@), map, 3)) <= u64::MAX
}

impl Stats {
    /// Whether these are the statistics of a layout over a corpus on a
    /// board.
    pub open spec fn describes(&self, layout: &Layout, corpus: &Corpus, geometry: Geometry) -> bool {
        let map = layout_keyseqs(layout);
        &&& self.symbols.describes(plain_view(corpus.symbols@), map)
        &&& self.unigrams.describes(project(singles_view(corpus.symbols@), map, 1))
        &&& self.bigrams.describes(project(ngrams_view(corpus.digrams@), map, 2), geometry)
        &&& self.trigrams.describes(project(ngrams_view(corpus.trigrams@), map, 3))
    }
}

/// Scores a layout against a corpus on a board.
///
/// The characters of the layout are resolved to presses, the tables of the
/// corpus are projected onto presses, and the presses are classified and
/// summed. The result is `None` exactly where the weights are too large to
/// add up.
pub fn analyse(layout: &Layout, corpus: &Corpus, geometry: Geometry) -> (res: Option<Stats>)
    ensures
        match res {
            Some(stats) => analysable(layout, corpus) && stats.describes(layout, corpus, geometry),
            None => !analysable(layout, corpus),
        },
{
    let char_to_keyseq = build_keyseq_map(&layout.keymap, &layout.deadkeys);

    if !weights_fit(&corpus.symbols) {
        return None;
    }
    let symbol_stats = symbol_stats(&corpus.symbols, &char_to_keyseq);

    let symbol_freq = match keysym_freq(&corpus.symbols, &char_to_keyseq) {
        Some(table) => table,
        None => {
            return None;
        },
    };
    proof {
        lemma_total_same(plain_view(symbol_freq@), unigrams_view(symbol_freq@));
    }
    if !weights_fit(&symbol_freq) {
        return None;
    }
    let unigram_stats = unigram_stats(&symbol_freq);

    let bigrams_freq = match keysym_ngram_freq(&corpus.digrams, &char_to_keyseq) {
        Some(table) => table,
        None => {
            return None;
        },
    };
    proof {
        lemma_total_same(plain_view(bigrams_freq@), weights_view(bigrams_freq@));
    }
    if !weights_fit(&bigrams_freq) {
        return None;
    }
    let bigram_stats = bigram_stats(&bigrams_freq, geometry);

    let trigrams_freq = match keysym_ngram_freq(&corpus.trigrams, &char_to_keyseq) {
        Some(table) => table,
        None => {
            return None;
        },
    };
    proof {
        lemma_total_same(plain_view(trigrams_freq@), weights_view(trigrams_freq@));
    }
    if !weights_fit(&trigrams_freq) {
        return None;
    }
    let trigram_stats = trigram_stats(&trigrams_freq);

    Some(
        Stats {
            symbols: symbol_stats,
            unigrams: unigram_stats,
            bigrams: bigram_stats,
            trigrams: trigram_stats,
        },
    )
}

/// The length of the longest list of a report.
pub fn max_list_len(stats: &Stats) -> (n: usize)
    ensures
        n >= stats.symbols.list_unsupported@.len(),
        n >= stats.bigrams.list_sku@.len(),
        n >= stats.bigrams.list_sfb@.len(),
        n >= stats.bigrams.list_lsb@.len(),
        n >= stats.bigrams.list_scissors@.len(),
        n >= stats.bigrams.list_in_rolls@.len(),
        n >= stats.bigrams.list_out_rolls@.len(),
        n >= stats.trigrams.list_sks@.len(),
        n >= stats.trigrams.list_sfs@.len(),
        n >= stats.trigrams.list_redirects@.len(),
        n >= stats.trigrams.list_bad_redirects@.len(),
        n == stats.symbols.list_unsupported@.len() || n == stats.bigrams.list_sku@.len() || n
            == stats.bigrams.list_sfb@.len() || n == stats.bigrams.list_lsb@.len() || n
            == stats.bigrams.list_scissors@.len() || n == stats.bigrams.list_in_rolls@.len() || n
            == stats.bigrams.list_out_rolls@.len() || n == stats.trigrams.list_sks@.len() || n
            == stats.trigrams.list_sfs@.len() || n == stats.trigrams.list_redirects@.len() || n
            == stats.trigrams.list_bad_redirects@.len(),
{
    let mut n: usize = stats.symbols.list_unsupported.len();
    n = larger(n, stats.bigrams.list_sku.len());
    n = larger(n, stats.bigrams.list_sfb.len());
    n = larger(n, stats.bigrams.list_lsb.len());
    n = larger(n, stats.bigrams.list_scissors.len());
    n = larger(n, stats.bigrams.list_in_rolls.len());
    n = larger(n, stats.bigrams.list_out_rolls.len());
    n = larger(n, stats.trigrams.list_sks.len());
    n = larger(n, stats.trigrams.list_sfs.len());
    n = larger(n, stats.trigrams.list_redirects.len());
    n = larger(n, stats.trigrams.list_bad_redirects.len());
    n
}

fn larger(a: usize, b: usize) -> (m: usize)
    ensures
        m >= a,
        m >= b,
        m == a || m == b,
{
    if a >= b {
        a
    } else {
        b
    }
}

} // verus!
