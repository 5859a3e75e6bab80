use dict_core::distance::{damerau_levenshtein_distance, levenshtein_distance};
use dict_core::models::SearchResult;
use dict_core::rank::{
    append_new, Merger, contains_id, fuzzy_score, index_score, paginate, prefix_score, rank_results,
    score_exact_matches, score_prefix_matches, still_needed, total_needed,
};
use dict_core::search::{best_fuzzy_matches, extend_fuzzy_matches, score_fuzzy_candidates};

fn hit(id: i64, word: &str, score: u128) -> SearchResult {
    SearchResult::with_score(id, word.to_string(), "noun".to_string(), String::new(), score)
}

fn ids(results: &[SearchResult]) -> Vec<i64> {
    results.iter().map(|r| r.id).collect()
}

fn scores(results: &[SearchResult]) -> Vec<u128> {
    results.iter().map(|r| r.score).collect()
}

#[test]
fn test_total_needed_saturates() {
    assert_eq!(total_needed(10, 0), 10);
    assert_eq!(total_needed(10, 5), 15);
    assert_eq!(total_needed(0, 0), 0);
    assert_eq!(total_needed(u32::MAX, 1), u32::MAX);
    assert_eq!(total_needed(1, u32::MAX), u32::MAX);
    assert_eq!(total_needed(u32::MAX, u32::MAX), u32::MAX);
    assert_eq!(total_needed(u32::MAX - 1, 1), u32::MAX);
}

#[test]
fn test_still_needed() {
    assert_eq!(still_needed(10, 0), 10);
    assert_eq!(still_needed(10, 3), 7);
    assert_eq!(still_needed(10, 10), 0);
    assert_eq!(still_needed(10, 11), 0);
    assert_eq!(still_needed(0, 0), 0);
    assert_eq!(still_needed(u32::MAX, 1), u32::MAX - 1);
}

#[test]
fn test_tier_scores() {
    // prefix: 1.0 and a tenth for each byte beyond the query, never less than 1.0
    assert_eq!(prefix_score(4, 3), 1_100_000);
    assert_eq!(prefix_score(10, 3), 1_700_000);
    assert_eq!(prefix_score(3, 3), 1_000_000);
    assert_eq!(prefix_score(2, 3), 1_000_000);
    assert_eq!(prefix_score(18, 3), 2_500_000);
    assert_eq!(prefix_score(usize::MAX, 0), 1_000_000 + 100_000 * (usize::MAX as u128));
    // index: 2.0 and the size of the rank
    assert_eq!(index_score(0), 2_000_000);
    assert_eq!(index_score(-1_500_000), 3_500_000);
    assert_eq!(index_score(1_500_000), 3_500_000);
    assert_eq!(index_score(-1), 2_000_001);
    assert_eq!(index_score(i64::MIN), 2_000_000 + (1u128 << 63));
    assert_eq!(index_score(i64::MAX), 2_000_000 + (i64::MAX as u128));
    // fuzzy: 3.0 and the distance
    assert_eq!(fuzzy_score(1), 4_000_000);
    assert_eq!(fuzzy_score(2), 5_000_000);
    assert_eq!(fuzzy_score(0), 3_000_000);
}

#[test]
fn test_contains_id() {
    let results = vec![hit(1, "a", 0), hit(-2, "b", 0)];
    assert!(contains_id(&results, 1));
    assert!(contains_id(&results, -2));
    assert!(!contains_id(&results, 2));
    assert!(!contains_id(&vec![], 1));
}

#[test]
fn test_append_new_skips_entries_that_are_there() {
    let mut results = vec![hit(1, "hello", 0)];
    append_new(
        &mut results,
        vec![hit(1, "hello", 1_000_000), hit(2, "hellos", 1_100_000), hit(2, "again", 7), hit(3, "x", 9)],
    );
    assert_eq!(ids(&results), vec![1, 2, 3]);
    // the one that came first stays, with its score
    assert_eq!(scores(&results), vec![0, 1_100_000, 9]);
    assert_eq!(results[1].word, "hellos");

    append_new(&mut results, vec![]);
    assert_eq!(ids(&results), vec![1, 2, 3]);

    let mut empty: Vec<SearchResult> = vec![];
    append_new(&mut empty, vec![hit(5, "a", 1), hit(5, "b", 2)]);
    assert_eq!(ids(&empty), vec![5]);
    assert_eq!(empty[0].word, "a");
}

#[test]
fn test_score_exact_and_prefix_matches() {
    let exact = score_exact_matches(vec![hit(1, "hello", 77), hit(2, "hello", 3)]);
    assert_eq!(ids(&exact), vec![1, 2]);
    assert_eq!(scores(&exact), vec![0, 0]);

    let prefix = score_prefix_matches(
        vec![hit(1, "help", 0), hit(2, "helicopter", 9), hit(3, "hé", 0), hit(4, "hel", 0)],
        3,
    );
    assert_eq!(ids(&prefix), vec![1, 2, 3, 4]);
    // lengths are counted in bytes: "hé" has three
    assert_eq!(scores(&prefix), vec![1_100_000, 1_700_000, 1_000_000, 1_000_000]);
    assert_eq!(prefix[1].word, "helicopter");
}

#[test]
fn test_rank_results_is_stable() {
    let ranked = rank_results(vec![
        hit(1, "a", 5),
        hit(2, "b", 0),
        hit(3, "c", 5),
        hit(4, "d", 2),
        hit(5, "e", 0),
        hit(6, "f", 5),
    ]);
    assert_eq!(ids(&ranked), vec![2, 5, 4, 1, 3, 6]);
    assert_eq!(scores(&ranked), vec![0, 0, 2, 5, 5, 5]);
    assert_eq!(ranked[2].word, "d");
    assert!(rank_results(vec![]).is_empty());
    assert_eq!(ids(&rank_results(vec![hit(9, "z", 1)])), vec![9]);
}

#[test]
fn test_rank_interleaves_the_tiers_by_score() {
    // a long prefix match scores beyond a match of the text index
    let ranked = rank_results(vec![
        hit(1, "exact", 0),
        hit(2, "short prefix", 1_100_000),
        hit(3, "long prefix", 2_500_000),
        hit(4, "indexed", 2_000_001),
        hit(5, "fuzzy", 4_000_000),
    ]);
    assert_eq!(ids(&ranked), vec![1, 2, 4, 3, 5]);
}

#[test]
fn test_paginate_windows() {
    let all = || (1..=5).map(|i| hit(i, "w", i as u128)).collect::<Vec<_>>();
    assert_eq!(ids(&paginate(all(), 0, 2)), vec![1, 2]);
    assert_eq!(ids(&paginate(all(), 2, 2)), vec![3, 4]);
    assert_eq!(ids(&paginate(all(), 4, 2)), vec![5]);
    assert_eq!(ids(&paginate(all(), 0, 4)), vec![1, 2, 3, 4]);
    assert_eq!(ids(&paginate(all(), 0, 10)), vec![1, 2, 3, 4, 5]);
    assert!(paginate(all(), 5, 2).is_empty());
    assert!(paginate(all(), 6, 2).is_empty());
    assert!(paginate(all(), 0, 0).is_empty());
    assert!(paginate(all(), u32::MAX, u32::MAX).is_empty());
    assert_eq!(ids(&paginate(all(), 1, u32::MAX)), vec![2, 3, 4, 5]);
    assert!(paginate(vec![], 0, 3).is_empty());
}

#[test]
fn test_adjacent_pages_make_up_the_wider_page() {
    let all = || (1..=7).map(|i| hit(i, "w", (i % 3) as u128)).collect::<Vec<_>>();
    for offset in 0..9u32 {
        for first in 0..4u32 {
            for second in 0..4u32 {
                let mut both = ids(&paginate(rank_results(all()), offset, first));
                both.extend(ids(&paginate(rank_results(all()), offset + first, second)));
                assert_eq!(both, ids(&paginate(rank_results(all()), offset, first + second)));
            }
        }
    }
}

#[test]
fn test_score_fuzzy_candidates_keeps_near_words_only() {
    let found = score_fuzzy_candidates(
        "helo",
        vec![
            hit(1, "hello", 0),      // one insertion
            hit(2, "helo", 0),       // the query itself: left to the exact tier
            hit(3, "help", 0),       // one substitution
            hit(4, "helps", 0),      // two edits
            hit(5, "helper", 0),     // three edits: too far
            hit(6, "HELLO", 0),      // case is set aside
            hit(7, "Helo", 0),       // the query itself, case aside
        ],
    );
    assert_eq!(ids(&found), vec![1, 3, 4, 6]);
    assert_eq!(scores(&found), vec![4_000_000, 4_000_000, 5_000_000, 4_000_000]);
    assert_eq!(found[3].word, "HELLO");
}

#[test]
fn test_fuzzy_distance_counts_characters_not_bytes() {
    let found = score_fuzzy_candidates("naïve", vec![hit(1, "naive", 0), hit(2, "naïves", 0)]);
    assert_eq!(ids(&found), vec![1, 2]);
    assert_eq!(scores(&found), vec![4_000_000, 4_000_000]);
}

#[test]
fn test_transposition_costs_two() {
    // plain Levenshtein decides: a swap of neighbours is two edits
    let found = score_fuzzy_candidates("hlelo", vec![hit(1, "hello", 0), hit(2, "hellos", 0)]);
    assert_eq!(ids(&found), vec![1]);
    assert_eq!(scores(&found), vec![5_000_000]);
}

#[test]
fn test_extend_fuzzy_matches_skips_what_was_found() {
    let mut found = vec![hit(1, "hello", 4_000_000)];
    extend_fuzzy_matches(
        "helo",
        &mut found,
        vec![hit(1, "hello", 0), hit(8, "velo", 0), hit(9, "below", 0), hit(8, "halo", 0), hit(10, "zzz", 0)],
    );
    assert_eq!(ids(&found), vec![1, 8, 9]);
    assert_eq!(scores(&found), vec![4_000_000, 4_000_000, 5_000_000]);
    assert_eq!(found[1].word, "velo");
}

#[test]
fn test_best_fuzzy_matches() {
    let found = || vec![hit(1, "a", 5_000_000), hit(2, "b", 4_000_000), hit(3, "c", 5_000_000), hit(4, "d", 4_000_000)];
    assert_eq!(ids(&best_fuzzy_matches(found(), 3)), vec![2, 4, 1]);
    assert_eq!(ids(&best_fuzzy_matches(found(), 10)), vec![2, 4, 1, 3]);
    assert!(best_fuzzy_matches(found(), 0).is_empty());
}

#[test]
fn test_distance_boundaries() {
    assert_eq!(levenshtein_distance("kitten", "sitting"), 3);
    assert_eq!(levenshtein_distance("", "abc"), 3);
    assert_eq!(levenshtein_distance("abc", ""), 3);
    for x in ["", "a", "hello", "naïve", "日本語", "😀😀", "a b c"] {
        assert_eq!(levenshtein_distance(x, x), 0);
        assert_eq!(damerau_levenshtein_distance(x, x), 0);
    }
}

#[test]
fn test_distance_is_symmetric_and_bounded() {
    let words = ["", "a", "ab", "ba", "abc", "kitten", "sitting", "flaw", "lawn", "héllo", "hello"];
    for a in words {
        for b in words {
            let d = levenshtein_distance(a, b);
            assert_eq!(d, levenshtein_distance(b, a));
            let (m, n) = (a.chars().count(), b.chars().count());
            assert!(d <= m.max(n));
            assert!(d >= m.max(n) - m.min(n));
            assert_eq!(d == 0, a == b);
            let t = damerau_levenshtein_distance(a, b);
            assert!(t <= d);
            assert_eq!(t, damerau_levenshtein_distance(b, a));
        }
    }
}

#[test]
fn test_distance_counts_characters() {
    // one character each, of two, three and four bytes
    assert_eq!(levenshtein_distance("é", "e"), 1);
    assert_eq!(levenshtein_distance("日本語", "日本"), 1);
    assert_eq!(levenshtein_distance("😀", ""), 1);
    assert_eq!(levenshtein_distance("flaw", "lawn"), 2);
    assert_eq!(levenshtein_distance("saturday", "sunday"), 3);
    // the longer string may come first
    assert_eq!(levenshtein_distance("sitting", "kitten"), 3);
    assert_eq!(levenshtein_distance("helicopter", "help"), 6);
}

#[test]
fn test_damerau_levenshtein_swaps() {
    assert_eq!(damerau_levenshtein_distance("", "abc"), 3);
    assert_eq!(damerau_levenshtein_distance("abc", ""), 3);
    assert_eq!(damerau_levenshtein_distance("abcd", "acbd"), 1);
    assert_eq!(damerau_levenshtein_distance("abcd", "badc"), 2);
    // the restricted form: no edit between the two characters of a swap
    assert_eq!(damerau_levenshtein_distance("ca", "abc"), 3);
    assert_eq!(damerau_levenshtein_distance("kitten", "sitting"), 3);
    assert_eq!(damerau_levenshtein_distance("éa", "aé"), 1);
}

#[test]
fn test_distance_over_code_points() {
    // a combining mark is a character of its own
    assert_eq!(levenshtein_distance("e\u{301}", "\u{e9}"), 2);
    assert_eq!(levenshtein_distance("e\u{301}", "e"), 1);
    assert_eq!(levenshtein_distance("cafe\u{301}", "cafe"), 1);
    // characters beyond the basic plane count once
    assert_eq!(levenshtein_distance("a\u{1F600}b", "ab"), 1);
    assert_eq!(levenshtein_distance("\u{1F600}\u{1F601}", "\u{1F601}\u{1F600}"), 2);
    assert_eq!(damerau_levenshtein_distance("\u{1F600}\u{1F601}", "\u{1F601}\u{1F600}"), 1);
}

#[test]
fn test_merger_threads_what_is_still_wanted() {
    let mut merger = Merger::new(3, 1);
    assert_eq!(merger.wanted(), 4);
    merger.take(score_exact_matches(vec![hit(1, "hello", 9)]));
    assert_eq!(merger.wanted(), 3);
    // the exact match comes again as a prefix match, and is passed over
    merger.take(score_prefix_matches(vec![hit(1, "hello", 0), hit(2, "hellos", 0)], 5));
    assert_eq!(merger.wanted(), 2);
    merger.take(vec![hit(3, "hello world", 2_000_400), hit(4, "hello there", 2_000_100)]);
    assert_eq!(merger.wanted(), 0);
    // more than was wanted may come in; the window cuts it
    merger.take(vec![hit(5, "hallo", 4_000_000)]);
    assert_eq!(merger.wanted(), 0);
    let window = merger.finish(1, 3);
    assert_eq!(ids(&window), vec![2, 4, 3]);
    assert_eq!(scores(&window), vec![1_100_000, 2_000_100, 2_000_400]);
}

#[test]
fn test_merger_that_wants_nothing() {
    let merger = Merger::new(0, 0);
    assert_eq!(merger.wanted(), 0);
    assert!(merger.finish(0, 0).is_empty());
    let merger = Merger::new(u32::MAX, u32::MAX);
    assert_eq!(merger.wanted(), u32::MAX);
    assert!(merger.finish(u32::MAX, u32::MAX).is_empty());
}
