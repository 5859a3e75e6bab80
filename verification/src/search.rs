//! The search itself: four tiers of decreasing confidence, asked in order
//! while results are still wanted, merged, ranked and paged.

use crate::db::run_query;
use crate::distance::{lemma_levenshtein_bounds, levenshtein, levenshtein_distance};
use crate::models::{hits, Hit, SearchResult};
use crate::preview::{preview, truncate_preview, DEFAULT_PREVIEW_LENGTH};
use crate::query::{
    fts_query, fuzzy_prefix, fuzzy_suffix, normalize, prefix_pattern, prepare_fts_query,
};
use crate::rank::{
    contains_id, demand, distinct_ids, exact_scored, fuzzy_score, fuzzy_score_of,
    has_id, id_set, index_score, index_score_of, lemma_adjacent_pages, lemma_id_set_concat,
    lemma_merged_distinct, lemma_merged_extends, lemma_page, lemma_page_keeps_order, lemma_ranked,
    lemma_ranked_distinct, lemma_ranked_stable, merged, page, paginate, prefix_scored,
    rank_results, ranked, rescored, score_exact_matches, score_prefix_matches, sorted_by_score,
    with_score, Merger, EXACT_SCORE,
};
use crate::store::{fits, sql_int, sql_text, Row, RowShape};
use crate::text::{chars_of, is_whitespace, lemma_trimmed_blank, lowercase, trimmed};
use crate::{DictError, DictHandle};
use rusqlite::types::Value;
use vstd::prelude::*;
use vstd::string::StringSliceAdditionalSpecFns;
use vstd::utf8::encode_utf8;

verus! {

/// The largest edit distance at which a word still counts as a fuzzy match.
pub const MAX_FUZZY_DISTANCE: usize = 2;

/// The fewest characters a query must have for the fuzzy tier to be asked:
/// shorter queries are within reach of too many words.
pub const MIN_FUZZY_QUERY_LENGTH: usize = 3;

/// The fewest characters a query must have for the second fuzzy scan.
pub const MIN_SUFFIX_SCAN_LENGTH: usize = 2;

// ----------------------------------------------------------------------
// What a search returns, as a function of what the store answers
// ----------------------------------------------------------------------

/// An entry that the text index matched.
pub struct RankedHit {
    /// The entry.
    pub hit: Hit,
    /// The rank that the index gave it, in millionths.
    pub rank: i64,
}

/// What the store answered to the lookups of one search. A lookup that the
/// search did not make has no part in the outcome.
pub struct StoreAnswers {
    /// Entries whose word is the query.
    pub exact: Seq<Hit>,
    /// Entries whose word starts with the query, shortest first.
    pub prefix: Seq<Hit>,
    /// Entries that the text index matched, in the order of their rank.
    pub index: Seq<RankedHit>,
    /// Entries that start as the lowercase query does.
    pub near: Seq<Hit>,
    /// Entries that hold the lowercase query without its first character.
    pub far: Seq<Hit>,
}

/// The matches of the text index as the merger takes them: each scored by
/// its rank.
pub open spec fn index_scored(matches: Seq<RankedHit>) -> Seq<Hit> {
    matches.map_values(|m: RankedHit| rescored(m.hit, index_score_of(m.rank) as u128))
}

/// How far `word` is from the lowercase query, case aside.
pub open spec fn fuzzy_distance(query: Seq<char>, word: Seq<char>) -> int {
    levenshtein(query, lowercase(word))
}

/// Whether a word at distance `distance` is a fuzzy match: near enough, and
/// not the query itself, which the exact tier has already found.
pub open spec fn within_reach(distance: int) -> bool {
    0 < distance <= MAX_FUZZY_DISTANCE
}

/// `h` with the score of its distance from the query.
pub open spec fn fuzzy_hit(query: Seq<char>, h: Hit) -> Hit {
    rescored(h, fuzzy_score_of(fuzzy_distance(query, h.word)) as u128)
}

/// The fuzzy matches among `candidates`, scored, in their order.
pub open spec fn fuzzy_scored(query: Seq<char>, candidates: Seq<Hit>) -> Seq<Hit>
    decreases candidates.len(),
{
    if candidates.len() == 0 {
        Seq::empty()
    } else {
        let before = fuzzy_scored(query, candidates.drop_last());
        if within_reach(fuzzy_distance(query, candidates.last().word)) {
            before.push(fuzzy_hit(query, candidates.last()))
        } else {
            before
        }
    }
}

/// `found` and behind it the fuzzy matches among `candidates` whose entry
/// was not found before, scored, in their order.
pub open spec fn fuzzy_extended(query: Seq<char>, found: Seq<Hit>, candidates: Seq<Hit>) -> Seq<
    Hit,
>
    decreases candidates.len(),
{
    if candidates.len() == 0 {
        found
    } else {
        let before = fuzzy_extended(query, found, candidates.drop_last());
        if !has_id(before, candidates.last().id) && within_reach(
            fuzzy_distance(query, candidates.last().word),
        ) {
            before.push(fuzzy_hit(query, candidates.last()))
        } else {
            before
        }
    }
}

/// Whether the second fuzzy scan is made after the first found `found`
/// matches of the `wanted`.
pub open spec fn scans_further(query: Seq<char>, found: int, wanted: int) -> bool {
    found < wanted && query.len() >= MIN_SUFFIX_SCAN_LENGTH
}

/// The fuzzy tier's results for the lowercase query `query` when `wanted`
/// results are wanted: the matches of the first scan, those of the second
/// where it is made, ranked, and the best `wanted` of them.
pub open spec fn fuzzy_matches(query: Seq<char>, wanted: int, near: Seq<Hit>, far: Seq<Hit>) -> Seq<
    Hit,
> {
    let first = fuzzy_scored(query, near);
    let all = if scans_further(query, first.len() as int, wanted) {
        fuzzy_extended(query, first, far)
    } else {
        first
    };
    page(ranked(all), 0, wanted)
}

/// What is gathered after the exact tier: it is asked where any result is
/// wanted at all.
pub open spec fn after_exact(total: int, a: StoreAnswers) -> Seq<Hit> {
    if 0 < total {
        merged(Seq::empty(), exact_scored(a.exact))
    } else {
        Seq::empty()
    }
}

/// What is gathered after the prefix tier: it is asked while fewer than
/// `total` results are there.
pub open spec fn after_prefix(query: Seq<char>, total: int, a: StoreAnswers) -> Seq<Hit> {
    let so_far = after_exact(total, a);
    if so_far.len() < total {
        merged(so_far, prefix_scored(a.prefix, encode_utf8(query).len() as int))
    } else {
        so_far
    }
}

/// What is gathered after the index tier: it is asked while fewer than
/// `total` results are there, and only with a query that has a word in it.
pub open spec fn after_index(query: Seq<char>, total: int, a: StoreAnswers) -> Seq<Hit> {
    let so_far = after_prefix(query, total, a);
    if so_far.len() < total && fts_query(query).len() > 0 {
        merged(so_far, index_scored(a.index))
    } else {
        so_far
    }
}

/// What is gathered after the fuzzy tier: it is asked while fewer than
/// `total` results are there, and only for a query of some length.
pub open spec fn gathered(query: Seq<char>, total: int, a: StoreAnswers) -> Seq<Hit> {
    let so_far = after_index(query, total, a);
    let lowered = lowercase(query);
    if so_far.len() < total && lowered.len() >= MIN_FUZZY_QUERY_LENGTH {
        merged(so_far, fuzzy_matches(lowered, total - so_far.len(), a.near, a.far))
    } else {
        so_far
    }
}

/// What a search for `raw` returns for the window of `limit` results at
/// `offset`, when the store answers `a`: nothing for a query that is blank,
/// else the window cut from the ranking of all that the tiers gathered.
pub open spec fn search_outcome(raw: Seq<char>, limit: u32, offset: u32, a: StoreAnswers) -> Seq<
    Hit,
> {
    let query = trimmed(raw);
    if query.len() == 0 {
        Seq::empty()
    } else {
        page(ranked(gathered(query, demand(limit, offset), a)), offset as int, limit as int)
    }
}

// ----------------------------------------------------------------------
// Laws of the search
// ----------------------------------------------------------------------

/// A search is a function of the query, the window and what the store
/// answers: two searches that get the same answers return the same sequence.
pub proof fn lemma_search_deterministic(
    raw: Seq<char>,
    limit: u32,
    first: StoreAnswers,
    second: StoreAnswers,
)
    requires
        first == second,
    ensures
        search_outcome(raw, limit, 0, first) == search_outcome(raw, limit, 0, second),
{
}

/// What the tiers gather never holds an entry twice.
pub proof fn lemma_gathered_distinct(query: Seq<char>, total: int, a: StoreAnswers)
    ensures
        distinct_ids(after_exact(total, a)),
        distinct_ids(after_prefix(query, total, a)),
        distinct_ids(after_index(query, total, a)),
        distinct_ids(gathered(query, total, a)),
{
    let none = Seq::<Hit>::empty();
    lemma_merged_distinct(none, exact_scored(a.exact));
    lemma_merged_distinct(
        after_exact(total, a),
        prefix_scored(a.prefix, encode_utf8(query).len() as int),
    );
    lemma_merged_distinct(after_prefix(query, total, a), index_scored(a.index));
    let so_far = after_index(query, total, a);
    lemma_merged_distinct(
        so_far,
        fuzzy_matches(lowercase(query), total - so_far.len(), a.near, a.far),
    );
}

/// No search returns an entry twice, every search returns its results in
/// ascending order of score, and none returns more than was asked for.
pub proof fn lemma_search_outcome(raw: Seq<char>, limit: u32, offset: u32, a: StoreAnswers)
    ensures
        distinct_ids(search_outcome(raw, limit, offset, a)),
        sorted_by_score(search_outcome(raw, limit, offset, a)),
        search_outcome(raw, limit, offset, a).len() <= limit,
        trimmed(raw).len() == 0 ==> search_outcome(raw, limit, offset, a).len() == 0,
{
    let query = trimmed(raw);
    if query.len() != 0 {
        let all = gathered(query, demand(limit, offset), a);
        lemma_gathered_distinct(query, demand(limit, offset), a);
        lemma_ranked(all);
        lemma_ranked_distinct(all);
        lemma_page(ranked(all), offset as int, limit as int);
        lemma_page_keeps_order(ranked(all), offset as int, limit as int);
    }
}

/// A query of nothing but whitespace finds nothing, whatever the store holds.
pub proof fn lemma_blank_query_finds_nothing(
    raw: Seq<char>,
    limit: u32,
    offset: u32,
    a: StoreAnswers,
)
    requires
        forall|i: int| 0 <= i < raw.len() ==> is_whitespace(#[trigger] raw[i]),
    ensures
        search_outcome(raw, limit, offset, a) == Seq::<Hit>::empty(),
{
    lemma_trimmed_blank(raw);
}

/// Pagination is consistent: the first page of a search and the page that
/// follows it hold together the entries of the page that spans both,
/// wherever the first page, found alone, holds the entries that the wider
/// search ranks first. `narrow` is what the store answered to the search for
/// the first page, `wide` what it answered to the two searches that want
/// twice as many results.
pub proof fn lemma_pagination_consistent(
    raw: Seq<char>,
    limit: u32,
    narrow: StoreAnswers,
    wide: StoreAnswers,
)
    requires
        limit + limit <= u32::MAX,
        id_set(search_outcome(raw, limit, 0, narrow)) == id_set(
            page(search_outcome(raw, (limit + limit) as u32, 0, wide), 0, limit as int),
        ),
    ensures
        id_set(search_outcome(raw, limit, 0, narrow)).union(
            id_set(search_outcome(raw, limit, limit, wide)),
        ) == id_set(search_outcome(raw, (limit + limit) as u32, 0, wide)),
{
    let query = trimmed(raw);
    let first = search_outcome(raw, limit, limit, wide);
    let both = search_outcome(raw, (limit + limit) as u32, 0, wide);
    if query.len() == 0 {
        assert(page(both, 0, limit as int) =~= both);
        assert(id_set(both).union(id_set(first)) =~= id_set(both));
    } else {
        let all = ranked(gathered(query, demand(limit, limit), wide));
        lemma_adjacent_pages(all, 0, limit as int, limit as int);
        assert(page(both, 0, limit as int) =~= page(all, 0, limit as int));
        lemma_id_set_concat(page(all, 0, limit as int), first);
    }
}

/// The first hit of a sorted sequence that holds a hit of the best score is
/// the first of its hits of that score.
proof fn lemma_best_first(hits: Seq<Hit>)
    requires
        sorted_by_score(hits),
        with_score(hits, EXACT_SCORE).len() > 0,
    ensures
        hits.len() > 0,
        hits[0] == with_score(hits, EXACT_SCORE)[0],
    decreases hits.len(),
{
    if hits.len() > 0 {
        let init = hits.drop_last();
        if with_score(init, EXACT_SCORE).len() > 0 {
            assert(sorted_by_score(init)) by {
                assert forall|i: int, j: int| 0 <= i <= j < init.len() implies (
                #[trigger] init[i]).score <= (#[trigger] init[j]).score by {
                    assert(hits[i].score <= hits[j].score);
                }
            }
            lemma_best_first(init);
        } else {
            lemma_none_with_score(init, EXACT_SCORE);
            if init.len() > 0 {
                assert(hits[0].score <= hits[hits.len() - 1].score);
                assert(init[0].score != EXACT_SCORE);
            }
        }
    }
}

proof fn lemma_none_with_score(hits: Seq<Hit>, score: u128)
    requires
        with_score(hits, score).len() == 0,
    ensures
        forall|i: int| 0 <= i < hits.len() ==> (#[trigger] hits[i]).score != score,
    decreases hits.len(),
{
    if hits.len() > 0 {
        lemma_none_with_score(hits.drop_last(), score);
        assert forall|i: int| 0 <= i < hits.len() implies (#[trigger] hits[i]).score != score by {
            if i < hits.len() - 1 {
                assert(hits.drop_last()[i].score != score);
            }
        }
    }
}

/// The hits of one score among a sequence begin with those among any of its
/// beginnings.
proof fn lemma_with_score_prefix(hits: Seq<Hit>, n: int, score: u128)
    requires
        0 <= n <= hits.len(),
    ensures
        with_score(hits.take(n), score).len() <= with_score(hits, score).len(),
        with_score(hits, score).take(with_score(hits.take(n), score).len() as int) == with_score(
            hits.take(n),
            score,
        ),
    decreases hits.len() - n,
{
    if n == hits.len() {
        assert(hits.take(n) =~= hits);
        assert(with_score(hits, score).take(with_score(hits, score).len() as int) =~= with_score(
            hits,
            score,
        ));
    } else {
        let init = hits.drop_last();
        lemma_with_score_prefix(init, n, score);
        assert(init.take(n) =~= hits.take(n));
        let part = with_score(hits.take(n), score);
        assert(with_score(hits, score).take(part.len() as int) =~= with_score(init, score).take(
            part.len() as int,
        ));
    }
}

/// Exact beats all: where the store knows the query as a word, the first
/// result of a search from the start is that entry, with the best score
/// there is.
pub proof fn lemma_exact_match_first(raw: Seq<char>, limit: u32, a: StoreAnswers)
    requires
        trimmed(raw).len() > 0,
        a.exact.len() > 0,
        limit >= 1,
    ensures
        search_outcome(raw, limit, 0, a).len() >= 1,
        search_outcome(raw, limit, 0, a)[0] == rescored(a.exact[0], EXACT_SCORE),
{
    let query = trimmed(raw);
    let total = demand(limit, 0);
    let all = gathered(query, total, a);
    let first = rescored(a.exact[0], EXACT_SCORE);
    let none = Seq::<Hit>::empty();
    // The exact tier puts the entry in front.
    let exact = exact_scored(a.exact);
    assert(exact.take(1) =~= seq![first]);
    lemma_merged_front(none, exact, 1);
    assert(merged(none, exact.take(1)) =~= seq![first]) by {
        assert(exact.take(1).drop_last() =~= none);
        assert(!has_id(none, first.id));
        assert(merged(none, none) == none);
    }
    let e = after_exact(total, a);
    assert(e.len() >= 1 && e[0] == first);
    // Later tiers add behind it.
    lemma_merged_extends(e, prefix_scored(a.prefix, encode_utf8(query).len() as int));
    let p = after_prefix(query, total, a);
    assert(p.len() >= 1 && p[0] == first) by {
        assert(p.take(e.len() as int)[0] == p[0]);
    }
    lemma_merged_extends(p, index_scored(a.index));
    let i = after_index(query, total, a);
    assert(i.len() >= 1 && i[0] == first) by {
        assert(i.take(p.len() as int)[0] == i[0]);
    }
    lemma_merged_extends(
        i,
        fuzzy_matches(lowercase(query), total - i.len(), a.near, a.far),
    );
    assert(all.len() >= 1 && all[0] == first) by {
        assert(all.take(i.len() as int)[0] == all[0]);
    }
    // Ranking keeps it in front: nothing scores lower, and ties keep their order.
    lemma_ranked(all);
    lemma_ranked_stable(all, EXACT_SCORE);
    lemma_with_score_prefix(all, 1, EXACT_SCORE);
    assert(with_score(all.take(1), EXACT_SCORE) =~= seq![first]) by {
        assert(all.take(1).drop_last() =~= none);
        assert(all.take(1).last() == first);
        assert(with_score(none, EXACT_SCORE) =~= none);
        assert(first.score == EXACT_SCORE);
        assert(with_score(all.take(1), EXACT_SCORE) == with_score(none, EXACT_SCORE).push(first));
    }
    assert(with_score(all, EXACT_SCORE)[0] == first) by {
        assert(with_score(all, EXACT_SCORE).take(1)[0] == first);
    }
    lemma_best_first(ranked(all));
    lemma_page(ranked(all), 0, limit as int);
}

/// Merging a batch begins with merging any of its beginnings.
proof fn lemma_merged_front(acc: Seq<Hit>, batch: Seq<Hit>, n: int)
    requires
        0 <= n <= batch.len(),
    ensures
        merged(acc, batch.take(n)).len() <= merged(acc, batch).len(),
        merged(acc, batch).take(merged(acc, batch.take(n)).len() as int) == merged(
            acc,
            batch.take(n),
        ),
    decreases batch.len() - n,
{
    if n == batch.len() {
        assert(batch.take(n) =~= batch);
        assert(merged(acc, batch).take(merged(acc, batch).len() as int) =~= merged(acc, batch));
    } else {
        let init = batch.drop_last();
        lemma_merged_front(acc, init, n);
        assert(init.take(n) =~= batch.take(n));
        let part = merged(acc, batch.take(n));
        assert(merged(acc, batch).take(part.len() as int) =~= merged(acc, init).take(
            part.len() as int,
        ));
    }
}

// ----------------------------------------------------------------------
// Rows to results
// ----------------------------------------------------------------------

/// The result that a row of `id, word, pos, definition` stands for: the
/// definition becomes the preview, the score is the best there is.
pub open spec fn entry_hit(row: Row) -> Hit {
    Hit {
        id: row.ints@[0],
        word: row.texts@[0]@,
        pos: row.texts@[1]@,
        preview: preview(row.texts@[2]@, DEFAULT_PREVIEW_LENGTH as int),
        score: EXACT_SCORE,
    }
}

/// The result that a row of `id, rank, word, pos, definition` from the text
/// index stands for: as `entry_hit`, scored by the rank.
pub open spec fn ranked_entry_hit(row: Row) -> Hit {
    rescored(entry_hit(row), index_score_of(row.ints@[1]) as u128)
}

/// The results that `rows` stand for.
pub open spec fn entry_hits(rows: Seq<Row>) -> Seq<Hit> {
    rows.map_values(|row: Row| entry_hit(row))
}

/// The results that `rows` from the text index stand for.
pub open spec fn ranked_entry_hits(rows: Seq<Row>) -> Seq<Hit> {
    rows.map_values(|row: Row| ranked_entry_hit(row))
}

/// The matches of the text index that `rows` of `id, rank, word, pos,
/// definition` stand for.
pub open spec fn ranked_hits(rows: Seq<Row>) -> Seq<RankedHit> {
    rows.map_values(|row: Row| RankedHit { hit: entry_hit(row), rank: row.ints@[1] })
}

/// Whether `hits` are entries as rows of the store give them: each with the
/// preview that is cut from its definition.
pub open spec fn from_rows(hits: Seq<Hit>) -> bool {
    exists|rows: Seq<Row>| hits == #[trigger] entry_hits(rows)
}

/// Whether `matches` are matches of the text index as rows of the store give
/// them.
pub open spec fn ranked_from_rows(matches: Seq<RankedHit>) -> bool {
    exists|rows: Seq<Row>| matches == #[trigger] ranked_hits(rows)
}

/// Whether all of `a` is as rows of the store give it.
pub open spec fn from_store(a: StoreAnswers) -> bool {
    &&& from_rows(a.exact)
    &&& from_rows(a.prefix)
    &&& ranked_from_rows(a.index)
    &&& from_rows(a.near)
    &&& from_rows(a.far)
}

/// No rows stand for no entries.
pub proof fn lemma_nothing_from_rows()
    ensures
        from_rows(Seq::<Hit>::empty()),
        ranked_from_rows(Seq::<RankedHit>::empty()),
{
    let none = Seq::<Row>::empty();
    assert(entry_hits(none) =~= Seq::<Hit>::empty());
    assert(ranked_hits(none) =~= Seq::<RankedHit>::empty());
}

/// Converts a row of `id, word, pos, definition` to a search result.
pub fn row_to_search_result(row: &Row) -> (r: SearchResult)
    requires
        row.ints@.len() >= 1,
        row.texts@.len() == 3,
    ensures
        r@ == entry_hit(*row),
{
    let preview = truncate_preview(row.texts[2].as_str(), DEFAULT_PREVIEW_LENGTH);
    SearchResult::new(row.ints[0], row.texts[0].clone(), row.texts[1].clone(), preview)
}

/// Converts a row of `id, rank, word, pos, definition` from the text index
/// to a search result.
pub fn ranked_row_to_search_result(row: &Row) -> (r: SearchResult)
    requires
        row.ints@.len() == 2,
        row.texts@.len() == 3,
    ensures
        r@ == ranked_entry_hit(*row),
{
    let preview = truncate_preview(row.texts[2].as_str(), DEFAULT_PREVIEW_LENGTH);
    SearchResult::with_score(
        row.ints[0],
        row.texts[0].clone(),
        row.texts[1].clone(),
        preview,
        index_score(row.ints[1]),
    )
}

/// Converts the rows of a lookup to search results; `with_rank` tells
/// whether they come from the text index.
fn rows_to_search_results(rows: &Vec<Row>, with_rank: bool) -> (results: Vec<SearchResult>)
    requires
        forall|i: int|
            0 <= i < rows@.len() ==> (#[trigger] rows@[i]).texts@.len() == 3 && rows@[i].ints@.len()
                == if with_rank {
                2int
            } else {
                1int
            },
    ensures
        hits(results@) == if with_rank {
            ranked_entry_hits(rows@)
        } else {
            entry_hits(rows@)
        },
{
    let mut results: Vec<SearchResult> = Vec::new();
    let n = rows.len();
    let mut i: usize = 0;
    while i < n
        invariant
            i <= n,
            n == rows@.len(),
            forall|k: int|
                0 <= k < rows@.len() ==> (#[trigger] rows@[k]).texts@.len() == 3
                    && rows@[k].ints@.len() == if with_rank {
                    2int
                } else {
                    1int
                },
            results@.len() == i,
            forall|k: int|
                0 <= k < i ==> (#[trigger] results@[k])@ == if with_rank {
                    ranked_entry_hit(rows@[k])
                } else {
                    entry_hit(rows@[k])
                },
        decreases n - i,
    {
        let r = if with_rank {
            ranked_row_to_search_result(&rows[i])
        } else {
            row_to_search_result(&rows[i])
        };
        results.push(r);
        i += 1;
    }
    proof {
        if with_rank {
            assert(hits(results@) =~= ranked_entry_hits(rows@));
        } else {
            assert(hits(results@) =~= entry_hits(rows@));
        }
    }
    results
}

/// The columns of a lookup of entries.
fn entry_shape() -> (shape: RowShape)
    ensures
        shape.ints@.len() == 1,
        shape.texts@.len() == 3,
{
    RowShape {
        ints: vec![0usize],
        smalls: Vec::new(),
        texts: vec![1usize, 2usize, 3usize],
        nullable: Vec::new(),
    }
}

/// Runs a lookup of entries and converts its rows: whatever rows the store
/// gives, the results are the entries that they stand for, each with the
/// preview cut from its definition and the best score.
fn lookup_entries(handle: &DictHandle, sql: &str, params: &Vec<Value>) -> (r: Result<
    Vec<SearchResult>,
    DictError,
>)
    ensures
        r matches Err(e) ==> e is Database,
        r matches Ok(found) ==> from_rows(hits(found@)),
{
    let shape = entry_shape();
    match run_query(handle.connection(), sql, params, &shape) {
        Ok(rows) => {
            assert forall|i: int| 0 <= i < rows@.len() implies (#[trigger] rows@[i]).texts@.len()
                == 3 && rows@[i].ints@.len() == 1int by {
                assert(fits(rows@[i], shape));
            }
            let found = rows_to_search_results(&rows, false);
            assert(hits(found@) == entry_hits(rows@));
            Ok(found)
        },
        Err(e) => Err(e),
    }
}

// ----------------------------------------------------------------------
// The tiers
// ----------------------------------------------------------------------

/// Entries whose word is `word`, at most `limit` of them: the store is
/// asked, and the results are the entries that its rows stand for.
fn search_exact(handle: &DictHandle, word: &str, limit: u32) -> (r: Result<
    Vec<SearchResult>,
    DictError,
>)
    ensures
        r matches Err(e) ==> e is Database,
        r matches Ok(found) ==> from_rows(hits(found@)),
{
    let params: Vec<Value> = vec![sql_text(word), sql_int(limit as i64)];
    lookup_entries(
        handle,
        r#"
        SELECT w.id, w.word, w.pos,
               COALESCE((SELECT definition FROM definitions WHERE word_id = w.id LIMIT 1), '')
        FROM words w
        WHERE w.word = ?
        LIMIT ?
        "#,
        &params,
    )
}

/// Entries whose word starts with `prefix`, shortest first, at most `limit`
/// of them: the store is asked, and the results are the entries that its
/// rows stand for.
fn search_prefix(handle: &DictHandle, prefix: &str, limit: u32) -> (r: Result<
    Vec<SearchResult>,
    DictError,
>)
    ensures
        r matches Err(e) ==> e is Database,
        r matches Ok(found) ==> from_rows(hits(found@)),
{
    let pattern = prefix_pattern(prefix);
    let params: Vec<Value> = vec![sql_text(pattern.as_str()), sql_int(limit as i64)];
    lookup_entries(
        handle,
        r#"
        SELECT w.id, w.word, w.pos,
               COALESCE((SELECT definition FROM definitions WHERE word_id = w.id LIMIT 1), '')
        FROM words w
        WHERE w.word LIKE ? ESCAPE '\'
        ORDER BY length(w.word), w.word
        LIMIT ?
        "#,
        &params,
    )
}

/// Entries that the text index matches for the prepared query `query`, in
/// the order of their rank, at most `limit` of them, each scored by its rank
/// in millionths.
fn search_fts(handle: &DictHandle, query: &str, limit: u32) -> (r: Result<
    Vec<SearchResult>,
    DictError,
>)
    ensures
        r matches Err(e) ==> e is Database,
        r matches Ok(found) ==> exists|matches: Seq<RankedHit>|
            ranked_from_rows(matches) && hits(found@) == index_scored(matches),
{
    let shape = RowShape {
        ints: vec![0usize, 4usize],
        smalls: Vec::new(),
        texts: vec![1usize, 2usize, 3usize],
        nullable: Vec::new(),
    };
    let params: Vec<Value> = vec![sql_text(query), sql_int(limit as i64)];
    match run_query(
        handle.connection(),
        r#"
        SELECT w.id, w.word, w.pos,
               COALESCE((SELECT definition FROM definitions WHERE word_id = w.id LIMIT 1), ''),
               CAST(rank * 1000000 AS INTEGER)
        FROM words_fts fts
        JOIN words w ON fts.rowid = w.id
        WHERE words_fts MATCH ?
        ORDER BY rank
        LIMIT ?
        "#,
        &params,
        &shape,
    ) {
        Ok(rows) => {
            assert forall|i: int| 0 <= i < rows@.len() implies (#[trigger] rows@[i]).texts@.len()
                == 3 && rows@[i].ints@.len() == 2int by {
                assert(fits(rows@[i], shape));
            }
            let found = rows_to_search_results(&rows, true);
            proof {
                let matches = ranked_hits(rows@);
                assert(hits(found@) =~= index_scored(matches));
                assert(ranked_from_rows(matches));
            }
            Ok(found)
        },
        Err(e) => Err(e),
    }
}

/// The fuzzy matches among `candidates` for the lowercase query `query`,
/// each scored by its distance.
pub fn score_fuzzy_candidates(query: &str, candidates: Vec<SearchResult>) -> (found: Vec<
    SearchResult,
>)
    ensures
        hits(found@) == fuzzy_scored(query@, hits(candidates@)),
{
    let mut found: Vec<SearchResult> = Vec::new();
    let ghost incoming = hits(candidates@);
    proof {
        assert(incoming.take(0) =~= Seq::empty());
    }
    for r in it: candidates
        invariant
            it.seq() == candidates@,
            incoming == hits(candidates@),
            hits(found@) == fuzzy_scored(query@, incoming.take(it.index() as int)),
    {
        let ghost before = hits(found@);
        let ghost came = r@;
        proof {
            assert(incoming.take(it.index() + 1).drop_last() =~= incoming.take(
                it.index() as int,
            ));
            assert(incoming.take(it.index() + 1).last() == came);
            lemma_levenshtein_bounds(query@, lowercase(came.word));
        }
        let word_lower = r.word.as_str().to_lowercase();
        let distance = levenshtein_distance(query, word_lower.as_str());
        if distance > 0 && distance <= MAX_FUZZY_DISTANCE {
            let mut r = r;
            r.score = fuzzy_score(distance);
            found.push(r);
            proof {
                assert(r@ == fuzzy_hit(query@, came));
                assert(hits(found@) =~= before.push(r@));
            }
        }
    }
    proof {
        assert(incoming.take(incoming.len() as int) =~= incoming);
    }
    found
}

/// Appends to `found` the fuzzy matches among `candidates` whose entry is
/// not in `found` yet, each scored by its distance.
pub fn extend_fuzzy_matches(
    query: &str,
    found: &mut Vec<SearchResult>,
    candidates: Vec<SearchResult>,
)
    ensures
        hits(final(found)@) == fuzzy_extended(query@, hits(old(found)@), hits(candidates@)),
{
    let ghost start = hits(found@);
    let ghost incoming = hits(candidates@);
    proof {
        assert(incoming.take(0) =~= Seq::empty());
    }
    for r in it: candidates
        invariant
            it.seq() == candidates@,
            incoming == hits(candidates@),
            hits(found@) == fuzzy_extended(query@, start, incoming.take(it.index() as int)),
    {
        let ghost before = hits(found@);
        let ghost came = r@;
        proof {
            assert(incoming.take(it.index() + 1).drop_last() =~= incoming.take(
                it.index() as int,
            ));
            assert(incoming.take(it.index() + 1).last() == came);
            lemma_levenshtein_bounds(query@, lowercase(came.word));
        }
        if !contains_id(found, r.id) {
            let word_lower = r.word.as_str().to_lowercase();
            let distance = levenshtein_distance(query, word_lower.as_str());
            if distance > 0 && distance <= MAX_FUZZY_DISTANCE {
                let mut r = r;
                r.score = fuzzy_score(distance);
                found.push(r);
                proof {
                    assert(r@ == fuzzy_hit(query@, came));
                    assert(hits(found@) =~= before.push(r@));
                }
            }
        }
    }
    proof {
        assert(incoming.take(incoming.len() as int) =~= incoming);
    }
}

/// The best `wanted` of the fuzzy matches `found`: ranked, and cut.
pub fn best_fuzzy_matches(found: Vec<SearchResult>, wanted: u32) -> (best: Vec<SearchResult>)
    ensures
        hits(best@) == page(ranked(hits(found@)), 0, wanted as int),
{
    paginate(rank_results(found), 0, wanted)
}

/// Typo-tolerant matches for the lowercase query `query`, at most `limit`
/// of them. Candidates come from the store by what they begin with, and,
/// where that gives too few, by the query without its first character; the
/// edit distance decides among them.
fn search_fuzzy(handle: &DictHandle, query: &str, limit: u32) -> (r: Result<
    Vec<SearchResult>,
    DictError,
>)
    ensures
        r matches Err(e) ==> e is Database,
        r matches Ok(best) ==> exists|near: Seq<Hit>, far: Seq<Hit>|
            from_rows(near) && from_rows(far) && hits(best@) == fuzzy_matches(
                query@,
                limit as int,
                near,
                far,
            ),
{
    let letters = chars_of(query);
    let pattern = fuzzy_prefix(&letters);
    let params: Vec<Value> = vec![sql_text(pattern.as_str())];
    let candidates = match lookup_entries(
        handle,
        r#"
        SELECT w.id, w.word, w.pos,
               COALESCE((SELECT definition FROM definitions WHERE word_id = w.id LIMIT 1), '')
        FROM words w
        WHERE LOWER(w.word) LIKE LOWER(?) ESCAPE '\'
        LIMIT 1000
        "#,
        &params,
    ) {
        Ok(candidates) => candidates,
        Err(e) => {
            return Err(e);
        },
    };
    let ghost near = hits(candidates@);
    let ghost mut far = Seq::<Hit>::empty();
    proof {
        lemma_nothing_from_rows();
    }
    let mut found = score_fuzzy_candidates(query, candidates);
    if found.len() < limit as usize && letters.len() >= MIN_SUFFIX_SCAN_LENGTH {
        let pattern = fuzzy_suffix(&letters);
        let params: Vec<Value> = vec![sql_text(pattern.as_str())];
        let more = match lookup_entries(
            handle,
            r#"
            SELECT w.id, w.word, w.pos,
                   COALESCE((SELECT definition FROM definitions WHERE word_id = w.id LIMIT 1), '')
            FROM words w
            WHERE LOWER(w.word) LIKE LOWER(?) ESCAPE '\'
            LIMIT 500
            "#,
            &params,
        ) {
            Ok(more) => more,
            Err(e) => {
                return Err(e);
            },
        };
        proof {
            far = hits(more@);
        }
        extend_fuzzy_matches(query, &mut found, more);
    }
    let best = best_fuzzy_matches(found, limit);
    proof {
        assert(from_rows(near) && from_rows(far) && hits(best@) == fuzzy_matches(
            query@,
            limit as int,
            near,
            far,
        ));
    }
    Ok(best)
}

// ----------------------------------------------------------------------
// The search
// ----------------------------------------------------------------------

/// Searches the dictionary for `query` and returns the best `limit` results.
pub fn search_words(handle: &DictHandle, query: &str, limit: u32) -> (r: Result<
    Vec<SearchResult>,
    DictError,
>)
    ensures
        r matches Err(e) ==> e is Database && trimmed(query@).len() > 0 && limit > 0,
        r matches Ok(results) ==> exists|a: StoreAnswers|
            from_store(a) && hits(results@) == search_outcome(query@, limit, 0, a),
        r matches Ok(results) ==> distinct_ids(hits(results@)) && sorted_by_score(hits(results@))
            && results@.len() <= limit,
        trimmed(query@).len() == 0 || limit == 0 ==> (r matches Ok(results) && results@.len()
            == 0),
{
    search_words_offset(handle, query, limit, 0)
}

/// Searches the dictionary for `query` and returns the window of at most
/// `limit` results that begins `offset` results into the ranking.
///
/// The tiers are asked in the order exact, prefix, text index, fuzzy, each
/// for as many results as are still wanted and only while some are; what
/// they give is merged by entry, ranked by score and cut to the window. A
/// blank query, or a search for no results at all, succeeds with nothing and
/// asks nothing of the store; a lookup that fails is handed on as it is.
/// Whatever the store answers, no entry comes back twice and the scores
/// never go down.
pub fn search_words_offset(handle: &DictHandle, query: &str, limit: u32, offset: u32) -> (r:
    Result<Vec<SearchResult>, DictError>)
    ensures
        r matches Err(e) ==> e is Database && trimmed(query@).len() > 0 && demand(limit, offset)
            > 0,
        r matches Ok(results) ==> exists|a: StoreAnswers|
            from_store(a) && hits(results@) == search_outcome(query@, limit, offset, a),
        r matches Ok(results) ==> distinct_ids(hits(results@)) && sorted_by_score(hits(results@))
            && results@.len() <= limit,
        trimmed(query@).len() == 0 || demand(limit, offset) == 0 ==> (r matches Ok(results)
            && results@.len() == 0),
{
    let ghost none = Seq::<Hit>::empty();
    let ghost mut a = StoreAnswers {
        exact: none,
        prefix: none,
        index: Seq::<RankedHit>::empty(),
        near: none,
        far: none,
    };
    proof {
        lemma_nothing_from_rows();
        assert(from_store(a));
    }
    let q = match normalize(query) {
        Some(q) => q,
        None => {
            let results: Vec<SearchResult> = Vec::new();
            proof {
                assert(hits(results@) =~= search_outcome(query@, limit, offset, a));
                lemma_search_outcome(query@, limit, offset, a);
            }
            return Ok(results);
        },
    };
    let ghost total = demand(limit, offset);
    let fts = prepare_fts_query(q.text.as_str());
    let query_len = q.text.as_str().as_bytes().len();
    let letters = chars_of(q.lowered.as_str());
    let mut merger = Merger::new(limit, offset);

    // Exact matches: the best score there is.
    let wanted = merger.wanted();
    if wanted > 0 {
        let exact = match search_exact(handle, q.text.as_str(), wanted) {
            Ok(exact) => exact,
            Err(e) => {
                return Err(e);
            },
        };
        proof {
            a = StoreAnswers { exact: hits(exact@), ..a };
        }
        merger.take(score_exact_matches(exact));
    }
    assert(merger.gathered() == after_exact(total, a) && from_store(a));

    // Prefix matches: scored by how much longer they are than the query.
    let wanted = merger.wanted();
    if wanted > 0 {
        let prefix = match search_prefix(handle, q.text.as_str(), wanted) {
            Ok(prefix) => prefix,
            Err(e) => {
                return Err(e);
            },
        };
        proof {
            a = StoreAnswers { prefix: hits(prefix@), ..a };
        }
        merger.take(score_prefix_matches(prefix, query_len));
    }
    assert(merger.gathered() == after_prefix(q.text@, total, a) && from_store(a));

    // Matches of the text index: scored by their rank.
    let wanted = merger.wanted();
    if wanted > 0 && !fts.as_str().is_empty() {
        let indexed = match search_fts(handle, fts.as_str(), wanted) {
            Ok(indexed) => indexed,
            Err(e) => {
                return Err(e);
            },
        };
        proof {
            let matches = choose|matches: Seq<RankedHit>|
                ranked_from_rows(matches) && hits(indexed@) == index_scored(matches);
            a = StoreAnswers { index: matches, ..a };
        }
        merger.take(indexed);
    }
    assert(merger.gathered() == after_index(q.text@, total, a) && from_store(a));

    // Fuzzy matches: only for a query of some length.
    let wanted = merger.wanted();
    if wanted > 0 && letters.len() >= MIN_FUZZY_QUERY_LENGTH {
        let fuzzy = match search_fuzzy(handle, q.lowered.as_str(), wanted) {
            Ok(fuzzy) => fuzzy,
            Err(e) => {
                return Err(e);
            },
        };
        proof {
            let (near, far) = choose|near: Seq<Hit>, far: Seq<Hit>|
                from_rows(near) && from_rows(far) && hits(fuzzy@) == fuzzy_matches(
                    q.lowered@,
                    wanted as int,
                    near,
                    far,
                );
            a = StoreAnswers { near, far, ..a };
        }
        merger.take(fuzzy);
    }
    assert(merger.gathered() == gathered(q.text@, total, a) && from_store(a));

    let window = merger.finish(offset, limit);
    proof {
        assert(from_store(a) && hits(window@) == search_outcome(query@, limit, offset, a));
        lemma_search_outcome(query@, limit, offset, a);
    }
    Ok(window)
}

} // verus!
