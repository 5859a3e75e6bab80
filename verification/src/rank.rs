//! Merging the tiers' results: scores, deduplication by entry, the stable
//! order by score and the page cut from it.

use crate::models::{hits, Hit, SearchResult, SCORE_UNIT};
use vstd::prelude::*;
use vstd::string::StringSliceAdditionalSpecFns;
use vstd::utf8::encode_utf8;

verus! {

/// Score of every exact match.
pub const EXACT_SCORE: u128 = 0;

/// Score of a prefix match that is no longer than the query.
pub const PREFIX_BASE: u128 = 1_000_000;

/// What each further byte of a prefix match adds to its score: a tenth.
pub const PREFIX_STEP: u128 = 100_000;

/// Score of a match from the text index before its rank is added.
pub const INDEX_BASE: u128 = 2_000_000;

/// Score of a fuzzy match before its distance is added.
pub const FUZZY_BASE: u128 = 3_000_000;

/// Whether one of `hits` is the entry `id`.
pub open spec fn has_id(hits: Seq<Hit>, id: i64) -> bool {
    exists|i: int| 0 <= i < hits.len() && (#[trigger] hits[i]).id == id
}

/// Whether no entry occurs twice among `hits`.
pub open spec fn distinct_ids(hits: Seq<Hit>) -> bool {
    forall|i: int, j: int|
        0 <= i < j < hits.len() ==> (#[trigger] hits[i]).id != (#[trigger] hits[j]).id
}

/// Whether the scores of `hits` never go down.
pub open spec fn sorted_by_score(hits: Seq<Hit>) -> bool {
    forall|i: int, j: int|
        0 <= i <= j < hits.len() ==> (#[trigger] hits[i]).score <= (#[trigger] hits[j]).score
}

/// The entries of `hits`, as a set.
pub open spec fn id_set(hits: Seq<Hit>) -> Set<i64> {
    Set::new(|id: i64| has_id(hits, id))
}

/// `acc` followed by those of `batch` whose entry is not there yet, each
/// looked up after the ones before it were added.
pub open spec fn merged(acc: Seq<Hit>, batch: Seq<Hit>) -> Seq<Hit>
    decreases batch.len(),
{
    if batch.len() == 0 {
        acc
    } else {
        let before = merged(acc, batch.drop_last());
        if has_id(before, batch.last().id) {
            before
        } else {
            before.push(batch.last())
        }
    }
}

/// `h` with the score given.
pub open spec fn rescored(h: Hit, score: u128) -> Hit {
    Hit { score, ..h }
}

/// The score of a prefix match of `word_len` bytes for a query of
/// `query_len` bytes: 1.0, and a tenth for each byte the word is longer.
pub open spec fn prefix_score_of(word_len: int, query_len: int) -> int {
    if word_len > query_len {
        PREFIX_BASE + PREFIX_STEP * (word_len - query_len)
    } else {
        PREFIX_BASE as int
    }
}

/// The score of a match that the text index ranked `rank`, in millionths:
/// 2.0 and the size of the rank.
pub open spec fn index_score_of(rank: i64) -> int {
    if rank < 0 {
        INDEX_BASE - rank
    } else {
        INDEX_BASE + rank
    }
}

/// The score of a fuzzy match at edit distance `distance`: 3.0 and the distance.
pub open spec fn fuzzy_score_of(distance: int) -> int {
    FUZZY_BASE + distance * SCORE_UNIT
}

/// The exact matches as the merger takes them: each with the best score.
pub open spec fn exact_scored(matches: Seq<Hit>) -> Seq<Hit> {
    matches.map_values(|h: Hit| rescored(h, EXACT_SCORE))
}

/// The prefix matches as the merger takes them: each scored by how many
/// bytes its word is longer than the query of `query_len` bytes.
pub open spec fn prefix_scored(matches: Seq<Hit>, query_len: int) -> Seq<Hit> {
    matches.map_values(
        |h: Hit| rescored(h, prefix_score_of(encode_utf8(h.word).len() as int, query_len) as u128),
    )
}

/// The hits of `hits` that score exactly `score`, in their order.
pub open spec fn with_score(hits: Seq<Hit>, score: u128) -> Seq<Hit>
    decreases hits.len(),
{
    if hits.len() == 0 {
        Seq::empty()
    } else if hits.last().score == score {
        with_score(hits.drop_last(), score).push(hits.last())
    } else {
        with_score(hits.drop_last(), score)
    }
}

/// `sorted` with `h` put behind every hit that scores no higher than `h`.
pub open spec fn inserted(sorted: Seq<Hit>, h: Hit) -> Seq<Hit>
    decreases sorted.len(),
{
    if sorted.len() > 0 && sorted.last().score > h.score {
        inserted(sorted.drop_last(), h).push(sorted.last())
    } else {
        sorted.push(h)
    }
}

/// `hits` in ascending order of score, hits of equal score in the order they
/// came in.
pub open spec fn ranked(hits: Seq<Hit>) -> Seq<Hit>
    decreases hits.len(),
{
    if hits.len() == 0 {
        Seq::empty()
    } else {
        inserted(ranked(hits.drop_last()), hits.last())
    }
}

/// Where the page at `offset` begins among `len` hits.
pub open spec fn page_start(len: int, offset: int) -> int {
    if offset < len {
        offset
    } else {
        len
    }
}

/// Where the page of `limit` hits at `offset` ends among `len` hits.
pub open spec fn page_end(len: int, offset: int, limit: int) -> int {
    if page_start(len, offset) + limit < len {
        page_start(len, offset) + limit
    } else {
        len
    }
}

/// The page of at most `limit` hits that begins `offset` hits into `hits`.
pub open spec fn page(hits: Seq<Hit>, offset: int, limit: int) -> Seq<Hit> {
    hits.subrange(
        page_start(hits.len() as int, offset),
        page_end(hits.len() as int, offset, limit),
    )
}

/// How many results a search for `limit` results at `offset` has to gather.
pub open spec fn demand(limit: u32, offset: u32) -> int {
    if offset + limit > u32::MAX {
        u32::MAX as int
    } else {
        offset + limit
    }
}

// ----------------------------------------------------------------------
// Laws of merging
// ----------------------------------------------------------------------

/// Merging keeps what was gathered, in place, and adds to it only.
pub proof fn lemma_merged_extends(acc: Seq<Hit>, batch: Seq<Hit>)
    ensures
        acc.len() <= merged(acc, batch).len() <= acc.len() + batch.len(),
        merged(acc, batch).take(acc.len() as int) == acc,
    decreases batch.len(),
{
    if batch.len() == 0 {
        assert(acc.take(acc.len() as int) =~= acc);
    } else {
        lemma_merged_extends(acc, batch.drop_last());
        let before = merged(acc, batch.drop_last());
        assert(before.push(batch.last()).take(acc.len() as int) =~= before.take(
            acc.len() as int,
        ));
    }
}

/// Merging never brings an entry in twice.
pub proof fn lemma_merged_distinct(acc: Seq<Hit>, batch: Seq<Hit>)
    requires
        distinct_ids(acc),
    ensures
        distinct_ids(merged(acc, batch)),
    decreases batch.len(),
{
    if batch.len() != 0 {
        lemma_merged_distinct(acc, batch.drop_last());
    }
}

/// After merging, every entry of either side is there, and no other.
pub proof fn lemma_merged_ids(acc: Seq<Hit>, batch: Seq<Hit>, id: i64)
    ensures
        has_id(merged(acc, batch), id) <==> has_id(acc, id) || has_id(batch, id),
    decreases batch.len(),
{
    if batch.len() != 0 {
        let init = batch.drop_last();
        let last = batch.last();
        let before = merged(acc, init);
        lemma_merged_ids(acc, init, id);
        if has_id(batch, id) {
            let i = choose|i: int| 0 <= i < batch.len() && (#[trigger] batch[i]).id == id;
            if i < init.len() {
                assert(init[i].id == id);
            }
        }
        if has_id(init, id) {
            let i = choose|i: int| 0 <= i < init.len() && (#[trigger] init[i]).id == id;
            assert(batch[i].id == id);
        }
        assert(batch[batch.len() - 1].id == last.id);
        if !has_id(before, last.id) {
            let after = before.push(last);
            if has_id(after, id) {
                let i = choose|i: int| 0 <= i < after.len() && (#[trigger] after[i]).id == id;
                if i < before.len() {
                    assert(before[i].id == id);
                }
            }
            if has_id(before, id) {
                let i = choose|i: int| 0 <= i < before.len() && (#[trigger] before[i]).id == id;
                assert(after[i].id == id);
            }
            assert(after[after.len() - 1].id == last.id);
        }
    }
}

// ----------------------------------------------------------------------
// Laws of ranking
// ----------------------------------------------------------------------

/// Putting a hit into a sorted sequence leaves it sorted, with the same hits
/// and the new one.
pub proof fn lemma_inserted(sorted: Seq<Hit>, h: Hit)
    requires
        sorted_by_score(sorted),
    ensures
        sorted_by_score(inserted(sorted, h)),
        inserted(sorted, h).len() == sorted.len() + 1,
        inserted(sorted, h).to_multiset() == sorted.to_multiset().insert(h),
        forall|id: i64| has_id(inserted(sorted, h), id) <==> has_id(sorted, id) || id == h.id,
    decreases sorted.len(),
{
    broadcast use vstd::seq_lib::to_multiset_build;

    let after = inserted(sorted, h);
    if sorted.len() > 0 && sorted.last().score > h.score {
        let init = sorted.drop_last();
        let last = sorted.last();
        lemma_inserted(init, h);
        let mid = inserted(init, h);
        assert(sorted =~= init.push(last));
        assert forall|i: int, j: int| 0 <= i <= j < after.len() implies (#[trigger] after[i]).score
            <= (#[trigger] after[j]).score by {
            if j == after.len() - 1 {
                if i < j {
                    lemma_member_of_inserted(init, h, i);
                    if mid[i] != h {
                        let k = choose|k: int| 0 <= k < init.len() && init[k] == mid[i];
                        assert(sorted[k].score <= sorted[sorted.len() - 1].score);
                    }
                }
            } else {
                assert(mid[i].score <= mid[j].score);
            }
        }
        assert(sorted.to_multiset() =~= init.to_multiset().insert(last));
        assert(after.to_multiset() =~= sorted.to_multiset().insert(h));
        assert forall|id: i64| has_id(after, id) <==> has_id(sorted, id) || id == h.id by {
            lemma_has_id_push(mid, last, id);
            lemma_has_id_push(init, last, id);
        }
    } else {
        assert forall|i: int, j: int| 0 <= i <= j < after.len() implies (#[trigger] after[i]).score
            <= (#[trigger] after[j]).score by {
            if j == after.len() - 1 && i < j {
                assert(sorted[i].score <= sorted[sorted.len() - 1].score);
            } else if j < after.len() - 1 {
                assert(sorted[i].score <= sorted[j].score);
            }
        }
        assert forall|id: i64| has_id(after, id) <==> has_id(sorted, id) || id == h.id by {
            lemma_has_id_push(sorted, h, id);
        }
    }
}

proof fn lemma_member_of_inserted(sorted: Seq<Hit>, h: Hit, i: int)
    requires
        0 <= i < inserted(sorted, h).len(),
    ensures
        inserted(sorted, h)[i] == h || exists|k: int|
            0 <= k < sorted.len() && sorted[k] == inserted(sorted, h)[i],
    decreases sorted.len(),
{
    if sorted.len() > 0 && sorted.last().score > h.score {
        let init = sorted.drop_last();
        lemma_inserted_len(init, h);
        if i < inserted(init, h).len() {
            lemma_member_of_inserted(init, h, i);
            if inserted(init, h)[i] != h {
                let k = choose|k: int| 0 <= k < init.len() && init[k] == inserted(init, h)[i];
                assert(sorted[k] == inserted(sorted, h)[i]);
            }
        } else {
            assert(sorted[sorted.len() - 1] == inserted(sorted, h)[i]);
        }
    } else {
        if i < sorted.len() {
            assert(sorted[i] == inserted(sorted, h)[i]);
        }
    }
}

proof fn lemma_inserted_len(sorted: Seq<Hit>, h: Hit)
    ensures
        inserted(sorted, h).len() == sorted.len() + 1,
    decreases sorted.len(),
{
    if sorted.len() > 0 && sorted.last().score > h.score {
        lemma_inserted_len(sorted.drop_last(), h);
    }
}

/// A sequence with one more hit at its end has the entries it had, and that
/// of the new hit.
pub proof fn lemma_has_id_push(s: Seq<Hit>, h: Hit, id: i64)
    ensures
        has_id(s.push(h), id) <==> has_id(s, id) || id == h.id,
{
    let after = s.push(h);
    if has_id(after, id) {
        let i = choose|i: int| 0 <= i < after.len() && (#[trigger] after[i]).id == id;
        if i < s.len() {
            assert(s[i].id == id);
        }
    }
    if has_id(s, id) {
        let i = choose|i: int| 0 <= i < s.len() && (#[trigger] s[i]).id == id;
        assert(after[i].id == id);
    }
    assert(after[after.len() - 1].id == h.id);
}

/// Ranking sorts: the scores never go down, and the hits are those that
/// came in, each as often as it came.
pub proof fn lemma_ranked(hits: Seq<Hit>)
    ensures
        sorted_by_score(ranked(hits)),
        ranked(hits).len() == hits.len(),
        ranked(hits).to_multiset() == hits.to_multiset(),
        forall|id: i64| has_id(ranked(hits), id) <==> has_id(hits, id),
    decreases hits.len(),
{
    broadcast use vstd::seq_lib::to_multiset_build;

    if hits.len() == 0 {
        assert(ranked(hits) =~= hits);
    } else {
        let init = hits.drop_last();
        lemma_ranked(init);
        lemma_inserted(ranked(init), hits.last());
        assert(hits =~= init.push(hits.last()));
        assert forall|id: i64| has_id(ranked(hits), id) <==> has_id(hits, id) by {
            lemma_has_id_push(init, hits.last(), id);
        }
    }
}

/// Putting in a hit whose entry is new leaves the entries distinct.
pub proof fn lemma_inserted_distinct(sorted: Seq<Hit>, h: Hit)
    requires
        distinct_ids(sorted),
        !has_id(sorted, h.id),
    ensures
        distinct_ids(inserted(sorted, h)),
    decreases sorted.len(),
{
    let after = inserted(sorted, h);
    if sorted.len() > 0 && sorted.last().score > h.score {
        let init = sorted.drop_last();
        let last = sorted.last();
        assert(!has_id(init, h.id)) by {
            if has_id(init, h.id) {
                let i = choose|i: int| 0 <= i < init.len() && (#[trigger] init[i]).id == h.id;
                assert(sorted[i].id == h.id);
            }
        }
        assert(distinct_ids(init)) by {
            assert forall|i: int, j: int| 0 <= i < j < init.len() implies (#[trigger] init[i]).id
                != (#[trigger] init[j]).id by {
                assert(sorted[i].id != sorted[j].id);
            }
        }
        lemma_inserted_distinct(init, h);
        let mid = inserted(init, h);
        lemma_inserted_len(init, h);
        assert forall|i: int, j: int| 0 <= i < j < after.len() implies (#[trigger] after[i]).id
            != (#[trigger] after[j]).id by {
            if j == after.len() - 1 {
                lemma_member_of_inserted(init, h, i);
                if mid[i] == h {
                    assert(sorted[sorted.len() - 1].id == last.id);
                } else {
                    let k = choose|k: int| 0 <= k < init.len() && init[k] == mid[i];
                    assert(sorted[k].id != sorted[sorted.len() - 1].id);
                }
            } else {
                assert(mid[i].id != mid[j].id);
            }
        }
    } else {
        assert forall|i: int, j: int| 0 <= i < j < after.len() implies (#[trigger] after[i]).id
            != (#[trigger] after[j]).id by {
            if j == after.len() - 1 {
                assert(sorted[i].id != h.id);
            } else {
                assert(sorted[i].id != sorted[j].id);
            }
        }
    }
}

/// Ranking hits of distinct entries leaves the entries distinct.
pub proof fn lemma_ranked_distinct(hits: Seq<Hit>)
    requires
        distinct_ids(hits),
    ensures
        distinct_ids(ranked(hits)),
    decreases hits.len(),
{
    if hits.len() > 0 {
        let init = hits.drop_last();
        assert(distinct_ids(init)) by {
            assert forall|i: int, j: int| 0 <= i < j < init.len() implies (#[trigger] init[i]).id
                != (#[trigger] init[j]).id by {
                assert(hits[i].id != hits[j].id);
            }
        }
        lemma_ranked_distinct(init);
        lemma_ranked(init);
        assert(!has_id(init, hits.last().id)) by {
            if has_id(init, hits.last().id) {
                let i = choose|i: int|
                    0 <= i < init.len() && (#[trigger] init[i]).id == hits.last().id;
                assert(hits[i].id != hits[hits.len() - 1].id);
            }
        }
        lemma_inserted_distinct(ranked(init), hits.last());
    }
}

/// A hit that is put in lands just behind the last hit that scores no higher.
pub proof fn lemma_inserted_at(sorted: Seq<Hit>, h: Hit, at: int)
    requires
        0 <= at <= sorted.len(),
        forall|k: int| at <= k < sorted.len() ==> (#[trigger] sorted[k]).score > h.score,
        at > 0 ==> sorted[at - 1].score <= h.score,
    ensures
        inserted(sorted, h) == sorted.insert(at, h),
    decreases sorted.len(),
{
    if sorted.len() > 0 && sorted.last().score > h.score {
        assert(at < sorted.len()) by {
            if at == sorted.len() {
                assert(sorted[at - 1].score <= h.score);
            }
        }
        let init = sorted.drop_last();
        assert forall|k: int| at <= k < init.len() implies (#[trigger] init[k]).score
            > h.score by {
            assert(sorted[k].score > h.score);
        }
        lemma_inserted_at(init, h, at);
        assert(init.insert(at, h).push(sorted.last()) =~= sorted.insert(at, h));
    } else {
        if at < sorted.len() {
            assert(sorted[sorted.len() - 1].score > h.score);
        }
        assert(sorted.push(h) =~= sorted.insert(at, h));
    }
}

/// Putting a hit in changes the hits of its own score only, and puts it
/// behind them.
pub proof fn lemma_inserted_stable(sorted: Seq<Hit>, h: Hit, score: u128)
    ensures
        with_score(inserted(sorted, h), score) == if h.score == score {
            with_score(sorted, score).push(h)
        } else {
            with_score(sorted, score)
        },
    decreases sorted.len(),
{
    if sorted.len() > 0 && sorted.last().score > h.score {
        let init = sorted.drop_last();
        lemma_inserted_stable(init, h, score);
        assert(inserted(sorted, h).drop_last() =~= inserted(init, h));
    } else {
        assert(sorted.push(h).drop_last() =~= sorted);
    }
}

/// Ranking is stable: the hits of any one score keep the order they came in.
pub proof fn lemma_ranked_stable(hits: Seq<Hit>, score: u128)
    ensures
        with_score(ranked(hits), score) == with_score(hits, score),
    decreases hits.len(),
{
    if hits.len() > 0 {
        lemma_ranked_stable(hits.drop_last(), score);
        lemma_inserted_stable(ranked(hits.drop_last()), hits.last(), score);
    }
}

/// The last hit of a sorted sequence is the last of the hits of its score.
proof fn lemma_last_with_score(hits: Seq<Hit>)
    requires
        hits.len() > 0,
    ensures
        with_score(hits, hits.last().score).len() > 0,
        with_score(hits, hits.last().score).last() == hits.last(),
        with_score(hits, hits.last().score).drop_last() == with_score(
            hits.drop_last(),
            hits.last().score,
        ),
        forall|score: u128|
            score != hits.last().score ==> with_score(hits, score) == with_score(
                hits.drop_last(),
                score,
            ),
{
    let v = hits.last().score;
    assert(with_score(hits, v).drop_last() =~= with_score(hits.drop_last(), v));
}

/// Every hit of one score among `hits` is one of `hits`, with that score.
proof fn lemma_with_score_members(hits: Seq<Hit>, score: u128, i: int)
    requires
        0 <= i < with_score(hits, score).len(),
    ensures
        with_score(hits, score)[i].score == score,
        exists|k: int| 0 <= k < hits.len() && hits[k] == with_score(hits, score)[i],
    decreases hits.len(),
{
    if hits.len() > 0 {
        let init = hits.drop_last();
        if hits.last().score == score && i == with_score(init, score).len() {
            assert(hits[hits.len() - 1] == with_score(hits, score)[i]);
        } else {
            lemma_with_score_members(init, score, i);
            let k = choose|k: int| 0 <= k < init.len() && init[k] == with_score(init, score)[i];
            assert(hits[k] == with_score(hits, score)[i]);
        }
    }
}

/// There is one stable order only: two sorted sequences that hold, for
/// every score, the same hits of that score in the same order are the same
/// sequence.
pub proof fn lemma_stable_order_is_unique(first: Seq<Hit>, second: Seq<Hit>)
    requires
        sorted_by_score(first),
        sorted_by_score(second),
        first.len() == second.len(),
        forall|score: u128| with_score(first, score) == with_score(second, score),
    ensures
        first == second,
    decreases first.len(),
{
    if first.len() == 0 {
        assert(first =~= second);
    } else {
        let x = first.last();
        let y = second.last();
        lemma_last_with_score(first);
        lemma_last_with_score(second);
        // Each last hit occurs in the other sequence, so neither scores higher.
        assert(with_score(second, x.score) == with_score(first, x.score));
        lemma_with_score_members(second, x.score, with_score(second, x.score).len() - 1);
        let k = choose|k: int|
            0 <= k < second.len() && second[k] == with_score(second, x.score).last();
        assert(second[k].score <= second[second.len() - 1].score);
        assert(with_score(first, y.score) == with_score(second, y.score));
        lemma_with_score_members(first, y.score, with_score(first, y.score).len() - 1);
        let j = choose|j: int|
            0 <= j < first.len() && first[j] == with_score(first, y.score).last();
        assert(first[j].score <= first[first.len() - 1].score);
        assert(x.score == y.score);
        assert(x == y);
        let a = first.drop_last();
        let b = second.drop_last();
        assert(sorted_by_score(a)) by {
            assert forall|i: int, j: int| 0 <= i <= j < a.len() implies (#[trigger] a[i]).score <= (
            #[trigger] a[j]).score by {
                assert(first[i].score <= first[j].score);
            }
        }
        assert(sorted_by_score(b)) by {
            assert forall|i: int, j: int| 0 <= i <= j < b.len() implies (#[trigger] b[i]).score <= (
            #[trigger] b[j]).score by {
                assert(second[i].score <= second[j].score);
            }
        }
        assert forall|score: u128| with_score(a, score) == with_score(b, score) by {
            if score == x.score {
                assert(with_score(a, score) == with_score(first, score).drop_last());
                assert(with_score(b, score) == with_score(second, score).drop_last());
            } else {
                assert(with_score(first, score) == with_score(second, score));
            }
        }
        lemma_stable_order_is_unique(a, b);
        assert(first =~= a.push(x));
        assert(second =~= b.push(y));
    }
}

/// Ranking gives the stable order: whatever is sorted and holds, for every
/// score, the hits of that score in the order they came in, is the ranking.
pub proof fn lemma_ranked_is_the_stable_order(hits: Seq<Hit>, other: Seq<Hit>)
    requires
        sorted_by_score(other),
        other.len() == hits.len(),
        forall|score: u128| with_score(other, score) == with_score(hits, score),
    ensures
        other == ranked(hits),
{
    lemma_ranked(hits);
    assert forall|score: u128| with_score(other, score) == with_score(ranked(hits), score) by {
        lemma_ranked_stable(hits, score);
    }
    lemma_stable_order_is_unique(other, ranked(hits));
}

// ----------------------------------------------------------------------
// Laws of paging
// ----------------------------------------------------------------------

/// A page holds at most `limit` hits, in the order and from the place that
/// the offset gives.
pub proof fn lemma_page(hits: Seq<Hit>, offset: int, limit: int)
    requires
        0 <= offset,
        0 <= limit,
    ensures
        page(hits, offset, limit).len() <= limit,
        page(hits, offset, limit).len() <= hits.len(),
        offset + limit <= hits.len() ==> page(hits, offset, limit).len() == limit,
        forall|i: int|
            0 <= i < page(hits, offset, limit).len() ==> #[trigger] page(hits, offset, limit)[i]
                == hits[offset + i],
{
}

/// Two pages that follow each other make up the page that spans both.
pub proof fn lemma_adjacent_pages(hits: Seq<Hit>, offset: int, first: int, second: int)
    requires
        0 <= offset,
        0 <= first,
        0 <= second,
    ensures
        page(hits, offset, first) + page(hits, offset + first, second) == page(
            hits,
            offset,
            first + second,
        ),
{
    assert(page(hits, offset, first) + page(hits, offset + first, second) =~= page(
        hits,
        offset,
        first + second,
    ));
}

/// A page of sorted hits of distinct entries is sorted and its entries are
/// distinct.
pub proof fn lemma_page_keeps_order(hits: Seq<Hit>, offset: int, limit: int)
    requires
        0 <= offset,
        0 <= limit,
    ensures
        sorted_by_score(hits) ==> sorted_by_score(page(hits, offset, limit)),
        distinct_ids(hits) ==> distinct_ids(page(hits, offset, limit)),
{
    let p = page(hits, offset, limit);
    lemma_page(hits, offset, limit);
    if sorted_by_score(hits) {
        assert forall|i: int, j: int| 0 <= i <= j < p.len() implies (#[trigger] p[i]).score <= (
        #[trigger] p[j]).score by {
            assert(hits[offset + i].score <= hits[offset + j].score);
        }
    }
    if distinct_ids(hits) {
        assert forall|i: int, j: int| 0 <= i < j < p.len() implies (#[trigger] p[i]).id != (
        #[trigger] p[j]).id by {
            assert(hits[offset + i].id != hits[offset + j].id);
        }
    }
}

/// The entries of two sequences put end to end are those of either.
pub proof fn lemma_id_set_concat(a: Seq<Hit>, b: Seq<Hit>)
    ensures
        id_set(a + b) == id_set(a).union(id_set(b)),
{
    let both = a + b;
    assert forall|id: i64| has_id(both, id) <==> has_id(a, id) || has_id(b, id) by {
        if has_id(both, id) {
            let i = choose|i: int| 0 <= i < both.len() && (#[trigger] both[i]).id == id;
            if i < a.len() {
                assert(a[i].id == id);
            } else {
                assert(b[i - a.len()].id == id);
            }
        }
        if has_id(a, id) {
            let i = choose|i: int| 0 <= i < a.len() && (#[trigger] a[i]).id == id;
            assert(both[i].id == id);
        }
        if has_id(b, id) {
            let i = choose|i: int| 0 <= i < b.len() && (#[trigger] b[i]).id == id;
            assert(both[a.len() + i].id == id);
        }
    }
    assert(id_set(both) =~= id_set(a).union(id_set(b)));
}

// ----------------------------------------------------------------------
// The merger
// ----------------------------------------------------------------------

/// How many results a search for `limit` results at `offset` has to gather:
/// their sum, or the largest count there is where the sum is beyond it.
pub fn total_needed(limit: u32, offset: u32) -> (total: u32)
    ensures
        total == demand(limit, offset),
{
    offset.saturating_add(limit)
}

/// How many more results are wanted when `gathered` of `total` are there.
pub fn still_needed(total: u32, gathered: usize) -> (more: u32)
    ensures
        more == if gathered < total {
            total - gathered
        } else {
            0
        },
{
    if gathered < total as usize {
        total - gathered as u32
    } else {
        0
    }
}

/// Whether one of `results` is the entry `id`.
pub fn contains_id(results: &Vec<SearchResult>, id: i64) -> (found: bool)
    ensures
        found == has_id(hits(results@), id),
{
    let n = results.len();
    let mut i: usize = 0;
    while i < n
        invariant
            i <= n,
            n == results.len(),
            forall|k: int| 0 <= k < i ==> (#[trigger] hits(results@)[k]).id != id,
        decreases n - i,
    {
        if results[i].id == id {
            assert(hits(results@)[i as int].id == id);
            return true;
        }
        i += 1;
    }
    false
}

/// Appends to `results` those of `batch` whose entry is not among the
/// results yet, in their order.
pub fn append_new(results: &mut Vec<SearchResult>, batch: Vec<SearchResult>)
    ensures
        hits(final(results)@) == merged(hits(old(results)@), hits(batch@)),
{
    let ghost start = hits(results@);
    let ghost incoming = hits(batch@);
    proof {
        assert(incoming.take(0) =~= Seq::empty());
    }
    for r in it: batch
        invariant
            it.seq() == batch@,
            incoming == hits(batch@),
            hits(results@) == merged(start, incoming.take(it.index() as int)),
    {
        let ghost before = hits(results@);
        proof {
            assert(incoming.take(it.index() + 1).drop_last() =~= incoming.take(
                it.index() as int,
            ));
            assert(incoming.take(it.index() + 1).last() == r@);
        }
        if !contains_id(results, r.id) {
            results.push(r);
            proof {
                assert(hits(results@) =~= before.push(r@));
            }
        }
    }
    proof {
        assert(incoming.take(incoming.len() as int) =~= incoming);
    }
}

/// `batch` with every score set to that of an exact match.
pub fn score_exact_matches(batch: Vec<SearchResult>) -> (out: Vec<SearchResult>)
    ensures
        hits(out@) == exact_scored(hits(batch@)),
{
    let mut out: Vec<SearchResult> = Vec::new();
    let ghost incoming = hits(batch@);
    for r in it: batch
        invariant
            it.seq() == batch@,
            incoming == hits(batch@),
            hits(out@) == exact_scored(incoming.take(it.index() as int)),
    {
        let ghost before = hits(out@);
        let ghost came = r@;
        proof {
            assert(incoming[it.index() as int] == came);
        }
        let mut r = r;
        r.score = EXACT_SCORE;
        out.push(r);
        proof {
            assert(r@ == rescored(came, EXACT_SCORE));
            assert(hits(out@) =~= before.push(r@));
            assert(hits(out@) =~= exact_scored(incoming.take(it.index() + 1)));
        }
    }
    proof {
        assert(incoming.take(incoming.len() as int) =~= incoming);
    }
    out
}

/// The score of a prefix match of `word_len` bytes for a query of
/// `query_len` bytes.
pub fn prefix_score(word_len: usize, query_len: usize) -> (score: u128)
    ensures
        score == prefix_score_of(word_len as int, query_len as int),
{
    let extra: usize = word_len.saturating_sub(query_len);
    assert(PREFIX_STEP * extra <= 100_000 * 0xffff_ffff_ffff_ffff) by (nonlinear_arith)
        requires
            extra <= 0xffff_ffff_ffff_ffff,
            PREFIX_STEP == 100_000,
    ;
    PREFIX_BASE + PREFIX_STEP * (extra as u128)
}

/// The score of a match that the text index ranked `rank`, in millionths.
pub fn index_score(rank: i64) -> (score: u128)
    ensures
        score == index_score_of(rank),
{
    let wide: i128 = rank as i128;
    if wide < 0 {
        INDEX_BASE + ((-wide) as u128)
    } else {
        INDEX_BASE + (wide as u128)
    }
}

/// The score of a fuzzy match at edit distance `distance`.
pub fn fuzzy_score(distance: usize) -> (score: u128)
    ensures
        score == fuzzy_score_of(distance as int),
{
    assert(distance * SCORE_UNIT <= 0xffff_ffff_ffff_ffff * 1_000_000) by (nonlinear_arith)
        requires
            distance <= 0xffff_ffff_ffff_ffff,
            SCORE_UNIT == 1_000_000,
    ;
    FUZZY_BASE + (distance as u128) * SCORE_UNIT
}

/// `batch` with every score set to that of a prefix match for a query of
/// `query_len` bytes.
pub fn score_prefix_matches(batch: Vec<SearchResult>, query_len: usize) -> (out: Vec<
    SearchResult,
>)
    ensures
        hits(out@) == prefix_scored(hits(batch@), query_len as int),
{
    let mut out: Vec<SearchResult> = Vec::new();
    let ghost incoming = hits(batch@);
    for r in it: batch
        invariant
            it.seq() == batch@,
            incoming == hits(batch@),
            hits(out@) == prefix_scored(incoming.take(it.index() as int), query_len as int),
    {
        let ghost before = hits(out@);
        let ghost came = r@;
        proof {
            assert(incoming[it.index() as int] == came);
        }
        let mut r = r;
        let word_len = r.word.as_str().as_bytes().len();
        r.score = prefix_score(word_len, query_len);
        out.push(r);
        proof {
            assert(r@ == rescored(
                came,
                prefix_score_of(encode_utf8(came.word).len() as int, query_len as int) as u128,
            ));
            assert(hits(out@) =~= before.push(r@));
            assert(hits(out@) =~= prefix_scored(
                incoming.take(it.index() + 1),
                query_len as int,
            ));
        }
    }
    proof {
        assert(incoming.take(incoming.len() as int) =~= incoming);
    }
    out
}

/// `results` in ascending order of score; results of equal score stay in
/// the order they came in.
pub fn rank_results(results: Vec<SearchResult>) -> (out: Vec<SearchResult>)
    ensures
        hits(out@) == ranked(hits(results@)),
{
    let mut out: Vec<SearchResult> = Vec::new();
    let ghost incoming = hits(results@);
    proof {
        assert(incoming.take(0) =~= Seq::empty());
    }
    for r in it: results
        invariant
            it.seq() == results@,
            incoming == hits(results@),
            hits(out@) == ranked(incoming.take(it.index() as int)),
    {
        let ghost before = hits(out@);
        proof {
            assert(incoming.take(it.index() + 1).drop_last() =~= incoming.take(
                it.index() as int,
            ));
            assert(incoming.take(it.index() + 1).last() == r@);
        }
        let mut at: usize = out.len();
        while at > 0 && out[at - 1].score > r.score
            invariant
                at <= out.len(),
                before == hits(out@),
                forall|k: int| at <= k < before.len() ==> (#[trigger] before[k]).score > r.score,
            decreases at,
        {
            at -= 1;
        }
        proof {
            lemma_inserted_at(before, r@, at as int);
        }
        out.insert(at, r);
        proof {
            assert(hits(out@) =~= before.insert(at as int, r@));
        }
    }
    proof {
        assert(incoming.take(incoming.len() as int) =~= incoming);
    }
    out
}

/// The page of at most `limit` results that begins `offset` results into
/// `results`.
pub fn paginate(results: Vec<SearchResult>, offset: u32, limit: u32) -> (out: Vec<SearchResult>)
    ensures
        hits(out@) == page(hits(results@), offset as int, limit as int),
{
    let mut results = results;
    let ghost all = hits(results@);
    let len = results.len();
    let start: usize = if (offset as usize) < len {
        offset as usize
    } else {
        len
    };
    let end: usize = if limit as usize <= len - start {
        start + limit as usize
    } else {
        len
    };
    results.truncate(end);
    let out = results.split_off(start);
    proof {
        assert(hits(out@) =~= all.subrange(start as int, end as int));
    }
    out
}

/// The merger of one search: what the tiers have given so far, and how much
/// is wanted in all.
pub struct Merger {
    results: Vec<SearchResult>,
    total: u32,
}

impl Merger {
    /// What has been gathered so far, in the order it came.
    pub closed spec fn gathered(&self) -> Seq<Hit> {
        hits(self.results@)
    }

    /// How many results are wanted in all.
    pub closed spec fn total(&self) -> int {
        self.total as int
    }

    /// How many more results are wanted.
    pub open spec fn wanted_of(&self) -> int {
        if self.gathered().len() < self.total() {
            self.total() - self.gathered().len()
        } else {
            0
        }
    }

    /// A merger for a search for `limit` results at `offset`, with nothing
    /// gathered yet.
    pub fn new(limit: u32, offset: u32) -> (m: Merger)
        ensures
            m.gathered() == Seq::<Hit>::empty(),
            m.total() == demand(limit, offset),
    {
        let m = Merger { results: Vec::new(), total: total_needed(limit, offset) };
        proof {
            assert(hits(m.results@) =~= Seq::empty());
        }
        m
    }

    /// How many more results are wanted: a tier is asked for this many, and
    /// not at all when it is zero.
    pub fn wanted(&self) -> (more: u32)
        ensures
            more == self.wanted_of(),
    {
        still_needed(self.total, self.results.len())
    }

    /// Takes in what a tier gave: those of `batch` whose entry is not there
    /// yet.
    pub fn take(&mut self, batch: Vec<SearchResult>)
        ensures
            final(self).gathered() == merged(old(self).gathered(), hits(batch@)),
            final(self).total() == old(self).total(),
    {
        append_new(&mut self.results, batch);
    }

    /// The window of at most `limit` results at `offset`, cut from the
    /// ranking of all that was gathered.
    pub fn finish(self, offset: u32, limit: u32) -> (window: Vec<SearchResult>)
        ensures
            hits(window@) == page(ranked(self.gathered()), offset as int, limit as int),
    {
        paginate(rank_results(self.results), offset, limit)
    }
}

} // verus!
