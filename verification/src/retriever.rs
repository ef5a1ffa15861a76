//! Scoring chunks against the tokens of a query and turning the chunks that
//! the index or the scoring picked into results.

use crate::normalizer::{lowercase, string_views, to_lowercase};
use crate::ranking::{as_ints, is_ranking, rank, rank_scores, score_ints};
use crate::store::{first_n, Row, RowView, row_views};
use crate::text::to_chars;
use std::collections::HashMap;
use vstd::prelude::*;

verus! {

/// How often `needle` occurs in `hay` from position `i` on, counted from the
/// left with no two occurrences overlapping. The empty needle occurs before
/// each character and at the end.
pub open spec fn occurrences_from(hay: Seq<char>, needle: Seq<char>, i: int) -> nat
    decreases hay.len() - i,
{
    if needle.len() == 0 {
        if 0 <= i <= hay.len() {
            (hay.len() - i + 1) as nat
        } else {
            0
        }
    } else if i < 0 || i + needle.len() > hay.len() {
        0
    } else if hay.subrange(i, i + needle.len()) == needle {
        1 + occurrences_from(hay, needle, i + needle.len())
    } else {
        occurrences_from(hay, needle, i + 1)
    }
}

/// How often `needle` occurs in `hay`.
pub open spec fn occurrences(hay: Seq<char>, needle: Seq<char>) -> nat {
    occurrences_from(hay, needle, 0)
}

/// The sum over the words of how often each occurs in the text.
pub open spec fn term_frequency(words: Seq<Seq<char>>, text: Seq<char>) -> nat
    decreases words.len(),
{
    if words.len() == 0 {
        0
    } else {
        term_frequency(words.drop_last(), text) + occurrences(text, words.last())
    }
}

/// The tokens in lowercase.
pub open spec fn lowered(tokens: Seq<Seq<char>>) -> Seq<Seq<char>> {
    tokens.map_values(|t: Seq<char>| lowercase(t))
}

/// The score of a text for the tokens of a query: how often the tokens occur
/// in it, case set aside.
pub open spec fn score(tokens: Seq<Seq<char>>, content: Seq<char>) -> nat {
    term_frequency(lowered(tokens), lowercase(content))
}

/// `n`, or the largest `u64` if `n` is beyond it.
pub open spec fn capped(n: nat) -> u64 {
    if n > u64::MAX {
        u64::MAX
    } else {
        n as u64
    }
}

/// The words as sequences of characters.
pub open spec fn char_views(v: Seq<Vec<char>>) -> Seq<Seq<char>> {
    v.map_values(|w: Vec<char>| w@)
}

fn matches_at(hay: &Vec<char>, needle: &Vec<char>, i: usize) -> (b: bool)
    requires
        i + needle.len() <= hay.len(),
    ensures
        b == (hay@.subrange(i as int, i + needle.len()) == needle@),
{
    let mut k: usize = 0;
    while k < needle.len()
        invariant
            k <= needle.len(),
            i + needle.len() <= hay.len(),
            forall|j: int| 0 <= j < k ==> hay[i + j] == needle[j],
        decreases needle.len() - k,
    {
        if hay[i + k] != needle[k] {
            assert(hay@.subrange(i as int, i + needle.len())[k as int] != needle@[k as int]);
            return false;
        }
        k += 1;
    }
    assert(hay@.subrange(i as int, i + needle.len()) =~= needle@);
    true
}

/// Counts the occurrences of `needle` in `hay`.
pub fn count_occurrences(hay: &Vec<char>, needle: &Vec<char>) -> (n: u64)
    ensures
        n == capped(occurrences(hay@, needle@)),
{
    let len = hay.len();
    let m = needle.len();
    if m == 0 {
        let wide: u64 = len as u64;
        return if wide < u64::MAX {
            wide + 1
        } else {
            u64::MAX
        };
    }
    let mut count: u64 = 0;
    let mut i: usize = 0;
    while i <= len && m <= len - i
        invariant
            len == hay.len(),
            m == needle.len(),
            m > 0,
            i <= len,
            count <= i,
            count + occurrences_from(hay@, needle@, i as int) == occurrences(hay@, needle@),
        decreases len - i,
    {
        if matches_at(hay, needle, i) {
            count += 1;
            i += m;
        } else {
            i += 1;
        }
    }
    count
}

/// Sums the occurrences of the words in the text; stays at the largest
/// `u64` once the sum is beyond it.
pub fn count_terms(words: &Vec<Vec<char>>, text: &Vec<char>) -> (n: u64)
    ensures
        n == capped(term_frequency(char_views(words@), text@)),
{
    let mut total: u64 = 0;
    let mut i: usize = 0;
    while i < words.len()
        invariant
            i <= words.len(),
            total == capped(term_frequency(char_views(words@).take(i as int), text@)),
        decreases words.len() - i,
    {
        let ghost after = char_views(words@).take(i + 1);
        assert(after.drop_last() == char_views(words@).take(i as int));
        assert(after.last() == words[i as int]@);
        let c = count_occurrences(text, &words[i]);
        total = if c > u64::MAX - total {
            u64::MAX
        } else {
            total + c
        };
        i += 1;
    }
    assert(char_views(words@).take(words.len() as int) == char_views(words@));
    total
}

/// The tokens in lowercase, as characters.
pub fn lower_tokens(tokens: &Vec<String>) -> (r: Vec<Vec<char>>)
    ensures
        char_views(r@) == lowered(string_views(tokens@)),
{
    let mut r: Vec<Vec<char>> = Vec::new();
    let mut i: usize = 0;
    while i < tokens.len()
        invariant
            i <= tokens.len(),
            r.len() == i,
            forall|k: int| 0 <= k < i ==> (#[trigger] r[k])@ == lowercase(tokens[k]@),
        decreases tokens.len() - i,
    {
        let lower = to_lowercase(tokens[i].as_str());
        r.push(to_chars(lower.as_str()));
        i += 1;
    }
    assert(char_views(r@) =~= lowered(string_views(tokens@)));
    r
}

/// How a result came to be picked.
#[derive(Debug, Clone, Copy, PartialEq, Eq, Structural)]
pub enum Relevance {
    /// The place among the hits of the index, the best at zero.
    Rank(usize),
    /// How often the tokens of the query occur in the chunk.
    Score(u64),
}

/// One chunk that answers a query.
#[derive(Debug)]
pub struct SearchResult {
    pub document_id: String,
    /// The title of the document that the chunk belongs to.
    pub title: String,
    pub chunk_id: String,
    pub content: String,
    pub similarity_score: Relevance,
    /// The metadata of the document that the chunk belongs to.
    pub metadata: HashMap<String, String>,
}

/// What a result holds, as mathematical values.
pub struct ResultView {
    pub document_id: Seq<char>,
    pub title: Seq<char>,
    pub chunk_id: Seq<char>,
    pub content: Seq<char>,
    pub similarity_score: Relevance,
    pub metadata: Map<String, String>,
}

impl View for SearchResult {
    type V = ResultView;

    open spec fn view(&self) -> ResultView {
        ResultView {
            document_id: self.document_id@,
            title: self.title@,
            chunk_id: self.chunk_id@,
            content: self.content@,
            similarity_score: self.similarity_score,
            metadata: self.metadata@,
        }
    }
}

/// The results as mathematical values.
pub open spec fn result_views(results: Seq<SearchResult>) -> Seq<ResultView> {
    results.map_values(|r: SearchResult| r@)
}

/// The result for a chunk and its document.
pub open spec fn result_of(row: RowView, relevance: Relevance) -> ResultView {
    ResultView {
        document_id: row.document.id,
        title: row.document.title,
        chunk_id: row.chunk.id,
        content: row.chunk.content,
        similarity_score: relevance,
        metadata: row.document.metadata,
    }
}

/// The passage that stands for a result: the title and the id of the
/// document, then the text of the chunk.
pub open spec fn passage(r: ResultView) -> Seq<char> {
    "[Document: "@ + r.title + " ("@ + r.document_id + ")] "@ + r.content
}

/// The passages of the results, in the same order.
pub open spec fn passages(results: Seq<ResultView>) -> Seq<Seq<char>> {
    results.map_values(|r: ResultView| passage(r))
}

impl SearchResult {
    /// The result for the chunk of `row`.
    pub fn from_row(row: &Row<'_>, relevance: Relevance) -> (r: SearchResult)
        ensures
            r@ == result_of(row@, relevance),
    {
        SearchResult {
            document_id: row.document.id.clone(),
            title: row.document.title.clone(),
            chunk_id: row.chunk.id.clone(),
            content: row.chunk.content.clone(),
            similarity_score: relevance,
            metadata: row.document.metadata.clone(),
        }
    }

    /// The result as one line of text.
    pub fn passage(&self) -> (p: String)
        ensures
            p@ == passage(self@),
    {
        let mut p = "[Document: ".to_owned();
        p.append(self.title.as_str());
        p.append(" (");
        p.append(self.document_id.as_str());
        p.append(")] ");
        p.append(self.content.as_str());
        p
    }
}

/// The results as lines of text, in the same order.
pub fn to_passages(results: &Vec<SearchResult>) -> (r: Vec<String>)
    ensures
        string_views(r@) == passages(result_views(results@)),
{
    let mut r: Vec<String> = Vec::new();
    let mut i: usize = 0;
    while i < results.len()
        invariant
            i <= results.len(),
            r.len() == i,
            forall|k: int| 0 <= k < i ==> (#[trigger] r[k])@ == passage(results[k]@),
        decreases results.len() - i,
    {
        r.push(results[i].passage());
        i += 1;
    }
    assert(string_views(r@) =~= passages(result_views(results@)));
    r
}

/// The scores of the candidates for the tokens.
pub open spec fn row_scores(candidates: Seq<RowView>, tokens: Seq<Seq<char>>) -> Seq<int> {
    Seq::new(candidates.len(), |i: int| capped(score(tokens, candidates[i].chunk.content)) as int)
}

/// The results of the scored scan: of the candidates with a positive score,
/// the `limit` best, best first, equal scores in the order of the
/// candidates.
pub open spec fn fallback_results(
    candidates: Seq<RowView>,
    tokens: Seq<Seq<char>>,
    limit: int,
) -> Seq<ResultView> {
    let scores = row_scores(candidates, tokens);
    let order = first_n(rank(scores), limit);
    Seq::new(
        order.len(),
        |k: int| result_of(candidates[order[k]], Relevance::Score(scores[order[k]] as u64)),
    )
}

/// Scores the candidates against the tokens and gives the best of them.
pub fn rank_candidates(candidates: &Vec<Row<'_>>, tokens: &Vec<String>, limit: usize) -> (r: Vec<
    SearchResult,
>)
    ensures
        result_views(r@) == fallback_results(
            row_views(candidates@),
            string_views(tokens@),
            limit as int,
        ),
        r.len() <= limit,
{
    let words = lower_tokens(tokens);
    let ghost want = row_scores(row_views(candidates@), string_views(tokens@));
    let mut scores: Vec<u64> = Vec::new();
    let mut i: usize = 0;
    while i < candidates.len()
        invariant
            i <= candidates.len(),
            scores.len() == i,
            char_views(words@) == lowered(string_views(tokens@)),
            want == row_scores(row_views(candidates@), string_views(tokens@)),
            forall|k: int| 0 <= k < i ==> (#[trigger] scores[k]) as int == want[k],
        decreases candidates.len() - i,
    {
        let lower = to_lowercase(candidates[i].chunk.content.as_str());
        let text = to_chars(lower.as_str());
        let s = count_terms(&words, &text);
        assert(row_views(candidates@)[i as int] == candidates[i as int]@);
        scores.push(s);
        i += 1;
    }
    assert(score_ints(scores@) =~= want);
    let order = rank_scores(&scores);
    let ghost picked = first_n(rank(want), limit as int);
    let mut r: Vec<SearchResult> = Vec::new();
    let mut k: usize = 0;
    while k < order.len() && k < limit
        invariant
            k <= order.len(),
            k <= limit,
            r.len() == k,
            scores.len() == candidates.len(),
            score_ints(scores@) == want,
            as_ints(order@) == rank(want),
            is_ranking(as_ints(order@), want, scores.len() as int),
            forall|j: int|
                0 <= j < k ==> (#[trigger] r[j])@ == result_of(
                    row_views(candidates@)[rank(want)[j]],
                    Relevance::Score(want[rank(want)[j]] as u64),
                ),
        decreases order.len() - k,
    {
        let c = order[k];
        assert(as_ints(order@)[k as int] == c);
        assert(score_ints(scores@)[c as int] == scores[c as int]);
        assert(row_views(candidates@)[c as int] == candidates[c as int]@);
        r.push(SearchResult::from_row(&candidates[c], Relevance::Score(scores[c])));
        k += 1;
    }
    assert(result_views(r@) =~= fallback_results(
        row_views(candidates@),
        string_views(tokens@),
        limit as int,
    ));
    r
}

/// Position of the first row, at or after `from`, whose chunk has the id.
pub open spec fn first_with_id(rows: Seq<RowView>, id: Seq<char>, from: int) -> Option<int>
    decreases rows.len() - from,
{
    if from < 0 || from >= rows.len() {
        None
    } else if rows[from].chunk.id == id {
        Some(from)
    } else {
        first_with_id(rows, id, from + 1)
    }
}

/// The positions of the rows that the chunk ids name, in the order of the
/// ids; an id that names no row is passed over.
pub open spec fn resolved(rows: Seq<RowView>, ids: Seq<Seq<char>>) -> Seq<int>
    decreases ids.len(),
{
    if ids.len() == 0 {
        Seq::empty()
    } else {
        let before = resolved(rows, ids.drop_last());
        match first_with_id(rows, ids.last(), 0) {
            Some(k) => before.push(k),
            None => before,
        }
    }
}

/// The results for the rows at the given positions, ranked as they come.
pub open spec fn ranked_results(rows: Seq<RowView>, found: Seq<int>) -> Seq<ResultView> {
    Seq::new(found.len(), |k: int| result_of(rows[found[k]], Relevance::Rank(k as usize)))
}

/// The results of a search of the index: the first `limit` hits, joined to
/// the rows of the store, in the order of the index.
pub open spec fn indexed_results(rows: Seq<RowView>, hits: Seq<Seq<char>>, limit: int) -> Seq<
    ResultView,
> {
    ranked_results(rows, resolved(rows, first_n(hits, limit)))
}

/// What `first_with_id` finds has the id; it finds nothing only where no
/// row has it.
pub proof fn lemma_first_with_id(rows: Seq<RowView>, id: Seq<char>, from: int)
    requires
        0 <= from,
    ensures
        match first_with_id(rows, id, from) {
            Some(k) => from <= k < rows.len() && rows[k].chunk.id == id,
            None => forall|k: int| from <= k < rows.len() ==> (#[trigger] rows[k]).chunk.id != id,
        },
    decreases rows.len() - from,
{
    if from < rows.len() && rows[from].chunk.id != id {
        lemma_first_with_id(rows, id, from + 1);
    }
}

/// Every id resolves to a row of the store that has that id, and there are
/// no more positions than ids.
pub proof fn lemma_resolved(rows: Seq<RowView>, ids: Seq<Seq<char>>)
    ensures
        resolved(rows, ids).len() <= ids.len(),
        forall|k: int|
            0 <= k < resolved(rows, ids).len() ==> 0 <= (#[trigger] resolved(rows, ids)[k])
                < rows.len(),
    decreases ids.len(),
{
    if ids.len() > 0 {
        lemma_resolved(rows, ids.drop_last());
        lemma_first_with_id(rows, ids.last(), 0);
    }
}

fn find_row(rows: &Vec<Row<'_>>, id: &String) -> (r: Option<usize>)
    ensures
        match r {
            Some(k) => first_with_id(row_views(rows@), id@, 0) == Some(k as int) && k < rows.len(),
            None => first_with_id(row_views(rows@), id@, 0) is None,
        },
{
    let mut k: usize = 0;
    while k < rows.len()
        invariant
            k <= rows.len(),
            first_with_id(row_views(rows@), id@, 0) == first_with_id(
                row_views(rows@),
                id@,
                k as int,
            ),
        decreases rows.len() - k,
    {
        assert(row_views(rows@)[k as int] == rows[k as int]@);
        if rows[k].chunk.id == *id {
            return Some(k);
        }
        k += 1;
    }
    None
}

/// Joins the first `limit` hits of the index to the rows of the store.
pub fn resolve_hits(rows: &Vec<Row<'_>>, hits: &Vec<String>, limit: usize) -> (r: Vec<
    SearchResult,
>)
    ensures
        result_views(r@) == indexed_results(
            row_views(rows@),
            string_views(hits@),
            limit as int,
        ),
        r.len() <= limit,
{
    let bound: usize = if hits.len() < limit {
        hits.len()
    } else {
        limit
    };
    let ghost ids = string_views(hits@);
    let ghost all = row_views(rows@);
    let ghost found: Seq<int> = Seq::empty();
    let mut r: Vec<SearchResult> = Vec::new();
    let mut i: usize = 0;
    while i < bound
        invariant
            i <= bound <= hits.len(),
            bound <= limit,
            ids == string_views(hits@),
            all == row_views(rows@),
            found == resolved(all, ids.take(i as int)),
            r.len() == found.len(),
            r.len() <= i,
            forall|k: int|
                0 <= k < r.len() ==> (#[trigger] r[k])@ == result_of(
                    all[found[k]],
                    Relevance::Rank(k as usize),
                ),
        decreases bound - i,
    {
        assert(ids.take(i + 1).drop_last() == ids.take(i as int));
        assert(ids.take(i + 1).last() == hits[i as int]@);
        match find_row(rows, &hits[i]) {
            Some(k) => {
                assert(all[k as int] == rows[k as int]@);
                let rank = r.len();
                r.push(SearchResult::from_row(&rows[k], Relevance::Rank(rank)));
                proof {
                    found = found.push(k as int);
                }
            },
            None => {},
        }
        i += 1;
    }
    proof {
        assert(ids.take(bound as int) == first_n(ids, limit as int));
        assert(result_views(r@) =~= ranked_results(all, found));
    }
    r
}

/// What a query gives: the hits of the index where any of them names a
/// chunk of the store; else the scored scan over the first `5 * limit` rows.
pub open spec fn retrieval(
    rows: Seq<RowView>,
    tokens: Seq<Seq<char>>,
    hits: Seq<Seq<char>>,
    limit: int,
) -> Seq<ResultView> {
    let indexed = indexed_results(rows, hits, limit);
    if indexed.len() > 0 {
        indexed
    } else {
        fallback_results(first_n(rows, 5 * limit), tokens, limit)
    }
}

} // verus!
