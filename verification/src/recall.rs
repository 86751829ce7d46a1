//! Recalling memories: by similarity, by links, by what is going on; and finding those that repeat
//! each other or went stale.
use crate::embedding::{
    close_ones, law_nearest_ones_are_found, law_nearest_ones_are_near, nearest, neighbours,
    Embedded, EmbeddedView, DECAY_CANDIDATE_CAP, DECAY_DUP_THRESHOLD, MIN_RELATED_SIMILARITY,
};
use crate::engram::{link_views, Engram, EngramLink, EngramView, LinkType, LinkView};
use crate::error::{EngramError, ErrorView};
use crate::links::{link_statement, link_statement_of};
use crate::measure::Measure;
use crate::rank::{
    all_views, law_best_ones_are_shown, law_ranking_orders_and_keeps_everything,
    law_shown_ones_are_in_order, rank, ranking, result_before, result_goes_before, top, Ranked,
    Scored, ScoredView,
};
use crate::rows::engram_views;
use crate::search::{engrams_where, select_engrams};
use crate::sql::{
    blob_column, lemma_statements_push, limit_value, limit_view, plain, plain_of, row_views,
    statement_views, text_at, text_column, value_views, with1, Row, SqlValue, SqlView, Statement,
    StatementView,
};
use crate::text::{
    byte_len, chars_of, contains, dictionary_le, has_byte_len, lemma_dictionary_total,
    lemma_dictionary_transitive, lowercase_of, occurs_in, same, split_words, texts, to_lowercase,
    views, words,
};
use crate::time::{Timestamp, SECOND};
use vstd::prelude::*;
use vstd::utf8::encode_utf8;

verus! {

/// All stored embeddings.
pub const ALL_EMBEDDINGS: &'static str = "SELECT ee.engram_id, ee.embedding, e.created_at FROM engram_embeddings ee JOIN engrams e ON e.id = ee.engram_id";

/// The stored embeddings of all memories that are not quarantined.
pub const LIVE_EMBEDDINGS: &'static str = "SELECT ee.engram_id, ee.embedding, e.created_at FROM engram_embeddings ee JOIN engrams e ON e.id = ee.engram_id WHERE NOT (e.imagined = 1 AND e.grounded = 0)";

/// The memories that are searched for repetitions, the newest first.
pub const REPETITION_CANDIDATES: &'static str = "SELECT e.id, e.content, em.embedding FROM engram_embeddings em INNER JOIN engrams e ON e.id = em.engram_id WHERE NOT (e.imagined = 1 AND e.grounded = 0) ORDER BY e.created_at DESC LIMIT ?1";

/// The memories that are searched for stale working state, the newest first.
pub const STALE_CANDIDATES: &'static str = "SELECT id, content FROM engrams WHERE layer = 'episodic' AND created_at < ?1 ORDER BY created_at DESC LIMIT 1000";

/// The bits of 0.1, which the relevance of a memory that surfaces exceeds.
pub const SURFACE_THRESHOLD: u64 = 0x3fb9_9999_9999_999a;

/// After how many days working state counts as stale.
pub const STALE_STATE_DAYS: u32 = 7;

/// The memories closest to a query, given the similarity of each stored embedding.
pub fn vector_search(stored: &Vec<Embedded>, scores: &Vec<Measure>, limit: usize) -> (r: Vec<
    Scored,
>)
    requires
        stored@.len() == scores@.len(),
    ensures
        all_views(r@) == nearest(all_views(stored@), scores@, None, Seq::empty(), limit),
{
    let none: Vec<String> = Vec::new();
    assert(texts(none@) =~= Seq::empty());
    neighbours(stored, scores, None, &none, limit)
}

proof fn lemma_close_ones_keep_all(stored: Seq<EmbeddedView>, scores: Seq<Measure>, n: int)
    requires
        0 <= n <= stored.len(),
        stored.len() == scores.len(),
    ensures
        close_ones(stored.take(n), scores, None, Seq::empty()).len() == n,
    decreases n,
{
    if n > 0 {
        lemma_close_ones_keep_all(stored, scores, n - 1);
        assert(stored.take(n).drop_last() =~= stored.take(n - 1));
    }
}

/// A search by similarity finds as many memories as it may, as far as there are any, the most
/// similar first.
pub proof fn law_vector_search_is_ranked(
    stored: Seq<EmbeddedView>,
    scores: Seq<Measure>,
    limit: usize,
)
    requires
        stored.len() == scores.len(),
    ensures
        ({
            let found = nearest(stored, scores, None, Seq::empty(), limit);
            &&& found.len() == if stored.len() <= limit {
                stored.len()
            } else {
                limit as nat
            }
            &&& forall|i: int, j: int|
                #![trigger found[i], found[j]]
                0 <= i < j < found.len() ==> found[i].score.rank() >= found[j].score.rank()
        }),
{
    assert(stored.take(stored.len() as int) =~= stored);
    lemma_close_ones_keep_all(stored, scores, stored.len() as int);
    let list = close_ones(stored, scores, None, Seq::empty());
    law_ranking_orders_and_keeps_everything::<Scored>(list);
    let ranked = ranking::<Scored>(list);
    let found = nearest(stored, scores, None, Seq::empty(), limit);
    assert forall|i: int, j: int|
        #![trigger found[i], found[j]]
        0 <= i < j < found.len() implies found[i].score.rank() >= found[j].score.rank() by {
        assert(found[i] == ranked[i] && found[j] == ranked[j]);
        assert(Scored::before(ranked[i], ranked[j]));
    }
    assert(ranked.len() == list.len()) by {
        broadcast use vstd::seq_lib::group_to_multiset_ensures;

        assert(ranked.to_multiset().len() == ranked.len());
        assert(list.to_multiset().len() == list.len());
    }
}

/// The identifiers of the first linked memories.
pub open spec fn first_targets(links: Seq<LinkView>, limit: nat) -> Seq<Seq<char>> {
    top(links, limit).map_values(|l: LinkView| l.target_id)
}

/// The identifiers of the first linked memories.
pub fn linked_targets(links: &Vec<EngramLink>, limit: usize) -> (r: Vec<String>)
    ensures
        texts(r@) == first_targets(link_views(links@), limit as nat),
{
    let mut out: Vec<String> = Vec::new();
    let ghost want = first_targets(link_views(links@), limit as nat);
    let mut i: usize = 0;
    while i < links.len() && i < limit
        invariant
            i <= links@.len(),
            i <= limit,
            want == first_targets(link_views(links@), limit as nat),
            texts(out@) == want.take(i as int),
        decreases links@.len() - i,
    {
        let id = links[i].target_id.clone();
        proof {
            assert(want[i as int] == link_views(links@)[i as int].target_id);
            assert(texts(out@.push(id)) =~= texts(out@).push(id@));
            assert(want.take(i + 1) =~= want.take(i as int).push(want[i as int]));
        }
        out.push(id);
        i += 1;
    }
    assert(want.take(i as int) =~= want);
    out
}

/// Those that are not quarantined.
pub open spec fn live_ones(list: Seq<EngramView>) -> Seq<EngramView> {
    list.filter(|e: EngramView| !e.quarantined())
}

/// Those that are not quarantined.
pub fn keep_live(list: Vec<Engram>) -> (r: Vec<Engram>)
    ensures
        engram_views(r@) == live_ones(engram_views(list@)),
{
    let mut out: Vec<Engram> = Vec::new();
    let ghost all = engram_views(list@);
    let mut i: usize = 0;
    proof {
        reveal(Seq::filter);
        assert(live_ones(all.take(0)) =~= Seq::empty());
        assert(engram_views(out@) =~= Seq::empty());
    }
    while i < list.len()
        invariant
            i <= list@.len(),
            all == engram_views(list@),
            engram_views(out@) == live_ones(all.take(i as int)),
        decreases list@.len() - i,
    {
        proof {
            reveal(Seq::filter);
            assert(all.take(i + 1).drop_last() =~= all.take(i as int));
            assert(all.take(i + 1).last() == list@[i as int]@);
        }
        if !(list[i].imagined && !list[i].grounded) {
            let ghost before = out@;
            let e = list[i].clone();
            out.push(e);
            assert(engram_views(out@) =~= engram_views(before).push(e@));
        }
        i += 1;
    }
    proof {
        assert(all.take(all.len() as int) =~= all);
    }
    out
}

/// The identifiers of engrams.
pub open spec fn ids_of(list: Seq<EngramView>) -> Seq<Seq<char>> {
    list.map_values(|e: EngramView| e.id)
}

/// What fills up the memories that links lead to: those closest to the memory itself, not
/// quarantined, similar enough, and not among them.
pub open spec fn related_fill(
    linked: Seq<EngramView>,
    stored: Seq<EmbeddedView>,
    scores: Seq<Measure>,
    limit: usize,
) -> Seq<ScoredView> {
    if linked.len() < limit {
        nearest(
            stored,
            scores,
            Some(Measure { bits: MIN_RELATED_SIMILARITY }),
            ids_of(linked),
            (limit - linked.len()) as usize,
        )
    } else {
        Seq::empty()
    }
}

fn engram_ids(list: &Vec<Engram>) -> (r: Vec<String>)
    ensures
        texts(r@) == ids_of(engram_views(list@)),
{
    let mut out: Vec<String> = Vec::new();
    let ghost want = ids_of(engram_views(list@));
    let mut i: usize = 0;
    while i < list.len()
        invariant
            i <= list@.len(),
            want == ids_of(engram_views(list@)),
            texts(out@) == want.take(i as int),
        decreases list@.len() - i,
    {
        let id = list[i].id.clone();
        proof {
            assert(want[i as int] == id@);
            assert(texts(out@.push(id)) =~= texts(out@).push(id@));
            assert(want.take(i + 1) =~= want.take(i as int).push(want[i as int]));
        }
        out.push(id);
        i += 1;
    }
    assert(want.take(i as int) =~= want);
    out
}

/// What fills up the memories that links lead to, given the embeddings of all other memories that
/// are not quarantined and the similarity of each to the memory's own.
pub fn search_related(
    linked: &Vec<Engram>,
    stored: &Vec<Embedded>,
    scores: &Vec<Measure>,
    limit: usize,
) -> (r: Vec<Scored>)
    requires
        stored@.len() == scores@.len(),
    ensures
        all_views(r@) == related_fill(
            engram_views(linked@),
            all_views(stored@),
            scores@,
            limit,
        ),
{
    proof {
        assert(engram_views(linked@).len() == linked@.len());
    }
    if linked.len() < limit {
        let ids = engram_ids(linked);
        neighbours(
            stored,
            scores,
            Some(Measure { bits: MIN_RELATED_SIMILARITY }),
            &ids,
            limit - linked.len(),
        )
    } else {
        let none: Vec<Scored> = Vec::new();
        assert(all_views(none@) =~= Seq::empty());
        none
    }
}

proof fn lemma_close_ones_are_new(
    stored: Seq<EmbeddedView>,
    scores: Seq<Measure>,
    min: Option<Measure>,
    except: Seq<Seq<char>>,
)
    ensures
        forall|i: int|
            0 <= i < close_ones(stored, scores, min, except).len() ==> !except.contains(
                (#[trigger] close_ones(stored, scores, min, except)[i]).id,
            ),
    decreases stored.len(),
{
    if stored.len() > 0 {
        lemma_close_ones_are_new(stored.drop_last(), scores, min, except);
        let before = close_ones(stored.drop_last(), scores, min, except);
        let all = close_ones(stored, scores, min, except);
        assert forall|i: int| 0 <= i < all.len() implies !except.contains(
            (#[trigger] all[i]).id,
        ) by {
            if i < before.len() {
                assert(all[i] == before[i]);
            }
        }
    }
}

/// Memories that links lead to and those that fill them up are together no more than asked for,
/// none of the former is quarantined, and none of the latter is among the former.
pub proof fn law_related_memories_are_live_and_new(
    found: Seq<EngramView>,
    stored: Seq<EmbeddedView>,
    scores: Seq<Measure>,
    limit: usize,
)
    requires
        found.len() <= limit,
    ensures
        ({
            let linked = live_ones(found);
            let fill = related_fill(linked, stored, scores, limit);
            &&& linked.len() + fill.len() <= limit
            &&& forall|i: int| 0 <= i < linked.len() ==> !(#[trigger] linked[i]).quarantined()
            &&& forall|i: int|
                0 <= i < fill.len() ==> !ids_of(linked).contains((#[trigger] fill[i]).id)
        }),
{
    broadcast use vstd::seq_lib::group_filter_ensures;

    let live = |e: EngramView| !e.quarantined();
    let linked = live_ones(found);
    assert(linked == found.filter(live));
    assert(linked.len() <= found.len());
    assert forall|i: int| 0 <= i < linked.len() implies !(#[trigger] linked[i]).quarantined() by {
        assert(live(linked[i]));
    }
    let fill = related_fill(linked, stored, scores, limit);
    let min = Some(Measure { bits: MIN_RELATED_SIMILARITY });
    let list = close_ones(stored, scores, min, ids_of(linked));
    lemma_close_ones_are_new(stored, scores, min, ids_of(linked));
    law_ranking_orders_and_keeps_everything::<Scored>(list);
    let ranked = ranking::<Scored>(list);
    assert forall|i: int| 0 <= i < fill.len() implies !ids_of(linked).contains(
        (#[trigger] fill[i]).id,
    ) by {
        broadcast use vstd::seq_lib::group_to_multiset_ensures;

        assert(fill[i] == ranked[i]);
        assert(ranked.to_multiset().count(ranked[i]) > 0);
        assert(list.to_multiset().count(ranked[i]) > 0);
        assert(list.contains(ranked[i]));
        let k = choose|k: int| 0 <= k < list.len() && list[k] == ranked[i];
        assert(!ids_of(linked).contains(list[k].id));
    }
}

/// Links memories to their nearest neighbours, each in turn.
pub open spec fn backfill_statements(
    stored: Seq<EmbeddedView>,
    scores: Seq<Seq<Measure>>,
    min: Measure,
    max: usize,
    n: nat,
) -> Seq<StatementView>
    decreases n,
{
    if n == 0 {
        Seq::empty()
    } else {
        backfill_statements(stored, scores, min, max, (n - 1) as nat) + links_to(
            stored[n - 1].id,
            nearest(stored, scores[n - 1], Some(min), seq![stored[n - 1].id], max),
        )
    }
}

/// Links a memory to others.
pub open spec fn links_to(id: Seq<char>, near: Seq<ScoredView>) -> Seq<StatementView> {
    near.map_values(
        |s: ScoredView| link_statement_of(id, s.id, s.score, LinkType::Associative),
    )
}

/// What a table of numbers says.
pub open spec fn score_rows(v: Seq<Vec<Measure>>) -> Seq<Seq<Measure>> {
    v.map_values(|row: Vec<Measure>| row@)
}

fn push_links(out: &mut Vec<Statement>, id: &str, near: &Vec<Scored>)
    ensures
        statement_views(final(out)@) == statement_views(old(out)@) + links_to(
            id@,
            all_views(near@),
        ),
{
    let ghost start = statement_views(out@);
    let ghost want = links_to(id@, all_views(near@));
    let mut i: usize = 0;
    assert(start + want.take(0) =~= start);
    while i < near.len()
        invariant
            i <= near@.len(),
            want == links_to(id@, all_views(near@)),
            statement_views(out@) == start + want.take(i as int),
        decreases near@.len() - i,
    {
        let next = link_statement(id, near[i].id.as_str(), near[i].score, LinkType::Associative);
        proof {
            assert(all_views(near@)[i as int] == near@[i as int]@);
            assert(want[i as int] == next@);
            lemma_statements_push(out@, next);
            assert(start + want.take(i + 1) =~= (start + want.take(i as int)).push(
                want[i as int],
            ));
        }
        out.push(next);
        i += 1;
    }
    assert(want.take(near@.len() as int) =~= want);
}

/// Links memories that are not quarantined to their nearest neighbours, given the similarity of
/// each to each. The number of links is that of the statements.
pub fn backfill_semantic_links(
    stored: &Vec<Embedded>,
    scores: &Vec<Vec<Measure>>,
    max_links: usize,
    min_similarity: Measure,
) -> (r: Vec<Statement>)
    requires
        stored@.len() == scores@.len(),
        forall|i: int| 0 <= i < scores@.len() ==> (#[trigger] scores@[i])@.len() == stored@.len(),
    ensures
        statement_views(r@) == backfill_statements(
            all_views(stored@),
            score_rows(scores@),
            min_similarity,
            max_links,
            stored@.len(),
        ),
{
    let mut out: Vec<Statement> = Vec::new();
    let ghost all = all_views(stored@);
    let ghost table = score_rows(scores@);
    let mut i: usize = 0;
    assert(statement_views(out@) =~= Seq::empty());
    while i < stored.len()
        invariant
            i <= stored@.len(),
            stored@.len() == scores@.len(),
            forall|k: int|
                0 <= k < scores@.len() ==> (#[trigger] scores@[k])@.len() == stored@.len(),
            all == all_views(stored@),
            table == score_rows(scores@),
            statement_views(out@) == backfill_statements(
                all,
                table,
                min_similarity,
                max_links,
                i as nat,
            ),
        decreases stored@.len() - i,
    {
        let mut own: Vec<String> = Vec::new();
        own.push(stored[i].id.clone());
        proof {
            assert(all[i as int] == stored@[i as int]@);
            assert(table[i as int] == scores@[i as int]@);
            assert(texts(own@) =~= seq![all[i as int].id]);
        }
        let near = neighbours(stored, &scores[i], Some(min_similarity), &own, max_links);
        push_links(&mut out, stored[i].id.as_str(), &near);
        i += 1;
    }
    out
}

/// Two memories that say nearly the same.
#[derive(Debug, PartialEq)]
pub struct NearDuplicate {
    pub a_id: String,
    pub a_content: String,
    pub b_id: String,
    pub b_content: String,
    pub similarity: Measure,
}

/// Two memories that say nearly the same, as seen in contracts.
#[verifier::ext_equal]
pub struct NearDuplicateView {
    pub a_id: Seq<char>,
    pub a_content: Seq<char>,
    pub b_id: Seq<char>,
    pub b_content: Seq<char>,
    pub similarity: Measure,
}

impl View for NearDuplicate {
    type V = NearDuplicateView;

    open spec fn view(&self) -> NearDuplicateView {
        NearDuplicateView {
            a_id: self.a_id@,
            a_content: self.a_content@,
            b_id: self.b_id@,
            b_content: self.b_content@,
            similarity: self.similarity,
        }
    }
}

impl Ranked for NearDuplicate {
    open spec fn before(a: NearDuplicateView, b: NearDuplicateView) -> bool {
        a.similarity.rank() >= b.similarity.rank()
    }

    proof fn lemma_total(a: NearDuplicateView, b: NearDuplicateView) {
    }

    proof fn lemma_transitive(a: NearDuplicateView, b: NearDuplicateView, c: NearDuplicateView) {
    }

    fn goes_before(&self, other: &Self) -> (r: bool) {
        self.similarity.position() >= other.similarity.position()
    }
}

/// A memory that is searched for repetitions.
#[derive(Debug)]
pub struct Candidate {
    pub id: String,
    pub content: String,
    pub vector: Vec<Measure>,
}

/// A memory that is searched for repetitions, as seen in contracts.
#[verifier::ext_equal]
pub struct CandidateView {
    pub id: Seq<char>,
    pub content: Seq<char>,
    pub vector: Seq<Measure>,
}

impl View for Candidate {
    type V = CandidateView;

    open spec fn view(&self) -> CandidateView {
        CandidateView { id: self.id@, content: self.content@, vector: self.vector@ }
    }
}

/// The query for the memories that are searched for repetitions.
pub fn repetition_candidates() -> (r: Statement)
    ensures
        r@ == (StatementView {
            sql: REPETITION_CANDIDATES@,
            params: seq![limit_view(DECAY_CANDIDATE_CAP)],
        }),
{
    with1(REPETITION_CANDIDATES, limit_value(DECAY_CANDIDATE_CAP))
}

/// Whether a row holds such a memory.
pub open spec fn candidate_row(row: Seq<SqlView>) -> bool {
    &&& text_column(row, 0) is Some
    &&& text_column(row, 1) is Some
    &&& blob_column(row, 2) is Some
}

/// The memory that a row holds.
pub open spec fn candidate_in(row: Seq<SqlView>) -> CandidateView {
    CandidateView {
        id: text_column(row, 0)->0,
        content: text_column(row, 1)->0,
        vector: crate::embedding::vector_of(blob_column(row, 2)->0),
    }
}

fn read_candidate(row: &Row) -> (r: Option<Candidate>)
    ensures
        match r {
            Some(c) => candidate_row(value_views(row@)) && c@ == candidate_in(value_views(row@)),
            None => !candidate_row(value_views(row@)),
        },
{
    let id = text_at(row, 0)?;
    let content = text_at(row, 1)?;
    if row.len() < 3 {
        return None;
    }
    match &row[2] {
        SqlValue::Blob(b) => Some(
            Candidate { id, content, vector: crate::embedding::blob_to_embedding(b.as_slice()) },
        ),
        _ => None,
    }
}

/// Whether all rows hold such memories.
pub open spec fn all_candidate_rows(rows: Seq<Seq<SqlView>>) -> bool {
    forall|i: int| 0 <= i < rows.len() ==> candidate_row(#[trigger] rows[i])
}

/// Reads the memories that are searched for repetitions. One row that holds none spoils the read.
pub fn rows_to_candidates(rows: &Vec<Row>) -> (r: Result<Vec<Candidate>, EngramError>)
    ensures
        match r {
            Ok(v) => {
                &&& all_candidate_rows(row_views(rows@))
                &&& all_views(v@) == row_views(rows@).map_values(
                    |row: Seq<SqlView>| candidate_in(row),
                )
            },
            Err(e) => !all_candidate_rows(row_views(rows@)) && e@ == ErrorView::Database(
                "row is no candidate"@,
            ),
        },
{
    let mut out: Vec<Candidate> = Vec::new();
    let mut i: usize = 0;
    while i < rows.len()
        invariant
            i <= rows@.len(),
            out@.len() == i,
            forall|j: int| 0 <= j < i ==> candidate_row(#[trigger] row_views(rows@)[j]),
            forall|j: int| 0 <= j < i ==> (#[trigger] out@[j])@ == candidate_in(row_views(rows@)[j]),
        decreases rows@.len() - i,
    {
        proof {
            assert(row_views(rows@)[i as int] == value_views(rows@[i as int]@));
        }
        match read_candidate(&rows[i]) {
            Some(c) => {
                out.push(c);
            },
            None => {
                return Err(EngramError::Database("row is no candidate".to_string()));
            },
        }
        i += 1;
    }
    proof {
        assert(all_views(out@) =~= row_views(rows@).map_values(
            |row: Seq<SqlView>| candidate_in(row),
        ));
    }
    Ok(out)
}

/// The pairs of one memory with those behind it, up to the `n`th, that are similar enough.
pub open spec fn pairs_with(
    list: Seq<CandidateView>,
    scores: Seq<Measure>,
    i: int,
    n: int,
) -> Seq<NearDuplicateView>
    decreases n - i,
{
    if n <= i + 1 {
        Seq::empty()
    } else {
        let before = pairs_with(list, scores, i, n - 1);
        if scores[n - 1].at_least(Measure { bits: DECAY_DUP_THRESHOLD }) {
            before.push(
                NearDuplicateView {
                    a_id: list[i].id,
                    a_content: list[i].content,
                    b_id: list[n - 1].id,
                    b_content: list[n - 1].content,
                    similarity: scores[n - 1],
                },
            )
        } else {
            before
        }
    }
}

/// The pairs of the first `n` memories with those behind them that are similar enough.
pub open spec fn all_pairs(
    list: Seq<CandidateView>,
    scores: Seq<Seq<Measure>>,
    n: nat,
) -> Seq<NearDuplicateView>
    decreases n,
{
    if n == 0 {
        Seq::empty()
    } else {
        all_pairs(list, scores, (n - 1) as nat) + pairs_with(
            list,
            scores[n - 1],
            n - 1,
            list.len() as int,
        )
    }
}

fn push_pairs(
    out: &mut Vec<NearDuplicate>,
    list: &Vec<Candidate>,
    scores: &Vec<Measure>,
    i: usize,
)
    requires
        i < list@.len(),
        scores@.len() == list@.len(),
    ensures
        all_views(final(out)@) == all_views(old(out)@) + pairs_with(
            all_views(list@),
            scores@,
            i as int,
            list@.len() as int,
        ),
{
    let ghost start = all_views(out@);
    let ghost all = all_views(list@);
    let n: usize = list.len();
    let mut j: usize = i + 1;
    assert(start + pairs_with(all, scores@, i as int, i + 1) =~= start);
    while j < n
        invariant
            i < j <= n,
            n == list@.len(),
            scores@.len() == list@.len(),
            all == all_views(list@),
            all_views(out@) == start + pairs_with(all, scores@, i as int, j as int),
        decreases list@.len() - j,
    {
        let s = scores[j];
        if s.ge(Measure { bits: DECAY_DUP_THRESHOLD }) {
            let pair = NearDuplicate {
                a_id: list[i].id.clone(),
                a_content: list[i].content.clone(),
                b_id: list[j].id.clone(),
                b_content: list[j].content.clone(),
                similarity: s,
            };
            let ghost before = out@;
            out.push(pair);
            proof {
                assert(all[i as int] == list@[i as int]@ && all[j as int] == list@[j as int]@);
                assert(all_views(out@) =~= all_views(before).push(pair@));
                assert(start + pairs_with(all, scores@, i as int, j + 1) =~= (start + pairs_with(
                    all,
                    scores@,
                    i as int,
                    j as int,
                )).push(pair@));
            }
        }
        j += 1;
    }
}

/// The pairs of memories that say nearly the same, the most similar first, given the similarity of
/// each to each. This reports; it changes nothing.
pub fn find_near_duplicates(
    list: &Vec<Candidate>,
    scores: &Vec<Vec<Measure>>,
    limit: usize,
) -> (r: Vec<NearDuplicate>)
    requires
        list@.len() == scores@.len(),
        forall|i: int| 0 <= i < scores@.len() ==> (#[trigger] scores@[i])@.len() == list@.len(),
    ensures
        all_views(r@) == top(
            ranking::<NearDuplicate>(
                all_pairs(all_views(list@), score_rows(scores@), list@.len()),
            ),
            limit as nat,
        ),
{
    let mut out: Vec<NearDuplicate> = Vec::new();
    let ghost all = all_views(list@);
    let ghost table = score_rows(scores@);
    let mut i: usize = 0;
    assert(all_views(out@) =~= Seq::empty());
    while i < list.len()
        invariant
            i <= list@.len(),
            list@.len() == scores@.len(),
            forall|k: int| 0 <= k < scores@.len() ==> (#[trigger] scores@[k])@.len() == list@.len(),
            all == all_views(list@),
            table == score_rows(scores@),
            all_views(out@) == all_pairs(all, table, i as nat),
        decreases list@.len() - i,
    {
        proof {
            assert(table[i as int] == scores@[i as int]@);
        }
        push_pairs(&mut out, list, &scores[i], i);
        i += 1;
    }
    let mut ranked = rank(out);
    let ghost whole = all_views(ranked@);
    if ranked.len() > limit {
        ranked.truncate(limit);
        proof {
            assert(all_views(ranked@) =~= whole.take(limit as int));
        }
    }
    ranked
}

/// The phrases that mark working state.
pub open spec fn stale_markers() -> Seq<Seq<char>> {
    seq![
        "in flight"@,
        "in-flight"@,
        "in progress"@,
        "working on"@,
        "wip"@,
        "todo"@,
        "to-do"@,
        "next step"@,
        "next steps"@,
    ]
}

/// Whether a content reads like working state: it holds one of the phrases, in any case.
pub open spec fn working_state(content: Seq<char>) -> bool {
    exists|i: int|
        0 <= i < stale_markers().len() && occurs_in(
            lowercase_of(content),
            #[trigger] stale_markers()[i],
        )
}

fn marker_list() -> (r: Vec<String>)
    ensures
        texts(r@) == stale_markers(),
{
    let mut v: Vec<String> = Vec::new();
    v.push("in flight".to_string());
    v.push("in-flight".to_string());
    v.push("in progress".to_string());
    v.push("working on".to_string());
    v.push("wip".to_string());
    v.push("todo".to_string());
    v.push("to-do".to_string());
    v.push("next step".to_string());
    v.push("next steps".to_string());
    assert(texts(v@) =~= stale_markers());
    v
}

/// Whether a content reads like working state.
pub fn is_working_state(content: &str) -> (r: bool)
    ensures
        r == working_state(content@),
{
    let lower = to_lowercase(content);
    let text = chars_of(lower.as_str());
    let markers = marker_list();
    let mut i: usize = 0;
    while i < markers.len()
        invariant
            i <= markers@.len(),
            texts(markers@) == stale_markers(),
            text@ == lowercase_of(content@),
            forall|k: int|
                0 <= k < i ==> !occurs_in(lowercase_of(content@), #[trigger] stale_markers()[k]),
        decreases markers@.len() - i,
    {
        let marker = chars_of(markers[i].as_str());
        proof {
            assert(texts(markers@)[i as int] == markers@[i as int]@);
        }
        if contains(text.as_slice(), marker.as_slice()) {
            assert(occurs_in(lowercase_of(content@), stale_markers()[i as int]));
            return true;
        }
        i += 1;
    }
    proof {
        assert(texts(markers@).len() == markers@.len());
    }
    false
}

/// The query for the episodic memories that are old enough to be stale.
pub fn stale_candidates(now: Timestamp) -> (r: Statement)
    requires
        now.wf(),
        now.secs >= 0,
        now.nanos < SECOND,
    ensures
        r@ == (StatementView {
            sql: STALE_CANDIDATES@,
            params: seq![
                SqlView::Text(
                    (Timestamp {
                        secs: (now.secs - STALE_STATE_DAYS * 86_400) as i64,
                        nanos: now.nanos,
                    }).text(),
                ),
            ],
        }),
{
    let cutoff = now.minus_days(STALE_STATE_DAYS);
    with1(STALE_CANDIDATES, SqlValue::Text(cutoff.to_rfc3339()))
}

/// Whether all rows hold an identifier and a content.
pub open spec fn all_content_rows(rows: Seq<Seq<SqlView>>) -> bool {
    forall|i: int|
        0 <= i < rows.len() ==> text_column(#[trigger] rows[i], 0) is Some && text_column(
            rows[i],
            1,
        ) is Some
}

/// The identifiers and contents of the first rows that read like working state.
pub open spec fn stale_ones(rows: Seq<Seq<SqlView>>, limit: nat) -> Seq<(Seq<char>, Seq<char>)>
    decreases rows.len(),
{
    if rows.len() == 0 {
        Seq::empty()
    } else {
        let before = stale_ones(rows.drop_last(), limit);
        let content = text_column(rows.last(), 1)->0;
        if working_state(content) && before.len() < limit {
            before.push((text_column(rows.last(), 0)->0, content))
        } else {
            before
        }
    }
}

/// The memories that read like working state, from rows of identifiers and contents. One row that
/// holds anything else spoils the read. This reports; it changes nothing.
pub fn find_stale_state(rows: &Vec<Row>, limit: usize) -> (r: Result<
    Vec<(String, String)>,
    EngramError,
>)
    ensures
        match r {
            Ok(v) => {
                &&& all_content_rows(row_views(rows@))
                &&& crate::store::pairs_of(v@) == stale_ones(row_views(rows@), limit as nat)
            },
            Err(e) => !all_content_rows(row_views(rows@)) && e@ == ErrorView::Database(
                "row is no content"@,
            ),
        },
{
    let mut out: Vec<(String, String)> = Vec::new();
    let ghost all = row_views(rows@);
    let mut i: usize = 0;
    assert(crate::store::pairs_of(out@) =~= Seq::empty());
    while i < rows.len()
        invariant
            i <= rows@.len(),
            all == row_views(rows@),
            forall|j: int|
                0 <= j < i ==> text_column(#[trigger] all[j], 0) is Some && text_column(
                    all[j],
                    1,
                ) is Some,
            crate::store::pairs_of(out@) == stale_ones(all.take(i as int), limit as nat),
        decreases rows@.len() - i,
    {
        proof {
            assert(all[i as int] == value_views(rows@[i as int]@));
            assert(all.take(i + 1).drop_last() =~= all.take(i as int));
            assert(all.take(i + 1).last() == all[i as int]);
            assert(crate::store::pairs_of(out@).len() == out@.len());
        }
        match (text_at(&rows[i], 0), text_at(&rows[i], 1)) {
            (Some(id), Some(content)) => {
                if out.len() < limit && is_working_state(content.as_str()) {
                    let ghost before = out@;
                    let pair = (id, content);
                    out.push(pair);
                    assert(crate::store::pairs_of(out@) =~= crate::store::pairs_of(before).push(
                        (pair.0@, pair.1@),
                    ));
                }
            },
            _ => {
                return Err(EngramError::Database("row is no content".to_string()));
            },
        }
        i += 1;
    }
    proof {
        assert(all.take(all.len() as int) =~= all);
    }
    Ok(out)
}

/// The memories that may surface: the strongest that are not quarantined.
pub open spec fn surface_query() -> StatementView {
    plain_of(
        engrams_where(
            "strength > 0.1 AND NOT (imagined = 1 AND grounded = 0) ORDER BY strength DESC, created_at DESC, id LIMIT 50"@,
        ),
    )
}

/// The query for the memories that may surface.
pub fn surface_candidates() -> (r: Statement)
    ensures
        r@ == surface_query(),
{
    plain(
        select_engrams(
            "strength > 0.1 AND NOT (imagined = 1 AND grounded = 0) ORDER BY strength DESC, created_at DESC, id LIMIT 50",
        ).as_str(),
    )
}

/// How many words of one text also stand in another; words of up to three bytes do not count.
pub open spec fn common_words(mine: Seq<Seq<char>>, others: Seq<Seq<char>>) -> nat
    decreases mine.len(),
{
    if mine.len() == 0 {
        0
    } else if others.contains(mine.last()) && byte_len(mine.last()) > 3 {
        common_words(mine.drop_last(), others) + 1
    } else {
        common_words(mine.drop_last(), others)
    }
}

/// How many words of what is going on also stand in a content, in any case.
pub open spec fn overlap_of(context: Seq<char>, content: Seq<char>) -> nat {
    common_words(words(lowercase_of(context)), words(lowercase_of(content)))
}

fn holds_word(list: &Vec<Vec<char>>, w: &Vec<char>) -> (r: bool)
    ensures
        r == views(list@).contains(w@),
{
    let mut i: usize = 0;
    while i < list.len()
        invariant
            i <= list@.len(),
            forall|k: int| 0 <= k < i ==> views(list@)[k] != w@,
        decreases list@.len() - i,
    {
        assert(views(list@)[i as int] == list@[i as int]@);
        if same(list[i].as_slice(), w.as_slice()) {
            return true;
        }
        i += 1;
    }
    false
}

fn counts(w: &Vec<char>) -> (r: bool)
    ensures
        r == (byte_len(w@) > 3),
{
    let v = w.as_slice();
    !has_byte_len(v, 0) && !has_byte_len(v, 1) && !has_byte_len(v, 2) && !has_byte_len(v, 3)
}

/// How many words of what is going on also stand in a content.
pub fn word_overlap(context: &str, content: &str) -> (r: usize)
    ensures
        r == overlap_of(context@, content@),
{
    let a = to_lowercase(context);
    let b = to_lowercase(content);
    let x = chars_of(a.as_str());
    let y = chars_of(b.as_str());
    let mine = split_words(x.as_slice());
    let others = split_words(y.as_slice());
    let ghost all = views(mine@);
    let mut n: usize = 0;
    let mut i: usize = 0;
    while i < mine.len()
        invariant
            i <= mine@.len(),
            n <= i,
            all == views(mine@),
            n == common_words(all.take(i as int), views(others@)),
        decreases mine@.len() - i,
    {
        proof {
            assert(all.take(i + 1).drop_last() =~= all.take(i as int));
            assert(all.take(i + 1).last() == mine@[i as int]@);
        }
        if holds_word(&others, &mine[i]) && counts(&mine[i]) {
            n += 1;
        }
        i += 1;
    }
    proof {
        assert(all.take(all.len() as int) =~= all);
    }
    n
}

/// A memory that surfaces, and how relevant it is.
#[derive(Debug)]
pub struct Surfaced {
    pub engram: Engram,
    pub score: Measure,
}

/// A memory that surfaces, as seen in contracts.
#[verifier::ext_equal]
pub struct SurfacedView {
    pub engram: EngramView,
    pub score: Measure,
}

impl View for Surfaced {
    type V = SurfacedView;

    open spec fn view(&self) -> SurfacedView {
        SurfacedView { engram: self.engram@, score: self.score }
    }
}

impl Ranked for Surfaced {
    open spec fn before(a: SurfacedView, b: SurfacedView) -> bool {
        result_before(
            a.score,
            a.engram.created_at,
            a.engram.id,
            b.score,
            b.engram.created_at,
            b.engram.id,
        )
    }

    proof fn lemma_total(a: SurfacedView, b: SurfacedView) {
        lemma_dictionary_total(a.engram.id, b.engram.id);
    }

    proof fn lemma_transitive(a: SurfacedView, b: SurfacedView, c: SurfacedView) {
        if dictionary_le(a.engram.id, b.engram.id) && dictionary_le(b.engram.id, c.engram.id) {
            lemma_dictionary_transitive(a.engram.id, b.engram.id, c.engram.id);
        }
    }

    fn goes_before(&self, other: &Self) -> (r: bool) {
        result_goes_before(
            self.score,
            self.engram.created_at,
            self.engram.id.as_str(),
            other.score,
            other.engram.created_at,
            other.engram.id.as_str(),
        )
    }
}

/// Those that are relevant enough and not quarantined.
pub open spec fn relevant_ones(list: Seq<EngramView>, scores: Seq<Measure>) -> Seq<SurfacedView>
    decreases list.len(),
{
    if list.len() == 0 {
        Seq::empty()
    } else {
        let before = relevant_ones(list.drop_last(), scores);
        let score = scores[list.len() - 1];
        if !list.last().quarantined() && score.exceeds(Measure { bits: SURFACE_THRESHOLD }) {
            before.push(SurfacedView { engram: list.last(), score })
        } else {
            before
        }
    }
}

/// The memories that surface, the most relevant first, given how relevant each is.
pub fn surface_relevant(list: Vec<Engram>, scores: &Vec<Measure>, limit: usize) -> (r: Vec<
    Surfaced,
>)
    requires
        list@.len() == scores@.len(),
    ensures
        all_views(r@) == top(
            ranking::<Surfaced>(relevant_ones(engram_views(list@), scores@)),
            limit as nat,
        ),
{
    let ghost all = engram_views(list@);
    let mut out: Vec<Surfaced> = Vec::new();
    let mut i: usize = 0;
    assert(all_views(out@) =~= Seq::empty());
    while i < list.len()
        invariant
            i <= list@.len(),
            list@.len() == scores@.len(),
            all == engram_views(list@),
            all_views(out@) == relevant_ones(all.take(i as int), scores@),
        decreases list@.len() - i,
    {
        let score = scores[i];
        proof {
            assert(all.take(i + 1).drop_last() =~= all.take(i as int));
            assert(all.take(i + 1).last() == list@[i as int]@);
        }
        let quarantined = list[i].imagined && !list[i].grounded;
        if !quarantined && score.gt(Measure { bits: SURFACE_THRESHOLD }) {
            let ghost before = out@;
            let x = Surfaced { engram: list[i].clone(), score };
            out.push(x);
            assert(all_views(out@) =~= all_views(before).push(x@));
        }
        i += 1;
    }
    proof {
        assert(all.take(all.len() as int) =~= all);
    }
    let mut ranked = rank(out);
    let ghost whole = all_views(ranked@);
    if ranked.len() > limit {
        ranked.truncate(limit);
        proof {
            assert(all_views(ranked@) =~= whole.take(limit as int));
        }
    }
    ranked
}

proof fn lemma_relevant_ones(list: Seq<EngramView>, scores: Seq<Measure>, x: SurfacedView)
    requires
        list.len() <= scores.len(),
        relevant_ones(list, scores).contains(x),
    ensures
        list.contains(x.engram),
        !x.engram.quarantined(),
        x.score.exceeds(Measure { bits: SURFACE_THRESHOLD }),
    decreases list.len(),
{
    let found = relevant_ones(list, scores);
    let i = choose|i: int| 0 <= i < found.len() && found[i] == x;
    let before = relevant_ones(list.drop_last(), scores);
    if i < before.len() {
        assert(before[i] == x);
        lemma_relevant_ones(list.drop_last(), scores, x);
        let k = choose|k: int| 0 <= k < list.len() - 1 && list.drop_last()[k] == x.engram;
        assert(list[k] == x.engram);
    } else {
        assert(list[list.len() - 1] == x.engram);
    }
}

/// What surfaces is among the candidates, relevant enough, never quarantined, and in order.
pub proof fn law_surfaced_memories_are_live(
    list: Seq<EngramView>,
    scores: Seq<Measure>,
    limit: nat,
    i: int,
    j: int,
)
    requires
        list.len() == scores.len(),
        0 <= i <= j < top(ranking::<Surfaced>(relevant_ones(list, scores)), limit).len(),
    ensures
        ({
            let shown = top(ranking::<Surfaced>(relevant_ones(list, scores)), limit);
            &&& shown.len() <= limit
            &&& list.contains(shown[i].engram)
            &&& !shown[i].engram.quarantined()
            &&& shown[i].score.exceeds(Measure { bits: SURFACE_THRESHOLD })
            &&& i < j ==> Surfaced::before(shown[i], shown[j])
        }),
{
    let found = relevant_ones(list, scores);
    let ranked = ranking::<Surfaced>(found);
    law_ranking_orders_and_keeps_everything::<Surfaced>(found);
    let x = ranked[i];
    assert(top(ranked, limit)[i] == x && top(ranked, limit)[j] == ranked[j]);
    assert(ranked.contains(x));
    assert(found.contains(x)) by {
        broadcast use vstd::seq_lib::group_to_multiset_ensures;

        assert(ranked.to_multiset().contains(x));
        assert(found.to_multiset().contains(x));
    }
    lemma_relevant_ones(list, scores, x);
}

proof fn lemma_relevant_one_is_kept(list: Seq<EngramView>, scores: Seq<Measure>, k: int)
    requires
        list.len() <= scores.len(),
        0 <= k < list.len(),
        !(list[k].imagined && !list[k].grounded),
        scores[k].exceeds(Measure { bits: 0x3fb9_9999_9999_999a }),
    ensures
        relevant_ones(list, scores).contains(SurfacedView { engram: list[k], score: scores[k] }),
    decreases list.len(),
{
    let x = SurfacedView { engram: list[k], score: scores[k] };
    let all = relevant_ones(list, scores);
    let before = relevant_ones(list.drop_last(), scores);
    if k < list.len() - 1 {
        lemma_relevant_one_is_kept(list.drop_last(), scores, k);
        let i = choose|i: int| 0 <= i < before.len() && before[i] == x;
        assert(all[i] == x);
    } else {
        assert(all[all.len() - 1] == x);
    }
}

/// No memory that is relevant is held back: one that is not both imagined and ungrounded, of
/// whatever layer or source, surfaces with its score if that exceeds 0.1, unless as many others do
/// as were asked for and none of them scores lower.
pub proof fn law_relevant_memories_surface(
    list: Seq<EngramView>,
    scores: Seq<Measure>,
    limit: nat,
    k: int,
)
    requires
        list.len() == scores.len(),
        0 <= k < list.len(),
        !(list[k].imagined && !list[k].grounded),
        !scores[k].nan(),
        scores[k].rank() > 0x3fb9_9999_9999_999a,
    ensures
        ({
            let shown = top(ranking::<Surfaced>(relevant_ones(list, scores)), limit);
            ||| shown.contains(SurfacedView { engram: list[k], score: scores[k] })
            ||| shown.len() == limit && forall|i: int|
                0 <= i < shown.len() ==> (#[trigger] shown[i]).score.rank() >= scores[k].rank()
        }),
{
    let found = relevant_ones(list, scores);
    let ranked = ranking::<Surfaced>(found);
    let x = SurfacedView { engram: list[k], score: scores[k] };
    lemma_relevant_one_is_kept(list, scores, k);
    law_ranking_orders_and_keeps_everything::<Surfaced>(found);
    assert(ranked.contains(x)) by {
        broadcast use vstd::seq_lib::group_to_multiset_ensures;

        assert(found.to_multiset().contains(x));
        assert(ranked.to_multiset().contains(x));
    }
    let shown = top(ranked, limit);
    let m = choose|m: int| 0 <= m < ranked.len() && ranked[m] == x;
    if m < shown.len() {
        assert(shown[m] == x);
    } else {
        assert forall|i: int| 0 <= i < shown.len() implies (#[trigger] shown[i]).score.rank()
            >= scores[k].rank() by {
            assert(shown[i] == ranked[i]);
            assert(Surfaced::before(ranked[i], ranked[m]));
        }
    }
}

proof fn lemma_relevant_one_comes_from(
    list: Seq<EngramView>,
    scores: Seq<Measure>,
    x: SurfacedView,
) -> (k: int)
    requires
        list.len() <= scores.len(),
        relevant_ones(list, scores).contains(x),
    ensures
        0 <= k < list.len(),
        x.engram == list[k],
        x.score == scores[k],
    decreases list.len(),
{
    let found = relevant_ones(list, scores);
    let i = choose|i: int| 0 <= i < found.len() && found[i] == x;
    let before = relevant_ones(list.drop_last(), scores);
    if i < before.len() {
        assert(before[i] == x);
        lemma_relevant_one_comes_from(list.drop_last(), scores, x)
    } else {
        list.len() - 1
    }
}

/// What surfaces is a candidate with its own score, which exceeds 0.1, is not both imagined and
/// ungrounded, and scores no lower than anything behind it; and no more surface than were asked
/// for.
pub proof fn law_surfaced_memories_are_relevant(
    list: Seq<EngramView>,
    scores: Seq<Measure>,
    limit: nat,
    i: int,
) -> (k: int)
    requires
        list.len() == scores.len(),
        0 <= i < top(ranking::<Surfaced>(relevant_ones(list, scores)), limit).len(),
    ensures
        0 <= k < list.len(),
        ({
            let shown = top(ranking::<Surfaced>(relevant_ones(list, scores)), limit);
            &&& shown.len() <= limit
            &&& shown[i].engram == list[k]
            &&& shown[i].score == scores[k]
            &&& scores[k].rank() > 0x3fb9_9999_9999_999a
            &&& !scores[k].nan()
            &&& !(list[k].imagined && !list[k].grounded)
            &&& forall|j: int|
                i < j < shown.len() ==> shown[i].score.rank() >= (
                #[trigger] shown[j]).score.rank()
        }),
{
    broadcast use vstd::seq_lib::group_to_multiset_ensures;

    let found = relevant_ones(list, scores);
    let ranked = ranking::<Surfaced>(found);
    law_ranking_orders_and_keeps_everything::<Surfaced>(found);
    let shown = top(ranked, limit);
    let x = ranked[i];
    assert(shown[i] == x);
    assert(ranked.contains(x));
    assert(ranked.to_multiset().contains(x));
    assert(found.to_multiset().contains(x));
    let k = lemma_relevant_one_comes_from(list, scores, x);
    lemma_relevant_ones(list, scores, x);
    assert forall|j: int| i < j < shown.len() implies shown[i].score.rank() >= (
    #[trigger] shown[j]).score.rank() by {
        assert(Surfaced::before(ranked[i], ranked[j]));
    }
    k
}

/// The memories that a memory is linked to come in the order of its links, the first ones, as many
/// as were asked for.
pub proof fn law_first_links_are_followed(links: Seq<LinkView>, limit: nat)
    ensures
        first_targets(links, limit).len() == if links.len() <= limit {
            links.len()
        } else {
            limit
        },
        forall|i: int|
            0 <= i < first_targets(links, limit).len() ==> #[trigger] first_targets(links, limit)[i]
                == links[i].target_id,
{
}

/// Linked memories are left out only for being quarantined: every other one stays, in its place.
pub proof fn law_live_memories_stay(list: Seq<EngramView>)
    ensures
        live_ones(list) == list.filter(|e: EngramView| !(e.imagined && !e.grounded)),
        forall|i: int|
            0 <= i < list.len() && !((#[trigger] list[i]).imagined && !list[i].grounded)
                ==> live_ones(list).contains(list[i]),
{
    broadcast use vstd::seq_lib::group_filter_ensures;

    let live = |e: EngramView| !(e.imagined && !e.grounded);
    assert(live =~= (|e: EngramView| !e.quarantined()));
    assert forall|i: int| 0 <= i < list.len() && !((#[trigger] list[i]).imagined
        && !list[i].grounded) implies live_ones(list).contains(list[i]) by {
        list.lemma_filter_contains(live, i);
    }
}

/// Where a memory has fewer links than memories are asked for, the rest is filled with what is
/// similar: whatever has a similarity of 0.35 or more and is not linked is there, unless the limit
/// is reached with others that are no less similar.
pub proof fn law_similar_memories_fill_the_rest(
    linked: Seq<EngramView>,
    stored: Seq<EmbeddedView>,
    scores: Seq<Measure>,
    limit: usize,
    k: int,
)
    requires
        stored.len() == scores.len(),
        0 <= k < stored.len(),
        linked.len() < limit,
        scores[k].at_least(Measure { bits: 0x3fd6_6666_6666_6666 }),
        forall|i: int| 0 <= i < linked.len() ==> (#[trigger] linked[i]).id != stored[k].id,
    ensures
        ({
            let fill = related_fill(linked, stored, scores, limit);
            ||| fill.contains(
                ScoredView {
                    id: stored[k].id,
                    score: scores[k],
                    created_at: stored[k].created_at,
                },
            )
            ||| linked.len() + fill.len() == limit && forall|i: int|
                0 <= i < fill.len() ==> (#[trigger] fill[i]).score.rank() >= scores[k].rank()
        }),
{
    assert(!ids_of(linked).contains(stored[k].id)) by {
        if ids_of(linked).contains(stored[k].id) {
            let i = choose|i: int| 0 <= i < linked.len() && ids_of(linked)[i] == stored[k].id;
            assert(linked[i].id == stored[k].id);
        }
    }
    law_nearest_ones_are_found(
        stored,
        scores,
        Some(Measure { bits: 0x3fd6_6666_6666_6666 }),
        ids_of(linked),
        (limit - linked.len()) as usize,
        k,
    );
}

/// What fills the rest is similar enough, with its own similarity, and the most similar first.
pub proof fn law_what_fills_the_rest_is_similar(
    linked: Seq<EngramView>,
    stored: Seq<EmbeddedView>,
    scores: Seq<Measure>,
    limit: usize,
    i: int,
) -> (k: int)
    requires
        stored.len() == scores.len(),
        0 <= i < related_fill(linked, stored, scores, limit).len(),
    ensures
        0 <= k < stored.len(),
        ({
            let fill = related_fill(linked, stored, scores, limit);
            &&& fill[i].id == stored[k].id
            &&& fill[i].score == scores[k]
            &&& scores[k].at_least(Measure { bits: 0x3fd6_6666_6666_6666 })
            &&& linked.len() + fill.len() <= limit
            &&& forall|j: int|
                i < j < fill.len() ==> fill[i].score.rank() >= (#[trigger] fill[j]).score.rank()
        }),
{
    law_nearest_ones_are_near(
        stored,
        scores,
        Some(Measure { bits: 0x3fd6_6666_6666_6666 }),
        ids_of(linked),
        (limit - linked.len()) as usize,
        i,
    )
}

/// A search by similarity leaves nothing out but what is less similar than all that it gives.
pub proof fn law_vector_search_finds_the_most_similar(
    stored: Seq<EmbeddedView>,
    scores: Seq<Measure>,
    limit: usize,
    k: int,
)
    requires
        stored.len() == scores.len(),
        0 <= k < stored.len(),
    ensures
        ({
            let found = nearest(stored, scores, None, Seq::empty(), limit);
            ||| found.contains(
                ScoredView {
                    id: stored[k].id,
                    score: scores[k],
                    created_at: stored[k].created_at,
                },
            )
            ||| found.len() == limit && forall|i: int|
                0 <= i < found.len() ==> (#[trigger] found[i]).score.rank() >= scores[k].rank()
        }),
{
    law_nearest_ones_are_found(stored, scores, None, Seq::empty(), limit, k);
}

proof fn lemma_backfill_holds(
    stored: Seq<EmbeddedView>,
    scores: Seq<Seq<Measure>>,
    min: Measure,
    max: usize,
    n: nat,
    i: int,
    x: StatementView,
)
    requires
        0 <= i < n,
        links_to(
            stored[i].id,
            nearest(stored, scores[i], Some(min), seq![stored[i].id], max),
        ).contains(x),
    ensures
        backfill_statements(stored, scores, min, max, n).contains(x),
    decreases n,
{
    let before = backfill_statements(stored, scores, min, max, (n - 1) as nat);
    let last = links_to(
        stored[n - 1].id,
        nearest(stored, scores[n - 1], Some(min), seq![stored[n - 1].id], max),
    );
    let all = backfill_statements(stored, scores, min, max, n);
    if i < n - 1 {
        lemma_backfill_holds(stored, scores, min, max, (n - 1) as nat, i, x);
        let k = choose|k: int| 0 <= k < before.len() && before[k] == x;
        assert(all[k] == x);
    } else {
        let k = choose|k: int| 0 <= k < last.len() && last[k] == x;
        assert(all[before.len() + k] == x);
    }
}

/// Every memory is linked to those that are the most similar to it: to each other one that is
/// similar enough, with the similarity as the weight, unless as many others as may be linked are
/// no less similar.
pub proof fn law_backfill_links_every_memory(
    stored: Seq<EmbeddedView>,
    scores: Seq<Seq<Measure>>,
    min: Measure,
    max: usize,
    i: int,
    k: int,
)
    requires
        stored.len() == scores.len(),
        0 <= i < stored.len(),
        0 <= k < stored.len(),
        scores[i].len() == stored.len(),
        stored[i].id != stored[k].id,
        scores[i][k].at_least(min),
    ensures
        ({
            let near = nearest(stored, scores[i], Some(min), seq![stored[i].id], max);
            ||| backfill_statements(stored, scores, min, max, stored.len()).contains(
                link_statement_of(
                    stored[i].id,
                    stored[k].id,
                    scores[i][k],
                    LinkType::Associative,
                ),
            )
            ||| near.len() == max && forall|j: int|
                0 <= j < near.len() ==> (#[trigger] near[j]).score.rank() >= scores[i][k].rank()
        }),
{
    let near = nearest(stored, scores[i], Some(min), seq![stored[i].id], max);
    law_nearest_ones_are_found(stored, scores[i], Some(min), seq![stored[i].id], max, k);
    let y = ScoredView { id: stored[k].id, score: scores[i][k], created_at: stored[k].created_at };
    if near.contains(y) {
        let j = choose|j: int| 0 <= j < near.len() && near[j] == y;
        let x = link_statement_of(
            stored[i].id,
            stored[k].id,
            scores[i][k],
            LinkType::Associative,
        );
        let made = links_to(stored[i].id, near);
        assert(made[j] == x);
        assert(made.contains(x));
        lemma_backfill_holds(stored, scores, min, max, stored.len(), i, x);
    }
}

proof fn lemma_pair_is_kept(
    list: Seq<CandidateView>,
    scores: Seq<Measure>,
    i: int,
    n: int,
    j: int,
)
    requires
        0 <= i < j < n <= list.len(),
        scores.len() == list.len(),
        scores[j].at_least(Measure { bits: 0x3fec_cccc_cccc_cccd }),
    ensures
        pairs_with(list, scores, i, n).contains(
            NearDuplicateView {
                a_id: list[i].id,
                a_content: list[i].content,
                b_id: list[j].id,
                b_content: list[j].content,
                similarity: scores[j],
            },
        ),
    decreases n - i,
{
    let x = NearDuplicateView {
        a_id: list[i].id,
        a_content: list[i].content,
        b_id: list[j].id,
        b_content: list[j].content,
        similarity: scores[j],
    };
    let before = pairs_with(list, scores, i, n - 1);
    let all = pairs_with(list, scores, i, n);
    if j < n - 1 {
        lemma_pair_is_kept(list, scores, i, n - 1, j);
        let k = choose|k: int| 0 <= k < before.len() && before[k] == x;
        assert(all[k] == x);
    } else {
        assert(all[all.len() - 1] == x);
    }
}

proof fn lemma_pair_is_among_all(
    list: Seq<CandidateView>,
    scores: Seq<Seq<Measure>>,
    n: nat,
    i: int,
    x: NearDuplicateView,
)
    requires
        0 <= i < n,
        pairs_with(list, scores[i], i, list.len() as int).contains(x),
    ensures
        all_pairs(list, scores, n).contains(x),
    decreases n,
{
    let before = all_pairs(list, scores, (n - 1) as nat);
    let last = pairs_with(list, scores[n - 1], n - 1, list.len() as int);
    let all = all_pairs(list, scores, n);
    if i < n - 1 {
        lemma_pair_is_among_all(list, scores, (n - 1) as nat, i, x);
        let k = choose|k: int| 0 <= k < before.len() && before[k] == x;
        assert(all[k] == x);
    } else {
        let k = choose|k: int| 0 <= k < last.len() && last[k] == x;
        assert(all[before.len() + k] == x);
    }
}

/// Memories that nearly repeat each other are reported: every pair with a similarity of 0.9 or
/// more, with what both say, unless as many pairs as were asked for are no less similar.
pub proof fn law_near_duplicates_are_reported(
    list: Seq<CandidateView>,
    scores: Seq<Seq<Measure>>,
    limit: nat,
    i: int,
    j: int,
)
    requires
        list.len() == scores.len(),
        0 <= i < j < list.len(),
        scores[i].len() == list.len(),
        scores[i][j].at_least(Measure { bits: 0x3fec_cccc_cccc_cccd }),
    ensures
        ({
            let shown = top(ranking::<NearDuplicate>(all_pairs(list, scores, list.len())), limit);
            ||| shown.contains(
                NearDuplicateView {
                    a_id: list[i].id,
                    a_content: list[i].content,
                    b_id: list[j].id,
                    b_content: list[j].content,
                    similarity: scores[i][j],
                },
            )
            ||| shown.len() == limit && forall|k: int|
                0 <= k < shown.len() ==> (#[trigger] shown[k]).similarity.rank()
                    >= scores[i][j].rank()
        }),
{
    let x = NearDuplicateView {
        a_id: list[i].id,
        a_content: list[i].content,
        b_id: list[j].id,
        b_content: list[j].content,
        similarity: scores[i][j],
    };
    lemma_pair_is_kept(list, scores[i], i, list.len() as int, j);
    lemma_pair_is_among_all(list, scores, list.len(), i, x);
    law_best_ones_are_shown::<NearDuplicate>(all_pairs(list, scores, list.len()), limit, x);
}

proof fn lemma_pair_comes_from(
    list: Seq<CandidateView>,
    scores: Seq<Measure>,
    i: int,
    n: int,
    x: NearDuplicateView,
) -> (j: int)
    requires
        pairs_with(list, scores, i, n).contains(x),
    ensures
        i < j < n,
        x.a_id == list[i].id,
        x.a_content == list[i].content,
        x.b_id == list[j].id,
        x.b_content == list[j].content,
        x.similarity == scores[j],
        scores[j].at_least(Measure { bits: 0x3fec_cccc_cccc_cccd }),
    decreases n - i,
{
    let all = pairs_with(list, scores, i, n);
    let k = choose|k: int| 0 <= k < all.len() && all[k] == x;
    let before = pairs_with(list, scores, i, n - 1);
    if k < before.len() {
        assert(before[k] == x);
        lemma_pair_comes_from(list, scores, i, n - 1, x)
    } else {
        n - 1
    }
}

proof fn lemma_pair_of_all_comes_from(
    list: Seq<CandidateView>,
    scores: Seq<Seq<Measure>>,
    n: nat,
    x: NearDuplicateView,
) -> (at: (int, int))
    requires
        n <= list.len(),
        all_pairs(list, scores, n).contains(x),
    ensures
        0 <= at.0 < at.1 < list.len(),
        x.a_id == list[at.0].id,
        x.a_content == list[at.0].content,
        x.b_id == list[at.1].id,
        x.b_content == list[at.1].content,
        x.similarity == scores[at.0][at.1],
        scores[at.0][at.1].at_least(Measure { bits: 0x3fec_cccc_cccc_cccd }),
    decreases n,
{
    let all = all_pairs(list, scores, n);
    let k = choose|k: int| 0 <= k < all.len() && all[k] == x;
    let before = all_pairs(list, scores, (n - 1) as nat);
    let last = pairs_with(list, scores[n - 1], n - 1, list.len() as int);
    if k < before.len() {
        assert(before[k] == x);
        lemma_pair_of_all_comes_from(list, scores, (n - 1) as nat, x)
    } else {
        assert(last[k - before.len()] == x);
        let j = lemma_pair_comes_from(list, scores[n - 1], n - 1, list.len() as int, x);
        (n - 1, j)
    }
}

/// What is reported to repeat each other are two different candidates with a similarity of 0.9 or
/// more, and the most similar pairs come first.
pub proof fn law_reported_pairs_are_similar(
    list: Seq<CandidateView>,
    scores: Seq<Seq<Measure>>,
    limit: nat,
    k: int,
) -> (at: (int, int))
    requires
        list.len() == scores.len(),
        0 <= k < top(ranking::<NearDuplicate>(all_pairs(list, scores, list.len())), limit).len(),
    ensures
        0 <= at.0 < at.1 < list.len(),
        ({
            let shown = top(ranking::<NearDuplicate>(all_pairs(list, scores, list.len())), limit);
            &&& shown.len() <= limit
            &&& shown[k].a_id == list[at.0].id
            &&& shown[k].a_content == list[at.0].content
            &&& shown[k].b_id == list[at.1].id
            &&& shown[k].b_content == list[at.1].content
            &&& shown[k].similarity == scores[at.0][at.1]
            &&& scores[at.0][at.1].at_least(Measure { bits: 0x3fec_cccc_cccc_cccd })
            &&& forall|j: int|
                k < j < shown.len() ==> shown[k].similarity.rank() >= (
                #[trigger] shown[j]).similarity.rank()
        }),
{
    let all = all_pairs(list, scores, list.len());
    law_shown_ones_are_in_order::<NearDuplicate>(all, limit);
    let shown = top(ranking::<NearDuplicate>(all), limit);
    assert(all.contains(shown[k]));
    assert forall|j: int| k < j < shown.len() implies shown[k].similarity.rank() >= (
    #[trigger] shown[j]).similarity.rank() by {
        assert(NearDuplicate::before(shown[k], shown[j]));
    }
    lemma_pair_of_all_comes_from(list, scores, list.len(), shown[k])
}

/// A content reads like working state exactly if it speaks, in any case, of work in flight or in
/// progress, of something that is worked on, of things to do or of next steps.
pub proof fn law_working_state_speaks_of_progress(content: Seq<char>)
    ensures
        working_state(content) <==> {
            let lower = lowercase_of(content);
            ||| occurs_in(lower, "in flight"@)
            ||| occurs_in(lower, "in-flight"@)
            ||| occurs_in(lower, "in progress"@)
            ||| occurs_in(lower, "working on"@)
            ||| occurs_in(lower, "wip"@)
            ||| occurs_in(lower, "todo"@)
            ||| occurs_in(lower, "to-do"@)
            ||| occurs_in(lower, "next step"@)
            ||| occurs_in(lower, "next steps"@)
        },
{
    let m = stale_markers();
    assert(m[0] == "in flight"@ && m[1] == "in-flight"@ && m[2] == "in progress"@ && m[3]
        == "working on"@ && m[4] == "wip"@ && m[5] == "todo"@ && m[6] == "to-do"@ && m[7]
        == "next step"@ && m[8] == "next steps"@);
    assert(m.len() == 9);
    if working_state(content) {
        let i = choose|i: int|
            0 <= i < stale_markers().len() && occurs_in(
                lowercase_of(content),
                #[trigger] stale_markers()[i],
            );
        assert(occurs_in(lowercase_of(content), m[i]));
    }
}

/// Stale state is reported as it was found, up to the limit: every row that reads like working
/// state is, in order, and nothing else.
pub proof fn law_stale_state_is_reported(rows: Seq<Seq<SqlView>>, limit: nat)
    ensures
        stale_ones(rows, limit).len() <= limit,
        stale_ones(rows, limit) == top(
            rows.filter(|row: Seq<SqlView>| working_state(text_column(row, 1)->0)).map_values(
                |row: Seq<SqlView>| (text_column(row, 0)->0, text_column(row, 1)->0),
            ),
            limit,
        ),
    decreases rows.len(),
{
    reveal(Seq::filter);
    let stale = |row: Seq<SqlView>| working_state(text_column(row, 1)->0);
    let pair = |row: Seq<SqlView>| (text_column(row, 0)->0, text_column(row, 1)->0);
    let all = rows.filter(stale).map_values(pair);
    if rows.len() == 0 {
        assert(stale_ones(rows, limit) =~= top(all, limit));
    } else {
        let before = rows.drop_last();
        law_stale_state_is_reported(before, limit);
        let some = before.filter(stale).map_values(pair);
        if working_state(text_column(rows.last(), 1)->0) {
            assert(all =~= some.push(pair(rows.last())));
            if some.len() < limit {
                assert(stale_ones(rows, limit) =~= top(all, limit));
            } else {
                assert(top(all, limit) =~= top(some, limit));
            }
        } else {
            assert(all =~= some);
        }
    }
}

/// The words that count are those of more than three bytes that the other text holds too, each as
/// often as it occurs.
pub proof fn law_common_words_are_counted(mine: Seq<Seq<char>>, others: Seq<Seq<char>>)
    ensures
        common_words(mine, others) == mine.filter(
            |w: Seq<char>| others.contains(w) && encode_utf8(w).len() > 3,
        ).len(),
    decreases mine.len(),
{
    reveal(Seq::filter);
    if mine.len() > 0 {
        law_common_words_are_counted(mine.drop_last(), others);
    }
}

/// What recall asks SQLite for, and how far back stale state lies: a week.
pub proof fn law_recall_asks_for()
    ensures
        ALL_EMBEDDINGS@
            == "SELECT ee.engram_id, ee.embedding, e.created_at FROM engram_embeddings ee JOIN engrams e ON e.id = ee.engram_id"@,
        LIVE_EMBEDDINGS@
            == "SELECT ee.engram_id, ee.embedding, e.created_at FROM engram_embeddings ee JOIN engrams e ON e.id = ee.engram_id WHERE NOT (e.imagined = 1 AND e.grounded = 0)"@,
        REPETITION_CANDIDATES@
            == "SELECT e.id, e.content, em.embedding FROM engram_embeddings em INNER JOIN engrams e ON e.id = em.engram_id WHERE NOT (e.imagined = 1 AND e.grounded = 0) ORDER BY e.created_at DESC LIMIT ?1"@,
        STALE_CANDIDATES@
            == "SELECT id, content FROM engrams WHERE layer = 'episodic' AND created_at < ?1 ORDER BY created_at DESC LIMIT 1000"@,
        surface_query() == (StatementView {
            sql: engrams_where(
                "strength > 0.1 AND NOT (imagined = 1 AND grounded = 0) ORDER BY strength DESC, created_at DESC, id LIMIT 50"@,
            ),
            params: Seq::empty(),
        }),
        DECAY_CANDIDATE_CAP == 400,
        STALE_STATE_DAYS * 86_400 == 604_800,
{
}

/// A candidate is read by column: its identifier, its content and its vector.
pub proof fn law_candidate_is_read_by_column(row: Seq<SqlView>)
    ensures
        candidate_row(row) <==> row.len() >= 3 && row[0] is Text && row[1] is Text && row[2] is Blob,
        candidate_row(row) ==> {
            let c = candidate_in(row);
            &&& row[0] == SqlView::Text(c.id)
            &&& row[1] == SqlView::Text(c.content)
            &&& c.vector == crate::embedding::vector_of(row[2]->Blob_0)
        },
{
}

/// What is going on and a content are compared by their words in any case: the overlap is the
/// number of words of the one, of more than three bytes each, that the other holds too.
pub proof fn law_overlap_is_counted_in_any_case(context: Seq<char>, content: Seq<char>)
    ensures
        overlap_of(context, content) == words(lowercase_of(context)).filter(
            |w: Seq<char>|
                words(lowercase_of(content)).contains(w) && encode_utf8(w).len() > 3,
        ).len(),
{
    law_common_words_are_counted(words(lowercase_of(context)), words(lowercase_of(content)));
}

/// Of equally relevant memories the newer surfaces first, and of those made at the same time the
/// one whose identifier comes first.
pub proof fn law_equally_relevant_memories_surface_by_age(
    list: Seq<EngramView>,
    scores: Seq<Measure>,
    limit: nat,
    i: int,
    j: int,
)
    requires
        0 <= i < j < top(ranking::<Surfaced>(relevant_ones(list, scores)), limit).len(),
    ensures
        ({
            let shown = top(ranking::<Surfaced>(relevant_ones(list, scores)), limit);
            let (a, b) = (shown[i], shown[j]);
            &&& a.score.rank() == b.score.rank() ==> !b.engram.created_at.after(
                a.engram.created_at,
            )
            &&& a.score.rank() == b.score.rank() && a.engram.created_at == b.engram.created_at
                ==> dictionary_le(a.engram.id, b.engram.id)
        }),
{
    law_shown_ones_are_in_order::<Surfaced>(relevant_ones(list, scores), limit);
    let shown = top(ranking::<Surfaced>(relevant_ones(list, scores)), limit);
    assert(Surfaced::before(shown[i], shown[j]));
}

/// What is said of a pair of near duplicates is said of its fields.
pub proof fn law_near_duplicate_is_seen_as_it_is(x: NearDuplicate)
    ensures
        x@.a_id == x.a_id@,
        x@.a_content == x.a_content@,
        x@.b_id == x.b_id@,
        x@.b_content == x.b_content@,
        x@.similarity == x.similarity,
{
}

/// The identifiers of a list are those of its engrams, in their order, and the scores of a table
/// are those of its rows.
pub proof fn law_identifiers_and_scores_are_taken_in_order(
    list: Seq<EngramView>,
    scores: Seq<Vec<Measure>>,
)
    ensures
        ids_of(list).len() == list.len(),
        forall|i: int| 0 <= i < list.len() ==> #[trigger] ids_of(list)[i] == list[i].id,
        score_rows(scores).len() == scores.len(),
        forall|i: int| 0 <= i < scores.len() ==> #[trigger] score_rows(scores)[i] == scores[i]@,
{
}

/// Rows are read as candidates, or as contents, if each of them holds one.
pub proof fn law_rows_hold_candidates(rows: Seq<Seq<SqlView>>)
    ensures
        all_candidate_rows(rows) <==> forall|i: int|
            0 <= i < rows.len() ==> candidate_row(#[trigger] rows[i]),
        all_content_rows(rows) <==> forall|i: int|
            0 <= i < rows.len() ==> (#[trigger] rows[i]).len() >= 2 && rows[i][0] is Text
                && rows[i][1] is Text,
{
}

} // verus!
