//! Embedding vectors: how they are stored, and what follows from their similarities.
//!
//! Similarities are computed by whoever holds the vectors as numbers; here they are compared.
use crate::error::{EngramError, ErrorView};
use crate::measure::Measure;
use crate::rank::{
    all_views, law_best_ones_are_shown, law_shown_ones_are_in_order, rank, ranking, top, Ranked,
    Scored, ScoredView,
};
use crate::rows::{stored_time, read_time};
use crate::sql::{
    blob_column, row_views, text_at, text_column, value_views, Row, SqlValue, SqlView,
};
use crate::text::{dictionary_le, texts};
use crate::time::Timestamp;
use vstd::prelude::*;

verus! {

/// Similarity (0.95) from which on a capture counts as a paraphrase of a stored memory.
pub const SIMILAR_DEDUP_THRESHOLD: u64 = 0x3fee_6666_6666_6666;

/// Similarity (0.90) from which on two stored memories are reported as near duplicates. It is
/// lower than the one for captures, so that pairs which were too far apart to be skipped still
/// come up for the user to decide on.
pub const DECAY_DUP_THRESHOLD: u64 = 0x3fec_cccc_cccc_cccd;

/// Similarity (0.35) from which on a memory counts as related to another.
pub const MIN_RELATED_SIMILARITY: u64 = 0x3fd6_6666_6666_6666;

/// How many of the latest embedded memories are compared for near duplicates.
pub const DECAY_CANDIDATE_CAP: usize = 400;

/// Settings for links inferred from embeddings.
#[derive(Debug, Clone, Copy, PartialEq, Eq, Structural)]
pub struct LinkInferenceConfig {
    /// Most neighbours linked per write.
    pub max_links: usize,
    /// Least similarity for a link.
    pub min_similarity: Measure,
}

impl Default for LinkInferenceConfig {
    fn default() -> (r: Self)
        ensures
            r.max_links == 5,
            r.min_similarity.bits == 0x3fd6_6666_6666_6666,
    {
        LinkInferenceConfig {
            max_links: 5,
            min_similarity: Measure { bits: 0x3fd6_6666_6666_6666 },
        }
    }
}

/// One byte of a number, counted from the low end.
pub open spec fn byte_of(n: u64, k: int) -> u8 {
    ((n >> ((8 * k) as u64)) & 0xff) as u8
}

/// The number that eight bytes stand for, low end first.
pub open spec fn number_of(b: Seq<u8>) -> u64 {
    (b[0] as u64) | ((b[1] as u64) << 8) | ((b[2] as u64) << 16) | ((b[3] as u64) << 24) | ((
    b[4] as u64) << 32) | ((b[5] as u64) << 40) | ((b[6] as u64) << 48) | ((b[7] as u64) << 56)
}

/// The bytes of a vector: eight per number, low end first.
pub open spec fn blob_of(v: Seq<Measure>) -> Seq<u8> {
    Seq::new(8 * v.len(), |i: int| byte_of(v[i / 8].bits, i % 8))
}

/// The vector that bytes stand for; bytes behind the last whole number do not count.
pub open spec fn vector_of(b: Seq<u8>) -> Seq<Measure> {
    Seq::new(
        b.len() / 8,
        |i: int| Measure { bits: number_of(b.subrange(8 * i, 8 * i + 8)) },
    )
}

proof fn lemma_number_round_trip(n: u64)
    ensures
        ((byte_of(n, 0) as u64) | ((byte_of(n, 1) as u64) << 8) | ((byte_of(n, 2) as u64) << 16) | ((
        byte_of(n, 3) as u64) << 24) | ((byte_of(n, 4) as u64) << 32) | ((byte_of(n, 5) as u64)
            << 40) | ((byte_of(n, 6) as u64) << 48) | ((byte_of(n, 7) as u64) << 56)) == n,
{
    assert((((n >> 0u64) & 0xff) as u8) as u64 | (((((n >> 8u64) & 0xff) as u8) as u64) << 8) | ((((
    (n >> 16u64) & 0xff) as u8) as u64) << 16) | (((((n >> 24u64) & 0xff) as u8) as u64) << 24) | ((
    (((n >> 32u64) & 0xff) as u8) as u64) << 32) | (((((n >> 40u64) & 0xff) as u8) as u64) << 40) | (
    ((((n >> 48u64) & 0xff) as u8) as u64) << 48) | (((((n >> 56u64) & 0xff) as u8) as u64) << 56)
        == n) by (bit_vector);
}

/// A vector reads back from its bytes as it was written.
pub proof fn law_vector_survives_storage(v: Seq<Measure>)
    ensures
        vector_of(blob_of(v)) == v,
{
    let b = blob_of(v);
    assert(b.len() == 8 * v.len());
    assert forall|i: int| 0 <= i < v.len() implies vector_of(b)[i] == v[i] by {
        let w = b.subrange(8 * i, 8 * i + 8);
        assert forall|k: int| 0 <= k < 8 implies #[trigger] w[k] == byte_of(v[i].bits, k) by {
            assert(w[k] == b[8 * i + k]);
            assert((8 * i + k) / 8 == i && (8 * i + k) % 8 == k);
        }
        assert(w[0] == byte_of(v[i].bits, 0) && w[1] == byte_of(v[i].bits, 1) && w[2] == byte_of(
            v[i].bits,
            2,
        ) && w[3] == byte_of(v[i].bits, 3) && w[4] == byte_of(v[i].bits, 4) && w[5] == byte_of(
            v[i].bits,
            5,
        ) && w[6] == byte_of(v[i].bits, 6) && w[7] == byte_of(v[i].bits, 7));
        lemma_number_round_trip(v[i].bits);
        assert(number_of(w) == v[i].bits);
    }
    assert(vector_of(b) =~= v);
}

/// The bytes of a vector.
pub fn embedding_to_blob(embedding: &Vec<Measure>) -> (r: Vec<u8>)
    ensures
        r@ == blob_of(embedding@),
{
    let mut out: Vec<u8> = Vec::new();
    let mut i: usize = 0;
    let ghost all = blob_of(embedding@);
    while i < embedding.len()
        invariant
            i <= embedding@.len(),
            all == blob_of(embedding@),
            out@ == all.take(8 * i),
        decreases embedding@.len() - i,
    {
        let n: u64 = embedding[i].bits;
        let mut k: u64 = 0;
        while k < 8
            invariant
                i < embedding@.len(),
                k <= 8,
                n == embedding@[i as int].bits,
                all == blob_of(embedding@),
                out@ == all.take(8 * i + k),
            decreases 8 - k,
        {
            let byte: u8 = ((n >> (8 * k)) & 0xff) as u8;
            proof {
                assert((8 * i + k) / 8 == i && (8 * i + k) % 8 == k);
                assert(all[8 * i + k] == byte_of(n, k as int));
                assert(all.take(8 * i + k + 1) =~= all.take(8 * i + k).push(byte));
            }
            out.push(byte);
            k += 1;
        }
        i += 1;
    }
    proof {
        assert(all.take(8 * embedding@.len() as int) =~= all);
    }
    out
}

/// The vector that bytes stand for.
pub fn blob_to_embedding(blob: &[u8]) -> (r: Vec<Measure>)
    ensures
        r@ == vector_of(blob@),
{
    let mut out: Vec<Measure> = Vec::new();
    let n: usize = blob.len();
    let count: usize = n / 8;
    let mut i: usize = 0;
    while i < count
        invariant
            i <= count,
            count == n / 8,
            n == blob@.len(),
            out@ == vector_of(blob@).take(i as int),
        decreases count - i,
    {
        let at: usize = i * 8;
        let bits: u64 = (blob[at] as u64) | ((blob[at + 1] as u64) << 8) | ((blob[at + 2] as u64)
            << 16) | ((blob[at + 3] as u64) << 24) | ((blob[at + 4] as u64) << 32) | ((blob[at
            + 5] as u64) << 40) | ((blob[at + 6] as u64) << 48) | ((blob[at + 7] as u64) << 56);
        proof {
            let w = blob@.subrange(8 * i, 8 * i + 8);
            assert(number_of(w) == bits);
            assert(vector_of(blob@)[i as int] == (Measure { bits }));
            assert(vector_of(blob@).take(i + 1) =~= vector_of(blob@).take(i as int).push(
                Measure { bits },
            ));
        }
        out.push(Measure { bits });
        i += 1;
    }
    proof {
        assert(vector_of(blob@).take(count as int) =~= vector_of(blob@));
    }
    out
}

/// A stored embedding.
#[derive(Debug)]
pub struct Embedded {
    pub id: String,
    pub vector: Vec<Measure>,
    pub created_at: Timestamp,
}

/// A stored embedding, as seen in contracts.
#[verifier::ext_equal]
pub struct EmbeddedView {
    pub id: Seq<char>,
    pub vector: Seq<Measure>,
    pub created_at: Timestamp,
}

impl View for Embedded {
    type V = EmbeddedView;

    open spec fn view(&self) -> EmbeddedView {
        EmbeddedView { id: self.id@, vector: self.vector@, created_at: self.created_at }
    }
}

/// Whether a row holds an embedding: identifier, bytes and creation.
pub open spec fn embedding_row(row: Seq<SqlView>) -> bool {
    &&& text_column(row, 0) is Some
    &&& blob_column(row, 1) is Some
    &&& text_column(row, 2) is Some
}

/// The embedding that a row holds.
pub open spec fn embedding_in(row: Seq<SqlView>, now: Timestamp) -> EmbeddedView {
    EmbeddedView {
        id: text_column(row, 0)->0,
        vector: vector_of(blob_column(row, 1)->0),
        created_at: stored_time(text_column(row, 2)->0, now),
    }
}

fn read_embedding(row: &Row, now: Timestamp) -> (r: Option<Embedded>)
    ensures
        match r {
            Some(e) => embedding_row(value_views(row@)) && e@ == embedding_in(
                value_views(row@),
                now,
            ),
            None => !embedding_row(value_views(row@)),
        },
{
    let id = text_at(row, 0)?;
    let created = text_at(row, 2)?;
    if row.len() < 2 {
        return None;
    }
    match &row[1] {
        SqlValue::Blob(b) => {
            Some(
                Embedded {
                    id,
                    vector: blob_to_embedding(b.as_slice()),
                    created_at: read_time(created.as_str(), now),
                },
            )
        },
        _ => None,
    }
}

/// Whether all rows hold embeddings.
pub open spec fn all_embedding_rows(rows: Seq<Seq<SqlView>>) -> bool {
    forall|i: int| 0 <= i < rows.len() ==> embedding_row(#[trigger] rows[i])
}

/// The embeddings that rows hold.
pub open spec fn embeddings_in(rows: Seq<Seq<SqlView>>, now: Timestamp) -> Seq<EmbeddedView> {
    rows.map_values(|row: Seq<SqlView>| embedding_in(row, now))
}

/// Reads embeddings from rows of identifier, bytes and creation. One row that holds none spoils
/// the read.
pub fn rows_to_embeddings(rows: &Vec<Row>, now: Timestamp) -> (r: Result<
    Vec<Embedded>,
    EngramError,
>)
    ensures
        match r {
            Ok(v) => {
                &&& all_embedding_rows(row_views(rows@))
                &&& all_views(v@) == embeddings_in(row_views(rows@), now)
            },
            Err(e) => !all_embedding_rows(row_views(rows@)) && e@ == ErrorView::Database(
                "row is no embedding"@,
            ),
        },
{
    let mut out: Vec<Embedded> = Vec::new();
    let mut i: usize = 0;
    while i < rows.len()
        invariant
            i <= rows@.len(),
            out@.len() == i,
            forall|j: int| 0 <= j < i ==> embedding_row(#[trigger] row_views(rows@)[j]),
            forall|j: int|
                0 <= j < i ==> (#[trigger] out@[j])@ == embedding_in(row_views(rows@)[j], now),
        decreases rows@.len() - i,
    {
        proof {
            assert(row_views(rows@)[i as int] == value_views(rows@[i as int]@));
        }
        match read_embedding(&rows[i], now) {
            Some(e) => {
                out.push(e);
            },
            None => {
                return Err(EngramError::Database("row is no embedding".to_string()));
            },
        }
        i += 1;
    }
    proof {
        assert(all_views(out@) =~= embeddings_in(row_views(rows@), now));
    }
    Ok(out)
}

/// The best match among stored memories: the first with the greatest similarity, if that reaches
/// the threshold for paraphrases.
pub open spec fn best_match(ids: Seq<Seq<char>>, scores: Seq<Measure>) -> Option<
    (Seq<char>, Measure),
>
    decreases scores.len(),
{
    if scores.len() == 0 || ids.len() != scores.len() {
        None
    } else {
        let best = best_match(ids.drop_last(), scores.drop_last());
        let s = scores.last();
        if s.at_least(Measure { bits: SIMILAR_DEDUP_THRESHOLD }) && (best is None || s.exceeds(
            (best->0).1,
        )) {
            Some((ids.last(), s))
        } else {
            best
        }
    }
}

/// The identifiers of stored embeddings.
pub open spec fn embedded_ids(v: Seq<EmbeddedView>) -> Seq<Seq<char>> {
    v.map_values(|e: EmbeddedView| e.id)
}

/// The best match among stored memories, given the similarity of each.
pub fn find_similar_embedding(stored: &Vec<Embedded>, scores: &Vec<Measure>) -> (r: Option<
    (String, Measure),
>)
    requires
        stored@.len() == scores@.len(),
    ensures
        match r {
            Some(p) => best_match(embedded_ids(all_views(stored@)), scores@) == Some((p.0@, p.1)),
            None => best_match(embedded_ids(all_views(stored@)), scores@) is None,
        },
{
    let threshold = Measure { bits: SIMILAR_DEDUP_THRESHOLD };
    let ghost ids = embedded_ids(all_views(stored@));
    let mut best: Option<(usize, Measure)> = None;
    let mut i: usize = 0;
    while i < scores.len()
        invariant
            i <= scores@.len(),
            stored@.len() == scores@.len(),
            ids == embedded_ids(all_views(stored@)),
            threshold.bits == SIMILAR_DEDUP_THRESHOLD,
            match best {
                Some(p) => p.0 < i && best_match(ids.take(i as int), scores@.take(i as int)) == Some(
                    (ids[p.0 as int], p.1),
                ),
                None => best_match(ids.take(i as int), scores@.take(i as int)) is None,
            },
        decreases scores@.len() - i,
    {
        let s = scores[i];
        proof {
            assert(ids.take(i + 1).drop_last() =~= ids.take(i as int));
            assert(scores@.take(i + 1).drop_last() =~= scores@.take(i as int));
            assert(ids.take(i + 1).last() == ids[i as int]);
            assert(scores@.take(i + 1).last() == s);
        }
        let better = match best {
            Some(p) => s.gt(p.1),
            None => true,
        };
        if s.ge(threshold) && better {
            best = Some((i, s));
        }
        i += 1;
    }
    proof {
        assert(ids.take(ids.len() as int) =~= ids);
        assert(scores@.take(scores@.len() as int) =~= scores@);
    }
    match best {
        Some(p) => Some((stored[p.0].id.clone(), p.1)),
        None => None,
    }
}

/// A match reaches the threshold, and nothing stored is more similar.
pub proof fn law_best_match_is_best(ids: Seq<Seq<char>>, scores: Seq<Measure>)
    requires
        ids.len() == scores.len(),
    ensures
        best_match(ids, scores) matches Some(p) ==> {
            &&& p.1.at_least(Measure { bits: SIMILAR_DEDUP_THRESHOLD })
            &&& exists|i: int| 0 <= i < ids.len() && #[trigger] ids[i] == p.0 && scores[i] == p.1
            &&& forall|i: int| 0 <= i < scores.len() ==> !(#[trigger] scores[i]).exceeds(p.1)
        },
        best_match(ids, scores) is None ==> forall|i: int|
            0 <= i < scores.len() ==> !(#[trigger] scores[i]).at_least(
                Measure { bits: SIMILAR_DEDUP_THRESHOLD },
            ),
    decreases scores.len(),
{
    if scores.len() > 0 {
        let (a, b) = (ids.drop_last(), scores.drop_last());
        law_best_match_is_best(a, b);
        let t = Measure { bits: SIMILAR_DEDUP_THRESHOLD };
        if let Some(p) = best_match(a, b) {
            let k = choose|k: int| 0 <= k < a.len() && #[trigger] a[k] == p.0 && b[k] == p.1;
            assert(ids[k] == a[k] && scores[k] == b[k]);
        }
        assert forall|i: int| 0 <= i < scores.len() - 1 implies #[trigger] scores[i] == b[i] by {}
        assert(ids[ids.len() - 1] == ids.last());
    }
}

/// Whether a similarity is enough; without a threshold every one is.
pub open spec fn enough(score: Measure, min: Option<Measure>) -> bool {
    match min {
        Some(m) => score.at_least(m),
        None => true,
    }
}

/// Stored memories that are similar enough and not left out, with their similarities.
pub open spec fn close_ones(
    stored: Seq<EmbeddedView>,
    scores: Seq<Measure>,
    min: Option<Measure>,
    except: Seq<Seq<char>>,
) -> Seq<ScoredView>
    decreases stored.len(),
{
    if stored.len() == 0 {
        Seq::empty()
    } else {
        let before = close_ones(stored.drop_last(), scores, min, except);
        let e = stored.last();
        let s = scores[stored.len() - 1];
        if enough(s, min) && !except.contains(e.id) {
            before.push(ScoredView { id: e.id, score: s, created_at: e.created_at })
        } else {
            before
        }
    }
}

/// The nearest neighbours: what is similar enough and not left out, ranked, at most `max`.
pub open spec fn nearest(
    stored: Seq<EmbeddedView>,
    scores: Seq<Measure>,
    min: Option<Measure>,
    except: Seq<Seq<char>>,
    max: usize,
) -> Seq<ScoredView> {
    top(ranking::<Scored>(close_ones(stored, scores, min, except)), max as nat)
}

/// The nearest neighbours among stored memories, given the similarity of each.
pub fn neighbours(
    stored: &Vec<Embedded>,
    scores: &Vec<Measure>,
    min: Option<Measure>,
    except: &Vec<String>,
    max: usize,
) -> (r: Vec<Scored>)
    requires
        stored@.len() == scores@.len(),
    ensures
        all_views(r@) == nearest(all_views(stored@), scores@, min, texts(except@), max),
{
    let ghost all = all_views(stored@);
    let mut close: Vec<Scored> = Vec::new();
    let mut i: usize = 0;
    proof {
        assert(all_views(close@) =~= Seq::empty());
    }
    while i < stored.len()
        invariant
            i <= stored@.len(),
            stored@.len() == scores@.len(),
            all == all_views(stored@),
            all_views(close@) == close_ones(all.take(i as int), scores@, min, texts(except@)),
        decreases stored@.len() - i,
    {
        let s = scores[i];
        proof {
            assert(all.take(i + 1).drop_last() =~= all.take(i as int));
            assert(all.take(i + 1).last() == stored@[i as int]@);
        }
        let passes = match min {
            Some(m) => s.ge(m),
            None => true,
        };
        if passes && !crate::noise::holds_text(except, stored[i].id.as_str()) {
            let x = Scored {
                id: stored[i].id.clone(),
                score: s,
                created_at: stored[i].created_at,
            };
            proof {
                assert(all_views(close@.push(x)) =~= all_views(close@).push(x@));
            }
            close.push(x);
        }
        i += 1;
    }
    proof {
        assert(all.take(all.len() as int) =~= all);
    }
    let mut ranked = rank(close);
    let ghost whole = all_views(ranked@);
    if ranked.len() > max {
        ranked.truncate(max);
        proof {
            assert(all_views(ranked@) =~= whole.take(max as int));
        }
    }
    ranked
}

proof fn lemma_bytes_of_a_number(n: u64)
    ensures
        n as int == byte_of(n, 0) as int + 0x100 * byte_of(n, 1) as int + 0x1_0000 * byte_of(n, 2) as int
            + 0x100_0000 * byte_of(n, 3) as int + 0x1_0000_0000 * byte_of(n, 4) as int
            + 0x100_0000_0000 * byte_of(n, 5) as int + 0x1_0000_0000_0000 * byte_of(n, 6) as int
            + 0x100_0000_0000_0000 * byte_of(n, 7) as int,
{
    assert(n == ((n >> 0) & 0xff) + 0x100 * ((n >> 8) & 0xff) + 0x1_0000 * ((n >> 16) & 0xff)
        + 0x100_0000 * ((n >> 24) & 0xff) + 0x1_0000_0000 * ((n >> 32) & 0xff) + 0x100_0000_0000 * (
    (n >> 40) & 0xff) + 0x1_0000_0000_0000 * ((n >> 48) & 0xff) + 0x100_0000_0000_0000 * ((n >> 56)
        & 0xff)) by (bit_vector);
    assert((n >> 0) & 0xff <= 255 && (n >> 8) & 0xff <= 255 && (n >> 16) & 0xff <= 255 && (n >> 24)
        & 0xff <= 255 && (n >> 32) & 0xff <= 255 && (n >> 40) & 0xff <= 255 && (n >> 48) & 0xff
        <= 255 && (n >> 56) & 0xff <= 255) by (bit_vector);
}

/// A vector is stored with eight bytes for each of its numbers, in their order, the lowest byte of
/// each first.
pub proof fn law_vector_is_stored_little_endian(v: Seq<Measure>, i: int)
    requires
        0 <= i < v.len(),
    ensures
        blob_of(v).len() == 8 * v.len(),
        ({
            let b = blob_of(v);
            v[i].bits as int == b[8 * i] as int + 0x100 * b[8 * i + 1] as int + 0x1_0000 * b[8 * i
                + 2] as int + 0x100_0000 * b[8 * i + 3] as int + 0x1_0000_0000 * b[8 * i + 4] as int
                + 0x100_0000_0000 * b[8 * i + 5] as int + 0x1_0000_0000_0000 * b[8 * i + 6] as int
                + 0x100_0000_0000_0000 * b[8 * i + 7] as int
        }),
{
    lemma_bytes_of_a_number(v[i].bits);
    let b = blob_of(v);
    assert forall|k: int| 0 <= k < 8 implies #[trigger] b[8 * i + k] == byte_of(v[i].bits, k) by {
        assert((8 * i + k) / 8 == i && (8 * i + k) % 8 == k);
    }
    assert(b[8 * i + 0] == byte_of(v[i].bits, 0));
    assert(b[8 * i + 1] == byte_of(v[i].bits, 1));
    assert(b[8 * i + 2] == byte_of(v[i].bits, 2));
    assert(b[8 * i + 3] == byte_of(v[i].bits, 3));
    assert(b[8 * i + 4] == byte_of(v[i].bits, 4));
    assert(b[8 * i + 5] == byte_of(v[i].bits, 5));
    assert(b[8 * i + 6] == byte_of(v[i].bits, 6));
    assert(b[8 * i + 7] == byte_of(v[i].bits, 7));
}

/// A capture counts as a paraphrase exactly if some stored embedding has a similarity of 0.95 or
/// more to it; it is then a paraphrase of one of those that are the most similar.
pub proof fn law_paraphrases_are_similar_enough(ids: Seq<Seq<char>>, scores: Seq<Measure>)
    requires
        ids.len() == scores.len(),
    ensures
        best_match(ids, scores) is Some <==> exists|i: int|
            0 <= i < scores.len() && !(#[trigger] scores[i]).nan() && scores[i].rank()
                >= 0x3fee_6666_6666_6666,
        best_match(ids, scores) is Some ==> exists|i: int|
            0 <= i < scores.len() && (#[trigger] ids[i]) == (best_match(ids, scores)->0).0
                && scores[i] == (best_match(ids, scores)->0).1 && forall|j: int|
                0 <= j < scores.len() && !(#[trigger] scores[j]).nan() ==> scores[j].rank()
                    <= scores[i].rank(),
{
    law_best_match_is_best(ids, scores);
    let at = Measure { bits: SIMILAR_DEDUP_THRESHOLD };
    if best_match(ids, scores) is Some {
        let p = best_match(ids, scores)->0;
        let i = choose|i: int| 0 <= i < ids.len() && #[trigger] ids[i] == p.0 && scores[i] == p.1;
        assert(!scores[i].nan() && scores[i].rank() >= 0x3fee_6666_6666_6666);
        assert forall|j: int| 0 <= j < scores.len() && !(
        #[trigger] scores[j]).nan() implies scores[j].rank() <= scores[i].rank() by {
            assert(!scores[j].exceeds(p.1));
        }
    } else {
        assert forall|i: int| 0 <= i < scores.len() implies !(!(#[trigger] scores[i]).nan()
            && scores[i].rank() >= 0x3fee_6666_6666_6666) by {
            assert(!scores[i].at_least(at));
        }
    }
}

proof fn lemma_close_one_is_kept(
    stored: Seq<EmbeddedView>,
    scores: Seq<Measure>,
    min: Option<Measure>,
    except: Seq<Seq<char>>,
    k: int,
)
    requires
        stored.len() <= scores.len(),
        0 <= k < stored.len(),
        min is Some ==> scores[k].at_least(min->0),
        !except.contains(stored[k].id),
    ensures
        close_ones(stored, scores, min, except).contains(
            ScoredView { id: stored[k].id, score: scores[k], created_at: stored[k].created_at },
        ),
    decreases stored.len(),
{
    let x = ScoredView { id: stored[k].id, score: scores[k], created_at: stored[k].created_at };
    let all = close_ones(stored, scores, min, except);
    let before = close_ones(stored.drop_last(), scores, min, except);
    if k < stored.len() - 1 {
        lemma_close_one_is_kept(stored.drop_last(), scores, min, except, k);
        let i = choose|i: int| 0 <= i < before.len() && before[i] == x;
        assert(all[i] == x);
    } else {
        assert(all[all.len() - 1] == x);
    }
}

proof fn lemma_close_one_comes_from(
    stored: Seq<EmbeddedView>,
    scores: Seq<Measure>,
    min: Option<Measure>,
    except: Seq<Seq<char>>,
    x: ScoredView,
) -> (k: int)
    requires
        stored.len() <= scores.len(),
        close_ones(stored, scores, min, except).contains(x),
    ensures
        0 <= k < stored.len(),
        x.id == stored[k].id,
        x.score == scores[k],
        x.created_at == stored[k].created_at,
        min is Some ==> scores[k].at_least(min->0),
        !except.contains(x.id),
    decreases stored.len(),
{
    let all = close_ones(stored, scores, min, except);
    let i = choose|i: int| 0 <= i < all.len() && all[i] == x;
    let before = close_ones(stored.drop_last(), scores, min, except);
    if i < before.len() {
        assert(before[i] == x);
        lemma_close_one_comes_from(stored.drop_last(), scores, min, except, x)
    } else {
        stored.len() - 1
    }
}

/// The nearest ones are found: whatever is similar enough and not excepted is among them, with its
/// similarity, unless as many others are as were asked for and none of them is less similar.
pub proof fn law_nearest_ones_are_found(
    stored: Seq<EmbeddedView>,
    scores: Seq<Measure>,
    min: Option<Measure>,
    except: Seq<Seq<char>>,
    max: usize,
    k: int,
)
    requires
        stored.len() == scores.len(),
        0 <= k < stored.len(),
        min is Some ==> scores[k].at_least(min->0),
        !except.contains(stored[k].id),
    ensures
        ({
            let near = nearest(stored, scores, min, except, max);
            ||| near.contains(
                ScoredView {
                    id: stored[k].id,
                    score: scores[k],
                    created_at: stored[k].created_at,
                },
            )
            ||| near.len() == max && forall|i: int|
                0 <= i < near.len() ==> (#[trigger] near[i]).score.rank() >= scores[k].rank()
        }),
{
    let x = ScoredView { id: stored[k].id, score: scores[k], created_at: stored[k].created_at };
    lemma_close_one_is_kept(stored, scores, min, except, k);
    law_best_ones_are_shown::<Scored>(close_ones(stored, scores, min, except), max as nat, x);
}

/// The nearest ones are near: each is one of the stored ones with its own similarity, similar
/// enough and not excepted; the more similar ones come first, and of equally similar ones the
/// newer; and there are no more than were asked for.
pub proof fn law_nearest_ones_are_near(
    stored: Seq<EmbeddedView>,
    scores: Seq<Measure>,
    min: Option<Measure>,
    except: Seq<Seq<char>>,
    max: usize,
    i: int,
) -> (k: int)
    requires
        stored.len() == scores.len(),
        0 <= i < nearest(stored, scores, min, except, max).len(),
    ensures
        0 <= k < stored.len(),
        ({
            let near = nearest(stored, scores, min, except, max);
            &&& near.len() <= max
            &&& near[i].id == stored[k].id
            &&& near[i].score == scores[k]
            &&& near[i].created_at == stored[k].created_at
            &&& min is Some ==> scores[k].at_least(min->0)
            &&& !except.contains(stored[k].id)
            &&& forall|j: int|
                i < j < near.len() ==> {
                    ||| near[i].score.rank() > (#[trigger] near[j]).score.rank()
                    ||| near[i].score.rank() == near[j].score.rank() && !near[j].created_at.after(
                        near[i].created_at,
                    )
                }
        }),
{
    let found = close_ones(stored, scores, min, except);
    law_shown_ones_are_in_order::<Scored>(found, max as nat);
    let near = nearest(stored, scores, min, except, max);
    assert forall|j: int| i < j < near.len() implies {
        ||| near[i].score.rank() > (#[trigger] near[j]).score.rank()
        ||| near[i].score.rank() == near[j].score.rank() && !near[j].created_at.after(
            near[i].created_at,
        )
    } by {
        assert(Scored::before(near[i], near[j]));
    }
    assert(found.contains(near[i]));
    lemma_close_one_comes_from(stored, scores, min, except, near[i])
}

/// A stored embedding is read by column: its memory, its vector and when that memory was made.
pub proof fn law_embedding_is_read_by_column(row: Seq<SqlView>, now: Timestamp)
    ensures
        embedding_row(row) <==> row.len() >= 3 && row[0] is Text && row[1] is Blob
            && row[2] is Text,
        embedding_row(row) ==> {
            let e = embedding_in(row, now);
            &&& row[0] == SqlView::Text(e.id)
            &&& e.vector == vector_of(row[1]->Blob_0)
            &&& Timestamp::parsed(row[2]->Text_0) is Some ==> e.created_at == Timestamp::parsed(
                row[2]->Text_0,
            )->0
            &&& Timestamp::parsed(row[2]->Text_0) is None ==> e.created_at == now
        },
{
}

/// Reading takes every eight bytes for a number, in order, and leaves out what does not fill one.
pub proof fn law_bytes_are_read_as_numbers(b: Seq<u8>)
    ensures
        vector_of(b).len() == b.len() / 8,
        b.len() % 8 == 0 ==> blob_of(vector_of(b)).len() == b.len(),
{
}

/// Of embeddings that are equally similar the first one counts: each one before the match is less
/// similar.
pub proof fn law_first_of_the_most_similar_counts(ids: Seq<Seq<char>>, scores: Seq<Measure>)
    requires
        ids.len() == scores.len(),
    ensures
        best_match(ids, scores) is Some ==> exists|i: int|
            0 <= i < scores.len() && (#[trigger] ids[i]) == (best_match(ids, scores)->0).0
                && scores[i] == (best_match(ids, scores)->0).1 && forall|j: int|
                0 <= j < i && !(#[trigger] scores[j]).nan() ==> scores[j].rank() < scores[i].rank(),
    decreases scores.len(),
{
    if scores.len() > 0 {
        let (x, y) = (ids.drop_last(), scores.drop_last());
        law_first_of_the_most_similar_counts(x, y);
        law_best_match_is_best(x, y);
        let best = best_match(x, y);
        let now = best_match(ids, scores);
        if now is Some {
            if now == best {
                let i = choose|i: int|
                    0 <= i < y.len() && (#[trigger] x[i]) == (best->0).0 && y[i] == (best->0).1
                        && forall|j: int|
                        0 <= j < i && !(#[trigger] y[j]).nan() ==> y[j].rank() < y[i].rank();
                assert(ids[i] == x[i]);
                assert forall|j: int| 0 <= j < i && !(
                #[trigger] scores[j]).nan() implies scores[j].rank() < scores[i].rank() by {
                    assert(y[j] == scores[j]);
                }
            } else {
                let i = scores.len() - 1;
                assert(ids[i] == (now->0).0);
                assert forall|j: int| 0 <= j < i && !(
                #[trigger] scores[j]).nan() implies scores[j].rank() < scores[i].rank() by {
                    assert(y[j] == scores[j]);
                    if best is Some {
                        assert(!y[j].exceeds((best->0).1));
                    } else {
                        assert(!y[j].at_least(Measure { bits: SIMILAR_DEDUP_THRESHOLD }));
                    }
                }
            }
        }
    }
}

/// Of equally similar ones that were made at the same time, the nearest come in the order of their
/// identifiers.
pub proof fn law_equally_near_ones_come_by_identifier(
    stored: Seq<EmbeddedView>,
    scores: Seq<Measure>,
    min: Option<Measure>,
    except: Seq<Seq<char>>,
    max: usize,
    i: int,
    j: int,
)
    requires
        0 <= i < j < nearest(stored, scores, min, except, max).len(),
        ({
            let near = nearest(stored, scores, min, except, max);
            near[i].score.rank() == near[j].score.rank() && near[i].created_at
                == near[j].created_at
        }),
    ensures
        ({
            let near = nearest(stored, scores, min, except, max);
            dictionary_le(near[i].id, near[j].id)
        }),
{
    let found = close_ones(stored, scores, min, except);
    law_shown_ones_are_in_order::<Scored>(found, max as nat);
    let near = nearest(stored, scores, min, except, max);
    assert(Scored::before(near[i], near[j]));
}

/// What is said of a stored embedding is said of its fields.
pub proof fn law_embedded_is_seen_as_it_is(x: Embedded)
    ensures
        x@.id == x.id@,
        x@.vector == x.vector@,
        x@.created_at == x.created_at,
{
}

/// Rows are read as embeddings if each of them holds one, and every one is read, in the order of
/// the rows.
pub proof fn law_every_embedding_is_read(
    rows: Seq<Seq<SqlView>>,
    list: Seq<EmbeddedView>,
    now: Timestamp,
)
    ensures
        all_embedding_rows(rows) <==> forall|i: int|
            0 <= i < rows.len() ==> embedding_row(#[trigger] rows[i]),
        embeddings_in(rows, now).len() == rows.len(),
        forall|i: int|
            0 <= i < rows.len() ==> #[trigger] embeddings_in(rows, now)[i] == embedding_in(
                rows[i],
                now,
            ),
        embedded_ids(list).len() == list.len(),
        forall|i: int| 0 <= i < list.len() ==> #[trigger] embedded_ids(list)[i] == list[i].id,
{
}

} // verus!
