//! Reading, linking, pushing and deleting memories.
use crate::capture::{keeps_stored, stored_row, upsert_of, upserted};
use crate::embedding::{blob_of, blob_to_embedding, embedding_to_blob, vector_of};
use crate::engram::{Engram, EngramView, LinkType};
use crate::error::{EngramError, ErrorView};
use crate::links::{link_statement, link_statement_of};
use crate::measure::Measure;
use crate::rows::{
    as_stored, engram_column_names, engram_in, engram_row, engram_values,
    lemma_stored_columns_differ, link_row, links_in, place_of, row_to_engram, rows_to_links,
    selected, stored_columns,
};
use crate::search::{engrams_where, select_engrams};
use crate::sql::{
    blob_column, lemma_statements_push, plain, plain_of, row_views, statement_views, text_at,
    text_column, text_value, value_views, with1, with2, with4, Row, SqlValue, SqlView, Statement,
    StatementView,
};
use crate::tables::{
    earlier, retrieved, statements_of, unindex, Cells, Change, Condition, Tables, BURY, DELETE,
    MODIFIED, RESET_SYNCED, SYNCED, TOUCH,
};
use crate::text::{
    concat, decimal, decimal_text, dictionary_le, join_texts, joined, lemma_dictionary_total,
    opt_text, text_eq, texts,
};
use crate::time::Timestamp;
use vstd::prelude::*;

verus! {

/// Counts the engrams.
pub const COUNT: &'static str = "SELECT COUNT(*) FROM engrams";

/// Reads the deletions that replicas have yet to learn of.
pub const TOMBSTONES: &'static str = "SELECT id, deleted_at FROM tombstones";

/// Reads the outgoing links of an engram.
pub const LINKS: &'static str = "SELECT target_id, weight, link_type FROM engram_links WHERE source_id = ?1 ORDER BY weight DESC";

const RECORD: &'static str = "INSERT OR IGNORE INTO tombstones (id, deleted_at) VALUES (?1, ?2)";

const CLEAR: &'static str = "DELETE FROM tombstones WHERE id = ?1";

const EMBED: &'static str = "INSERT OR REPLACE INTO engram_embeddings (engram_id, embedding, dimensions, created_at) VALUES (?1, ?2, ?3, ?4)";

const EMBEDDING: &'static str = "SELECT model, embedding FROM engram_embeddings WHERE engram_id = ?1";

/// The query for one engram.
pub open spec fn get_query(id: Seq<char>) -> StatementView {
    StatementView { sql: engrams_where("id = ?1"@), params: seq![SqlView::Text(id)] }
}

/// The query for one engram.
pub fn get(id: &str) -> (r: Statement)
    ensures
        r@ == get_query(id@),
{
    with1(select_engrams("id = ?1").as_str(), text_value(id))
}

/// Counts a retrieval. The time of the last modification stays: a read is nothing to push.
pub fn touch(id: &str, now: Timestamp) -> (r: Statement)
    requires
        now.wf(),
    ensures
        r@ == (Change::Touch { id: id@, at: now.text() }).statement(),
{
    with2(TOUCH, SqlValue::Text(now.to_rfc3339()), text_value(id))
}

/// The query for the outgoing links of an engram, the heaviest first.
pub open spec fn links_query(id: Seq<char>) -> StatementView {
    StatementView { sql: LINKS@, params: seq![SqlView::Text(id)] }
}

/// The query for the outgoing links of an engram, the heaviest first.
pub fn get_links(id: &str) -> (r: Statement)
    ensures
        r@ == links_query(id@),
{
    with1(LINKS, text_value(id))
}

/// Whether all rows hold links.
pub open spec fn all_links(rows: Seq<Seq<SqlView>>) -> bool {
    forall|i: int| 0 <= i < rows.len() ==> link_row(#[trigger] rows[i], 0)
}

/// What a read of one engram gives, from the rows of the engram and of its links.
pub open spec fn fetched(
    id: Seq<char>,
    rows: Seq<Seq<SqlView>>,
    links: Seq<Seq<SqlView>>,
    now: Timestamp,
) -> Result<EngramView, ErrorView> {
    if rows.len() == 0 {
        Err(ErrorView::NotFound(id))
    } else if !engram_row(rows[0]) {
        Err(ErrorView::Database("row is no engram"@))
    } else if !all_links(links) {
        Err(ErrorView::Database("row is no link"@))
    } else {
        Ok(EngramView { links: links_in(links, 0), ..engram_in(rows[0], now) })
    }
}

/// The rows that the query for one engram gives.
pub open spec fn get_rows(t: Tables, id: Seq<char>) -> Seq<Seq<SqlView>> {
    if t.engrams.contains_key(id) {
        seq![selected(t.engrams[id])]
    } else {
        Seq::empty()
    }
}

proof fn lemma_stored_cells(old: Option<Cells>, values: Seq<SqlView>)
    requires
        values.len() == 20,
    ensures
        forall|i: int|
            #![trigger stored_columns()[i]]
            0 <= i < 20 ==> {
                let name = stored_columns()[i];
                let row = stored_row(old, values);
                &&& row.contains_key(name)
                &&& row[name] == if keeps_stored(i) && values[i] is Null && old is Some
                    && old->0.contains_key(name) {
                    old->0[name]
                } else {
                    values[i]
                }
            },
        old is None ==> stored_row(old, values)["synced_at"@] == SqlView::Null,
        old is Some && old->0.contains_key("synced_at"@) ==> stored_row(old, values)["synced_at"@]
            == old->0["synced_at"@],
{
    lemma_stored_columns_differ();
    let names = stored_columns();
    assert forall|i: int| #![trigger names[i]] 0 <= i < 20 implies names.contains(names[i])
        && place_of(names[i]) == i by {}
    assert(!names.contains("synced_at"@)) by {
        if names.contains("synced_at"@) {
            let k = choose|k: int| 0 <= k < names.len() && names[k] == "synced_at"@;
            assert(names[k] == "synced_at"@);
        }
    }
}

/// A read gives back what was written: the engram as it was stored, with its links. It goes under
/// the hash that repeats are looked for by. A new memory is to be pushed; one that was written
/// again keeps its push cursor. What is stored of other memories stays as it was.
///
/// The first two requirements are what [`crate::rows::engram_params`] makes sure of.
pub proof fn law_written_memory_is_read_back(
    t: Tables,
    e: EngramView,
    hash: Seq<char>,
    links: Seq<Seq<SqlView>>,
    now: Timestamp,
)
    requires
        engram_row(engram_values(e, hash).take(19)),
        engram_in(engram_values(e, hash).take(19), now) == as_stored(e),
        all_links(links),
        t.engrams.contains_key(e.id) ==> e.last_retrieved is Some && e.occurred_at is Some,
    ensures
        ({
            let u = upserted(t, upsert_of(e, hash).params);
            &&& fetched(e.id, get_rows(u, e.id), links, now) == Ok::<EngramView, ErrorView>(
                EngramView { links: links_in(links, 0), ..as_stored(e) },
            )
            &&& u.engrams[e.id]["content_hash"@] == SqlView::Text(hash)
            &&& !t.engrams.contains_key(e.id) ==> Condition::Unsynced.holds(
                u.engrams[e.id],
                Seq::empty(),
            )
            &&& t.engrams.contains_key(e.id) && t.engrams[e.id].contains_key("synced_at"@)
                ==> u.engrams[e.id]["synced_at"@] == t.engrams[e.id]["synced_at"@]
            &&& u.engrams.remove(e.id) == t.engrams.remove(e.id)
        }),
{
    let values = engram_values(e, hash);
    let u = upserted(t, values);
    let old = if t.engrams.contains_key(e.id) {
        Some(t.engrams[e.id])
    } else {
        None
    };
    assert(values[0] == SqlView::Text(e.id));
    lemma_stored_cells(old, values);
    let row = stored_row(old, values);
    assert(u.engrams[e.id] == row);
    let names = engram_column_names();
    assert forall|i: int| 0 <= i < 19 implies selected(row)[i] == values.take(19)[i] by {
        assert(stored_columns()[i] == names[i]);
        assert(selected(row)[i] == row[names[i]]);
    }
    assert(selected(row) =~= values.take(19));
    assert(get_rows(u, e.id) =~= seq![values.take(19)]);
    assert(stored_columns()[19] == "content_hash"@);
    assert(u.engrams.remove(e.id) =~= t.engrams.remove(e.id));
}

/// A memory that is written again without a retrieval or an event time keeps those that are stored.
pub proof fn law_rewriting_keeps_what_it_has_not(t: Tables, e: EngramView, hash: Seq<char>)
    requires
        t.engrams.contains_key(e.id),
        t.engrams[e.id].contains_key("last_retrieved"@),
        t.engrams[e.id].contains_key("occurred_at"@),
    ensures
        ({
            let u = upserted(t, upsert_of(e, hash).params);
            &&& e.last_retrieved is None ==> u.engrams[e.id]["last_retrieved"@]
                == t.engrams[e.id]["last_retrieved"@]
            &&& e.occurred_at is None ==> u.engrams[e.id]["occurred_at"@]
                == t.engrams[e.id]["occurred_at"@]
        }),
{
    lemma_stored_cells(Some(t.engrams[e.id]), engram_values(e, hash));
    assert(stored_columns()[12] == "last_retrieved"@);
    assert(stored_columns()[17] == "occurred_at"@);
}

proof fn lemma_retrieved_row(row: Cells, at: Seq<char>)
    ensures
        selected(retrieved(row, at)) == selected(row).update(
            8,
            retrieved(row, at)["retrievals"@],
        ).update(12, SqlView::Text(at)),
{
    reveal_strlit("id");
    reveal_strlit("layer");
    reveal_strlit("source");
    reveal_strlit("privacy_level");
    reveal_strlit("content");
    reveal_strlit("context");
    reveal_strlit("strength");
    reveal_strlit("valence");
    reveal_strlit("retrievals");
    reveal_strlit("imagined");
    reveal_strlit("grounded");
    reveal_strlit("created_at");
    reveal_strlit("last_retrieved");
    reveal_strlit("project");
    reveal_strlit("tags");
    reveal_strlit("scope");
    reveal_strlit("content_type");
    reveal_strlit("occurred_at");
    reveal_strlit("modified_at");
    let names = engram_column_names();
    assert forall|k: int| 0 <= k < names.len() && k != 8 && k != 12 implies names[k]
        != "retrievals"@ && names[k] != "last_retrieved"@ by {
        assert(names[k].len() != 10 || names[k][0] == 'c');
        assert(names[k].len() != 14);
    }
    assert("retrievals"@ != "last_retrieved"@) by {
        assert("retrievals"@.len() == 10 && "last_retrieved"@.len() == 14);
    }
    let after = selected(retrieved(row, at));
    let want = selected(row).update(8, retrieved(row, at)["retrievals"@]).update(
        12,
        SqlView::Text(at),
    );
    assert forall|k: int| 0 <= k < names.len() implies after[k] == want[k] by {
        assert(after[k] == retrieved(row, at)[names[k]]);
        assert(selected(row)[k] == row[names[k]]);
    }
    assert(after =~= want);
}

/// A second read gives what the first one gave, with one more retrieval, at the time of the first.
pub proof fn law_second_get_counts_one_more(
    t: Tables,
    id: Seq<char>,
    links: Seq<Seq<SqlView>>,
    now: Timestamp,
    later: Timestamp,
)
    requires
        fetched(id, get_rows(t, id), links, now) is Ok,
        Timestamp::parsed(text_column(get_rows(t, id)[0], 11)->0) is Some,
        fetched(id, get_rows(t, id), links, now)->Ok_0.retrievals < i32::MAX,
    ensures
        ({
            let e = fetched(id, get_rows(t, id), links, now)->Ok_0;
            let u = t.after(seq![Change::Touch { id, at: now.text() }]);
            fetched(id, get_rows(u, id), links, later) == Ok::<EngramView, ErrorView>(
                EngramView {
                    retrievals: (e.retrievals + 1) as i32,
                    last_retrieved: Timestamp::parsed(now.text()),
                    ..e
                },
            )
        }),
{
    let change = Change::Touch { id, at: now.text() };
    let changes = seq![change];
    assert(changes.drop_last() =~= Seq::<Change>::empty());
    reveal_with_fuel(Tables::after, 2);
    let u = t.after(changes);
    let row = t.engrams[id];
    let a = selected(row);
    let b = selected(retrieved(row, now.text()));
    assert(get_rows(t, id) =~= seq![a]);
    assert(u.engrams[id] == retrieved(row, now.text()));
    assert(get_rows(u, id) =~= seq![b]);
    lemma_retrieved_row(row, now.text());
    assert(a.len() == 19 && b.len() == 19);
    assert(a[8] == row["retrievals"@]);
    assert(b[8] == SqlView::Integer((row["retrievals"@]->Integer_0 + 1) as i64)) by {
        reveal_strlit("retrievals");
        reveal_strlit("last_retrieved");
        assert("retrievals"@.len() != "last_retrieved"@.len());
    }
    assert(engram_row(b));
    let e = engram_in(a, now);
    assert(engram_in(b, later) == (EngramView {
        retrievals: (e.retrievals + 1) as i32,
        last_retrieved: Timestamp::parsed(now.text()),
        ..e
    }));
}

/// What a result says.
pub open spec fn result_view(r: Result<Engram, EngramError>) -> Result<EngramView, ErrorView> {
    match r {
        Ok(e) => Ok(e@),
        Err(e) => Err(e@),
    }
}

/// What a read of one engram gives, from the rows of the engram and of its links.
pub fn fetch(id: &str, rows: &Vec<Row>, links: &Vec<Row>, now: Timestamp) -> (r: Result<
    Engram,
    EngramError,
>)
    ensures
        result_view(r) == fetched(id@, row_views(rows@), row_views(links@), now),
{
    if rows.len() == 0 {
        return Err(EngramError::NotFound(id.to_string()));
    }
    proof {
        assert(row_views(rows@)[0] == value_views(rows@[0]@));
    }
    match row_to_engram(&rows[0], now) {
        Ok(engram) => match rows_to_links(links) {
            Ok(list) => {
                let mut e = engram;
                e.links = list;
                Ok(e)
            },
            Err(e) => Err(e),
        },
        Err(e) => Err(e),
    }
}

/// Links two engrams, and marks the source as modified, so that the link is pushed.
pub open spec fn link_statements(
    source: Seq<char>,
    target: Seq<char>,
    weight: Measure,
    link_type: LinkType,
    now: Timestamp,
) -> Seq<StatementView> {
    seq![
        link_statement_of(source, target, weight, link_type),
        (Change::Modify { id: source, at: now.text() }).statement(),
    ]
}

/// Links two engrams, and marks the source as modified, so that the link is pushed.
pub fn link(
    source: &str,
    target: &str,
    weight: Measure,
    link_type: LinkType,
    now: Timestamp,
) -> (r: Vec<Statement>)
    requires
        now.wf(),
    ensures
        statement_views(r@) == link_statements(source@, target@, weight, link_type, now),
{
    let mut v: Vec<Statement> = Vec::new();
    v.push(link_statement(source, target, weight, link_type));
    v.push(with2(MODIFIED, SqlValue::Text(now.to_rfc3339()), text_value(source)));
    assert(statement_views(v@) =~= link_statements(source@, target@, weight, link_type, now));
    v
}

/// What identifiers and times of modification say.
pub open spec fn pairs_of(v: Seq<(String, String)>) -> Seq<(Seq<char>, Seq<char>)> {
    v.map_values(|p: (String, String)| (p.0@, p.1@))
}

/// Notes what was pushed: each engram with the time of modification that it was pushed with, not
/// with the present time, which would hide a change made meanwhile.
pub open spec fn synced_changes(pushed: Seq<(Seq<char>, Seq<char>)>) -> Seq<Change> {
    pushed.map_values(|p: (Seq<char>, Seq<char>)| Change::MarkSynced { id: p.0, at: p.1 })
}

/// Notes what was pushed, in one transaction.
pub fn mark_synced(rows: &Vec<(String, String)>) -> (r: Vec<Statement>)
    ensures
        statement_views(r@) == statements_of(synced_changes(pairs_of(rows@))),
{
    let mut v: Vec<Statement> = Vec::new();
    let mut i: usize = 0;
    let ghost all = statements_of(synced_changes(pairs_of(rows@)));
    assert(statement_views(v@) =~= all.take(0));
    while i < rows.len()
        invariant
            i <= rows@.len(),
            all == statements_of(synced_changes(pairs_of(rows@))),
            statement_views(v@) == all.take(i as int),
        decreases rows@.len() - i,
    {
        let next = with2(SYNCED, text_value(rows[i].1.as_str()), text_value(rows[i].0.as_str()));
        proof {
            assert(all[i as int] == next@);
            lemma_statements_push(v@, next);
            assert(all.take(i + 1) =~= all.take(i as int).push(all[i as int]));
        }
        v.push(next);
        i += 1;
    }
    assert(all.take(rows@.len() as int) =~= all);
    v
}

/// Forgets what was pushed, so that everything is pushed again.
pub fn reset_synced() -> (r: Statement)
    ensures
        r@ == Change::ResetSynced.statement(),
{
    plain(RESET_SYNCED)
}

proof fn lemma_cursor_names_differ()
    ensures
        "synced_at"@ != "modified_at"@,
        "retrievals"@ != "modified_at"@,
        "retrievals"@ != "synced_at"@,
        "last_retrieved"@ != "modified_at"@,
        "last_retrieved"@ != "synced_at"@,
{
    reveal_strlit("synced_at");
    reveal_strlit("modified_at");
    reveal_strlit("retrievals");
    reveal_strlit("last_retrieved");
    assert("synced_at"@.len() == 9);
    assert("modified_at"@.len() == 11);
    assert("retrievals"@.len() == 10);
    assert("last_retrieved"@.len() == 14);
}

/// A memory that was pushed as it stands has nothing left to push. One that was modified while it
/// was pushed still has: what counts is the time of modification that it was pushed with. Other
/// memories are not affected.
pub proof fn law_push_cursor_is_per_memory(
    t: Tables,
    id: Seq<char>,
    pushed: Seq<char>,
    other: Seq<char>,
)
    requires
        t.engrams.contains_key(id),
        t.engrams[id]["modified_at"@] is Text,
        t.engrams.contains_key(other),
        other != id,
    ensures
        ({
            let modified = t.engrams[id]["modified_at"@]->Text_0;
            let u = t.after(synced_changes(seq![(id, pushed)]));
            &&& Condition::Unsynced.holds(u.engrams[id], Seq::empty()) <==> earlier(
                pushed,
                modified,
            )
            &&& pushed == modified ==> !Condition::Unsynced.holds(u.engrams[id], Seq::empty())
            &&& u.engrams[id]["modified_at"@] == t.engrams[id]["modified_at"@]
            &&& u.engrams[other] == t.engrams[other]
        }),
{
    lemma_cursor_names_differ();
    let changes = synced_changes(seq![(id, pushed)]);
    assert(changes =~= seq![Change::MarkSynced { id, at: pushed }]);
    assert(changes.drop_last() =~= Seq::<Change>::empty());
    reveal_with_fuel(Tables::after, 2);
    lemma_dictionary_total(pushed, pushed);
}

/// Reading a memory leaves nothing to push: neither the time of its modification nor its push
/// cursor changes. A link marks the memory that it starts from as modified, so that it is pushed.
pub proof fn law_reads_are_not_pushed_and_links_are(
    t: Tables,
    id: Seq<char>,
    at: Seq<char>,
    cutoff: Seq<char>,
)
    requires
        t.engrams.contains_key(id),
    ensures
        ({
            let read = t.after(seq![Change::Touch { id, at }]);
            let linked = t.after(seq![Change::Modify { id, at }]);
            &&& Condition::Unsynced.holds(read.engrams[id], cutoff) <==> Condition::Unsynced.holds(
                t.engrams[id],
                cutoff,
            )
            &&& Condition::ModifiedAfter.holds(read.engrams[id], cutoff)
                <==> Condition::ModifiedAfter.holds(t.engrams[id], cutoff)
            &&& Condition::ModifiedAfter.holds(linked.engrams[id], cutoff) <==> earlier(cutoff, at)
            &&& t.engrams[id]["synced_at"@] matches SqlView::Text(pushed) ==> (
            Condition::Unsynced.holds(linked.engrams[id], cutoff) <==> earlier(pushed, at))
        }),
{
    lemma_cursor_names_differ();
    let read = seq![Change::Touch { id, at }];
    let linked = seq![Change::Modify { id, at }];
    assert(read.drop_last() =~= Seq::<Change>::empty());
    assert(linked.drop_last() =~= Seq::<Change>::empty());
    reveal_with_fuel(Tables::after, 2);
}

/// Once it is forgotten what was pushed, every memory is to be pushed again.
pub proof fn law_reset_pushes_everything(t: Tables, id: Seq<char>)
    requires
        t.engrams.contains_key(id),
    ensures
        Condition::Unsynced.holds(t.after(seq![Change::ResetSynced]).engrams[id], Seq::empty()),
{
    let changes = seq![Change::ResetSynced];
    assert(changes.drop_last() =~= Seq::<Change>::empty());
    reveal_with_fuel(Tables::after, 2);
}

/// Counts the engrams.
pub fn count() -> (r: Statement)
    ensures
        r@ == plain_of(COUNT@),
{
    plain(COUNT)
}

/// Removes an engram from the text index, and then its row; links, embeddings, evidence and notes
/// go with it.
pub open spec fn deletion(id: Seq<char>) -> Seq<Change> {
    seq![Change::Unindex { id }, Change::Delete { id }]
}

/// The statements that begin a deletion. They run in one transaction with those that
/// [`after_delete`] makes of the number of rows that the second one removed.
pub fn delete(id: &str) -> (r: Vec<Statement>)
    ensures
        statement_views(r@) == statements_of(deletion(id@)),
{
    let mut v: Vec<Statement> = Vec::new();
    v.push(unindex(id));
    v.push(with1(DELETE, text_value(id)));
    assert(statement_views(v@) =~= statements_of(deletion(id@)));
    v
}

/// The change that notes a deletion for replicas.
pub open spec fn burial(id: Seq<char>, now: Timestamp) -> Change {
    Change::Bury { id, at: now.text() }
}

fn tombstone(id: &str, now: Timestamp) -> (r: Statement)
    requires
        now.wf(),
    ensures
        r@ == burial(id@, now).statement(),
{
    with2(BURY, text_value(id), SqlValue::Text(now.to_rfc3339()))
}

/// The changes that end a deletion: the transaction commits behind them, or rolls back where there
/// was no such engram.
pub open spec fn deletion_end(
    id: Seq<char>,
    removed: usize,
    bury: bool,
    now: Timestamp,
) -> Result<Seq<Change>, ErrorView> {
    if removed == 0 {
        Err(ErrorView::NotFound(id))
    } else if bury {
        Ok(seq![burial(id, now)])
    } else {
        Ok(Seq::empty())
    }
}

/// What a result says.
pub open spec fn statements_result(r: Result<Vec<Statement>, EngramError>) -> Result<
    Seq<StatementView>,
    ErrorView,
> {
    match r {
        Ok(v) => Ok(statement_views(v@)),
        Err(e) => Err(e@),
    }
}

/// What ends a deletion, given how many rows it removed. A deletion that another device told of is
/// not noted for replicas: they know it.
pub fn after_delete(id: &str, removed: usize, bury: bool, now: Timestamp) -> (r: Result<
    Vec<Statement>,
    EngramError,
>)
    requires
        now.wf(),
    ensures
        statements_result(r) == match deletion_end(id@, removed, bury, now) {
            Ok(changes) => Ok(statements_of(changes)),
            Err(e) => Err(e),
        },
{
    if removed == 0 {
        return Err(EngramError::NotFound(id.to_string()));
    }
    let mut v: Vec<Statement> = Vec::new();
    if bury {
        v.push(tombstone(id, now));
        assert(statement_views(v@) =~= statements_of(seq![burial(id@, now)]));
    } else {
        assert(statement_views(v@) =~= statements_of(Seq::empty()));
    }
    Ok(v)
}

/// How many rows the deletion of an engram removes.
pub open spec fn removed_rows(t: Tables, id: Seq<char>) -> usize {
    if t.engrams.contains_key(id) {
        1
    } else {
        0
    }
}

/// After a deletion nothing of the memory is left: no row, no place in the text index, no link from
/// or to it and no embedding; and one tombstone is, unless the deletion came from a replica. What
/// is stored of other memories stays as it was.
pub proof fn law_deletion_leaves_only_a_tombstone(
    t: Tables,
    id: Seq<char>,
    bury: bool,
    now: Timestamp,
)
    requires
        t.foreign_keys,
        t.engrams.contains_key(id),
    ensures
        deletion_end(id, removed_rows(t, id), bury, now) is Ok,
        ({
            let u = t.after(deletion(id)).after(
                deletion_end(id, removed_rows(t, id), bury, now)->Ok_0,
            );
            &&& u.engrams == t.engrams.remove(id)
            &&& u.indexed == t.indexed.remove(id)
            &&& u.embeddings == t.embeddings.remove(id)
            &&& u.tombstones == if bury {
                t.tombstones.insert(id, now.text())
            } else {
                t.tombstones
            }
            &&& forall|k: (Seq<char>, Seq<char>)| #[trigger]
                u.links.contains_key(k) <==> t.links.contains_key(k) && k.0 != id && k.1 != id
            &&& forall|k: (Seq<char>, Seq<char>)|
                u.links.contains_key(k) ==> #[trigger] u.links[k] == t.links[k]
        }),
{
    reveal_with_fuel(Tables::after, 3);
    let changes = deletion(id);
    assert(changes.drop_last() =~= seq![Change::Unindex { id }]);
    assert(changes.drop_last().drop_last() =~= Seq::<Change>::empty());
    let end = deletion_end(id, removed_rows(t, id), bury, now)->Ok_0;
    if bury {
        assert(end =~= seq![burial(id, now)]);
        assert(end.drop_last() =~= Seq::<Change>::empty());
    }
}

/// A memory that is not there cannot be deleted: that is an error, and nothing changes.
pub proof fn law_deletion_of_nothing_fails(t: Tables, id: Seq<char>, bury: bool, now: Timestamp)
    requires
        !t.engrams.contains_key(id),
    ensures
        deletion_end(id, removed_rows(t, id), bury, now) == Err::<Seq<Change>, ErrorView>(
            ErrorView::NotFound(id),
        ),
{
}

/// What a purge goes by.
#[derive(Debug, Clone, Copy, PartialEq, Eq, Structural)]
pub enum Test {
    Source,
    Layer,
    Project,
    /// The time of creation, compared as a text.
    Before,
}

impl Test {
    /// The test as it stands in a statement, before the number of its parameter.
    pub open spec fn text(self) -> Seq<char> {
        match self {
            Test::Source => "source = ?"@,
            Test::Layer => "layer = ?"@,
            Test::Project => "project = ?"@,
            Test::Before => "created_at < ?"@,
        }
    }

    fn sql(self) -> (r: &'static str)
        ensures
            r@ == self.text(),
    {
        match self {
            Test::Source => "source = ?",
            Test::Layer => "layer = ?",
            Test::Project => "project = ?",
            Test::Before => "created_at < ?",
        }
    }

    /// Whether a row passes the test with a value.
    pub open spec fn holds(self, row: Cells, value: Seq<char>) -> bool {
        match self {
            Test::Source => row["source"@] == SqlView::Text(value),
            Test::Layer => row["layer"@] == SqlView::Text(value),
            Test::Project => row["project"@] == SqlView::Text(value),
            Test::Before => Condition::CreatedBefore.holds(row, value),
        }
    }
}

/// One condition of a purge: a test, and the value to test with.
#[verifier::ext_equal]
pub struct Criterion {
    pub test: Test,
    pub value: Seq<char>,
}

/// Whether a row meets all conditions of a purge.
pub open spec fn purgeable(row: Cells, list: Seq<Criterion>) -> bool {
    forall|i: int|
        0 <= i < list.len() ==> (#[trigger] list[i]).test.holds(row, list[i].value)
}

/// The conditions of a purge.
pub open spec fn criteria(
    source: Option<Seq<char>>,
    layer: Option<Seq<char>>,
    project: Option<Seq<char>>,
    before: Option<Seq<char>>,
) -> Seq<Criterion> {
    optional(Test::Source, source) + optional(Test::Layer, layer) + optional(
        Test::Project,
        project,
    ) + optional(Test::Before, before)
}

/// A condition, if there is a value for it.
pub open spec fn optional(test: Test, value: Option<Seq<char>>) -> Seq<Criterion> {
    match value {
        Some(value) => seq![Criterion { test, value }],
        None => Seq::empty(),
    }
}

/// The conditions with their numbered parameters.
pub open spec fn numbered(list: Seq<Criterion>) -> Seq<Seq<char>> {
    Seq::new(list.len(), |i: int| list[i].test.text() + decimal((i + 1) as nat))
}

/// The values that the parameters stand for.
pub open spec fn criteria_values(list: Seq<Criterion>) -> Seq<SqlView> {
    list.map_values(|c: Criterion| SqlView::Text(c.value))
}

/// All conditions at once.
pub open spec fn condition_of(list: Seq<Criterion>) -> Seq<char> {
    joined(numbered(list), " AND "@)
}

/// A purge: the query for what it deletes, and the deletion.
#[derive(Debug)]
pub struct Purge {
    pub select: Statement,
    pub delete: Statement,
}

/// A purge, as seen in contracts.
#[verifier::ext_equal]
pub struct PurgeView {
    pub select: StatementView,
    pub delete: StatementView,
}

impl View for Purge {
    type V = PurgeView;

    open spec fn view(&self) -> PurgeView {
        PurgeView { select: self.select@, delete: self.delete@ }
    }
}

/// The purge for some conditions.
pub open spec fn purge_of(list: Seq<Criterion>) -> PurgeView {
    PurgeView {
        select: StatementView {
            sql: "SELECT id FROM engrams WHERE "@ + condition_of(list),
            params: criteria_values(list),
        },
        delete: StatementView {
            sql: "DELETE FROM engrams WHERE "@ + condition_of(list),
            params: criteria_values(list),
        },
    }
}

/// The purge for optional conditions, all of which must hold. A date that is no timestamp is
/// refused: compared as text it might come after every real one. So is a purge without conditions.
pub open spec fn purge_plan(
    source: Option<Seq<char>>,
    layer: Option<Seq<char>>,
    project: Option<Seq<char>>,
    before: Option<Seq<char>>,
) -> Result<PurgeView, ErrorView> {
    if before is Some && Timestamp::parsed(before->0) is None {
        Err(
            ErrorView::Validation(
                "before_date must be an RFC3339 timestamp (e.g. 2026-08-01T00:00:00Z), got: "@
                    + before->0,
            ),
        )
    } else if source is None && layer is None && project is None && before is None {
        Err(ErrorView::Validation("At least one purge criterion is required"@))
    } else {
        Ok(purge_of(criteria(source, layer, project, before)))
    }
}

/// What a result says.
pub open spec fn purge_result(r: Result<Purge, EngramError>) -> Result<PurgeView, ErrorView> {
    match r {
        Ok(p) => Ok(p@),
        Err(e) => Err(e@),
    }
}

fn text_values(list: &Vec<String>) -> (r: Vec<SqlValue>)
    ensures
        value_views(r@) == texts(list@).map_values(|s: Seq<char>| SqlView::Text(s)),
{
    let mut v: Vec<SqlValue> = Vec::new();
    let mut i: usize = 0;
    let ghost all = texts(list@).map_values(|s: Seq<char>| SqlView::Text(s));
    while i < list.len()
        invariant
            i <= list@.len(),
            all == texts(list@).map_values(|s: Seq<char>| SqlView::Text(s)),
            value_views(v@) == all.take(i as int),
        decreases list@.len() - i,
    {
        let next = text_value(list[i].as_str());
        proof {
            assert(all[i as int] == next@);
            crate::sql::lemma_values_push(v@, next);
            assert(all.take(i + 1) =~= all.take(i as int).push(all[i as int]));
        }
        v.push(next);
        i += 1;
    }
    assert(all.take(list@.len() as int) =~= all);
    v
}

fn push_criterion(
    conditions: &mut Vec<String>,
    values: &mut Vec<String>,
    test: Test,
    value: &Option<String>,
    Ghost(list): Ghost<Seq<Criterion>>,
)
    requires
        list.len() <= 3,
        texts(old(conditions)@) == numbered(list),
        texts(old(values)@) == list.map_values(|c: Criterion| c.value),
    ensures
        texts(final(conditions)@) == numbered(list + optional(test, opt_text(*value))),
        texts(final(values)@) == (list + optional(test, opt_text(*value))).map_values(
            |c: Criterion| c.value,
        ),
{
    let ghost (a, b) = (conditions@, values@);
    let ghost new = list + optional(test, opt_text(*value));
    proof {
        assert(texts(b).len() == list.len());
    }
    if let Some(text) = value {
        let number = decimal_text(values.len() as u64 + 1);
        let condition = concat(test.sql(), number.as_str());
        let copy = text.clone();
        conditions.push(condition);
        values.push(copy);
        proof {
            assert(texts(a.push(condition)) =~= texts(a).push(condition@));
            assert(texts(b.push(copy)) =~= texts(b).push(copy@));
            assert(numbered(new) =~= numbered(list).push(condition@));
            assert(new.map_values(|c: Criterion| c.value) =~= list.map_values(
                |c: Criterion| c.value,
            ).push(copy@));
        }
    } else {
        assert(new =~= list);
    }
}

/// The purge for optional conditions.
pub fn purge_by_criteria(
    source: &Option<String>,
    layer: &Option<String>,
    project: &Option<String>,
    before: &Option<String>,
) -> (r: Result<Purge, EngramError>)
    ensures
        purge_result(r) == purge_plan(
            opt_text(*source),
            opt_text(*layer),
            opt_text(*project),
            opt_text(*before),
        ),
{
    if let Some(date) = before {
        if Timestamp::parse(date.as_str()).is_none() {
            return Err(
                EngramError::Validation(
                    concat(
                        "before_date must be an RFC3339 timestamp (e.g. 2026-08-01T00:00:00Z), got: ",
                        date.as_str(),
                    ),
                ),
            );
        }
    }
    if source.is_none() && layer.is_none() && project.is_none() && before.is_none() {
        return Err(
            EngramError::Validation("At least one purge criterion is required".to_string()),
        );
    }
    let mut conditions: Vec<String> = Vec::new();
    let mut values: Vec<String> = Vec::new();
    let ghost l0 = Seq::<Criterion>::empty();
    let ghost l1 = l0 + optional(Test::Source, opt_text(*source));
    let ghost l2 = l1 + optional(Test::Layer, opt_text(*layer));
    let ghost l3 = l2 + optional(Test::Project, opt_text(*project));
    let ghost list = l3 + optional(Test::Before, opt_text(*before));
    proof {
        assert(texts(conditions@) =~= numbered(l0));
        assert(texts(values@) =~= l0.map_values(|c: Criterion| c.value));
    }
    push_criterion(&mut conditions, &mut values, Test::Source, source, Ghost(l0));
    push_criterion(&mut conditions, &mut values, Test::Layer, layer, Ghost(l1));
    push_criterion(&mut conditions, &mut values, Test::Project, project, Ghost(l2));
    push_criterion(&mut conditions, &mut values, Test::Before, before, Ghost(l3));
    proof {
        assert(list =~= criteria(
            opt_text(*source),
            opt_text(*layer),
            opt_text(*project),
            opt_text(*before),
        ));
        assert(texts(values@).map_values(|s: Seq<char>| SqlView::Text(s)) =~= criteria_values(
            list,
        ));
    }
    let condition = join_texts(&conditions, " AND ");
    Ok(
        Purge {
            select: Statement {
                sql: concat("SELECT id FROM engrams WHERE ", condition.as_str()),
                params: text_values(&values),
            },
            delete: Statement {
                sql: concat("DELETE FROM engrams WHERE ", condition.as_str()),
                params: text_values(&values),
            },
        },
    )
}

/// The statements of a purge, once its query gave the identifiers: every engram leaves the text
/// index, all rows go, and every deletion is noted for replicas.
pub open spec fn purge_statements(
    delete: StatementView,
    ids: Seq<Seq<char>>,
    now: Timestamp,
) -> Seq<StatementView> {
    ids.map_values(|id: Seq<char>| (Change::Unindex { id }).statement()).push(delete)
        + ids.map_values(|id: Seq<char>| burial(id, now).statement())
}

/// The statements of a purge. They run in one transaction; the number of deletions is that of the
/// identifiers.
pub fn finish_purge(delete: Statement, ids: &Vec<String>, now: Timestamp) -> (r: Vec<Statement>)
    requires
        now.wf(),
    ensures
        statement_views(r@) == purge_statements(delete@, texts(ids@), now),
{
    let mut v: Vec<Statement> = Vec::new();
    let ghost first = texts(ids@).map_values(|id: Seq<char>| (Change::Unindex { id }).statement());
    let ghost second = texts(ids@).map_values(|id: Seq<char>| burial(id, now).statement());
    let mut i: usize = 0;
    assert(statement_views(v@) =~= first.take(0));
    while i < ids.len()
        invariant
            i <= ids@.len(),
            first == texts(ids@).map_values(|id: Seq<char>| (Change::Unindex { id }).statement()),
            statement_views(v@) == first.take(i as int),
        decreases ids@.len() - i,
    {
        let next = unindex(ids[i].as_str());
        proof {
            assert(first[i as int] == next@);
            lemma_statements_push(v@, next);
            assert(first.take(i + 1) =~= first.take(i as int).push(first[i as int]));
        }
        v.push(next);
        i += 1;
    }
    proof {
        assert(first.take(ids@.len() as int) =~= first);
        lemma_statements_push(v@, delete);
    }
    v.push(delete);
    let ghost head = first.push(delete@);
    let mut k: usize = 0;
    assert(head + second.take(0) =~= head);
    while k < ids.len()
        invariant
            k <= ids@.len(),
            now.wf(),
            second == texts(ids@).map_values(|id: Seq<char>| burial(id, now).statement()),
            statement_views(v@) == head + second.take(k as int),
        decreases ids@.len() - k,
    {
        let next = tombstone(ids[k].as_str(), now);
        proof {
            assert(second[k as int] == next@);
            lemma_statements_push(v@, next);
            assert(head + second.take(k + 1) =~= (head + second.take(k as int)).push(
                second[k as int],
            ));
        }
        v.push(next);
        k += 1;
    }
    proof {
        assert(second.take(ids@.len() as int) =~= second);
    }
    v
}

/// A purge deletes by the very conditions that it selected by, and notes each deletion once: the
/// text index, the table and the replicas lose the same engrams.
pub proof fn law_purge_is_consistent(
    source: Option<Seq<char>>,
    layer: Option<Seq<char>>,
    project: Option<Seq<char>>,
    before: Option<Seq<char>>,
    ids: Seq<Seq<char>>,
    now: Timestamp,
)
    requires
        purge_plan(source, layer, project, before) is Ok,
    ensures
        ({
            let p = purge_plan(source, layer, project, before)->Ok_0;
            let list = criteria(source, layer, project, before);
            let done = purge_statements(p.delete, ids, now);
            &&& list.len() > 0
            &&& p.select.params == p.delete.params
            &&& p.select.sql == "SELECT id FROM engrams WHERE "@ + condition_of(list)
            &&& p.delete.sql == "DELETE FROM engrams WHERE "@ + condition_of(list)
            &&& done.len() == 2 * ids.len() + 1
            &&& done[ids.len() as int] == p.delete
            &&& forall|i: int|
                0 <= i < ids.len() ==> #[trigger] done[i] == (Change::Unindex {
                    id: ids[i],
                }).statement() && done[ids.len() + 1 + i] == burial(ids[i], now).statement()
        }),
{
}

proof fn lemma_unindexed(t: Tables, ids: Seq<Seq<char>>)
    ensures
        ({
            let u = t.after(ids.map_values(|id: Seq<char>| Change::Unindex { id }));
            &&& u.engrams == t.engrams
            &&& u.links == t.links
            &&& u.embeddings == t.embeddings
            &&& u.tombstones == t.tombstones
            &&& u.foreign_keys == t.foreign_keys
            &&& forall|x: Seq<char>| #[trigger]
                u.indexed.contains(x) <==> t.indexed.contains(x) && !ids.contains(x)
        }),
    decreases ids.len(),
{
    let changes = ids.map_values(|id: Seq<char>| Change::Unindex { id });
    if ids.len() > 0 {
        let before = ids.drop_last();
        lemma_unindexed(t, before);
        assert(changes.drop_last() =~= before.map_values(|id: Seq<char>| Change::Unindex { id }));
        assert(changes.last() == Change::Unindex { id: ids.last() });
        lemma_contains_last(ids);
    }
}

proof fn lemma_buried(t: Tables, ids: Seq<Seq<char>>, now: Timestamp)
    ensures
        ({
            let u = t.after(ids.map_values(|id: Seq<char>| burial(id, now)));
            &&& u.engrams == t.engrams
            &&& u.links == t.links
            &&& u.embeddings == t.embeddings
            &&& u.indexed == t.indexed
            &&& u.foreign_keys == t.foreign_keys
            &&& forall|x: Seq<char>| #[trigger]
                u.tombstones.contains_key(x) <==> t.tombstones.contains_key(x) || ids.contains(x)
            &&& forall|x: Seq<char>|
                u.tombstones.contains_key(x) ==> #[trigger] u.tombstones[x] == if ids.contains(x) {
                    now.text()
                } else {
                    t.tombstones[x]
                }
        }),
    decreases ids.len(),
{
    let changes = ids.map_values(|id: Seq<char>| burial(id, now));
    if ids.len() > 0 {
        let before = ids.drop_last();
        lemma_buried(t, before, now);
        assert(changes.drop_last() =~= before.map_values(|id: Seq<char>| burial(id, now)));
        assert(changes.last() == burial(ids.last(), now));
        lemma_contains_last(ids);
    }
}

proof fn lemma_contains_last(ids: Seq<Seq<char>>)
    requires
        ids.len() > 0,
    ensures
        forall|x: Seq<char>| #[trigger]
            ids.contains(x) <==> ids.drop_last().contains(x) || x == ids.last(),
{
    let before = ids.drop_last();
    assert forall|x: Seq<char>| #[trigger] ids.contains(x) implies before.contains(x) || x
        == ids.last() by {
        let k = choose|k: int| 0 <= k < ids.len() && ids[k] == x;
        if k < before.len() {
            assert(before[k] == x);
        }
    }
    assert forall|x: Seq<char>| #[trigger] before.contains(x) implies ids.contains(x) by {
        let k = choose|k: int| 0 <= k < before.len() && before[k] == x;
        assert(ids[k] == x);
    }
    assert(ids[ids.len() - 1] == ids.last());
}

/// What the tables hold after the deletion of the rows that meet the conditions of a purge. What
/// refers to them goes with them.
pub open spec fn without_purgeable(t: Tables, list: Seq<Criterion>) -> Tables {
    let gone = Set::new(
        |id: Seq<char>| t.engrams.contains_key(id) && purgeable(t.engrams[id], list),
    );
    Tables {
        engrams: t.engrams.remove_keys(gone),
        links: if t.foreign_keys {
            t.links.remove_keys(
                t.links.dom().filter(
                    |k: (Seq<char>, Seq<char>)| gone.contains(k.0) || gone.contains(k.1),
                ),
            )
        } else {
            t.links
        },
        embeddings: if t.foreign_keys {
            t.embeddings.remove_keys(gone)
        } else {
            t.embeddings
        },
        ..t
    }
}

/// What the tables hold after a purge.
pub open spec fn purged(
    t: Tables,
    list: Seq<Criterion>,
    ids: Seq<Seq<char>>,
    now: Timestamp,
) -> Tables {
    without_purgeable(
        t.after(ids.map_values(|id: Seq<char>| Change::Unindex { id })),
        list,
    ).after(ids.map_values(|id: Seq<char>| burial(id, now)))
}

/// A purge removes the memories that meet all of its conditions, and no others: of each it leaves
/// no row, no place in the text index, no link and no embedding, but a tombstone. Every other
/// memory stays as it was. `ids` is what the query of the purge gives.
pub proof fn law_purge_removes_what_it_names(
    t: Tables,
    list: Seq<Criterion>,
    ids: Seq<Seq<char>>,
    now: Timestamp,
    id: Seq<char>,
    other: Seq<char>,
)
    requires
        t.foreign_keys,
        forall|x: Seq<char>| #[trigger]
            ids.contains(x) <==> t.engrams.contains_key(x) && purgeable(t.engrams[x], list),
        t.engrams.contains_key(id),
    ensures
        ({
            let u = purged(t, list, ids, now);
            if purgeable(t.engrams[id], list) {
                &&& !u.engrams.contains_key(id)
                &&& !u.indexed.contains(id)
                &&& !u.links.contains_key((id, other))
                &&& !u.links.contains_key((other, id))
                &&& !u.embeddings.contains_key(id)
                &&& u.tombstones.contains_key(id)
                &&& u.tombstones[id] == now.text()
            } else {
                &&& u.engrams.contains_key(id)
                &&& u.engrams[id] == t.engrams[id]
                &&& u.indexed.contains(id) == t.indexed.contains(id)
                &&& u.tombstones.contains_key(id) == t.tombstones.contains_key(id)
            }
        }),
{
    let a = t.after(ids.map_values(|x: Seq<char>| Change::Unindex { id: x }));
    lemma_unindexed(t, ids);
    let b = without_purgeable(a, list);
    lemma_buried(b, ids, now);
    assert(ids.contains(id) <==> purgeable(t.engrams[id], list));
}

/// The query for the deletions that replicas have yet to learn of.
pub fn list_tombstones() -> (r: Statement)
    ensures
        r@ == plain_of(TOMBSTONES@),
{
    plain(TOMBSTONES)
}

/// The deletions in rows of identifiers and times; a row that holds anything else is passed over.
pub open spec fn tombstones_in(rows: Seq<Seq<SqlView>>) -> Seq<(Seq<char>, Seq<char>)>
    decreases rows.len(),
{
    if rows.len() == 0 {
        Seq::empty()
    } else {
        let before = tombstones_in(rows.drop_last());
        match (text_column(rows.last(), 0), text_column(rows.last(), 1)) {
            (Some(id), Some(at)) => before.push((id, at)),
            _ => before,
        }
    }
}

/// The pairs in rows of two texts; a row that holds anything else is passed over.
pub fn rows_to_tombstones(rows: &Vec<Row>) -> (r: Vec<(String, String)>)
    ensures
        pairs_of(r@) == tombstones_in(row_views(rows@)),
{
    let mut out: Vec<(String, String)> = Vec::new();
    let mut i: usize = 0;
    assert(pairs_of(out@) =~= Seq::empty());
    while i < rows.len()
        invariant
            i <= rows@.len(),
            pairs_of(out@) == tombstones_in(row_views(rows@).take(i as int)),
        decreases rows@.len() - i,
    {
        proof {
            let upto = row_views(rows@).take(i + 1);
            assert(upto.drop_last() =~= row_views(rows@).take(i as int));
            assert(upto.last() == value_views(rows@[i as int]@));
        }
        if let (Some(id), Some(at)) = (text_at(&rows[i], 0), text_at(&rows[i], 1)) {
            let ghost before = out@;
            let pair = (id, at);
            out.push(pair);
            assert(pairs_of(out@) =~= pairs_of(before).push((pair.0@, pair.1@)));
        }
        i += 1;
    }
    proof {
        assert(row_views(rows@).take(rows@.len() as int) =~= row_views(rows@));
    }
    out
}

/// Forgets deletions that replicas have learned of.
pub open spec fn clear_statements(ids: Seq<Seq<char>>) -> Seq<StatementView> {
    ids.map_values(
        |id: Seq<char>|
            StatementView {
                sql: "DELETE FROM tombstones WHERE id = ?1"@,
                params: seq![SqlView::Text(id)],
            },
    )
}

/// Forgets deletions that replicas have learned of, in one transaction.
pub fn clear_tombstones(ids: &Vec<String>) -> (r: Vec<Statement>)
    ensures
        statement_views(r@) == clear_statements(texts(ids@)),
{
    let mut v: Vec<Statement> = Vec::new();
    let mut i: usize = 0;
    let ghost all = clear_statements(texts(ids@));
    assert(statement_views(v@) =~= all.take(0));
    while i < ids.len()
        invariant
            i <= ids@.len(),
            all == clear_statements(texts(ids@)),
            statement_views(v@) == all.take(i as int),
        decreases ids@.len() - i,
    {
        let next = with1(CLEAR, text_value(ids[i].as_str()));
        proof {
            assert(all[i as int] == next@);
            lemma_statements_push(v@, next);
            assert(all.take(i + 1) =~= all.take(i as int).push(all[i as int]));
        }
        v.push(next);
        i += 1;
    }
    assert(all.take(ids@.len() as int) =~= all);
    v
}

/// Notes a deletion that was recorded elsewhere, unless it is noted already.
pub fn record_tombstone(id: &str, deleted_at: &str) -> (r: Statement)
    ensures
        r@ == (StatementView {
            sql: "INSERT OR IGNORE INTO tombstones (id, deleted_at) VALUES (?1, ?2)"@,
            params: seq![SqlView::Text(id@), SqlView::Text(deleted_at@)],
        }),
{
    with2(RECORD, text_value(id), text_value(deleted_at))
}

/// Stores an embedding.
pub fn store_embedding(id: &str, embedding: &Vec<Measure>, now: Timestamp) -> (r: Statement)
    requires
        now.wf(),
    ensures
        r@ == (StatementView {
            sql: "INSERT OR REPLACE INTO engram_embeddings (engram_id, embedding, dimensions, created_at) VALUES (?1, ?2, ?3, ?4)"@,
            params: seq![
                SqlView::Text(id@),
                SqlView::Blob(blob_of(embedding@)),
                SqlView::Integer(embedding@.len() as i64),
                SqlView::Text(now.text()),
            ],
        }),
{
    with4(
        EMBED,
        text_value(id),
        SqlValue::Blob(embedding_to_blob(embedding)),
        SqlValue::Integer(embedding.len() as i64),
        SqlValue::Text(now.to_rfc3339()),
    )
}

/// The query for the embedding of an engram and the model that made it.
pub fn get_embedding(id: &str) -> (r: Statement)
    ensures
        r@ == (StatementView {
            sql: "SELECT model, embedding FROM engram_embeddings WHERE engram_id = ?1"@,
            params: seq![SqlView::Text(id@)],
        }),
{
    with1(EMBEDDING, text_value(id))
}

/// The model and the embedding in the first row, if there is a row.
pub open spec fn embedding_found(rows: Seq<Seq<SqlView>>) -> Result<
    Option<(Seq<char>, Seq<Measure>)>,
    ErrorView,
> {
    if rows.len() == 0 {
        Ok(None)
    } else {
        match (text_column(rows[0], 0), blob_column(rows[0], 1)) {
            (Some(model), Some(blob)) => Ok(Some((model, vector_of(blob)))),
            _ => Err(ErrorView::Database("row is no embedding"@)),
        }
    }
}

/// What a result says.
pub open spec fn embedding_result(
    r: Result<Option<(String, Vec<Measure>)>, EngramError>,
) -> Result<Option<(Seq<char>, Seq<Measure>)>, ErrorView> {
    match r {
        Ok(Some(p)) => Ok(Some((p.0@, p.1@))),
        Ok(None) => Ok(None),
        Err(e) => Err(e@),
    }
}

/// The model and the embedding in the first row, if there is a row.
pub fn read_embedding(rows: &Vec<Row>) -> (r: Result<Option<(String, Vec<Measure>)>, EngramError>)
    ensures
        embedding_result(r) == embedding_found(row_views(rows@)),
{
    if rows.len() == 0 {
        return Ok(None);
    }
    proof {
        assert(row_views(rows@)[0] == value_views(rows@[0]@));
    }
    let model = text_at(&rows[0], 0);
    if rows[0].len() >= 2 {
        if let (Some(name), SqlValue::Blob(b)) = (model, &rows[0][1]) {
            return Ok(Some((name, blob_to_embedding(b.as_slice()))));
        }
    }
    Err(EngramError::Database("row is no embedding".to_string()))
}

/// Whether an identifier is among those of a list of embeddings.
pub open spec fn listed(list: Seq<(Seq<char>, Seq<Measure>)>, id: Seq<char>) -> bool {
    exists|i: int| 0 <= i < list.len() && (#[trigger] list[i]).0 == id
}

/// What identifiers and embeddings say.
pub open spec fn vectors_of(v: Seq<(String, Vec<Measure>)>) -> Seq<(Seq<char>, Seq<Measure>)> {
    v.map_values(|p: (String, Vec<Measure>)| (p.0@, p.1@))
}

/// What identifiers and optional bytes say.
pub open spec fn blobs_of(v: Seq<(String, Option<Vec<u8>>)>) -> Seq<
    (Seq<char>, Option<Seq<u8>>),
> {
    v.map_values(|p: (String, Option<Vec<u8>>)| (p.0@, crate::keys::opt_bytes(p.1)))
}

/// The embeddings of those that have one, each identifier once.
pub open spec fn embeddings_found(found: Seq<(Seq<char>, Option<Seq<u8>>)>) -> Seq<
    (Seq<char>, Seq<Measure>),
>
    decreases found.len(),
{
    if found.len() == 0 {
        Seq::empty()
    } else {
        let before = embeddings_found(found.drop_last());
        match found.last().1 {
            Some(blob) if !listed(before, found.last().0) => before.push(
                (found.last().0, vector_of(blob)),
            ),
            _ => before,
        }
    }
}

fn is_listed(list: &Vec<(String, Vec<Measure>)>, id: &str) -> (r: bool)
    ensures
        r == listed(vectors_of(list@), id@),
{
    let mut i: usize = 0;
    while i < list.len()
        invariant
            i <= list@.len(),
            forall|k: int| 0 <= k < i ==> (#[trigger] vectors_of(list@)[k]).0 != id@,
        decreases list@.len() - i,
    {
        if text_eq(list[i].0.as_str(), id) {
            assert(vectors_of(list@)[i as int].0 == id@);
            return true;
        }
        assert(vectors_of(list@)[i as int].0 == list@[i as int].0@);
        i += 1;
    }
    false
}

/// The embeddings of those that have one, each identifier once, from what was found for each.
pub fn get_embeddings(found: &Vec<(String, Option<Vec<u8>>)>) -> (r: Vec<(String, Vec<Measure>)>)
    ensures
        vectors_of(r@) == embeddings_found(blobs_of(found@)),
{
    let mut out: Vec<(String, Vec<Measure>)> = Vec::new();
    let mut i: usize = 0;
    assert(vectors_of(out@) =~= Seq::empty());
    while i < found.len()
        invariant
            i <= found@.len(),
            vectors_of(out@) == embeddings_found(blobs_of(found@).take(i as int)),
        decreases found@.len() - i,
    {
        proof {
            let upto = blobs_of(found@).take(i + 1);
            assert(upto.drop_last() =~= blobs_of(found@).take(i as int));
            assert(upto.last() == blobs_of(found@)[i as int]);
        }
        if let Some(blob) = &found[i].1 {
            if !is_listed(&out, found[i].0.as_str()) {
                let ghost before = out@;
                let next = (found[i].0.clone(), blob_to_embedding(blob.as_slice()));
                out.push(next);
                assert(vectors_of(out@) =~= vectors_of(before).push((next.0@, next.1@)));
            }
        }
        i += 1;
    }
    proof {
        assert(blobs_of(found@).take(found@.len() as int) =~= blobs_of(found@));
    }
    out
}

/// No identifier comes twice among the embeddings found.
pub proof fn law_embeddings_are_found_once(found: Seq<(Seq<char>, Option<Seq<u8>>)>)
    ensures
        forall|i: int, j: int|
            0 <= i < j < embeddings_found(found).len() ==> (#[trigger] embeddings_found(
                found,
            )[i]).0 != (#[trigger] embeddings_found(found)[j]).0,
    decreases found.len(),
{
    if found.len() > 0 {
        law_embeddings_are_found_once(found.drop_last());
        let before = embeddings_found(found.drop_last());
        let all = embeddings_found(found);
        assert forall|i: int, j: int| 0 <= i < j < all.len() implies (#[trigger] all[i]).0 != (
        #[trigger] all[j]).0 by {
            if j >= before.len() {
                assert(before[i].0 == all[i].0);
            }
        }
    }
}

/// A purge takes exactly what the caller asks for: a row meets its conditions if and only if it
/// matches every option that is given, the source, the layer and the project by being equal to
/// it, and the date by having been made before it.
pub proof fn law_purge_matches_every_option(
    row: Cells,
    source: Option<Seq<char>>,
    layer: Option<Seq<char>>,
    project: Option<Seq<char>>,
    before: Option<Seq<char>>,
)
    ensures
        purgeable(row, criteria(source, layer, project, before)) <==> {
            &&& source is Some ==> row["source"@] == SqlView::Text(source->0)
            &&& layer is Some ==> row["layer"@] == SqlView::Text(layer->0)
            &&& project is Some ==> row["project"@] == SqlView::Text(project->0)
            &&& before is Some ==> row["created_at"@] is Text && !dictionary_le(
                before->0,
                row["created_at"@]->Text_0,
            )
        },
{
    let list = criteria(source, layer, project, before);
    let a = optional(Test::Source, source);
    let b = optional(Test::Layer, layer);
    let c = optional(Test::Project, project);
    let d = optional(Test::Before, before);
    if purgeable(row, list) {
        if source is Some {
            assert(list[0] == a[0]);
        }
        if layer is Some {
            assert(list[a.len() as int] == b[0]);
        }
        if project is Some {
            assert(list[(a.len() + b.len()) as int] == c[0]);
        }
        if before is Some {
            assert(list[(a.len() + b.len() + c.len()) as int] == d[0]);
        }
    }
}

/// What a purge asks SQLite for: one condition for each option that is given, in the order
/// source, layer, project and date, with its value as the parameter of its number.
pub proof fn law_purge_conditions_read(
    source: Option<Seq<char>>,
    layer: Option<Seq<char>>,
    project: Option<Seq<char>>,
    before: Option<Seq<char>>,
)
    ensures
        ({
            let list = criteria(source, layer, project, before);
            let n = |o: Option<Seq<char>>|
                if o is Some {
                    1nat
                } else {
                    0nat
                };
            let (a, b, c) = (
                n(source),
                n(source) + n(layer),
                n(source) + n(layer) + n(project),
            );
            &&& numbered(list).len() == c + n(before)
            &&& criteria_values(list).len() == c + n(before)
            &&& source is Some ==> numbered(list)[0] == "source = ?"@ + decimal(1)
                && criteria_values(list)[0] == SqlView::Text(source->0)
            &&& layer is Some ==> numbered(list)[a as int] == "layer = ?"@ + decimal(a + 1)
                && criteria_values(list)[a as int] == SqlView::Text(layer->0)
            &&& project is Some ==> numbered(list)[b as int] == "project = ?"@ + decimal(b + 1)
                && criteria_values(list)[b as int] == SqlView::Text(project->0)
            &&& before is Some ==> numbered(list)[c as int] == "created_at < ?"@ + decimal(c + 1)
                && criteria_values(list)[c as int] == SqlView::Text(before->0)
            &&& condition_of(list) == joined(numbered(list), " AND "@)
        }),
{
}

/// A purge by criteria, as a whole: with the identifiers that its query gives, it removes a memory
/// if and only if that matches every option that was given, and leaves a tombstone for each that
/// it removes; every other memory stays as it was.
pub proof fn law_purge_removes_exactly_what_was_asked_for(
    t: Tables,
    source: Option<Seq<char>>,
    layer: Option<Seq<char>>,
    project: Option<Seq<char>>,
    before: Option<Seq<char>>,
    ids: Seq<Seq<char>>,
    now: Timestamp,
    id: Seq<char>,
)
    requires
        t.foreign_keys,
        t.engrams.contains_key(id),
        forall|x: Seq<char>| #[trigger]
            ids.contains(x) <==> t.engrams.contains_key(x) && purgeable(
                t.engrams[x],
                criteria(source, layer, project, before),
            ),
    ensures
        ({
            let row = t.engrams[id];
            let u = purged(t, criteria(source, layer, project, before), ids, now);
            let asked = {
                &&& source is Some ==> row["source"@] == SqlView::Text(source->0)
                &&& layer is Some ==> row["layer"@] == SqlView::Text(layer->0)
                &&& project is Some ==> row["project"@] == SqlView::Text(project->0)
                &&& before is Some ==> row["created_at"@] is Text && !dictionary_le(
                    before->0,
                    row["created_at"@]->Text_0,
                )
            };
            &&& u.engrams.contains_key(id) <==> !asked
            &&& !asked ==> u.engrams[id] == row
            &&& asked ==> u.tombstones.contains_key(id) && u.tombstones[id] == now.text()
        }),
{
    law_purge_matches_every_option(t.engrams[id], source, layer, project, before);
    law_purge_removes_what_it_names(
        t,
        criteria(source, layer, project, before),
        ids,
        now,
        id,
        id,
    );
}

/// A purge is refused exactly where its date is no RFC 3339 timestamp or no option is given at
/// all; any other purge is carried out.
pub proof fn law_purge_is_refused_only_without_criteria(
    source: Option<Seq<char>>,
    layer: Option<Seq<char>>,
    project: Option<Seq<char>>,
    before: Option<Seq<char>>,
)
    ensures
        purge_plan(source, layer, project, before) is Err <==> (before is Some
            && Timestamp::parsed(before->0) is None) || (source is None && layer is None
            && project is None && before is None),
        before is Some && Timestamp::parsed(before->0) is None ==> purge_plan(
            source,
            layer,
            project,
            before,
        ) == Err::<PurgeView, ErrorView>(
            ErrorView::Validation(
                "before_date must be an RFC3339 timestamp (e.g. 2026-08-01T00:00:00Z), got: "@
                    + before->0,
            ),
        ),
        source is None && layer is None && project is None && before is None ==> purge_plan(
            source,
            layer,
            project,
            before,
        ) == Err::<PurgeView, ErrorView>(
            ErrorView::Validation("At least one purge criterion is required"@),
        ),
        purge_plan(source, layer, project, before) matches Ok(p) ==> {
            let list = criteria(source, layer, project, before);
            &&& p.select == (StatementView {
                sql: "SELECT id FROM engrams WHERE "@ + joined(numbered(list), " AND "@),
                params: criteria_values(list),
            })
            &&& p.delete == (StatementView {
                sql: "DELETE FROM engrams WHERE "@ + joined(numbered(list), " AND "@),
                params: criteria_values(list),
            })
        },
{
}

/// Writing a memory again replaces everything that is stored of it with what it holds now, null
/// where it holds nothing, but for its last retrieval and the time of its event, which stay where
/// it has none.
pub proof fn law_rewriting_replaces_everything_else(
    t: Tables,
    e: EngramView,
    hash: Seq<char>,
    i: int,
)
    requires
        0 <= i < 20,
        i != 12,
        i != 17,
    ensures
        upserted(t, upsert_of(e, hash).params).engrams[e.id][stored_columns()[i]] == engram_values(
            e,
            hash,
        )[i],
{
    let old = if t.engrams.contains_key(e.id) {
        Some(t.engrams[e.id])
    } else {
        None
    };
    lemma_stored_cells(old, engram_values(e, hash));
    let name = stored_columns()[i];
    assert(engram_values(e, hash)[0] == SqlView::Text(e.id));
    assert(upserted(t, upsert_of(e, hash).params).engrams[e.id] == stored_row(
        old,
        engram_values(e, hash),
    ));
}

/// The row of an engram is inserted with all of its columns and, where there is one already,
/// updated in all but its identifier, each column with the value of its own place.
pub proof fn law_upsert_reads(e: EngramView, hash: Seq<char>)
    ensures
        ({
            let names = stored_columns();
            let places = Seq::new(20, |i: int| "?"@ + decimal((i + 1) as nat));
            let updates = Seq::new(
                19,
                |i: int|
                    if i == 11 || i == 16 {
                        names[i + 1] + " = COALESCE("@ + ("?"@ + decimal((i + 2) as nat))
                            + ", engrams."@ + names[i + 1] + ")"@
                    } else {
                        names[i + 1] + " = "@ + ("?"@ + decimal((i + 2) as nat))
                    },
            );
            upsert_of(e, hash).sql == "INSERT INTO engrams ("@ + joined(names, ", "@)
                + ") VALUES ("@ + joined(places, ", "@) + ") ON CONFLICT(id) DO UPDATE SET "@
                + joined(updates, ", "@)
        }),
{
    let names = stored_columns();
    assert(crate::capture::places() =~= Seq::new(20, |i: int| "?"@ + decimal((i + 1) as nat)));
    assert(crate::capture::assignments() =~= Seq::new(
        19,
        |i: int|
            if i == 11 || i == 16 {
                names[i + 1] + " = COALESCE("@ + ("?"@ + decimal((i + 2) as nat)) + ", engrams."@
                    + names[i + 1] + ")"@
            } else {
                names[i + 1] + " = "@ + ("?"@ + decimal((i + 2) as nat))
            },
    ));
}

/// A memory that is there is fetched as its row holds it, with all of its links; one that is not
/// there is not found, under the identifier that was asked for.
pub proof fn law_fetching_gives_the_row_with_its_links(
    id: Seq<char>,
    rows: Seq<Seq<SqlView>>,
    links: Seq<Seq<SqlView>>,
    now: Timestamp,
)
    ensures
        rows.len() == 0 ==> fetched(id, rows, links, now) == Err::<EngramView, ErrorView>(
            ErrorView::NotFound(id),
        ),
        rows.len() > 0 && engram_row(rows[0]) && all_links(links) ==> {
            &&& fetched(id, rows, links, now) matches Ok(e)
            &&& (EngramView { links: Seq::empty(), ..e }) == engram_in(rows[0], now)
            &&& e.links.len() == links.len()
            &&& forall|i: int|
                0 <= i < links.len() ==> {
                    &&& SqlView::Text((#[trigger] e.links[i]).target_id) == links[i][0]
                    &&& SqlView::Real(e.links[i].weight) == links[i][1]
                }
        },
        rows.len() > 0 && !(engram_row(rows[0]) && all_links(links)) ==> fetched(
            id,
            rows,
            links,
            now,
        ) is Err,
{
    if rows.len() > 0 && engram_row(rows[0]) && all_links(links) {
        let e = fetched(id, rows, links, now)->Ok_0;
        assert forall|i: int| 0 <= i < links.len() implies {
            &&& SqlView::Text((#[trigger] e.links[i]).target_id) == links[i][0]
            &&& SqlView::Real(e.links[i].weight) == links[i][1]
        } by {
            assert(link_row(links[i], 0));
        }
    }
}

/// What reading, linking and pushing ask SQLite for.
pub proof fn law_store_asks_for(
    id: Seq<char>,
    target: Seq<char>,
    weight: Measure,
    link_type: LinkType,
    now: Timestamp,
)
    ensures
        get_query(id) == (StatementView {
            sql: engrams_where("id = ?1"@),
            params: seq![SqlView::Text(id)],
        }),
        links_query(id) == (StatementView {
            sql: "SELECT target_id, weight, link_type FROM engram_links WHERE source_id = ?1 ORDER BY weight DESC"@,
            params: seq![SqlView::Text(id)],
        }),
        link_statements(id, target, weight, link_type, now) == seq![
            link_statement_of(id, target, weight, link_type),
            StatementView {
                sql: "UPDATE engrams SET modified_at = ?1 WHERE id = ?2"@,
                params: seq![SqlView::Text(now.text()), SqlView::Text(id)],
            },
        ],
        COUNT@ == "SELECT COUNT(*) FROM engrams"@,
        TOMBSTONES@ == "SELECT id, deleted_at FROM tombstones"@,
        statements_of(deletion(id)) == seq![
            StatementView {
                sql: "DELETE FROM engrams_fts WHERE id = ?1"@,
                params: seq![SqlView::Text(id)],
            },
            StatementView {
                sql: "DELETE FROM engrams WHERE id = ?1"@,
                params: seq![SqlView::Text(id)],
            },
        ],
        burial(id, now).statement() == (StatementView {
            sql: "INSERT OR REPLACE INTO tombstones (id, deleted_at) VALUES (?1, ?2)"@,
            params: seq![SqlView::Text(id), SqlView::Text(now.text())],
        }),
{
    assert(statements_of(deletion(id)) =~= seq![
        (Change::Unindex { id }).statement(),
        (Change::Delete { id }).statement(),
    ]);
}

/// Every memory that was pushed is marked with the time of modification that it was pushed with,
/// and no other.
pub proof fn law_every_pushed_memory_is_marked(
    pushed: Seq<(Seq<char>, Seq<char>)>,
    i: int,
)
    requires
        0 <= i < pushed.len(),
    ensures
        statements_of(synced_changes(pushed)).len() == pushed.len(),
        statements_of(synced_changes(pushed))[i] == (StatementView {
            sql: "UPDATE engrams SET synced_at = ?1 WHERE id = ?2"@,
            params: seq![SqlView::Text(pushed[i].1), SqlView::Text(pushed[i].0)],
        }),
{
}

/// Deletions are read in their order, none left out where all rows hold one.
pub proof fn law_tombstones_are_read_in_order(rows: Seq<Seq<SqlView>>)
    requires
        forall|i: int|
            0 <= i < rows.len() ==> (#[trigger] rows[i]).len() >= 2 && rows[i][0] is Text
                && rows[i][1] is Text,
    ensures
        tombstones_in(rows).len() == rows.len(),
        forall|i: int|
            0 <= i < rows.len() ==> SqlView::Text((#[trigger] tombstones_in(rows)[i]).0)
                == rows[i][0] && SqlView::Text(tombstones_in(rows)[i].1) == rows[i][1],
    decreases rows.len(),
{
    if rows.len() > 0 {
        let before = rows.drop_last();
        assert forall|i: int| 0 <= i < before.len() implies (#[trigger] before[i]).len() >= 2
            && before[i][0] is Text && before[i][1] is Text by {
            assert(before[i] == rows[i]);
        }
        law_tombstones_are_read_in_order(before);
        assert(rows.last() == rows[rows.len() - 1]);
        assert forall|i: int| 0 <= i < rows.len() implies SqlView::Text(
            (#[trigger] tombstones_in(rows)[i]).0,
        ) == rows[i][0] && SqlView::Text(tombstones_in(rows)[i].1) == rows[i][1] by {
            if i < before.len() {
                assert(before[i] == rows[i]);
                assert(tombstones_in(rows)[i] == tombstones_in(before)[i]);
            }
        }
    }
}

/// Each deletion that replicas have learned of is forgotten, and no other.
pub proof fn law_learned_deletions_are_forgotten(ids: Seq<Seq<char>>, i: int)
    requires
        0 <= i < ids.len(),
    ensures
        clear_statements(ids).len() == ids.len(),
        clear_statements(ids)[i] == (StatementView {
            sql: "DELETE FROM tombstones WHERE id = ?1"@,
            params: seq![SqlView::Text(ids[i])],
        }),
{
}

/// Every embedding that was found is given, under its identifier, by its first finding; and none
/// is made up.
pub proof fn law_every_embedding_found_is_given(
    found: Seq<(Seq<char>, Option<Seq<u8>>)>,
    id: Seq<char>,
)
    ensures
        listed(embeddings_found(found), id) <==> exists|i: int|
            0 <= i < found.len() && (#[trigger] found[i]).0 == id && found[i].1 is Some,
        forall|k: int|
            0 <= k < embeddings_found(found).len() ==> exists|i: int|
                0 <= i < found.len() && (#[trigger] found[i]).0 == (#[trigger] embeddings_found(
                    found,
                )[k]).0 && found[i].1 is Some && vector_of(found[i].1->0) == embeddings_found(
                    found,
                )[k].1,
    decreases found.len(),
{
    if found.len() > 0 {
        let init = found.drop_last();
        law_every_embedding_found_is_given(init, id);
        law_every_embedding_found_is_given(init, found.last().0);
        let before = embeddings_found(init);
        let all = embeddings_found(found);
        assert forall|k: int| 0 <= k < all.len() implies exists|i: int|
            0 <= i < found.len() && (#[trigger] found[i]).0 == (#[trigger] all[k]).0
                && found[i].1 is Some && vector_of(found[i].1->0) == all[k].1 by {
            if k < before.len() {
                assert(all[k] == before[k]);
                let i = choose|i: int|
                    0 <= i < init.len() && (#[trigger] init[i]).0 == before[k].0
                        && init[i].1 is Some && vector_of(init[i].1->0) == before[k].1;
                assert(found[i] == init[i]);
            } else {
                assert(found[found.len() - 1].0 == all[k].0);
            }
        }
        if listed(all, id) {
            let k = choose|k: int| 0 <= k < all.len() && (#[trigger] all[k]).0 == id;
            assert(all[k].0 == id);
        }
        if exists|i: int| 0 <= i < found.len() && (#[trigger] found[i]).0 == id
            && found[i].1 is Some {
            let i = choose|i: int|
                0 <= i < found.len() && (#[trigger] found[i]).0 == id && found[i].1 is Some;
            if i < init.len() {
                assert(init[i] == found[i]);
                let k = choose|k: int| 0 <= k < before.len() && (#[trigger] before[k]).0 == id;
                assert(all[k] == before[k]);
            } else if listed(before, id) {
                let k = choose|k: int| 0 <= k < before.len() && (#[trigger] before[k]).0 == id;
                assert(all[k] == before[k]);
            } else {
                assert(all[all.len() - 1].0 == id);
            }
        }
    }
}

/// An embedding is found in the first row, with the model that made it, and not found where there
/// is no row.
pub proof fn law_embedding_is_found_in_the_first_row(rows: Seq<Seq<SqlView>>)
    ensures
        rows.len() == 0 ==> embedding_found(rows) == Ok::<
            Option<(Seq<char>, Seq<Measure>)>,
            ErrorView,
        >(None),
        rows.len() > 0 && rows[0].len() >= 2 && rows[0][0] is Text && rows[0][1] is Blob
            ==> embedding_found(rows) == Ok::<Option<(Seq<char>, Seq<Measure>)>, ErrorView>(
            Some((rows[0][0]->Text_0, vector_of(rows[0][1]->Blob_0))),
        ),
        rows.len() > 0 && !(rows[0].len() >= 2 && rows[0][0] is Text && rows[0][1] is Blob)
            ==> embedding_found(rows) is Err,
{
}

/// What is said of pairs is said of each of them, part by part.
pub proof fn law_pairs_are_seen_as_they_are(
    v: Seq<(String, String)>,
    w: Seq<(String, Vec<Measure>)>,
)
    ensures
        pairs_of(v).len() == v.len(),
        forall|i: int|
            0 <= i < v.len() ==> (#[trigger] pairs_of(v)[i]).0 == v[i].0@ && pairs_of(v)[i].1
                == v[i].1@,
        vectors_of(w).len() == w.len(),
        forall|i: int|
            0 <= i < w.len() ==> (#[trigger] vectors_of(w)[i]).0 == w[i].0@ && vectors_of(w)[i].1
                == w[i].1@,
{
}

/// What is said of stored vectors is said of each of them, with the identifier that it stands by.
pub proof fn law_blobs_are_seen_as_they_are(v: Seq<(String, Option<Vec<u8>>)>)
    ensures
        blobs_of(v).len() == v.len(),
        forall|i: int|
            0 <= i < v.len() ==> (#[trigger] blobs_of(v)[i]).0 == v[i].0@ && (blobs_of(v)[i].1
                is Some <==> v[i].1 is Some) && (v[i].1 is Some ==> blobs_of(v)[i].1->0 == (
            v[i].1->0)@),
{
}

} // verus!
