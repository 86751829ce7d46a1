//! The tables of a vault, as the statements of the library see them.
//!
//! A condition on a row has its text in a statement and its meaning side by side, and so has a
//! change of the tables. The laws of the other modules are stated over the meanings; their
//! contracts say that the statements are made of the texts.
use crate::measure::Measure;
use crate::sql::{plain_of, text_value, with1, SqlView, Statement, StatementView};
use crate::text::{concat, concat3, dictionary_le, lemma_dictionary_total};
use vstd::prelude::*;

verus! {

/// The strength below which an imagined engram is all but forgotten, by its bits: 0.05.
pub const FORGOTTEN_STRENGTH: u64 = 0x3fa9_9999_9999_999a;

/// A row of a table: its values by the names of the columns.
pub type Cells = Map<Seq<char>, SqlView>;

/// A table's name before the names of its columns, if there is one.
pub open spec fn qualified(qualifier: Seq<char>) -> Seq<char> {
    if qualifier.len() == 0 {
        Seq::empty()
    } else {
        qualifier + "."@
    }
}

fn qualify(qualifier: &str) -> (r: String)
    ensures
        r@ == qualified(qualifier@),
{
    if qualifier.is_empty() {
        String::new()
    } else {
        concat(qualifier, ".")
    }
}

/// A condition on a row of the table of engrams. Points in time are compared as texts with a
/// parameter.
#[derive(Debug, Clone, Copy, PartialEq, Eq, Structural)]
pub enum Condition {
    /// The row is not quarantined.
    Live,
    /// The row is imagined and not grounded.
    Quarantined,
    /// The row was made at the time or later.
    CreatedSince,
    /// The row was made before the time.
    CreatedBefore,
    /// The row was retrieved at the time or later.
    RetrievedSince,
    /// The row was not retrieved at the time or later.
    IdleSince,
    /// The row was modified after the time.
    ModifiedAfter,
    /// The row was never pushed, or was modified since.
    Unsynced,
    /// The row is an episode that is retrieved often.
    Familiar,
    /// The row is imagined and all but forgotten.
    Forgotten,
}

/// Whether a time comes before another, both as texts.
pub open spec fn earlier(a: Seq<char>, b: Seq<char>) -> bool {
    !dictionary_le(b, a)
}

/// Whether a row of the table of engrams is quarantined: imagined and not grounded.
pub open spec fn quarantined_row(row: Cells) -> bool {
    row["imagined"@] == SqlView::Integer(1) && row["grounded"@] == SqlView::Integer(0)
}

/// Whether the cells of a row that conditions look at are as the table declares them.
pub open spec fn typed_row(row: Cells) -> bool {
    &&& row["imagined"@] is Integer
    &&& row["grounded"@] is Integer
    &&& row["created_at"@] is Text
    &&& row["last_retrieved"@] is Text || row["last_retrieved"@] is Null
}

impl Condition {
    /// What the condition says of a row, given the time that it compares with.
    pub open spec fn holds(self, row: Cells, time: Seq<char>) -> bool {
        match self {
            Condition::Live => !quarantined_row(row),
            Condition::Quarantined => quarantined_row(row),
            Condition::CreatedSince => row["created_at"@] matches SqlView::Text(t) && !earlier(
                t,
                time,
            ),
            Condition::CreatedBefore => row["created_at"@] matches SqlView::Text(t) && earlier(
                t,
                time,
            ),
            Condition::RetrievedSince => row["last_retrieved"@] matches SqlView::Text(t)
                && !earlier(t, time),
            Condition::IdleSince => row["last_retrieved"@] is Null || (
            row["last_retrieved"@] matches SqlView::Text(t) && earlier(t, time)),
            Condition::ModifiedAfter => row["modified_at"@] matches SqlView::Text(t) && earlier(
                time,
                t,
            ),
            Condition::Unsynced => match (row["synced_at"@], row["modified_at"@]) {
                (SqlView::Null, _) => true,
                (SqlView::Text(pushed), SqlView::Text(modified)) => earlier(pushed, modified),
                _ => false,
            },
            Condition::Familiar => {
                &&& row["layer"@] == SqlView::Text("episodic"@)
                &&& row["retrievals"@] matches SqlView::Integer(n)
                &&& n >= 5
            },
            Condition::Forgotten => {
                &&& row["strength"@] matches SqlView::Real(m)
                &&& (Measure { bits: FORGOTTEN_STRENGTH }).exceeds(m)
                &&& row["imagined"@] == SqlView::Integer(1)
            },
        }
    }

    /// The condition as it stands in a statement, with the given name before the columns and the
    /// given parameter for the time.
    pub open spec fn text(self, qualifier: Seq<char>, time: Seq<char>) -> Seq<char> {
        let q = qualified(qualifier);
        match self {
            Condition::Live => "NOT ("@ + q + "imagined = 1 AND "@ + q + "grounded = 0)"@,
            Condition::Quarantined => q + "imagined = 1 AND "@ + q + "grounded = 0"@,
            Condition::CreatedSince => q + "created_at >= "@ + time,
            Condition::CreatedBefore => q + "created_at < "@ + time,
            Condition::RetrievedSince => q + "last_retrieved >= "@ + time,
            Condition::IdleSince => "("@ + q + "last_retrieved IS NULL OR "@ + q
                + "last_retrieved < "@ + time + ")"@,
            Condition::ModifiedAfter => q + "modified_at > "@ + time,
            Condition::Unsynced => "("@ + q + "synced_at IS NULL OR "@ + q + "modified_at > "@ + q
                + "synced_at)"@,
            Condition::Familiar => q + "layer = 'episodic' AND "@ + q + "retrievals >= 5"@,
            Condition::Forgotten => q + "strength < 0.05 AND "@ + q + "imagined = 1"@,
        }
    }

    /// The condition as it stands in a statement.
    pub fn sql(self, qualifier: &str, time: &str) -> (r: String)
        ensures
            r@ == self.text(qualifier@, time@),
    {
        let q = qualify(qualifier);
        match self {
            Condition::Live => {
                let head = concat3("NOT (", q.as_str(), "imagined = 1 AND ");
                concat3(head.as_str(), q.as_str(), "grounded = 0)")
            },
            Condition::Quarantined => {
                let head = concat(q.as_str(), "imagined = 1 AND ");
                concat3(head.as_str(), q.as_str(), "grounded = 0")
            },
            Condition::CreatedSince => concat3(q.as_str(), "created_at >= ", time),
            Condition::CreatedBefore => concat3(q.as_str(), "created_at < ", time),
            Condition::RetrievedSince => concat3(q.as_str(), "last_retrieved >= ", time),
            Condition::IdleSince => {
                let head = concat3("(", q.as_str(), "last_retrieved IS NULL OR ");
                let middle = concat3(head.as_str(), q.as_str(), "last_retrieved < ");
                concat3(middle.as_str(), time, ")")
            },
            Condition::ModifiedAfter => concat3(q.as_str(), "modified_at > ", time),
            Condition::Unsynced => {
                let head = concat3("(", q.as_str(), "synced_at IS NULL OR ");
                let middle = concat3(head.as_str(), q.as_str(), "modified_at > ");
                concat3(middle.as_str(), q.as_str(), "synced_at)")
            },
            Condition::Familiar => {
                let head = concat(q.as_str(), "layer = 'episodic' AND ");
                concat3(head.as_str(), q.as_str(), "retrievals >= 5")
            },
            Condition::Forgotten => {
                let head = concat(q.as_str(), "strength < 0.05 AND ");
                concat3(head.as_str(), q.as_str(), "imagined = 1")
            },
        }
    }
}

/// Whether a row meets all of some conditions.
pub open spec fn meets(row: Cells, conditions: Seq<Condition>, time: Seq<char>) -> bool {
    forall|i: int| 0 <= i < conditions.len() ==> (#[trigger] conditions[i]).holds(row, time)
}

/// Some conditions as they are appended to another one.
pub open spec fn appended(
    conditions: Seq<Condition>,
    qualifier: Seq<char>,
    time: Seq<char>,
) -> Seq<char>
    decreases conditions.len(),
{
    if conditions.len() == 0 {
        Seq::empty()
    } else {
        appended(conditions.drop_last(), qualifier, time) + " AND "@ + conditions.last().text(
            qualifier,
            time,
        )
    }
}

/// Some conditions as they are appended to another one.
pub fn append_sql(conditions: &Vec<Condition>, qualifier: &str, time: &str) -> (r: String)
    ensures
        r@ == appended(conditions@, qualifier@, time@),
{
    let mut out = String::new();
    let mut i: usize = 0;
    while i < conditions.len()
        invariant
            i <= conditions@.len(),
            out@ == appended(conditions@.take(i as int), qualifier@, time@),
        decreases conditions@.len() - i,
    {
        proof {
            assert(conditions@.take(i + 1).drop_last() =~= conditions@.take(i as int));
            assert(conditions@.take(i + 1).last() == conditions@[i as int]);
        }
        let next = conditions[i].sql(qualifier, time);
        out = concat3(out.as_str(), " AND ", next.as_str());
        i += 1;
    }
    proof {
        assert(conditions@.take(conditions@.len() as int) =~= conditions@);
    }
    out
}

/// Conditions come in pairs of which every row meets one and only one: live or quarantined, made
/// since a time or before it, retrieved since a time or idle.
pub proof fn law_conditions_are_complementary(row: Cells, time: Seq<char>)
    requires
        typed_row(row),
    ensures
        Condition::Live.holds(row, time) <==> !Condition::Quarantined.holds(row, time),
        Condition::CreatedSince.holds(row, time) <==> !Condition::CreatedBefore.holds(row, time),
        Condition::RetrievedSince.holds(row, time) <==> !Condition::IdleSince.holds(row, time),
{
}

/// How a query for engrams orders its rows.
#[derive(Debug, Clone, Copy, PartialEq, Eq, Structural)]
pub enum ByStrength {
    StrongestFirst,
    WeakestFirst,
}

impl ByStrength {
    /// The order as it stands in a statement.
    pub open spec fn text(self) -> Seq<char> {
        match self {
            ByStrength::StrongestFirst => "strength DESC"@,
            ByStrength::WeakestFirst => "strength ASC"@,
        }
    }

    /// The order as it stands in a statement.
    pub fn sql(self) -> (r: &'static str)
        ensures
            r@ == self.text(),
    {
        match self {
            ByStrength::StrongestFirst => "strength DESC",
            ByStrength::WeakestFirst => "strength ASC",
        }
    }

    /// Whether a row may stand before another.
    pub open spec fn admits(self, a: Cells, b: Cells) -> bool {
        match (self, a["strength"@], b["strength"@]) {
            (ByStrength::StrongestFirst, SqlView::Real(x), SqlView::Real(y)) => !y.exceeds(x),
            (ByStrength::WeakestFirst, SqlView::Real(x), SqlView::Real(y)) => !x.exceeds(y),
            _ => true,
        }
    }
}

/// How many rows meet some conditions.
pub open spec fn counted(rows: Seq<Cells>, conditions: Seq<Condition>, time: Seq<char>) -> nat
    decreases rows.len(),
{
    if rows.len() == 0 {
        0
    } else {
        counted(rows.drop_last(), conditions, time) + (if meets(rows.last(), conditions, time) {
            1nat
        } else {
            0nat
        })
    }
}

/// Whether `found` are the places of the rows that a query gives which asks for the rows that meet
/// some conditions, in an order, and no more than a limit: each place is there once, and what was
/// left out stands behind what was given.
pub open spec fn selects(
    rows: Seq<Cells>,
    conditions: Seq<Condition>,
    time: Seq<char>,
    order: ByStrength,
    limit: nat,
    found: Seq<int>,
) -> bool {
    &&& forall|i: int|
        0 <= i < found.len() ==> 0 <= #[trigger] found[i] < rows.len() && meets(
            rows[found[i]],
            conditions,
            time,
        )
    &&& forall|i: int, j: int|
        0 <= i < j < found.len() ==> #[trigger] found[i] != #[trigger] found[j] && order.admits(
            rows[found[i]],
            rows[found[j]],
        )
    &&& found.len() == if counted(rows, conditions, time) < limit {
        counted(rows, conditions, time)
    } else {
        limit
    }
    &&& forall|k: int, i: int|
        0 <= k < rows.len() && meets(#[trigger] rows[k], conditions, time) && !found.contains(k)
            && 0 <= i < found.len() ==> order.admits(rows[#[trigger] found[i]], rows[k])
}

/// Counts a retrieval.
pub const TOUCH: &'static str = "UPDATE engrams SET retrievals = retrievals + 1, last_retrieved = ?1 WHERE id = ?2";

/// Removes an engram from the text index.
pub const UNINDEX: &'static str = "DELETE FROM engrams_fts WHERE id = ?1";

/// Removes the row of an engram.
pub const DELETE: &'static str = "DELETE FROM engrams WHERE id = ?1";

/// Notes a deletion for replicas.
pub const BURY: &'static str = "INSERT OR REPLACE INTO tombstones (id, deleted_at) VALUES (?1, ?2)";

/// Marks an engram as modified.
pub const MODIFIED: &'static str = "UPDATE engrams SET modified_at = ?1 WHERE id = ?2";

/// Notes that an engram was pushed.
pub const SYNCED: &'static str = "UPDATE engrams SET synced_at = ?1 WHERE id = ?2";

/// Makes facts of the engrams that meet a condition.
pub const PROMOTE: &'static str = "UPDATE engrams SET layer = 'semantic', source = 'consolidation' WHERE ";

/// Removes the engrams that meet a condition from the text index.
pub const UNINDEX_ALL: &'static str = "DELETE FROM engrams_fts WHERE id IN (SELECT id FROM engrams WHERE ";

/// Notes the deletion of the engrams that meet a condition for replicas.
pub const BURY_ALL: &'static str = "INSERT OR REPLACE INTO tombstones (id, deleted_at) SELECT id, ?1 FROM engrams WHERE ";

/// Removes the rows of the engrams that meet a condition.
pub const DELETE_ALL: &'static str = "DELETE FROM engrams WHERE ";

/// Forgets what was pushed.
pub const RESET_SYNCED: &'static str = "UPDATE engrams SET synced_at = NULL";

/// What a vault holds: engrams, links and embeddings by their keys, the engrams in the text index,
/// and the deletions that replicas have yet to learn of.
#[verifier::ext_equal]
pub struct Tables {
    pub engrams: Map<Seq<char>, Cells>,
    pub indexed: Set<Seq<char>>,
    /// What is stored of a link, by the engrams that it goes from and to.
    pub links: Map<(Seq<char>, Seq<char>), Cells>,
    pub embeddings: Map<Seq<char>, Cells>,
    pub tombstones: Map<Seq<char>, Seq<char>>,
    /// Whether foreign keys act: what refers to a row goes with it.
    pub foreign_keys: bool,
}

/// A change of the tables that one statement makes.
#[verifier::ext_equal]
pub enum Change {
    /// Counts a retrieval of an engram.
    Touch { id: Seq<char>, at: Seq<char> },
    /// Removes an engram from the text index.
    Unindex { id: Seq<char> },
    /// Removes the row of an engram. The links from and to it and its embedding go with it.
    Delete { id: Seq<char> },
    /// Notes the deletion of an engram for replicas.
    Bury { id: Seq<char>, at: Seq<char> },
    /// Marks an engram as modified.
    Modify { id: Seq<char>, at: Seq<char> },
    /// Notes that an engram was pushed, with the time of modification that it was pushed with.
    MarkSynced { id: Seq<char>, at: Seq<char> },
    /// Forgets what was pushed.
    ResetSynced,
    /// Makes facts of episodes that are retrieved often.
    Promote,
    /// Removes the engrams that are all but forgotten from the text index.
    UnindexForgotten,
    /// Notes the deletion of the engrams that are all but forgotten for replicas.
    BuryForgotten { at: Seq<char> },
    /// Removes the rows of the engrams that are all but forgotten, with what refers to them.
    DeleteForgotten,
}

/// The engrams that meet a condition.
pub open spec fn meeting(t: Tables, condition: Condition) -> Set<Seq<char>> {
    Set::new(
        |id: Seq<char>|
            t.engrams.contains_key(id) && condition.holds(t.engrams[id], Seq::empty()),
    )
}

/// A row that is made a fact of if it is an episode that is retrieved often.
pub open spec fn promoted(row: Cells) -> Cells {
    if Condition::Familiar.holds(row, Seq::empty()) {
        row.insert("layer"@, SqlView::Text("semantic"@)).insert(
            "source"@,
            SqlView::Text("consolidation"@),
        )
    } else {
        row
    }
}

/// Rows with a cell set in one of them, if it is there.
pub open spec fn with_value(
    rows: Map<Seq<char>, Cells>,
    id: Seq<char>,
    name: Seq<char>,
    value: SqlView,
) -> Map<Seq<char>, Cells> {
    if rows.contains_key(id) {
        rows.insert(id, rows[id].insert(name, value))
    } else {
        rows
    }
}

/// A row with one more retrieval, at a time.
pub open spec fn retrieved(row: Cells, at: Seq<char>) -> Cells {
    row.insert(
        "retrievals"@,
        match row["retrievals"@] {
            SqlView::Integer(n) => SqlView::Integer((n + 1) as i64),
            other => other,
        },
    ).insert("last_retrieved"@, SqlView::Text(at))
}

impl Change {
    /// The statement that makes the change.
    pub open spec fn statement(self) -> StatementView {
        match self {
            Change::Touch { id, at } => StatementView {
                sql: TOUCH@,
                params: seq![SqlView::Text(at), SqlView::Text(id)],
            },
            Change::Unindex { id } => StatementView {
                sql: UNINDEX@,
                params: seq![SqlView::Text(id)],
            },
            Change::Delete { id } => StatementView {
                sql: DELETE@,
                params: seq![SqlView::Text(id)],
            },
            Change::Bury { id, at } => StatementView {
                sql: BURY@,
                params: seq![SqlView::Text(id), SqlView::Text(at)],
            },
            Change::Modify { id, at } => StatementView {
                sql: MODIFIED@,
                params: seq![SqlView::Text(at), SqlView::Text(id)],
            },
            Change::MarkSynced { id, at } => StatementView {
                sql: SYNCED@,
                params: seq![SqlView::Text(at), SqlView::Text(id)],
            },
            Change::ResetSynced => plain_of(RESET_SYNCED@),
            Change::Promote => plain_of(PROMOTE@ + Condition::Familiar.text(""@, ""@)),
            Change::UnindexForgotten => plain_of(
                UNINDEX_ALL@ + Condition::Forgotten.text(""@, ""@) + ")"@,
            ),
            Change::BuryForgotten { at } => StatementView {
                sql: BURY_ALL@ + Condition::Forgotten.text(""@, ""@),
                params: seq![SqlView::Text(at)],
            },
            Change::DeleteForgotten => plain_of(
                DELETE_ALL@ + Condition::Forgotten.text(""@, ""@),
            ),
        }
    }

    /// What the tables hold after the change.
    pub open spec fn applied(self, t: Tables) -> Tables {
        match self {
            Change::Touch { id, at } => Tables {
                engrams: if t.engrams.contains_key(id) {
                    t.engrams.insert(id, retrieved(t.engrams[id], at))
                } else {
                    t.engrams
                },
                ..t
            },
            Change::Unindex { id } => Tables { indexed: t.indexed.remove(id), ..t },
            Change::Delete { id } => Tables {
                engrams: t.engrams.remove(id),
                links: if t.foreign_keys {
                    t.links.remove_keys(
                        t.links.dom().filter(|k: (Seq<char>, Seq<char>)| k.0 == id || k.1 == id),
                    )
                } else {
                    t.links
                },
                embeddings: if t.foreign_keys {
                    t.embeddings.remove(id)
                } else {
                    t.embeddings
                },
                ..t
            },
            Change::Bury { id, at } => Tables { tombstones: t.tombstones.insert(id, at), ..t },
            Change::Modify { id, at } => Tables {
                engrams: with_value(t.engrams, id, "modified_at"@, SqlView::Text(at)),
                ..t
            },
            Change::MarkSynced { id, at } => Tables {
                engrams: with_value(t.engrams, id, "synced_at"@, SqlView::Text(at)),
                ..t
            },
            Change::ResetSynced => Tables {
                engrams: t.engrams.map_values(
                    |row: Cells| row.insert("synced_at"@, SqlView::Null),
                ),
                ..t
            },
            Change::Promote => Tables {
                engrams: t.engrams.map_values(|row: Cells| promoted(row)),
                ..t
            },
            Change::UnindexForgotten => Tables {
                indexed: t.indexed.difference(meeting(t, Condition::Forgotten)),
                ..t
            },
            Change::BuryForgotten { at } => Tables {
                tombstones: t.tombstones.union_prefer_right(
                    Map::new(
                        |id: Seq<char>| meeting(t, Condition::Forgotten).contains(id),
                        |id: Seq<char>| at,
                    ),
                ),
                ..t
            },
            Change::DeleteForgotten => {
                let gone = meeting(t, Condition::Forgotten);
                Tables {
                    engrams: t.engrams.remove_keys(gone),
                    links: if t.foreign_keys {
                        t.links.remove_keys(
                            t.links.dom().filter(
                                |k: (Seq<char>, Seq<char>)|
                                    gone.contains(k.0) || gone.contains(k.1),
                            ),
                        )
                    } else {
                        t.links
                    },
                    embeddings: if t.foreign_keys {
                        t.embeddings.remove_keys(gone)
                    } else {
                        t.embeddings
                    },
                    ..t
                }
            },
        }
    }
}

/// The statements that make some changes.
pub open spec fn statements_of(changes: Seq<Change>) -> Seq<StatementView> {
    changes.map_values(|c: Change| c.statement())
}

impl Tables {
    /// What the tables hold after some changes, one after another.
    pub open spec fn after(self, changes: Seq<Change>) -> Tables
        decreases changes.len(),
    {
        if changes.len() == 0 {
            self
        } else {
            changes.last().applied(self.after(changes.drop_last()))
        }
    }
}

/// Removes an engram from the text index.
pub fn unindex(id: &str) -> (r: Statement)
    ensures
        r@ == (Change::Unindex { id: id@ }).statement(),
{
    with1(UNINDEX, text_value(id))
}

/// The conditions on rows without a name before the columns read as follows.
pub proof fn law_conditions_read()
    ensures
        Condition::Live.text(""@, ""@) == "NOT (imagined = 1 AND grounded = 0)"@,
        Condition::Quarantined.text(""@, ""@) == "imagined = 1 AND grounded = 0"@,
        forall|time: Seq<char>| #[trigger]
            Condition::CreatedSince.text(""@, time) == "created_at >= "@ + time,
        forall|time: Seq<char>| #[trigger]
            Condition::CreatedBefore.text(""@, time) == "created_at < "@ + time,
        forall|time: Seq<char>| #[trigger]
            Condition::RetrievedSince.text(""@, time) == "last_retrieved >= "@ + time,
        forall|time: Seq<char>| #[trigger]
            Condition::IdleSince.text(""@, time)
                == "(last_retrieved IS NULL OR last_retrieved < "@ + time + ")"@,
        forall|time: Seq<char>| #[trigger]
            Condition::ModifiedAfter.text(""@, time) == "modified_at > "@ + time,
        Condition::Unsynced.text(""@, ""@) == "(synced_at IS NULL OR modified_at > synced_at)"@,
        Condition::Familiar.text(""@, ""@) == "layer = 'episodic' AND retrievals >= 5"@,
        Condition::Forgotten.text(""@, ""@) == "strength < 0.05 AND imagined = 1"@,
{
    reveal_strlit("");
    assert(qualified(""@) =~= Seq::empty());
    assert(Condition::Live.text(""@, ""@) == "NOT (imagined = 1 AND grounded = 0)"@) by {
        reveal_strlit("NOT (");
        reveal_strlit("imagined = 1 AND ");
        reveal_strlit("grounded = 0)");
        reveal_strlit("NOT (imagined = 1 AND grounded = 0)");
        assert(Condition::Live.text(""@, ""@) =~= "NOT (imagined = 1 AND grounded = 0)"@);
    }
    assert(Condition::Quarantined.text(""@, ""@) == "imagined = 1 AND grounded = 0"@) by {
        reveal_strlit("imagined = 1 AND ");
        reveal_strlit("grounded = 0");
        reveal_strlit("imagined = 1 AND grounded = 0");
        assert(Condition::Quarantined.text(""@, ""@) =~= "imagined = 1 AND grounded = 0"@);
    }
    assert forall|time: Seq<char>| #[trigger]
        Condition::CreatedSince.text(""@, time) == "created_at >= "@ + time by {
        assert(Condition::CreatedSince.text(""@, time) =~= "created_at >= "@ + time);
    }
    assert forall|time: Seq<char>| #[trigger]
        Condition::CreatedBefore.text(""@, time) == "created_at < "@ + time by {
        assert(Condition::CreatedBefore.text(""@, time) =~= "created_at < "@ + time);
    }
    assert forall|time: Seq<char>| #[trigger]
        Condition::RetrievedSince.text(""@, time) == "last_retrieved >= "@ + time by {
        assert(Condition::RetrievedSince.text(""@, time) =~= "last_retrieved >= "@ + time);
    }
    assert forall|time: Seq<char>| #[trigger]
        Condition::ModifiedAfter.text(""@, time) == "modified_at > "@ + time by {
        assert(Condition::ModifiedAfter.text(""@, time) =~= "modified_at > "@ + time);
    }
    assert forall|time: Seq<char>| #[trigger]
        Condition::IdleSince.text(""@, time) == "(last_retrieved IS NULL OR last_retrieved < "@
            + time + ")"@ by {
        reveal_strlit("(");
        reveal_strlit("last_retrieved IS NULL OR ");
        reveal_strlit("last_retrieved < ");
        reveal_strlit("(last_retrieved IS NULL OR last_retrieved < ");
        assert("("@ + Seq::<char>::empty() + "last_retrieved IS NULL OR "@ + Seq::<char>::empty()
            + "last_retrieved < "@ =~= "(last_retrieved IS NULL OR last_retrieved < "@);
    }
    assert(Condition::Unsynced.text(""@, ""@) == "(synced_at IS NULL OR modified_at > synced_at)"@)
        by {
        reveal_strlit("(");
        reveal_strlit("synced_at IS NULL OR ");
        reveal_strlit("modified_at > ");
        reveal_strlit("synced_at)");
        reveal_strlit("(synced_at IS NULL OR modified_at > synced_at)");
        assert(Condition::Unsynced.text(""@, ""@)
            =~= "(synced_at IS NULL OR modified_at > synced_at)"@);
    }
    assert(Condition::Familiar.text(""@, ""@) == "layer = 'episodic' AND retrievals >= 5"@) by {
        reveal_strlit("layer = 'episodic' AND ");
        reveal_strlit("retrievals >= 5");
        reveal_strlit("layer = 'episodic' AND retrievals >= 5");
        assert(Condition::Familiar.text(""@, ""@) =~= "layer = 'episodic' AND retrievals >= 5"@);
    }
    assert(Condition::Forgotten.text(""@, ""@) == "strength < 0.05 AND imagined = 1"@) by {
        reveal_strlit("strength < 0.05 AND ");
        reveal_strlit("imagined = 1");
        reveal_strlit("strength < 0.05 AND imagined = 1");
        assert(Condition::Forgotten.text(""@, ""@) =~= "strength < 0.05 AND imagined = 1"@);
    }
}

/// The changes of the tables are made by these statements.
pub proof fn law_changes_read(id: Seq<char>, at: Seq<char>)
    ensures
        (Change::Touch { id, at }).statement() == (StatementView {
            sql: "UPDATE engrams SET retrievals = retrievals + 1, last_retrieved = ?1 WHERE id = ?2"@,
            params: seq![SqlView::Text(at), SqlView::Text(id)],
        }),
        (Change::Unindex { id }).statement() == (StatementView {
            sql: "DELETE FROM engrams_fts WHERE id = ?1"@,
            params: seq![SqlView::Text(id)],
        }),
        (Change::Delete { id }).statement() == (StatementView {
            sql: "DELETE FROM engrams WHERE id = ?1"@,
            params: seq![SqlView::Text(id)],
        }),
        (Change::Bury { id, at }).statement() == (StatementView {
            sql: "INSERT OR REPLACE INTO tombstones (id, deleted_at) VALUES (?1, ?2)"@,
            params: seq![SqlView::Text(id), SqlView::Text(at)],
        }),
        (Change::Modify { id, at }).statement() == (StatementView {
            sql: "UPDATE engrams SET modified_at = ?1 WHERE id = ?2"@,
            params: seq![SqlView::Text(at), SqlView::Text(id)],
        }),
        (Change::MarkSynced { id, at }).statement() == (StatementView {
            sql: "UPDATE engrams SET synced_at = ?1 WHERE id = ?2"@,
            params: seq![SqlView::Text(at), SqlView::Text(id)],
        }),
        Change::ResetSynced.statement() == (StatementView {
            sql: "UPDATE engrams SET synced_at = NULL"@,
            params: Seq::empty(),
        }),
{
}

/// Times are compared as texts, in the order of the dictionary: one comes before another exactly
/// if the other does not come before it and is not the same.
pub proof fn law_times_are_compared_as_texts(a: Seq<char>, b: Seq<char>)
    ensures
        earlier(a, b) <==> dictionary_le(a, b) && a != b,
        !(earlier(a, b) && earlier(b, a)),
{
    lemma_dictionary_total(a, b);
}

/// Conditions are appended one behind the other, each of them, in their order.
pub proof fn law_every_condition_is_appended(
    conditions: Seq<Condition>,
    more: Condition,
    qualifier: Seq<char>,
    time: Seq<char>,
)
    ensures
        appended(Seq::empty(), qualifier, time).len() == 0,
        appended(conditions.push(more), qualifier, time) == appended(conditions, qualifier, time)
            + " AND "@ + more.text(qualifier, time),
{
    assert(conditions.push(more).drop_last() =~= conditions);
}

} // verus!
