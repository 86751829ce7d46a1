//! The daily and weekly care of a vault: strengthening, forgetting, promoting and pruning; and the
//! state of its character.
use crate::engram::{ConsolidationRun, RunView};
use crate::error::{EngramError, ErrorView};
use crate::measure::Measure;
use crate::rank::all_views;
use crate::rows::{opt_time_view, read_time, stored_opt_time, stored_time};
use crate::sql::{
    column, int_at, int_column, lemma_statements_push, limit_value, limit_view, opt_text_at,
    opt_text_column, opt_text_value, opt_text_view, plain, plain_of, real_at, real_column,
    row_views, statement_views, text_at, text_column, text_value, value_views, with1, with2, Row,
    SqlValue, SqlView, Statement, StatementView,
};
use crate::tables::{
    law_conditions_are_complementary, law_conditions_read, meeting, promoted, statements_of, typed_row, Cells, Change,
    Condition, Tables, BURY_ALL, DELETE_ALL, PROMOTE, UNINDEX_ALL,
};
use crate::text::{concat, concat3};
use crate::time::{
    law_days_are_counted_whole, law_later_points_lie_fewer_days_back, Timestamp, SECOND,
};
use vstd::prelude::*;

verus! {

/// Strengthens the engrams that meet a condition.
pub const STRENGTHEN: &'static str = "UPDATE engrams SET strength = MIN(2.0, strength + 0.15) WHERE ";

/// Reads what may fade of the engrams that meet a condition.
pub const IDLE: &'static str = "SELECT id, strength, retrievals, created_at, last_retrieved FROM engrams WHERE ";

/// Sets the strength of an engram.
pub const SET_STRENGTH: &'static str = "UPDATE engrams SET strength = ?1 WHERE id = ?2";

/// The state of the vault's character.
pub const COHERENCE: &'static str = "SELECT id, baseline_valence, character_strengths, purpose_vector, last_hygiene_daily, last_hygiene_weekly, drift_score, updated_at FROM coherence_state WHERE id = 1";

/// How many states of character there are.
pub const COHERENCE_COUNT: &'static str = "SELECT COUNT(*) FROM coherence_state";

/// Sets the state of the vault's character.
pub const SET_COHERENCE: &'static str = "UPDATE coherence_state SET baseline_valence = ?1, character_strengths = ?2, purpose_vector = ?3, last_hygiene_daily = ?4, last_hygiene_weekly = ?5, drift_score = ?6, updated_at = ?7 WHERE id = 1";

/// Makes the first state of the vault's character.
pub const FIRST_COHERENCE: &'static str = "INSERT INTO coherence_state (id, baseline_valence, character_strengths, purpose_vector, drift_score, updated_at) VALUES (1, 0.3, ?1, '[]', 0.0, ?2)";

/// Past consolidations, the latest first.
pub const RUNS: &'static str = "SELECT id, run_at, episodes_processed, semantics_created, engrams_decayed, notes FROM consolidation_runs ORDER BY run_at DESC LIMIT ?1";

/// Notes a consolidation.
pub const RECORD_RUN: &'static str = "INSERT INTO consolidation_runs (id, run_at, episodes_processed, semantics_created, engrams_decayed, notes) VALUES (?1, ?2, ?3, ?4, ?5, ?6)";

/// The time a day before another.
pub open spec fn day_before(now: Timestamp) -> Timestamp {
    Timestamp { secs: (now.secs - 86_400) as i64, nanos: now.nanos }
}

/// The statements that begin the daily care: one strengthens, the other reads what may fade.
pub struct DailyCare {
    pub strengthen: Statement,
    pub idle: Statement,
}

/// The statements that begin the daily care. They run in one transaction with those that
/// [`decay_statements`] makes.
pub fn apply_daily_hygiene(now: Timestamp) -> (r: DailyCare)
    requires
        now.wf(),
        now.secs >= 0,
        now.nanos < SECOND,
    ensures
        r.strengthen@ == (StatementView {
            sql: STRENGTHEN@ + Condition::RetrievedSince.text(""@, "?1"@),
            params: seq![SqlView::Text(day_before(now).text())],
        }),
        r.idle@ == (StatementView {
            sql: IDLE@ + Condition::IdleSince.text(""@, "?1"@),
            params: seq![SqlView::Text(day_before(now).text())],
        }),
{
    let cutoff = now.minus_days(1);
    let retrieved = Condition::RetrievedSince.sql("", "?1");
    let idle = Condition::IdleSince.sql("", "?1");
    DailyCare {
        strengthen: with1(
            concat(STRENGTHEN, retrieved.as_str()).as_str(),
            SqlValue::Text(cutoff.to_rfc3339()),
        ),
        idle: with1(concat(IDLE, idle.as_str()).as_str(), SqlValue::Text(cutoff.to_rfc3339())),
    }
}

/// The daily care either strengthens an engram or lets it fade, never both: the conditions of its
/// two statements are each the other's opposite.
pub proof fn law_care_strengthens_or_fades(row: Cells, cutoff: Seq<char>)
    requires
        typed_row(row),
    ensures
        Condition::RetrievedSince.holds(row, cutoff) <==> !Condition::IdleSince.holds(row, cutoff),
{
    law_conditions_are_complementary(row, cutoff);
}

/// An engram that may fade.
#[derive(Debug)]
pub struct Idle {
    pub id: String,
    pub strength: Measure,
    /// Whole days since it was retrieved, or made if it never was.
    pub days: u64,
    /// In how many days its strength falls to the e-th part.
    pub stability: i128,
}

/// An engram that may fade, as seen in contracts.
#[verifier::ext_equal]
pub struct IdleView {
    pub id: Seq<char>,
    pub strength: Measure,
    pub days: int,
    pub stability: int,
}

impl View for Idle {
    type V = IdleView;

    open spec fn view(&self) -> IdleView {
        IdleView {
            id: self.id@,
            strength: self.strength,
            days: self.days as int,
            stability: self.stability as int,
        }
    }
}

/// The whole number in a column, if it holds one.
pub open spec fn long_column(row: Seq<SqlView>, i: int) -> Option<i64> {
    match column(row, i) {
        SqlView::Integer(n) => Some(n),
        _ => None,
    }
}

fn long_at(row: &Row, i: usize) -> (r: Option<i64>)
    ensures
        r == long_column(value_views(row@), i as int),
{
    if i < row.len() {
        match &row[i] {
            SqlValue::Integer(n) => Some(*n),
            _ => None,
        }
    } else {
        None
    }
}

/// In how many days the strength of an engram falls to the e-th part: three for each retrieval and
/// three more.
pub open spec fn stability_of(retrievals: i64) -> int {
    3 * (retrievals + 1)
}

/// What is retrieved more often fades more slowly.
pub proof fn law_retrieval_steadies(fewer: i64, more: i64)
    requires
        fewer < more,
    ensures
        stability_of(fewer) < stability_of(more),
{
}

/// Whether a row holds an engram that may fade.
pub open spec fn idle_row(row: Seq<SqlView>) -> bool {
    &&& text_column(row, 0) is Some
    &&& real_column(row, 1) is Some
    &&& long_column(row, 2) is Some
    &&& text_column(row, 3) is Some
    &&& opt_text_column(row, 4) is Ok
}

/// When an engram was last retrieved, or made if that cannot be told; now if neither can.
pub open spec fn last_access(
    retrieved: Option<Seq<char>>,
    created: Seq<char>,
    now: Timestamp,
) -> Timestamp {
    match stored_opt_time(retrieved) {
        Some(t) => t,
        None => stored_time(created, now),
    }
}

/// The engram that a row holds.
pub open spec fn idle_in(row: Seq<SqlView>, now: Timestamp) -> IdleView {
    IdleView {
        id: text_column(row, 0)->0,
        strength: real_column(row, 1)->0,
        days: now.days_since_spec(
            last_access(opt_text_column(row, 4)->Ok_0, text_column(row, 3)->0, now),
        ),
        stability: stability_of(long_column(row, 2)->0),
    }
}

fn read_idle(row: &Row, now: Timestamp) -> (r: Option<Idle>)
    requires
        now.wf(),
    ensures
        match r {
            Some(x) => idle_row(value_views(row@)) && x@ == idle_in(value_views(row@), now),
            None => !idle_row(value_views(row@)),
        },
{
    let id = text_at(row, 0)?;
    let strength = real_at(row, 1)?;
    let retrievals: i64 = long_at(row, 2)?;
    let created = text_at(row, 3)?;
    let retrieved = match opt_text_at(row, 4) {
        Ok(s) => s,
        Err(_) => {
            return None;
        },
    };
    let known = match &retrieved {
        Some(s) => Timestamp::parse(s.as_str()),
        None => None,
    };
    let last = match known {
        Some(t) => t,
        None => read_time(created.as_str(), now),
    };
    let stability: i128 = 3 * (retrievals as i128 + 1);
    Some(Idle { id, strength, days: now.days_since(last), stability })
}

/// Whether all rows hold engrams that may fade.
pub open spec fn all_idle_rows(rows: Seq<Seq<SqlView>>) -> bool {
    forall|i: int| 0 <= i < rows.len() ==> idle_row(#[trigger] rows[i])
}

/// Reads the engrams that may fade. One row that holds none spoils the read.
pub fn rows_to_idle(rows: &Vec<Row>, now: Timestamp) -> (r: Result<Vec<Idle>, EngramError>)
    requires
        now.wf(),
    ensures
        match r {
            Ok(v) => {
                &&& all_idle_rows(row_views(rows@))
                &&& all_views(v@) == row_views(rows@).map_values(
                    |row: Seq<SqlView>| idle_in(row, now),
                )
            },
            Err(e) => !all_idle_rows(row_views(rows@)) && e@ == ErrorView::Database(
                "row is no engram"@,
            ),
        },
{
    let mut out: Vec<Idle> = Vec::new();
    let mut i: usize = 0;
    while i < rows.len()
        invariant
            i <= rows@.len(),
            now.wf(),
            out@.len() == i,
            forall|j: int| 0 <= j < i ==> idle_row(#[trigger] row_views(rows@)[j]),
            forall|j: int| 0 <= j < i ==> (#[trigger] out@[j])@ == idle_in(row_views(rows@)[j], now),
        decreases rows@.len() - i,
    {
        proof {
            assert(row_views(rows@)[i as int] == value_views(rows@[i as int]@));
        }
        match read_idle(&rows[i], now) {
            Some(x) => {
                out.push(x);
            },
            None => {
                return Err(EngramError::Database("row is no engram".to_string()));
            },
        }
        i += 1;
    }
    proof {
        assert(all_views(out@) =~= row_views(rows@).map_values(
            |row: Seq<SqlView>| idle_in(row, now),
        ));
    }
    Ok(out)
}

/// Sets the strengths that changed.
pub open spec fn strength_statements(
    list: Seq<IdleView>,
    strengths: Seq<Option<Measure>>,
) -> Seq<StatementView>
    decreases list.len(),
{
    if list.len() == 0 {
        Seq::empty()
    } else {
        let before = strength_statements(list.drop_last(), strengths);
        match strengths[list.len() - 1] {
            Some(s) => before.push(
                StatementView {
                    sql: SET_STRENGTH@,
                    params: seq![SqlView::Real(s), SqlView::Text(list.last().id)],
                },
            ),
            None => before,
        }
    }
}

/// Sets the strengths that changed, given the new one of each engram that may fade, where it
/// changed. The number of engrams that faded is that of the statements.
pub fn decay_statements(list: &Vec<Idle>, strengths: &Vec<Option<Measure>>) -> (r: Vec<Statement>)
    requires
        list@.len() == strengths@.len(),
    ensures
        statement_views(r@) == strength_statements(all_views(list@), strengths@),
{
    let ghost all = all_views(list@);
    let mut out: Vec<Statement> = Vec::new();
    let mut i: usize = 0;
    assert(statement_views(out@) =~= Seq::empty());
    while i < list.len()
        invariant
            i <= list@.len(),
            list@.len() == strengths@.len(),
            all == all_views(list@),
            statement_views(out@) == strength_statements(all.take(i as int), strengths@),
        decreases list@.len() - i,
    {
        proof {
            assert(all.take(i + 1).drop_last() =~= all.take(i as int));
            assert(all.take(i + 1).last() == list@[i as int]@);
        }
        if let Some(s) = strengths[i] {
            let next = with2(SET_STRENGTH, SqlValue::Real(s), text_value(list[i].id.as_str()));
            proof {
                lemma_statements_push(out@, next);
            }
            out.push(next);
        }
        i += 1;
    }
    proof {
        assert(all.take(all.len() as int) =~= all);
    }
    out
}

/// The weekly care: often retrieved episodes become facts; imagined engrams that are all but
/// forgotten leave the text index, are noted for replicas, and go.
pub open spec fn weekly_changes(now: Timestamp) -> Seq<Change> {
    seq![
        Change::Promote,
        Change::UnindexForgotten,
        Change::BuryForgotten { at: now.text() },
        Change::DeleteForgotten,
    ]
}

/// The weekly care, in one transaction. The first statement changes the rows that are promoted,
/// the last one those that are pruned.
pub fn apply_weekly_consolidation(now: Timestamp) -> (r: Vec<Statement>)
    requires
        now.wf(),
    ensures
        statement_views(r@) == statements_of(weekly_changes(now)),
{
    let familiar = Condition::Familiar.sql("", "");
    let forgotten = Condition::Forgotten.sql("", "");
    let promote = concat(PROMOTE, familiar.as_str());
    let index = concat3(UNINDEX_ALL, forgotten.as_str(), ")");
    let bury = concat(BURY_ALL, forgotten.as_str());
    let prune = concat(DELETE_ALL, forgotten.as_str());
    let mut v: Vec<Statement> = Vec::new();
    v.push(plain(promote.as_str()));
    v.push(plain(index.as_str()));
    v.push(with1(bury.as_str(), SqlValue::Text(now.to_rfc3339())));
    v.push(plain(prune.as_str()));
    assert(statement_views(v@) =~= statements_of(weekly_changes(now)));
    v
}

proof fn lemma_promotion_keeps_strength(row: Cells)
    ensures
        promoted(row)["strength"@] == row["strength"@],
        promoted(row)["imagined"@] == row["imagined"@],
        Condition::Forgotten.holds(promoted(row), Seq::empty()) == Condition::Forgotten.holds(
            row,
            Seq::empty(),
        ),
{
    reveal_strlit("layer");
    reveal_strlit("source");
    reveal_strlit("strength");
    reveal_strlit("imagined");
    assert("layer"@.len() == 5);
    assert("source"@.len() == 6);
    assert("strength"@.len() == 8);
    assert("imagined"@.len() == 8);
}

/// The weekly care loses only imagined memories that are all but forgotten, and replicas learn of
/// each: it leaves no row, no place in the text index, no link and no embedding of such a memory,
/// but a tombstone. Every other memory stays; an episode that is retrieved often becomes a fact.
pub proof fn law_weekly_care_prunes_only_what_is_forgotten(
    t: Tables,
    now: Timestamp,
    id: Seq<char>,
    other: Seq<char>,
)
    requires
        t.foreign_keys,
        t.engrams.contains_key(id),
    ensures
        ({
            let u = t.after(weekly_changes(now));
            if Condition::Forgotten.holds(t.engrams[id], Seq::empty()) {
                &&& !u.engrams.contains_key(id)
                &&& !u.indexed.contains(id)
                &&& !u.links.contains_key((id, other))
                &&& !u.links.contains_key((other, id))
                &&& !u.embeddings.contains_key(id)
                &&& u.tombstones.contains_key(id)
                &&& u.tombstones[id] == now.text()
            } else {
                &&& u.engrams.contains_key(id)
                &&& u.engrams[id] == promoted(t.engrams[id])
                &&& u.indexed.contains(id) == t.indexed.contains(id)
                &&& u.tombstones.contains_key(id) == t.tombstones.contains_key(id)
            }
        }),
{
    let list = weekly_changes(now);
    reveal_with_fuel(Tables::after, 5);
    assert(list.drop_last() =~= seq![
        Change::Promote,
        Change::UnindexForgotten,
        Change::BuryForgotten { at: now.text() },
    ]);
    assert(list.drop_last().drop_last() =~= seq![Change::Promote, Change::UnindexForgotten]);
    assert(list.drop_last().drop_last().drop_last() =~= seq![Change::Promote]);
    assert(list.drop_last().drop_last().drop_last().drop_last() =~= Seq::<Change>::empty());
    let a = Change::Promote.applied(t);
    let b = Change::UnindexForgotten.applied(a);
    let c = (Change::BuryForgotten { at: now.text() }).applied(b);
    let u = Change::DeleteForgotten.applied(c);
    assert(t.after(list) == u);
    assert(a.engrams[id] == promoted(t.engrams[id]));
    lemma_promotion_keeps_strength(t.engrams[id]);
    assert(b.engrams == a.engrams && c.engrams == a.engrams);
    let gone = Condition::Forgotten.holds(t.engrams[id], Seq::empty());
    assert(meeting(a, Condition::Forgotten).contains(id) == gone);
    assert(meeting(b, Condition::Forgotten).contains(id) == gone);
    assert(meeting(c, Condition::Forgotten).contains(id) == gone);
}

/// The state of the vault's character as it is stored: the strengths and the purpose as JSON.
#[derive(Debug)]
pub struct CoherenceRecord {
    pub id: i32,
    pub baseline_valence: Measure,
    pub character_strengths: String,
    pub purpose_vector: String,
    pub last_hygiene_daily: Option<Timestamp>,
    pub last_hygiene_weekly: Option<Timestamp>,
    pub drift_score: Measure,
    pub updated_at: Timestamp,
}

/// The stored state of the vault's character, as seen in contracts.
#[verifier::ext_equal]
pub struct CoherenceView {
    pub id: i32,
    pub baseline_valence: Measure,
    pub character_strengths: Seq<char>,
    pub purpose_vector: Seq<char>,
    pub last_hygiene_daily: Option<Timestamp>,
    pub last_hygiene_weekly: Option<Timestamp>,
    pub drift_score: Measure,
    pub updated_at: Timestamp,
}

impl View for CoherenceRecord {
    type V = CoherenceView;

    open spec fn view(&self) -> CoherenceView {
        CoherenceView {
            id: self.id,
            baseline_valence: self.baseline_valence,
            character_strengths: self.character_strengths@,
            purpose_vector: self.purpose_vector@,
            last_hygiene_daily: self.last_hygiene_daily,
            last_hygiene_weekly: self.last_hygiene_weekly,
            drift_score: self.drift_score,
            updated_at: self.updated_at,
        }
    }
}

/// The query for the state of the vault's character.
pub fn get_coherence() -> (r: Statement)
    ensures
        r@ == plain_of(COHERENCE@),
{
    plain(COHERENCE)
}

/// Whether a row holds the state of the vault's character.
pub open spec fn coherence_row(row: Seq<SqlView>) -> bool {
    &&& int_column(row, 0) is Some
    &&& real_column(row, 1) is Some
    &&& text_column(row, 2) is Some
    &&& text_column(row, 3) is Some
    &&& opt_text_column(row, 4) is Ok
    &&& opt_text_column(row, 5) is Ok
    &&& real_column(row, 6) is Some
    &&& text_column(row, 7) is Some
}

/// The state that a row holds.
pub open spec fn coherence_in(row: Seq<SqlView>, now: Timestamp) -> CoherenceView {
    CoherenceView {
        id: int_column(row, 0)->0,
        baseline_valence: real_column(row, 1)->0,
        character_strengths: text_column(row, 2)->0,
        purpose_vector: text_column(row, 3)->0,
        last_hygiene_daily: stored_opt_time(opt_text_column(row, 4)->Ok_0),
        last_hygiene_weekly: stored_opt_time(opt_text_column(row, 5)->Ok_0),
        drift_score: real_column(row, 6)->0,
        updated_at: stored_time(text_column(row, 7)->0, now),
    }
}

fn read_coherence(row: &Row, now: Timestamp) -> (r: Option<CoherenceRecord>)
    ensures
        match r {
            Some(x) => coherence_row(value_views(row@)) && x@ == coherence_in(
                value_views(row@),
                now,
            ),
            None => !coherence_row(value_views(row@)),
        },
{
    let id: i32 = int_at(row, 0)?;
    let baseline_valence = real_at(row, 1)?;
    let character_strengths = text_at(row, 2)?;
    let purpose_vector = text_at(row, 3)?;
    let daily = match opt_text_at(row, 4) {
        Ok(s) => s,
        Err(_) => {
            return None;
        },
    };
    let weekly = match opt_text_at(row, 5) {
        Ok(s) => s,
        Err(_) => {
            return None;
        },
    };
    let drift_score = real_at(row, 6)?;
    let updated = text_at(row, 7)?;
    let last_hygiene_daily = match &daily {
        Some(s) => Timestamp::parse(s.as_str()),
        None => None,
    };
    let last_hygiene_weekly = match &weekly {
        Some(s) => Timestamp::parse(s.as_str()),
        None => None,
    };
    Some(
        CoherenceRecord {
            id,
            baseline_valence,
            character_strengths,
            purpose_vector,
            last_hygiene_daily,
            last_hygiene_weekly,
            drift_score,
            updated_at: read_time(updated.as_str(), now),
        },
    )
}

/// The state of the vault's character in the first row. Where there is none it is not found.
pub fn rows_to_coherence(rows: &Vec<Row>, now: Timestamp) -> (r: Result<
    CoherenceRecord,
    EngramError,
>)
    ensures
        match r {
            Ok(x) => {
                &&& rows@.len() > 0
                &&& coherence_row(row_views(rows@)[0])
                &&& x@ == coherence_in(row_views(rows@)[0], now)
            },
            Err(e) => {
                ||| rows@.len() == 0 && e@ == ErrorView::NotFound("Query returned no rows"@)
                ||| rows@.len() > 0 && !coherence_row(row_views(rows@)[0]) && e@
                    == ErrorView::NotFound("row is no coherence state"@)
            },
        },
{
    if rows.len() == 0 {
        return Err(EngramError::NotFound("Query returned no rows".to_string()));
    }
    proof {
        assert(row_views(rows@)[0] == value_views(rows@[0]@));
    }
    match read_coherence(&rows[0], now) {
        Some(x) => Ok(x),
        None => Err(EngramError::NotFound("row is no coherence state".to_string())),
    }
}

/// The times of a state that is stored lie in the calendar.
pub open spec fn coherence_times_wf(c: CoherenceView) -> bool {
    &&& c.last_hygiene_daily matches Some(t) ==> t.wf()
    &&& c.last_hygiene_weekly matches Some(t) ==> t.wf()
}

fn opt_time_value(t: Option<Timestamp>) -> (r: SqlValue)
    requires
        t matches Some(x) ==> x.wf(),
    ensures
        r@ == opt_time_view(t),
{
    match t {
        Some(x) => SqlValue::Text(x.to_rfc3339()),
        None => SqlValue::Null,
    }
}

/// Sets the state of the vault's character, as of now.
pub open spec fn coherence_statement(c: CoherenceView, now: Timestamp) -> StatementView {
    StatementView {
        sql: SET_COHERENCE@,
        params: seq![
            SqlView::Real(c.baseline_valence),
            SqlView::Text(c.character_strengths),
            SqlView::Text(c.purpose_vector),
            opt_time_view(c.last_hygiene_daily),
            opt_time_view(c.last_hygiene_weekly),
            SqlView::Real(c.drift_score),
            SqlView::Text(now.text()),
        ],
    }
}

/// Sets the state of the vault's character, as of now.
pub fn update_coherence(state: &CoherenceRecord, now: Timestamp) -> (r: Statement)
    requires
        coherence_times_wf(state@),
        now.wf(),
    ensures
        r@ == coherence_statement(state@, now),
{
    let mut params: Vec<SqlValue> = Vec::new();
    params.push(SqlValue::Real(state.baseline_valence));
    params.push(text_value(state.character_strengths.as_str()));
    params.push(text_value(state.purpose_vector.as_str()));
    params.push(opt_time_value(state.last_hygiene_daily));
    params.push(opt_time_value(state.last_hygiene_weekly));
    params.push(SqlValue::Real(state.drift_score));
    params.push(SqlValue::Text(now.to_rfc3339()));
    let r = Statement { sql: SET_COHERENCE.to_string(), params };
    assert(r@.params =~= coherence_statement(state@, now).params);
    r
}

/// The first state of the vault's character, made where there is none.
pub fn first_coherence(present: i64, character: &str, now: Timestamp) -> (r: Option<Statement>)
    requires
        now.wf(),
    ensures
        present != 0 <==> r is None,
        r is Some ==> r->0@ == (StatementView {
            sql: FIRST_COHERENCE@,
            params: seq![SqlView::Text(character@), SqlView::Text(now.text())],
        }),
{
    if present == 0 {
        Some(with2(FIRST_COHERENCE, text_value(character), SqlValue::Text(now.to_rfc3339())))
    } else {
        None
    }
}

/// The query for past consolidations.
pub fn get_consolidation_history(limit: usize) -> (r: Statement)
    ensures
        r@ == (StatementView { sql: RUNS@, params: seq![limit_view(limit)] }),
{
    with1(RUNS, limit_value(limit))
}

/// The optional number in a column: nothing where it is null, an error where it holds something
/// else.
pub open spec fn opt_int_column(row: Seq<SqlView>, i: int) -> Result<Option<i32>, ()> {
    match column(row, i) {
        SqlView::Null if 0 <= i < row.len() => Ok(None),
        _ => match int_column(row, i) {
            Some(n) => Ok(Some(n)),
            None => Err(()),
        },
    }
}

fn opt_int_at(row: &Row, i: usize) -> (r: Result<Option<i32>, ()>)
    ensures
        r == opt_int_column(value_views(row@), i as int),
{
    if i < row.len() {
        if let SqlValue::Null = &row[i] {
            return Ok(None);
        }
    }
    match int_at(row, i) {
        Some(n) => Ok(Some(n)),
        None => Err(()),
    }
}

/// Whether a row holds a past consolidation.
pub open spec fn run_row(row: Seq<SqlView>) -> bool {
    &&& text_column(row, 0) is Some
    &&& text_column(row, 1) is Some
    &&& opt_int_column(row, 2) is Ok
    &&& opt_int_column(row, 3) is Ok
    &&& opt_int_column(row, 4) is Ok
    &&& opt_text_column(row, 5) is Ok
}

/// The consolidation that a row holds.
pub open spec fn run_in(row: Seq<SqlView>, now: Timestamp) -> RunView {
    RunView {
        id: text_column(row, 0)->0,
        run_at: stored_time(text_column(row, 1)->0, now),
        episodes_processed: opt_int_column(row, 2)->Ok_0,
        semantics_created: opt_int_column(row, 3)->Ok_0,
        engrams_decayed: opt_int_column(row, 4)->Ok_0,
        notes: opt_text_column(row, 5)->Ok_0,
    }
}

fn read_run(row: &Row, now: Timestamp) -> (r: Option<ConsolidationRun>)
    ensures
        match r {
            Some(x) => run_row(value_views(row@)) && x@ == run_in(value_views(row@), now),
            None => !run_row(value_views(row@)),
        },
{
    let id = text_at(row, 0)?;
    let at = text_at(row, 1)?;
    let episodes_processed = match opt_int_at(row, 2) {
        Ok(n) => n,
        Err(_) => {
            return None;
        },
    };
    let semantics_created = match opt_int_at(row, 3) {
        Ok(n) => n,
        Err(_) => {
            return None;
        },
    };
    let engrams_decayed = match opt_int_at(row, 4) {
        Ok(n) => n,
        Err(_) => {
            return None;
        },
    };
    let notes = match opt_text_at(row, 5) {
        Ok(s) => s,
        Err(_) => {
            return None;
        },
    };
    Some(
        ConsolidationRun {
            id,
            run_at: read_time(at.as_str(), now),
            episodes_processed,
            semantics_created,
            engrams_decayed,
            notes,
        },
    )
}

/// The consolidations in rows; a row that holds none is passed over.
pub open spec fn runs_in(rows: Seq<Seq<SqlView>>, now: Timestamp) -> Seq<RunView>
    decreases rows.len(),
{
    if rows.len() == 0 {
        Seq::empty()
    } else {
        let before = runs_in(rows.drop_last(), now);
        if run_row(rows.last()) {
            before.push(run_in(rows.last(), now))
        } else {
            before
        }
    }
}

/// Reads past consolidations.
pub fn rows_to_runs(rows: &Vec<Row>, now: Timestamp) -> (r: Vec<ConsolidationRun>)
    ensures
        all_views(r@) == runs_in(row_views(rows@), now),
{
    let ghost all = row_views(rows@);
    let mut out: Vec<ConsolidationRun> = Vec::new();
    let mut i: usize = 0;
    assert(all_views(out@) =~= Seq::empty());
    while i < rows.len()
        invariant
            i <= rows@.len(),
            all == row_views(rows@),
            all_views(out@) == runs_in(all.take(i as int), now),
        decreases rows@.len() - i,
    {
        proof {
            assert(all[i as int] == value_views(rows@[i as int]@));
            assert(all.take(i + 1).drop_last() =~= all.take(i as int));
            assert(all.take(i + 1).last() == all[i as int]);
        }
        if let Some(x) = read_run(&rows[i], now) {
            let ghost before = out@;
            out.push(x);
            assert(all_views(out@) =~= all_views(before).push(x@));
        }
        i += 1;
    }
    proof {
        assert(all.take(all.len() as int) =~= all);
    }
    out
}

/// An optional number: null where there is none.
pub open spec fn opt_int_view(n: Option<i32>) -> SqlView {
    match n {
        Some(x) => SqlView::Integer(x as i64),
        None => SqlView::Null,
    }
}

fn opt_int_value(n: Option<i32>) -> (r: SqlValue)
    ensures
        r@ == opt_int_view(n),
{
    match n {
        Some(x) => SqlValue::Integer(x as i64),
        None => SqlValue::Null,
    }
}

/// Notes a consolidation.
pub open spec fn run_statement(run: RunView) -> StatementView {
    StatementView {
        sql: RECORD_RUN@,
        params: seq![
            SqlView::Text(run.id),
            SqlView::Text(run.run_at.text()),
            opt_int_view(run.episodes_processed),
            opt_int_view(run.semantics_created),
            opt_int_view(run.engrams_decayed),
            opt_text_view(run.notes),
        ],
    }
}

/// Notes a consolidation. It reads back as it was noted, if its year has four digits.
pub fn record_consolidation_run(run: &ConsolidationRun) -> (r: Statement)
    requires
        run.run_at.wf(),
    ensures
        r@ == run_statement(run@),
        run.run_at.four_digit_year() ==> forall|now: Timestamp|
            run_row(r@.params) && #[trigger] run_in(r@.params, now) == run@,
{
    let mut params: Vec<SqlValue> = Vec::new();
    params.push(text_value(run.id.as_str()));
    params.push(SqlValue::Text(run.run_at.to_rfc3339()));
    params.push(opt_int_value(run.episodes_processed));
    params.push(opt_int_value(run.semantics_created));
    params.push(opt_int_value(run.engrams_decayed));
    params.push(opt_text_value(&run.notes));
    let r = Statement { sql: RECORD_RUN.to_string(), params };
    assert(r@.params =~= run_statement(run@).params);
    r
}

/// How long an engram has been idle counts from its last retrieval, whatever its creation says;
/// from its creation only where no retrieval can be told, and not at all where neither can.
pub proof fn law_idle_days_count_from_the_last_retrieval(row: Seq<SqlView>, now: Timestamp)
    requires
        row.len() == 5,
        row[3] is Text,
        row[4] is Text || row[4] is Null,
        now.nanos < SECOND,
    ensures
        ({
            let days = idle_in(row, now).days;
            let retrieved = match row[4] {
                SqlView::Text(s) => Timestamp::parsed(s),
                _ => None,
            };
            let from = match retrieved {
                Some(t) => Some(t),
                None => Timestamp::parsed(row[3]->Text_0),
            };
            match from {
                Some(t) => {
                    let passed = (now.secs - t.secs) * 1_000_000_000 + (now.nanos - t.nanos);
                    &&& days == now.days_since_spec(t)
                    &&& t.nanos < SECOND && passed >= 0 ==> days * 86_400_000_000_000 <= passed
                        < (days + 1) * 86_400_000_000_000
                    &&& t.nanos < SECOND && passed < 0 ==> days == 0
                },
                None => days == 0,
            }
        }),
{
    let retrieved = match row[4] {
        SqlView::Text(s) => Timestamp::parsed(s),
        _ => None,
    };
    let from = match retrieved {
        Some(t) => Some(t),
        None => Timestamp::parsed(row[3]->Text_0),
    };
    if from is Some && from->0.nanos < SECOND {
        law_days_are_counted_whole(now, from->0);
    }
    law_days_are_counted_whole(now, now);
}

/// A later retrieval never makes an engram fade more: of two engrams that are otherwise alike, the
/// one that was retrieved later has been idle no longer.
pub proof fn law_later_retrieval_fades_no_more(
    row: Seq<SqlView>,
    now: Timestamp,
    early: Seq<char>,
    late: Seq<char>,
)
    requires
        row.len() == 5,
        row[3] is Text,
        now.nanos < SECOND,
        Timestamp::parsed(early) is Some,
        Timestamp::parsed(late) is Some,
        Timestamp::parsed(early)->0.nanos < SECOND,
        Timestamp::parsed(late)->0.nanos < SECOND,
        !Timestamp::parsed(early)->0.after(Timestamp::parsed(late)->0),
    ensures
        idle_in(row.update(4, SqlView::Text(late)), now).days <= idle_in(
            row.update(4, SqlView::Text(early)),
            now,
        ).days,
{
    law_later_points_lie_fewer_days_back(
        now,
        Timestamp::parsed(early)->0,
        Timestamp::parsed(late)->0,
    );
}

/// An idle engram is read as it is stored: its identifier, its strength, and three days of
/// stability for each retrieval and three more.
pub proof fn law_idle_engram_is_read_as_stored(row: Seq<SqlView>, now: Timestamp)
    requires
        idle_row(row),
    ensures
        row.len() >= 5,
        row[0] == SqlView::Text(idle_in(row, now).id),
        real_column(row, 1) == Some(idle_in(row, now).strength),
        row[2] is Integer,
        idle_in(row, now).stability == 3 * (row[2]->Integer_0 + 1),
{
}

/// The daily care looks back exactly one day.
pub proof fn law_daily_care_looks_back_one_day(now: Timestamp)
    requires
        now.secs >= 0,
        now.nanos < SECOND,
    ensures
        now.days_since_spec(day_before(now)) == 1,
        day_before(now).secs == now.secs - 86_400,
        day_before(now).nanos == now.nanos,
{
    law_days_are_counted_whole(now, day_before(now));
}

/// How many strengths changed.
pub open spec fn changed(strengths: Seq<Option<Measure>>) -> nat
    decreases strengths.len(),
{
    if strengths.len() == 0 {
        0
    } else {
        changed(strengths.drop_last()) + (if strengths.last() is Some {
            1nat
        } else {
            0nat
        })
    }
}

/// Every engram whose strength changed has it set to the new one, under its own identifier; no
/// other strength is touched, and there is one statement for each change.
pub proof fn law_changed_strengths_are_set(
    list: Seq<IdleView>,
    strengths: Seq<Option<Measure>>,
)
    requires
        list.len() == strengths.len(),
    ensures
        strength_statements(list, strengths).len() == changed(strengths),
        forall|i: int|
            0 <= i < list.len() && (#[trigger] strengths[i]) is Some ==> strength_statements(
                list,
                strengths,
            ).contains(
                StatementView {
                    sql: "UPDATE engrams SET strength = ?1 WHERE id = ?2"@,
                    params: seq![SqlView::Real(strengths[i]->0), SqlView::Text(list[i].id)],
                },
            ),
    decreases list.len(),
{
    if list.len() > 0 {
        let n = list.len() - 1;
        lemma_strength_statements_prefix(list.drop_last(), strengths, strengths.drop_last());
        law_changed_strengths_are_set(list.drop_last(), strengths.drop_last());
        let before = strength_statements(list.drop_last(), strengths.drop_last());
        let all = strength_statements(list, strengths);
        assert forall|i: int| 0 <= i < list.len() && (
        #[trigger] strengths[i]) is Some implies all.contains(
            StatementView {
                sql: "UPDATE engrams SET strength = ?1 WHERE id = ?2"@,
                params: seq![SqlView::Real(strengths[i]->0), SqlView::Text(list[i].id)],
            },
        ) by {
            let x = StatementView {
                sql: "UPDATE engrams SET strength = ?1 WHERE id = ?2"@,
                params: seq![SqlView::Real(strengths[i]->0), SqlView::Text(list[i].id)],
            };
            if i < n {
                assert(strengths.drop_last()[i] == strengths[i]);
                assert(before.contains(x));
                let k = choose|k: int| 0 <= k < before.len() && before[k] == x;
                assert(all[k] == x);
            } else {
                assert(all[all.len() - 1] == x);
            }
        }
    }
}

proof fn lemma_strength_statements_prefix(
    list: Seq<IdleView>,
    a: Seq<Option<Measure>>,
    b: Seq<Option<Measure>>,
)
    requires
        list.len() <= a.len(),
        list.len() <= b.len(),
        forall|i: int| 0 <= i < list.len() ==> a[i] == b[i],
    ensures
        strength_statements(list, a) == strength_statements(list, b),
    decreases list.len(),
{
    if list.len() > 0 {
        lemma_strength_statements_prefix(list.drop_last(), a, b);
    }
}

/// The weekly care by what a row holds: an imagined memory with a strength below 0.05 goes; of the
/// others, an episode of five retrievals or more becomes a fact that consolidation made, with all
/// else unchanged, and every other memory stays as it was.
pub proof fn law_weekly_care_by_what_a_row_holds(t: Tables, now: Timestamp, id: Seq<char>)
    requires
        t.foreign_keys,
        t.engrams.contains_key(id),
    ensures
        ({
            let row = t.engrams[id];
            let u = t.after(weekly_changes(now));
            let weak = row["strength"@] is Real && !row["strength"@]->Real_0.nan()
                && row["strength"@]->Real_0.rank() < 0x3fa9_9999_9999_999a;
            if weak && row["imagined"@] == SqlView::Integer(1) {
                &&& !u.engrams.contains_key(id)
                &&& u.tombstones.contains_key(id)
            } else if row["layer"@] == SqlView::Text("episodic"@) && row["retrievals"@] is Integer
                && row["retrievals"@]->Integer_0 >= 5 {
                &&& u.engrams.contains_key(id)
                &&& u.engrams[id]["layer"@] == SqlView::Text("semantic"@)
                &&& u.engrams[id]["source"@] == SqlView::Text("consolidation"@)
                &&& forall|name: Seq<char>|
                    name != "layer"@ && name != "source"@ ==> #[trigger] u.engrams[id][name]
                        == row[name]
            } else {
                &&& u.engrams.contains_key(id)
                &&& u.engrams[id] == row
            }
        }),
{
    law_weekly_care_prunes_only_what_is_forgotten(t, now, id, id);
    reveal_strlit("layer");
    reveal_strlit("source");
    assert("layer"@.len() == 5);
    assert("source"@.len() == 6);
}

/// The care of a vault runs these statements: the daily care strengthens what was retrieved by
/// 0.15, up to 2, and looks at all the rest; the weekly care promotes, and prunes with tombstones.
pub proof fn law_statements_of_the_care(now: Timestamp)
    ensures
        STRENGTHEN@ + Condition::RetrievedSince.text(""@, "?1"@)
            == "UPDATE engrams SET strength = MIN(2.0, strength + 0.15) WHERE last_retrieved >= ?1"@,
        IDLE@ + Condition::IdleSince.text(""@, "?1"@)
            == "SELECT id, strength, retrievals, created_at, last_retrieved FROM engrams WHERE (last_retrieved IS NULL OR last_retrieved < ?1)"@,
        statements_of(weekly_changes(now)) == seq![
            plain_of(
                "UPDATE engrams SET layer = 'semantic', source = 'consolidation' WHERE layer = 'episodic' AND retrievals >= 5"@,
            ),
            plain_of(
                "DELETE FROM engrams_fts WHERE id IN (SELECT id FROM engrams WHERE strength < 0.05 AND imagined = 1)"@,
            ),
            (StatementView {
                sql: "INSERT OR REPLACE INTO tombstones (id, deleted_at) SELECT id, ?1 FROM engrams WHERE strength < 0.05 AND imagined = 1"@,
                params: seq![SqlView::Text(now.text())],
            }),
            plain_of("DELETE FROM engrams WHERE strength < 0.05 AND imagined = 1"@),
        ],
{
    law_conditions_read();
    assert(STRENGTHEN@ + Condition::RetrievedSince.text(""@, "?1"@)
        == "UPDATE engrams SET strength = MIN(2.0, strength + 0.15) WHERE last_retrieved >= ?1"@)
        by {
        reveal_strlit("UPDATE engrams SET strength = MIN(2.0, strength + 0.15) WHERE ");
        reveal_strlit("last_retrieved >= ");
        reveal_strlit("?1");
        reveal_strlit(
            "UPDATE engrams SET strength = MIN(2.0, strength + 0.15) WHERE last_retrieved >= ?1",
        );
        assert(STRENGTHEN@ + ("last_retrieved >= "@ + "?1"@)
            =~= "UPDATE engrams SET strength = MIN(2.0, strength + 0.15) WHERE last_retrieved >= ?1"@);
    }
    assert(IDLE@ + Condition::IdleSince.text(""@, "?1"@)
        == "SELECT id, strength, retrievals, created_at, last_retrieved FROM engrams WHERE (last_retrieved IS NULL OR last_retrieved < ?1)"@)
        by {
        reveal_strlit("(last_retrieved IS NULL OR last_retrieved < ");
        reveal_strlit("?1");
        reveal_strlit(")");
        reveal_strlit(
            "SELECT id, strength, retrievals, created_at, last_retrieved FROM engrams WHERE ",
        );
        reveal_strlit(
            "SELECT id, strength, retrievals, created_at, last_retrieved FROM engrams WHERE (last_retrieved IS NULL OR last_retrieved < ?1)",
        );
        assert(IDLE@ + ("(last_retrieved IS NULL OR last_retrieved < "@ + "?1"@ + ")"@)
            =~= "SELECT id, strength, retrievals, created_at, last_retrieved FROM engrams WHERE (last_retrieved IS NULL OR last_retrieved < ?1)"@);
    }
    assert(PROMOTE@ + Condition::Familiar.text(""@, ""@)
        == "UPDATE engrams SET layer = 'semantic', source = 'consolidation' WHERE layer = 'episodic' AND retrievals >= 5"@)
        by {
        reveal_strlit("layer = 'episodic' AND retrievals >= 5");
        reveal_strlit("UPDATE engrams SET layer = 'semantic', source = 'consolidation' WHERE ");
        reveal_strlit(
            "UPDATE engrams SET layer = 'semantic', source = 'consolidation' WHERE layer = 'episodic' AND retrievals >= 5",
        );
        assert(PROMOTE@ + "layer = 'episodic' AND retrievals >= 5"@
            =~= "UPDATE engrams SET layer = 'semantic', source = 'consolidation' WHERE layer = 'episodic' AND retrievals >= 5"@);
    }
    assert(UNINDEX_ALL@ + Condition::Forgotten.text(""@, ""@) + ")"@
        == "DELETE FROM engrams_fts WHERE id IN (SELECT id FROM engrams WHERE strength < 0.05 AND imagined = 1)"@)
        by {
        reveal_strlit("strength < 0.05 AND imagined = 1");
        reveal_strlit(")");
        reveal_strlit("DELETE FROM engrams_fts WHERE id IN (SELECT id FROM engrams WHERE ");
        reveal_strlit(
            "DELETE FROM engrams_fts WHERE id IN (SELECT id FROM engrams WHERE strength < 0.05 AND imagined = 1)",
        );
        assert(UNINDEX_ALL@ + "strength < 0.05 AND imagined = 1"@ + ")"@
            =~= "DELETE FROM engrams_fts WHERE id IN (SELECT id FROM engrams WHERE strength < 0.05 AND imagined = 1)"@);
    }
    assert(BURY_ALL@ + Condition::Forgotten.text(""@, ""@)
        == "INSERT OR REPLACE INTO tombstones (id, deleted_at) SELECT id, ?1 FROM engrams WHERE strength < 0.05 AND imagined = 1"@)
        by {
        reveal_strlit("strength < 0.05 AND imagined = 1");
        reveal_strlit(
            "INSERT OR REPLACE INTO tombstones (id, deleted_at) SELECT id, ?1 FROM engrams WHERE ",
        );
        reveal_strlit(
            "INSERT OR REPLACE INTO tombstones (id, deleted_at) SELECT id, ?1 FROM engrams WHERE strength < 0.05 AND imagined = 1",
        );
        assert(BURY_ALL@ + "strength < 0.05 AND imagined = 1"@
            =~= "INSERT OR REPLACE INTO tombstones (id, deleted_at) SELECT id, ?1 FROM engrams WHERE strength < 0.05 AND imagined = 1"@);
    }
    assert(DELETE_ALL@ + Condition::Forgotten.text(""@, ""@)
        == "DELETE FROM engrams WHERE strength < 0.05 AND imagined = 1"@) by {
        reveal_strlit("strength < 0.05 AND imagined = 1");
        reveal_strlit("DELETE FROM engrams WHERE ");
        reveal_strlit("DELETE FROM engrams WHERE strength < 0.05 AND imagined = 1");
        assert(DELETE_ALL@ + "strength < 0.05 AND imagined = 1"@
            =~= "DELETE FROM engrams WHERE strength < 0.05 AND imagined = 1"@);
    }
}

/// The state of the vault's character and past consolidations are read and written by these
/// statements.
pub proof fn law_statements_on_character_and_consolidations()
    ensures
        SET_STRENGTH@ == "UPDATE engrams SET strength = ?1 WHERE id = ?2"@,
        COHERENCE@
            == "SELECT id, baseline_valence, character_strengths, purpose_vector, last_hygiene_daily, last_hygiene_weekly, drift_score, updated_at FROM coherence_state WHERE id = 1"@,
        COHERENCE_COUNT@ == "SELECT COUNT(*) FROM coherence_state"@,
        SET_COHERENCE@
            == "UPDATE coherence_state SET baseline_valence = ?1, character_strengths = ?2, purpose_vector = ?3, last_hygiene_daily = ?4, last_hygiene_weekly = ?5, drift_score = ?6, updated_at = ?7 WHERE id = 1"@,
        FIRST_COHERENCE@
            == "INSERT INTO coherence_state (id, baseline_valence, character_strengths, purpose_vector, drift_score, updated_at) VALUES (1, 0.3, ?1, '[]', 0.0, ?2)"@,
        RUNS@
            == "SELECT id, run_at, episodes_processed, semantics_created, engrams_decayed, notes FROM consolidation_runs ORDER BY run_at DESC LIMIT ?1"@,
        RECORD_RUN@
            == "INSERT INTO consolidation_runs (id, run_at, episodes_processed, semantics_created, engrams_decayed, notes) VALUES (?1, ?2, ?3, ?4, ?5, ?6)"@,
{
}

/// The state of the vault's character is read by column: what stands in the row, and times that
/// can be read.
pub proof fn law_character_is_read_by_column(row: Seq<SqlView>, now: Timestamp)
    requires
        coherence_row(row),
    ensures
        ({
            let c = coherence_in(row, now);
            &&& row.len() >= 8
            &&& row[0] == SqlView::Integer(c.id as i64)
            &&& row[1] == SqlView::Real(c.baseline_valence)
            &&& row[2] == SqlView::Text(c.character_strengths)
            &&& row[3] == SqlView::Text(c.purpose_vector)
            &&& row[4] is Text ==> c.last_hygiene_daily == Timestamp::parsed(row[4]->Text_0)
            &&& row[4] is Null ==> c.last_hygiene_daily is None
            &&& row[5] is Text ==> c.last_hygiene_weekly == Timestamp::parsed(row[5]->Text_0)
            &&& row[5] is Null ==> c.last_hygiene_weekly is None
            &&& row[6] == SqlView::Real(c.drift_score)
            &&& Timestamp::parsed(row[7]->Text_0) is Some ==> c.updated_at == Timestamp::parsed(
                row[7]->Text_0,
            )->0
            &&& Timestamp::parsed(row[7]->Text_0) is None ==> c.updated_at == now
        }),
{
}

/// The state of the vault's character is written as it is, as of now.
pub proof fn law_character_is_written_as_it_is(c: CoherenceView, now: Timestamp)
    ensures
        coherence_statement(c, now).params == seq![
            SqlView::Real(c.baseline_valence),
            SqlView::Text(c.character_strengths),
            SqlView::Text(c.purpose_vector),
            if c.last_hygiene_daily is Some {
                SqlView::Text(c.last_hygiene_daily->0.text())
            } else {
                SqlView::Null
            },
            if c.last_hygiene_weekly is Some {
                SqlView::Text(c.last_hygiene_weekly->0.text())
            } else {
                SqlView::Null
            },
            SqlView::Real(c.drift_score),
            SqlView::Text(now.text()),
        ],
        coherence_statement(c, now).sql == SET_COHERENCE@,
{
}

/// A past consolidation is written value by value; the rows that hold one are read in their order,
/// none left out.
pub proof fn law_consolidations_are_kept(rows: Seq<Seq<SqlView>>, run: RunView, now: Timestamp)
    ensures
        run_statement(run).params == seq![
            SqlView::Text(run.id),
            SqlView::Text(run.run_at.text()),
            opt_int_view(run.episodes_processed),
            opt_int_view(run.semantics_created),
            opt_int_view(run.engrams_decayed),
            opt_text_view(run.notes),
        ],
        runs_in(rows, now) == rows.filter(|row: Seq<SqlView>| run_row(row)).map_values(
            |row: Seq<SqlView>| run_in(row, now),
        ),
    decreases rows.len(),
{
    reveal(Seq::filter);
    let holds = |row: Seq<SqlView>| run_row(row);
    let read = |row: Seq<SqlView>| run_in(row, now);
    if rows.len() == 0 {
        assert(runs_in(rows, now) =~= rows.filter(holds).map_values(read));
    } else {
        law_consolidations_are_kept(rows.drop_last(), run, now);
        if run_row(rows.last()) {
            assert(rows.filter(holds).map_values(read) =~= rows.drop_last().filter(
                holds,
            ).map_values(read).push(read(rows.last())));
        }
    }
}

/// A row holds an engram that may fade exactly if each of its columns holds what the table
/// declares there.
pub proof fn law_rows_hold_idle_engrams(row: Seq<SqlView>)
    ensures
        idle_row(row) <==> row.len() >= 5 && row[0] is Text && row[1] is Real && row[2] is Integer && row[3] is Text
            && (row[4] is Text || row[4] is Null),
{
}

/// What is said of an idle engram is said of its fields.
pub proof fn law_idle_engram_is_seen_as_it_is(x: Idle)
    ensures
        x@.id == x.id@,
        x@.strength == x.strength,
        x@.days == x.days,
        x@.stability == x.stability,
{
}

/// What is said of the record of the character is said of its fields.
pub proof fn law_character_is_seen_as_it_is(x: CoherenceRecord)
    ensures
        x@.character_strengths == x.character_strengths@,
        x@.purpose_vector == x.purpose_vector@,
        x@.id == x.id,
        x@.baseline_valence == x.baseline_valence,
        x@.last_hygiene_daily == x.last_hygiene_daily,
        x@.last_hygiene_weekly == x.last_hygiene_weekly,
        x@.drift_score == x.drift_score,
        x@.updated_at == x.updated_at,
{
}

/// A row holds the character, or a consolidation run, exactly if it has the columns of one with
/// values of the right kinds; the counts of a run and its notes may be missing.
pub proof fn law_rows_hold_characters_and_runs(row: Seq<SqlView>)
    ensures
        coherence_row(row) <==> {
            &&& row.len() >= 8
            &&& row[0] is Integer && i32::MIN <= row[0]->Integer_0 <= i32::MAX
            &&& row[1] is Real && row[2] is Text && row[3] is Text
            &&& row[4] is Text || row[4] is Null
            &&& row[5] is Text || row[5] is Null
            &&& row[6] is Real && row[7] is Text
        },
        run_row(row) <==> {
            let count = |v: SqlView|
                v is Null || v is Integer && i32::MIN <= v->Integer_0 <= i32::MAX;
            &&& row.len() >= 6
            &&& row[0] is Text && row[1] is Text
            &&& count(row[2]) && count(row[3]) && count(row[4])
            &&& row[5] is Text || row[5] is Null
        },
{
}

/// A consolidation run is read column by column.
pub proof fn law_run_is_read_by_column(row: Seq<SqlView>, now: Timestamp)
    requires
        run_row(row),
    ensures
        ({
            let r = run_in(row, now);
            let same = |n: Option<i32>, v: SqlView|
                match n {
                    Some(n) => v == SqlView::Integer(n as i64),
                    None => v is Null,
                };
            &&& row.len() >= 6
            &&& row[0] == SqlView::Text(r.id)
            &&& Timestamp::parsed(row[1]->Text_0) is Some ==> r.run_at == Timestamp::parsed(
                row[1]->Text_0,
            )->0
            &&& Timestamp::parsed(row[1]->Text_0) is None ==> r.run_at == now
            &&& same(r.episodes_processed, row[2])
            &&& same(r.semantics_created, row[3])
            &&& same(r.engrams_decayed, row[4])
            &&& row[5] is Text ==> r.notes == Some(row[5]->Text_0)
            &&& row[5] is Null ==> r.notes is None
        }),
{
}

/// Rows are read as idle engrams if each of them holds one.
pub proof fn law_all_rows_hold_idle_engrams(rows: Seq<Seq<SqlView>>)
    ensures
        all_idle_rows(rows) <==> forall|i: int|
            0 <= i < rows.len() ==> idle_row(#[trigger] rows[i]),
{
}

} // verus!
