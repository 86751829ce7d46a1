//! Writing memories.
//!
//! A capture passes the noise filter, the search for duplicates and the search for paraphrases
//! before it is filled in, stored and linked. A curated write passes none of these gates: it always
//! persists. [`WriteJob`] decides each step; whoever runs it talks to the database.
use crate::embedding::{
    best_match, blob_of, embedded_ids, embedding_to_blob, find_similar_embedding,
    law_paraphrases_are_similar_enough, nearest, Embedded, EmbeddedView, LinkInferenceConfig,
};
use crate::engram::{Engram, EngramLayer, EngramSource, EngramView};
use crate::json::{json_member, text_member};
use crate::links::{
    capture_links, carried_link_statements, carried_links, generate_links,
    generate_semantic_links, inferred_links, link_lookups, live_embeddings, live_embeddings_query,
    lookups_for, session_of, CaptureLinks, CaptureLinksView, FindingsView, LinkFindings,
    LinkLookups, LookupsView,
};
use crate::measure::Measure;
use crate::noise::{
    hash_of, is_noise, kept_tags, noise_reason_of, normalize_tags, normalized_hash,
};
use crate::rank::all_views;
use crate::rows::{column_list, engram_params, engram_values, place_of, stored_columns};
use crate::sql::{
    lemma_statements_push, statement_views, text_value, with1, with2, SqlValue,
    SqlView, Statement, StatementView,
};
use crate::tables::{unindex, Cells, Change, Tables};
use crate::text::{
    chars_of, concat, concat3, decimal, decimal_text, join_texts, joined, opt_text, slice,
    string_of, text_eq, texts, trim, trimmed,
};
use crate::time::Timestamp;
use vstd::prelude::*;

verus! {

/// What became of a write.
#[derive(Debug, PartialEq)]
pub enum WriteOutcome {
    /// A row was inserted, or the row with this identifier was updated.
    Inserted,
    /// A memory with the same normalized content exists; it was strengthened instead.
    Duplicate { matched_id: String },
    /// A memory says the same in other words; nothing was written.
    Similar { matched_id: String, similarity: Measure },
    /// The content is noise; nothing was written.
    NoiseSkipped { reason: String },
}

/// What became of a write, as seen in contracts.
#[verifier::ext_equal]
pub enum OutcomeView {
    Inserted,
    Duplicate { matched_id: Seq<char> },
    Similar { matched_id: Seq<char>, similarity: Measure },
    NoiseSkipped { reason: Seq<char> },
}

impl View for WriteOutcome {
    type V = OutcomeView;

    open spec fn view(&self) -> OutcomeView {
        match self {
            WriteOutcome::Inserted => OutcomeView::Inserted,
            WriteOutcome::Duplicate { matched_id } => OutcomeView::Duplicate {
                matched_id: matched_id@,
            },
            WriteOutcome::Similar { matched_id, similarity } => OutcomeView::Similar {
                matched_id: matched_id@,
                similarity: *similarity,
            },
            WriteOutcome::NoiseSkipped { reason } => OutcomeView::NoiseSkipped { reason: reason@ },
        }
    }
}

impl Clone for WriteOutcome {
    fn clone(&self) -> (r: Self)
        ensures
            r@ == self@,
    {
        match self {
            WriteOutcome::Inserted => WriteOutcome::Inserted,
            WriteOutcome::Duplicate { matched_id } => WriteOutcome::Duplicate {
                matched_id: matched_id.clone(),
            },
            WriteOutcome::Similar { matched_id, similarity } => WriteOutcome::Similar {
                matched_id: matched_id.clone(),
                similarity: *similarity,
            },
            WriteOutcome::NoiseSkipped { reason } => WriteOutcome::NoiseSkipped {
                reason: reason.clone(),
            },
        }
    }
}

/// A text without trailing slashes.
pub open spec fn without_slashes(s: Seq<char>) -> Seq<char>
    decreases s.len(),
{
    if s.len() > 0 && s.last() == '/' {
        without_slashes(s.drop_last())
    } else {
        s
    }
}

/// What stands behind the last slash of a text.
pub open spec fn behind_slash(s: Seq<char>) -> Seq<char>
    decreases s.len(),
{
    if s.len() == 0 || s.last() == '/' {
        Seq::empty()
    } else {
        behind_slash(s.drop_last()).push(s.last())
    }
}

/// The last segment of a path.
pub open spec fn last_segment(path: Seq<char>) -> Seq<char> {
    behind_slash(without_slashes(path))
}

fn read_last_segment(path: &str) -> (r: String)
    ensures
        r@ == last_segment(path@),
{
    let all = chars_of(path);
    let mut end: usize = all.len();
    proof {
        assert(all@.take(all@.len() as int) =~= all@);
    }
    while end > 0 && all[end - 1] == '/'
        invariant
            end <= all@.len(),
            without_slashes(all@.take(end as int)) == without_slashes(all@),
        decreases end,
    {
        proof {
            assert(all@.take(end as int).drop_last() =~= all@.take(end - 1));
        }
        end -= 1;
    }
    let ghost t = all@.take(end as int);
    let mut start: usize = end;
    proof {
        assert(t.take(end as int) =~= t);
        assert(all@.subrange(end as int, end as int) =~= Seq::<char>::empty());
        assert(behind_slash(t) + Seq::<char>::empty() =~= behind_slash(t));
    }
    while start > 0 && all[start - 1] != '/'
        invariant
            start <= end <= all@.len(),
            t == all@.take(end as int),
            behind_slash(t) == behind_slash(t.take(start as int)) + all@.subrange(
                start as int,
                end as int,
            ),
        decreases start,
    {
        proof {
            let u = t.take(start as int);
            assert(u.last() == all@[start - 1]);
            assert(u.drop_last() =~= t.take(start - 1));
            assert(behind_slash(u.drop_last()).push(u.last()) + all@.subrange(
                start as int,
                end as int,
            ) =~= behind_slash(u.drop_last()) + all@.subrange(start - 1, end as int));
        }
        start -= 1;
    }
    proof {
        let u = t.take(start as int);
        if start > 0 {
            assert(u.last() == all@[start - 1]);
        }
        assert(behind_slash(u) =~= Seq::<char>::empty());
        assert(behind_slash(u) + all@.subrange(start as int, end as int) =~= all@.subrange(
            start as int,
            end as int,
        ));
    }
    let part = slice(all.as_slice(), start, end);
    string_of(part.as_slice())
}

/// The project that a capture belongs to: the last segment of its working directory, else its
/// repository, else the project that its context names.
pub open spec fn project_from(
    cwd: Option<Seq<char>>,
    repo: Option<Seq<char>>,
    project: Option<Seq<char>>,
) -> Option<Seq<char>> {
    if cwd is Some && last_segment(cwd->0).len() > 0 && last_segment(cwd->0) != "."@ {
        Some(last_segment(cwd->0))
    } else if repo is Some && trimmed(repo->0).len() > 0 {
        Some(trimmed(repo->0))
    } else if project is Some && trimmed(project->0).len() > 0 {
        Some(trimmed(project->0))
    } else {
        None
    }
}

/// The project that a capture belongs to, from its context.
pub open spec fn project_of(context: Seq<char>) -> Option<Seq<char>> {
    project_from(
        json_member(context, "cwd"@),
        json_member(context, "repo"@),
        json_member(context, "project"@),
    )
}

fn not_blank(s: &Option<String>) -> (r: Option<String>)
    ensures
        opt_text(r) == if *s is Some && trimmed((*s)->0@).len() > 0 {
            Some(trimmed((*s)->0@))
        } else {
            None
        },
{
    match s {
        Some(t) => {
            let all = chars_of(t.as_str());
            let v = trim(all.as_slice());
            if v.len() > 0 {
                Some(string_of(v.as_slice()))
            } else {
                None
            }
        },
        None => None,
    }
}

/// The project that a capture belongs to, given what its context says.
pub fn choose_project(
    cwd: &Option<String>,
    repo: &Option<String>,
    project: &Option<String>,
) -> (r: Option<String>)
    ensures
        opt_text(r) == project_from(opt_text(*cwd), opt_text(*repo), opt_text(*project)),
{
    if let Some(dir) = cwd {
        let last = read_last_segment(dir.as_str());
        if !last.as_str().is_empty() && !text_eq(last.as_str(), ".") {
            return Some(last);
        }
    }
    match not_blank(repo) {
        Some(v) => Some(v),
        None => not_blank(project),
    }
}

/// The project that a capture belongs to, from its context.
pub fn extract_project(context: &str) -> (r: Option<String>)
    ensures
        opt_text(r) == project_of(context@),
{
    let cwd = text_member(context, "cwd");
    let repo = text_member(context, "repo");
    let project = text_member(context, "project");
    choose_project(&cwd, &repo, &project)
}

/// The tags that a source gives to captures that come without any.
pub open spec fn source_tags(source: EngramSource) -> Seq<Seq<char>> {
    match source {
        EngramSource::Window => seq!["terminal"@, "window"@],
        EngramSource::Observation => seq!["auto"@],
        EngramSource::Chat => seq!["chat"@],
        EngramSource::Mic => seq!["voice"@],
        EngramSource::Agent => seq!["agent"@],
        EngramSource::AiSession => seq!["session"@],
        _ => Seq::empty(),
    }
}

/// The tags that a source gives to captures that come without any.
pub fn auto_tags(source: EngramSource) -> (r: Vec<String>)
    ensures
        texts(r@) == source_tags(source),
{
    let mut out: Vec<String> = Vec::new();
    match source {
        EngramSource::Window => {
            out.push("terminal".to_string());
            out.push("window".to_string());
        },
        EngramSource::Observation => {
            out.push("auto".to_string());
        },
        EngramSource::Chat => {
            out.push("chat".to_string());
        },
        EngramSource::Mic => {
            out.push("voice".to_string());
        },
        EngramSource::Agent => {
            out.push("agent".to_string());
        },
        EngramSource::AiSession => {
            out.push("session".to_string());
        },
        _ => {},
    }
    assert(texts(out@) =~= source_tags(source));
    out
}

/// An engram as it is stored. A curated write is stored verbatim. A capture has its tags in
/// standard form, the project filled in from the context, and the tags of the source where there
/// are none; what the caller gave wins.
pub open spec fn filled(e: EngramView, gates: bool) -> EngramView {
    if !gates {
        e
    } else {
        EngramView {
            tags: if kept_tags(e.tags).len() == 0 {
                kept_tags(source_tags(e.source))
            } else {
                kept_tags(e.tags)
            },
            project: if e.project is None {
                project_of(e.context)
            } else {
                e.project
            },
            ..e
        }
    }
}

/// The engram as it is stored.
pub fn fill(e: &Engram, gates: bool) -> (r: Engram)
    ensures
        r@ == filled(e@, gates),
{
    let mut f = e.clone();
    if !gates {
        return f;
    }
    let raw = crate::text::clone_texts(&e.tags);
    f.tags = normalize_tags(raw);
    if f.project.is_none() {
        f.project = extract_project(f.context.as_str());
    }
    proof {
        assert(texts(f.tags@).len() == f.tags@.len());
    }
    if f.tags.len() == 0 {
        f.tags = normalize_tags(auto_tags(f.source));
    }
    f
}

/// Counts one more of something.
pub open spec fn bump_of(key: Seq<char>) -> StatementView {
    StatementView {
        sql: "INSERT INTO app_metrics (key, value) VALUES (?1, 1) ON CONFLICT(key) DO UPDATE SET value = value + 1"@,
        params: seq![SqlView::Text(key)],
    }
}

/// Counts one more of something.
pub fn bump_metric(key: &str) -> (r: Statement)
    ensures
        r@ == bump_of(key@),
{
    with1(
        "INSERT INTO app_metrics (key, value) VALUES (?1, 1) ON CONFLICT(key) DO UPDATE SET value = value + 1",
        text_value(key),
    )
}

/// The query for another memory with the same normalized content.
pub open spec fn duplicate_query(hash: Seq<char>, id: Seq<char>) -> StatementView {
    StatementView {
        sql: "SELECT id FROM engrams WHERE content_hash = ?1 AND id != ?2 LIMIT 1"@,
        params: seq![SqlView::Text(hash), SqlView::Text(id)],
    }
}

/// Strengthens the memory that a capture repeats.
pub open spec fn strengthen_of(now: Timestamp, id: Seq<char>) -> StatementView {
    StatementView {
        sql: "UPDATE engrams SET strength = MIN(2.0, strength + 0.1), last_retrieved = ?1, modified_at = ?1 WHERE id = ?2"@,
        params: seq![SqlView::Text(now.text()), SqlView::Text(id)],
    }
}

/// The query for all other stored embeddings.
pub open spec fn other_embeddings_query(id: Seq<char>) -> StatementView {
    StatementView {
        sql: "SELECT ee.engram_id, ee.embedding, e.created_at FROM engram_embeddings ee JOIN engrams e ON e.id = ee.engram_id WHERE ee.engram_id != ?1"@,
        params: seq![SqlView::Text(id)],
    }
}

/// The place of a value in a statement.
pub open spec fn place(i: int) -> Seq<char> {
    "?"@ + decimal((i + 1) as nat)
}

/// Whether what is stored in a column is kept where the engram has nothing for it: a retrieval or
/// an event time.
pub open spec fn keeps_stored(i: int) -> bool {
    i == 12 || i == 17
}

/// How a column of a stored engram is updated.
pub open spec fn assignment(i: int) -> Seq<char> {
    let name = stored_columns()[i];
    if keeps_stored(i) {
        name + " = COALESCE("@ + place(i) + ", engrams."@ + name + ")"@
    } else {
        name + " = "@ + place(i)
    }
}

/// The places of the values that an engram is stored with.
pub open spec fn places() -> Seq<Seq<char>> {
    Seq::new(20, |i: int| place(i))
}

/// How the columns of a stored engram are updated, all but its identifier.
pub open spec fn assignments() -> Seq<Seq<char>> {
    Seq::new(19, |i: int| assignment(i + 1))
}

/// Inserts or updates the row of an engram. A retrieval or an event time that is stored is kept
/// where the engram has none.
pub open spec fn upsert_of(e: EngramView, hash: Seq<char>) -> StatementView {
    StatementView {
        sql: "INSERT INTO engrams ("@ + joined(stored_columns(), ", "@) + ") VALUES ("@ + joined(
            places(),
            ", "@,
        ) + ") ON CONFLICT(id) DO UPDATE SET "@ + joined(assignments(), ", "@),
        params: engram_values(e, hash),
    }
}

fn upsert_sql() -> (r: String)
    ensures
        r@ == "INSERT INTO engrams ("@ + joined(stored_columns(), ", "@) + ") VALUES ("@ + joined(
            places(),
            ", "@,
        ) + ") ON CONFLICT(id) DO UPDATE SET "@ + joined(assignments(), ", "@),
{
    let mut names = column_list();
    let ghost read = names@;
    names.push("content_hash".to_string());
    proof {
        assert(texts(names@) =~= texts(read).push("content_hash"@));
        assert(texts(names@).len() == names@.len());
        assert(stored_columns().len() == 20);
    }
    let mut values: Vec<String> = Vec::new();
    let mut updates: Vec<String> = Vec::new();
    let mut i: usize = 0;
    assert(texts(updates@) =~= assignments().take(0));
    while i < names.len()
        invariant
            i <= names@.len(),
            names@.len() == 20,
            texts(names@) == stored_columns(),
            texts(values@) == places().take(i as int),
            texts(updates@) == assignments().take(
                if i == 0 {
                    0
                } else {
                    i - 1
                },
            ),
        decreases names@.len() - i,
    {
        let number = decimal_text(i as u64 + 1);
        let at = concat("?", number.as_str());
        proof {
            assert(texts(names@)[i as int] == names@[i as int]@);
            assert(places()[i as int] == at@);
            assert(texts(values@.push(at)) =~= texts(values@).push(at@));
            assert(places().take(i + 1) =~= places().take(i as int).push(at@));
        }
        if i > 0 {
            let name = names[i].as_str();
            let update = if i == 12 || i == 17 {
                let head = concat3(name, " = COALESCE(", at.as_str());
                let tail = concat3(", engrams.", name, ")");
                concat(head.as_str(), tail.as_str())
            } else {
                concat3(name, " = ", at.as_str())
            };
            proof {
                assert(update@ =~= assignment(i as int));
                assert(assignments()[i - 1] == update@);
                assert(texts(updates@.push(update)) =~= texts(updates@).push(update@));
                assert(assignments().take(i as int) =~= assignments().take(i - 1).push(update@));
            }
            updates.push(update);
        }
        values.push(at);
        i += 1;
    }
    proof {
        assert(places().take(20) =~= places());
        assert(assignments().take(19) =~= assignments());
    }
    let columns = join_texts(&names, ", ");
    let head = concat3("INSERT INTO engrams (", columns.as_str(), ") VALUES (");
    let middle = join_texts(&values, ", ");
    let tail = join_texts(&updates, ", ");
    let front = concat3(head.as_str(), middle.as_str(), ") ON CONFLICT(id) DO UPDATE SET ");
    concat(front.as_str(), tail.as_str())
}

/// A row after values were stored in it: each in its column, but for those that are null where what
/// is stored is kept. A new row was never pushed and belongs to no agent.
pub open spec fn stored_row(old: Option<Cells>, values: Seq<SqlView>) -> Cells {
    let base = match old {
        Some(row) => row,
        None => map!["synced_at"@ => SqlView::Null, "agent_id"@ => SqlView::Null],
    };
    Map::new(
        |name: Seq<char>| base.contains_key(name) || stored_columns().contains(name),
        |name: Seq<char>|
            if stored_columns().contains(name) {
                let i = place_of(name);
                if keeps_stored(i) && values[i] is Null && base.contains_key(name) {
                    base[name]
                } else {
                    values[i]
                }
            } else {
                base[name]
            },
    )
}

/// What the tables hold after the row of an engram was inserted or updated by a statement with
/// some values, the first of which is its identifier.
pub open spec fn upserted(t: Tables, values: Seq<SqlView>) -> Tables {
    let id = values[0]->Text_0;
    Tables {
        engrams: t.engrams.insert(
            id,
            stored_row(
                if t.engrams.contains_key(id) {
                    Some(t.engrams[id])
                } else {
                    None
                },
                values,
            ),
        ),
        ..t
    }
}

/// Adds an engram to the text index.
pub open spec fn index_of_text(id: Seq<char>) -> StatementView {
    StatementView {
        sql: "INSERT INTO engrams_fts(rowid, id, content) SELECT e.rowid, e.id, e.content FROM engrams e WHERE e.id = ?1"@,
        params: seq![SqlView::Text(id)],
    }
}

/// Stores the embedding of an engram.
pub open spec fn embed_of(
    id: Seq<char>,
    vector: Seq<Measure>,
    model: Seq<char>,
    now: Timestamp,
) -> StatementView {
    StatementView {
        sql: "INSERT OR REPLACE INTO engram_embeddings (engram_id, embedding, model, dimensions, created_at) VALUES (?1, ?2, ?3, ?4, ?5)"@,
        params: seq![
            SqlView::Text(id),
            SqlView::Blob(blob_of(vector)),
            SqlView::Text(model),
            SqlView::Integer(vector.len() as i64),
            SqlView::Text(now.text()),
        ],
    }
}

/// An embedding that came with a write, if it is not empty.
pub open spec fn given_vector(embedding: Option<Seq<Measure>>) -> Option<Seq<Measure>> {
    match embedding {
        Some(v) if v.len() > 0 => Some(v),
        _ => None,
    }
}

/// The statements that store an engram: its row, its place in the text index, its embedding and
/// the links that came with it.
pub open spec fn store_statements(
    e: EngramView,
    hash: Seq<char>,
    embedding: Option<Seq<Measure>>,
    model: Option<Seq<char>>,
    now: Timestamp,
) -> Seq<StatementView> {
    let base = seq![upsert_of(e, hash), index_of_text(e.id)];
    let embedded = match given_vector(embedding) {
        Some(v) => base.push(
            embed_of(
                e.id,
                v,
                match model {
                    Some(m) => m,
                    None => "unknown"@,
                },
                now,
            ),
        ),
        None => base,
    };
    embedded + carried_links(e.id, e.links)
}

/// Where a write stands.
#[derive(Debug, Clone, Copy, PartialEq, Eq, Structural)]
pub enum WriteStage {
    /// Nothing was decided.
    Begin,
    /// A duplicate is looked for.
    Duplicate,
    /// A paraphrase is looked for.
    Similar,
    /// The engram is being stored.
    Storing,
    /// Its neighbours are looked for.
    Neighbours,
    /// Its predecessor and its relatives are looked for.
    Relatives,
    /// All was decided.
    Done,
}

/// What to do next for a write.
#[derive(Debug)]
pub enum WriteAction {
    /// Run the query and report the identifier it finds, if any.
    FindDuplicate(Statement),
    /// Run the query and report the embeddings with their similarities.
    FindSimilar(Statement),
    /// Run the statements; the write ends with the outcome.
    Finish { statements: Vec<Statement>, outcome: WriteOutcome },
    /// Run the first statement, whose failure does not count; then begin a transaction, run the
    /// others in it and report that they ran.
    Store { unindex: Statement, statements: Vec<Statement> },
    /// Run the query and report the embeddings with their similarities.
    FindNeighbours(Statement),
    /// Run the statements, then the lookups, and report what they find.
    FindRelatives { statements: Vec<Statement>, lookups: LinkLookups },
    /// Store the links, commit the transaction; the write ends with the outcome.
    Connect { links: CaptureLinks, outcome: WriteOutcome },
}

/// What to do next for a write, as seen in contracts.
#[verifier::ext_equal]
pub enum ActionView {
    FindDuplicate(StatementView),
    FindSimilar(StatementView),
    Finish { statements: Seq<StatementView>, outcome: OutcomeView },
    Store { unindex: StatementView, statements: Seq<StatementView> },
    FindNeighbours(StatementView),
    FindRelatives { statements: Seq<StatementView>, lookups: LookupsView },
    Connect { links: CaptureLinksView, outcome: OutcomeView },
}

impl View for WriteAction {
    type V = ActionView;

    open spec fn view(&self) -> ActionView {
        match self {
            WriteAction::FindDuplicate(s) => ActionView::FindDuplicate(s@),
            WriteAction::FindSimilar(s) => ActionView::FindSimilar(s@),
            WriteAction::Finish { statements, outcome } => ActionView::Finish {
                statements: statement_views(statements@),
                outcome: outcome@,
            },
            WriteAction::Store { unindex, statements } => ActionView::Store {
                unindex: unindex@,
                statements: statement_views(statements@),
            },
            WriteAction::FindNeighbours(s) => ActionView::FindNeighbours(s@),
            WriteAction::FindRelatives { statements, lookups } => ActionView::FindRelatives {
                statements: statement_views(statements@),
                lookups: lookups@,
            },
            WriteAction::Connect { links, outcome } => ActionView::Connect {
                links: links@,
                outcome: outcome@,
            },
        }
    }
}

/// What happened since the last action.
#[derive(Debug)]
pub enum WriteEvent {
    /// The write starts.
    Start,
    /// The identifier of a duplicate, if there is one.
    Found(Option<String>),
    /// Stored embeddings, and the similarity of each.
    Compared { stored: Vec<Embedded>, scores: Vec<Measure> },
    /// The statements ran.
    Stored,
    /// What the lookups found.
    Related(LinkFindings),
}

/// What happened since the last action, as seen in contracts.
#[verifier::ext_equal]
pub enum EventView {
    Start,
    Found(Option<Seq<char>>),
    Compared { stored: Seq<EmbeddedView>, scores: Seq<Measure> },
    Stored,
    Related(FindingsView),
}

impl View for WriteEvent {
    type V = EventView;

    open spec fn view(&self) -> EventView {
        match self {
            WriteEvent::Start => EventView::Start,
            WriteEvent::Found(id) => EventView::Found(opt_text(*id)),
            WriteEvent::Compared { stored, scores } => EventView::Compared {
                stored: all_views(stored@),
                scores: scores@,
            },
            WriteEvent::Stored => EventView::Stored,
            WriteEvent::Related(f) => EventView::Related(f@),
        }
    }
}

/// A write in progress.
#[derive(Debug)]
pub struct WriteJob {
    pub engram: Engram,
    pub embedding: Option<Vec<Measure>>,
    pub model: Option<String>,
    /// Whether this is a capture, which passes the gates, or a curated write, which does not.
    pub gates: bool,
    pub infer: Option<LinkInferenceConfig>,
    pub stage: WriteStage,
}

/// A write in progress, as seen in contracts.
#[verifier::ext_equal]
pub struct JobView {
    pub engram: EngramView,
    pub embedding: Option<Seq<Measure>>,
    pub model: Option<Seq<char>>,
    pub gates: bool,
    pub infer: Option<LinkInferenceConfig>,
    pub stage: WriteStage,
}

impl View for WriteJob {
    type V = JobView;

    open spec fn view(&self) -> JobView {
        JobView {
            engram: self.engram@,
            embedding: match self.embedding {
                Some(v) => Some(v@),
                None => None,
            },
            model: opt_text(self.model),
            gates: self.gates,
            infer: self.infer,
            stage: self.stage,
        }
    }
}

impl JobView {
    /// Whether an event is an answer to what the write waits for.
    pub open spec fn awaits(self, event: EventView) -> bool {
        match self.stage {
            WriteStage::Begin => event is Start,
            WriteStage::Duplicate => event is Found,
            WriteStage::Similar => event matches EventView::Compared { stored, scores }
                && stored.len() == scores.len(),
            WriteStage::Neighbours => {
                &&& self.infer is Some
                &&& event matches EventView::Compared { stored, scores }
                &&& stored.len() == scores.len()
            },
            WriteStage::Storing => event is Stored,
            WriteStage::Relatives => event is Related,
            WriteStage::Done => false,
        }
    }

    /// Storing the engram.
    pub open spec fn storing(self, now: Timestamp) -> (WriteStage, ActionView) {
        let f = filled(self.engram, self.gates);
        (
            WriteStage::Storing,
            ActionView::Store {
                unindex: (Change::Unindex { id: f.id }).statement(),
                statements: store_statements(
                    f,
                    hash_of(f.content),
                    self.embedding,
                    self.model,
                    now,
                ),
            },
        )
    }

    /// Looking for relatives, once the given statements ran.
    pub open spec fn relating(self, statements: Seq<StatementView>) -> (WriteStage, ActionView) {
        let f = filled(self.engram, self.gates);
        (
            WriteStage::Relatives,
            ActionView::FindRelatives { statements, lookups: lookups_for(f, session_of(f)) },
        )
    }

    /// The next stage and the next action of a write.
    pub open spec fn step(self, event: EventView, now: Timestamp) -> (WriteStage, ActionView) {
        let e = self.engram;
        match (self.stage, event) {
            (WriteStage::Begin, EventView::Start) => {
                if !self.gates {
                    self.storing(now)
                } else if e.layer is Episodic && noise_reason_of(e.content, e.source) is Some {
                    (
                        WriteStage::Done,
                        ActionView::Finish {
                            statements: seq![bump_of("noise_skips"@)],
                            outcome: OutcomeView::NoiseSkipped {
                                reason: noise_reason_of(e.content, e.source)->0,
                            },
                        },
                    )
                } else {
                    (
                        WriteStage::Duplicate,
                        ActionView::FindDuplicate(duplicate_query(hash_of(e.content), e.id)),
                    )
                }
            },
            (WriteStage::Duplicate, EventView::Found(found)) => {
                match found {
                    Some(id) => (
                        WriteStage::Done,
                        ActionView::Finish {
                            statements: seq![strengthen_of(now, id), bump_of("dedup_saves"@)],
                            outcome: OutcomeView::Duplicate { matched_id: id },
                        },
                    ),
                    None => if given_vector(self.embedding) is Some {
                        (
                            WriteStage::Similar,
                            ActionView::FindSimilar(other_embeddings_query(e.id)),
                        )
                    } else {
                        self.storing(now)
                    },
                }
            },
            (WriteStage::Similar, EventView::Compared { stored, scores }) => {
                match best_match(embedded_ids(stored), scores) {
                    Some(p) => (
                        WriteStage::Done,
                        ActionView::Finish {
                            statements: seq![bump_of("similar_skips"@)],
                            outcome: OutcomeView::Similar { matched_id: p.0, similarity: p.1 },
                        },
                    ),
                    None => self.storing(now),
                }
            },
            (WriteStage::Storing, EventView::Stored) => {
                if given_vector(self.embedding) is Some && self.infer is Some {
                    (WriteStage::Neighbours, ActionView::FindNeighbours(live_embeddings_query(e.id)))
                } else {
                    self.relating(Seq::empty())
                }
            },
            (WriteStage::Neighbours, EventView::Compared { stored, scores }) => {
                let config = self.infer->0;
                self.relating(
                    inferred_links(
                        e.id,
                        e.quarantined(),
                        nearest(
                            stored,
                            scores,
                            Some(config.min_similarity),
                            Seq::empty(),
                            config.max_links,
                        ),
                    ),
                )
            },
            (WriteStage::Relatives, EventView::Related(found)) => (
                WriteStage::Done,
                ActionView::Connect {
                    links: capture_links(filled(e, self.gates), found),
                    outcome: OutcomeView::Inserted,
                },
            ),
            _ => arbitrary(),
        }
    }
}

/// A statement with five parameters.
fn embed_statement(id: &str, vector: &Vec<Measure>, model: &str, now: Timestamp) -> (r: Statement)
    requires
        now.wf(),
    ensures
        r@ == embed_of(id@, vector@, model@, now),
{
    let mut params: Vec<SqlValue> = Vec::new();
    params.push(text_value(id));
    params.push(SqlValue::Blob(embedding_to_blob(vector)));
    params.push(text_value(model));
    params.push(SqlValue::Integer(vector.len() as i64));
    params.push(SqlValue::Text(now.to_rfc3339()));
    let r = Statement {
        sql: "INSERT OR REPLACE INTO engram_embeddings (engram_id, embedding, model, dimensions, created_at) VALUES (?1, ?2, ?3, ?4, ?5)".to_string(),
        params,
    };
    assert(r@.params =~= embed_of(id@, vector@, model@, now).params);
    r
}

impl WriteJob {
    /// A capture without an embedding: it passes the gates.
    pub fn write(engram: Engram) -> (r: WriteJob)
        ensures
            r@ == (JobView {
                engram: engram@,
                embedding: None,
                model: None,
                gates: true,
                infer: None,
                stage: WriteStage::Begin,
            }),
    {
        WriteJob {
            engram,
            embedding: None,
            model: None,
            gates: true,
            infer: None,
            stage: WriteStage::Begin,
        }
    }

    /// A capture with an optional embedding and the name of the model that made it: it passes the
    /// gates, and is linked by similarity where that is asked for.
    pub fn write_with_embedding(
        engram: Engram,
        embedding: Option<Vec<Measure>>,
        model: Option<String>,
        infer: Option<LinkInferenceConfig>,
    ) -> (r: WriteJob)
        ensures
            r@ == (JobView {
                engram: engram@,
                embedding: match embedding {
                    Some(v) => Some(v@),
                    None => None,
                },
                model: opt_text(model),
                gates: true,
                infer,
                stage: WriteStage::Begin,
            }),
    {
        WriteJob { engram, embedding, model, gates: true, infer, stage: WriteStage::Begin }
    }

    /// A curated write: it passes no gate.
    pub fn write_curated(engram: Engram) -> (r: WriteJob)
        ensures
            r@ == (JobView {
                engram: engram@,
                embedding: None,
                model: None,
                gates: false,
                infer: None,
                stage: WriteStage::Begin,
            }),
    {
        WriteJob {
            engram,
            embedding: None,
            model: None,
            gates: false,
            infer: None,
            stage: WriteStage::Begin,
        }
    }

    fn has_vector(&self) -> (r: bool)
        ensures
            r == (given_vector(self@.embedding) is Some),
    {
        match &self.embedding {
            Some(v) => v.len() > 0,
            None => false,
        }
    }

    fn store(&self, now: Timestamp) -> (r: WriteAction)
        requires
            self@.engram.wf(),
            now.wf(),
        ensures
            r@ == self@.storing(now).1,
    {
        let f = fill(&self.engram, self.gates);
        let hash = normalized_hash(f.content.as_str());
        let mut statements: Vec<Statement> = Vec::new();
        let upsert = Statement {
            sql: upsert_sql(),
            params: engram_params(&f, hash.as_str()),
        };
        let index = with1(
            "INSERT INTO engrams_fts(rowid, id, content) SELECT e.rowid, e.id, e.content FROM engrams e WHERE e.id = ?1",
            text_value(f.id.as_str()),
        );
        statements.push(upsert);
        statements.push(index);
        let ghost base = seq![upsert@, index@];
        assert(statement_views(statements@) =~= base);
        if let Some(v) = &self.embedding {
            if v.len() > 0 {
                let model = match &self.model {
                    Some(m) => m.as_str(),
                    None => "unknown",
                };
                let embed = embed_statement(f.id.as_str(), v, model, now);
                proof {
                    lemma_statements_push(statements@, embed);
                }
                statements.push(embed);
            }
        }
        let ghost before = statement_views(statements@);
        let mut links = carried_link_statements(f.id.as_str(), &f.links);
        let ghost more = statement_views(links@);
        let ghost (a, b) = (statements@, links@);
        statements.append(&mut links);
        proof {
            assert(statement_views(a + b) =~= before + more);
        }
        WriteAction::Store { unindex: unindex(f.id.as_str()), statements }
    }

    fn relate(&self, statements: Vec<Statement>) -> (r: WriteAction)
        ensures
            r@ == self@.relating(statement_views(statements@)).1,
    {
        let f = fill(&self.engram, self.gates);
        WriteAction::FindRelatives { statements, lookups: link_lookups(&f) }
    }

    /// Decides what to do next.
    pub fn advance(&mut self, event: WriteEvent, now: Timestamp) -> (r: WriteAction)
        requires
            old(self)@.awaits(event@),
            old(self)@.engram.wf(),
            now.wf(),
        ensures
            r@ == old(self)@.step(event@, now).1,
            final(self)@ == (JobView { stage: old(self)@.step(event@, now).0, ..old(self)@ }),
    {
        match (self.stage, event) {
            (WriteStage::Begin, _) => {
                if !self.gates {
                    let action = self.store(now);
                    self.stage = WriteStage::Storing;
                    return action;
                }
                if self.engram.layer == EngramLayer::Episodic {
                    if let Some(reason) = is_noise(self.engram.content.as_str(), self.engram.source) {
                        self.stage = WriteStage::Done;
                        return finish(
                            bump_metric("noise_skips"),
                            WriteOutcome::NoiseSkipped { reason },
                        );
                    }
                }
                let hash = normalized_hash(self.engram.content.as_str());
                self.stage = WriteStage::Duplicate;
                WriteAction::FindDuplicate(
                    with2(
                        "SELECT id FROM engrams WHERE content_hash = ?1 AND id != ?2 LIMIT 1",
                        SqlValue::Text(hash),
                        text_value(self.engram.id.as_str()),
                    ),
                )
            },
            (WriteStage::Duplicate, WriteEvent::Found(found)) => {
                match found {
                    Some(id) => {
                        self.stage = WriteStage::Done;
                        let mut statements: Vec<Statement> = Vec::new();
                        statements.push(
                            with2(
                                "UPDATE engrams SET strength = MIN(2.0, strength + 0.1), last_retrieved = ?1, modified_at = ?1 WHERE id = ?2",
                                SqlValue::Text(now.to_rfc3339()),
                                text_value(id.as_str()),
                            ),
                        );
                        statements.push(bump_metric("dedup_saves"));
                        assert(statement_views(statements@) =~= seq![
                            strengthen_of(now, id@),
                            bump_of("dedup_saves"@),
                        ]);
                        WriteAction::Finish {
                            statements,
                            outcome: WriteOutcome::Duplicate { matched_id: id },
                        }
                    },
                    None => {
                        if self.has_vector() {
                            self.stage = WriteStage::Similar;
                            WriteAction::FindSimilar(
                                with1(
                                    "SELECT ee.engram_id, ee.embedding, e.created_at FROM engram_embeddings ee JOIN engrams e ON e.id = ee.engram_id WHERE ee.engram_id != ?1",
                                    text_value(self.engram.id.as_str()),
                                ),
                            )
                        } else {
                            let action = self.store(now);
                            self.stage = WriteStage::Storing;
                            action
                        }
                    },
                }
            },
            (WriteStage::Similar, WriteEvent::Compared { stored, scores }) => {
                match find_similar_embedding(&stored, &scores) {
                    Some(p) => {
                        self.stage = WriteStage::Done;
                        finish(
                            bump_metric("similar_skips"),
                            WriteOutcome::Similar { matched_id: p.0, similarity: p.1 },
                        )
                    },
                    None => {
                        let action = self.store(now);
                        self.stage = WriteStage::Storing;
                        action
                    },
                }
            },
            (WriteStage::Storing, _) => {
                if self.has_vector() && self.infer.is_some() {
                    self.stage = WriteStage::Neighbours;
                    WriteAction::FindNeighbours(live_embeddings(self.engram.id.as_str()))
                } else {
                    let none: Vec<Statement> = Vec::new();
                    assert(statement_views(none@) =~= Seq::empty());
                    let action = self.relate(none);
                    self.stage = WriteStage::Relatives;
                    action
                }
            },
            (WriteStage::Neighbours, WriteEvent::Compared { stored, scores }) => {
                let action = match self.infer {
                    Some(config) => {
                        let statements = generate_semantic_links(
                            self.engram.id.as_str(),
                            self.engram.is_quarantined(),
                            &stored,
                            &scores,
                            config,
                        );
                        self.relate(statements)
                    },
                    None => self.relate(Vec::new()),
                };
                self.stage = WriteStage::Relatives;
                action
            },
            (WriteStage::Relatives, WriteEvent::Related(found)) => {
                let f = fill(&self.engram, self.gates);
                self.stage = WriteStage::Done;
                WriteAction::Connect {
                    links: generate_links(&f, &found),
                    outcome: WriteOutcome::Inserted,
                }
            },
            _ => {
                // Not reached: the event answers the stage.
                self.stage = WriteStage::Done;
                WriteAction::Connect {
                    links: CaptureLinks { temporal: None, associative: None },
                    outcome: WriteOutcome::Inserted,
                }
            },
        }
    }
}

fn finish(statement: Statement, outcome: WriteOutcome) -> (r: WriteAction)
    ensures
        r@ == (ActionView::Finish { statements: seq![statement@], outcome: outcome@ }),
{
    let mut statements: Vec<Statement> = Vec::new();
    statements.push(statement);
    assert(statement_views(statements@) =~= seq![statement@]);
    WriteAction::Finish { statements, outcome }
}

/// How many steps a write can still take.
pub open spec fn steps_left(stage: WriteStage) -> nat {
    match stage {
        WriteStage::Begin => 6,
        WriteStage::Duplicate => 5,
        WriteStage::Similar => 4,
        WriteStage::Storing => 3,
        WriteStage::Neighbours => 2,
        WriteStage::Relatives => 1,
        WriteStage::Done => 0,
    }
}

/// Every write comes to its end, with an outcome: each step leaves fewer to take, the last one
/// finishes or connects, and no other one does.
pub proof fn law_every_write_ends(job: JobView, event: EventView, now: Timestamp)
    requires
        job.awaits(event),
    ensures
        steps_left(job.step(event, now).0) < steps_left(job.stage),
        job.step(event, now).0 is Done <==> (job.step(event, now).1 is Finish || job.step(
            event,
            now,
        ).1 is Connect),
{
}

/// A curated write always persists: it begins by storing the engram, whatever is stored already,
/// and no later step skips it.
pub proof fn law_curated_writes_always_persist(job: JobView, event: EventView, now: Timestamp)
    requires
        !job.gates,
        job.awaits(event),
        job.stage !is Duplicate,
        job.stage !is Similar,
    ensures
        job.stage is Begin ==> job.step(event, now).1 is Store,
        job.step(event, now).1 !is Finish,
        job.step(event, now).0 !is Duplicate,
        job.step(event, now).0 !is Similar,
        job.step(event, now).1 matches ActionView::Connect { outcome, .. } ==> outcome is Inserted,
{
}

/// A write that ends before it stored the engram runs no statement but those that count it and,
/// for a repeated memory, strengthen the memory it repeats.
pub proof fn law_skipped_captures_store_nothing(job: JobView, event: EventView, now: Timestamp)
    requires
        job.awaits(event),
        job.step(event, now).1 is Finish,
    ensures
        match job.step(event, now).1 {
            ActionView::Finish { statements, outcome } => match outcome {
                OutcomeView::Inserted => false,
                OutcomeView::Duplicate { matched_id } => statements == seq![
                    strengthen_of(now, matched_id),
                    bump_of("dedup_saves"@),
                ],
                OutcomeView::Similar { .. } => statements == seq![bump_of("similar_skips"@)],
                OutcomeView::NoiseSkipped { .. } => statements == seq![bump_of("noise_skips"@)],
            },
            _ => false,
        },
{
}

/// Only captures of the episodic layer are filtered as noise.
pub proof fn law_only_episodic_captures_are_filtered(
    job: JobView,
    event: EventView,
    now: Timestamp,
)
    requires
        job.awaits(event),
        job.engram.layer !is Episodic,
    ensures
        !(job.step(event, now).1 matches ActionView::Finish { outcome, .. }
            && outcome is NoiseSkipped),
{
}

/// A capture whose normalized content equals that of a stored memory finds it: the hash that is
/// looked for is the hash that was stored.
pub proof fn law_repeats_are_looked_for(
    stored: JobView,
    repeat: JobView,
    now: Timestamp,
    later: Timestamp,
)
    requires
        hash_of(stored.engram.content) == hash_of(repeat.engram.content),
        repeat.gates,
        repeat.stage is Begin,
        repeat.engram.layer is Episodic ==> noise_reason_of(
            repeat.engram.content,
            repeat.engram.source,
        ) is None,
    ensures
        match (stored.storing(now).1, repeat.step(EventView::Start, later).1) {
            (ActionView::Store { statements, .. }, ActionView::FindDuplicate(query)) => {
                statements[0].params[19] == query.params[0]
            },
            _ => false,
        },
{
}

/// A curated write is stored verbatim. In a capture, nothing but the project and the tags is filled
/// in, and what the caller gave wins over it: a project stays, and so do the tags, in standard
/// form, where any are left of them.
pub proof fn law_given_values_win(e: EngramView, gates: bool)
    ensures
        filled(e, gates) == (EngramView {
            project: filled(e, gates).project,
            tags: filled(e, gates).tags,
            ..e
        }),
        !gates ==> filled(e, gates) == e,
        e.project is Some ==> filled(e, gates).project == e.project,
        gates && kept_tags(e.tags).len() > 0 ==> filled(e, gates).tags == kept_tags(e.tags),
{
}

/// A path without a slash at its end, and with a segment behind its last slash, ends in that
/// segment.
proof fn lemma_segment(head: Seq<char>, segment: Seq<char>)
    requires
        head.len() > 0 ==> head.last() == '/',
        !segment.contains('/'),
    ensures
        behind_slash(head + segment) == segment,
    decreases segment.len(),
{
    if segment.len() == 0 {
        assert(head + segment =~= head);
        assert(behind_slash(head) =~= segment);
    } else {
        let s = head + segment;
        assert(segment[segment.len() - 1] == segment.last());
        assert(s.last() == segment.last());
        assert(s.drop_last() =~= head + segment.drop_last());
        assert(!segment.drop_last().contains('/')) by {
            if segment.drop_last().contains('/') {
                let k = choose|k: int|
                    0 <= k < segment.drop_last().len() && segment.drop_last()[k] == '/';
                assert(segment[k] == '/');
            }
        }
        lemma_segment(head, segment.drop_last());
        assert(segment.drop_last().push(segment.last()) =~= segment);
    }
}

proof fn lemma_slashes_behind(path: Seq<char>, slashes: Seq<char>)
    requires
        forall|i: int| 0 <= i < slashes.len() ==> #[trigger] slashes[i] == '/',
        path.len() > 0 ==> path.last() != '/',
    ensures
        without_slashes(path + slashes) == path,
    decreases slashes.len(),
{
    if slashes.len() == 0 {
        assert(path + slashes =~= path);
    } else {
        let s = path + slashes;
        assert(slashes[slashes.len() - 1] == '/');
        assert(s.last() == '/');
        assert(s.drop_last() =~= path + slashes.drop_last());
        lemma_slashes_behind(path, slashes.drop_last());
    }
}

/// A capture in a working directory belongs to the project that the directory is named after: the
/// last segment of its path, whatever leads there, however many slashes end it, and whatever else
/// the context says.
pub proof fn law_project_is_the_last_segment_of_the_directory(
    head: Seq<char>,
    segment: Seq<char>,
    slashes: Seq<char>,
    repo: Option<Seq<char>>,
    project: Option<Seq<char>>,
)
    requires
        head.len() > 0 ==> head.last() == '/',
        segment.len() > 0,
        !segment.contains('/'),
        segment != "."@,
        forall|i: int| 0 <= i < slashes.len() ==> #[trigger] slashes[i] == '/',
    ensures
        project_from(Some(head + segment + slashes), repo, project) == Some(segment),
{
    lemma_segment(head, segment);
    assert(segment[segment.len() - 1] == segment.last());
    assert((head + segment).last() == segment.last());
    lemma_slashes_behind(head + segment, slashes);
}

/// Without a working directory a capture belongs to its repository, else to the project that its
/// context names, without white space around it; and to none where these are blank or absent.
pub proof fn law_project_falls_back_on_repository_and_project(
    repo: Option<Seq<char>>,
    project: Option<Seq<char>>,
)
    ensures
        repo is Some && trimmed(repo->0).len() > 0 ==> project_from(None, repo, project) == Some(
            trimmed(repo->0),
        ),
        (repo is None || trimmed(repo->0).len() == 0) && project is Some && trimmed(
            project->0,
        ).len() > 0 ==> project_from(None, repo, project) == Some(trimmed(project->0)),
        (repo is None || trimmed(repo->0).len() == 0) && (project is None || trimmed(
            project->0,
        ).len() == 0) ==> project_from(None, repo, project) is None,
{
}

/// What is filled in of a capture: its project from the members of its context where it has none,
/// and the tags of its source where none of its own are left.
pub proof fn law_missing_values_are_filled_in(e: EngramView)
    ensures
        e.project is None ==> filled(e, true).project == project_from(
            json_member(e.context, "cwd"@),
            json_member(e.context, "repo"@),
            json_member(e.context, "project"@),
        ),
        kept_tags(e.tags).len() == 0 ==> filled(e, true).tags == kept_tags(
            match e.source {
                EngramSource::Window => seq!["terminal"@, "window"@],
                EngramSource::Observation => seq!["auto"@],
                EngramSource::Chat => seq!["chat"@],
                EngramSource::Mic => seq!["voice"@],
                EngramSource::Agent => seq!["agent"@],
                EngramSource::AiSession => seq!["session"@],
                _ => Seq::empty(),
            },
        ),
{
}

/// Every capture that is no noise is held against what is stored: whatever its layer, its source
/// and its embedding, the first thing that is asked for is another memory with its hash.
pub proof fn law_captures_are_held_against_what_is_stored(job: JobView, now: Timestamp)
    requires
        job.stage is Begin,
        job.gates,
        job.engram.layer is Episodic ==> noise_reason_of(
            job.engram.content,
            job.engram.source,
        ) is None,
    ensures
        job.step(EventView::Start, now) == (
            WriteStage::Duplicate,
            ActionView::FindDuplicate(
                StatementView {
                    sql: "SELECT id FROM engrams WHERE content_hash = ?1 AND id != ?2 LIMIT 1"@,
                    params: seq![
                        SqlView::Text(hash_of(job.engram.content)),
                        SqlView::Text(job.engram.id),
                    ],
                },
            ),
        ),
{
}

/// An episode that is noise is skipped, with the reason, and counted.
pub proof fn law_noise_is_skipped(job: JobView, now: Timestamp)
    requires
        job.stage is Begin,
        job.gates,
        job.engram.layer is Episodic,
        noise_reason_of(job.engram.content, job.engram.source) is Some,
    ensures
        job.step(EventView::Start, now).0 is Done,
        job.step(EventView::Start, now).1 matches ActionView::Finish { statements, outcome }
            && outcome == (OutcomeView::NoiseSkipped {
            reason: noise_reason_of(job.engram.content, job.engram.source)->0,
        }),
{
}

/// A capture that repeats a memory ends as its duplicate: that memory, and no other, is
/// strengthened by 0.1 up to 2 and counts as retrieved and modified now.
pub proof fn law_repeats_strengthen_what_they_repeat(
    job: JobView,
    id: Seq<char>,
    now: Timestamp,
)
    requires
        job.stage is Duplicate,
    ensures
        job.step(EventView::Found(Some(id)), now) == (
            WriteStage::Done,
            ActionView::Finish {
                statements: seq![
                    StatementView {
                        sql: "UPDATE engrams SET strength = MIN(2.0, strength + 0.1), last_retrieved = ?1, modified_at = ?1 WHERE id = ?2"@,
                        params: seq![SqlView::Text(now.text()), SqlView::Text(id)],
                    },
                    StatementView {
                        sql: "INSERT INTO app_metrics (key, value) VALUES (?1, 1) ON CONFLICT(key) DO UPDATE SET value = value + 1"@,
                        params: seq![SqlView::Text("dedup_saves"@)],
                    },
                ],
                outcome: OutcomeView::Duplicate { matched_id: id },
            },
        ),
{
}

/// A capture that repeats nothing is held against all other embeddings if it has one that is not
/// empty, and else is stored.
pub proof fn law_new_captures_are_compared_or_stored(job: JobView, now: Timestamp)
    requires
        job.stage is Duplicate,
    ensures
        ({
            let next = job.step(EventView::Found(None), now);
            if job.embedding is Some && job.embedding->0.len() > 0 {
                next == (
                    WriteStage::Similar,
                    ActionView::FindSimilar(
                        StatementView {
                            sql: "SELECT ee.engram_id, ee.embedding, e.created_at FROM engram_embeddings ee JOIN engrams e ON e.id = ee.engram_id WHERE ee.engram_id != ?1"@,
                            params: seq![SqlView::Text(job.engram.id)],
                        },
                    ),
                )
            } else {
                next == job.storing(now)
            }
        }),
{
}

/// A capture is a paraphrase exactly if some other memory has a similarity of 0.95 or more to it;
/// it ends as similar to one that is the most similar, with that similarity. Any other capture is
/// stored.
pub proof fn law_paraphrases_are_skipped(
    job: JobView,
    stored: Seq<EmbeddedView>,
    scores: Seq<Measure>,
    now: Timestamp,
)
    requires
        job.stage is Similar,
        stored.len() == scores.len(),
    ensures
        ({
            let next = job.step(EventView::Compared { stored, scores }, now);
            if exists|i: int|
                0 <= i < scores.len() && !(#[trigger] scores[i]).nan() && scores[i].rank()
                    >= 0x3fee_6666_6666_6666 {
                &&& next.0 is Done
                &&& next.1 matches ActionView::Finish { outcome, .. }
                &&& outcome matches OutcomeView::Similar { matched_id, similarity }
                &&& exists|i: int|
                    0 <= i < scores.len() && (#[trigger] stored[i]).id == matched_id && scores[i]
                        == similarity && forall|j: int|
                        0 <= j < scores.len() && !(#[trigger] scores[j]).nan() ==> scores[j].rank()
                            <= similarity.rank()
            } else {
                next == job.storing(now)
            }
        }),
{
    let ids = embedded_ids(stored);
    law_paraphrases_are_similar_enough(ids, scores);
    if best_match(ids, scores) is Some {
        let p = best_match(ids, scores)->0;
        let i = choose|i: int|
            0 <= i < scores.len() && (#[trigger] ids[i]) == p.0 && scores[i] == p.1 && forall|
                j: int,
            |
                0 <= j < scores.len() && !(#[trigger] scores[j]).nan() ==> scores[j].rank()
                    <= scores[i].rank();
        assert(ids[i] == stored[i].id);
    }
}

/// What is stored of a write: its place in the text index is given up first; then come the row of
/// the engram as it is filled in, with the hash of its content, its place in the text index, its
/// embedding where there is one, and all links that came with it.
pub proof fn law_all_of_a_write_is_stored(job: JobView, now: Timestamp)
    ensures
        job.storing(now).0 is Storing,
        ({
            let f = filled(job.engram, job.gates);
            let n: int = if job.embedding is Some && job.embedding->0.len() > 0 {
                3
            } else {
                2
            };
            &&& job.storing(now).1 matches ActionView::Store { unindex, statements }
            &&& unindex.sql == "DELETE FROM engrams_fts WHERE id = ?1"@
            &&& unindex.params == seq![SqlView::Text(job.engram.id)]
            &&& statements.len() == n + job.engram.links.len()
            &&& statements[0].params == engram_values(f, hash_of(job.engram.content))
            &&& statements[1] == (StatementView {
                sql: "INSERT INTO engrams_fts(rowid, id, content) SELECT e.rowid, e.id, e.content FROM engrams e WHERE e.id = ?1"@,
                params: seq![SqlView::Text(job.engram.id)],
            })
            &&& n == 3 ==> statements[2] == (StatementView {
                sql: "INSERT OR REPLACE INTO engram_embeddings (engram_id, embedding, model, dimensions, created_at) VALUES (?1, ?2, ?3, ?4, ?5)"@,
                params: seq![
                    SqlView::Text(job.engram.id),
                    SqlView::Blob(blob_of(job.embedding->0)),
                    SqlView::Text(
                        if job.model is Some {
                            job.model->0
                        } else {
                            "unknown"@
                        },
                    ),
                    SqlView::Integer(job.embedding->0.len() as i64),
                    SqlView::Text(now.text()),
                ],
            })
            &&& forall|i: int|
                #![trigger job.engram.links[i]]
                0 <= i < job.engram.links.len() ==> statements[n + i] == (StatementView {
                    sql: "INSERT OR REPLACE INTO engram_links (source_id, target_id, weight, link_type) SELECT ?1, ?2, ?3, ?4 WHERE EXISTS (SELECT 1 FROM engrams WHERE id = ?2)"@,
                    params: seq![
                        SqlView::Text(job.engram.id),
                        SqlView::Text(job.engram.links[i].target_id),
                        SqlView::Real(job.engram.links[i].weight),
                        SqlView::Text(job.engram.links[i].link_type.name()),
                    ],
                })
        }),
{
}

/// A write that is stored is linked: by similarity where it has an embedding and that was asked
/// for, then to its predecessor and its relatives; and it ends as inserted.
pub proof fn law_stored_writes_are_linked(
    job: JobView,
    found: FindingsView,
    now: Timestamp,
)
    ensures
        job.stage is Storing ==> {
            let next = job.step(EventView::Stored, now);
            if job.embedding is Some && job.embedding->0.len() > 0 && job.infer is Some {
                next == (
                    WriteStage::Neighbours,
                    ActionView::FindNeighbours(
                        StatementView {
                            sql: "SELECT ee.engram_id, ee.embedding, e.created_at FROM engram_embeddings ee JOIN engrams e ON e.id = ee.engram_id WHERE ee.engram_id != ?1 AND NOT (e.imagined = 1 AND e.grounded = 0)"@,
                            params: seq![SqlView::Text(job.engram.id)],
                        },
                    ),
                )
            } else {
                next == (
                    WriteStage::Relatives,
                    ActionView::FindRelatives {
                        statements: Seq::empty(),
                        lookups: lookups_for(
                            filled(job.engram, job.gates),
                            json_member(job.engram.context, "session_id"@),
                        ),
                    },
                )
            }
        },
        job.stage is Relatives ==> job.step(EventView::Related(found), now) == (
            WriteStage::Done,
            ActionView::Connect {
                links: capture_links(filled(job.engram, job.gates), found),
                outcome: OutcomeView::Inserted,
            },
        ),
{
}

/// The neighbours of a write are linked as the configuration says: at most so many, and none that
/// is less similar than asked for; and then its relatives are looked for, by what was filled in.
pub proof fn law_neighbours_are_linked_as_configured(
    job: JobView,
    stored: Seq<EmbeddedView>,
    scores: Seq<Measure>,
    now: Timestamp,
)
    requires
        job.stage is Neighbours,
        job.infer is Some,
        stored.len() == scores.len(),
    ensures
        job.step(EventView::Compared { stored, scores }, now) == (
            WriteStage::Relatives,
            ActionView::FindRelatives {
                statements: inferred_links(
                    job.engram.id,
                    job.engram.imagined && !job.engram.grounded,
                    nearest(
                        stored,
                        scores,
                        Some(job.infer->0.min_similarity),
                        Seq::empty(),
                        job.infer->0.max_links,
                    ),
                ),
                lookups: lookups_for(
                    filled(job.engram, job.gates),
                    json_member(job.engram.context, "session_id"@),
                ),
            },
        ),
{
}

/// The project of a capture is read from the directory, the repository and the project that its
/// context names, in this order.
pub proof fn law_project_is_read_from_the_context(context: Seq<char>)
    ensures
        ({
            let directory = json_member(context, "cwd"@);
            let repo = json_member(context, "repo"@);
            let project = json_member(context, "project"@);
            &&& project_of(context) == project_from(directory, repo, project)
            &&& directory is None && repo is None && project is None ==> project_of(context) is None
        }),
{
}

/// A directory that is only slashes, or whose last segment is the dot, names no project.
pub proof fn law_directory_without_a_name_is_passed_over(
    head: Seq<char>,
    slashes: Seq<char>,
    repo: Option<Seq<char>>,
    project: Option<Seq<char>>,
)
    requires
        head.len() > 0 ==> head.last() == '/',
        forall|i: int| 0 <= i < slashes.len() ==> #[trigger] slashes[i] == '/',
    ensures
        project_from(Some(slashes), repo, project) == project_from(None, repo, project),
        project_from(Some(head + "."@ + slashes), repo, project) == project_from(
            None,
            repo,
            project,
        ),
    decreases slashes.len(),
{
    reveal_strlit(".");
    if slashes.len() == 0 {
        let s = head + "."@;
        assert(head + "."@ + slashes =~= s);
        assert(s.drop_last() =~= head);
        assert(behind_slash(head) =~= Seq::empty());
        assert(without_slashes(s) == s);
        reveal_with_fuel(behind_slash, 2);
        assert(last_segment(s) =~= "."@);
        assert(last_segment(slashes) =~= Seq::empty());
    } else {
        let fewer = slashes.drop_last();
        assert forall|i: int| 0 <= i < fewer.len() implies #[trigger] fewer[i] == '/' by {
            assert(slashes[i] == '/');
        }
        law_directory_without_a_name_is_passed_over(head, fewer, repo, project);
        assert(slashes.last() == '/');
        assert((head + "."@ + slashes).drop_last() =~= head + "."@ + fewer);
        assert(without_slashes(head + "."@ + slashes) == without_slashes(head + "."@ + fewer));
        assert(without_slashes(slashes) == without_slashes(fewer));
    }
}

/// A curated write is stored at once, whatever it holds.
pub proof fn law_curated_write_is_stored_at_once(job: JobView, now: Timestamp)
    requires
        job.stage is Begin,
        !job.gates,
    ensures
        job.step(EventView::Start, now) == job.storing(now),
{
}

} // verus!
