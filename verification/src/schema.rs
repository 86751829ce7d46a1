//! The tables of a vault, and how an older vault is brought up to date.
use crate::engram::{EngramLayer, EngramSource, LinkType, PrivacyLevel};
use crate::noise::{hash_of, normalized_hash};
use crate::sql::{
    lemma_statements_push, plain, plain_of, row_views, statement_views, text_at, text_column,
    text_value, value_views, with2, Row, SqlValue, SqlView, Statement, StatementView,
};
use crate::tables::Cells;
use crate::text::{
    chars_of, concat, concat3, contains, decimal, decimal_text, join_texts, joined, occurs_at,
    occurs_in, text_eq, texts,
};
use vstd::prelude::*;

verus! {

/// The current version of the tables.
pub const CURRENT_SCHEMA_VERSION: i32 = 6;

/// The singleton state of the vault's character.
pub const COHERENCE_TABLE: &'static str = "CREATE TABLE IF NOT EXISTS coherence_state (id INTEGER PRIMARY KEY DEFAULT 1, baseline_valence REAL NOT NULL DEFAULT 0.3, character_strengths TEXT NOT NULL, purpose_vector TEXT NOT NULL, last_hygiene_daily TEXT, last_hygiene_weekly TEXT, drift_score REAL DEFAULT 0.0, updated_at TEXT NOT NULL)";

/// Goals.
pub const GOALS_TABLE: &'static str = "CREATE TABLE IF NOT EXISTS goals (id TEXT PRIMARY KEY, description TEXT NOT NULL, pathways TEXT NOT NULL, agency_score REAL DEFAULT 0.5, created_at TEXT NOT NULL, status TEXT DEFAULT 'active' CHECK(status IN ('active','achieved','released')))";

/// Past consolidations.
pub const RUNS_TABLE: &'static str = "CREATE TABLE IF NOT EXISTS consolidation_runs (id TEXT PRIMARY KEY, run_at TEXT NOT NULL, episodes_processed INTEGER, semantics_created INTEGER, engrams_decayed INTEGER, notes TEXT)";

/// Engrams by layer.
pub const LAYER_INDEX: &'static str = "CREATE INDEX IF NOT EXISTS idx_engrams_layer ON engrams(layer)";

/// Engrams by source.
pub const SOURCE_INDEX: &'static str = "CREATE INDEX IF NOT EXISTS idx_engrams_source ON engrams(source)";

/// Engrams by time of creation.
pub const CREATED_INDEX: &'static str = "CREATE INDEX IF NOT EXISTS idx_engrams_created_at ON engrams(created_at)";

/// Engrams by whether they are imagined.
pub const IMAGINED_INDEX: &'static str = "CREATE INDEX IF NOT EXISTS idx_engrams_imagined ON engrams(imagined)";

/// Links by source.
pub const LINK_SOURCE_INDEX: &'static str = "CREATE INDEX IF NOT EXISTS idx_engram_links_source ON engram_links(source_id)";

/// Links by target.
pub const LINK_TARGET_INDEX: &'static str = "CREATE INDEX IF NOT EXISTS idx_engram_links_target ON engram_links(target_id)";

/// Counters of the application.
pub const METRICS_TABLE: &'static str = "CREATE TABLE IF NOT EXISTS app_metrics (key TEXT PRIMARY KEY, value INTEGER NOT NULL)";

/// Embeddings for the search by meaning.
pub const EMBEDDINGS_TABLE: &'static str = "CREATE TABLE IF NOT EXISTS engram_embeddings (engram_id TEXT PRIMARY KEY REFERENCES engrams(id) ON DELETE CASCADE, embedding BLOB NOT NULL, model TEXT NOT NULL DEFAULT 'all-MiniLM-L6-v2', dimensions INTEGER NOT NULL DEFAULT 384, created_at TEXT NOT NULL)";

/// Embeddings by time of creation.
pub const EMBEDDINGS_INDEX: &'static str = "CREATE INDEX IF NOT EXISTS idx_embeddings_created ON engram_embeddings(created_at)";

/// What a memory rests on.
pub const EVIDENCE_TABLE: &'static str = "CREATE TABLE IF NOT EXISTS memory_evidence (memory_id TEXT NOT NULL REFERENCES engrams(id) ON DELETE CASCADE, evidence_id TEXT NOT NULL REFERENCES engrams(id) ON DELETE CASCADE, relationship TEXT NOT NULL DEFAULT 'supports', PRIMARY KEY (memory_id, evidence_id))";

/// Evidence by memory.
pub const EVIDENCE_MEMORY_INDEX: &'static str = "CREATE INDEX IF NOT EXISTS idx_memory_evidence_memory ON memory_evidence(memory_id)";

/// Evidence by what it is.
pub const EVIDENCE_INDEX: &'static str = "CREATE INDEX IF NOT EXISTS idx_memory_evidence_evidence ON memory_evidence(evidence_id)";

/// Notes of the user on memories.
pub const ANNOTATIONS_TABLE: &'static str = "CREATE TABLE IF NOT EXISTS annotations (id TEXT PRIMARY KEY, memory_id TEXT NOT NULL REFERENCES engrams(id) ON DELETE CASCADE, content TEXT NOT NULL, created_at TEXT NOT NULL)";

/// Notes by memory.
pub const ANNOTATIONS_INDEX: &'static str = "CREATE INDEX IF NOT EXISTS idx_annotations_memory ON annotations(memory_id)";

/// Watchlists.
pub const SEARCHES_TABLE: &'static str = "CREATE TABLE IF NOT EXISTS saved_searches (id TEXT PRIMARY KEY, query TEXT NOT NULL DEFAULT '', layer TEXT, tags TEXT, notify INTEGER NOT NULL DEFAULT 0, created_at TEXT NOT NULL, last_checked_at TEXT)";

/// Deletions that replicas have yet to learn of.
pub const TOMBSTONES_TABLE: &'static str = "CREATE TABLE IF NOT EXISTS tombstones (id TEXT PRIMARY KEY, deleted_at TEXT NOT NULL)";

/// Who read or exported which memory when. There is no reference to the memory: what is recorded
/// here outlives it.
pub const ACCESS_TABLE: &'static str = "CREATE TABLE IF NOT EXISTS access_events (memory_id TEXT NOT NULL, op TEXT NOT NULL CHECK(op IN ('get','search_hit','export')), client TEXT, content_hash TEXT, at TEXT NOT NULL)";

/// The text index, by the stems of words. It is kept in step by the library, not by triggers.
pub const TEXT_INDEX: &'static str = "CREATE VIRTUAL TABLE IF NOT EXISTS engrams_fts USING fts5(id, content, tokenize = 'porter unicode61')";

/// An old trigger.
pub const DROP_INSERT_TRIGGER: &'static str = "DROP TRIGGER IF EXISTS engrams_ai";

/// An old trigger.
pub const DROP_DELETE_TRIGGER: &'static str = "DROP TRIGGER IF EXISTS engrams_ad";

/// An old trigger.
pub const DROP_UPDATE_TRIGGER: &'static str = "DROP TRIGGER IF EXISTS engrams_au";

/// Drops the text index.
pub const DROP_TEXT_INDEX: &'static str = "DROP TABLE IF EXISTS engrams_fts";

/// Makes the text index anew.
pub const NEW_TEXT_INDEX: &'static str = "CREATE VIRTUAL TABLE engrams_fts USING fts5(id, content, tokenize = 'porter unicode61')";

/// What the declaration of a text index by stems holds.
pub const STEMMER: &'static str = "'porter unicode61'";

/// Puts every engram into the text index.
pub const FILL_TEXT_INDEX: &'static str = "INSERT INTO engrams_fts(rowid, id, content) SELECT rowid, id, content FROM engrams";

/// Drops the table that was copied.
pub const DROP_ENGRAMS: &'static str = "DROP TABLE engrams";

/// Gives old rows a scope.
pub const FILL_SCOPE: &'static str = "UPDATE engrams SET scope = 'moment' WHERE scope IS NULL OR scope = ''";

/// Gives old rows a content type.
pub const FILL_CONTENT_TYPE: &'static str = "UPDATE engrams SET content_type = 'text' WHERE content_type IS NULL OR content_type = ''";

/// Engrams by content hash.
pub const HASH_INDEX: &'static str = "CREATE INDEX IF NOT EXISTS idx_engrams_content_hash ON engrams(content_hash)";

/// The rows without a content hash.
pub const UNHASHED: &'static str = "SELECT id, content FROM engrams WHERE content_hash IS NULL";

/// Rows that were never edited were last modified when they were created.
pub const FILL_MODIFIED: &'static str = "UPDATE engrams SET modified_at = created_at WHERE modified_at IS NULL";

/// Engrams by time of the last edit.
pub const MODIFIED_INDEX: &'static str = "CREATE INDEX IF NOT EXISTS idx_engrams_modified_at ON engrams(modified_at)";

/// Rows from before the push cursor count as pushed.
pub const FILL_SYNCED: &'static str = "UPDATE engrams SET synced_at = modified_at WHERE synced_at IS NULL";

/// A text between single quotes.
pub open spec fn quoted(s: Seq<char>) -> Seq<char> {
    "'"@ + s + "'"@
}

/// Every text between single quotes.
pub open spec fn all_quoted(names: Seq<Seq<char>>) -> Seq<Seq<char>> {
    names.map_values(|s: Seq<char>| quoted(s))
}

/// The constraint that a column holds one of some names.
pub open spec fn one_of(column: Seq<char>, names: Seq<Seq<char>>) -> Seq<char> {
    "CHECK("@ + column + " IN ("@ + joined(all_quoted(names), ","@) + "))"@
}

/// The constraint that a column holds one of some names.
pub fn one_of_text(column: &str, names: &Vec<String>) -> (r: String)
    ensures
        r@ == one_of(column@, texts(names@)),
{
    let mut list: Vec<String> = Vec::new();
    let mut i: usize = 0;
    while i < names.len()
        invariant
            i <= names@.len(),
            texts(list@) == all_quoted(texts(names@)).take(i as int),
        decreases names@.len() - i,
    {
        let next = concat3("'", names[i].as_str(), "'");
        proof {
            assert(texts(list@.push(next)) =~= texts(list@).push(next@));
            assert(all_quoted(texts(names@)).take(i + 1) =~= all_quoted(texts(names@)).take(
                i as int,
            ).push(all_quoted(texts(names@))[i as int]));
        }
        list.push(next);
        i += 1;
    }
    proof {
        assert(all_quoted(texts(names@)).take(names@.len() as int) =~= all_quoted(texts(names@)));
    }
    let inner = join_texts(&list, ",");
    let head = concat3("CHECK(", column, " IN (");
    concat3(head.as_str(), inner.as_str(), "))")
}

/// The layers that the table of engrams admits.
pub open spec fn layer_names() -> Seq<Seq<char>> {
    seq![
        EngramLayer::Episodic.name(),
        EngramLayer::Semantic.name(),
        EngramLayer::Imagined.name(),
    ]
}

fn list_layer_names() -> (r: Vec<String>)
    ensures
        texts(r@) == layer_names(),
{
    let mut v: Vec<String> = Vec::new();
    v.push(EngramLayer::Episodic.as_str().to_string());
    v.push(EngramLayer::Semantic.as_str().to_string());
    v.push(EngramLayer::Imagined.as_str().to_string());
    assert(texts(v@) =~= layer_names());
    v
}

/// The sources that the table of engrams admits.
pub open spec fn source_names() -> Seq<Seq<char>> {
    seq![
        EngramSource::Interaction.name(),
        EngramSource::Sensor.name(),
        EngramSource::Consolidation.name(),
        EngramSource::Imagined.name(),
        EngramSource::Chat.name(),
        EngramSource::Slack.name(),
        EngramSource::Discord.name(),
        EngramSource::Telegram.name(),
        EngramSource::Window.name(),
        EngramSource::Mic.name(),
        EngramSource::Agent.name(),
        EngramSource::Research.name(),
        EngramSource::System.name(),
        "user"@,
        EngramSource::Observation.name(),
        EngramSource::AiSession.name(),
        EngramSource::AiTool.name(),
    ]
}

fn list_source_names() -> (r: Vec<String>)
    ensures
        texts(r@) == source_names(),
{
    let mut v: Vec<String> = Vec::new();
    v.push(EngramSource::Interaction.as_str().to_string());
    v.push(EngramSource::Sensor.as_str().to_string());
    v.push(EngramSource::Consolidation.as_str().to_string());
    v.push(EngramSource::Imagined.as_str().to_string());
    v.push(EngramSource::Chat.as_str().to_string());
    v.push(EngramSource::Slack.as_str().to_string());
    v.push(EngramSource::Discord.as_str().to_string());
    v.push(EngramSource::Telegram.as_str().to_string());
    v.push(EngramSource::Window.as_str().to_string());
    v.push(EngramSource::Mic.as_str().to_string());
    v.push(EngramSource::Agent.as_str().to_string());
    v.push(EngramSource::Research.as_str().to_string());
    v.push(EngramSource::System.as_str().to_string());
    v.push("user".to_string());
    v.push(EngramSource::Observation.as_str().to_string());
    v.push(EngramSource::AiSession.as_str().to_string());
    v.push(EngramSource::AiTool.as_str().to_string());
    assert(texts(v@) =~= source_names());
    v
}

/// The privacy levels that the table of engrams admits.
pub open spec fn privacy_names() -> Seq<Seq<char>> {
    seq![
        PrivacyLevel::StrictLocal.name(),
        PrivacyLevel::Hybrid.name(),
        PrivacyLevel::CloudFirst.name(),
        PrivacyLevel::Enterprise.name(),
    ]
}

fn list_privacy_names() -> (r: Vec<String>)
    ensures
        texts(r@) == privacy_names(),
{
    let mut v: Vec<String> = Vec::new();
    v.push(PrivacyLevel::StrictLocal.as_str().to_string());
    v.push(PrivacyLevel::Hybrid.as_str().to_string());
    v.push(PrivacyLevel::CloudFirst.as_str().to_string());
    v.push(PrivacyLevel::Enterprise.as_str().to_string());
    assert(texts(v@) =~= privacy_names());
    v
}

/// The types that the table of links admits.
pub open spec fn link_names() -> Seq<Seq<char>> {
    seq![
        LinkType::Associative.name(),
        LinkType::Causal.name(),
        LinkType::Analogical.name(),
        LinkType::Temporal.name(),
    ]
}

fn list_link_names() -> (r: Vec<String>)
    ensures
        texts(r@) == link_names(),
{
    let mut v: Vec<String> = Vec::new();
    v.push(LinkType::Associative.as_str().to_string());
    v.push(LinkType::Causal.as_str().to_string());
    v.push(LinkType::Analogical.as_str().to_string());
    v.push(LinkType::Temporal.as_str().to_string());
    assert(texts(v@) =~= link_names());
    v
}

/// A column and how it is declared.
#[derive(Debug)]
pub struct Column {
    pub name: String,
    pub decl: String,
}

/// A column, as seen in contracts.
#[verifier::ext_equal]
pub struct ColumnView {
    pub name: Seq<char>,
    pub decl: Seq<char>,
}

impl View for Column {
    type V = ColumnView;

    open spec fn view(&self) -> ColumnView {
        ColumnView { name: self.name@, decl: self.decl@ }
    }
}

impl ColumnView {
    /// The column as it stands in a statement.
    pub open spec fn line(self) -> Seq<char> {
        self.name + " "@ + self.decl
    }
}

/// What a list of columns says.
pub open spec fn column_views(v: Seq<Column>) -> Seq<ColumnView> {
    v.map_values(|c: Column| c@)
}

/// The lines of a list of columns.
pub open spec fn lines(v: Seq<ColumnView>) -> Seq<Seq<char>> {
    v.map_values(|c: ColumnView| c.line())
}

/// The names of a list of columns.
pub open spec fn names_of(v: Seq<ColumnView>) -> Seq<Seq<char>> {
    v.map_values(|c: ColumnView| c.name)
}

fn column(name: &str, decl: &str) -> (r: Column)
    ensures
        r@ == (ColumnView { name: name@, decl: decl@ }),
{
    Column { name: name.to_string(), decl: decl.to_string() }
}

fn checked_column(name: &str, decl: &str, names: &Vec<String>) -> (r: Column)
    ensures
        r@ == (ColumnView { name: name@, decl: decl@ + one_of(name@, texts(names@)) }),
{
    let check = one_of_text(name, names);
    Column { name: name.to_string(), decl: concat(decl, check.as_str()) }
}

/// The columns that every table of engrams has had.
pub open spec fn first_columns() -> Seq<ColumnView> {
    seq![
        ColumnView { name: "id"@, decl: "TEXT PRIMARY KEY"@ },
        ColumnView { name: "layer"@, decl: "TEXT NOT NULL "@ + one_of("layer"@, layer_names()) },
        ColumnView { name: "source"@, decl: "TEXT NOT NULL DEFAULT 'interaction' "@ + one_of("source"@, source_names()) },
        ColumnView { name: "privacy_level"@, decl: "TEXT NOT NULL DEFAULT 'cloud_first' "@ + one_of("privacy_level"@, privacy_names()) },
        ColumnView { name: "content"@, decl: "TEXT NOT NULL"@ },
        ColumnView { name: "context"@, decl: "TEXT NOT NULL"@ },
        ColumnView { name: "strength"@, decl: "REAL NOT NULL DEFAULT 1.0"@ },
        ColumnView { name: "valence"@, decl: "REAL NOT NULL DEFAULT 0.0 CHECK(valence BETWEEN -1.0 AND 1.0)"@ },
        ColumnView { name: "retrievals"@, decl: "INTEGER NOT NULL DEFAULT 0"@ },
        ColumnView { name: "imagined"@, decl: "INTEGER NOT NULL DEFAULT 0"@ },
        ColumnView { name: "grounded"@, decl: "INTEGER NOT NULL DEFAULT 0"@ },
        ColumnView { name: "created_at"@, decl: "TEXT NOT NULL"@ },
        ColumnView { name: "last_retrieved"@, decl: "TEXT"@ },
        ColumnView { name: "project"@, decl: "TEXT"@ },
        ColumnView { name: "tags"@, decl: "TEXT"@ },
    ]
}

/// The columns of a new table of engrams.
pub open spec fn fresh_columns() -> Seq<ColumnView> {
    first_columns() + seq![
        ColumnView { name: "content_hash"@, decl: "TEXT"@ },
        ColumnView { name: "modified_at"@, decl: "TEXT"@ },
    ]
}

/// The columns of a table of engrams that is rebuilt.
pub open spec fn rebuilt_columns() -> Seq<ColumnView> {
    first_columns() + seq![
        ColumnView { name: "content_hash"@, decl: "TEXT"@ },
        ColumnView { name: "scope"@, decl: "TEXT NOT NULL DEFAULT 'moment'"@ },
        ColumnView { name: "content_type"@, decl: "TEXT NOT NULL DEFAULT 'text'"@ },
        ColumnView { name: "occurred_at"@, decl: "TEXT"@ },
    ]
}

/// The columns of a table of engrams that is widened: all that there are.
pub open spec fn widened_columns() -> Seq<ColumnView> {
    rebuilt_columns() + seq![
        ColumnView { name: "modified_at"@, decl: "TEXT"@ },
        ColumnView { name: "synced_at"@, decl: "TEXT"@ },
        ColumnView { name: "agent_id"@, decl: "TEXT"@ },
    ]
}

fn list_first_columns() -> (r: Vec<Column>)
    ensures
        column_views(r@) == first_columns(),
{
    let mut v: Vec<Column> = Vec::new();
    v.push(column("id", "TEXT PRIMARY KEY"));
    v.push(checked_column("layer", "TEXT NOT NULL ", &list_layer_names()));
    v.push(checked_column("source", "TEXT NOT NULL DEFAULT 'interaction' ", &list_source_names()));
    v.push(checked_column("privacy_level", "TEXT NOT NULL DEFAULT 'cloud_first' ", &list_privacy_names()));
    v.push(column("content", "TEXT NOT NULL"));
    v.push(column("context", "TEXT NOT NULL"));
    v.push(column("strength", "REAL NOT NULL DEFAULT 1.0"));
    v.push(column("valence", "REAL NOT NULL DEFAULT 0.0 CHECK(valence BETWEEN -1.0 AND 1.0)"));
    v.push(column("retrievals", "INTEGER NOT NULL DEFAULT 0"));
    v.push(column("imagined", "INTEGER NOT NULL DEFAULT 0"));
    v.push(column("grounded", "INTEGER NOT NULL DEFAULT 0"));
    v.push(column("created_at", "TEXT NOT NULL"));
    v.push(column("last_retrieved", "TEXT"));
    v.push(column("project", "TEXT"));
    v.push(column("tags", "TEXT"));
    assert(column_views(v@) =~= first_columns());
    v
}

fn list_fresh_columns() -> (r: Vec<Column>)
    ensures
        column_views(r@) == fresh_columns(),
{
    let mut v = list_first_columns();
    let ghost first = v@;
    v.push(column("content_hash", "TEXT"));
    v.push(column("modified_at", "TEXT"));
    proof {
        assert(column_views(v@).len() == fresh_columns().len());
        assert forall|i: int| 0 <= i < v@.len() implies column_views(v@)[i] == fresh_columns()[i] by {
            if i < first.len() {
                assert(column_views(first)[i] == first[i]@);
            }
        }
        assert(column_views(v@) =~= fresh_columns());
    }
    v
}

fn list_rebuilt_columns() -> (r: Vec<Column>)
    ensures
        column_views(r@) == rebuilt_columns(),
{
    let mut v = list_first_columns();
    let ghost first = v@;
    v.push(column("content_hash", "TEXT"));
    v.push(column("scope", "TEXT NOT NULL DEFAULT 'moment'"));
    v.push(column("content_type", "TEXT NOT NULL DEFAULT 'text'"));
    v.push(column("occurred_at", "TEXT"));
    proof {
        assert(column_views(v@).len() == rebuilt_columns().len());
        assert forall|i: int| 0 <= i < v@.len() implies column_views(v@)[i] == rebuilt_columns()[i] by {
            if i < first.len() {
                assert(column_views(first)[i] == first[i]@);
            }
        }
        assert(column_views(v@) =~= rebuilt_columns());
    }
    v
}

fn list_widened_columns() -> (r: Vec<Column>)
    ensures
        column_views(r@) == widened_columns(),
{
    let mut v = list_rebuilt_columns();
    let ghost first = v@;
    v.push(column("modified_at", "TEXT"));
    v.push(column("synced_at", "TEXT"));
    v.push(column("agent_id", "TEXT"));
    proof {
        assert(column_views(first).len() == first.len());
        assert(column_views(v@).len() == widened_columns().len());
        assert forall|i: int| 0 <= i < v@.len() implies column_views(v@)[i] == widened_columns()[i] by {
            if i < first.len() {
                assert(column_views(first)[i] == first[i]@);
            }
        }
        assert(column_views(v@) =~= widened_columns());
    }
    v
}

/// The lines of a list of columns, one after another.
pub open spec fn body_of(v: Seq<ColumnView>) -> Seq<char> {
    joined(lines(v), ", "@)
}

fn body_text(columns: &Vec<Column>) -> (r: String)
    ensures
        r@ == body_of(column_views(columns@)),
{
    let mut list: Vec<String> = Vec::new();
    let mut i: usize = 0;
    while i < columns.len()
        invariant
            i <= columns@.len(),
            texts(list@) == lines(column_views(columns@)).take(i as int),
        decreases columns@.len() - i,
    {
        let next = concat3(columns[i].name.as_str(), " ", columns[i].decl.as_str());
        let ghost all = lines(column_views(columns@));
        proof {
            assert(texts(list@.push(next)) =~= texts(list@).push(next@));
            assert(all[i as int] == columns@[i as int]@.line());
            assert(all.take(i + 1) =~= all.take(i as int).push(all[i as int]));
        }
        list.push(next);
        i += 1;
    }
    proof {
        let all = lines(column_views(columns@));
        assert(all.take(columns@.len() as int) =~= all);
    }
    join_texts(&list, ", ")
}

/// Makes the table of engrams where there is none.
pub open spec fn engrams_table() -> StatementView {
    plain_of("CREATE TABLE IF NOT EXISTS engrams ("@ + body_of(fresh_columns()) + ")"@)
}

/// A table of engrams that takes the place of an older one.
#[derive(Debug, Clone, Copy, PartialEq, Eq, Structural)]
pub enum Shape {
    /// The table of the third version.
    Rebuilt,
    /// The present table.
    Widened,
}

/// The columns that the first three versions have in common when a table of engrams is rebuilt.
pub open spec fn copied_names() -> Seq<Seq<char>> {
    names_of(first_columns()) + seq!["scope"@, "content_type"@, "occurred_at"@]
}

impl Shape {
    /// The name of the table while it is filled.
    pub open spec fn table(self) -> Seq<char> {
        match self {
            Shape::Rebuilt => "engrams_v3"@,
            Shape::Widened => "engrams_v7"@,
        }
    }

    /// The columns of the table.
    pub open spec fn columns(self) -> Seq<ColumnView> {
        match self {
            Shape::Rebuilt => rebuilt_columns(),
            Shape::Widened => widened_columns(),
        }
    }

    /// The names of the columns that are copied from the older table.
    pub open spec fn copied(self) -> Seq<Seq<char>> {
        match self {
            Shape::Rebuilt => copied_names(),
            Shape::Widened => names_of(widened_columns()),
        }
    }

    /// The statement that makes the table.
    pub open spec fn creation(self) -> StatementView {
        plain_of("CREATE TABLE "@ + self.table() + " ("@ + body_of(self.columns()) + ")"@)
    }

    /// The statements that make the table, copy the rows, and put it in the place of the older
    /// one.
    pub open spec fn statements(self) -> Seq<StatementView> {
        let list = joined(self.copied(), ", "@);
        seq![
            self.creation(),
            plain_of(
                "INSERT INTO "@ + self.table() + " ("@ + list + ") SELECT "@ + list
                    + " FROM engrams"@,
            ),
            plain_of(DROP_ENGRAMS@),
            plain_of("ALTER TABLE "@ + self.table() + " RENAME TO engrams"@),
        ]
    }

    /// What becomes of a row: the cells of the copied columns stay, those of the others are null.
    pub open spec fn reshaped(self, row: Cells) -> Cells {
        Map::new(
            |name: Seq<char>| names_of(self.columns()).contains(name),
            |name: Seq<char>|
                if self.copied().contains(name) {
                    row[name]
                } else {
                    SqlView::Null
                },
        )
    }

    fn name(self) -> (r: &'static str)
        ensures
            r@ == self.table(),
    {
        match self {
            Shape::Rebuilt => "engrams_v3",
            Shape::Widened => "engrams_v7",
        }
    }

    fn list_columns(self) -> (r: Vec<Column>)
        ensures
            column_views(r@) == self.columns(),
    {
        match self {
            Shape::Rebuilt => list_rebuilt_columns(),
            Shape::Widened => list_widened_columns(),
        }
    }

    fn list_copied(self) -> (r: Vec<String>)
        ensures
            texts(r@) == self.copied(),
    {
        match self {
            Shape::Rebuilt => list_copied_names(),
            Shape::Widened => list_names(&list_widened_columns()),
        }
    }

    /// The statements that make the table, copy the rows, and put it in the place of the older
    /// one.
    pub fn list_statements(self) -> (r: Vec<Statement>)
        ensures
            statement_views(r@) == self.statements(),
    {
        let body = body_text(&self.list_columns());
        let list = join_texts(&self.list_copied(), ", ");
        let head = concat3("CREATE TABLE ", self.name(), " (");
        let create = concat3(head.as_str(), body.as_str(), ")");
        let into = concat3("INSERT INTO ", self.name(), " (");
        let from = concat3(into.as_str(), list.as_str(), ") SELECT ");
        let copy = concat3(from.as_str(), list.as_str(), " FROM engrams");
        let rename = concat3("ALTER TABLE ", self.name(), " RENAME TO engrams");
        let mut v: Vec<Statement> = Vec::new();
        v.push(plain(create.as_str()));
        v.push(plain(copy.as_str()));
        v.push(plain(DROP_ENGRAMS));
        v.push(plain(rename.as_str()));
        assert(statement_views(v@) =~= self.statements());
        v
    }
}

fn list_names(columns: &Vec<Column>) -> (r: Vec<String>)
    ensures
        texts(r@) == names_of(column_views(columns@)),
{
    let mut v: Vec<String> = Vec::new();
    let ghost all = names_of(column_views(columns@));
    let mut i: usize = 0;
    while i < columns.len()
        invariant
            i <= columns@.len(),
            all == names_of(column_views(columns@)),
            texts(v@) == all.take(i as int),
        decreases columns@.len() - i,
    {
        let next = columns[i].name.clone();
        proof {
            assert(all[i as int] == columns@[i as int]@.name);
            assert(texts(v@.push(next)) =~= texts(v@).push(next@));
            assert(all.take(i + 1) =~= all.take(i as int).push(all[i as int]));
        }
        v.push(next);
        i += 1;
    }
    proof {
        assert(all.take(all.len() as int) =~= all);
    }
    v
}

fn list_copied_names() -> (r: Vec<String>)
    ensures
        texts(r@) == copied_names(),
{
    let mut v = list_names(&list_first_columns());
    let ghost first = v@;
    v.push("scope".to_string());
    v.push("content_type".to_string());
    v.push("occurred_at".to_string());
    proof {
        assert(texts(first).len() == first.len());
        assert forall|i: int| 0 <= i < v@.len() implies texts(v@)[i] == copied_names()[i] by {
            if i < first.len() {
                assert(texts(first)[i] == first[i]@);
            }
        }
        assert(texts(v@) =~= copied_names());
    }
    v
}

/// Makes the table of links where there is none. A link goes when one of its ends goes.
pub open spec fn links_table() -> StatementView {
    plain_of(
        "CREATE TABLE IF NOT EXISTS engram_links (source_id TEXT NOT NULL REFERENCES engrams(id) ON DELETE CASCADE, target_id TEXT NOT NULL REFERENCES engrams(id) ON DELETE CASCADE, weight REAL NOT NULL DEFAULT 0.5, link_type TEXT NOT NULL "@
            + one_of("link_type"@, link_names()) + ", PRIMARY KEY (source_id, target_id))"@,
    )
}

/// The statements that make the tables and indexes of a vault where they are missing.
pub open spec fn table_statements() -> Seq<StatementView> {
    seq![
        engrams_table(),
        links_table(),
        plain_of(COHERENCE_TABLE@),
        plain_of(GOALS_TABLE@),
        plain_of(RUNS_TABLE@),
        plain_of(LAYER_INDEX@),
        plain_of(SOURCE_INDEX@),
        plain_of(CREATED_INDEX@),
        plain_of(IMAGINED_INDEX@),
        plain_of(LINK_SOURCE_INDEX@),
        plain_of(LINK_TARGET_INDEX@),
        plain_of(METRICS_TABLE@),
        plain_of(EMBEDDINGS_TABLE@),
        plain_of(EMBEDDINGS_INDEX@),
        plain_of(EVIDENCE_TABLE@),
        plain_of(EVIDENCE_MEMORY_INDEX@),
        plain_of(EVIDENCE_INDEX@),
        plain_of(ANNOTATIONS_TABLE@),
        plain_of(ANNOTATIONS_INDEX@),
        plain_of(SEARCHES_TABLE@),
        plain_of(TOMBSTONES_TABLE@),
        plain_of(ACCESS_TABLE@),
        plain_of(TEXT_INDEX@),
    ]
}

/// The statements that make the tables and indexes of a vault where they are missing.
///
/// The index on the content hash is not among them: an older table has no such column before
/// [`migrate`] adds it.
pub fn create_tables() -> (r: Vec<Statement>)
    ensures
        statement_views(r@) == table_statements(),
{
    let columns = list_fresh_columns();
    let body = body_text(&columns);
    let engrams = concat3("CREATE TABLE IF NOT EXISTS engrams (", body.as_str(), ")");
    let check = one_of_text("link_type", &list_link_names());
    let links = concat3(
        "CREATE TABLE IF NOT EXISTS engram_links (source_id TEXT NOT NULL REFERENCES engrams(id) ON DELETE CASCADE, target_id TEXT NOT NULL REFERENCES engrams(id) ON DELETE CASCADE, weight REAL NOT NULL DEFAULT 0.5, link_type TEXT NOT NULL ",
        check.as_str(),
        ", PRIMARY KEY (source_id, target_id))",
    );
    let mut v: Vec<Statement> = Vec::new();
    v.push(plain(engrams.as_str()));
    v.push(plain(links.as_str()));
    v.push(plain(COHERENCE_TABLE));
    v.push(plain(GOALS_TABLE));
    v.push(plain(RUNS_TABLE));
    v.push(plain(LAYER_INDEX));
    v.push(plain(SOURCE_INDEX));
    v.push(plain(CREATED_INDEX));
    v.push(plain(IMAGINED_INDEX));
    v.push(plain(LINK_SOURCE_INDEX));
    v.push(plain(LINK_TARGET_INDEX));
    v.push(plain(METRICS_TABLE));
    v.push(plain(EMBEDDINGS_TABLE));
    v.push(plain(EMBEDDINGS_INDEX));
    v.push(plain(EVIDENCE_TABLE));
    v.push(plain(EVIDENCE_MEMORY_INDEX));
    v.push(plain(EVIDENCE_INDEX));
    v.push(plain(ANNOTATIONS_TABLE));
    v.push(plain(ANNOTATIONS_INDEX));
    v.push(plain(SEARCHES_TABLE));
    v.push(plain(TOMBSTONES_TABLE));
    v.push(plain(ACCESS_TABLE));
    v.push(plain(TEXT_INDEX));
    assert(statement_views(v@) =~= table_statements());
    v
}

/// A statement that touches no row of the table of engrams, no link and no embedding.
#[derive(Debug, Clone, Copy, PartialEq, Eq, Structural)]
pub enum Upkeep {
    LayerIndex,
    SourceIndex,
    CreatedIndex,
    ImaginedIndex,
    HashIndex,
    ModifiedIndex,
    MetricsTable,
    DropInsertTrigger,
    DropDeleteTrigger,
    DropUpdateTrigger,
}

impl Upkeep {
    /// The statement's text.
    pub open spec fn text(self) -> Seq<char> {
        match self {
            Upkeep::LayerIndex => LAYER_INDEX@,
            Upkeep::SourceIndex => SOURCE_INDEX@,
            Upkeep::CreatedIndex => CREATED_INDEX@,
            Upkeep::ImaginedIndex => IMAGINED_INDEX@,
            Upkeep::HashIndex => HASH_INDEX@,
            Upkeep::ModifiedIndex => MODIFIED_INDEX@,
            Upkeep::MetricsTable => METRICS_TABLE@,
            Upkeep::DropInsertTrigger => DROP_INSERT_TRIGGER@,
            Upkeep::DropDeleteTrigger => DROP_DELETE_TRIGGER@,
            Upkeep::DropUpdateTrigger => DROP_UPDATE_TRIGGER@,
        }
    }

    /// The statement's text.
    pub fn sql(self) -> (r: &'static str)
        ensures
            r@ == self.text(),
    {
        match self {
            Upkeep::LayerIndex => LAYER_INDEX,
            Upkeep::SourceIndex => SOURCE_INDEX,
            Upkeep::CreatedIndex => CREATED_INDEX,
            Upkeep::ImaginedIndex => IMAGINED_INDEX,
            Upkeep::HashIndex => HASH_INDEX,
            Upkeep::ModifiedIndex => MODIFIED_INDEX,
            Upkeep::MetricsTable => METRICS_TABLE,
            Upkeep::DropInsertTrigger => DROP_INSERT_TRIGGER,
            Upkeep::DropDeleteTrigger => DROP_DELETE_TRIGGER,
            Upkeep::DropUpdateTrigger => DROP_UPDATE_TRIGGER,
        }
    }
}

/// A statement that fills the empty cells of a column.
#[derive(Debug, Clone, Copy, PartialEq, Eq, Structural)]
pub enum Fill {
    Scope,
    ContentType,
    Modified,
    Synced,
}

impl Fill {
    /// The statement's text.
    pub open spec fn text(self) -> Seq<char> {
        match self {
            Fill::Scope => FILL_SCOPE@,
            Fill::ContentType => FILL_CONTENT_TYPE@,
            Fill::Modified => FILL_MODIFIED@,
            Fill::Synced => FILL_SYNCED@,
        }
    }

    /// What the statement makes of a row.
    pub open spec fn filled(self, row: Cells) -> Cells {
        match self {
            Fill::Scope => if row["scope"@] is Null || row["scope"@] == SqlView::Text(""@) {
                row.insert("scope"@, SqlView::Text("moment"@))
            } else {
                row
            },
            Fill::ContentType => if row["content_type"@] is Null || row["content_type"@]
                == SqlView::Text(""@) {
                row.insert("content_type"@, SqlView::Text("text"@))
            } else {
                row
            },
            Fill::Modified => if row["modified_at"@] is Null {
                row.insert("modified_at"@, row["created_at"@])
            } else {
                row
            },
            Fill::Synced => if row["synced_at"@] is Null {
                row.insert("synced_at"@, row["modified_at"@])
            } else {
                row
            },
        }
    }

    /// The statement's text.
    pub fn sql(self) -> (r: &'static str)
        ensures
            r@ == self.text(),
    {
        match self {
            Fill::Scope => FILL_SCOPE,
            Fill::ContentType => FILL_CONTENT_TYPE,
            Fill::Modified => FILL_MODIFIED,
            Fill::Synced => FILL_SYNCED,
        }
    }
}

/// One step of a migration.
#[derive(Debug)]
pub enum Step {
    /// Run the statement.
    Run(Upkeep),
    /// Add the column to the table of engrams.
    Add(Column),
    /// Fill the empty cells of a column of the table of engrams.
    Fill(Fill),
    /// Put a new table in the place of the table of engrams.
    Recreate(Shape),
    /// Make the text index anew, by stems, with every engram in it.
    Reindex,
    /// Run the query and the statements that [`hash_backfill`] makes of its rows.
    Backfill(Statement),
    /// Mark the vault as being of the version.
    Stamp(u64),
}

/// One step of a migration, as seen in contracts.
#[verifier::ext_equal]
pub enum StepView {
    Run(Upkeep),
    Add(ColumnView),
    Fill(Fill),
    Recreate(Shape),
    Reindex,
    Backfill(StatementView),
    Stamp(u64),
}

impl View for Step {
    type V = StepView;

    open spec fn view(&self) -> StepView {
        match self {
            Step::Run(u) => StepView::Run(*u),
            Step::Add(c) => StepView::Add(c@),
            Step::Fill(f) => StepView::Fill(*f),
            Step::Recreate(shape) => StepView::Recreate(*shape),
            Step::Reindex => StepView::Reindex,
            Step::Backfill(s) => StepView::Backfill(s@),
            Step::Stamp(n) => StepView::Stamp(*n),
        }
    }
}

/// What a list of steps says.
pub open spec fn step_views(v: Seq<Step>) -> Seq<StepView> {
    v.map_values(|s: Step| s@)
}

impl StepView {
    /// The statements that a step runs before it looks at any row.
    pub open spec fn statements(self) -> Seq<StatementView> {
        match self {
            StepView::Run(u) => seq![plain_of(u.text())],
            StepView::Add(c) => seq![plain_of("ALTER TABLE engrams ADD COLUMN "@ + c.line())],
            StepView::Fill(f) => seq![plain_of(f.text())],
            StepView::Recreate(shape) => shape.statements(),
            StepView::Reindex => seq![
                plain_of(DROP_TEXT_INDEX@),
                plain_of(NEW_TEXT_INDEX@),
                plain_of(FILL_TEXT_INDEX@),
            ],
            StepView::Backfill(_) => Seq::empty(),
            StepView::Stamp(n) => seq![plain_of("PRAGMA user_version = "@ + decimal(n as nat))],
        }
    }
}

impl Step {
    /// The statements that a step runs before it looks at any row.
    pub fn statements(self) -> (r: Vec<Statement>)
        ensures
            statement_views(r@) == self@.statements(),
    {
        let mut v: Vec<Statement> = Vec::new();
        let ghost want = self@.statements();
        match self {
            Step::Run(u) => {
                v.push(plain(u.sql()));
            },
            Step::Add(c) => {
                let line = concat3(c.name.as_str(), " ", c.decl.as_str());
                let sql = concat("ALTER TABLE engrams ADD COLUMN ", line.as_str());
                v.push(plain(sql.as_str()));
            },
            Step::Fill(f) => {
                v.push(plain(f.sql()));
            },
            Step::Recreate(shape) => {
                return shape.list_statements();
            },
            Step::Reindex => {
                v.push(plain(DROP_TEXT_INDEX));
                v.push(plain(NEW_TEXT_INDEX));
                v.push(plain(FILL_TEXT_INDEX));
            },
            Step::Backfill(_) => {},
            Step::Stamp(n) => {
                let digits = decimal_text(n);
                let sql = concat("PRAGMA user_version = ", digits.as_str());
                v.push(plain(sql.as_str()));
            },
        }
        assert(statement_views(v@) =~= want);
        v
    }
}

/// A migration: its steps run in one transaction, all or none. Where foreign keys must not act
/// meanwhile, they are switched off before it begins and on again when it ended, whether it
/// succeeded or was rolled back.
#[derive(Debug)]
pub struct Migration {
    pub suspends_foreign_keys: bool,
    pub steps: Vec<Step>,
}

/// A migration, as seen in contracts.
#[verifier::ext_equal]
pub struct MigrationView {
    pub suspends_foreign_keys: bool,
    pub steps: Seq<StepView>,
}

impl View for Migration {
    type V = MigrationView;

    open spec fn view(&self) -> MigrationView {
        MigrationView {
            suspends_foreign_keys: self.suspends_foreign_keys,
            steps: step_views(self.steps@),
        }
    }
}

/// What a list of migrations says.
pub open spec fn migration_views(v: Seq<Migration>) -> Seq<MigrationView> {
    v.map_values(|m: Migration| m@)
}

/// What the migrations read and change of a vault.
#[verifier::ext_equal]
pub struct SchemaView {
    pub version: int,
    /// The names of the columns of the table of engrams.
    pub columns: Seq<Seq<char>>,
    pub foreign_keys: bool,
    /// Whether the table of engrams admits every source that the library writes.
    pub admits: bool,
    /// Whether the text index goes by the stems of words.
    pub stems: bool,
}

impl SchemaView {
    /// What a step makes of a vault.
    pub open spec fn stepped(self, step: StepView) -> SchemaView {
        match step {
            StepView::Run(_) | StepView::Fill(_) | StepView::Backfill(_) => self,
            StepView::Add(c) => SchemaView { columns: self.columns.push(c.name), ..self },
            StepView::Recreate(shape) => SchemaView {
                columns: names_of(shape.columns()),
                admits: true,
                ..self
            },
            StepView::Reindex => SchemaView { stems: true, ..self },
            StepView::Stamp(n) => SchemaView { version: n as int, ..self },
        }
    }

    /// What a list of steps makes of a vault.
    pub open spec fn walked(self, steps: Seq<StepView>) -> SchemaView
        decreases steps.len(),
    {
        if steps.len() == 0 {
            self
        } else {
            self.walked(steps.drop_last()).stepped(steps.last())
        }
    }

    /// What a list of migrations makes of a vault.
    pub open spec fn migrated(self, list: Seq<MigrationView>) -> SchemaView
        decreases list.len(),
    {
        if list.len() == 0 {
            self
        } else {
            self.migrated(list.drop_last()).walked(list.last().steps)
        }
    }

    pub open spec fn has(self, name: Seq<char>) -> bool {
        self.columns.contains(name)
    }

    pub open spec fn has_all(self, names: Seq<Seq<char>>) -> bool {
        forall|i: int| 0 <= i < names.len() ==> self.has(#[trigger] names[i])
    }

    /// Whether a vault has what its version promises: the first columns, and from the first
    /// version on those that it added.
    pub open spec fn valid(self) -> bool {
        &&& self.has_all(names_of(first_columns()))
        &&& self.version >= 1 ==> self.has("scope"@) && self.has("content_type"@) && self.has(
            "occurred_at"@,
        )
    }

    /// Whether a vault is up to date.
    pub open spec fn current(self) -> bool {
        &&& self.version == CURRENT_SCHEMA_VERSION
        &&& self.has_all(names_of(first_columns()))
        &&& self.has("scope"@)
        &&& self.has("content_type"@)
        &&& self.has("occurred_at"@)
        &&& self.has("content_hash"@)
        &&& self.has("modified_at"@)
        &&& self.has("synced_at"@)
        &&& self.has("agent_id"@)
        &&& self.admits
        &&& self.stems
    }
}

/// The version that the migrations that always run leave behind.
pub open spec fn latest() -> StepView {
    StepView::Stamp(CURRENT_SCHEMA_VERSION as u64)
}

/// The step that adds a column where it is missing, and those that then follow.
pub open spec fn ensured(
    columns: Seq<Seq<char>>,
    name: Seq<char>,
    decl: Seq<char>,
    more: Seq<StepView>,
) -> Seq<StepView> {
    if columns.contains(name) {
        Seq::empty()
    } else {
        seq![StepView::Add(ColumnView { name, decl })] + more
    }
}

/// The columns after one was added where it was missing.
pub open spec fn with_column(columns: Seq<Seq<char>>, name: Seq<char>) -> Seq<Seq<char>> {
    if columns.contains(name) {
        columns
    } else {
        columns.push(name)
    }
}

/// Adds the scope, the content type and the time of the event.
pub open spec fn adding_scope(columns: Seq<Seq<char>>) -> MigrationView {
    MigrationView {
        suspends_foreign_keys: false,
        steps: ensured(
            columns,
            "scope"@,
            "TEXT NOT NULL DEFAULT 'moment'"@,
            seq![StepView::Fill(Fill::Scope)],
        ) + ensured(
            columns,
            "content_type"@,
            "TEXT NOT NULL DEFAULT 'text'"@,
            seq![StepView::Fill(Fill::ContentType)],
        ) + ensured(columns, "occurred_at"@, "TEXT"@, Seq::empty()) + seq![StepView::Stamp(1)],
    }
}

/// Makes the text index anew, without triggers.
pub open spec fn reindexing() -> MigrationView {
    MigrationView {
        suspends_foreign_keys: false,
        steps: seq![
            StepView::Run(Upkeep::DropInsertTrigger),
            StepView::Run(Upkeep::DropDeleteTrigger),
            StepView::Run(Upkeep::DropUpdateTrigger),
            StepView::Reindex,
            StepView::Stamp(2),
        ],
    }
}

/// Rebuilds the table of engrams, so that it admits more sources. Dropping the old table must not
/// cascade, so foreign keys are suspended.
pub open spec fn rebuilding(foreign_keys: bool) -> MigrationView {
    MigrationView {
        suspends_foreign_keys: foreign_keys,
        steps: seq![
            StepView::Recreate(Shape::Rebuilt),
            StepView::Run(Upkeep::LayerIndex),
            StepView::Run(Upkeep::SourceIndex),
            StepView::Run(Upkeep::CreatedIndex),
            StepView::Run(Upkeep::ImaginedIndex),
            StepView::Reindex,
            StepView::Stamp(3),
        ],
    }
}

/// Ensures the content hash, its index, the hashes of all rows, and the counters.
pub open spec fn hashing(columns: Seq<Seq<char>>) -> MigrationView {
    MigrationView {
        suspends_foreign_keys: false,
        steps: ensured(columns, "content_hash"@, "TEXT"@, Seq::empty()) + seq![
            StepView::Run(Upkeep::HashIndex),
            StepView::Run(Upkeep::MetricsTable),
            StepView::Backfill(plain_of(UNHASHED@)),
            latest(),
        ],
    }
}

/// Ensures the time of the last edit.
pub open spec fn dating(columns: Seq<Seq<char>>) -> MigrationView {
    MigrationView {
        suspends_foreign_keys: false,
        steps: ensured(columns, "modified_at"@, "TEXT"@, Seq::empty()) + seq![
            StepView::Fill(Fill::Modified),
            StepView::Run(Upkeep::ModifiedIndex),
            latest(),
        ],
    }
}

/// Ensures the push cursor. Rows from before it count as pushed; a later row that was never pushed
/// stays so.
pub open spec fn syncing(columns: Seq<Seq<char>>) -> MigrationView {
    MigrationView {
        suspends_foreign_keys: false,
        steps: ensured(columns, "synced_at"@, "TEXT"@, seq![StepView::Fill(Fill::Synced)]) + seq![
            latest(),
        ],
    }
}

/// Ensures the agent that a memory belongs to. Older rows have none: attribution cannot be
/// reconstructed.
pub open spec fn naming(columns: Seq<Seq<char>>) -> MigrationView {
    MigrationView {
        suspends_foreign_keys: false,
        steps: ensured(columns, "agent_id"@, "TEXT"@, Seq::empty()) + seq![latest()],
    }
}

/// Rebuilds a later table of engrams, so that it admits more sources. Nothing that it holds is
/// lost. Dropping the old table must not cascade, so foreign keys are suspended.
pub open spec fn widening(foreign_keys: bool) -> MigrationView {
    MigrationView {
        suspends_foreign_keys: foreign_keys,
        steps: seq![
            StepView::Recreate(Shape::Widened),
            StepView::Run(Upkeep::LayerIndex),
            StepView::Run(Upkeep::SourceIndex),
            StepView::Run(Upkeep::CreatedIndex),
            StepView::Run(Upkeep::ImaginedIndex),
            StepView::Run(Upkeep::HashIndex),
            StepView::Run(Upkeep::ModifiedIndex),
            StepView::Reindex,
            latest(),
        ],
    }
}

/// Makes a later text index anew, so that it goes by stems.
pub open spec fn stemming() -> MigrationView {
    MigrationView { suspends_foreign_keys: false, steps: seq![StepView::Reindex, latest()] }
}

/// The columns before the content hash is ensured.
pub open spec fn columns_before_hashing(s: SchemaView) -> Seq<Seq<char>> {
    if s.version < 3 {
        names_of(rebuilt_columns())
    } else {
        s.columns
    }
}

/// The migrations of the first three versions that a vault needs. They run once.
pub open spec fn once(s: SchemaView) -> Seq<MigrationView> {
    (if s.version < 1 {
        seq![adding_scope(s.columns)]
    } else {
        Seq::empty()
    }) + (if s.version < 2 {
        seq![reindexing()]
    } else {
        Seq::empty()
    }) + (if s.version < 3 {
        seq![rebuilding(s.foreign_keys)]
    } else {
        Seq::empty()
    })
}

/// The migrations that always run: each ensures a column, so that a vault whose migration was cut
/// short is completed when it is opened next.
pub open spec fn always(columns: Seq<Seq<char>>) -> Seq<MigrationView> {
    let c5 = with_column(columns, "content_hash"@);
    let c6 = with_column(c5, "modified_at"@);
    let c7 = with_column(c6, "synced_at"@);
    seq![hashing(columns), dating(c5), syncing(c6), naming(c7)]
}

/// Whether a later table of engrams has to be rebuilt: it does not admit every source, and it has
/// every column that is copied, but for those that are ensured before.
pub open spec fn widens(s: SchemaView) -> bool {
    s.version >= 3 && !s.admits && s.has_all(copied_names())
}

/// The migrations that a vault needs: those that run once, those that always run, and the one that
/// widens a table that does not admit every source, or else the one that makes a text index anew
/// that does not go by stems.
pub open spec fn plan(s: SchemaView) -> Seq<MigrationView> {
    once(s) + always(columns_before_hashing(s)) + (if widens(s) {
        seq![widening(s.foreign_keys)]
    } else if s.version >= 3 && !s.stems {
        seq![stemming()]
    } else {
        Seq::empty()
    })
}

/// Whether the declaration of a text index says that it goes by stems.
pub open spec fn stemmed(index: Seq<char>) -> bool {
    occurs_in(index, STEMMER@)
}

fn is_stemmed(index: &str) -> (r: bool)
    ensures
        r == stemmed(index@),
{
    let all = chars_of(index);
    let part = chars_of(STEMMER);
    contains(all.as_slice(), part.as_slice())
}

/// Whether the declaration of a table of engrams admits every source that the library writes: it
/// holds the present constraint.
pub open spec fn declared(table: Seq<char>) -> bool {
    occurs_in(table, one_of("source"@, source_names()))
}

fn is_declared(table: &str) -> (r: bool)
    ensures
        r == declared(table@),
{
    let check = one_of_text("source", &list_source_names());
    let all = chars_of(table);
    let part = chars_of(check.as_str());
    contains(all.as_slice(), part.as_slice())
}

fn has_column(columns: &Vec<String>, name: &str) -> (r: bool)
    ensures
        r == texts(columns@).contains(name@),
{
    let mut i: usize = 0;
    while i < columns.len()
        invariant
            i <= columns@.len(),
            forall|k: int| 0 <= k < i ==> texts(columns@)[k] != name@,
        decreases columns@.len() - i,
    {
        if text_eq(columns[i].as_str(), name) {
            assert(texts(columns@)[i as int] == name@);
            return true;
        }
        assert(texts(columns@)[i as int] == columns@[i as int]@);
        i += 1;
    }
    false
}

fn has_columns(columns: &Vec<String>, names: &Vec<String>) -> (r: bool)
    ensures
        r == forall|i: int|
            0 <= i < names@.len() ==> texts(columns@).contains(#[trigger] texts(names@)[i]),
{
    let mut i: usize = 0;
    while i < names.len()
        invariant
            i <= names@.len(),
            forall|k: int|
                0 <= k < i ==> texts(columns@).contains(#[trigger] texts(names@)[k]),
        decreases names@.len() - i,
    {
        proof {
            assert(texts(names@)[i as int] == names@[i as int]@);
        }
        if !has_column(columns, names[i].as_str()) {
            return false;
        }
        i += 1;
    }
    true
}

fn push_fill(steps: &mut Vec<Step>, fill: Fill)
    ensures
        step_views(final(steps)@) == step_views(old(steps)@).push(StepView::Fill(fill)),
{
    let ghost before = steps@;
    let step = Step::Fill(fill);
    steps.push(step);
    assert(step_views(steps@) =~= step_views(before).push(step@));
}

fn push_run(steps: &mut Vec<Step>, upkeep: Upkeep)
    ensures
        step_views(final(steps)@) == step_views(old(steps)@).push(StepView::Run(upkeep)),
{
    let ghost before = steps@;
    let step = Step::Run(upkeep);
    steps.push(step);
    assert(step_views(steps@) =~= step_views(before).push(step@));
}

fn push_add(steps: &mut Vec<Step>, name: &str, decl: &str)
    ensures
        step_views(final(steps)@) == step_views(old(steps)@).push(
            StepView::Add(ColumnView { name: name@, decl: decl@ }),
        ),
{
    let ghost before = steps@;
    let step = Step::Add(column(name, decl));
    steps.push(step);
    assert(step_views(steps@) =~= step_views(before).push(step@));
}

fn push_reindex(steps: &mut Vec<Step>)
    ensures
        step_views(final(steps)@) == step_views(old(steps)@).push(StepView::Reindex),
{
    let ghost before = steps@;
    steps.push(Step::Reindex);
    assert(step_views(steps@) =~= step_views(before).push(StepView::Reindex));
}

fn push_stamp(steps: &mut Vec<Step>, version: u64)
    ensures
        step_views(final(steps)@) == step_views(old(steps)@).push(StepView::Stamp(version)),
{
    let ghost before = steps@;
    steps.push(Step::Stamp(version));
    assert(step_views(steps@) =~= step_views(before).push(StepView::Stamp(version)));
}

fn no_steps() -> (r: Vec<Step>)
    ensures
        step_views(r@) == Seq::<StepView>::empty(),
{
    let v: Vec<Step> = Vec::new();
    assert(step_views(v@) =~= Seq::empty());
    v
}

fn add_scope(columns: &Vec<String>) -> (r: Migration)
    ensures
        r@ == adding_scope(texts(columns@)),
{
    let mut steps = no_steps();
    if !has_column(columns, "scope") {
        push_add(&mut steps, "scope", "TEXT NOT NULL DEFAULT 'moment'");
        push_fill(&mut steps, Fill::Scope);
    }
    if !has_column(columns, "content_type") {
        push_add(&mut steps, "content_type", "TEXT NOT NULL DEFAULT 'text'");
        push_fill(&mut steps, Fill::ContentType);
    }
    if !has_column(columns, "occurred_at") {
        push_add(&mut steps, "occurred_at", "TEXT");
    }
    push_stamp(&mut steps, 1);
    assert(step_views(steps@) =~= adding_scope(texts(columns@)).steps);
    Migration { suspends_foreign_keys: false, steps }
}

fn reindex() -> (r: Migration)
    ensures
        r@ == reindexing(),
{
    let mut steps = no_steps();
    push_run(&mut steps, Upkeep::DropInsertTrigger);
    push_run(&mut steps, Upkeep::DropDeleteTrigger);
    push_run(&mut steps, Upkeep::DropUpdateTrigger);
    push_reindex(&mut steps);
    push_stamp(&mut steps, 2);
    assert(step_views(steps@) =~= reindexing().steps);
    Migration { suspends_foreign_keys: false, steps }
}

fn rebuild(foreign_keys: bool) -> (r: Migration)
    ensures
        r@ == rebuilding(foreign_keys),
{
    let mut steps: Vec<Step> = Vec::new();
    steps.push(Step::Recreate(Shape::Rebuilt));
    assert(step_views(steps@) =~= seq![StepView::Recreate(Shape::Rebuilt)]);
    push_run(&mut steps, Upkeep::LayerIndex);
    push_run(&mut steps, Upkeep::SourceIndex);
    push_run(&mut steps, Upkeep::CreatedIndex);
    push_run(&mut steps, Upkeep::ImaginedIndex);
    push_reindex(&mut steps);
    push_stamp(&mut steps, 3);
    assert(step_views(steps@) =~= rebuilding(foreign_keys).steps);
    Migration { suspends_foreign_keys: foreign_keys, steps }
}

fn ensure_hash(present: bool, Ghost(columns): Ghost<Seq<Seq<char>>>) -> (r: Migration)
    requires
        present == columns.contains("content_hash"@),
    ensures
        r@ == hashing(columns),
{
    let mut steps = no_steps();
    if !present {
        push_add(&mut steps, "content_hash", "TEXT");
    }
    push_run(&mut steps, Upkeep::HashIndex);
    push_run(&mut steps, Upkeep::MetricsTable);
    let ghost before = steps@;
    let step = Step::Backfill(plain(UNHASHED));
    steps.push(step);
    assert(step_views(steps@) =~= step_views(before).push(step@));
    push_stamp(&mut steps, CURRENT_SCHEMA_VERSION as u64);
    assert(step_views(steps@) =~= hashing(columns).steps);
    Migration { suspends_foreign_keys: false, steps }
}

fn ensure_modified(present: bool, Ghost(columns): Ghost<Seq<Seq<char>>>) -> (r: Migration)
    requires
        present == columns.contains("modified_at"@),
    ensures
        r@ == dating(columns),
{
    let mut steps = no_steps();
    if !present {
        push_add(&mut steps, "modified_at", "TEXT");
    }
    push_fill(&mut steps, Fill::Modified);
    push_run(&mut steps, Upkeep::ModifiedIndex);
    push_stamp(&mut steps, CURRENT_SCHEMA_VERSION as u64);
    assert(step_views(steps@) =~= dating(columns).steps);
    Migration { suspends_foreign_keys: false, steps }
}

fn ensure_synced(present: bool, Ghost(columns): Ghost<Seq<Seq<char>>>) -> (r: Migration)
    requires
        present == columns.contains("synced_at"@),
    ensures
        r@ == syncing(columns),
{
    let mut steps = no_steps();
    if !present {
        push_add(&mut steps, "synced_at", "TEXT");
        push_fill(&mut steps, Fill::Synced);
    }
    push_stamp(&mut steps, CURRENT_SCHEMA_VERSION as u64);
    assert(step_views(steps@) =~= syncing(columns).steps);
    Migration { suspends_foreign_keys: false, steps }
}

fn ensure_agent(present: bool, Ghost(columns): Ghost<Seq<Seq<char>>>) -> (r: Migration)
    requires
        present == columns.contains("agent_id"@),
    ensures
        r@ == naming(columns),
{
    let mut steps = no_steps();
    if !present {
        push_add(&mut steps, "agent_id", "TEXT");
    }
    push_stamp(&mut steps, CURRENT_SCHEMA_VERSION as u64);
    assert(step_views(steps@) =~= naming(columns).steps);
    Migration { suspends_foreign_keys: false, steps }
}

fn widen(foreign_keys: bool) -> (r: Migration)
    ensures
        r@ == widening(foreign_keys),
{
    let mut steps: Vec<Step> = Vec::new();
    steps.push(Step::Recreate(Shape::Widened));
    assert(step_views(steps@) =~= seq![StepView::Recreate(Shape::Widened)]);
    push_run(&mut steps, Upkeep::LayerIndex);
    push_run(&mut steps, Upkeep::SourceIndex);
    push_run(&mut steps, Upkeep::CreatedIndex);
    push_run(&mut steps, Upkeep::ImaginedIndex);
    push_run(&mut steps, Upkeep::HashIndex);
    push_run(&mut steps, Upkeep::ModifiedIndex);
    push_reindex(&mut steps);
    push_stamp(&mut steps, CURRENT_SCHEMA_VERSION as u64);
    assert(step_views(steps@) =~= widening(foreign_keys).steps);
    Migration { suspends_foreign_keys: foreign_keys, steps }
}

fn stem() -> (r: Migration)
    ensures
        r@ == stemming(),
{
    let mut steps = no_steps();
    push_reindex(&mut steps);
    push_stamp(&mut steps, CURRENT_SCHEMA_VERSION as u64);
    assert(step_views(steps@) =~= stemming().steps);
    Migration { suspends_foreign_keys: false, steps }
}

proof fn lemma_with_column(columns: Seq<Seq<char>>, name: Seq<char>, other: Seq<char>)
    ensures
        with_column(columns, name).contains(name),
        other != name ==> (with_column(columns, name).contains(other) == columns.contains(other)),
        columns.contains(other) ==> with_column(columns, name).contains(other),
{
    let c = with_column(columns, name);
    if !columns.contains(name) {
        assert(c[columns.len() as int] == name);
        if columns.contains(other) {
            let k = columns.index_of(other);
            assert(c[k] == other);
        }
        if c.contains(other) && other != name {
            let k = c.index_of(other);
            assert(c[k] == other);
            assert(k < columns.len());
            assert(columns[k] == other);
        }
    }
}

/// The migrations that a vault needs, given its version, the columns and the declaration of its
/// table of engrams, the declaration of its text index, and whether foreign keys act.
pub fn migrate(
    version: i32,
    columns: &Vec<String>,
    table: &str,
    index: &str,
    foreign_keys: bool,
) -> (r: Vec<Migration>)
    ensures
        migration_views(r@) == plan(
            SchemaView {
                version: version as int,
                columns: texts(columns@),
                foreign_keys,
                admits: declared(table@),
                stems: stemmed(index@),
            },
        ),
{
    let ghost s = SchemaView {
        version: version as int,
        columns: texts(columns@),
        foreign_keys,
        admits: declared(table@),
        stems: stemmed(index@),
    };
    let mut list: Vec<Migration> = Vec::new();
    if version < 1 {
        list.push(add_scope(columns));
    }
    if version < 2 {
        list.push(reindex());
    }
    let (hash, modified, synced, agent) = if version < 3 {
        list.push(rebuild(foreign_keys));
        let names = list_names(&list_rebuilt_columns());
        (
            has_column(&names, "content_hash"),
            has_column(&names, "modified_at"),
            has_column(&names, "synced_at"),
            has_column(&names, "agent_id"),
        )
    } else {
        (
            has_column(columns, "content_hash"),
            has_column(columns, "modified_at"),
            has_column(columns, "synced_at"),
            has_column(columns, "agent_id"),
        )
    };
    let ghost c4 = columns_before_hashing(s);
    let ghost c5 = with_column(c4, "content_hash"@);
    let ghost c6 = with_column(c5, "modified_at"@);
    let ghost c7 = with_column(c6, "synced_at"@);
    proof {
        lemma_ensured_names_differ();
        lemma_with_column(c4, "content_hash"@, "modified_at"@);
        lemma_with_column(c4, "content_hash"@, "synced_at"@);
        lemma_with_column(c4, "content_hash"@, "agent_id"@);
        lemma_with_column(c5, "modified_at"@, "synced_at"@);
        lemma_with_column(c5, "modified_at"@, "agent_id"@);
        lemma_with_column(c6, "synced_at"@, "agent_id"@);
    }
    assert(migration_views(list@) =~= once(s));
    list.push(ensure_hash(hash, Ghost(c4)));
    list.push(ensure_modified(modified, Ghost(c5)));
    list.push(ensure_synced(synced, Ghost(c6)));
    list.push(ensure_agent(agent, Ghost(c7)));
    let names = list_copied_names();
    let copies = has_columns(columns, &names);
    proof {
        assert(copied_names().len() == names@.len());
        assert(copies == s.has_all(copied_names()));
    }
    if version >= 3 && !is_declared(table) && copies {
        list.push(widen(foreign_keys));
    } else if version >= 3 && !is_stemmed(index) {
        list.push(stem());
    }
    assert(migration_views(list@) =~= plan(s));
    list
}

proof fn lemma_ensured_names_differ()
    ensures
        "content_hash"@ != "modified_at"@,
        "content_hash"@ != "synced_at"@,
        "content_hash"@ != "agent_id"@,
        "modified_at"@ != "synced_at"@,
        "modified_at"@ != "agent_id"@,
        "synced_at"@ != "agent_id"@,
{
    reveal_strlit("content_hash");
    reveal_strlit("modified_at");
    reveal_strlit("synced_at");
    reveal_strlit("agent_id");
    assert("content_hash"@.len() == 12);
    assert("modified_at"@.len() == 11);
    assert("synced_at"@.len() == 9);
    assert("agent_id"@.len() == 8);
}

/// Gives a row its content hash.
pub open spec fn hash_statement(id: Seq<char>, content: Seq<char>) -> StatementView {
    StatementView {
        sql: "UPDATE engrams SET content_hash = ?1 WHERE id = ?2"@,
        params: seq![SqlView::Text(hash_of(content)), SqlView::Text(id)],
    }
}

/// The statements that give the rows of a query for identifiers and contents their content
/// hashes: the ones that a capture of the same content is looked up by. A row that holds anything
/// else is passed over.
pub open spec fn hash_statements(rows: Seq<Seq<SqlView>>) -> Seq<StatementView>
    decreases rows.len(),
{
    if rows.len() == 0 {
        Seq::empty()
    } else {
        let before = hash_statements(rows.drop_last());
        match (text_column(rows.last(), 0), text_column(rows.last(), 1)) {
            (Some(id), Some(content)) => before.push(hash_statement(id, content)),
            _ => before,
        }
    }
}

/// The statements that give the rows of a query for identifiers and contents their content hashes.
pub fn hash_backfill(rows: &Vec<Row>) -> (r: Vec<Statement>)
    ensures
        statement_views(r@) == hash_statements(row_views(rows@)),
{
    let mut out: Vec<Statement> = Vec::new();
    let mut i: usize = 0;
    assert(statement_views(out@) =~= Seq::empty());
    while i < rows.len()
        invariant
            i <= rows@.len(),
            statement_views(out@) == hash_statements(row_views(rows@).take(i as int)),
        decreases rows@.len() - i,
    {
        proof {
            let upto = row_views(rows@).take(i + 1);
            assert(upto.drop_last() =~= row_views(rows@).take(i as int));
            assert(upto.last() == value_views(rows@[i as int]@));
        }
        if let (Some(id), Some(content)) = (text_at(&rows[i], 0), text_at(&rows[i], 1)) {
            let hash = normalized_hash(content.as_str());
            let next = with2(
                "UPDATE engrams SET content_hash = ?1 WHERE id = ?2",
                SqlValue::Text(hash),
                text_value(id.as_str()),
            );
            proof {
                lemma_statements_push(out@, next);
            }
            out.push(next);
        }
        i += 1;
    }
    proof {
        assert(row_views(rows@).take(rows@.len() as int) =~= row_views(rows@));
    }
    out
}

proof fn lemma_walked_add(s: SchemaView, a: Seq<StepView>, b: Seq<StepView>)
    ensures
        s.walked(a + b) == s.walked(a).walked(b),
    decreases b.len(),
{
    if b.len() == 0 {
        assert(a + b =~= a);
    } else {
        assert((a + b).drop_last() =~= a + b.drop_last());
        lemma_walked_add(s, a, b.drop_last());
    }
}

proof fn lemma_walked_ensured(
    s: SchemaView,
    columns: Seq<Seq<char>>,
    name: Seq<char>,
    decl: Seq<char>,
    more: Seq<StepView>,
)
    requires
        columns.contains(name) == s.has(name),
        more.len() == 0 || (more.len() == 1 && more[0] is Fill),
    ensures
        s.walked(ensured(columns, name, decl, more)) == (SchemaView {
            columns: with_column(s.columns, name),
            ..s
        }),
{
    reveal_with_fuel(SchemaView::walked, 3);
    let steps = ensured(columns, name, decl, more);
    if columns.contains(name) {
        assert(steps =~= Seq::empty());
    } else {
        let first = StepView::Add(ColumnView { name, decl });
        if more.len() == 0 {
            assert(steps =~= seq![first]);
            assert(steps.drop_last() =~= Seq::empty());
        } else {
            assert(steps =~= seq![first, more[0]]);
            assert(steps.drop_last() =~= seq![first]);
            assert(seq![first].drop_last() =~= Seq::<StepView>::empty());
        }
    }
}

proof fn lemma_literals_differ()
    ensures
        "scope"@ != "content_type"@,
        "scope"@ != "occurred_at"@,
        "content_type"@ != "occurred_at"@,
{
    reveal_strlit("scope");
    reveal_strlit("content_type");
    reveal_strlit("occurred_at");
    assert("scope"@.len() == 5);
    assert("content_type"@.len() == 12);
    assert("occurred_at"@.len() == 11);
}

proof fn lemma_adding_scope(s: SchemaView)
    ensures
        ({
            let t = s.walked(adding_scope(s.columns).steps);
            &&& t.version == 1
            &&& t.foreign_keys == s.foreign_keys
            &&& t.admits == s.admits
            &&& t.stems == s.stems
            &&& t.has("scope"@)
            &&& t.has("content_type"@)
            &&& t.has("occurred_at"@)
            &&& forall|c: Seq<char>| s.has(c) ==> #[trigger] t.has(c)
        }),
{
    let c = s.columns;
    let a = ensured(
        c,
        "scope"@,
        "TEXT NOT NULL DEFAULT 'moment'"@,
        seq![StepView::Fill(Fill::Scope)],
    );
    let b = ensured(
        c,
        "content_type"@,
        "TEXT NOT NULL DEFAULT 'text'"@,
        seq![StepView::Fill(Fill::ContentType)],
    );
    let d = ensured(c, "occurred_at"@, "TEXT"@, Seq::empty());
    let end = seq![StepView::Stamp(1)];
    lemma_walked_add(s, a + b + d, end);
    lemma_walked_add(s, a + b, d);
    lemma_walked_add(s, a, b);
    lemma_literals_differ();
    let c1 = with_column(c, "scope"@);
    let c2 = with_column(c1, "content_type"@);
    let c3 = with_column(c2, "occurred_at"@);
    lemma_with_column(c, "scope"@, "content_type"@);
    lemma_with_column(c, "scope"@, "occurred_at"@);
    lemma_with_column(c1, "content_type"@, "occurred_at"@);
    lemma_with_column(c1, "content_type"@, "scope"@);
    lemma_with_column(c2, "occurred_at"@, "scope"@);
    lemma_with_column(c2, "occurred_at"@, "content_type"@);
    lemma_walked_ensured(
        s,
        c,
        "scope"@,
        "TEXT NOT NULL DEFAULT 'moment'"@,
        seq![StepView::Fill(Fill::Scope)],
    );
    let s1 = s.walked(a);
    lemma_walked_ensured(
        s1,
        c,
        "content_type"@,
        "TEXT NOT NULL DEFAULT 'text'"@,
        seq![StepView::Fill(Fill::ContentType)],
    );
    let s2 = s1.walked(b);
    lemma_walked_ensured(s2, c, "occurred_at"@, "TEXT"@, Seq::empty());
    let s3 = s2.walked(d);
    assert(end.drop_last() =~= Seq::<StepView>::empty());
    reveal_with_fuel(SchemaView::walked, 2);
    let t = s.walked(adding_scope(c).steps);
    assert(t == s3.walked(end));
    assert(t.columns == c3);
    assert forall|x: Seq<char>| s.has(x) implies #[trigger] t.has(x) by {
        lemma_with_column(c, "scope"@, x);
        lemma_with_column(c1, "content_type"@, x);
        lemma_with_column(c2, "occurred_at"@, x);
    }
}

proof fn lemma_reindexing(s: SchemaView)
    ensures
        s.walked(reindexing().steps) == (SchemaView { version: 2, stems: true, ..s }),
{
    let steps = reindexing().steps;
    lemma_walked_runs(s, steps, 0, 3);
    assert(steps.take(0) =~= Seq::empty());
    assert(steps.drop_last().drop_last() =~= steps.take(3));
    reveal_with_fuel(SchemaView::walked, 3);
}

proof fn lemma_stemming(s: SchemaView)
    ensures
        s.walked(stemming().steps) == (SchemaView {
            version: CURRENT_SCHEMA_VERSION as int,
            stems: true,
            ..s
        }),
{
    let steps = stemming().steps;
    assert(steps.drop_last().drop_last() =~= Seq::<StepView>::empty());
    reveal_with_fuel(SchemaView::walked, 3);
}

/// Steps that only run statements leave the vault as it is.
proof fn lemma_walked_runs(s: SchemaView, steps: Seq<StepView>, from: int, to: int)
    requires
        0 <= from <= to <= steps.len(),
        forall|i: int|
            from <= i < to ==> (#[trigger] steps[i] is Run || steps[i] is Fill
                || steps[i] is Backfill),
    ensures
        s.walked(steps.take(to)) == s.walked(steps.take(from)),
    decreases to - from,
{
    if from < to {
        lemma_walked_runs(s, steps, from, to - 1);
        assert(steps.take(to).drop_last() =~= steps.take(to - 1));
        assert(steps.take(to).last() == steps[to - 1]);
    }
}

proof fn lemma_rebuilding(s: SchemaView, foreign_keys: bool)
    ensures
        s.walked(rebuilding(foreign_keys).steps) == (SchemaView {
            version: 3,
            columns: names_of(rebuilt_columns()),
            admits: true,
            stems: true,
            ..s
        }),
{
    let steps = rebuilding(foreign_keys).steps;
    lemma_walked_runs(s, steps, 1, 5);
    assert(steps.take(1).drop_last() =~= Seq::<StepView>::empty());
    assert(steps.drop_last().drop_last() =~= steps.take(5));
    reveal_with_fuel(SchemaView::walked, 3);
}

proof fn lemma_widening(s: SchemaView, foreign_keys: bool)
    ensures
        s.walked(widening(foreign_keys).steps) == (SchemaView {
            version: CURRENT_SCHEMA_VERSION as int,
            columns: names_of(widened_columns()),
            admits: true,
            stems: true,
            ..s
        }),
{
    let steps = widening(foreign_keys).steps;
    lemma_walked_runs(s, steps, 1, 7);
    assert(steps.take(1).drop_last() =~= Seq::<StepView>::empty());
    assert(steps.drop_last().drop_last() =~= steps.take(7));
    reveal_with_fuel(SchemaView::walked, 3);
}

proof fn lemma_ensuring(
    s: SchemaView,
    name: Seq<char>,
    more: Seq<StepView>,
    tail: Seq<StepView>,
)
    requires
        more.len() == 0 || (more.len() == 1 && more[0] is Fill),
        tail.len() >= 1,
        tail.last() == latest(),
        forall|i: int|
            0 <= i < tail.len() - 1 ==> (#[trigger] tail[i] is Run || tail[i] is Fill
                || tail[i] is Backfill),
    ensures
        s.walked(ensured(s.columns, name, "TEXT"@, more) + tail) == (SchemaView {
            version: CURRENT_SCHEMA_VERSION as int,
            columns: with_column(s.columns, name),
            ..s
        }),
{
    let head = ensured(s.columns, name, "TEXT"@, more);
    lemma_walked_add(s, head, tail);
    lemma_walked_ensured(s, s.columns, name, "TEXT"@, more);
    let t = s.walked(head);
    lemma_walked_runs(t, tail, 0, tail.len() - 1);
    assert(tail.take(0) =~= Seq::<StepView>::empty());
    assert(tail.drop_last() =~= tail.take(tail.len() - 1));
}

/// The columns after all were ensured.
pub open spec fn completed(columns: Seq<Seq<char>>) -> Seq<Seq<char>> {
    with_column(
        with_column(
            with_column(with_column(columns, "content_hash"@), "modified_at"@),
            "synced_at"@,
        ),
        "agent_id"@,
    )
}

/// The vault after it was migrated.
pub open spec fn outcome(s: SchemaView) -> SchemaView {
    SchemaView {
        version: CURRENT_SCHEMA_VERSION as int,
        columns: if widens(s) {
            names_of(widened_columns())
        } else {
            completed(columns_before_hashing(s))
        },
        foreign_keys: s.foreign_keys,
        admits: true,
        stems: true,
    }
}

proof fn lemma_migrated_push(s: SchemaView, list: Seq<MigrationView>, m: MigrationView)
    ensures
        s.migrated(list.push(m)) == s.migrated(list).walked(m.steps),
{
    assert(list.push(m).drop_last() =~= list);
}

/// After some of the migrations that run once, the version says which.
proof fn lemma_once(s: SchemaView, k: int)
    requires
        0 <= k <= once(s).len(),
        s.valid(),
    ensures
        ({
            let t = s.migrated(plan(s).take(k));
            &&& t.valid()
            &&& t.foreign_keys == s.foreign_keys
            &&& k == once(s).len() ==> t.columns == columns_before_hashing(s)
            &&& k > 0 ==> t.version == 3 - (once(s).len() - k)
            &&& k == 0 ==> t == s
            &&& t.admits == (s.admits || (k > 0 && k == once(s).len()))
            &&& k == 0 || k < once(s).len() || t.stems
            &&& k + 1 == once(s).len() ==> t.has("scope"@) && t.has("content_type"@) && t.has(
                "occurred_at"@,
            )
        }),
    decreases k,
{
    let p = plan(s);
    if k == 0 {
        assert(p.take(0) =~= Seq::empty());
    } else {
        lemma_once(s, k - 1);
        let before = s.migrated(p.take(k - 1));
        let m = p[k - 1];
        assert(m == once(s)[k - 1]);
        assert(p.take(k) =~= p.take(k - 1).push(m));
        lemma_migrated_push(s, p.take(k - 1), m);
        let t = s.migrated(p.take(k));
        if k - 1 == 0 && s.version < 1 {
            assert(m == adding_scope(s.columns));
            lemma_adding_scope(s);
            assert(t.valid()) by {
                let names = names_of(first_columns());
                assert forall|i: int| 0 <= i < names.len() implies t.has(#[trigger] names[i]) by {
                    assert(s.has(names[i]));
                }
            }
        } else if k == once(s).len() {
            assert(m == rebuilding(s.foreign_keys));
            lemma_rebuilding(before, s.foreign_keys);
            lemma_rebuilt_is_valid(t);
        } else {
            assert(m == reindexing());
            lemma_reindexing(before);
            assert(t.columns == before.columns);
            assert(t.valid()) by {
                let names = names_of(first_columns());
                assert forall|i: int| 0 <= i < names.len() implies t.has(#[trigger] names[i]) by {
                    assert(before.has(names[i]));
                }
            }
        }
    }
}

proof fn lemma_rebuilt_is_valid(t: SchemaView)
    requires
        t.columns == names_of(rebuilt_columns()),
    ensures
        t.valid(),
        t.has("scope"@),
        t.has("content_type"@),
        t.has("occurred_at"@),
        t.has("content_hash"@),
{
    let names = names_of(first_columns());
    let all = names_of(rebuilt_columns());
    assert forall|i: int| 0 <= i < names.len() implies t.has(#[trigger] names[i]) by {
        assert(all[i] == names[i]);
    }
    assert(all[15] == "content_hash"@);
    assert(all[16] == "scope"@);
    assert(all[17] == "content_type"@);
    assert(all[18] == "occurred_at"@);
}

proof fn lemma_widened_is_valid(t: SchemaView)
    requires
        t.columns == names_of(widened_columns()),
    ensures
        t.valid(),
        t.has("scope"@),
        t.has("content_type"@),
        t.has("occurred_at"@),
        t.has("content_hash"@),
        t.has("modified_at"@),
        t.has("synced_at"@),
        t.has("agent_id"@),
{
    let names = names_of(first_columns());
    let all = names_of(widened_columns());
    assert forall|i: int| 0 <= i < names.len() implies t.has(#[trigger] names[i]) by {
        assert(all[i] == names[i]);
    }
    assert(all[15] == "content_hash"@);
    assert(all[16] == "scope"@);
    assert(all[17] == "content_type"@);
    assert(all[18] == "occurred_at"@);
    assert(all[19] == "modified_at"@);
    assert(all[20] == "synced_at"@);
    assert(all[21] == "agent_id"@);
}

/// What the migrations that always run make of a vault, one after another.
proof fn lemma_always(s: SchemaView, t: SchemaView, k: int)
    requires
        0 <= k <= 4,
        s.valid(),
        t == s.migrated(plan(s).take(once(s).len() as int)),
        t.valid(),
        t.columns == columns_before_hashing(s),
        t.has("scope"@),
        t.has("content_type"@),
        t.has("occurred_at"@),
    ensures
        ({
            let u = s.migrated(plan(s).take(once(s).len() + k));
            &&& u.valid()
            &&& u.foreign_keys == t.foreign_keys
            &&& u.admits == t.admits
            &&& u.stems == t.stems
            &&& u.has("scope"@) && u.has("content_type"@) && u.has("occurred_at"@)
            &&& k > 0 ==> u.version == CURRENT_SCHEMA_VERSION && u.has("content_hash"@)
            &&& k > 1 ==> u.has("modified_at"@)
            &&& k > 2 ==> u.has("synced_at"@)
            &&& k > 3 ==> u.has("agent_id"@)
            &&& k == 0 ==> u.columns == t.columns
            &&& k == 1 ==> u.columns == with_column(t.columns, "content_hash"@)
            &&& k == 2 ==> u.columns == with_column(
                with_column(t.columns, "content_hash"@),
                "modified_at"@,
            )
            &&& k == 3 ==> u.columns == with_column(
                with_column(with_column(t.columns, "content_hash"@), "modified_at"@),
                "synced_at"@,
            )
            &&& k == 4 ==> u.columns == completed(t.columns)
        }),
    decreases k,
{
    let p = plan(s);
    let n = once(s).len() as int;
    if k > 0 {
        lemma_always(s, t, k - 1);
        let before = s.migrated(p.take(n + k - 1));
        let m = always(t.columns)[k - 1];
        assert(p[n + k - 1] == m);
        assert(p.take(n + k) =~= p.take(n + k - 1).push(m));
        lemma_migrated_push(s, p.take(n + k - 1), m);
        let u = s.migrated(p.take(n + k));
        if k == 1 {
            lemma_ensuring(
                before,
                "content_hash"@,
                Seq::empty(),
                seq![
                    StepView::Run(Upkeep::HashIndex),
                    StepView::Run(Upkeep::MetricsTable),
                    StepView::Backfill(plain_of(UNHASHED@)),
                    latest(),
                ],
            );
            lemma_more_columns(before, u, "content_hash"@);
        } else if k == 2 {
            lemma_ensuring(
                before,
                "modified_at"@,
                Seq::empty(),
                seq![
                    StepView::Fill(Fill::Modified),
                    StepView::Run(Upkeep::ModifiedIndex),
                    latest(),
                ],
            );
            lemma_more_columns(before, u, "modified_at"@);
        } else if k == 3 {
            lemma_ensuring(
                before,
                "synced_at"@,
                seq![StepView::Fill(Fill::Synced)],
                seq![latest()],
            );
            lemma_more_columns(before, u, "synced_at"@);
        } else {
            lemma_ensuring(before, "agent_id"@, Seq::empty(), seq![latest()]);
            lemma_more_columns(before, u, "agent_id"@);
        }
    }
}

proof fn lemma_plan(s: SchemaView, k: int)
    requires
        0 <= k <= plan(s).len(),
        s.valid(),
    ensures
        s.migrated(plan(s).take(k)).valid(),
        s.migrated(plan(s).take(k)).foreign_keys == s.foreign_keys,
        k == plan(s).len() ==> s.migrated(plan(s)) == outcome(s) && outcome(s).current(),
{
    let p = plan(s);
    let n = once(s).len() as int;
    if k <= n {
        lemma_once(s, k);
    } else {
        lemma_once(s, n);
        let t = s.migrated(p.take(n));
        if s.version < 3 {
            lemma_rebuilt_is_valid(t);
        }
        if k <= n + 4 {
            lemma_always(s, t, k - n);
        } else {
            lemma_always(s, t, 4);
            let m = p[n + 4];
            assert(p.take(n + 5) =~= p.take(n + 4).push(m));
            lemma_migrated_push(s, p.take(n + 4), m);
            let before = s.migrated(p.take(n + 4));
            let after = s.migrated(p.take(n + 5));
            if widens(s) {
                lemma_widening(before, s.foreign_keys);
                lemma_widened_is_valid(after);
            } else {
                lemma_stemming(before);
                assert(after.valid()) by {
                    let names = names_of(first_columns());
                    assert forall|i: int| 0 <= i < names.len() implies after.has(
                        #[trigger] names[i],
                    ) by {
                        assert(before.has(names[i]));
                    }
                }
            }
        }
        if k == p.len() {
            assert(p.take(k) =~= p);
        }
    }
}

proof fn lemma_more_columns(s: SchemaView, t: SchemaView, name: Seq<char>)
    requires
        s.valid(),
        s.has("scope"@),
        s.has("content_type"@),
        s.has("occurred_at"@),
        t.columns == with_column(s.columns, name),
    ensures
        t.valid(),
        t.has(name),
        t.has("scope"@),
        t.has("content_type"@),
        t.has("occurred_at"@),
        forall|c: Seq<char>| s.has(c) ==> #[trigger] t.has(c),
{
    assert forall|c: Seq<char>| s.has(c) implies #[trigger] t.has(c) by {
        lemma_with_column(s.columns, name, c);
    }
    lemma_with_column(s.columns, name, name);
    let names = names_of(first_columns());
    assert forall|i: int| 0 <= i < names.len() implies t.has(#[trigger] names[i]) by {
        assert(s.has(names[i]));
    }
}

/// A migrated vault has the columns that its version and its table call for, and is up to date.
pub proof fn law_migration_outcome(s: SchemaView)
    requires
        s.valid(),
    ensures
        s.migrated(plan(s)) == outcome(s),
        outcome(s).current(),
{
    lemma_plan(s, plan(s).len() as int);
}

/// A migrated vault is up to date, and foreign keys act as they did before.
pub proof fn law_migration_reaches_the_current_version(s: SchemaView)
    requires
        s.valid(),
    ensures
        s.migrated(plan(s)).current(),
        s.migrated(plan(s)).foreign_keys == s.foreign_keys,
{
    lemma_plan(s, plan(s).len() as int);
}

/// Migrating a vault that is up to date changes nothing: no column is added, no table is rebuilt,
/// and the text index stays.
pub proof fn law_migration_is_idempotent(s: SchemaView)
    requires
        s.current(),
    ensures
        s.migrated(plan(s)) == s,
        forall|m: int, k: int|
            0 <= m < plan(s).len() && 0 <= k < plan(s)[m].steps.len() ==> {
                &&& #[trigger] plan(s)[m].steps[k] !is Add
                &&& plan(s)[m].steps[k] !is Recreate
                &&& plan(s)[m].steps[k] !is Reindex
            },
{
    assert(s.valid());
    lemma_plan(s, plan(s).len() as int);
}

/// A migration that was cut short after some of the transactions that run once goes on where it
/// stopped: each of them runs exactly once.
pub proof fn law_interrupted_migration_goes_on(s: SchemaView, done: int)
    requires
        s.valid(),
        0 <= done <= once(s).len(),
    ensures
        plan(s.migrated(plan(s).take(done))) == plan(s).skip(done),
{
    lemma_once(s, done);
    let cut = s.migrated(plan(s).take(done));
    assert(plan(cut) =~= plan(s).skip(done));
}

/// A vault whose migration was cut short after some of its transactions is completed when it is
/// migrated again.
pub proof fn law_interrupted_migration_is_completed(s: SchemaView, done: int)
    requires
        s.valid(),
        0 <= done <= plan(s).len(),
    ensures
        ({
            let cut = s.migrated(plan(s).take(done));
            &&& cut.migrated(plan(cut)).current()
            &&& cut.migrated(plan(cut)).foreign_keys == s.foreign_keys
        }),
{
    lemma_plan(s, done);
    law_migration_reaches_the_current_version(s.migrated(plan(s).take(done)));
}

/// Where the table of engrams is rebuilt, every column that is copied exists by then, and foreign
/// keys are suspended if they act.
pub proof fn law_rebuilding_copies_existing_columns(s: SchemaView)
    requires
        s.valid(),
        s.version < 3,
    ensures
        ({
            let k = once(s).len() - 1;
            let before = s.migrated(plan(s).take(k));
            &&& plan(s)[k] == rebuilding(before.foreign_keys)
            &&& before.has_all(names_of(first_columns()))
            &&& before.has("scope"@)
            &&& before.has("content_type"@)
            &&& before.has("occurred_at"@)
        }),
{
    lemma_once(s, once(s).len() - 1);
}

/// Where the table of engrams is widened, every column of the widened table exists by then, so
/// that nothing is lost, and foreign keys are suspended if they act.
pub proof fn law_widening_copies_every_column(s: SchemaView)
    requires
        s.valid(),
        widens(s),
    ensures
        ({
            let k = plan(s).len() - 1;
            let before = s.migrated(plan(s).take(k));
            &&& plan(s)[k] == widening(before.foreign_keys)
            &&& before.has_all(names_of(widened_columns()))
        }),
{
    lemma_once(s, 0);
    assert(plan(s).take(0) =~= Seq::empty());
    lemma_always(s, s, 4);
    let before = s.migrated(plan(s).take(4));
    let names = names_of(widened_columns());
    assert forall|i: int| 0 <= i < names.len() implies before.has(#[trigger] names[i]) by {
        if i < 15 {
            assert(names_of(first_columns())[i] == names[i]);
            assert(before.has(names_of(first_columns())[i]));
        }
    }
}

/// A text that is part of a text is part of what that is part of.
proof fn lemma_part_of_part(a: Seq<char>, b: Seq<char>, c: Seq<char>)
    requires
        occurs_in(a, b),
        occurs_in(b, c),
    ensures
        occurs_in(a, c),
{
    let i = choose|i: int| occurs_at(a, b, i);
    let j = choose|j: int| occurs_at(b, c, j);
    assert(a.subrange(i + j, i + j + c.len()) =~= b.subrange(j, j + c.len()));
    assert(occurs_at(a, c, i + j));
}

proof fn lemma_part(head: Seq<char>, s: Seq<char>, tail: Seq<char>)
    ensures
        occurs_in(head + s + tail, s),
{
    let all = head + s + tail;
    assert(all.subrange(head.len() as int, (head.len() + s.len()) as int) =~= s);
    assert(occurs_at(all, s, head.len() as int));
}

proof fn lemma_joined_holds(parts: Seq<Seq<char>>, sep: Seq<char>, i: int)
    requires
        0 <= i < parts.len(),
    ensures
        occurs_in(joined(parts, sep), parts[i]),
    decreases parts.len(),
{
    if parts.len() == 1 {
        lemma_part(Seq::empty(), parts[0], Seq::empty());
        assert(Seq::<char>::empty() + parts[0] + Seq::<char>::empty() =~= parts[0]);
    } else {
        let before = joined(parts.drop_last(), sep);
        if i == parts.len() - 1 {
            lemma_part(before + sep, parts.last(), Seq::empty());
            assert(before + sep + parts.last() + Seq::<char>::empty() =~= joined(parts, sep));
        } else {
            lemma_joined_holds(parts.drop_last(), sep, i);
            lemma_part(Seq::empty(), before, sep + parts.last());
            assert(Seq::<char>::empty() + before + (sep + parts.last()) =~= joined(parts, sep));
            lemma_part_of_part(joined(parts, sep), before, parts[i]);
        }
    }
}

proof fn lemma_column_declares(columns: Seq<ColumnView>, head: Seq<char>)
    requires
        columns.len() > 2,
        columns[2] == first_columns()[2],
    ensures
        declared(head + body_of(columns) + ")"@),
{
    let check = one_of("source"@, source_names());
    let line = columns[2].line();
    let start = "source"@ + " "@ + "TEXT NOT NULL DEFAULT 'interaction' "@;
    lemma_part(start, check, Seq::empty());
    assert(start + check + Seq::<char>::empty() =~= line);
    assert(lines(columns)[2] == line);
    lemma_joined_holds(lines(columns), ", "@, 2);
    lemma_part_of_part(body_of(columns), line, check);
    lemma_part(head, body_of(columns), ")"@);
    lemma_part_of_part(head + body_of(columns) + ")"@, body_of(columns), check);
}

/// The tables that the library makes, rebuilds and widens are declared with the present
/// constraint, and the text indexes that it makes go by stems.
pub proof fn law_tables_are_declared_as_wanted()
    ensures
        stemmed(TEXT_INDEX@),
        stemmed(NEW_TEXT_INDEX@),
        declared(engrams_table().sql),
        declared(Shape::Rebuilt.creation().sql),
        declared(Shape::Widened.creation().sql),
{
    lemma_column_declares(fresh_columns(), "CREATE TABLE IF NOT EXISTS engrams ("@);
    lemma_column_declares(rebuilt_columns(), "CREATE TABLE "@ + "engrams_v3"@ + " ("@);
    lemma_column_declares(widened_columns(), "CREATE TABLE "@ + "engrams_v7"@ + " ("@);
    reveal_strlit("CREATE VIRTUAL TABLE IF NOT EXISTS engrams_fts USING fts5(id, content, tokenize = 'porter unicode61')");
    reveal_strlit("CREATE VIRTUAL TABLE engrams_fts USING fts5(id, content, tokenize = 'porter unicode61')");
    reveal_strlit("'porter unicode61'");
    assert(TEXT_INDEX@.subrange(82, 100) =~= STEMMER@);
    assert(occurs_at(TEXT_INDEX@, STEMMER@, 82));
    assert(NEW_TEXT_INDEX@.subrange(68, 86) =~= STEMMER@);
    assert(occurs_at(NEW_TEXT_INDEX@, STEMMER@, 68));
}

/// A new vault has what its version promises.
pub proof fn law_new_vault_is_valid(foreign_keys: bool)
    ensures
        (SchemaView {
            version: 0,
            columns: names_of(fresh_columns()),
            foreign_keys,
            admits: declared(engrams_table().sql),
            stems: stemmed(TEXT_INDEX@),
        }).valid(),
{
    let s = SchemaView {
        version: 0,
        columns: names_of(fresh_columns()),
        foreign_keys,
        admits: declared(engrams_table().sql),
        stems: stemmed(TEXT_INDEX@),
    };
    let names = names_of(first_columns());
    assert forall|i: int| 0 <= i < names.len() implies s.has(#[trigger] names[i]) by {
        assert(s.columns[i] == names[i]);
    }
}

/// The tables admit every layer, source, privacy level and link type that the library writes.
pub proof fn law_every_name_is_admitted(
    layer: EngramLayer,
    source: EngramSource,
    privacy: PrivacyLevel,
    link: LinkType,
)
    ensures
        layer_names().contains(layer.name()),
        source_names().contains(source.name()),
        privacy_names().contains(privacy.name()),
        link_names().contains(link.name()),
{
    let i: int = match layer {
        EngramLayer::Episodic => 0,
        EngramLayer::Semantic => 1,
        EngramLayer::Imagined => 2,
    };
    assert(layer_names()[i] == layer.name());
    let j: int = match source {
        EngramSource::Interaction => 0,
        EngramSource::Sensor => 1,
        EngramSource::Consolidation => 2,
        EngramSource::Imagined => 3,
        EngramSource::Chat => 4,
        EngramSource::Slack => 5,
        EngramSource::Discord => 6,
        EngramSource::Telegram => 7,
        EngramSource::Window => 8,
        EngramSource::Mic => 9,
        EngramSource::Agent => 10,
        EngramSource::Research => 11,
        EngramSource::System => 12,
        EngramSource::Observation => 14,
        EngramSource::AiSession => 15,
        EngramSource::AiTool => 16,
    };
    assert(source_names()[j] == source.name());
    let k: int = match privacy {
        PrivacyLevel::StrictLocal => 0,
        PrivacyLevel::Hybrid => 1,
        PrivacyLevel::CloudFirst => 2,
        PrivacyLevel::Enterprise => 3,
    };
    assert(privacy_names()[k] == privacy.name());
    let l: int = match link {
        LinkType::Associative => 0,
        LinkType::Causal => 1,
        LinkType::Analogical => 2,
        LinkType::Temporal => 3,
    };
    assert(link_names()[l] == link.name());
}

/// The statements that make, fill and mend the tables of a vault read as follows.
pub proof fn law_schema_statements_read()
    ensures
        CURRENT_SCHEMA_VERSION == 6,
        COHERENCE_TABLE@
            == "CREATE TABLE IF NOT EXISTS coherence_state (id INTEGER PRIMARY KEY DEFAULT 1, baseline_valence REAL NOT NULL DEFAULT 0.3, character_strengths TEXT NOT NULL, purpose_vector TEXT NOT NULL, last_hygiene_daily TEXT, last_hygiene_weekly TEXT, drift_score REAL DEFAULT 0.0, updated_at TEXT NOT NULL)"@,
        GOALS_TABLE@
            == "CREATE TABLE IF NOT EXISTS goals (id TEXT PRIMARY KEY, description TEXT NOT NULL, pathways TEXT NOT NULL, agency_score REAL DEFAULT 0.5, created_at TEXT NOT NULL, status TEXT DEFAULT 'active' CHECK(status IN ('active','achieved','released')))"@,
        RUNS_TABLE@
            == "CREATE TABLE IF NOT EXISTS consolidation_runs (id TEXT PRIMARY KEY, run_at TEXT NOT NULL, episodes_processed INTEGER, semantics_created INTEGER, engrams_decayed INTEGER, notes TEXT)"@,
        LAYER_INDEX@ == "CREATE INDEX IF NOT EXISTS idx_engrams_layer ON engrams(layer)"@,
        SOURCE_INDEX@ == "CREATE INDEX IF NOT EXISTS idx_engrams_source ON engrams(source)"@,
        CREATED_INDEX@
            == "CREATE INDEX IF NOT EXISTS idx_engrams_created_at ON engrams(created_at)"@,
        IMAGINED_INDEX@ == "CREATE INDEX IF NOT EXISTS idx_engrams_imagined ON engrams(imagined)"@,
        LINK_SOURCE_INDEX@
            == "CREATE INDEX IF NOT EXISTS idx_engram_links_source ON engram_links(source_id)"@,
        LINK_TARGET_INDEX@
            == "CREATE INDEX IF NOT EXISTS idx_engram_links_target ON engram_links(target_id)"@,
        METRICS_TABLE@
            == "CREATE TABLE IF NOT EXISTS app_metrics (key TEXT PRIMARY KEY, value INTEGER NOT NULL)"@,
        EMBEDDINGS_TABLE@
            == "CREATE TABLE IF NOT EXISTS engram_embeddings (engram_id TEXT PRIMARY KEY REFERENCES engrams(id) ON DELETE CASCADE, embedding BLOB NOT NULL, model TEXT NOT NULL DEFAULT 'all-MiniLM-L6-v2', dimensions INTEGER NOT NULL DEFAULT 384, created_at TEXT NOT NULL)"@,
        EMBEDDINGS_INDEX@
            == "CREATE INDEX IF NOT EXISTS idx_embeddings_created ON engram_embeddings(created_at)"@,
        EVIDENCE_TABLE@
            == "CREATE TABLE IF NOT EXISTS memory_evidence (memory_id TEXT NOT NULL REFERENCES engrams(id) ON DELETE CASCADE, evidence_id TEXT NOT NULL REFERENCES engrams(id) ON DELETE CASCADE, relationship TEXT NOT NULL DEFAULT 'supports', PRIMARY KEY (memory_id, evidence_id))"@,
        EVIDENCE_MEMORY_INDEX@
            == "CREATE INDEX IF NOT EXISTS idx_memory_evidence_memory ON memory_evidence(memory_id)"@,
        EVIDENCE_INDEX@
            == "CREATE INDEX IF NOT EXISTS idx_memory_evidence_evidence ON memory_evidence(evidence_id)"@,
        ANNOTATIONS_TABLE@
            == "CREATE TABLE IF NOT EXISTS annotations (id TEXT PRIMARY KEY, memory_id TEXT NOT NULL REFERENCES engrams(id) ON DELETE CASCADE, content TEXT NOT NULL, created_at TEXT NOT NULL)"@,
        ANNOTATIONS_INDEX@
            == "CREATE INDEX IF NOT EXISTS idx_annotations_memory ON annotations(memory_id)"@,
        SEARCHES_TABLE@
            == "CREATE TABLE IF NOT EXISTS saved_searches (id TEXT PRIMARY KEY, query TEXT NOT NULL DEFAULT '', layer TEXT, tags TEXT, notify INTEGER NOT NULL DEFAULT 0, created_at TEXT NOT NULL, last_checked_at TEXT)"@,
        TOMBSTONES_TABLE@
            == "CREATE TABLE IF NOT EXISTS tombstones (id TEXT PRIMARY KEY, deleted_at TEXT NOT NULL)"@,
        ACCESS_TABLE@
            == "CREATE TABLE IF NOT EXISTS access_events (memory_id TEXT NOT NULL, op TEXT NOT NULL CHECK(op IN ('get','search_hit','export')), client TEXT, content_hash TEXT, at TEXT NOT NULL)"@,
        TEXT_INDEX@
            == "CREATE VIRTUAL TABLE IF NOT EXISTS engrams_fts USING fts5(id, content, tokenize = 'porter unicode61')"@,
        DROP_INSERT_TRIGGER@ == "DROP TRIGGER IF EXISTS engrams_ai"@,
        DROP_DELETE_TRIGGER@ == "DROP TRIGGER IF EXISTS engrams_ad"@,
        DROP_UPDATE_TRIGGER@ == "DROP TRIGGER IF EXISTS engrams_au"@,
        DROP_TEXT_INDEX@ == "DROP TABLE IF EXISTS engrams_fts"@,
        NEW_TEXT_INDEX@
            == "CREATE VIRTUAL TABLE engrams_fts USING fts5(id, content, tokenize = 'porter unicode61')"@,
        STEMMER@ == "'porter unicode61'"@,
        FILL_TEXT_INDEX@
            == "INSERT INTO engrams_fts(rowid, id, content) SELECT rowid, id, content FROM engrams"@,
        DROP_ENGRAMS@ == "DROP TABLE engrams"@,
        FILL_SCOPE@
            == "UPDATE engrams SET scope = 'moment' WHERE scope IS NULL OR scope = ''"@,
        FILL_CONTENT_TYPE@
            == "UPDATE engrams SET content_type = 'text' WHERE content_type IS NULL OR content_type = ''"@,
        HASH_INDEX@
            == "CREATE INDEX IF NOT EXISTS idx_engrams_content_hash ON engrams(content_hash)"@,
        UNHASHED@ == "SELECT id, content FROM engrams WHERE content_hash IS NULL"@,
        FILL_MODIFIED@
            == "UPDATE engrams SET modified_at = created_at WHERE modified_at IS NULL"@,
        MODIFIED_INDEX@
            == "CREATE INDEX IF NOT EXISTS idx_engrams_modified_at ON engrams(modified_at)"@,
        FILL_SYNCED@ == "UPDATE engrams SET synced_at = modified_at WHERE synced_at IS NULL"@,
{
}

/// A new vault gets all of its tables and indices.
pub proof fn law_new_vault_gets_all_its_tables()
    ensures
        table_statements() == seq![
            plain_of("CREATE TABLE IF NOT EXISTS engrams ("@ + body_of(fresh_columns()) + ")"@),
            links_table(),
            plain_of(COHERENCE_TABLE@),
            plain_of(GOALS_TABLE@),
            plain_of(RUNS_TABLE@),
            plain_of(LAYER_INDEX@),
            plain_of(SOURCE_INDEX@),
            plain_of(CREATED_INDEX@),
            plain_of(IMAGINED_INDEX@),
            plain_of(LINK_SOURCE_INDEX@),
            plain_of(LINK_TARGET_INDEX@),
            plain_of(METRICS_TABLE@),
            plain_of(EMBEDDINGS_TABLE@),
            plain_of(EMBEDDINGS_INDEX@),
            plain_of(EVIDENCE_TABLE@),
            plain_of(EVIDENCE_MEMORY_INDEX@),
            plain_of(EVIDENCE_INDEX@),
            plain_of(ANNOTATIONS_TABLE@),
            plain_of(ANNOTATIONS_INDEX@),
            plain_of(SEARCHES_TABLE@),
            plain_of(TOMBSTONES_TABLE@),
            plain_of(ACCESS_TABLE@),
            plain_of(TEXT_INDEX@),
        ],
        links_table().sql
            == "CREATE TABLE IF NOT EXISTS engram_links (source_id TEXT NOT NULL REFERENCES engrams(id) ON DELETE CASCADE, target_id TEXT NOT NULL REFERENCES engrams(id) ON DELETE CASCADE, weight REAL NOT NULL DEFAULT 0.5, link_type TEXT NOT NULL "@
            + one_of("link_type"@, link_names()) + ", PRIMARY KEY (source_id, target_id))"@,
{
}

/// The table of engrams has these columns, in every shape that it is made in; newer shapes have
/// more of them.
pub proof fn law_columns_of_the_table()
    ensures
        names_of(first_columns()) == seq![
            "id"@,
            "layer"@,
            "source"@,
            "privacy_level"@,
            "content"@,
            "context"@,
            "strength"@,
            "valence"@,
            "retrievals"@,
            "imagined"@,
            "grounded"@,
            "created_at"@,
            "last_retrieved"@,
            "project"@,
            "tags"@,
        ],
        names_of(fresh_columns()) == names_of(first_columns()) + seq![
            "content_hash"@,
            "modified_at"@,
        ],
        names_of(rebuilt_columns()) == names_of(first_columns()) + seq![
            "content_hash"@,
            "scope"@,
            "content_type"@,
            "occurred_at"@,
        ],
        names_of(widened_columns()) == names_of(rebuilt_columns()) + seq![
            "modified_at"@,
            "synced_at"@,
            "agent_id"@,
        ],
        first_columns()[0].decl == "TEXT PRIMARY KEY"@,
        first_columns()[1].decl == "TEXT NOT NULL "@ + one_of("layer"@, layer_names()),
        first_columns()[2].decl == "TEXT NOT NULL DEFAULT 'interaction' "@ + one_of(
            "source"@,
            source_names(),
        ),
        first_columns()[3].decl == "TEXT NOT NULL DEFAULT 'cloud_first' "@ + one_of(
            "privacy_level"@,
            privacy_names(),
        ),
        first_columns()[4].decl == "TEXT NOT NULL"@,
        first_columns()[5].decl == "TEXT NOT NULL"@,
        first_columns()[6].decl == "REAL NOT NULL DEFAULT 1.0"@,
        first_columns()[7].decl
            == "REAL NOT NULL DEFAULT 0.0 CHECK(valence BETWEEN -1.0 AND 1.0)"@,
        first_columns()[8].decl == "INTEGER NOT NULL DEFAULT 0"@,
        first_columns()[9].decl == "INTEGER NOT NULL DEFAULT 0"@,
        first_columns()[10].decl == "INTEGER NOT NULL DEFAULT 0"@,
        first_columns()[11].decl == "TEXT NOT NULL"@,
        first_columns()[12].decl == "TEXT"@,
        first_columns()[13].decl == "TEXT"@,
        first_columns()[14].decl == "TEXT"@,
{
    assert(names_of(first_columns()) =~= seq![
        "id"@,
        "layer"@,
        "source"@,
        "privacy_level"@,
        "content"@,
        "context"@,
        "strength"@,
        "valence"@,
        "retrievals"@,
        "imagined"@,
        "grounded"@,
        "created_at"@,
        "last_retrieved"@,
        "project"@,
        "tags"@,
    ]);
    assert(names_of(fresh_columns()) =~= names_of(first_columns()) + seq![
        "content_hash"@,
        "modified_at"@,
    ]);
    assert(names_of(rebuilt_columns()) =~= names_of(first_columns()) + seq![
        "content_hash"@,
        "scope"@,
        "content_type"@,
        "occurred_at"@,
    ]);
    assert(names_of(widened_columns()) =~= names_of(rebuilt_columns()) + seq![
        "modified_at"@,
        "synced_at"@,
        "agent_id"@,
    ]);
}

/// What a step of a migration runs: a column is added as it is declared, a table is made anew,
/// filled from the old one column by column and put in its place, the text index is made anew and
/// filled from the table, and a version is stamped as it is.
pub proof fn law_steps_run(c: ColumnView, shape: Shape, n: u64)
    ensures
        StepView::Add(c).statements() == seq![
            plain_of("ALTER TABLE engrams ADD COLUMN "@ + (c.name + " "@ + c.decl)),
        ],
        StepView::Reindex.statements() == seq![
            plain_of("DROP TABLE IF EXISTS engrams_fts"@),
            plain_of(
                "CREATE VIRTUAL TABLE engrams_fts USING fts5(id, content, tokenize = 'porter unicode61')"@,
            ),
            plain_of(
                "INSERT INTO engrams_fts(rowid, id, content) SELECT rowid, id, content FROM engrams"@,
            ),
        ],
        StepView::Stamp(n).statements() == seq![
            plain_of("PRAGMA user_version = "@ + decimal(n as nat)),
        ],
        StepView::Fill(Fill::Scope).statements() == seq![
            plain_of(
                "UPDATE engrams SET scope = 'moment' WHERE scope IS NULL OR scope = ''"@,
            ),
        ],
        StepView::Fill(Fill::ContentType).statements() == seq![
            plain_of(
                "UPDATE engrams SET content_type = 'text' WHERE content_type IS NULL OR content_type = ''"@,
            ),
        ],
        StepView::Fill(Fill::Modified).statements() == seq![
            plain_of("UPDATE engrams SET modified_at = created_at WHERE modified_at IS NULL"@),
        ],
        StepView::Fill(Fill::Synced).statements() == seq![
            plain_of("UPDATE engrams SET synced_at = modified_at WHERE synced_at IS NULL"@),
        ],
        ({
            let name = match shape {
                Shape::Rebuilt => "engrams_v3"@,
                Shape::Widened => "engrams_v7"@,
            };
            let list = joined(shape.copied(), ", "@);
            StepView::Recreate(shape).statements() == seq![
                plain_of("CREATE TABLE "@ + name + " ("@ + body_of(shape.columns()) + ")"@),
                plain_of(
                    "INSERT INTO "@ + name + " ("@ + list + ") SELECT "@ + list
                        + " FROM engrams"@,
                ),
                plain_of("DROP TABLE engrams"@),
                plain_of("ALTER TABLE "@ + name + " RENAME TO engrams"@),
            ]
        }),
{
}

/// No link is lost while a table is made anew: wherever a migration does that and foreign keys act,
/// it suspends them, so that dropping the old table takes nothing with it.
pub proof fn law_foreign_keys_rest_while_a_table_is_made_anew(s: SchemaView, m: int, k: int)
    requires
        0 <= m < plan(s).len(),
        0 <= k < plan(s)[m].steps.len(),
        plan(s)[m].steps[k] is Recreate,
    ensures
        plan(s)[m].suspends_foreign_keys == s.foreign_keys,
{
    let p = plan(s);
    let n = once(s).len() as int;
    let c = columns_before_hashing(s);
    if m < n {
        assert(p[m] == once(s)[m]);
        if s.version < 1 && m == 0 {
            assert(p[m] == adding_scope(s.columns));
            assert(adding_scope(s.columns).steps[k] !is Recreate);
        }
    } else if m < n + 4 {
        assert(p[m] == always(c)[m - n]);
        assert(always(c)[m - n].steps[k] !is Recreate);
    }
}

/// An old vault gets every step that it lacks, in order, and one that is up to date gets none of
/// those that change a table: which migrations run depends on its version alone, but for the
/// columns that are missing.
pub proof fn law_missing_steps_are_taken(s: SchemaView)
    ensures
        once(s).len() == if s.version < 1 {
            3nat
        } else if s.version < 2 {
            2nat
        } else if s.version < 3 {
            1nat
        } else {
            0nat
        },
        s.version < 1 ==> once(s)[0] == adding_scope(s.columns),
        s.version < 2 ==> once(s)[once(s).len() - 2] == reindexing(),
        s.version < 3 ==> once(s)[once(s).len() - 1] == rebuilding(s.foreign_keys),
        plan(s).len() >= once(s).len() + 4,
        s.version >= 3 && !s.admits && s.has_all(copied_names()) ==> plan(s).last() == widening(
            s.foreign_keys,
        ),
        s.version >= 3 && s.admits && !s.stems ==> plan(s).last() == stemming(),
{
}

/// Every row that holds a memory is given the hash of its own content.
pub proof fn law_every_memory_is_given_its_hash(rows: Seq<Seq<SqlView>>)
    requires
        forall|i: int|
            0 <= i < rows.len() ==> (#[trigger] rows[i]).len() >= 2 && rows[i][0] is Text
                && rows[i][1] is Text,
    ensures
        hash_statements(rows).len() == rows.len(),
        forall|i: int|
            0 <= i < rows.len() ==> #[trigger] hash_statements(rows)[i] == (StatementView {
                sql: "UPDATE engrams SET content_hash = ?1 WHERE id = ?2"@,
                params: seq![SqlView::Text(hash_of(rows[i][1]->Text_0)), rows[i][0]],
            }),
    decreases rows.len(),
{
    if rows.len() > 0 {
        let before = rows.drop_last();
        assert forall|i: int| 0 <= i < before.len() implies (#[trigger] before[i]).len() >= 2
            && before[i][0] is Text && before[i][1] is Text by {
            assert(before[i] == rows[i]);
        }
        law_every_memory_is_given_its_hash(before);
        assert(rows.last() == rows[rows.len() - 1]);
        assert forall|i: int| 0 <= i < rows.len() implies #[trigger] hash_statements(rows)[i] == (
        StatementView {
            sql: "UPDATE engrams SET content_hash = ?1 WHERE id = ?2"@,
            params: seq![SqlView::Text(hash_of(rows[i][1]->Text_0)), rows[i][0]],
        }) by {
            if i < before.len() {
                assert(before[i] == rows[i]);
                assert(hash_statements(rows)[i] == hash_statements(before)[i]);
            }
        }
    }
}

/// A table is up to date if it admits all sources, and a text index if it stems words; else they
/// are made anew. Which it is shows in how they were declared.
pub proof fn law_old_declarations_are_recognized(table: Seq<char>, index: Seq<char>)
    ensures
        stemmed(index) <==> occurs_in(index, "'porter unicode61'"@),
        declared(table) <==> occurs_in(
            table,
            "CHECK("@ + "source"@ + " IN ("@ + joined(
                source_names().map_values(|s: Seq<char>| "'"@ + s + "'"@),
                ","@,
            ) + "))"@,
        ),
{
    assert(all_quoted(source_names()) =~= source_names().map_values(
        |s: Seq<char>| "'"@ + s + "'"@,
    ));
}

/// The names that a table admits are those of the layers, sources, levels of privacy and types of
/// links; of sources also one that users stand for.
pub proof fn law_admitted_names_read()
    ensures
        layer_names() == seq!["episodic"@, "semantic"@, "imagined"@],
        source_names() == seq![
            "interaction"@,
            "sensor"@,
            "consolidation"@,
            "imagined"@,
            "chat"@,
            "slack"@,
            "discord"@,
            "telegram"@,
            "window"@,
            "mic"@,
            "agent"@,
            "research"@,
            "system"@,
            "user"@,
            "observation"@,
            "ai-session"@,
            "ai-tool"@,
        ],
        privacy_names() == seq!["strict_local"@, "hybrid"@, "cloud_first"@, "enterprise"@],
        link_names() == seq!["associative"@, "causal"@, "analogical"@, "temporal"@],
{
}

/// What each migration does, given the columns that are there: it adds the columns that are missing
/// and fills them, makes the table or the text index anew, looks for rows without a hash, and
/// stamps the version that it leads to.
pub proof fn law_migrations_do(columns: Seq<Seq<char>>, foreign_keys: bool)
    ensures
        ({
            let adding = |name: Seq<char>, decl: Seq<char>, more: Seq<StepView>|
                if columns.contains(name) {
                    Seq::<StepView>::empty()
                } else {
                    seq![StepView::Add(ColumnView { name, decl })] + more
                };
            let none = Seq::<StepView>::empty();
            &&& !adding_scope(columns).suspends_foreign_keys
            &&& !reindexing().suspends_foreign_keys
            &&& rebuilding(foreign_keys).suspends_foreign_keys == foreign_keys
            &&& !hashing(columns).suspends_foreign_keys
            &&& !dating(columns).suspends_foreign_keys
            &&& !syncing(columns).suspends_foreign_keys
            &&& !naming(columns).suspends_foreign_keys
            &&& widening(foreign_keys).suspends_foreign_keys == foreign_keys
            &&& !stemming().suspends_foreign_keys
            &&& adding_scope(columns).steps == adding(
                "scope"@,
                "TEXT NOT NULL DEFAULT 'moment'"@,
                seq![StepView::Fill(Fill::Scope)],
            ) + adding(
                "content_type"@,
                "TEXT NOT NULL DEFAULT 'text'"@,
                seq![StepView::Fill(Fill::ContentType)],
            ) + adding("occurred_at"@, "TEXT"@, none) + seq![StepView::Stamp(1)]
            &&& reindexing().steps == seq![
                StepView::Run(Upkeep::DropInsertTrigger),
                StepView::Run(Upkeep::DropDeleteTrigger),
                StepView::Run(Upkeep::DropUpdateTrigger),
                StepView::Reindex,
                StepView::Stamp(2),
            ]
            &&& rebuilding(foreign_keys).steps == seq![
                StepView::Recreate(Shape::Rebuilt),
                StepView::Run(Upkeep::LayerIndex),
                StepView::Run(Upkeep::SourceIndex),
                StepView::Run(Upkeep::CreatedIndex),
                StepView::Run(Upkeep::ImaginedIndex),
                StepView::Reindex,
                StepView::Stamp(3),
            ]
            &&& hashing(columns).steps == adding("content_hash"@, "TEXT"@, none) + seq![
                StepView::Run(Upkeep::HashIndex),
                StepView::Run(Upkeep::MetricsTable),
                StepView::Backfill(
                    plain_of("SELECT id, content FROM engrams WHERE content_hash IS NULL"@),
                ),
                StepView::Stamp(6),
            ]
            &&& dating(columns).steps == adding("modified_at"@, "TEXT"@, none) + seq![
                StepView::Fill(Fill::Modified),
                StepView::Run(Upkeep::ModifiedIndex),
                StepView::Stamp(6),
            ]
            &&& syncing(columns).steps == adding(
                "synced_at"@,
                "TEXT"@,
                seq![StepView::Fill(Fill::Synced)],
            ) + seq![StepView::Stamp(6)]
            &&& naming(columns).steps == adding("agent_id"@, "TEXT"@, none) + seq![
                StepView::Stamp(6),
            ]
            &&& widening(foreign_keys).steps == seq![
                StepView::Recreate(Shape::Widened),
                StepView::Run(Upkeep::LayerIndex),
                StepView::Run(Upkeep::SourceIndex),
                StepView::Run(Upkeep::CreatedIndex),
                StepView::Run(Upkeep::ImaginedIndex),
                StepView::Run(Upkeep::HashIndex),
                StepView::Run(Upkeep::ModifiedIndex),
                StepView::Reindex,
                StepView::Stamp(6),
            ]
            &&& stemming().steps == seq![StepView::Reindex, StepView::Stamp(6)]
        }),
{
}

/// Every vault, however old, is completed: behind what its version lacks come, in this order, the
/// hashes, the times of modification, the marks of what was pushed and the agents.
pub proof fn law_every_vault_is_completed(s: SchemaView)
    ensures
        ({
            let n = once(s).len() as int;
            let c0 = if s.version < 3 {
                names_of(rebuilt_columns())
            } else {
                s.columns
            };
            let with = |c: Seq<Seq<char>>, name: Seq<char>|
                if c.contains(name) {
                    c
                } else {
                    c.push(name)
                };
            let c1 = with(c0, "content_hash"@);
            let c2 = with(c1, "modified_at"@);
            let c3 = with(c2, "synced_at"@);
            &&& plan(s)[n] == hashing(c0)
            &&& plan(s)[n + 1] == dating(c1)
            &&& plan(s)[n + 2] == syncing(c2)
            &&& plan(s)[n + 3] == naming(c3)
        }),
{
}

/// Upkeep runs the statement that it is named after.
pub proof fn law_upkeep_runs()
    ensures
        Upkeep::LayerIndex.text() == LAYER_INDEX@,
        Upkeep::SourceIndex.text() == SOURCE_INDEX@,
        Upkeep::CreatedIndex.text() == CREATED_INDEX@,
        Upkeep::ImaginedIndex.text() == IMAGINED_INDEX@,
        Upkeep::HashIndex.text() == HASH_INDEX@,
        Upkeep::ModifiedIndex.text() == MODIFIED_INDEX@,
        Upkeep::MetricsTable.text() == METRICS_TABLE@,
        Upkeep::DropInsertTrigger.text() == DROP_INSERT_TRIGGER@,
        Upkeep::DropDeleteTrigger.text() == DROP_DELETE_TRIGGER@,
        Upkeep::DropUpdateTrigger.text() == DROP_UPDATE_TRIGGER@,
{
}

} // verus!
