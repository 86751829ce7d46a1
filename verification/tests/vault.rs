//! The library on a real vault: every step it decides runs on a SQLCipher connection.
use axiom_engram::capture::{WriteAction, WriteEvent, WriteJob, WriteOutcome};
use axiom_engram::digest::{digest_window, DigestWindow};
use axiom_engram::embedding::{rows_to_embeddings, Embedded, LinkInferenceConfig};
use axiom_engram::engram::{
    ConsolidationRun, Engram, EngramLayer, EngramLink, EngramSource, LinkType,
};
use axiom_engram::error::EngramError;
use axiom_engram::hygiene;
use axiom_engram::keys;
use axiom_engram::links::{live_embeddings, LinkFindings, LinkLookups, Tagged};
use axiom_engram::measure::Measure;
use axiom_engram::open::{self, OpenAction, OpenEvent, OpenJob};
use axiom_engram::patterns::{self, TemporalPattern};
use axiom_engram::query::{search_backend, search_store, Lookup, Query, SortKey};
use axiom_engram::recall::{self, NearDuplicate};
use axiom_engram::rows::{
    enrich_links_batch, row_to_engram, rows_to_engrams, rows_to_links, ALL_LINKS,
};
use axiom_engram::schema::{self, Migration, Step};
use axiom_engram::search::{self, ContentStage, QuarantineFilter};
use axiom_engram::sql::{Row, SqlValue, Statement};
use axiom_engram::store;
use axiom_engram::time::Timestamp;
use rusqlite::types::{Value, ValueRef};
use rusqlite::{Connection, OptionalExtension};
use chrono::Utc;
use std::path::Path;
use tempfile::tempdir;

type Result<T> = std::result::Result<T, EngramError>;

fn measure(x: f64) -> Measure {
    Measure { bits: x.to_bits() }
}

fn number(m: Measure) -> f64 {
    f64::from_bits(m.bits)
}

fn measures(v: &[f64]) -> Vec<Measure> {
    v.iter().map(|x| measure(*x)).collect()
}

fn numbers(v: &[Measure]) -> Vec<f64> {
    v.iter().map(|m| number(*m)).collect()
}

fn database(e: rusqlite::Error) -> EngramError {
    EngramError::Database(e.to_string())
}

fn value(v: &SqlValue) -> Value {
    match v {
        SqlValue::Null => Value::Null,
        SqlValue::Integer(n) => Value::Integer(*n),
        SqlValue::Real(m) => Value::Real(number(*m)),
        SqlValue::Text(s) => Value::Text(s.clone()),
        SqlValue::Blob(b) => Value::Blob(b.clone()),
    }
}

fn cell(v: ValueRef<'_>) -> SqlValue {
    match v {
        ValueRef::Null => SqlValue::Null,
        ValueRef::Integer(n) => SqlValue::Integer(n),
        ValueRef::Real(x) => SqlValue::Real(measure(x)),
        ValueRef::Text(t) => SqlValue::Text(String::from_utf8_lossy(t).into_owned()),
        ValueRef::Blob(b) => SqlValue::Blob(b.to_vec()),
    }
}

/// Runs a statement; how many rows it changed.
fn run(conn: &Connection, s: &Statement) -> Result<usize> {
    if s.params.is_empty() {
        conn.execute_batch(&s.sql).map_err(database)?;
        Ok(conn.changes() as usize)
    } else {
        let params: Vec<Value> = s.params.iter().map(value).collect();
        conn.execute(&s.sql, rusqlite::params_from_iter(params)).map_err(database)
    }
}

fn run_all(conn: &Connection, list: &[Statement]) -> Result<()> {
    for s in list {
        run(conn, s)?;
    }
    Ok(())
}

/// Runs a query; its rows.
fn rows(conn: &Connection, s: &Statement) -> Result<Vec<Row>> {
    let mut stmt = conn.prepare(&s.sql).map_err(database)?;
    let width = stmt.column_count();
    let params: Vec<Value> = s.params.iter().map(value).collect();
    let mut cursor = stmt.query(rusqlite::params_from_iter(params)).map_err(database)?;
    let mut out = Vec::new();
    while let Some(r) = cursor.next().map_err(database)? {
        let mut row: Row = Vec::new();
        for i in 0..width {
            row.push(cell(r.get_ref(i).map_err(database)?));
        }
        out.push(row);
    }
    Ok(out)
}

fn bare(sql: &str) -> Statement {
    Statement { sql: sql.to_string(), params: Vec::new() }
}

fn first_text(list: &[Row]) -> Option<String> {
    match list.first().and_then(|r| r.first()) {
        Some(SqlValue::Text(s)) => Some(s.clone()),
        _ => None,
    }
}

fn texts(list: &[Row]) -> Vec<String> {
    list.iter()
        .filter_map(|r| match r.first() {
            Some(SqlValue::Text(s)) => Some(s.clone()),
            _ => None,
        })
        .collect()
}

fn integer(list: &[Row]) -> i64 {
    match list.first().and_then(|r| r.first()) {
        Some(SqlValue::Integer(n)) => *n,
        _ => 0,
    }
}

/// Cosine similarity. Floating-point arithmetic, which the library leaves to its user.
fn cosine_similarity(a: &[f64], b: &[f64]) -> f64 {
    if a.len() != b.len() || a.is_empty() {
        return 0.0;
    }
    let dot: f64 = a.iter().zip(b.iter()).map(|(x, y)| x * y).sum();
    let norm_a: f64 = a.iter().map(|x| x * x).sum::<f64>().sqrt();
    let norm_b: f64 = b.iter().map(|x| x * x).sum::<f64>().sqrt();
    if norm_a == 0.0 || norm_b == 0.0 {
        return 0.0;
    }
    dot / (norm_a * norm_b)
}

fn similarities(own: &[f64], stored: &[Embedded]) -> Vec<Measure> {
    stored.iter().map(|e| measure(cosine_similarity(own, &numbers(&e.vector)))).collect()
}

/// What is left of a strength after some idle days, if that is a change. Floating-point
/// arithmetic, which the library leaves to its user.
fn faded(strength: f64, days: f64, stability: f64) -> Option<f64> {
    let retention = (-days / stability).exp();
    let new_strength = (strength * retention).max(0.01);
    if (new_strength - strength).abs() > 0.001 {
        Some(new_strength)
    } else {
        None
    }
}

/// How relevant a memory is to what is going on. Floating-point arithmetic, which the library
/// leaves to its user.
fn relevance(engram: &Engram, overlap: usize, days_old: u64) -> f64 {
    let mut score = overlap as f64 * 0.3;
    score += number(engram.strength) * 0.4;
    let recency = (-(days_old as f64) / 7.0).exp();
    score += recency * 0.2;
    let valence = number(engram.valence);
    if valence > 0.0 {
        score += valence * 0.1;
    }
    score
}

fn try_key(db: &Path, key: &str) -> Option<Connection> {
    let conn = Connection::open(db).ok()?;
    conn.execute_batch(&open::key_pragma(key)).ok()?;
    conn.execute_batch(open::BUSY_TIMEOUT).ok()?;
    conn.execute_batch(open::FOREIGN_KEYS_ON).ok()?;
    conn.query_row(open::PROBE, [], |r| r.get::<_, i64>(0)).ok()?;
    Some(conn)
}

fn migrate_one(conn: &Connection, m: Migration) -> Result<()> {
    if m.suspends_foreign_keys {
        conn.execute_batch("PRAGMA foreign_keys = OFF").map_err(database)?;
    }
    let suspended = m.suspends_foreign_keys;
    let body = || -> Result<()> {
        conn.execute_batch("BEGIN").map_err(database)?;
        for step in m.steps {
            if let Step::Backfill(query) = &step {
                let pending = rows(conn, query)?;
                run_all(conn, &schema::hash_backfill(&pending))?;
            }
            run_all(conn, &step.statements())?;
        }
        conn.execute_batch("COMMIT").map_err(database)
    };
    let result = body();
    if result.is_err() {
        let _ = conn.execute_batch("ROLLBACK");
    }
    if suspended {
        conn.execute_batch("PRAGMA foreign_keys = ON").map_err(database)?;
    }
    result
}

/// Brings the tables of a vault up to date.
fn migrate(conn: &Connection) -> Result<()> {
    let version: i32 =
        conn.query_row("PRAGMA user_version", [], |row| row.get(0)).map_err(database)?;
    let foreign_keys = conn
        .query_row("PRAGMA foreign_keys", [], |row| row.get::<_, i64>(0))
        .map(|v| v != 0)
        .unwrap_or(true);
    let columns: Vec<String> = rows(conn, &bare("PRAGMA table_info('engrams')"))?
        .into_iter()
        .filter_map(|mut r| match r.swap_remove(1) {
            SqlValue::Text(s) => Some(s),
            _ => None,
        })
        .collect();
    let declaration = |name: &str| -> Result<String> {
        conn.query_row("SELECT sql FROM sqlite_master WHERE name = ?1", [name], |row| row.get(0))
            .optional()
            .map(|sql| sql.unwrap_or_default())
            .map_err(database)
    };
    let table = declaration("engrams")?;
    let index = declaration("engrams_fts")?;
    for m in schema::migrate(version, &columns, &table, &index, foreign_keys) {
        migrate_one(conn, m)?;
    }
    Ok(())
}

/// Makes the tables of a vault that are missing.
fn create_tables(conn: &Connection) -> Result<()> {
    run_all(conn, &schema::create_tables())
}

/// An open vault.
struct Vault {
    conn: Connection,
}

impl Vault {
    /// Opens or makes the vault in a directory, by a passphrase or by the machine. The salt is kept
    /// by the caller.
    fn open(dir: &Path, passphrase: Option<&str>, salt: &mut Option<Vec<u8>>) -> Result<Vault> {
        let db = dir.join("engrams.db");
        let machine_id = keys::read_machine_id(&vec![None, Some(" test-machine \n".to_string())]);
        let mut job = match passphrase {
            Some(p) => {
                assert!(p.len() <= u32::MAX as usize, "passphrase is too long");
                OpenJob::open_with_passphrase(p.to_string(), machine_id)
            }
            None => OpenJob::open(machine_id),
        };
        let mut conn: Option<Connection> = None;
        let mut event = OpenEvent::Start(db.exists());
        loop {
            event = match job.advance(event) {
                OpenAction::MakeSalt => {
                    if let Some(fresh) = keys::create_per_vault_salt(salt.is_some()) {
                        *salt = Some(fresh);
                    }
                    OpenEvent::Salt(salt.clone())
                }
                OpenAction::ReadSalt => OpenEvent::Salt(salt.clone()),
                OpenAction::Create(key) => {
                    let new = Connection::open(&db).map_err(database)?;
                    new.execute_batch(&open::key_pragma(&key)).map_err(|e| {
                        EngramError::Validation(format!("vault key setup failed: {e}"))
                    })?;
                    new.execute_batch(open::BUSY_TIMEOUT).map_err(|e| {
                        EngramError::Validation(format!("busy_timeout setup failed: {e}"))
                    })?;
                    return Vault::finish_open(new);
                }
                OpenAction::Try(key) => {
                    conn = try_key(&db, &key);
                    OpenEvent::Tried(conn.is_some())
                }
                OpenAction::Rekey(key) => {
                    let done = match &conn {
                        Some(c) => c.execute_batch(&open::rekey_pragma(&key)),
                        None => Err(rusqlite::Error::InvalidQuery),
                    };
                    match done {
                        Ok(()) => OpenEvent::Rekeyed,
                        Err(e) => OpenEvent::RekeyFailed(e.to_string()),
                    }
                }
                OpenAction::Finish => {
                    return match conn {
                        Some(c) => Vault::finish_open(c),
                        None => Err(EngramError::Validation("vault is not open".to_string())),
                    };
                }
                OpenAction::Fail(e) => return Err(e),
            };
        }
    }

    fn finish_open(conn: Connection) -> Result<Vault> {
        run_all(&conn, &open::finish_open())?;
        migrate(&conn)?;
        let tx = conn.unchecked_transaction().map_err(database)?;
        let present = integer(&rows(&tx, &bare(hygiene::COHERENCE_COUNT))?);
        if let Some(s) = hygiene::first_coherence(present, "{}", Timestamp::now()) {
            run(&tx, &s)?;
        }
        tx.commit().map_err(database)?;
        Ok(Vault { conn })
    }

    fn compared(&self, query: &Statement, own: &[f64]) -> Result<(Vec<Embedded>, Vec<Measure>)> {
        let stored = rows_to_embeddings(&rows(&self.conn, query)?, Timestamp::now())?;
        let scores = similarities(own, &stored);
        Ok((stored, scores))
    }

    fn look_up(&self, lookups: &LinkLookups) -> Result<LinkFindings> {
        let in_session = match &lookups.in_session {
            Some(q) => first_text(&rows(&self.conn, q)?),
            None => None,
        };
        let tagged = rows(&self.conn, &lookups.tagged)?
            .into_iter()
            .filter_map(|r| match (r.first(), r.get(1)) {
                (Some(SqlValue::Text(id)), Some(SqlValue::Text(tags))) => {
                    Some(Tagged { id: id.clone(), tags: tags.clone() })
                }
                _ => None,
            })
            .collect();
        Ok(LinkFindings {
            linked: texts(&rows(&self.conn, &lookups.linked)?),
            in_session,
            predecessor: first_text(&rows(&self.conn, &lookups.predecessor)?),
            tagged,
        })
    }

    fn run_write(&self, mut job: WriteJob) -> Result<WriteOutcome> {
        if !job.engram.is_wf() {
            return Err(EngramError::Validation("time outside the calendar".to_string()));
        }
        let id = job.engram.id.clone();
        let own: Vec<f64> = job.embedding.as_ref().map(|v| numbers(v)).unwrap_or_default();
        let mut tx = None;
        let mut event = WriteEvent::Start;
        loop {
            event = match job.advance(event, Timestamp::now()) {
                WriteAction::FindDuplicate(q) => {
                    WriteEvent::Found(first_text(&rows(&self.conn, &q)?))
                }
                WriteAction::FindSimilar(q) | WriteAction::FindNeighbours(q) => {
                    let (stored, scores) = self.compared(&q, &own)?;
                    WriteEvent::Compared { stored, scores }
                }
                WriteAction::Finish { statements, outcome } => {
                    run_all(&self.conn, &statements)?;
                    return Ok(outcome);
                }
                WriteAction::Store { unindex, statements } => {
                    let _ = run(&self.conn, &unindex);
                    tx = Some(self.conn.unchecked_transaction().map_err(database)?);
                    run_all(&self.conn, &statements)?;
                    WriteEvent::Stored
                }
                WriteAction::FindRelatives { statements, lookups } => {
                    run_all(&self.conn, &statements)?;
                    WriteEvent::Related(self.look_up(&lookups)?)
                }
                WriteAction::Connect { links, outcome } => {
                    if let Some(s) = &links.temporal {
                        run(&self.conn, s)?;
                    }
                    if let Some(o) = &links.associative {
                        let weight = measure(o.shared as f64 / o.of as f64);
                        run(
                            &self.conn,
                            &axiom_engram::links::link_statement(
                                &id,
                                &o.target,
                                weight,
                                LinkType::Associative,
                            ),
                        )?;
                    }
                    if let Some(t) = tx {
                        t.commit().map_err(database)?;
                    }
                    return Ok(outcome);
                }
            };
        }
    }

    fn write(&self, engram: &Engram) -> Result<WriteOutcome> {
        self.run_write(WriteJob::write(engram.clone()))
    }

    fn write_with_embedding(
        &self,
        engram: &Engram,
        embedding: Option<&[f64]>,
        model: Option<&str>,
        infer: Option<LinkInferenceConfig>,
    ) -> Result<WriteOutcome> {
        self.run_write(WriteJob::write_with_embedding(
            engram.clone(),
            embedding.map(measures),
            model.map(|m| m.to_string()),
            infer,
        ))
    }

    fn write_curated(&self, engram: &Engram) -> Result<WriteOutcome> {
        self.run_write(WriteJob::write_curated(engram.clone()))
    }

    fn engrams(&self, query: &Statement) -> Result<Vec<Engram>> {
        let found = rows_to_engrams(&rows(&self.conn, query)?, Timestamp::now())?;
        self.with_links(found)
    }

    fn with_links(&self, found: Vec<Engram>) -> Result<Vec<Engram>> {
        let links = rows(&self.conn, &bare(ALL_LINKS))?;
        enrich_links_batch(found, &links)
    }

    fn get(&self, id: &str) -> Result<Engram> {
        let found = rows(&self.conn, &store::get(id))?;
        if let Some(row) = found.first() {
            row_to_engram(row, Timestamp::now())?;
            run(&self.conn, &store::touch(id, Timestamp::now()))?;
        }
        let links = rows(&self.conn, &store::get_links(id))?;
        store::fetch(id, &found, &links, Timestamp::now())
    }

    fn get_inner(&self, id: &str) -> Result<Engram> {
        match rows(&self.conn, &store::get(id))?.first() {
            Some(row) => row_to_engram(row, Timestamp::now())
                .map_err(|_| EngramError::NotFound(id.to_string())),
            None => Err(EngramError::NotFound(id.to_string())),
        }
    }

    fn search_by_layer(&self, layer: EngramLayer, limit: usize) -> Result<Vec<Engram>> {
        self.engrams(&search::search_by_layer(layer, limit))
    }

    fn search_by_layer_filtered(
        &self,
        layer: EngramLayer,
        limit: usize,
        filter: QuarantineFilter,
    ) -> Result<Vec<Engram>> {
        self.engrams(&search::search_by_layer_filtered(layer, limit, filter))
    }

    fn search_by_content(&self, query: &str, limit: usize) -> Result<Vec<Engram>> {
        self.search_by_content_filtered(query, limit, QuarantineFilter::All)
    }

    fn search_by_content_filtered(
        &self,
        query: &str,
        limit: usize,
        filter: QuarantineFilter,
    ) -> Result<Vec<Engram>> {
        let plan = match search::search_by_content_filtered(query, limit, filter) {
            Some(p) => p,
            None => return Ok(Vec::new()),
        };
        let mut stage = ContentStage::AllWords;
        loop {
            let statement = match stage {
                ContentStage::AllWords => &plan.all_words,
                ContentStage::AnyWord => &plan.any_word,
                ContentStage::PlainText => &plan.plain_text,
            };
            let found = rows(&self.conn, statement)
                .and_then(|r| rows_to_engrams(&r, Timestamp::now()));
            match search::next_stage(stage, found.as_ref().ok().map(|v| v.len())) {
                Some(next) => stage = next,
                None => return self.with_links(found?),
            }
        }
    }

    fn list(&self, limit: usize, offset: usize) -> Result<Vec<Engram>> {
        self.engrams(&search::list(limit, offset))
    }

    fn list_filtered(
        &self,
        limit: usize,
        offset: usize,
        filter: QuarantineFilter,
    ) -> Result<Vec<Engram>> {
        self.engrams(&search::list_filtered(limit, offset, filter))
    }

    fn list_modified_since(&self, cutoff: &str, limit: usize) -> Result<Vec<Engram>> {
        self.engrams(&search::list_modified_since(cutoff, limit))
    }

    fn list_unsynced(&self, limit: usize) -> Result<Vec<Engram>> {
        self.engrams(&search::list_unsynced(limit))
    }

    fn search_by_tags(&self, tags: &[String], limit: usize) -> Result<Vec<Engram>> {
        self.engrams(&search::search_by_tags(&tags.to_vec(), limit))
    }

    fn search_by_tags_filtered(
        &self,
        tags: &[String],
        limit: usize,
        filter: QuarantineFilter,
    ) -> Result<Vec<Engram>> {
        self.engrams(&search::search_by_tags_filtered(&tags.to_vec(), limit, filter))
    }

    fn in_transaction(&self, list: &[Statement]) -> Result<()> {
        let tx = self.conn.unchecked_transaction().map_err(database)?;
        run_all(&tx, list)?;
        tx.commit().map_err(database)
    }

    fn mark_synced(&self, pushed: &[(String, String)]) -> Result<()> {
        self.in_transaction(&store::mark_synced(&pushed.to_vec()))
    }

    fn reset_synced(&self) -> Result<()> {
        run(&self.conn, &store::reset_synced()).map(|_| ())
    }

    fn digest_window(&self, cutoff: &str, limit: usize) -> Result<DigestWindow> {
        let q = digest_window(cutoff, limit);
        let count = |s: &Statement| -> Result<usize> {
            Ok(integer(&rows(&self.conn, s)?) as usize)
        };
        Ok(DigestWindow {
            new: self.engrams(&q.new)?,
            reinforced: self.engrams(&q.reinforced)?,
            fading: self.engrams(&q.fading)?,
            new_count: count(&q.new_count)?,
            reinforced_count: count(&q.reinforced_count)?,
            fading_count: count(&q.fading_count)?,
            live_total: count(&q.live_total)?,
            quarantined_count: count(&q.quarantined_count)?,
            quarantined_new_count: count(&q.quarantined_new_count)?,
        })
    }

    fn get_embeddings(&self, ids: &[String]) -> Result<Vec<(String, Vec<f64>)>> {
        let mut found = Vec::new();
        for id in ids {
            let blob = match rows(&self.conn, &store::get_embedding(id))?.first() {
                Some(row) => match row.get(1) {
                    Some(SqlValue::Blob(b)) => Some(b.clone()),
                    _ => None,
                },
                None => None,
            };
            found.push((id.clone(), blob));
        }
        let list = store::get_embeddings(&found);
        Ok(list.into_iter().map(|(id, v)| (id, numbers(&v))).collect())
    }

    fn count(&self) -> Result<i64> {
        Ok(integer(&rows(&self.conn, &store::count())?))
    }

    fn link(&self, source: &str, target: &str, weight: f64, link_type: LinkType) -> Result<()> {
        run_all(
            &self.conn,
            &store::link(source, target, measure(weight), link_type, Timestamp::now()),
        )
    }

    fn delete_inner(&self, id: &str, bury: bool) -> Result<()> {
        let tx = self.conn.unchecked_transaction().map_err(database)?;
        let mut removed = 0;
        for s in store::delete(id) {
            removed = run(&tx, &s)?;
        }
        run_all(&tx, &store::after_delete(id, removed, bury, Timestamp::now())?)?;
        tx.commit().map_err(database)
    }

    fn delete(&self, id: &str) -> Result<()> {
        self.delete_inner(id, true)
    }

    fn delete_without_tombstone(&self, id: &str) -> Result<()> {
        self.delete_inner(id, false)
    }

    fn purge_by_criteria(
        &self,
        source: Option<&str>,
        layer: Option<&str>,
        project: Option<&str>,
        before_date: Option<&str>,
    ) -> Result<usize> {
        let own = |s: Option<&str>| s.map(|t| t.to_string());
        let purge =
            store::purge_by_criteria(&own(source), &own(layer), &own(project), &own(before_date))?;
        let ids = texts(&rows(&self.conn, &purge.select)?);
        self.in_transaction(&store::finish_purge(purge.delete, &ids, Timestamp::now()))?;
        Ok(ids.len())
    }

    fn list_tombstones(&self) -> Result<Vec<(String, String)>> {
        Ok(store::rows_to_tombstones(&rows(&self.conn, &store::list_tombstones())?))
    }

    fn clear_tombstones(&self, ids: &[String]) -> Result<()> {
        self.in_transaction(&store::clear_tombstones(&ids.to_vec()))
    }

    fn record_tombstone(&self, id: &str, deleted_at: &str) -> Result<()> {
        run(&self.conn, &store::record_tombstone(id, deleted_at)).map(|_| ())
    }

    fn get_links(&self, id: &str) -> Result<Vec<EngramLink>> {
        rows_to_links(&rows(&self.conn, &store::get_links(id))?)
    }

    fn search_related(&self, id: &str, limit: usize) -> Result<Vec<Engram>> {
        let targets = recall::linked_targets(&self.get_links(id)?, limit);
        let found = targets.iter().filter_map(|t| self.get_inner(t).ok()).collect();
        let mut engrams = recall::keep_live(found);
        if let Some((_, own)) = self.get_embedding(id)? {
            let (stored, scores) = self.compared(&live_embeddings(id), &own)?;
            for near in recall::search_related(&engrams, &stored, &scores, limit) {
                if let Ok(e) = self.get_inner(&near.id) {
                    engrams.push(e);
                }
            }
        }
        self.with_links(engrams)
    }

    fn score_table(&self, vectors: &[Vec<f64>]) -> Vec<Vec<Measure>> {
        vectors
            .iter()
            .map(|a| vectors.iter().map(|b| measure(cosine_similarity(a, b))).collect())
            .collect()
    }

    fn backfill_semantic_links(&self, max_links: usize, min_similarity: f64) -> Result<usize> {
        let stored = rows_to_embeddings(
            &rows(&self.conn, &bare(recall::LIVE_EMBEDDINGS))?,
            Timestamp::now(),
        )?;
        let vectors: Vec<Vec<f64>> = stored.iter().map(|e| numbers(&e.vector)).collect();
        let table = self.score_table(&vectors);
        let statements = recall::backfill_semantic_links(
            &stored,
            &table,
            max_links,
            measure(min_similarity),
        );
        run_all(&self.conn, &statements)?;
        Ok(statements.len())
    }

    fn get_embedding(&self, id: &str) -> Result<Option<(String, Vec<f64>)>> {
        let found = store::read_embedding(&rows(&self.conn, &store::get_embedding(id))?)?;
        Ok(found.map(|(model, v)| (model, numbers(&v))))
    }

    fn apply_daily_hygiene(&self) -> Result<(i32, i32)> {
        let now = Timestamp::now();
        let care = hygiene::apply_daily_hygiene(now);
        let tx = self.conn.unchecked_transaction().map_err(database)?;
        let strengthened = run(&tx, &care.strengthen)?;
        let idle = hygiene::rows_to_idle(&rows(&tx, &care.idle)?, now)?;
        let strengths: Vec<Option<Measure>> = idle
            .iter()
            .map(|x| {
                faded(number(x.strength), x.days as f64, x.stability as f64).map(measure)
            })
            .collect();
        let statements = hygiene::decay_statements(&idle, &strengths);
        run_all(&tx, &statements)?;
        tx.commit().map_err(database)?;
        Ok((strengthened as i32, statements.len() as i32))
    }

    fn find_near_duplicates(&self, limit: usize) -> Result<Vec<NearDuplicate>> {
        let list =
            recall::rows_to_candidates(&rows(&self.conn, &recall::repetition_candidates())?)?;
        let vectors: Vec<Vec<f64>> = list.iter().map(|c| numbers(&c.vector)).collect();
        let table = self.score_table(&vectors);
        Ok(recall::find_near_duplicates(&list, &table, limit))
    }

    fn find_stale_state(&self, limit: usize) -> Result<Vec<(String, String)>> {
        let found = rows(&self.conn, &recall::stale_candidates(Timestamp::now()))?;
        recall::find_stale_state(&found, limit)
    }

    fn apply_weekly_consolidation(&self) -> Result<(i32, i32)> {
        let tx = self.conn.unchecked_transaction().map_err(database)?;
        let mut changed = Vec::new();
        for s in hygiene::apply_weekly_consolidation(Timestamp::now()) {
            changed.push(run(&tx, &s)?);
        }
        tx.commit().map_err(database)?;
        Ok((changed[0] as i32, changed[changed.len() - 1] as i32))
    }

    fn store_embedding(&self, id: &str, embedding: &[f64]) -> Result<()> {
        run(&self.conn, &store::store_embedding(id, &measures(embedding), Timestamp::now()))
            .map(|_| ())
    }

    fn vector_search(&self, query: &[f64], limit: usize) -> Result<Vec<(Engram, f64)>> {
        let (stored, scores) = self.compared(&bare(recall::ALL_EMBEDDINGS), query)?;
        let mut out = Vec::new();
        for near in recall::vector_search(&stored, &scores, limit) {
            if let Ok(e) = self.get_inner(&near.id) {
                out.push((e, number(near.score)));
            }
        }
        Ok(out)
    }

    fn surface_relevant(&self, context: &str, limit: usize) -> Result<Vec<(Engram, f64)>> {
        let now = Timestamp::now();
        let found = rows_to_engrams(&rows(&self.conn, &recall::surface_candidates())?, now)?;
        let scores: Vec<Measure> = found
            .iter()
            .map(|e| {
                let overlap = recall::word_overlap(context, &e.content);
                measure(relevance(e, overlap, now.days_since(e.created_at)))
            })
            .collect();
        let surfaced = recall::surface_relevant(found, &scores, limit);
        Ok(surfaced.into_iter().map(|s| (s.engram, number(s.score))).collect())
    }

    fn detect_temporal_patterns(
        &self,
        query: &str,
        min_engrams: usize,
    ) -> Result<Option<TemporalPattern>> {
        let found = rows(&self.conn, &patterns::pattern_times(query))?;
        let times = patterns::rows_to_times(&found, Timestamp::now());
        Ok(patterns::detect_temporal_patterns(query, &times, min_engrams))
    }

    fn get_consolidation_history(&self, limit: usize) -> Result<Vec<ConsolidationRun>> {
        let found = rows(&self.conn, &hygiene::get_consolidation_history(limit))?;
        Ok(hygiene::rows_to_runs(&found, Timestamp::now()))
    }

    fn record_consolidation_run(&self, past: &ConsolidationRun) -> Result<()> {
        if !past.run_at.is_wf() {
            return Err(EngramError::Validation("time outside the calendar".to_string()));
        }
        run(&self.conn, &hygiene::record_consolidation_run(past)).map(|_| ())
    }

    fn get_coherence(&self) -> Result<hygiene::CoherenceRecord> {
        let found = rows(&self.conn, &hygiene::get_coherence())
            .map_err(|e| EngramError::NotFound(e.message()))?;
        hygiene::rows_to_coherence(&found, Timestamp::now())
    }

    fn update_coherence(&self, state: &hygiene::CoherenceRecord) -> Result<()> {
        for t in [state.last_hygiene_daily, state.last_hygiene_weekly].into_iter().flatten() {
            if !t.is_wf() {
                return Err(EngramError::Validation("time outside the calendar".to_string()));
            }
        }
        run(&self.conn, &hygiene::update_coherence(state, Timestamp::now())).map(|_| ())
    }

    fn find(&self, lookup: &Lookup, limit: usize) -> Result<Vec<Engram>> {
        match lookup {
            Lookup::Content(text) => self.search_by_content(text, limit),
            Lookup::Tags(tags) => self.search_by_tags(tags, limit),
            Lookup::Layer(layer) => self.search_by_layer(*layer, limit),
            Lookup::All(offset) => self.list(limit, *offset),
        }
    }

    /// What the store gives for a query.
    fn search(&self, query: &Query) -> Result<Vec<Engram>> {
        let found = self.find(&query.store_lookup(), query.limit)?;
        let relevance: Vec<Measure> = found
            .iter()
            .map(|e| measure(number(e.strength) * (e.retrievals as f64 + 1.0)))
            .collect();
        Ok(search_store(&found, &relevance, query.min_strength, query.sort_by))
    }

    /// What a backend over the store gives for a query.
    fn search_wide(&self, query: &Query) -> Result<Vec<Engram>> {
        let found = self.find(&query.backend_lookup(), query.fetch_limit())?;
        Ok(search_backend(&found, query.min_strength, query.sort_by, query.limit))
    }
}

fn stamp(t: chrono::DateTime<Utc>) -> Timestamp {
    Timestamp { secs: t.timestamp(), nanos: t.timestamp_subsec_nanos() }
}

fn written(t: Timestamp) -> String {
    chrono::DateTime::from_timestamp(t.secs, t.nanos).unwrap().to_rfc3339()
}

fn test_store() -> (Vault, tempfile::TempDir) {
    let dir = tempdir().unwrap();
    let store = Vault::open(dir.path(), None, &mut None).unwrap();
    (store, dir)
}

#[test]
fn digest_window_partitions_by_window_and_quarantine() {
    let (store, _dir) = test_store();
    let now = Utc::now();
    let cutoff = (now - chrono::Duration::days(7)).to_rfc3339();
    let old = stamp(now - chrono::Duration::days(14));
    let fresh = stamp(now - chrono::Duration::days(1));

    for (i, content) in ["strong decision captured this week", "weak observation captured this week"].iter().enumerate() {
        let mut e = make_engram(content);
        e.created_at = stamp(now - chrono::Duration::hours(24 + i as i64));
        e.strength = measure(if i == 0 { 1.5 } else { 0.2 });
        store.write(&e).unwrap();
    }
    let mut reinforced = make_engram("reinforced memory from the old project");
    reinforced.created_at = old;
    reinforced.last_retrieved = Some(fresh);
    store.write(&reinforced).unwrap();
    let mut fading = make_engram("fading note from the old project");
    fading.created_at = old;
    fading.strength = measure(0.1);
    store.write(&fading).unwrap();
    let mut noise = make_engram("hallucinated detail that never happened");
    noise.imagined = true;
    noise.grounded = false;
    noise.created_at = stamp(now - chrono::Duration::hours(1));
    store.write_curated(&noise).unwrap();

    let w = store.digest_window(&cutoff, 10).unwrap();
    assert_eq!(w.new_count, 2);
    assert_eq!(w.reinforced_count, 1);
    assert_eq!(w.fading_count, 1);
    assert_eq!(w.live_total, 4);
    assert_eq!(w.quarantined_count, 1);
    assert_eq!(w.quarantined_new_count, 1);
    assert_eq!(w.new.len(), 2);
    assert!(number(w.new[0].strength) >= number(w.new[1].strength), "new sorted by strength desc");
    assert_eq!(w.reinforced[0].content, "reinforced memory from the old project");
    assert_eq!(w.fading[0].content, "fading note from the old project");
}

#[test]
fn purge_before_date_rejects_non_timestamp() {
    let (store, _dir) = test_store();
    let err = store
        .purge_by_criteria(None, None, None, Some("z"))
        
        .expect_err("non-RFC3339 before_date must be rejected");
    assert!(
        matches!(err, EngramError::Validation(_)),
        "expected Validation error, got: {}",
        err.message()
    );
    assert!(
        err.message().contains("RFC3339"),
        "error should name the accepted format"
    );

    let now = Utc::now();
    let mut old = make_engram("decision captured long ago for purge");
    old.created_at = stamp(now - chrono::Duration::days(14));
    let old_id = old.id.clone();
    let fresh = make_engram("recent observation that must survive");
    store.write(&old).unwrap();
    store.write(&fresh).unwrap();

    let cutoff = (now - chrono::Duration::days(7)).to_rfc3339();
    let deleted = store
        .purge_by_criteria(None, None, None, Some(&cutoff))
        
        .expect("valid RFC3339 before_date must purge");
    assert_eq!(deleted, 1, "only the old memory matches the cutoff");
    assert!(
        matches!(store.get(&old_id), Err(EngramError::NotFound(_))),
        "the old memory must be gone"
    );
    assert!(store.get(&fresh.id).is_ok(), "the fresh memory must survive");
}

fn make_engram(content: &str) -> Engram {
    Engram::new_episodic(
        content.to_string(),
        EngramSource::Interaction,
        "{}".to_string(),
    )
}

fn make_engram_sourced(content: &str, source: EngramSource) -> Engram {
    let mut e = make_engram(content);
    e.source = source;
    e
}

#[test]
fn test_passphrase_open_falls_back_to_machine_key_without_rekey() {
    let dir = tempdir().unwrap();
    let path = dir.path().to_path_buf();

    {
        let store = Vault::open(&path, None, &mut None).unwrap();
        store.write(&make_engram("machine keyed content")).unwrap();
    }

    {
        let store = Vault::open(&path, Some("sync-passphrase"), &mut None).unwrap();
        let list = store.list(10, 0).unwrap();
        assert!(list.iter().any(|e| e.content == "machine keyed content"));
    }

    {
        let store = Vault::open(&path, None, &mut None).unwrap();
        let list = store.list(10, 0).unwrap();
        assert!(list.iter().any(|e| e.content == "machine keyed content"));
    }
}

#[test]
fn test_write_and_get() {
    let (store, _dir) = test_store();
    let e = make_engram("hello world");
    let id = e.id.clone();
    store.write(&e).unwrap();
    let fetched = store.get(&id).unwrap();
    assert_eq!(fetched.content, "hello world");
}

#[test]
fn test_count_and_list() {
    let (store, _dir) = test_store();
    store.write(&make_engram("first memory")).unwrap();
    store.write(&make_engram("second memory")).unwrap();
    assert_eq!(store.count().unwrap(), 2);
    let list = store.list(10, 0).unwrap();
    assert_eq!(list.len(), 2);
}

#[test]
fn test_list_modified_since_filters_and_orders() {
    let (store, _dir) = test_store();
    let a = make_engram("first memory");
    let b = make_engram("second memory");
    let a_id = a.id.clone();
    let b_id = b.id.clone();
    store.write(&a).unwrap();
    let a_mod = store.get(&a_id).unwrap().modified_at;
    store.write(&b).unwrap();
    let b_mod = store.get(&b_id).unwrap().modified_at;

    let rows = store.list_modified_since("1970-01-01T00:00:00Z", 10).unwrap();
    assert_eq!(rows.len(), 2);
    assert_eq!(rows[0].id, a_id);
    assert_eq!(rows[1].id, b_id);

    let rows = store.list_modified_since(&written(a_mod), 10).unwrap();
    assert_eq!(rows.len(), 1);
    assert_eq!(rows[0].id, b_id);

    let mut edited = store.get(&a_id).unwrap();
    edited.content = "first memory edited".into();
    edited.modified_at = Timestamp::now();
    store.write_curated(&edited).unwrap();
    let fetched = store.get(&a_id).unwrap();
    assert_eq!(fetched.content, "first memory edited");
    assert_eq!(fetched.modified_at, edited.modified_at);

    let rows = store.list_modified_since(&written(b_mod), 10).unwrap();
    assert_eq!(rows.len(), 1);
    assert_eq!(rows[0].id, a_id);
}

#[test]
fn test_per_memory_sync_cursor() {
    let (store, _dir) = test_store();
    let a = make_engram("cursor a");
    let b = make_engram("cursor b");
    store.write(&a).unwrap();
    store.write(&b).unwrap();

    let rows = store.list_unsynced(10).unwrap();
    assert_eq!(rows.len(), 2, "fresh rows must be unsynced");

    let a_mod = store.get(&a.id).unwrap().modified_at;
    let a_mod = written(a_mod);
    store.mark_synced(&[(a.id.clone(), a_mod)]).unwrap();
    let rows = store.list_unsynced(10).unwrap();
    assert_eq!(rows.len(), 1);
    assert_eq!(rows[0].id, b.id);

    let mut edited = store.get(&a.id).unwrap();
    edited.content = "cursor a edited".into();
    edited.modified_at = Timestamp::now();
    store.write_curated(&edited).unwrap();
    let rows = store.list_unsynced(10).unwrap();
    assert_eq!(rows.len(), 2, "edited row must re-qualify for push");
    assert!(rows.iter().any(|r| r.id == a.id));

    store.reset_synced().unwrap();
    let rows = store.list_unsynced(10).unwrap();
    assert_eq!(rows.len(), 2, "reset must re-select every row");
}

#[test]
fn test_search_by_content() {
    let (store, _dir) = test_store();
    store.write(&make_engram("the quick brown fox")).unwrap();
    store.write(&make_engram("unrelated content")).unwrap();
    let results = store.search_by_content("quick", 10).unwrap();
    assert_eq!(results.len(), 1);
    assert!(results[0].content.contains("quick"));
}

#[test]
fn test_link_and_get_links() {
    let (store, _dir) = test_store();
    let a = make_engram("alpha memory");
    let b = make_engram("beta memory");
    let aid = a.id.clone();
    let bid = b.id.clone();
    store.write(&a).unwrap();
    store.write(&b).unwrap();
    store.link(&aid, &bid, 0.8, LinkType::Associative).unwrap();
    let links = store.get_links(&aid).unwrap();
    assert_eq!(links.len(), 1);
    assert_eq!(links[0].target_id, bid);
    assert!((number(links[0].weight) - 0.8).abs() < 1e-9);
    assert_eq!(links[0].link_type, LinkType::Associative);
}

#[test]
fn test_search_related() {
    let (store, _dir) = test_store();
    let a = make_engram("source memory");
    let b = make_engram("related memory");
    let c = make_engram("unrelated memory");
    let aid = a.id.clone();
    let bid = b.id.clone();
    store.write(&a).unwrap();
    store.write(&b).unwrap();
    store.write(&c).unwrap();
    store.link(&aid, &bid, 0.9, LinkType::Causal).unwrap();
    let related = store.search_related(&aid, 10).unwrap();
    assert_eq!(related.len(), 1);
    assert_eq!(related[0].content, "related memory");
}

#[test]
fn test_link_types() {
    let (store, _dir) = test_store();
    let a = make_engram("memory a");
    let b = make_engram("memory b");
    let c = make_engram("memory c");
    let d = make_engram("memory d");
    let (aid, bid, cid, did) = (a.id.clone(), b.id.clone(), c.id.clone(), d.id.clone());
    for e in [&a, &b, &c, &d] { store.write(e).unwrap(); }
    store.link(&aid, &bid, 0.5, LinkType::Associative).unwrap();
    store.link(&aid, &cid, 0.6, LinkType::Causal).unwrap();
    store.link(&aid, &did, 0.7, LinkType::Analogical).unwrap();
    let links = store.get_links(&aid).unwrap();
    assert_eq!(links.len(), 3);
    assert_eq!(links[0].link_type, LinkType::Analogical);
}

#[test]
fn test_daily_hygiene_no_crash() {
    let (store, _dir) = test_store();
    let (strengthened, decayed) = store.apply_daily_hygiene().unwrap();
    assert_eq!(strengthened, 0);
    assert_eq!(decayed, 0);
}

#[test]
fn test_hygiene_strengthens_retrieved_engrams() {
    let (store, _dir) = test_store();
    let e = make_engram("recently retrieved memory");
    let id = e.id.clone();
    store.write(&e).unwrap();

    let _ = store.get(&id).unwrap();

    let (strengthened, decayed) = store.apply_daily_hygiene().unwrap();
    assert_eq!(strengthened, 1, "just-retrieved engram should be strengthened");
    assert_eq!(decayed, 0, "just-retrieved engram should not decay");

    let updated = store.get(&id).unwrap();
    assert!(number(updated.strength) > 1.0,
        "strength should increase above baseline 1.0 after Hebbian strengthening, got {}",
        number(updated.strength));
}

#[test]
fn test_weekly_consolidation_no_crash() {
    let (store, _dir) = test_store();
    let (promoted, pruned) = store.apply_weekly_consolidation().unwrap();
    assert_eq!(promoted, 0);
    assert_eq!(pruned, 0);
}

#[test]
fn test_retrieval_counter_increments() {
    let (store, _dir) = test_store();
    let e = make_engram("touch me");
    let id = e.id.clone();
    store.write(&e).unwrap();

    let before = store.get(&id).unwrap();
    let retrievals_before = before.retrievals;
    assert!(before.last_retrieved.is_none(),
        "fresh engram should have no last_retrieved");

    let after = store.get(&id).unwrap();
    assert_eq!(after.retrievals, retrievals_before + 1,
        "get() should increment retrievals");
    assert!(after.last_retrieved.is_some(),
        "get() should set last_retrieved");

    let third = store.get(&id).unwrap();
    assert_eq!(third.retrievals, retrievals_before + 2,
        "second get() should increment retrievals again");
}

#[test]
fn test_get_enriches_links() {
    let (store, _dir) = test_store();
    let a = make_engram("source node");
    let b = make_engram("target node");
    let aid = a.id.clone();
    let bid = b.id.clone();
    store.write(&a).unwrap();
    store.write(&b).unwrap();
    store.link(&aid, &bid, 0.75, LinkType::Causal).unwrap();

    let fetched = store.get(&aid).unwrap();
    assert_eq!(fetched.links.len(), 1,
        "get() should populate links via enrich_links");
    assert_eq!(fetched.links[0].target_id, bid);
    assert!((number(fetched.links[0].weight) - 0.75).abs() < 1e-9);
    assert_eq!(fetched.links[0].link_type, LinkType::Causal);
}

#[test]
fn test_noise_capture_is_skipped() {
    let (store, _dir) = test_store();
    let outcome = store.write(&make_engram("ls")).unwrap();
    assert!(matches!(outcome, WriteOutcome::NoiseSkipped { .. }));
    assert_eq!(store.count().unwrap(), 0, "noise must not be stored");
}

#[test]
fn test_curated_sources_bypass_noise_filter() {
    let (store, _dir) = test_store();
    let mut e = make_engram("ls");
    e.source = EngramSource::Consolidation;
    assert_eq!(store.write(&e).unwrap(), WriteOutcome::Inserted);
}

#[test]
fn test_duplicate_capture_strengthens_existing() {
    let (store, _dir) = test_store();
    let a = make_engram("dedupe target content here");
    let b = make_engram("dedupe target content here");
    let aid = a.id.clone();
    assert_eq!(store.write(&a).unwrap(), WriteOutcome::Inserted);
    assert_eq!(
        store.write(&b).unwrap(),
        WriteOutcome::Duplicate { matched_id: aid.clone() }
    );
    assert_eq!(store.count().unwrap(), 1, "no new row for duplicate");
    let strengthened = store.get(&aid).unwrap();
    assert!(
        number(strengthened.strength) > 1.0,
        "duplicate should strengthen, got {}",
        number(strengthened.strength)
    );
}

#[test]
fn test_write_curated_persists_despite_sibling_duplicate() {
    let (store, _dir) = test_store();
    let a = make_engram("sibling content here");
    let mut b = make_engram("sibling content here");
    let bid = b.id.clone();
    assert_eq!(store.write(&a).unwrap(), WriteOutcome::Inserted);
    assert!(matches!(store.write(&b).unwrap(), WriteOutcome::Duplicate { .. }));
    assert_eq!(store.write_curated(&b).unwrap(), WriteOutcome::Inserted);
    assert_eq!(store.count().unwrap(), 2);

    b.imagined = true;
    b.layer = EngramLayer::Imagined;
    b.tags = vec!["noise".into()];
    assert_eq!(store.write_curated(&b).unwrap(), WriteOutcome::Inserted);
    let updated = store.get(&bid).unwrap();
    assert!(updated.imagined, "curated mutation must persist");
    assert_eq!(updated.layer, EngramLayer::Imagined);
    assert_eq!(store.count().unwrap(), 2, "no new row created");
}

#[test]
fn test_duplicate_normalizes_whitespace_and_prefixes() {
    let (store, _dir) = test_store();
    let a = make_engram("[12] [10:00:00] [/x] cargo check passed");
    let b = make_engram("  [99] [/y] Cargo   Check Passed ");
    let aid = a.id.clone();
    store.write(&a).unwrap();
    assert!(matches!(
        store.write(&b).unwrap(),
        WriteOutcome::Duplicate { matched_id } if matched_id == aid
    ));
}

#[test]
fn test_rewrite_same_id_is_not_duplicate() {
    let (store, _dir) = test_store();
    let mut e = make_engram("rewrite me once");
    let id = e.id.clone();
    assert_eq!(store.write(&e).unwrap(), WriteOutcome::Inserted);
    e.strength = measure(0.5);
    assert_eq!(store.write(&e).unwrap(), WriteOutcome::Inserted);
    assert_eq!(number(store.get(&id).unwrap().strength), 0.5);
}

#[test]
fn test_similar_embedding_skips_capture() {
    let (store, _dir) = test_store();
    let a = make_engram("the vault login screen requires a passkey");
    let b = make_engram("the login screen of the vault needs a passkey");
    let aid = a.id.clone();
    assert_eq!(
        store.write_with_embedding(&a, Some(&vec![1.0; 16]), Some("test-model"), None)
            .unwrap(),
        WriteOutcome::Inserted
    );
    assert!(matches!(
        store.write_with_embedding(&b, Some(&vec![0.999; 16]), Some("test-model"), None)
            .unwrap(),
        WriteOutcome::Similar { matched_id, similarity }
            if matched_id == aid && number(similarity) >= 0.95
    ));
    assert_eq!(store.count().unwrap(), 1, "paraphrase must not create a row");
}

#[test]
fn test_dissimilar_embedding_inserts() {
    let (store, _dir) = test_store();
    let a = make_engram("one fact about the vault");
    let b = make_engram("an unrelated fact about the site");
    store.write_with_embedding(&a, Some(&vec![1.0; 16]), Some("test-model"), None)
        .unwrap();
    assert_eq!(
        store.write_with_embedding(&b, Some(&vec![-1.0; 16]), Some("test-model"), None)
            .unwrap(),
        WriteOutcome::Inserted,
        "below-threshold similarity must not block a capture"
    );
}

#[test]
fn test_similar_gate_bypasses_curated_writes() {
    let (store, _dir) = test_store();
    let a = make_engram("curated target fact one");
    let b = make_engram("curated target fact two");
    store.write_with_embedding(&a, Some(&vec![1.0; 16]), Some("test-model"), None)
        .unwrap();
    assert_eq!(
        store.write_curated(&b).unwrap(),
        WriteOutcome::Inserted
    );
    assert_eq!(store.count().unwrap(), 2);
}

#[test]
fn test_find_near_duplicates_reports_above_threshold_only() {
    let (store, _dir) = test_store();
    let a = make_engram_sourced("near duplicate fact alpha", EngramSource::Interaction);
    let b = make_engram_sourced("near duplicate fact beta", EngramSource::Research);
    let c = make_engram_sourced("unrelated fact gamma", EngramSource::Chat);
    let (aid, bid) = (a.id.clone(), b.id.clone());
    store.write_with_embedding(&a, Some(&[1.0, 0.0]), Some("test-model"), None).unwrap();
    store.write_with_embedding(&b, Some(&[0.93, 0.1351f64.sqrt()]), Some("test-model"), None).unwrap();
    store.write_with_embedding(&c, Some(&[-0.8, 0.6]), Some("test-model"), None).unwrap();

    let pairs = store.find_near_duplicates(10).unwrap();
    assert_eq!(pairs.len(), 1);
    let p = &pairs[0];
    assert!(number(p.similarity) >= 0.90);
    let ids = [p.a_id.as_str(), p.b_id.as_str()];
    assert!(ids.contains(&aid.as_str()) && ids.contains(&bid.as_str()));
}

#[test]
fn test_find_near_duplicates_excludes_quarantine() {
    let (store, _dir) = test_store();
    let a = make_engram("live fact one");
    let mut q = Engram::new_imagined("quarantined fact two".to_string(), "{}".to_string());
    q.grounded = false;
    store.write_with_embedding(&a, Some(&[1.0, 0.0]), Some("test-model"), None).unwrap();
    store.write_curated(&q).unwrap();
    store.store_embedding(&q.id, &[0.999, 0.045]).unwrap();
    assert!(store.find_near_duplicates(10).unwrap().is_empty());
}

#[test]
fn test_find_stale_state_episodic_old_working_markers() {
    let (store, _dir) = test_store();
    let mut stale = make_engram("Amparo M3 in flight");
    stale.created_at = stamp(Utc::now() - chrono::Duration::days(10));
    let sid = stale.id.clone();
    store.write(&stale).unwrap();
    let fresh = make_engram("Deploy in flight");
    store.write(&fresh).unwrap();
    let mut sem = make_engram("Todo: release v0.1.4");
    sem.layer = EngramLayer::Semantic;
    sem.created_at = stamp(Utc::now() - chrono::Duration::days(10));
    store.write(&sem).unwrap();

    let stale_list = store.find_stale_state(10).unwrap();
    assert_eq!(stale_list.len(), 1);
    assert_eq!(stale_list[0].0, sid);
}

#[test]
fn test_capture_tags_normalized_curated_tags_verbatim() {
    let (store, _dir) = test_store();
    let mut a = make_engram("standardized tags on the capture path");
    a.tags = vec!["Note".into(), "#Deploy".into(), "Deploy ".into(), "misc".into()];
    let aid = a.id.clone();
    assert_eq!(store.write(&a).unwrap(), WriteOutcome::Inserted);
    let stored = store.get(&aid).unwrap();
    assert_eq!(stored.tags, vec!["deploy"], "capture tags must be normalized");

    let mut b = make_engram("curated tags stay as written");
    b.tags = vec!["Note".into()];
    let bid = b.id.clone();
    assert_eq!(store.write_curated(&b).unwrap(), WriteOutcome::Inserted);
    assert_eq!(store.get(&bid).unwrap().tags, vec!["Note"]);
}

#[test]
fn test_auto_tags_and_project_from_context() {
    let (store, _dir) = test_store();
    let e = Engram::new_episodic(
        "worked on the engram deploy".to_string(),
        EngramSource::Window,
        r#"{"cwd":"/home/alice/engram"}"#.to_string(),
    );
    let id = e.id.clone();
    store.write(&e).unwrap();
    let got = store.get(&id).unwrap();
    assert_eq!(got.project.as_deref(), Some("engram"));
    assert!(got.tags.iter().any(|t| t == "terminal"), "got tags {:?}", got.tags);
}

#[test]
fn test_caller_tags_and_project_win() {
    let (store, _dir) = test_store();
    let mut e = Engram::new_episodic(
        "deployed the site".to_string(),
        EngramSource::Window,
        r#"{"cwd":"/home/alice/other"}"#.to_string(),
    );
    e.project = Some("engram".into());
    e.tags = vec!["deploy".into()];
    let id = e.id.clone();
    store.write(&e).unwrap();
    let got = store.get(&id).unwrap();
    assert_eq!(got.project.as_deref(), Some("engram"));
    assert_eq!(got.tags, vec!["deploy"]);
}

#[test]
fn test_write_generates_temporal_link() {
    let (store, _dir) = test_store();
    let a = make_engram("first capture in this series");
    let b = make_engram("second capture in this series");
    let aid = a.id.clone();
    let bid = b.id.clone();
    store.write(&a).unwrap();
    store.write(&b).unwrap();
    let links = store.get_links(&bid).unwrap();
    assert_eq!(links.len(), 1, "temporal link to predecessor expected");
    assert_eq!(links[0].target_id, aid);
    assert_eq!(links[0].link_type, LinkType::Temporal);
}

#[test]
fn test_write_generates_associative_link() {
    let (store, _dir) = test_store();
    let mut a = Engram::new_episodic(
        "worked on the dashboard deploy".to_string(),
        EngramSource::Window,
        "{}".to_string(),
    );
    a.tags = vec!["deploy".into(), "dashboard".into()];
    let mut b = Engram::new_episodic(
        "fixed the dashboard styling".to_string(),
        EngramSource::Window,
        "{}".to_string(),
    );
    b.tags = vec!["dashboard".into(), "ui".into()];
    let aid = a.id.clone();
    let bid = b.id.clone();
    store.write(&a).unwrap();
    store.write(&b).unwrap();
    let links = store.get_links(&bid).unwrap();
    let assoc = links.iter().find(|l| l.link_type == LinkType::Associative);
    assert!(assoc.is_some(), "expected associative link, got {:?}", links);
    assert_eq!(assoc.unwrap().target_id, aid);
}

#[test]
fn test_app_metrics_counters() {
    let (store, _dir) = test_store();
    store.write(&make_engram("ls")).unwrap();
    let dup = make_engram("unique content here");
    store.write(&dup).unwrap();
    store.write(&make_engram("unique content here")).unwrap();

    let conn = &store.conn;
    let noise: i64 = conn
        .query_row("SELECT value FROM app_metrics WHERE key = 'noise_skips'", [], |r| r.get(0))
        .unwrap();
    let dedup: i64 = conn
        .query_row("SELECT value FROM app_metrics WHERE key = 'dedup_saves'", [], |r| r.get(0))
        .unwrap();
    assert_eq!(noise, 1);
    assert_eq!(dedup, 1);
}

#[test]
fn test_semantic_links_write_time_threshold_and_bidirectional() {
    let (store, _dir) = test_store();
    let cfg = LinkInferenceConfig { max_links: 5, min_similarity: measure(0.35) };
    let a = make_engram_sourced("rust borrow checker notes", EngramSource::Interaction);
    let b = make_engram_sourced("rust lifetime semantics", EngramSource::Research);
    let c = make_engram_sourced("grocery shopping list", EngramSource::Chat);
    let (aid, bid, cid) = (a.id.clone(), b.id.clone(), c.id.clone());
    store.write_with_embedding(&a, Some(&[1.0, 0.0]), Some("test-model"), Some(cfg)).unwrap();
    store.write_with_embedding(&b, Some(&[0.8, 0.6]), Some("test-model"), Some(cfg)).unwrap();
    store.write_with_embedding(&c, Some(&[-0.8, 0.6]), Some("test-model"), Some(cfg)).unwrap();

    let links_a = store.get_links(&aid).unwrap();
    assert_eq!(links_a.len(), 1);
    assert_eq!(links_a[0].target_id, bid);
    assert_eq!(links_a[0].link_type, LinkType::Associative);
    assert!((number(links_a[0].weight) - 0.8).abs() < 1e-9);
    let links_b = store.get_links(&bid).unwrap();
    assert_eq!(links_b.len(), 1);
    assert_eq!(links_b[0].target_id, aid);
    assert!(store.get_links(&cid).unwrap().is_empty());
}

#[test]
fn test_semantic_links_never_into_quarantine() {
    let (store, _dir) = test_store();
    let cfg = LinkInferenceConfig::default();
    let q = Engram::new_imagined("hallucinated rust facts".to_string(), "{}".to_string());
    let qid = q.id.clone();
    let a = make_engram("rust borrow checker notes");
    let aid = a.id.clone();
    store.write_with_embedding(&q, Some(&[1.0, 0.0]), Some("test-model"), Some(cfg)).unwrap();
    store.write_with_embedding(&a, Some(&[1.0, 0.0]), Some("test-model"), Some(cfg)).unwrap();

    assert!(store.get_links(&aid).unwrap().is_empty(),
        "live memory must not link into quarantine");
    assert!(store.get_links(&qid).unwrap().is_empty(),
        "quarantined memory must not gain links");
}

#[test]
fn test_backfill_semantic_links_idempotent() {
    let (store, _dir) = test_store();
    let a = make_engram_sourced("rust borrow checker notes", EngramSource::Interaction);
    let b = make_engram_sourced("rust lifetime semantics", EngramSource::Research);
    let c = make_engram_sourced("grocery shopping list", EngramSource::Chat);
    let (aid, bid, cid) = (a.id.clone(), b.id.clone(), c.id.clone());
    store.write_with_embedding(&a, Some(&[1.0, 0.0]), Some("test-model"), None).unwrap();
    store.write_with_embedding(&b, Some(&[0.8, 0.6]), Some("test-model"), None).unwrap();
    store.write_with_embedding(&c, Some(&[-0.8, 0.6]), Some("test-model"), None).unwrap();

    let first = store.backfill_semantic_links(5, 0.35).unwrap();
    assert_eq!(first, 2, "one row per direction for the single qualifying pair");
    let links_a = store.get_links(&aid).unwrap();
    assert_eq!(links_a.len(), 1);
    assert_eq!(links_a[0].target_id, bid);
    let weight = number(links_a[0].weight);
    assert_eq!(store.get_links(&bid).unwrap()[0].target_id, aid);
    assert!(store.get_links(&cid).unwrap().is_empty());

    let second = store.backfill_semantic_links(5, 0.35).unwrap();
    assert_eq!(second, first);
    let links_a_again = store.get_links(&aid).unwrap();
    assert_eq!(links_a_again.len(), 1);
    assert!((number(links_a_again[0].weight) - weight).abs() < 1e-12);
    assert!(store.get_links(&cid).unwrap().is_empty());
}

#[test]
fn test_search_related_vector_fallback() {
    let (store, _dir) = test_store();
    let a = make_engram_sourced("rust borrow checker notes", EngramSource::Interaction);
    let b = make_engram_sourced("rust lifetime semantics", EngramSource::Research);
    let c = make_engram_sourced("grocery shopping list", EngramSource::Chat);
    let (aid, bid, _cid) = (a.id.clone(), b.id.clone(), c.id.clone());
    store.write_with_embedding(&a, Some(&[1.0, 0.0]), Some("test-model"), None).unwrap();
    store.write_with_embedding(&b, Some(&[0.8, 0.6]), Some("test-model"), None).unwrap();
    store.write_with_embedding(&c, Some(&[-0.8, 0.6]), Some("test-model"), None).unwrap();

    let related = store.search_related(&aid, 10).unwrap();
    assert_eq!(related.len(), 1, "only the similar memory, not the orthogonal one");
    assert_eq!(related[0].id, bid);
}

#[test]
fn test_search_related_explicit_links_dedupe_fallback() {
    let (store, _dir) = test_store();
    let a = make_engram_sourced("rust borrow checker notes", EngramSource::Interaction);
    let b = make_engram_sourced("rust lifetime semantics", EngramSource::Research);
    let (aid, bid) = (a.id.clone(), b.id.clone());
    store.write_with_embedding(&a, Some(&[1.0, 0.0]), Some("test-model"), None).unwrap();
    store.write_with_embedding(&b, Some(&[0.8, 0.6]), Some("test-model"), None).unwrap();
    store.link(&aid, &bid, 0.8, LinkType::Causal).unwrap();

    let related = store.search_related(&aid, 10).unwrap();
    assert_eq!(related.len(), 1);
    assert_eq!(related[0].id, bid);
}

#[test]
fn test_get_embedding_round_trip() {
    let (store, _dir) = test_store();
    let a = make_engram("embedded memory");
    let b = make_engram("plain memory");
    let (aid, bid) = (a.id.clone(), b.id.clone());
    store.write_with_embedding(&a, Some(&[0.6, 0.8]), Some("test-model"), None).unwrap();
    store.write(&b).unwrap();

    let (model, vec) = store.get_embedding(&aid).unwrap().expect("embedding present");
    assert_eq!(model, "test-model");
    assert_eq!(vec.len(), 2);
    assert!((vec[0] - 0.6).abs() < 1e-12);
    assert!((vec[1] - 0.8).abs() < 1e-12);
    assert!(store.get_embedding(&bid).unwrap().is_none());
}

#[test]
fn test_explicit_links_skip_dangling_targets() {
    let (store, _dir) = test_store();
    let b = make_engram_sourced("existing target", EngramSource::Research);
    let bid = b.id.clone();
    store.write(&b).unwrap();

    let mut a = make_engram("pulled memory");
    a.links = vec![
        EngramLink { target_id: bid.clone(), weight: measure(0.7), link_type: LinkType::Associative },
        EngramLink { target_id: "not-synced-yet".to_string(), weight: measure(0.9), link_type: LinkType::Causal },
    ];
    let aid = a.id.clone();
    store.write(&a).unwrap();

    let links = store.get_links(&aid).unwrap();
    assert_eq!(links.len(), 1, "only the link with a local target persists");
    assert_eq!(links[0].target_id, bid);
    assert_eq!(links[0].link_type, LinkType::Associative);
}

fn fts_rows(store: &Vault, id: &str) -> i64 {
    let conn = &store.conn;
    conn.query_row(
        "SELECT COUNT(*) FROM engrams_fts WHERE id = ?1",
        [id],
        |r| r.get(0),
    )
    .unwrap()
}

#[test]
fn delete_removes_row_and_fts_and_records_tombstone() {
    let (store, _dir) = test_store();
    let e = make_engram("delete this captured memory");
    let id = e.id.clone();
    store.write(&e).unwrap();
    assert_eq!(fts_rows(&store, &id), 1, "write populates FTS");

    store.delete(&id).unwrap();

    assert!(matches!(store.get(&id), Err(EngramError::NotFound(_))));
    assert_eq!(fts_rows(&store, &id), 0, "no ghost FTS rows after delete");
    let tombstones = store.list_tombstones().unwrap();
    assert_eq!(tombstones.len(), 1);
    assert_eq!(tombstones[0].0, id);
    assert!(!tombstones[0].1.is_empty(), "deleted_at is set");
}

#[test]
fn delete_missing_id_errors_and_leaves_no_tombstone() {
    let (store, _dir) = test_store();
    let err = store.delete("does-not-exist").expect_err("missing id must error");
    assert!(matches!(err, EngramError::NotFound(_)));
    assert!(store.list_tombstones().unwrap().is_empty());
}

#[test]
fn delete_without_tombstone_removes_everything_but_records_nothing() {
    let (store, _dir) = test_store();
    let e = make_engram("remote tombstone target memory");
    let id = e.id.clone();
    store.write(&e).unwrap();

    store.delete_without_tombstone(&id).unwrap();

    assert!(matches!(store.get(&id), Err(EngramError::NotFound(_))));
    assert_eq!(fts_rows(&store, &id), 0);
    assert!(store.list_tombstones().unwrap().is_empty());
}

#[test]
fn purge_tombstones_each_deleted_row_and_cleans_fts() {
    let (store, _dir) = test_store();
    let a = make_engram_sourced("purge candidate one", EngramSource::Research);
    let b = make_engram_sourced("purge candidate two", EngramSource::Research);
    let c = make_engram("keep this one");
    store.write(&a).unwrap();
    store.write(&b).unwrap();
    store.write(&c).unwrap();

    let count = store
        .purge_by_criteria(Some("research"), None, None, None)
        
        .unwrap();
    assert_eq!(count, 2);

    assert!(store.get(&c.id).is_ok(), "non-matching row survives");
    assert_eq!(fts_rows(&store, &c.id), 1);
    assert_eq!(fts_rows(&store, &a.id), 0);
    assert_eq!(fts_rows(&store, &b.id), 0);

    let tombstones = store.list_tombstones().unwrap();
    let mut ids: Vec<String> = tombstones.into_iter().map(|(id, _)| id).collect();
    ids.sort();
    let mut want = vec![a.id, b.id];
    want.sort();
    assert_eq!(ids, want, "one tombstone per purged row");
}

#[test]
fn clear_tombstones_removes_only_listed_ids() {
    let (store, _dir) = test_store();
    let a = make_engram("first deleted memory");
    let b = make_engram("second deleted memory");
    store.write(&a).unwrap();
    store.write(&b).unwrap();
    store.delete(&a.id).unwrap();
    store.delete(&b.id).unwrap();

    store.clear_tombstones(&[a.id.clone()]).unwrap();
    let tombstones = store.list_tombstones().unwrap();
    assert_eq!(tombstones.len(), 1, "only the un-accepted tombstone remains");
    assert_eq!(tombstones[0].0, b.id);
}

#[test]
fn create_tables_then_migrate_upgrades_pre_v4_vault() {
    let dir = tempdir().unwrap();
    let path = dir.path().join("test.db");
    let conn = Connection::open(&path).unwrap();

    conn.execute_batch(
        "CREATE TABLE engrams (
            id TEXT PRIMARY KEY,
            layer TEXT NOT NULL,
            source TEXT NOT NULL,
            privacy_level TEXT NOT NULL DEFAULT 'cloud_first',
            content TEXT NOT NULL,
            context TEXT NOT NULL,
            strength REAL NOT NULL DEFAULT 1.0,
            valence REAL NOT NULL DEFAULT 0.0,
            retrievals INTEGER NOT NULL DEFAULT 0,
            imagined INTEGER NOT NULL DEFAULT 0,
            grounded INTEGER NOT NULL DEFAULT 0,
            created_at TEXT NOT NULL,
            last_retrieved TEXT,
            project TEXT,
            tags TEXT,
            scope TEXT NOT NULL DEFAULT 'moment',
            content_type TEXT NOT NULL DEFAULT 'text',
            occurred_at TEXT
        );"
    ).unwrap();
    conn.execute_batch("PRAGMA user_version = 3;").unwrap();
    conn.execute(
        "INSERT INTO engrams (id, layer, source, content, context, created_at) \
         VALUES ('m1', 'episodic', 'interaction', '  [12] [/x] Cargo   Check ', '{}', '2026-08-13T00:00:00Z')",
        [],
    ).unwrap();

    create_tables(&conn).unwrap();
    migrate(&conn).unwrap();

    let has_col: bool = {
        let mut stmt = conn.prepare("PRAGMA table_info('engrams')").unwrap();
        let cols: Vec<String> = stmt.query_map([], |r| r.get::<_, String>(1)).unwrap()
            .filter_map(|r| r.ok())
            .collect();
        cols.iter().any(|c| c == "content_hash")
    };
    assert!(has_col, "content_hash column should be added by migration");

    let hash: String = conn
        .query_row("SELECT content_hash FROM engrams WHERE id = 'm1'", [], |r| r.get(0))
        .unwrap();
    assert_eq!(hash, axiom_engram::noise::normalized_hash("  [12] [/x] Cargo   Check "));

    create_tables(&conn).unwrap();
    migrate(&conn).unwrap();
}

#[test]
fn create_tables_then_migrate_upgrades_pre_v5_vault() {
    let dir = tempdir().unwrap();
    let path = dir.path().join("test.db");
    let conn = Connection::open(&path).unwrap();

    conn.execute_batch(
        "CREATE TABLE engrams (
            id TEXT PRIMARY KEY,
            layer TEXT NOT NULL,
            source TEXT NOT NULL,
            privacy_level TEXT NOT NULL DEFAULT 'cloud_first',
            content TEXT NOT NULL,
            context TEXT NOT NULL,
            strength REAL NOT NULL DEFAULT 1.0,
            valence REAL NOT NULL DEFAULT 0.0,
            retrievals INTEGER NOT NULL DEFAULT 0,
            imagined INTEGER NOT NULL DEFAULT 0,
            grounded INTEGER NOT NULL DEFAULT 0,
            created_at TEXT NOT NULL,
            last_retrieved TEXT,
            project TEXT,
            tags TEXT,
            scope TEXT NOT NULL DEFAULT 'moment',
            content_type TEXT NOT NULL DEFAULT 'text',
            occurred_at TEXT,
            content_hash TEXT
        );"
    ).unwrap();
    conn.execute_batch("PRAGMA user_version = 4;").unwrap();
    conn.execute(
        "INSERT INTO engrams (id, layer, source, content, context, created_at) \
         VALUES ('m1', 'semantic', 'interaction', 'old note', '{}', '2026-08-01T00:00:00Z')",
        [],
    ).unwrap();

    create_tables(&conn).unwrap();
    migrate(&conn).unwrap();

    let has_col: bool = {
        let mut stmt = conn.prepare("PRAGMA table_info('engrams')").unwrap();
        let cols: Vec<String> = stmt.query_map([], |r| r.get::<_, String>(1)).unwrap()
            .filter_map(|r| r.ok())
            .collect();
        cols.iter().any(|c| c == "modified_at")
    };
    assert!(has_col, "modified_at column should be added by migration");

    let modified: String = conn
        .query_row("SELECT modified_at FROM engrams WHERE id = 'm1'", [], |r| r.get(0))
        .unwrap();
    assert_eq!(modified, "2026-08-01T00:00:00Z");

    create_tables(&conn).unwrap();
    migrate(&conn).unwrap();

    let idx_count: i64 = conn
        .query_row(
            "SELECT COUNT(*) FROM sqlite_master WHERE type='index' AND name='idx_engrams_modified_at'",
            [],
            |r| r.get(0),
        )
        .unwrap();
    assert_eq!(idx_count, 1);
}

#[test]
fn create_tables_then_migrate_upgrades_pre_v6_vault() {
    let dir = tempdir().unwrap();
    let path = dir.path().join("test.db");
    let conn = Connection::open(&path).unwrap();

    conn.execute_batch(
        "CREATE TABLE engrams (
            id TEXT PRIMARY KEY,
            layer TEXT NOT NULL,
            source TEXT NOT NULL,
            privacy_level TEXT NOT NULL DEFAULT 'cloud_first',
            content TEXT NOT NULL,
            context TEXT NOT NULL,
            strength REAL NOT NULL DEFAULT 1.0,
            valence REAL NOT NULL DEFAULT 0.0,
            retrievals INTEGER NOT NULL DEFAULT 0,
            imagined INTEGER NOT NULL DEFAULT 0,
            grounded INTEGER NOT NULL DEFAULT 0,
            created_at TEXT NOT NULL,
            last_retrieved TEXT,
            project TEXT,
            tags TEXT,
            scope TEXT NOT NULL DEFAULT 'moment',
            content_type TEXT NOT NULL DEFAULT 'text',
            occurred_at TEXT,
            content_hash TEXT,
            modified_at TEXT
        );"
    ).unwrap();
    conn.execute_batch("PRAGMA user_version = 5;").unwrap();
    conn.execute(
        "INSERT INTO engrams (id, layer, source, content, context, created_at, modified_at) \
         VALUES ('m1', 'semantic', 'interaction', 'old note', '{}', '2026-08-01T00:00:00Z', '2026-08-10T00:00:00Z')",
        [],
    ).unwrap();

    create_tables(&conn).unwrap();
    migrate(&conn).unwrap();

    let has_col: bool = {
        let mut stmt = conn.prepare("PRAGMA table_info('engrams')").unwrap();
        let cols: Vec<String> = stmt.query_map([], |r| r.get::<_, String>(1)).unwrap()
            .filter_map(|r| r.ok())
            .collect();
        cols.iter().any(|c| c == "synced_at")
    };
    assert!(has_col, "synced_at column should be added by migration");

    let synced: String = conn
        .query_row("SELECT synced_at FROM engrams WHERE id = 'm1'", [], |r| r.get(0))
        .unwrap();
    assert_eq!(synced, "2026-08-10T00:00:00Z");

    let version: i32 = conn
        .query_row("PRAGMA user_version", [], |r| r.get(0))
        .unwrap();
    assert_eq!(version, 6);

    create_tables(&conn).unwrap();
    migrate(&conn).unwrap();
}

fn adapter_with(entries: Vec<(String, f64)>) -> (Vault, tempfile::TempDir) {
    let (store, dir) = test_store();
    for (content, strength) in entries {
        let mut e = Engram::new_episodic(content, EngramSource::Interaction, "{}".to_string());
        e.strength = measure(strength);
        store.write(&e).unwrap();
    }
    (store, dir)
}

#[test]
fn test_search_honors_min_strength() {
    let (adapter, _dir) =
        adapter_with(vec![("strong memory".into(), 0.9), ("weak memory".into(), 0.1)]);

    let results =
        adapter.search_wide(&Query::new().min_strength(measure(0.5)).limit(10)).unwrap();
    assert_eq!(results.len(), 1);
    assert_eq!(results[0].content, "strong memory");
}

#[test]
fn test_search_honors_sort_by_strength() {
    let (adapter, _dir) = adapter_with(vec![
        ("mid memory".into(), 0.5),
        ("top memory".into(), 1.5),
        ("low memory".into(), 0.2),
    ]);

    let results = adapter
        .search_wide(&Query::new().sort_by(SortKey::Strength).limit(10))
        .unwrap();
    assert_eq!(results[0].content, "top memory");
    let strengths: Vec<f64> = results.iter().map(|e| number(e.strength)).collect();
    let mut sorted = strengths.clone();
    sorted.sort_by(|a, b| b.partial_cmp(a).unwrap_or(std::cmp::Ordering::Equal));
    assert_eq!(strengths, sorted, "results must be strength-sorted descending");
}

#[test]
fn test_min_strength_filters_before_truncation() {
    let mut entries = Vec::new();
    for i in 0..3 {
        entries.push((format!("strong {}", i), 0.9));
    }
    for i in 0..5 {
        entries.push((format!("weak {}", i), 0.1));
    }
    let (adapter, _dir) = adapter_with(entries);

    let results =
        adapter.search_wide(&Query::new().min_strength(measure(0.5)).limit(3)).unwrap();
    assert_eq!(results.len(), 3);
    assert!(results.iter().all(|e| number(e.strength) >= 0.5));
}

#[test]
fn store_search_prefers_text_over_tags_over_layer() {
    let (store, _dir) = test_store();
    let mut a = make_engram("deploy of the site went well");
    a.tags = vec!["deploy".into()];
    let mut b = make_engram("the garden needs water today");
    b.layer = EngramLayer::Semantic;
    store.write(&a).unwrap();
    store.write(&b).unwrap();

    let mut q = Query::new().text("garden".to_string());
    q.tags = vec!["deploy".into()];
    let found = store.search(&q).unwrap();
    assert_eq!(found.len(), 1);
    assert_eq!(found[0].id, b.id);

    let mut q = Query::new().layer(axiom_engram::entry::MemoryLayer::Semantic);
    q.tags = vec!["deploy".into()];
    let found = store.search(&q).unwrap();
    assert_eq!(found.len(), 1);
    assert_eq!(found[0].id, a.id);

    let found = store.search_wide(&q).unwrap();
    assert_eq!(found.len(), 1);
    assert_eq!(found[0].id, b.id);
}

#[test]
fn most_often_retrieved_come_first() {
    let (store, _dir) = test_store();
    for (content, n) in [("seldom needed fact", 1), ("often needed fact", 9)] {
        let mut e = make_engram(content);
        e.retrievals = n;
        store.write(&e).unwrap();
    }
    let q = Query::new().sort_by(SortKey::RetrievalCount);
    assert_eq!(store.search(&q).unwrap()[0].retrievals, 9);
    assert_eq!(store.search_wide(&q).unwrap()[0].retrievals, 9);
}

#[test]
fn old_passphrase_vault_gets_a_current_key() {
    let dir = tempdir().unwrap();
    let db = dir.path().join("engrams.db");
    let old_key = keys::derive_passphrase_key_sha256("correct horse");
    {
        let conn = Connection::open(&db).unwrap();
        conn.execute_batch(&open::key_pragma(&old_key)).unwrap();
        conn.execute_batch("CREATE TABLE t (x); INSERT INTO t VALUES (42)").unwrap();
    }
    let mut job =
        OpenJob::open_with_passphrase("correct horse".to_string(), "test-machine".to_string());
    let mut conn = None;
    let mut salts = 0;
    let mut new_key = String::new();
    let mut event = OpenEvent::Start(true);
    loop {
        event = match job.advance(event) {
            OpenAction::ReadSalt => OpenEvent::Salt(None),
            OpenAction::MakeSalt => {
                salts += 1;
                OpenEvent::Salt(keys::create_per_vault_salt(false))
            }
            OpenAction::Try(key) => {
                conn = try_key(&db, &key);
                OpenEvent::Tried(conn.is_some())
            }
            OpenAction::Rekey(key) => {
                conn.as_ref().unwrap().execute_batch(&open::rekey_pragma(&key)).unwrap();
                new_key = key;
                OpenEvent::Rekeyed
            }
            OpenAction::Finish => break,
            other => panic!("{other:?}"),
        };
    }
    drop(conn);
    assert_eq!(salts, 1);
    assert_eq!(new_key.len(), 64);
    assert!(try_key(&db, &old_key).is_none(), "the old key no longer opens the vault");
    let conn = try_key(&db, &new_key).expect("the current key does");
    let x: i64 = conn.query_row("SELECT x FROM t", [], |r| r.get(0)).unwrap();
    assert_eq!(x, 42, "nothing is lost");
}

#[test]
fn passphrase_vault_opens_again_with_its_salt() {
    let dir = tempdir().unwrap();
    let mut salt = None;
    {
        let store = Vault::open(dir.path(), Some("correct horse"), &mut salt).unwrap();
        store.write(&make_engram("kept behind a passphrase")).unwrap();
    }
    let made = salt.clone();
    assert_eq!(made.as_ref().map(|s| s.len()), Some(16));
    let store = Vault::open(dir.path(), Some("correct horse"), &mut salt).unwrap();
    assert_eq!(store.list(10, 0).unwrap()[0].content, "kept behind a passphrase");
    assert_eq!(salt, made, "the salt stays");
}

#[test]
fn old_machine_vault_gets_a_current_key() {
    let dir = tempdir().unwrap();
    let db = dir.path().join("engrams.db");
    let old_key = keys::derive_legacy_key("test-machine");
    {
        let conn = Connection::open(&db).unwrap();
        conn.execute_batch(&open::key_pragma(&old_key)).unwrap();
        conn.execute_batch("CREATE TABLE t (x)").unwrap();
    }
    Vault::open(dir.path(), None, &mut None).unwrap();
    assert!(try_key(&db, &old_key).is_none());
    assert!(try_key(&db, &keys::derive_vault_key("test-machine")).is_some());
}

#[test]
fn wrong_passphrase_is_refused() {
    let dir = tempdir().unwrap();
    let db = dir.path().join("engrams.db");
    {
        let conn = Connection::open(&db).unwrap();
        conn.execute_batch(&open::key_pragma("0123")).unwrap();
        conn.execute_batch("CREATE TABLE t (x)").unwrap();
    }
    let err = match Vault::open(dir.path(), Some("wrong"), &mut None) {
        Ok(_) => panic!("opened"),
        Err(e) => e,
    };
    assert_eq!(
        err.message(),
        "validation error: vault key mismatch: wrong passphrase or corrupt vault."
    );
    let err = match Vault::open(dir.path(), None, &mut None) {
        Ok(_) => panic!("opened"),
        Err(e) => e,
    };
    assert!(err.message().contains("neither machine-id key nor legacy key"));
}

#[test]
fn oldest_vault_is_migrated_with_its_links() {
    let dir = tempdir().unwrap();
    let conn = Connection::open(dir.path().join("old.db")).unwrap();
    conn.execute_batch("PRAGMA foreign_keys = ON").unwrap();
    conn.execute_batch(
        "CREATE TABLE engrams (
            id TEXT PRIMARY KEY, layer TEXT NOT NULL, source TEXT NOT NULL CHECK(source IN ('interaction')),
            privacy_level TEXT NOT NULL DEFAULT 'cloud_first', content TEXT NOT NULL, context TEXT NOT NULL,
            strength REAL NOT NULL DEFAULT 1.0, valence REAL NOT NULL DEFAULT 0.0,
            retrievals INTEGER NOT NULL DEFAULT 0, imagined INTEGER NOT NULL DEFAULT 0,
            grounded INTEGER NOT NULL DEFAULT 0, created_at TEXT NOT NULL, last_retrieved TEXT,
            project TEXT, tags TEXT);
        CREATE TABLE engram_links (
            source_id TEXT NOT NULL REFERENCES engrams(id) ON DELETE CASCADE,
            target_id TEXT NOT NULL REFERENCES engrams(id) ON DELETE CASCADE,
            weight REAL NOT NULL DEFAULT 0.5, link_type TEXT NOT NULL,
            PRIMARY KEY (source_id, target_id));
        INSERT INTO engrams (id, layer, source, content, context, created_at, tags)
            VALUES ('a', 'episodic', 'interaction', 'first note', '{}', '2026-08-01T00:00:00Z', '[]'),
                   ('b', 'episodic', 'interaction', 'second note', '{}', '2026-08-02T00:00:00Z', '[]');
        INSERT INTO engram_links VALUES ('a', 'b', 0.5, 'causal');",
    )
    .unwrap();
    create_tables(&conn).unwrap();
    migrate(&conn).unwrap();
    let store = Vault { conn };
    let a = store.get("a").unwrap();
    assert_eq!(a.scope, "moment");
    assert_eq!(a.content_type, "text");
    assert_eq!(a.links.len(), 1, "rebuilding the table must not cascade");
    assert_eq!(store.search_by_content("second", 10).unwrap()[0].id, "b");
    let keys: i64 = store.conn.query_row("PRAGMA foreign_keys", [], |r| r.get(0)).unwrap();
    assert_eq!(keys, 1);
    let mut e = make_engram("noted in a channel of the team");
    e.source = EngramSource::Slack;
    assert_eq!(store.write(&e).unwrap(), WriteOutcome::Inserted);
}

#[test]
fn every_source_and_layer_can_be_stored() {
    let (store, _dir) = test_store();
    let sources = [
        EngramSource::Interaction, EngramSource::Sensor, EngramSource::Consolidation,
        EngramSource::Imagined, EngramSource::Chat, EngramSource::Slack, EngramSource::Discord,
        EngramSource::Telegram, EngramSource::Window, EngramSource::Mic, EngramSource::Agent,
        EngramSource::Research, EngramSource::System, EngramSource::Observation,
        EngramSource::AiSession, EngramSource::AiTool,
    ];
    for (i, s) in sources.iter().enumerate() {
        for layer in [EngramLayer::Episodic, EngramLayer::Semantic, EngramLayer::Imagined] {
            let mut e = make_engram_sourced(&format!("memory number {i} of its kind"), *s);
            e.layer = layer;
            store.write_curated(&e).unwrap();
            let got = store.get(&e.id).unwrap();
            assert_eq!(got.source, *s);
            assert_eq!(got.layer, layer);
        }
    }
}

#[test]
fn engram_reads_back_as_it_was_written() {
    let (store, _dir) = test_store();
    let mut e = make_engram("all fields of an engram");
    e.strength = measure(0.25);
    e.valence = measure(-0.5);
    e.retrievals = 7;
    e.grounded = true;
    e.project = Some("engram".into());
    e.tags = vec!["one".into(), "two".into()];
    e.scope = "session".into();
    e.content_type = "code".into();
    e.context = r#"{"k":[1,2]}"#.to_string();
    e.occurred_at = Some(stamp(Utc::now() - chrono::Duration::days(3)));
    e.last_retrieved = Some(stamp(Utc::now() - chrono::Duration::days(1)));
    store.write_curated(&e).unwrap();
    let got = store.get(&e.id).unwrap();
    assert_eq!(got.strength, e.strength);
    assert_eq!(got.valence, e.valence);
    assert_eq!(got.retrievals, 7);
    assert!(got.grounded && !got.imagined);
    assert_eq!(got.project, e.project);
    assert_eq!(got.tags, e.tags);
    assert_eq!(got.scope, "session");
    assert_eq!(got.content_type, "code");
    assert_eq!(got.context, e.context);
    assert_eq!(got.occurred_at, e.occurred_at);
    assert_eq!(got.last_retrieved, e.last_retrieved);
    assert_eq!(got.created_at, e.created_at);
    assert_eq!(got.modified_at, e.modified_at);
}

#[test]
fn quarantine_filters_split_every_search() {
    let (store, _dir) = test_store();
    let live = make_engram("garden plan for spring");
    let mut hidden = Engram::new_imagined("garden plan for winter".to_string(), "{}".to_string());
    hidden.tags = vec!["garden".into()];
    let mut tagged = live.clone();
    tagged.tags = vec!["garden".into()];
    store.write_curated(&tagged).unwrap();
    store.write_curated(&hidden).unwrap();
    let sizes = |f: QuarantineFilter| {
        (
            store.list_filtered(10, 0, f).unwrap().len(),
            store.search_by_content_filtered("garden", 10, f).unwrap().len(),
            store.search_by_tags_filtered(&["garden".to_string()], 10, f).unwrap().len(),
            store.search_by_content_filtered("AND garden", 10, f).unwrap().len(),
        )
    };
    assert_eq!(sizes(QuarantineFilter::All), (2, 2, 2, 0));
    assert_eq!(sizes(QuarantineFilter::LiveOnly), (1, 1, 1, 0));
    assert_eq!(sizes(QuarantineFilter::QuarantinedOnly), (1, 1, 1, 0));
    let episodic = store
        .search_by_layer_filtered(EngramLayer::Episodic, 10, QuarantineFilter::QuarantinedOnly)
        .unwrap();
    assert!(episodic.is_empty());
    assert_eq!(store.search_by_layer(EngramLayer::Imagined, 10).unwrap().len(), 1);
}

#[test]
fn query_that_the_index_cannot_read_falls_back_to_the_text() {
    let (store, _dir) = test_store();
    store.write(&make_engram("read the NOT operator docs")).unwrap();
    let mut hidden = Engram::new_imagined("the NOT operator is imagined".to_string(), "{}".to_string());
    hidden.grounded = false;
    store.write_curated(&hidden).unwrap();
    let all = store.search_by_content("NOT", 10).unwrap();
    assert_eq!(all.len(), 2);
    let live =
        store.search_by_content_filtered("NOT", 10, QuarantineFilter::LiveOnly).unwrap();
    assert_eq!(live.len(), 1, "the fallback honors the filter");
    assert!(store.search_by_content("\"?!\"", 10).unwrap().is_empty());
}

#[test]
fn search_falls_from_all_words_to_any_word() {
    let (store, _dir) = test_store();
    store.write(&make_engram("pricing was decided on Monday")).unwrap();
    let found = store.search_by_content("what did we decide about pricing", 10).unwrap();
    assert_eq!(found.len(), 1);
    let found = store.search_by_content("PRICING-Monday", 10).unwrap();
    assert_eq!(found.len(), 1);
}

#[test]
fn related_memories_are_never_quarantined() {
    let (store, _dir) = test_store();
    let a = make_engram("source of the link");
    let q = Engram::new_imagined("imagined end of the link".to_string(), "{}".to_string());
    store.write(&a).unwrap();
    store.write_curated(&q).unwrap();
    store.link(&a.id, &q.id, 0.9, LinkType::Causal).unwrap();
    assert!(store.search_related(&a.id, 10).unwrap().is_empty());
}

#[test]
fn memory_of_a_new_session_follows_the_latest_of_its_source() {
    let (store, _dir) = test_store();
    let mut a = make_engram("work of the first session");
    a.context = r#"{"session_id":"s1"}"#.to_string();
    let mut b = make_engram("work of the second session");
    b.context = r#"{"session_id":"s2"}"#.to_string();
    let mut c = make_engram("more work of the first session");
    c.context = r#"{"session_id":"s1"}"#.to_string();
    store.write(&a).unwrap();
    store.write(&b).unwrap();
    store.write(&c).unwrap();
    let of_b = store.get_links(&b.id).unwrap();
    assert_eq!(of_b[0].target_id, a.id);
    let of_c = store.get_links(&c.id).unwrap();
    assert_eq!(of_c[0].target_id, a.id, "the same session is preferred");
    assert_eq!(number(of_c[0].weight), 0.6);
}

#[test]
fn vector_search_ranks_by_similarity_then_age() {
    let (store, _dir) = test_store();
    let now = Utc::now();
    let mut ids = Vec::new();
    for (content, days, v) in [
        ("first of the vectors", 3, [1.0, 0.0]),
        ("second of the vectors", 2, [1.0, 0.0]),
        ("third of the vectors", 1, [0.0, 1.0]),
    ] {
        let mut e = make_engram(content);
        e.created_at = stamp(now - chrono::Duration::days(days));
        store.write_curated(&e).unwrap();
        store.store_embedding(&e.id, &v).unwrap();
        ids.push(e.id);
    }
    let found = store.vector_search(&[1.0, 0.0], 2).unwrap();
    assert_eq!(found.len(), 2);
    assert_eq!(found[0].0.id, ids[1], "the newer of two equals comes first");
    assert_eq!(found[1].0.id, ids[0]);
    assert_eq!(found[0].1, 1.0);
    let both = store.get_embeddings(&[ids[0].clone(), "none".to_string(), ids[0].clone()]).unwrap();
    assert_eq!(both, vec![(ids[0].clone(), vec![1.0, 0.0])]);
}

#[test]
fn relevant_memories_surface() {
    let (store, _dir) = test_store();
    store.write(&make_engram("rust borrow checker notes")).unwrap();
    store.write(&make_engram("grocery shopping list")).unwrap();
    let found = store.surface_relevant("notes about the borrow CHECKER", 10).unwrap();
    assert_eq!(found.len(), 2);
    assert_eq!(found[0].0.content, "rust borrow checker notes");
    assert!((found[0].1 - (3.0 * 0.3 + 0.4 + 0.2)).abs() < 1e-12);
    assert_eq!(store.surface_relevant("notes", 1).unwrap().len(), 1);
}

#[test]
fn idle_memories_fade() {
    let (store, _dir) = test_store();
    let mut e = make_engram("not needed for a while");
    e.created_at = stamp(Utc::now() - chrono::Duration::days(3));
    store.write(&e).unwrap();
    assert_eq!(store.apply_daily_hygiene().unwrap(), (0, 1));
    let left = number(store.list(1, 0).unwrap()[0].strength);
    assert!((left - (-1.0f64).exp()).abs() < 1e-12, "three days of three: {left}");
}

#[test]
fn weekly_care_promotes_and_prunes() {
    let (store, _dir) = test_store();
    let mut often = make_engram("needed again and again");
    often.retrievals = 5;
    store.write(&often).unwrap();
    let mut faint = Engram::new_imagined("barely imagined thing".to_string(), "{}".to_string());
    faint.strength = measure(0.04);
    store.write_curated(&faint).unwrap();
    assert_eq!(store.apply_weekly_consolidation().unwrap(), (1, 1));
    let kept = store.get(&often.id).unwrap();
    assert_eq!(kept.layer, EngramLayer::Semantic);
    assert_eq!(kept.source, EngramSource::Consolidation);
    assert_eq!(fts_rows(&store, &faint.id), 0);
    assert_eq!(store.list_tombstones().unwrap()[0].0, faint.id);
}

#[test]
fn consolidations_are_remembered() {
    let (store, _dir) = test_store();
    let past = ConsolidationRun {
        id: "run1".to_string(),
        run_at: Timestamp { secs: 1_780_000_000, nanos: 5_000 },
        episodes_processed: Some(3),
        semantics_created: None,
        engrams_decayed: Some(0),
        notes: Some("quiet week".to_string()),
    };
    store.record_consolidation_run(&past).unwrap();
    let list = store.get_consolidation_history(5).unwrap();
    assert_eq!(list.len(), 1);
    assert_eq!(list[0].id, "run1");
    assert_eq!(list[0].run_at, past.run_at);
    assert_eq!(list[0].episodes_processed, Some(3));
    assert_eq!(list[0].semantics_created, None);
    assert_eq!(list[0].notes.as_deref(), Some("quiet week"));
}

#[test]
fn coherence_is_made_once_and_updated() {
    let (store, _dir) = test_store();
    let mut state = store.get_coherence().unwrap();
    assert_eq!(state.id, 1);
    assert_eq!(number(state.baseline_valence), 0.3);
    assert_eq!(state.character_strengths, "{}");
    assert_eq!(state.purpose_vector, "[]");
    assert_eq!(state.last_hygiene_daily, None);
    state.drift_score = measure(0.5);
    state.last_hygiene_daily = Some(Timestamp { secs: 1_780_000_000, nanos: 0 });
    store.update_coherence(&state).unwrap();
    let again = store.get_coherence().unwrap();
    assert_eq!(number(again.drift_score), 0.5);
    assert_eq!(again.last_hygiene_daily, state.last_hygiene_daily);
    store.conn.execute_batch("DELETE FROM coherence_state").unwrap();
    assert_eq!(
        store.get_coherence().unwrap_err().message(),
        "engram not found: Query returned no rows"
    );
}

#[test]
fn patterns_in_time_are_found() {
    let (store, _dir) = test_store();
    for (i, at) in ["2026-08-06T19:00:00Z", "2026-08-13T20:00:00Z", "2026-08-20T21:00:00Z"]
        .iter()
        .enumerate()
    {
        let mut e = make_engram(&format!("retro notes number {i}"));
        e.created_at = Timestamp::parse(at).unwrap();
        store.write(&e).unwrap();
    }
    let p = store.detect_temporal_patterns("retro", 3).unwrap().unwrap();
    assert_eq!(p.sample_size, 3);
    assert_eq!(p.peak_day.as_deref(), Some("Thursday"));
    assert_eq!(p.peak_period.as_deref(), Some("evening"));
    let d = p.day_strength.unwrap();
    assert_eq!((d.over, d.under), (21, 3));
    assert_eq!(
        p.describe("100"),
        "I've noticed you tend to do this on Thursdays (100% of the time), usually in the evening"
    );
    assert!(store.detect_temporal_patterns("retro", 4).unwrap().is_none());
}

#[test]
fn tombstones_can_be_recorded_and_the_first_wins() {
    let (store, _dir) = test_store();
    store.record_tombstone("x", "2026-08-01T00:00:00Z").unwrap();
    store.record_tombstone("x", "2026-08-02T00:00:00Z").unwrap();
    assert_eq!(
        store.list_tombstones().unwrap(),
        vec![("x".to_string(), "2026-08-01T00:00:00Z".to_string())]
    );
}

#[test]
fn purge_needs_a_criterion() {
    let (store, _dir) = test_store();
    let err = store.purge_by_criteria(None, None, None, None).unwrap_err();
    assert_eq!(err.message(), "validation error: At least one purge criterion is required");
    let mut e = make_engram("kept for another project");
    e.project = Some("other".into());
    store.write(&e).unwrap();
    assert_eq!(store.purge_by_criteria(None, Some("episodic"), Some("engram"), None).unwrap(), 0);
    assert_eq!(store.purge_by_criteria(None, Some("episodic"), Some("other"), None).unwrap(), 1);
}

#[test]
fn bad_time_in_a_row_counts_as_now() {
    let (store, _dir) = test_store();
    let e = make_engram("row with a broken time");
    store.write(&e).unwrap();
    store.conn.execute("UPDATE engrams SET created_at = 'soon' WHERE id = ?1", [&e.id]).unwrap();
    let got = store.get(&e.id).unwrap();
    assert!(got.created_at.secs >= e.created_at.secs);
    store.conn.execute("UPDATE engrams SET context = '{' WHERE id = ?1", [&e.id]).unwrap();
    assert_eq!(store.get(&e.id).unwrap().context, "{}");
}

fn sixth_version_vault(dir: &Path) -> Connection {
    let conn = Connection::open(dir.join("old.db")).unwrap();
    conn.execute_batch("PRAGMA foreign_keys = ON").unwrap();
    conn.execute_batch(
        "CREATE TABLE engrams (
            id TEXT PRIMARY KEY, layer TEXT NOT NULL, source TEXT NOT NULL CHECK(source IN ('interaction','chat')),
            privacy_level TEXT NOT NULL DEFAULT 'cloud_first', content TEXT NOT NULL, context TEXT NOT NULL,
            strength REAL NOT NULL DEFAULT 1.0, valence REAL NOT NULL DEFAULT 0.0,
            retrievals INTEGER NOT NULL DEFAULT 0, imagined INTEGER NOT NULL DEFAULT 0,
            grounded INTEGER NOT NULL DEFAULT 0, created_at TEXT NOT NULL, last_retrieved TEXT,
            project TEXT, tags TEXT, content_hash TEXT, scope TEXT NOT NULL DEFAULT 'moment',
            content_type TEXT NOT NULL DEFAULT 'text', occurred_at TEXT, modified_at TEXT, synced_at TEXT);
        CREATE TABLE engram_links (
            source_id TEXT NOT NULL REFERENCES engrams(id) ON DELETE CASCADE,
            target_id TEXT NOT NULL REFERENCES engrams(id) ON DELETE CASCADE,
            weight REAL NOT NULL DEFAULT 0.5, link_type TEXT NOT NULL,
            PRIMARY KEY (source_id, target_id));
        INSERT INTO engrams (id, layer, source, content, context, created_at, tags, content_hash, modified_at, synced_at)
            VALUES ('a', 'episodic', 'chat', 'first note', '{}', '2026-08-01T00:00:00Z', '[]', 'h', '2026-08-05T00:00:00Z', '2026-08-04T00:00:00Z'),
                   ('b', 'episodic', 'chat', 'second note', '{}', '2026-08-02T00:00:00Z', '[]', 'i', '2026-08-02T00:00:00Z', '2026-08-02T00:00:00Z');
        INSERT INTO engram_links VALUES ('a', 'b', 0.5, 'causal');
        PRAGMA user_version = 6;",
    )
    .unwrap();
    conn
}

#[test]
fn later_vault_is_widened_without_loss() {
    let dir = tempdir().unwrap();
    let conn = sixth_version_vault(dir.path());
    create_tables(&conn).unwrap();
    migrate(&conn).unwrap();
    let store = Vault { conn };
    let row: (String, String, String, Option<String>) = store
        .conn
        .query_row(
            "SELECT content_hash, modified_at, synced_at, agent_id FROM engrams WHERE id = 'a'",
            [],
            |r| Ok((r.get(0)?, r.get(1)?, r.get(2)?, r.get(3)?)),
        )
        .unwrap();
    assert_eq!(row.0, "h");
    assert_eq!(row.1, "2026-08-05T00:00:00Z");
    assert_eq!(row.2, "2026-08-04T00:00:00Z");
    assert_eq!(row.3, None, "older rows have no agent");
    assert_eq!(store.get_links("a").unwrap().len(), 1, "widening must not cascade");
    assert_eq!(store.list_unsynced(10).unwrap().len(), 1, "the push cursor is kept");
    assert_eq!(store.search_by_content("second", 10).unwrap()[0].id, "b");
    for source in [EngramSource::Slack, EngramSource::AiTool] {
        let e = make_engram_sourced("a source that the table did not admit", source);
        assert_eq!(store.write_curated(&e).unwrap(), WriteOutcome::Inserted);
    }
    let before: String = table_text(&store);
    migrate(&store.conn).unwrap();
    assert_eq!(table_text(&store), before, "an up-to-date table is left alone");
    let keys: i64 = store.conn.query_row("PRAGMA foreign_keys", [], |r| r.get(0)).unwrap();
    assert_eq!(keys, 1);
}

fn table_text(store: &Vault) -> String {
    store
        .conn
        .query_row("SELECT sql FROM sqlite_master WHERE name = 'engrams'", [], |r| r.get(0))
        .unwrap()
}

#[test]
fn interrupted_migration_goes_on_where_it_stopped() {
    let dir = tempdir().unwrap();
    let conn = sixth_version_vault(dir.path());
    // As if only the first migration had run.
    conn.execute_batch("PRAGMA user_version = 1").unwrap();
    create_tables(&conn).unwrap();
    migrate(&conn).unwrap();
    let store = Vault { conn };
    let e = make_engram_sourced("captured by a session of an assistant", EngramSource::AiSession);
    assert_eq!(store.write_curated(&e).unwrap(), WriteOutcome::Inserted);
    let version: i32 =
        store.conn.query_row("PRAGMA user_version", [], |r| r.get(0)).unwrap();
    assert_eq!(version, 6);
}

#[test]
fn words_are_found_by_their_stems() {
    let (store, _dir) = test_store();
    store.write(&make_engram("deploying the site took an hour")).unwrap();
    assert_eq!(store.search_by_content("deployed", 10).unwrap().len(), 1);
    assert_eq!(store.search_by_content("deploying", 10).unwrap().len(), 1);
    assert!(store.search_by_content("deep", 10).unwrap().is_empty());
}

#[test]
fn later_text_index_is_made_anew() {
    let dir = tempdir().unwrap();
    let store = {
        let conn = Connection::open(dir.path().join("v.db")).unwrap();
        create_tables(&conn).unwrap();
        migrate(&conn).unwrap();
        Vault { conn }
    };
    store.write(&make_engram("deploying the site took an hour")).unwrap();
    store
        .conn
        .execute_batch(
            "DROP TABLE engrams_fts;
             CREATE VIRTUAL TABLE engrams_fts USING fts5(id, content);
             INSERT INTO engrams_fts(rowid, id, content) SELECT rowid, id, content FROM engrams;",
        )
        .unwrap();
    assert!(store.search_by_content("deployed", 10).unwrap().is_empty());
    migrate(&store.conn).unwrap();
    assert_eq!(store.search_by_content("deployed", 10).unwrap().len(), 1);
}

#[test]
fn quarantined_memories_never_surface() {
    let (store, _dir) = test_store();
    store
        .write_curated(&Engram::new_imagined("imagined borrow checker notes".to_string(), "{}".to_string()))
        .unwrap();
    store.write(&make_engram("rust borrow checker notes")).unwrap();
    let found = store.surface_relevant("borrow checker", 10).unwrap();
    assert_eq!(found.len(), 1);
    assert_eq!(found[0].0.content, "rust borrow checker notes");
}

#[test]
fn accesses_can_be_recorded() {
    let (store, _dir) = test_store();
    store
        .conn
        .execute_batch("INSERT INTO access_events VALUES ('gone', 'get', 'cli', 'h', '2026-08-01T00:00:00Z')")
        .unwrap();
    let n: i64 =
        store.conn.query_row("SELECT COUNT(*) FROM access_events", [], |r| r.get(0)).unwrap();
    assert_eq!(n, 1, "the memory need not exist");
}

#[test]
fn small_table_is_migrated_without_a_text_index() {
    let conn = Connection::open_in_memory().unwrap();
    conn.execute_batch(
        "CREATE TABLE engrams(id TEXT PRIMARY KEY, content TEXT, created_at TEXT, modified_at TEXT);
         PRAGMA user_version = 5;
         INSERT INTO engrams VALUES('m1', 'old note', '2026-08-01T00:00:00Z', '2026-08-10T00:00:00Z');",
    )
    .unwrap();
    migrate(&conn).unwrap();
    let row: (String, String, String, String) = conn
        .query_row(
            "SELECT synced_at, modified_at, created_at, content_hash FROM engrams WHERE id = 'm1'",
            [],
            |r| Ok((r.get(0)?, r.get(1)?, r.get(2)?, r.get(3)?)),
        )
        .unwrap();
    assert_eq!(row.0, "2026-08-10T00:00:00Z");
    assert_eq!(row.1, "2026-08-10T00:00:00Z");
    assert_eq!(row.2, "2026-08-01T00:00:00Z");
    assert_eq!(row.3, axiom_engram::noise::normalized_hash("old note"));
    let version: i32 = conn.query_row("PRAGMA user_version", [], |r| r.get(0)).unwrap();
    assert_eq!(version, 6);
    migrate(&conn).unwrap();
}

#[test]
fn unpushed_memory_stays_unpushed_when_the_vault_is_opened_again() {
    let (store, _dir) = test_store();
    store.write(&make_engram("not pushed before the vault was closed")).unwrap();
    assert_eq!(store.list_unsynced(10).unwrap().len(), 1);
    create_tables(&store.conn).unwrap();
    migrate(&store.conn).unwrap();
    assert_eq!(store.list_unsynced(10).unwrap().len(), 1);
}

#[test]
fn curated_write_is_stored_verbatim() {
    let (store, _dir) = test_store();
    let mut e = make_engram_sourced("a note that its owner edited", EngramSource::Window);
    e.context = "{\"cwd\": \"/home/alice/site\", \"project\": \"site\"}".to_string();
    e.tags = Vec::new();
    e.project = None;
    assert_eq!(store.write_curated(&e).unwrap(), WriteOutcome::Inserted);
    let got = store.get(&e.id).unwrap();
    assert!(got.tags.is_empty(), "no tag is made up");
    assert_eq!(got.project, None, "no project is made up");
    assert_eq!(got.content, e.content);
}

#[test]
fn session_with_a_wildcard_is_found() {
    let (store, _dir) = test_store();
    let in_session = |content: &str, session: &str| {
        let mut e = make_engram_sourced(content, EngramSource::Chat);
        e.context = format!("{{\"session_id\":\"{session}\"}}");
        e
    };
    let first = in_session("the deploy of the site begins", "s_1");
    let other = in_session("lunch is at noon by the river", "sx1");
    let upper = in_session("the printer is out of paper", "S_1");
    let second = in_session("the deploy of the site ended well", "s_1");
    for e in [&first, &other, &upper, &second] {
        assert_eq!(store.write(e).unwrap(), WriteOutcome::Inserted);
    }
    let temporal: Vec<EngramLink> = store
        .get_links(&second.id)
        .unwrap()
        .into_iter()
        .filter(|l| l.link_type == LinkType::Temporal)
        .collect();
    assert_eq!(temporal.len(), 1);
    assert_eq!(temporal[0].target_id, first.id, "the predecessor in its own session");
}

#[test]
fn live_memory_is_not_linked_to_a_quarantined_one() {
    let (store, _dir) = test_store();
    let cfg = LinkInferenceConfig::default();
    let a = make_engram("rust borrow checker notes");
    let q = Engram::new_imagined("hallucinated rust facts".to_string(), "{}".to_string());
    store
        .write_with_embedding(&a, Some(&[1.0, 0.0]), Some("test-model"), Some(cfg))
        .unwrap();
    assert_eq!(
        store
            .write_with_embedding(&q, Some(&[0.8, 0.6]), Some("test-model"), Some(cfg))
            .unwrap(),
        WriteOutcome::Inserted
    );
    assert!(store.get_links(&a.id).unwrap().is_empty(), "no link leads into quarantine");
    assert_eq!(store.get_links(&q.id).unwrap()[0].target_id, a.id);
}

#[test]
fn second_get_counts_one_more_retrieval() {
    let (store, _dir) = test_store();
    let e = make_engram("read twice in a row");
    store.write(&e).unwrap();
    let first = store.get(&e.id).unwrap();
    let second = store.get(&e.id).unwrap();
    assert_eq!(second.retrievals, first.retrievals + 1);
    assert!(second.last_retrieved.is_some());
    assert_eq!(
        (&second.content, &second.tags, second.strength, second.created_at, second.modified_at),
        (&first.content, &first.tags, first.strength, first.created_at, first.modified_at)
    );
}

#[test]
fn deletion_leaves_one_tombstone_and_nothing_else() {
    let (store, _dir) = test_store();
    let cfg = LinkInferenceConfig::default();
    let a = make_engram_sourced("rust borrow checker notes", EngramSource::Interaction);
    let b = make_engram_sourced("rust lifetime semantics", EngramSource::Research);
    store
        .write_with_embedding(&a, Some(&[1.0, 0.0]), Some("test-model"), Some(cfg))
        .unwrap();
    store
        .write_with_embedding(&b, Some(&[0.8, 0.6]), Some("test-model"), Some(cfg))
        .unwrap();
    assert_eq!(store.get_links(&b.id).unwrap().len(), 1);
    for _ in 0..2 {
        store.delete(&a.id).unwrap();
        assert!(matches!(store.get(&a.id), Err(EngramError::NotFound(_))));
        assert_eq!(fts_rows(&store, &a.id), 0);
        assert!(store.get_links(&b.id).unwrap().is_empty());
        assert!(store.get_embedding(&a.id).unwrap().is_none());
        let tombstones = store.list_tombstones().unwrap();
        assert_eq!(tombstones.len(), 1);
        assert_eq!(tombstones[0].0, a.id);
        assert_eq!(store.count().unwrap(), 1);
        assert!(store.get_embedding(&b.id).unwrap().is_some());
        // Written again under the same identifier, and deleted again.
        store.write_curated(&a).unwrap();
    }
}

#[test]
fn digest_lists_are_cut_and_add_up() {
    let (store, _dir) = test_store();
    for (i, content) in ["alpha team met", "beta build broke", "gamma rays seen"].iter().enumerate() {
        let mut e = make_engram(content);
        e.strength = measure(0.5 + i as f64 * 0.1);
        store.write(&e).unwrap();
    }
    store
        .write_curated(&Engram::new_imagined("imagined only".to_string(), "{}".to_string()))
        .unwrap();
    let digest = store.digest_window("2020-01-01T00:00:00+00:00", 2).unwrap();
    assert_eq!((digest.new.len(), digest.new_count), (2, 3));
    assert_eq!(digest.new[0].content, "gamma rays seen");
    assert_eq!(digest.new_count + digest.reinforced_count + digest.fading_count, digest.live_total);
    assert_eq!(digest.live_total + digest.quarantined_count, store.count().unwrap() as usize);
    let later = store.digest_window("9999-01-01T00:00:00+00:00", 2).unwrap();
    assert_eq!((later.fading.len(), later.fading_count), (2, 3));
    assert_eq!(later.fading[0].content, "alpha team met");
    assert!(later.new.is_empty() && later.reinforced.is_empty());
}

#[test]
fn tags_with_wildcards_are_taken_literally() {
    let (store, _dir) = test_store();
    let mut e = make_engram("the build of the site is green");
    e.tags = vec!["build_site".to_string(), "100%".to_string()];
    let mut other = make_engram("lunch is at noon by the river");
    other.tags = vec!["build-site".to_string(), "1000".to_string()];
    store.write(&e).unwrap();
    store.write(&other).unwrap();
    for tag in ["build_site", "100%"] {
        let found = store.search_by_tags(&[tag.to_string()], 10).unwrap();
        assert_eq!(found.len(), 1);
        assert_eq!(found[0].id, e.id);
    }
    assert!(store.search_by_tags(&["%".to_string()], 10).unwrap().is_empty());
}
