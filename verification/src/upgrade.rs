//! What the migrations make of the rows of a vault: nothing that a memory holds is lost.
use crate::noise::hash_of;
use crate::schema::{
    adding_scope, always, columns_before_hashing, completed, copied_names, dating, ensured,
    first_columns, hash_statements, hashing, latest, law_migration_outcome,
    naming, names_of, once, outcome, plan, rebuilding, rebuilt_columns, reindexing, stemming,
    syncing, widened_columns, widening, widens, with_column, Fill, MigrationView, SchemaView, Shape,
    StepView, Upkeep, UNHASHED,
};
use crate::sql::{plain_of, text_column, SqlView, StatementView};
use crate::tables::{Cells, Tables};
use vstd::prelude::*;

verus! {

/// What a cell of a column holds that is added under a declaration: the default that the
/// declaration names, else nothing.
pub open spec fn default_of(decl: Seq<char>) -> SqlView {
    if decl == "TEXT NOT NULL DEFAULT 'moment'"@ {
        SqlView::Text("moment"@)
    } else if decl == "TEXT NOT NULL DEFAULT 'text'"@ {
        SqlView::Text("text"@)
    } else {
        SqlView::Null
    }
}

/// A row with its content hash.
pub open spec fn hashed(row: Cells) -> Cells {
    match (row["content_hash"@], row["content"@]) {
        (SqlView::Null, SqlView::Text(content)) => row.insert(
            "content_hash"@,
            SqlView::Text(hash_of(content)),
        ),
        _ => row,
    }
}

/// What a step makes of a row.
pub open spec fn row_after(row: Cells, step: StepView) -> Cells {
    match step {
        StepView::Add(c) => row.insert(c.name, default_of(c.decl)),
        StepView::Fill(f) => f.filled(row),
        StepView::Recreate(shape) => shape.reshaped(row),
        StepView::Backfill(_) => hashed(row),
        StepView::Run(_) | StepView::Reindex | StepView::Stamp(_) => row,
    }
}

/// What a list of steps makes of a row.
pub open spec fn row_walked(row: Cells, steps: Seq<StepView>) -> Cells
    decreases steps.len(),
{
    if steps.len() == 0 {
        row
    } else {
        row_after(row_walked(row, steps.drop_last()), steps.last())
    }
}

/// What a list of migrations makes of a row.
pub open spec fn row_migrated(row: Cells, list: Seq<MigrationView>) -> Cells
    decreases list.len(),
{
    if list.len() == 0 {
        row
    } else {
        row_walked(row_migrated(row, list.drop_last()), list.last().steps)
    }
}

/// What a step makes of the tables. Dropping the table of engrams takes with it what refers to it,
/// where foreign keys act and are not suspended.
pub open spec fn tables_after(t: Tables, step: StepView, suspended: bool) -> Tables {
    let cascades = step is Recreate && t.foreign_keys && !suspended;
    Tables {
        engrams: t.engrams.map_values(|row: Cells| row_after(row, step)),
        indexed: if step is Reindex {
            t.engrams.dom()
        } else {
            t.indexed
        },
        links: if cascades {
            Map::empty()
        } else {
            t.links
        },
        embeddings: if cascades {
            Map::empty()
        } else {
            t.embeddings
        },
        ..t
    }
}

/// What a list of steps makes of the tables.
pub open spec fn tables_walked(t: Tables, steps: Seq<StepView>, suspended: bool) -> Tables
    decreases steps.len(),
{
    if steps.len() == 0 {
        t
    } else {
        tables_after(tables_walked(t, steps.drop_last(), suspended), steps.last(), suspended)
    }
}

/// What a list of migrations makes of the tables.
pub open spec fn tables_migrated(t: Tables, list: Seq<MigrationView>) -> Tables
    decreases list.len(),
{
    if list.len() == 0 {
        t
    } else {
        let m = list.last();
        tables_walked(tables_migrated(t, list.drop_last()), m.steps, m.suspends_foreign_keys)
    }
}

/// Whether the tables are those of a vault: every row of the table of engrams has a cell for each
/// column, and a content and a time of creation.
pub open spec fn fits(t: Tables, s: SchemaView) -> bool {
    &&& t.foreign_keys == s.foreign_keys
    &&& forall|id: Seq<char>| #[trigger]
        t.engrams.contains_key(id) ==> row_fits(t.engrams[id], s.columns)
}

/// Whether a row has a cell for each column, and a content and a time of creation.
pub open spec fn row_fits(row: Cells, columns: Seq<Seq<char>>) -> bool {
    &&& row.dom() == columns.to_set()
    &&& row.contains_key("content"@) && row["content"@] is Text
    &&& row.contains_key("created_at"@) && row["created_at"@] is Text
}

/// A row with a cell in a column, which holds a value where there was no such cell.
pub open spec fn with_cell(row: Cells, name: Seq<char>, value: SqlView) -> Cells {
    if row.contains_key(name) {
        row
    } else {
        row.insert(name, value)
    }
}

/// A row with a scope, a content type and a time of the event.
pub open spec fn scoped_row(row: Cells) -> Cells {
    with_cell(
        with_cell(
            with_cell(row, "scope"@, SqlView::Text("moment"@)),
            "content_type"@,
            SqlView::Text("text"@),
        ),
        "occurred_at"@,
        SqlView::Null,
    )
}

/// A row with its content hash, whether it had a cell for it or not.
pub open spec fn hashed_row(row: Cells) -> Cells {
    hashed(with_cell(row, "content_hash"@, SqlView::Null))
}

/// A row with the time of its last edit.
pub open spec fn dated_row(row: Cells) -> Cells {
    Fill::Modified.filled(with_cell(row, "modified_at"@, SqlView::Null))
}

/// A row with a push cursor: as it was where there was a cell for it, else pushed.
pub open spec fn cursored_row(row: Cells) -> Cells {
    if row.contains_key("synced_at"@) {
        row
    } else {
        Fill::Synced.filled(row.insert("synced_at"@, SqlView::Null))
    }
}

/// A row with all that the migrations that always run ensure.
pub open spec fn completed_row(row: Cells) -> Cells {
    with_cell(cursored_row(dated_row(hashed_row(row))), "agent_id"@, SqlView::Null)
}

/// A row before the content hash is ensured.
pub open spec fn row_before_hashing(s: SchemaView, row: Cells) -> Cells {
    if s.version < 1 {
        Shape::Rebuilt.reshaped(scoped_row(row))
    } else if s.version < 3 {
        Shape::Rebuilt.reshaped(row)
    } else {
        row
    }
}

/// A row after its vault was migrated.
pub open spec fn migrated_row(s: SchemaView, row: Cells) -> Cells {
    let done = completed_row(row_before_hashing(s, row));
    if widens(s) {
        Shape::Widened.reshaped(done)
    } else {
        done
    }
}

proof fn lemma_row_walked_add(row: Cells, a: Seq<StepView>, b: Seq<StepView>)
    ensures
        row_walked(row, a + b) == row_walked(row_walked(row, a), b),
    decreases b.len(),
{
    if b.len() == 0 {
        assert(a + b =~= a);
    } else {
        assert((a + b).drop_last() =~= a + b.drop_last());
        lemma_row_walked_add(row, a, b.drop_last());
    }
}

proof fn lemma_row_migrated_add(row: Cells, a: Seq<MigrationView>, b: Seq<MigrationView>)
    ensures
        row_migrated(row, a + b) == row_migrated(row_migrated(row, a), b),
    decreases b.len(),
{
    if b.len() == 0 {
        assert(a + b =~= a);
    } else {
        assert((a + b).drop_last() =~= a + b.drop_last());
        lemma_row_migrated_add(row, a, b.drop_last());
    }
}

/// Steps that touch no row leave it as it is.
proof fn lemma_row_idle(row: Cells, steps: Seq<StepView>)
    requires
        forall|i: int|
            0 <= i < steps.len() ==> (#[trigger] steps[i] is Run || steps[i] is Reindex
                || steps[i] is Stamp),
    ensures
        row_walked(row, steps) == row,
    decreases steps.len(),
{
    if steps.len() > 0 {
        let before = steps.drop_last();
        assert forall|i: int| 0 <= i < before.len() implies (#[trigger] before[i] is Run
            || before[i] is Reindex || before[i] is Stamp) by {
            assert(before[i] == steps[i]);
        }
        lemma_row_idle(row, before);
        assert(steps.last() == steps[steps.len() - 1]);
    }
}

/// One step that touches rows among others that do not.
proof fn lemma_row_one(row: Cells, steps: Seq<StepView>, at: int)
    requires
        0 <= at < steps.len(),
        forall|i: int|
            0 <= i < steps.len() && i != at ==> (#[trigger] steps[i] is Run || steps[i] is Reindex
                || steps[i] is Stamp),
    ensures
        row_walked(row, steps) == row_after(row, steps[at]),
{
    let head = steps.take(at);
    let tail = steps.skip(at + 1);
    assert(steps =~= head + seq![steps[at]] + tail);
    lemma_row_walked_add(row, head + seq![steps[at]], tail);
    lemma_row_walked_add(row, head, seq![steps[at]]);
    lemma_row_idle(row, head);
    let one = seq![steps[at]];
    assert(one.drop_last() =~= Seq::<StepView>::empty());
    reveal_with_fuel(row_walked, 2);
    lemma_row_idle(row_after(row, steps[at]), tail);
}

proof fn lemma_row_ensured(
    row: Cells,
    columns: Seq<Seq<char>>,
    name: Seq<char>,
    decl: Seq<char>,
    more: Seq<StepView>,
)
    requires
        columns.contains(name) == row.contains_key(name),
        more.len() <= 1,
    ensures
        row_walked(row, ensured(columns, name, decl, more)) == if row.contains_key(name) {
            row
        } else if more.len() == 0 {
            row.insert(name, default_of(decl))
        } else {
            row_after(row.insert(name, default_of(decl)), more[0])
        },
{
    reveal_with_fuel(row_walked, 3);
    let steps = ensured(columns, name, decl, more);
    if !columns.contains(name) {
        if more.len() == 0 {
            assert(steps.drop_last() =~= Seq::<StepView>::empty());
        } else {
            assert(steps.drop_last().drop_last() =~= Seq::<StepView>::empty());
            assert(steps.drop_last().last() == steps[0]);
            assert(steps.last() == more[0]);
        }
    }
}

proof fn lemma_names_differ()
    ensures
        forall|i: int|
            #![trigger names_of(first_columns())[i]]
            0 <= i < 15 ==> {
                let name = names_of(first_columns())[i];
                &&& name != "scope"@
                &&& name != "content_type"@
                &&& name != "occurred_at"@
                &&& name != "content_hash"@
                &&& name != "modified_at"@
                &&& name != "synced_at"@
                &&& name != "agent_id"@
            },
        "scope"@ != "content_type"@,
        "scope"@ != "occurred_at"@,
        "scope"@ != "content_hash"@,
        "scope"@ != "modified_at"@,
        "scope"@ != "synced_at"@,
        "scope"@ != "agent_id"@,
        "content_type"@ != "occurred_at"@,
        "content_type"@ != "content_hash"@,
        "content_type"@ != "modified_at"@,
        "content_type"@ != "synced_at"@,
        "content_type"@ != "agent_id"@,
        "occurred_at"@ != "content_hash"@,
        "occurred_at"@ != "modified_at"@,
        "occurred_at"@ != "synced_at"@,
        "occurred_at"@ != "agent_id"@,
        "content_hash"@ != "modified_at"@,
        "content_hash"@ != "synced_at"@,
        "content_hash"@ != "agent_id"@,
        "modified_at"@ != "synced_at"@,
        "modified_at"@ != "agent_id"@,
        "synced_at"@ != "agent_id"@,
        names_of(first_columns())[4] == "content"@,
        names_of(first_columns())[11] == "created_at"@,
{
    reveal_strlit("id");
    reveal_strlit("layer");
    reveal_strlit("source");
    reveal_strlit("privacy_level");
    reveal_strlit("content");
    reveal_strlit("context");
    reveal_strlit("strength");
    reveal_strlit("valence");
    reveal_strlit("retrievals");
    reveal_strlit("imagined");
    reveal_strlit("grounded");
    reveal_strlit("created_at");
    reveal_strlit("last_retrieved");
    reveal_strlit("project");
    reveal_strlit("tags");
    reveal_strlit("scope");
    reveal_strlit("content_type");
    reveal_strlit("occurred_at");
    reveal_strlit("content_hash");
    reveal_strlit("modified_at");
    reveal_strlit("synced_at");
    reveal_strlit("agent_id");
    assert("scope"@.len() == 5 && "scope"@[0] == 's');
    assert("content_type"@.len() == 12 && "content_type"@[8] == 't');
    assert("content_hash"@.len() == 12 && "content_hash"@[8] == 'h');
    assert("occurred_at"@.len() == 11 && "occurred_at"@[0] == 'o');
    assert("modified_at"@.len() == 11 && "modified_at"@[0] == 'm');
    assert("synced_at"@.len() == 9);
    assert("agent_id"@.len() == 8 && "agent_id"@[0] == 'a');
    let names = names_of(first_columns());
    assert forall|i: int| #![trigger names[i]] 0 <= i < 15 implies {
        let name = names[i];
        &&& name.len() == 5 ==> name[0] == 'l'
        &&& name.len() != 12
        &&& name.len() != 11
        &&& name.len() != 9
        &&& name.len() == 8 ==> name[0] != 'a'
    } by {}
}

proof fn lemma_defaults()
    ensures
        default_of("TEXT"@) == SqlView::Null,
        default_of("TEXT NOT NULL DEFAULT 'moment'"@) == SqlView::Text("moment"@),
        default_of("TEXT NOT NULL DEFAULT 'text'"@) == SqlView::Text("text"@),
        "moment"@ != ""@,
        "text"@ != ""@,
{
    reveal_strlit("TEXT");
    reveal_strlit("TEXT NOT NULL DEFAULT 'moment'");
    reveal_strlit("TEXT NOT NULL DEFAULT 'text'");
    reveal_strlit("moment");
    reveal_strlit("text");
    reveal_strlit("");
    assert("TEXT"@.len() == 4);
    assert("TEXT NOT NULL DEFAULT 'moment'"@.len() == 30);
    assert("TEXT NOT NULL DEFAULT 'text'"@.len() == 28);
    assert("moment"@.len() == 6);
    assert("text"@.len() == 4);
    assert(""@.len() == 0);
}

proof fn lemma_row_scoped(row: Cells, columns: Seq<Seq<char>>)
    requires
        row.dom() == columns.to_set(),
    ensures
        row_walked(row, adding_scope(columns).steps) == scoped_row(row),
{
    lemma_names_differ();
    lemma_defaults();
    let a = ensured(
        columns,
        "scope"@,
        "TEXT NOT NULL DEFAULT 'moment'"@,
        seq![StepView::Fill(Fill::Scope)],
    );
    let b = ensured(
        columns,
        "content_type"@,
        "TEXT NOT NULL DEFAULT 'text'"@,
        seq![StepView::Fill(Fill::ContentType)],
    );
    let c = ensured(columns, "occurred_at"@, "TEXT"@, Seq::empty());
    let end = seq![StepView::Stamp(1)];
    lemma_row_walked_add(row, a + b + c, end);
    lemma_row_walked_add(row, a + b, c);
    lemma_row_walked_add(row, a, b);
    assert(columns.to_set().contains("scope"@) == columns.contains("scope"@));
    assert(columns.to_set().contains("content_type"@) == columns.contains("content_type"@));
    assert(columns.to_set().contains("occurred_at"@) == columns.contains("occurred_at"@));
    lemma_row_ensured(
        row,
        columns,
        "scope"@,
        "TEXT NOT NULL DEFAULT 'moment'"@,
        seq![StepView::Fill(Fill::Scope)],
    );
    let r1 = with_cell(row, "scope"@, SqlView::Text("moment"@));
    assert(row_walked(row, a) == r1);
    lemma_row_ensured(
        r1,
        columns,
        "content_type"@,
        "TEXT NOT NULL DEFAULT 'text'"@,
        seq![StepView::Fill(Fill::ContentType)],
    );
    let r2 = with_cell(r1, "content_type"@, SqlView::Text("text"@));
    assert(row_walked(r1, b) == r2);
    lemma_row_ensured(r2, columns, "occurred_at"@, "TEXT"@, Seq::empty());
    lemma_row_idle(scoped_row(row), end);
}

proof fn lemma_row_completed(row: Cells, columns: Seq<Seq<char>>)
    requires
        row.dom() == columns.to_set(),
    ensures
        row_migrated(row, always(columns)) == completed_row(row),
        completed_row(row).dom() == completed(columns).to_set(),
{
    lemma_names_differ();
    lemma_defaults();
    let c5 = with_column(columns, "content_hash"@);
    let c6 = with_column(c5, "modified_at"@);
    let c7 = with_column(c6, "synced_at"@);
    let list = always(columns);
    let r5 = hashed_row(row);
    let r6 = dated_row(r5);
    let r7 = cursored_row(r6);
    let r8 = completed_row(row);
    lemma_dom_with(row.dom(), columns, "content_hash"@);
    lemma_dom_with(r5.dom(), c5, "modified_at"@);
    lemma_dom_with(r6.dom(), c6, "synced_at"@);
    lemma_dom_with(r7.dom(), c7, "agent_id"@);
    let head = ensured(columns, "content_hash"@, "TEXT"@, Seq::empty());
    let tail = seq![
        StepView::Run(Upkeep::HashIndex),
        StepView::Run(Upkeep::MetricsTable),
        StepView::Backfill(plain_of(UNHASHED@)),
        latest(),
    ];
    lemma_row_walked_add(row, head, tail);
    lemma_row_ensured(row, columns, "content_hash"@, "TEXT"@, Seq::empty());
    lemma_row_one(with_cell(row, "content_hash"@, SqlView::Null), tail, 2);
    assert(row_walked(row, hashing(columns).steps) == r5);
    assert(r5.dom() =~= c5.to_set());
    let head = ensured(c5, "modified_at"@, "TEXT"@, Seq::empty());
    let tail = seq![
        StepView::Fill(Fill::Modified),
        StepView::Run(Upkeep::ModifiedIndex),
        latest(),
    ];
    lemma_row_walked_add(r5, head, tail);
    lemma_row_ensured(r5, c5, "modified_at"@, "TEXT"@, Seq::empty());
    lemma_row_one(with_cell(r5, "modified_at"@, SqlView::Null), tail, 0);
    assert(row_walked(r5, dating(c5).steps) == r6);
    assert(r6.dom() =~= c6.to_set());
    let head = ensured(c6, "synced_at"@, "TEXT"@, seq![StepView::Fill(Fill::Synced)]);
    lemma_row_walked_add(r6, head, seq![latest()]);
    lemma_row_ensured(r6, c6, "synced_at"@, "TEXT"@, seq![StepView::Fill(Fill::Synced)]);
    lemma_row_idle(r7, seq![latest()]);
    assert(row_walked(r6, syncing(c6).steps) == r7);
    assert(r7.dom() =~= c7.to_set());
    let head = ensured(c7, "agent_id"@, "TEXT"@, Seq::empty());
    lemma_row_walked_add(r7, head, seq![latest()]);
    lemma_row_ensured(r7, c7, "agent_id"@, "TEXT"@, Seq::empty());
    lemma_row_idle(r8, seq![latest()]);
    assert(row_walked(r7, naming(c7).steps) == r8);
    assert(r8.dom() =~= completed(columns).to_set());
    reveal_with_fuel(row_migrated, 5);
    assert(list.drop_last() =~= seq![hashing(columns), dating(c5), syncing(c6)]);
    assert(list.drop_last().drop_last() =~= seq![hashing(columns), dating(c5)]);
    assert(list.drop_last().drop_last().drop_last() =~= seq![hashing(columns)]);
    assert(list.drop_last().drop_last().drop_last().drop_last() =~= Seq::<MigrationView>::empty());
}

proof fn lemma_dom_with(dom: Set<Seq<char>>, columns: Seq<Seq<char>>, name: Seq<char>)
    ensures
        dom == columns.to_set() ==> (dom.contains(name) == columns.contains(name)),
        dom == columns.to_set() ==> with_column(columns, name).to_set() == dom.insert(name),
{
    if dom == columns.to_set() {
        let more = with_column(columns, name);
        assert forall|x: Seq<char>| #[trigger] more.to_set().contains(x) == dom.insert(
            name,
        ).contains(x) by {
            if columns.contains(name) {
                assert(dom.contains(name));
            } else {
                assert(more[columns.len() as int] == name);
                if columns.contains(x) {
                    let k = columns.index_of(x);
                    assert(more[k] == x);
                }
                if more.contains(x) && x != name {
                    let k = more.index_of(x);
                    assert(more[k] == x);
                    assert(k < columns.len());
                    assert(columns[k] == x);
                }
            }
        }
        assert(more.to_set() =~= dom.insert(name));
    }
}

proof fn lemma_row_once(s: SchemaView, row: Cells)
    requires
        row.dom() == s.columns.to_set(),
    ensures
        row_migrated(row, once(s)) == row_before_hashing(s, row),
        row_before_hashing(s, row).dom() == columns_before_hashing(s).to_set(),
{
    reveal_with_fuel(row_migrated, 4);
    let list = once(s);
    if s.version < 3 {
        let last = rebuilding(s.foreign_keys);
        assert(list.last() == last);
        let scoped = if s.version < 1 {
            scoped_row(row)
        } else {
            row
        };
        lemma_row_one(scoped, last.steps, 0);
        lemma_row_idle(scoped, reindexing().steps);
        if s.version < 1 {
            lemma_row_scoped(row, s.columns);
            assert(list.drop_last() =~= seq![adding_scope(s.columns), reindexing()]);
            assert(list.drop_last().drop_last() =~= seq![adding_scope(s.columns)]);
            assert(list.drop_last().drop_last().drop_last() =~= Seq::<MigrationView>::empty());
        } else if s.version < 2 {
            assert(list.drop_last() =~= seq![reindexing()]);
            assert(list.drop_last().drop_last() =~= Seq::<MigrationView>::empty());
        } else {
            assert(list.drop_last() =~= Seq::<MigrationView>::empty());
        }
        assert(row_before_hashing(s, row).dom() =~= columns_before_hashing(s).to_set());
    } else {
        assert(list =~= Seq::<MigrationView>::empty());
    }
}

proof fn lemma_row_plan(s: SchemaView, row: Cells)
    requires
        row.dom() == s.columns.to_set(),
    ensures
        row_migrated(row, plan(s)) == migrated_row(s, row),
        migrated_row(s, row).dom() == outcome(s).columns.to_set(),
{
    lemma_row_once(s, row);
    let columns = columns_before_hashing(s);
    let before = row_before_hashing(s, row);
    lemma_row_completed(before, columns);
    let done = completed_row(before);
    let first = once(s) + always(columns);
    lemma_row_migrated_add(row, once(s), always(columns));
    reveal_with_fuel(row_migrated, 2);
    if widens(s) {
        let end = seq![widening(s.foreign_keys)];
        lemma_row_migrated_add(row, first, end);
        assert(end.drop_last() =~= Seq::<MigrationView>::empty());
        lemma_row_one(done, widening(s.foreign_keys).steps, 0);
        assert(migrated_row(s, row).dom() =~= outcome(s).columns.to_set());
    } else if s.version >= 3 && !s.stems {
        let end = seq![stemming()];
        lemma_row_migrated_add(row, first, end);
        assert(end.drop_last() =~= Seq::<MigrationView>::empty());
        lemma_row_idle(done, stemming().steps);
    } else {
        assert(plan(s) =~= first);
    }
}

/// Whether nothing that a row holds is lost where its vault is migrated: the cells that every
/// version copies stay; a later cell stays where there is one that holds something; where there is
/// none, the content hash is that of the content, the last edit is the creation, and the row counts
/// as pushed.
pub open spec fn keeps(s: SchemaView, before: Cells, after: Cells) -> bool {
    let later = s.version >= 3;
    &&& forall|i: int|
        0 <= i < copied_names().len() && before.contains_key(#[trigger] copied_names()[i])
            ==> after.contains_key(copied_names()[i]) && after[copied_names()[i]]
            == before[copied_names()[i]]
    &&& after["content_hash"@] == if later && before.contains_key("content_hash"@)
        && before["content_hash"@] !is Null {
        before["content_hash"@]
    } else {
        SqlView::Text(hash_of(before["content"@]->Text_0))
    }
    &&& after["modified_at"@] == if later && before.contains_key("modified_at"@)
        && before["modified_at"@] !is Null {
        before["modified_at"@]
    } else {
        before["created_at"@]
    }
    &&& after["synced_at"@] == if later && before.contains_key("synced_at"@) {
        before["synced_at"@]
    } else {
        after["modified_at"@]
    }
    &&& after["agent_id"@] == if later && before.contains_key("agent_id"@) {
        before["agent_id"@]
    } else {
        SqlView::Null
    }
}

proof fn lemma_copied_names()
    ensures
        forall|i: int|
            #![trigger copied_names()[i]]
            0 <= i < 18 ==> {
                &&& copied_names()[i] != "content_hash"@
                &&& copied_names()[i] != "modified_at"@
                &&& copied_names()[i] != "synced_at"@
                &&& copied_names()[i] != "agent_id"@
                &&& Shape::Rebuilt.copied().contains(copied_names()[i])
                &&& names_of(Shape::Rebuilt.columns()).contains(copied_names()[i])
                &&& Shape::Widened.copied().contains(copied_names()[i])
                &&& names_of(Shape::Widened.columns()).contains(copied_names()[i])
            },
        copied_names().len() == 18,
        copied_names()[4] == "content"@,
        copied_names()[11] == "created_at"@,
        !copied_names().contains("content_hash"@),
        names_of(rebuilt_columns()).contains("content_hash"@),
        !names_of(rebuilt_columns()).contains("modified_at"@),
        !names_of(rebuilt_columns()).contains("synced_at"@),
        !names_of(rebuilt_columns()).contains("agent_id"@),
        names_of(widened_columns()).contains("content_hash"@),
        names_of(widened_columns()).contains("modified_at"@),
        names_of(widened_columns()).contains("synced_at"@),
        names_of(widened_columns()).contains("agent_id"@),
{
    lemma_names_differ();
    let names = copied_names();
    let first = names_of(first_columns());
    let rebuilt = names_of(rebuilt_columns());
    let widened = names_of(widened_columns());
    assert(first.len() == 15);
    assert(rebuilt.len() == 19);
    assert(widened.len() == 22);
    assert forall|i: int| #![trigger names[i]] 0 <= i < 18 implies {
        &&& names[i] != "content_hash"@
        &&& names[i] != "modified_at"@
        &&& names[i] != "synced_at"@
        &&& names[i] != "agent_id"@
        &&& names.contains(names[i])
        &&& rebuilt.contains(names[i])
        &&& widened.contains(names[i])
    } by {
        if i < 15 {
            assert(names[i] == first[i]);
            assert(rebuilt[i] == names[i]);
            assert(widened[i] == names[i]);
        } else {
            assert(rebuilt[i + 1] == names[i]);
            assert(widened[i + 1] == names[i]);
        }
    }
    assert(rebuilt[15] == "content_hash"@);
    assert(widened[15] == "content_hash"@);
    assert(widened[19] == "modified_at"@);
    assert(widened[20] == "synced_at"@);
    assert(widened[21] == "agent_id"@);
    assert forall|i: int| 0 <= i < 19 implies #[trigger] rebuilt[i] != "modified_at"@ && rebuilt[i]
        != "synced_at"@ && rebuilt[i] != "agent_id"@ by {
        if i < 15 {
            assert(rebuilt[i] == first[i]);
        }
    }
    assert(names[4] == first[4] && names[11] == first[11]);
}

/// What the migrations that always run make of a row, cell by cell.
proof fn lemma_completed_cells(row: Cells)
    requires
        row.contains_key("content"@),
        row.contains_key("created_at"@),
        row["content"@] is Text,
        row["created_at"@] is Text,
    ensures
        ({
            let done = completed_row(row);
            &&& forall|name: Seq<char>|
                row.contains_key(name) && name != "content_hash"@ && name != "modified_at"@
                    ==> done.contains_key(name) && #[trigger] done[name] == row[name]
            &&& done.contains_key("content_hash"@)
            &&& done.contains_key("modified_at"@)
            &&& done.contains_key("synced_at"@)
            &&& done.contains_key("agent_id"@)
            &&& done["content_hash"@] == if row.contains_key("content_hash"@)
                && row["content_hash"@] !is Null {
                row["content_hash"@]
            } else {
                SqlView::Text(hash_of(row["content"@]->Text_0))
            }
            &&& done["modified_at"@] == if row.contains_key("modified_at"@)
                && row["modified_at"@] !is Null {
                row["modified_at"@]
            } else {
                row["created_at"@]
            }
            &&& done["synced_at"@] == if row.contains_key("synced_at"@) {
                row["synced_at"@]
            } else {
                done["modified_at"@]
            }
            &&& done["agent_id"@] == if row.contains_key("agent_id"@) {
                row["agent_id"@]
            } else {
                SqlView::Null
            }
        }),
{
    lemma_names_differ();
    lemma_copied_names();
    assert("content"@ != "content_hash"@ && "content"@ != "modified_at"@) by {
        assert(copied_names()[4] == "content"@);
    }
    assert("created_at"@ != "content_hash"@ && "created_at"@ != "modified_at"@) by {
        assert(copied_names()[11] == "created_at"@);
    }
    let r5 = hashed_row(row);
    let r6 = dated_row(r5);
    let r7 = cursored_row(r6);
    assert(r5["created_at"@] == row["created_at"@]);
}

proof fn lemma_row_keeps(s: SchemaView, row: Cells)
    requires
        s.valid() || s.version >= 3,
        row_fits(row, s.columns),
    ensures
        keeps(s, row, migrated_row(s, row)),
        row_fits(migrated_row(s, row), outcome(s).columns),
        migrated_row(s, row).contains_key("content_hash"@),
        migrated_row(s, row).contains_key("modified_at"@),
        migrated_row(s, row).contains_key("synced_at"@),
        migrated_row(s, row).contains_key("agent_id"@),
{
    lemma_names_differ();
    lemma_copied_names();
    lemma_row_plan(s, row);
    let names = copied_names();
    if widens(s) {
        assert forall|i: int| 0 <= i < 18 implies row.contains_key(#[trigger] names[i]) by {
            assert(s.has(names[i]));
            assert(s.columns.to_set().contains(names[i]));
        }
    }
    let scoped = if s.version < 1 {
        scoped_row(row)
    } else {
        row
    };
    assert forall|i: int| 0 <= i < 18 && row.contains_key(#[trigger] names[i]) implies scoped[names[i]]
        == row[names[i]] by {}
    let before = row_before_hashing(s, row);
    assert forall|i: int| 0 <= i < 18 && row.contains_key(#[trigger] names[i]) implies {
        &&& before.contains_key(names[i])
        &&& before[names[i]] == row[names[i]]
    } by {
        if s.version < 3 {
            assert(before == Shape::Rebuilt.reshaped(scoped));
        }
    }
    assert(row.contains_key(names[4]) && row.contains_key(names[11]));
    assert(before.contains_key(names[4]) && before.contains_key(names[11]));
    if s.version < 3 {
        assert(before.contains_key("content_hash"@) && before["content_hash"@] is Null);
        assert(!before.contains_key("modified_at"@));
        assert(!before.contains_key("synced_at"@));
        assert(!before.contains_key("agent_id"@));
    }
    lemma_completed_cells(before);
    let done = completed_row(before);
    let after = migrated_row(s, row);
    assert forall|i: int| 0 <= i < 18 && row.contains_key(#[trigger] names[i]) implies {
        &&& after.contains_key(names[i])
        &&& after[names[i]] == row[names[i]]
    } by {
        assert(done[names[i]] == before[names[i]]);
    }
    assert(after[names[4]] == row[names[4]]);
    assert(after[names[11]] == row[names[11]]);
    assert(after["content_hash"@] == done["content_hash"@]);
    assert(after["modified_at"@] == done["modified_at"@]);
    assert(after["synced_at"@] == done["synced_at"@]);
    assert(after["agent_id"@] == done["agent_id"@]);
}

proof fn lemma_tables_walked(t: Tables, steps: Seq<StepView>, suspended: bool)
    requires
        !t.foreign_keys || suspended || forall|k: int|
            0 <= k < steps.len() ==> #[trigger] steps[k] !is Recreate,
    ensures
        ({
            let u = tables_walked(t, steps, suspended);
            &&& u.engrams.dom() == t.engrams.dom()
            &&& forall|id: Seq<char>| #[trigger]
                t.engrams.contains_key(id) ==> u.engrams[id] == row_walked(t.engrams[id], steps)
            &&& u.links == t.links
            &&& u.embeddings == t.embeddings
            &&& u.tombstones == t.tombstones
            &&& u.foreign_keys == t.foreign_keys
        }),
    decreases steps.len(),
{
    if steps.len() > 0 {
        let before = steps.drop_last();
        if t.foreign_keys && !suspended {
            assert forall|k: int| 0 <= k < before.len() implies #[trigger] before[k] !is Recreate by {
                assert(before[k] == steps[k]);
            }
            assert(steps[steps.len() - 1] !is Recreate);
        }
        lemma_tables_walked(t, before, suspended);
        let mid = tables_walked(t, before, suspended);
        let u = tables_walked(t, steps, suspended);
        assert(u.engrams.dom() =~= t.engrams.dom());
        assert forall|id: Seq<char>| #[trigger] t.engrams.contains_key(id) implies u.engrams[id]
            == row_walked(t.engrams[id], steps) by {
            assert(mid.engrams.contains_key(id));
        }
    }
}

proof fn lemma_tables_migrated(t: Tables, list: Seq<MigrationView>)
    requires
        forall|m: int, k: int|
            0 <= m < list.len() && 0 <= k < list[m].steps.len() && t.foreign_keys
                && !list[m].suspends_foreign_keys ==> #[trigger] list[m].steps[k] !is Recreate,
    ensures
        ({
            let u = tables_migrated(t, list);
            &&& u.engrams.dom() == t.engrams.dom()
            &&& forall|id: Seq<char>| #[trigger]
                t.engrams.contains_key(id) ==> u.engrams[id] == row_migrated(t.engrams[id], list)
            &&& u.links == t.links
            &&& u.embeddings == t.embeddings
            &&& u.tombstones == t.tombstones
            &&& u.foreign_keys == t.foreign_keys
        }),
    decreases list.len(),
{
    if list.len() > 0 {
        let before = list.drop_last();
        assert forall|m: int, k: int|
            0 <= m < before.len() && 0 <= k < before[m].steps.len() && t.foreign_keys
                && !before[m].suspends_foreign_keys implies #[trigger] before[m].steps[k]
            !is Recreate by {
            assert(before[m] == list[m]);
            assert(list[m].steps[k] !is Recreate);
        }
        lemma_tables_migrated(t, before);
        let mid = tables_migrated(t, before);
        let last = list.last();
        assert(last == list[list.len() - 1]);
        if t.foreign_keys && !last.suspends_foreign_keys {
            assert forall|k: int| 0 <= k < last.steps.len() implies #[trigger] last.steps[k]
                !is Recreate by {
                assert(list[list.len() - 1].steps[k] !is Recreate);
            }
        }
        lemma_tables_walked(mid, last.steps, last.suspends_foreign_keys);
        assert forall|id: Seq<char>| #[trigger] t.engrams.contains_key(id) implies tables_migrated(
            t,
            list,
        ).engrams[id] == row_migrated(t.engrams[id], list) by {
            assert(mid.engrams.contains_key(id));
        }
    }
}

/// A migration that puts a new table in the place of the table of engrams suspends foreign keys
/// where they act.
proof fn lemma_plan_suspends(s: SchemaView)
    ensures
        forall|m: int, k: int|
            0 <= m < plan(s).len() && 0 <= k < plan(s)[m].steps.len() && s.foreign_keys
                && !plan(s)[m].suspends_foreign_keys ==> #[trigger] plan(s)[m].steps[k]
                !is Recreate,
{
    let columns = columns_before_hashing(s);
    assert forall|m: int, k: int|
        0 <= m < plan(s).len() && 0 <= k < plan(s)[m].steps.len() && s.foreign_keys
            && !plan(s)[m].suspends_foreign_keys implies #[trigger] plan(s)[m].steps[k]
        !is Recreate by {
        let n = once(s).len() as int;
        if m < n {
            assert(plan(s)[m] == once(s)[m]);
        } else if m < n + 4 {
            assert(plan(s)[m] == always(columns)[m - n]);
        }
    }
}

/// Migrating a vault loses nothing: every memory is still there with all that it held, every row
/// has a content hash and a time of its last edit, and the links, the embeddings and the tombstones
/// stay.
///
/// The vault has what its version promises; from the third version on it need not.
pub proof fn law_migration_keeps_every_memory(s: SchemaView, t: Tables)
    requires
        s.valid() || s.version >= 3,
        fits(t, s),
    ensures
        ({
            let u = tables_migrated(t, plan(s));
            &&& u.engrams.dom() == t.engrams.dom()
            &&& forall|id: Seq<char>| #[trigger]
                t.engrams.contains_key(id) ==> keeps(s, t.engrams[id], u.engrams[id])
            &&& forall|id: Seq<char>| #[trigger]
                u.engrams.contains_key(id) ==> row_fits(u.engrams[id], outcome(s).columns)
            &&& u.links == t.links
            &&& u.embeddings == t.embeddings
            &&& u.tombstones == t.tombstones
        }),
{
    lemma_plan_suspends(s);
    lemma_tables_migrated(t, plan(s));
    let u = tables_migrated(t, plan(s));
    assert forall|id: Seq<char>| #[trigger] t.engrams.contains_key(id) implies keeps(
        s,
        t.engrams[id],
        u.engrams[id],
    ) && row_fits(u.engrams[id], outcome(s).columns) by {
        lemma_row_plan(s, t.engrams[id]);
        lemma_row_keeps(s, t.engrams[id]);
    }
}

/// Migrating a vault again changes no row, no link and no embedding.
pub proof fn law_second_migration_changes_no_row(s: SchemaView, t: Tables)
    requires
        s.valid(),
        fits(t, s),
    ensures
        ({
            let u = tables_migrated(t, plan(s));
            let again = tables_migrated(u, plan(s.migrated(plan(s))));
            &&& again.engrams == u.engrams
            &&& again.links == u.links
            &&& again.embeddings == u.embeddings
            &&& again.tombstones == u.tombstones
        }),
{
    law_migration_keeps_every_memory(s, t);
    law_migration_outcome(s);
    lemma_plan_suspends(s);
    lemma_tables_migrated(t, plan(s));
    let o = outcome(s);
    let u = tables_migrated(t, plan(s));
    lemma_plan_suspends(o);
    lemma_tables_migrated(u, plan(o));
    let again = tables_migrated(u, plan(o));
    assert forall|id: Seq<char>| #[trigger] u.engrams.contains_key(id) implies again.engrams[id]
        == u.engrams[id] by {
        let row = t.engrams[id];
        let q = u.engrams[id];
        assert(t.engrams.contains_key(id));
        lemma_row_plan(s, row);
        lemma_row_keeps(s, row);
        lemma_row_plan(o, q);
        lemma_names_differ();
        assert(q["content_hash"@] !is Null && q["modified_at"@] !is Null);
        assert(completed_row(q) == q);
    }
    assert(again.engrams =~= u.engrams);
}

/// What a statement that sets the content hash of an engram makes of the rows.
pub open spec fn hash_set(rows: Map<Seq<char>, Cells>, s: StatementView) -> Map<Seq<char>, Cells> {
    match s.params[1] {
        SqlView::Text(id) => if rows.contains_key(id) {
            rows.insert(id, rows[id].insert("content_hash"@, s.params[0]))
        } else {
            rows
        },
        _ => rows,
    }
}

/// What statements that set content hashes make of the rows, one after another.
pub open spec fn hashes_set(rows: Map<Seq<char>, Cells>, list: Seq<StatementView>) -> Map<
    Seq<char>,
    Cells,
>
    decreases list.len(),
{
    if list.len() == 0 {
        rows
    } else {
        hash_set(hashes_set(rows, list.drop_last()), list.last())
    }
}

/// Whether one of the first rows of an answer names an engram.
pub open spec fn names_engram(found: Seq<Seq<SqlView>>, n: int, id: Seq<char>) -> bool {
    exists|i: int| 0 <= i < n && (#[trigger] found[i])[0] == SqlView::Text(id)
}

/// Whether an answer lists the identifiers and the contents of the rows without a content hash.
pub open spec fn lists_unhashed(rows: Map<Seq<char>, Cells>, found: Seq<Seq<SqlView>>) -> bool {
    &&& forall|i: int|
        0 <= i < found.len() ==> {
            let row = #[trigger] found[i];
            &&& row.len() == 2
            &&& row[0] is Text
            &&& rows.contains_key(row[0]->Text_0)
            &&& rows[row[0]->Text_0]["content_hash"@] is Null
            &&& row[1] == rows[row[0]->Text_0]["content"@]
        }
    &&& forall|id: Seq<char>|
        rows.contains_key(id) && (#[trigger] rows[id])["content_hash"@] is Null ==> names_engram(
            found,
            found.len() as int,
            id,
        )
}

proof fn lemma_hashes_set(rows: Map<Seq<char>, Cells>, found: Seq<Seq<SqlView>>, n: int)
    requires
        lists_unhashed(rows, found),
        0 <= n <= found.len(),
    ensures
        ({
            let after = hashes_set(rows, hash_statements(found.take(n)));
            &&& after.dom() == rows.dom()
            &&& forall|id: Seq<char>| #[trigger]
                rows.contains_key(id) ==> after[id] == if names_engram(found, n, id) {
                    hashed(rows[id])
                } else {
                    rows[id]
                }
        }),
    decreases n,
{
    let upto = found.take(n);
    if n == 0 {
        assert(hash_statements(upto) =~= Seq::empty());
    } else {
        lemma_hashes_set(rows, found, n - 1);
        assert(upto.drop_last() =~= found.take(n - 1));
        let row = found[n - 1];
        assert(upto.last() == row);
        let id = row[0]->Text_0;
        let before = hashes_set(rows, hash_statements(found.take(n - 1)));
        let after = hashes_set(rows, hash_statements(upto));
        assert(text_column(row, 0) == Some(id));
        assert(before[id]["content_hash"@] == rows[id]["content_hash"@] || before[id] == hashed(
            rows[id],
        ));
        if let SqlView::Text(content) = row[1] {
            let list = hash_statements(upto);
            assert(list.drop_last() =~= hash_statements(found.take(n - 1)));
            assert(after == hash_set(before, list.last()));
            assert(before[id].insert("content_hash"@, SqlView::Text(hash_of(content))) =~= hashed(
                rows[id],
            ));
        } else {
            assert(after == before);
            assert(hashed(rows[id]) == rows[id]);
        }
        assert(after.dom() =~= rows.dom());
        assert forall|other: Seq<char>| #[trigger] rows.contains_key(other) implies after[other]
            == if names_engram(found, n, other) {
            hashed(rows[other])
        } else {
            rows[other]
        } by {
            if other == id {
                assert(found[n - 1][0] == SqlView::Text(other));
                assert(names_engram(found, n, other));
            } else {
                assert(names_engram(found, n, other) == names_engram(found, n - 1, other)) by {
                    if names_engram(found, n, other) {
                        let i = choose|i: int|
                            0 <= i < n && (#[trigger] found[i])[0] == SqlView::Text(other);
                        assert(i != n - 1);
                        assert(found[i][0] == SqlView::Text(other));
                    }
                }
            }
        }
    }
}

/// The statements that are made of the rows without a content hash give each of them the hash of
/// its content, and change no other row.
pub proof fn law_backfill_hashes_every_row(
    rows: Map<Seq<char>, Cells>,
    found: Seq<Seq<SqlView>>,
)
    requires
        lists_unhashed(rows, found),
    ensures
        hashes_set(rows, hash_statements(found)) == rows.map_values(|row: Cells| hashed(row)),
{
    let n = found.len() as int;
    lemma_hashes_set(rows, found, n);
    assert(found.take(n) =~= found);
    let after = hashes_set(rows, hash_statements(found));
    assert forall|id: Seq<char>| #[trigger] rows.contains_key(id) implies after[id] == hashed(
        rows[id],
    ) by {
        if !names_engram(found, n, id) {
            assert(rows[id]["content_hash"@] !is Null);
        }
    }
    assert(after =~= rows.map_values(|row: Cells| hashed(row)));
}

} // verus!
