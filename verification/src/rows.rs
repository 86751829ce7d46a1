//! Engrams as rows of the database.
use crate::engram::{
    link_views, Engram, EngramLayer, EngramLink, EngramSource, EngramView, LinkType, LinkView,
    PrivacyLevel,
};
use crate::error::{EngramError, ErrorView};
use crate::json::{
    array_text, json_array, read_context, read_tags, stored_context, stored_tags,
};
use crate::sql::{
    flag_value, flag_view, int_at, int_column, opt_text_at, opt_text_column,
    opt_text_value, opt_text_view, real_at, real_column, row_views, text_at, text_column, text_value,
    value_views, Row, SqlValue, SqlView,
};
use crate::tables::Cells;
use crate::text::{join_texts, joined, opt_text, texts};
use crate::time::Timestamp;
use vstd::prelude::*;

verus! {

/// The layer that a stored name stands for; episodic when it names none.
pub open spec fn stored_layer(s: Seq<char>) -> EngramLayer {
    if exists|v: EngramLayer| #[trigger] v.named(s) {
        choose|v: EngramLayer| #[trigger] v.named(s)
    } else {
        EngramLayer::Episodic
    }
}

/// The source that a stored name stands for; interaction when it names none.
pub open spec fn stored_source(s: Seq<char>) -> EngramSource {
    if exists|v: EngramSource| #[trigger] v.named(s) {
        choose|v: EngramSource| #[trigger] v.named(s)
    } else {
        EngramSource::Interaction
    }
}

/// The privacy level that a stored name stands for; the strictest when it names none.
pub open spec fn stored_privacy(s: Seq<char>) -> PrivacyLevel {
    if exists|v: PrivacyLevel| #[trigger] v.named(s) {
        choose|v: PrivacyLevel| #[trigger] v.named(s)
    } else {
        PrivacyLevel::StrictLocal
    }
}

/// The link type that a stored name stands for; associative when it names none.
pub open spec fn stored_link_type(s: Seq<char>) -> LinkType {
    if exists|v: LinkType| #[trigger] v.named(s) {
        choose|v: LinkType| #[trigger] v.named(s)
    } else {
        LinkType::Associative
    }
}

fn read_layer(s: &str) -> (r: EngramLayer)
    ensures
        r == stored_layer(s@),
{
    match EngramLayer::from_str(s) {
        Some(v) => {
            assert(v.named(s@));
            v
        },
        None => EngramLayer::Episodic,
    }
}

fn read_source(s: &str) -> (r: EngramSource)
    ensures
        r == stored_source(s@),
{
    match EngramSource::from_str(s) {
        Some(v) => {
            assert(v.named(s@));
            v
        },
        None => EngramSource::Interaction,
    }
}

fn read_privacy(s: &str) -> (r: PrivacyLevel)
    ensures
        r == stored_privacy(s@),
{
    match PrivacyLevel::from_str(s) {
        Some(v) => {
            assert(v.named(s@));
            v
        },
        None => PrivacyLevel::StrictLocal,
    }
}

fn read_link_type(s: &str) -> (r: LinkType)
    ensures
        r == stored_link_type(s@),
{
    match LinkType::from_str(s) {
        Some(v) => {
            assert(v.named(s@));
            v
        },
        None => LinkType::Associative,
    }
}

/// The point in time that a stored text stands for; `now` when it stands for none.
pub open spec fn stored_time(s: Seq<char>, now: Timestamp) -> Timestamp {
    match Timestamp::parsed(s) {
        Some(t) => t,
        None => now,
    }
}

/// The optional point in time that a stored text stands for.
pub open spec fn stored_opt_time(s: Option<Seq<char>>) -> Option<Timestamp> {
    match s {
        Some(t) => Timestamp::parsed(t),
        None => None,
    }
}

/// When a stored engram was last modified; when it was created if nothing says so.
pub open spec fn stored_modified(
    modified: Option<Seq<char>>,
    created: Seq<char>,
    now: Timestamp,
) -> Timestamp {
    match stored_opt_time(modified) {
        Some(t) => t,
        None => stored_time(created, now),
    }
}

pub fn read_time(s: &str, now: Timestamp) -> (r: Timestamp)
    ensures
        r == stored_time(s@, now),
        now.wf() ==> r.wf(),
{
    match Timestamp::parse(s) {
        Some(t) => t,
        None => now,
    }
}

fn read_opt_time(s: &Option<String>) -> (r: Option<Timestamp>)
    ensures
        r == stored_opt_time(opt_text(*s)),
        r matches Some(t) ==> t.wf(),
{
    match s {
        Some(t) => Timestamp::parse(t.as_str()),
        None => None,
    }
}

fn or_text(s: Option<String>, other: &str) -> (r: String)
    ensures
        r@ == match s {
            Some(t) => t@,
            None => other@,
        },
{
    match s {
        Some(t) => t,
        None => other.to_string(),
    }
}

/// The names of the columns of an engram, in the order in which every query reads them.
pub open spec fn engram_column_names() -> Seq<Seq<char>> {
    seq![
        "id"@,
        "layer"@,
        "source"@,
        "privacy_level"@,
        "content"@,
        "context"@,
        "strength"@,
        "valence"@,
        "retrievals"@,
        "imagined"@,
        "grounded"@,
        "created_at"@,
        "last_retrieved"@,
        "project"@,
        "tags"@,
        "scope"@,
        "content_type"@,
        "occurred_at"@,
        "modified_at"@,
    ]
}

/// The columns of an engram, as they stand in a query.
pub open spec fn engram_columns() -> Seq<char> {
    joined(engram_column_names(), ", "@)
}

/// The names of the columns of an engram.
pub fn column_list() -> (r: Vec<String>)
    ensures
        texts(r@) == engram_column_names(),
{
    let mut v: Vec<String> = Vec::new();
    v.push("id".to_string());
    v.push("layer".to_string());
    v.push("source".to_string());
    v.push("privacy_level".to_string());
    v.push("content".to_string());
    v.push("context".to_string());
    v.push("strength".to_string());
    v.push("valence".to_string());
    v.push("retrievals".to_string());
    v.push("imagined".to_string());
    v.push("grounded".to_string());
    v.push("created_at".to_string());
    v.push("last_retrieved".to_string());
    v.push("project".to_string());
    v.push("tags".to_string());
    v.push("scope".to_string());
    v.push("content_type".to_string());
    v.push("occurred_at".to_string());
    v.push("modified_at".to_string());
    assert(texts(v@) =~= engram_column_names());
    v
}

/// The columns of an engram, as they stand in a query.
pub fn columns_text() -> (r: String)
    ensures
        r@ == engram_columns(),
{
    join_texts(&column_list(), ", ")
}

/// The columns that an engram is stored in: those that are read, and the hash of its content.
pub open spec fn stored_columns() -> Seq<Seq<char>> {
    engram_column_names().push("content_hash"@)
}

/// The place of a column among those that an engram is stored in, told from its name.
pub open spec fn place_of(name: Seq<char>) -> int {
    if name.len() == 2 {
        0
    } else if name.len() == 4 {
        14
    } else if name.len() == 5 {
        if name[0] == 'l' {
            1
        } else {
            15
        }
    } else if name.len() == 6 {
        2
    } else if name.len() == 7 {
        if name[0] == 'v' {
            7
        } else if name[0] == 'p' {
            13
        } else if name[5] == 'n' {
            4
        } else {
            5
        }
    } else if name.len() == 8 {
        if name[0] == 's' {
            6
        } else if name[0] == 'i' {
            9
        } else {
            10
        }
    } else if name.len() == 10 {
        if name[0] == 'r' {
            8
        } else {
            11
        }
    } else if name.len() == 11 {
        if name[0] == 'o' {
            17
        } else {
            18
        }
    } else if name.len() == 12 {
        if name[8] == 't' {
            16
        } else {
            19
        }
    } else if name.len() == 13 {
        3
    } else {
        12
    }
}

/// The columns that an engram is stored in all differ, and neither the push cursor nor the agent is
/// among them.
pub proof fn lemma_stored_columns_differ()
    ensures
        stored_columns().len() == 20,
        forall|i: int|
            #![trigger stored_columns()[i]]
            0 <= i < 20 ==> place_of(stored_columns()[i]) == i && stored_columns()[i]
                != "synced_at"@ && stored_columns()[i] != "agent_id"@,
        "synced_at"@ != "agent_id"@,
{
    reveal_strlit("id");
    reveal_strlit("layer");
    reveal_strlit("source");
    reveal_strlit("privacy_level");
    reveal_strlit("content");
    reveal_strlit("context");
    reveal_strlit("strength");
    reveal_strlit("valence");
    reveal_strlit("retrievals");
    reveal_strlit("imagined");
    reveal_strlit("grounded");
    reveal_strlit("created_at");
    reveal_strlit("last_retrieved");
    reveal_strlit("project");
    reveal_strlit("tags");
    reveal_strlit("scope");
    reveal_strlit("content_type");
    reveal_strlit("occurred_at");
    reveal_strlit("modified_at");
    reveal_strlit("content_hash");
    reveal_strlit("synced_at");
    reveal_strlit("agent_id");
    assert("synced_at"@.len() == 9);
    assert("agent_id"@.len() == 8 && "agent_id"@[0] == 'a');
    let names = stored_columns();
    assert forall|i: int| #![trigger names[i]] 0 <= i < 20 implies place_of(names[i]) == i
        && names[i].len() != 9 && (names[i].len() == 8 ==> names[i][0] != 'a') by {}
}

/// What a query for the columns of an engram reads of a row.
pub open spec fn selected(row: Cells) -> Seq<SqlView> {
    engram_column_names().map_values(|name: Seq<char>| row[name])
}

/// Whether a row holds an engram: texts, numbers and flags where they belong.
pub open spec fn engram_row(row: Seq<SqlView>) -> bool {
    &&& text_column(row, 0) is Some
    &&& text_column(row, 1) is Some
    &&& text_column(row, 2) is Some
    &&& text_column(row, 3) is Some
    &&& text_column(row, 4) is Some
    &&& text_column(row, 5) is Some
    &&& real_column(row, 6) is Some
    &&& real_column(row, 7) is Some
    &&& int_column(row, 8) is Some
    &&& int_column(row, 9) is Some
    &&& int_column(row, 10) is Some
    &&& text_column(row, 11) is Some
    &&& opt_text_column(row, 12) is Ok
    &&& opt_text_column(row, 13) is Ok
    &&& text_column(row, 14) is Some
}

/// The engram that a row holds, without its links. Names that are not known stand for defaults; a
/// point in time that cannot be read is `now`, or for the last change the creation; a scope, a
/// content type or an event time that is missing is the default.
pub open spec fn engram_in(row: Seq<SqlView>, now: Timestamp) -> EngramView {
    EngramView {
        id: text_column(row, 0)->0,
        layer: stored_layer(text_column(row, 1)->0),
        source: stored_source(text_column(row, 2)->0),
        privacy_level: stored_privacy(text_column(row, 3)->0),
        content: text_column(row, 4)->0,
        context: stored_context(text_column(row, 5)->0),
        links: Seq::empty(),
        strength: real_column(row, 6)->0,
        valence: real_column(row, 7)->0,
        retrievals: int_column(row, 8)->0,
        imagined: int_column(row, 9)->0 != 0,
        grounded: int_column(row, 10)->0 != 0,
        created_at: stored_time(text_column(row, 11)->0, now),
        modified_at: stored_modified(text_column(row, 18), text_column(row, 11)->0, now),
        last_retrieved: stored_opt_time(opt_text_column(row, 12)->Ok_0),
        project: opt_text_column(row, 13)->Ok_0,
        tags: stored_tags(text_column(row, 14)->0),
        scope: match text_column(row, 15) {
            Some(s) => s,
            None => "moment"@,
        },
        content_type: match text_column(row, 16) {
            Some(s) => s,
            None => "text"@,
        },
        occurred_at: stored_opt_time(text_column(row, 17)),
    }
}

/// Reads an engram from a row, without its links.
pub fn row_to_engram(row: &Row, now: Timestamp) -> (r: Result<Engram, EngramError>)
    ensures
        match r {
            Ok(e) => engram_row(value_views(row@)) && e@ == engram_in(value_views(row@), now),
            Err(e) => !engram_row(value_views(row@)) && e@ == ErrorView::Database(
                "row is no engram"@,
            ),
        },
        now.wf() && r is Ok ==> r->Ok_0@.wf(),
{
    match read_row(row, now) {
        Some(e) => Ok(e),
        None => Err(EngramError::Database("row is no engram".to_string())),
    }
}

fn read_row(row: &Row, now: Timestamp) -> (r: Option<Engram>)
    ensures
        match r {
            Some(e) => engram_row(value_views(row@)) && e@ == engram_in(value_views(row@), now),
            None => !engram_row(value_views(row@)),
        },
        now.wf() && r is Some ==> r->0@.wf(),
{
    let id = text_at(row, 0)?;
    let layer = text_at(row, 1)?;
    let source = text_at(row, 2)?;
    let privacy = text_at(row, 3)?;
    let content = text_at(row, 4)?;
    let context = text_at(row, 5)?;
    let strength = real_at(row, 6)?;
    let valence = real_at(row, 7)?;
    let retrievals: i32 = int_at(row, 8)?;
    let imagined: i32 = int_at(row, 9)?;
    let grounded: i32 = int_at(row, 10)?;
    let created = text_at(row, 11)?;
    let retrieved = match opt_text_at(row, 12) {
        Ok(s) => s,
        Err(_) => {
            return None;
        },
    };
    let project = match opt_text_at(row, 13) {
        Ok(s) => s,
        Err(_) => {
            return None;
        },
    };
    let tags = text_at(row, 14)?;
    let scope = text_at(row, 15);
    let content_type = text_at(row, 16);
    let occurred = text_at(row, 17);
    let modified = text_at(row, 18);
    let created_at = read_time(created.as_str(), now);
    let modified_at = match read_opt_time(&modified) {
        Some(t) => t,
        None => created_at,
    };
    let e = Engram {
        id,
        layer: read_layer(layer.as_str()),
        source: read_source(source.as_str()),
        privacy_level: read_privacy(privacy.as_str()),
        content,
        context: read_context(context.as_str()),
        links: Vec::new(),
        strength,
        valence,
        retrievals,
        imagined: imagined != 0,
        grounded: grounded != 0,
        created_at,
        modified_at,
        last_retrieved: read_opt_time(&retrieved),
        project,
        tags: read_tags(tags.as_str()),
        scope: or_text(scope, "moment"),
        content_type: or_text(content_type, "text"),
        occurred_at: read_opt_time(&occurred),
    };
    assert(link_views(e.links@) =~= Seq::empty());
    Some(e)
}

/// An optional point in time as a text; null where there is none.
pub open spec fn opt_time_view(t: Option<Timestamp>) -> SqlView {
    match t {
        Some(t) => SqlView::Text(t.text()),
        None => SqlView::Null,
    }
}

/// The values that an engram is stored with: its columns in the order in which they are read, and
/// the hash of its content behind them.
pub open spec fn engram_values(e: EngramView, hash: Seq<char>) -> Seq<SqlView> {
    seq![
        SqlView::Text(e.id),
        SqlView::Text(e.layer.name()),
        SqlView::Text(e.source.name()),
        SqlView::Text(e.privacy_level.name()),
        SqlView::Text(e.content),
        SqlView::Text(e.context),
        SqlView::Real(e.strength),
        SqlView::Real(e.valence),
        SqlView::Integer(e.retrievals as i64),
        flag_view(e.imagined),
        flag_view(e.grounded),
        SqlView::Text(e.created_at.text()),
        opt_time_view(e.last_retrieved),
        opt_text_view(e.project),
        SqlView::Text(json_array(e.tags)),
        SqlView::Text(e.scope),
        SqlView::Text(e.content_type),
        opt_time_view(e.occurred_at),
        SqlView::Text(e.modified_at.text()),
        SqlView::Text(hash),
    ]
}

/// Whether all points in time of an engram lie in the years 0 to 9999, outside leap seconds.
pub open spec fn four_digit_years(e: EngramView) -> bool {
    &&& e.created_at.four_digit_year()
    &&& e.modified_at.four_digit_year()
    &&& e.last_retrieved matches Some(t) ==> t.four_digit_year()
    &&& e.occurred_at matches Some(t) ==> t.four_digit_year()
}

/// An engram as a read gives it back: without links, which are stored apart, and with its context
/// in compact form.
pub open spec fn as_stored(e: EngramView) -> EngramView {
    EngramView { links: Seq::empty(), context: stored_context(e.context), ..e }
}

fn opt_time_value(t: Option<Timestamp>) -> (r: SqlValue)
    requires
        t matches Some(p) ==> p.wf(),
    ensures
        r@ == opt_time_view(t),
        t matches Some(p) ==> p.four_digit_year() ==> Timestamp::parsed(p.text()) == t,
{
    match t {
        Some(p) => SqlValue::Text(p.to_rfc3339()),
        None => SqlValue::Null,
    }
}

fn time_value(t: Timestamp) -> (r: SqlValue)
    requires
        t.wf(),
    ensures
        r@ == SqlView::Text(t.text()),
        t.four_digit_year() ==> Timestamp::parsed(t.text()) == Some(t),
{
    SqlValue::Text(t.to_rfc3339())
}

proof fn lemma_names_are_stored(e: EngramView)
    ensures
        stored_layer(e.layer.name()) == e.layer,
        stored_source(e.source.name()) == e.source,
        stored_privacy(e.privacy_level.name()) == e.privacy_level,
{
    assert(e.layer.named(e.layer.name()));
    assert(e.source.named(e.source.name()));
    assert(e.privacy_level.named(e.privacy_level.name()));
    EngramLayer::law_names_are_unambiguous(
        e.layer,
        stored_layer(e.layer.name()),
        e.layer.name(),
    );
    EngramSource::law_names_are_unambiguous(
        e.source,
        stored_source(e.source.name()),
        e.source.name(),
    );
    PrivacyLevel::law_names_are_unambiguous(
        e.privacy_level,
        stored_privacy(e.privacy_level.name()),
        e.privacy_level.name(),
    );
}

/// The values that an engram is stored with. Read back as a row, they are the engram again.
pub fn engram_params(e: &Engram, hash: &str) -> (r: Vec<SqlValue>)
    requires
        e@.wf(),
    ensures
        value_views(r@) == engram_values(e@, hash@),
        forall|now: Timestamp|
            four_digit_years(e@) ==> engram_row(value_views(r@).take(19)) && #[trigger] engram_in(
                value_views(r@).take(19),
                now,
            ) == as_stored(e@),
{
    let mut v: Vec<SqlValue> = Vec::new();
    v.push(text_value(e.id.as_str()));
    v.push(text_value(e.layer.as_str()));
    v.push(text_value(e.source.as_str()));
    v.push(text_value(e.privacy_level.as_str()));
    v.push(text_value(e.content.as_str()));
    v.push(text_value(e.context.as_str()));
    v.push(SqlValue::Real(e.strength));
    v.push(SqlValue::Real(e.valence));
    v.push(SqlValue::Integer(e.retrievals as i64));
    v.push(flag_value(e.imagined));
    v.push(flag_value(e.grounded));
    v.push(time_value(e.created_at));
    v.push(opt_time_value(e.last_retrieved));
    v.push(opt_text_value(&e.project));
    v.push(SqlValue::Text(array_text(&e.tags)));
    v.push(text_value(e.scope.as_str()));
    v.push(text_value(e.content_type.as_str()));
    v.push(opt_time_value(e.occurred_at));
    v.push(time_value(e.modified_at));
    v.push(text_value(hash));
    proof {
        assert(value_views(v@) =~= engram_values(e@, hash@));
        lemma_names_are_stored(e@);
        assert forall|now: Timestamp| four_digit_years(e@) implies engram_row(
            value_views(v@).take(19),
        ) && #[trigger] engram_in(value_views(v@).take(19), now) == as_stored(e@) by {
            let row = value_views(v@).take(19);
            assert(row.len() == 19);
            let got = engram_in(row, now);
            assert(got.tags == e@.tags);
            assert(got.created_at == e@.created_at);
            assert(got.modified_at == e@.modified_at);
            assert(got.last_retrieved == e@.last_retrieved);
            assert(got.occurred_at == e@.occurred_at);
            assert(got =~= as_stored(e@));
        }
    }
    v
}

/// The link that a row of a link query holds: target, weight and type, from a column on.
pub open spec fn link_in(row: Seq<SqlView>, at: int) -> LinkView {
    LinkView {
        target_id: text_column(row, at)->0,
        weight: real_column(row, at + 1)->0,
        link_type: stored_link_type(text_column(row, at + 2)->0),
    }
}

/// Whether a row of a link query holds a link from a column on.
pub open spec fn link_row(row: Seq<SqlView>, at: int) -> bool {
    &&& text_column(row, at) is Some
    &&& real_column(row, at + 1) is Some
    &&& text_column(row, at + 2) is Some
}

fn read_link(row: &Row, at: usize) -> (r: Option<EngramLink>)
    requires
        at <= 1,
    ensures
        match r {
            Some(l) => link_row(value_views(row@), at as int) && l@ == link_in(
                value_views(row@),
                at as int,
            ),
            None => !link_row(value_views(row@), at as int),
        },
{
    let target_id = text_at(row, at)?;
    let weight = real_at(row, at + 1)?;
    let name = text_at(row, at + 2)?;
    Some(EngramLink { target_id, weight, link_type: read_link_type(name.as_str()) })
}

/// The links that the rows of a link query hold.
pub open spec fn links_in(rows: Seq<Seq<SqlView>>, at: int) -> Seq<LinkView> {
    rows.map_values(|row: Seq<SqlView>| link_in(row, at))
}

/// Reads the outgoing links of one engram from rows of target, weight and type. One row that
/// holds no link spoils the read.
pub fn rows_to_links(rows: &Vec<Row>) -> (r: Result<Vec<EngramLink>, EngramError>)
    ensures
        match r {
            Ok(links) => {
                &&& forall|i: int| 0 <= i < rows@.len() ==> link_row(#[trigger] row_views(rows@)[i], 0)
                &&& link_views(links@) == links_in(row_views(rows@), 0)
            },
            Err(e) => {
                &&& e@ == ErrorView::Database("row is no link"@)
                &&& exists|i: int|
                    0 <= i < rows@.len() && !link_row(#[trigger] row_views(rows@)[i], 0)
            },
        },
{
    let mut out: Vec<EngramLink> = Vec::new();
    let mut i: usize = 0;
    while i < rows.len()
        invariant
            i <= rows@.len(),
            out@.len() == i,
            forall|j: int| 0 <= j < i ==> link_row(#[trigger] row_views(rows@)[j], 0),
            forall|j: int| 0 <= j < i ==> (#[trigger] out@[j])@ == link_in(row_views(rows@)[j], 0),
        decreases rows@.len() - i,
    {
        proof {
            assert(row_views(rows@)[i as int] == value_views(rows@[i as int]@));
        }
        match read_link(&rows[i], 0) {
            Some(l) => {
                out.push(l);
            },
            None => {
                return Err(EngramError::Database("row is no link".to_string()));
            },
        }
        i += 1;
    }
    proof {
        assert(link_views(out@) =~= links_in(row_views(rows@), 0));
    }
    Ok(out)
}

/// The links of one source among rows of source, target, weight and type, in their order.
pub open spec fn links_from(rows: Seq<Seq<SqlView>>, source: Seq<char>) -> Seq<LinkView>
    decreases rows.len(),
{
    if rows.len() == 0 {
        Seq::empty()
    } else {
        let before = links_from(rows.drop_last(), source);
        if text_column(rows.last(), 0) == Some(source) {
            before.push(link_in(rows.last(), 1))
        } else {
            before
        }
    }
}

/// The query for all links, the heaviest first.
pub const ALL_LINKS: &'static str = "SELECT source_id, target_id, weight, link_type FROM engram_links ORDER BY weight DESC";

/// Whether all rows of a link query name a source and hold a link behind it.
pub open spec fn all_link_rows(rows: Seq<Seq<SqlView>>) -> bool {
    forall|i: int|
        0 <= i < rows.len() ==> text_column(#[trigger] rows[i], 0) is Some && link_row(rows[i], 1)
}

fn pick_links(rows: &Vec<Row>, source: &str) -> (r: Vec<EngramLink>)
    requires
        all_link_rows(row_views(rows@)),
    ensures
        link_views(r@) == links_from(row_views(rows@), source@),
{
    let mut out: Vec<EngramLink> = Vec::new();
    let ghost all = row_views(rows@);
    let mut i: usize = 0;
    proof {
        assert(link_views(out@) =~= Seq::empty());
    }
    while i < rows.len()
        invariant
            i <= rows@.len(),
            all == row_views(rows@),
            all_link_rows(all),
            link_views(out@) == links_from(all.take(i as int), source@),
        decreases rows@.len() - i,
    {
        proof {
            let upto = all.take(i + 1);
            assert(upto.drop_last() =~= all.take(i as int));
            assert(upto.last() == value_views(rows@[i as int]@));
            assert(all[i as int] == value_views(rows@[i as int]@));
        }
        if let Some(s) = text_at(&rows[i], 0) {
            if crate::text::text_eq(s.as_str(), source) {
                if let Some(l) = read_link(&rows[i], 1) {
                    proof {
                        assert(link_views(out@.push(l)) =~= link_views(out@).push(l@));
                    }
                    out.push(l);
                }
            }
        }
        i += 1;
    }
    proof {
        assert(all.take(all.len() as int) =~= all);
    }
    out
}

/// What a list of engrams says.
pub open spec fn engram_views(v: Seq<Engram>) -> Seq<EngramView> {
    v.map_values(|e: Engram| e@)
}

/// Engrams with their links filled in from the rows of a link query.
pub open spec fn enriched(
    engrams: Seq<EngramView>,
    rows: Seq<Seq<SqlView>>,
) -> Seq<EngramView> {
    engrams.map_values(|e: EngramView| EngramView { links: links_from(rows, e.id), ..e })
}

fn check_link_rows(rows: &Vec<Row>) -> (r: bool)
    ensures
        r == all_link_rows(row_views(rows@)),
{
    let mut i: usize = 0;
    while i < rows.len()
        invariant
            i <= rows@.len(),
            forall|j: int|
                0 <= j < i ==> text_column(#[trigger] row_views(rows@)[j], 0) is Some && link_row(
                    row_views(rows@)[j],
                    1,
                ),
        decreases rows@.len() - i,
    {
        proof {
            assert(row_views(rows@)[i as int] == value_views(rows@[i as int]@));
        }
        if text_at(&rows[i], 0).is_none() || read_link(&rows[i], 1).is_none() {
            return false;
        }
        i += 1;
    }
    true
}

/// Fills in the links of engrams from rows of source, target, weight and type. One row that holds
/// no link spoils the read.
pub fn enrich_links_batch(engrams: Vec<Engram>, rows: &Vec<Row>) -> (r: Result<
    Vec<Engram>,
    EngramError,
>)
    ensures
        match r {
            Ok(v) => {
                &&& engrams@.len() > 0 ==> all_link_rows(row_views(rows@))
                &&& engram_views(v@) == enriched(engram_views(engrams@), row_views(rows@))
            },
            Err(e) => {
                &&& engrams@.len() > 0
                &&& !all_link_rows(row_views(rows@))
                &&& e@ == ErrorView::Database("row is no link"@)
            },
        },
{
    if engrams.len() == 0 {
        proof {
            assert(engram_views(engrams@) =~= enriched(engram_views(engrams@), row_views(rows@)));
        }
        return Ok(engrams);
    }
    if !check_link_rows(rows) {
        return Err(EngramError::Database("row is no link".to_string()));
    }
    let mut out: Vec<Engram> = Vec::new();
    let mut i: usize = 0;
    while i < engrams.len()
        invariant
            i <= engrams@.len(),
            out@.len() == i,
            all_link_rows(row_views(rows@)),
            forall|j: int|
                0 <= j < i ==> (#[trigger] out@[j])@ == (EngramView {
                    links: links_from(row_views(rows@), engrams@[j]@.id),
                    ..engrams@[j]@
                }),
        decreases engrams@.len() - i,
    {
        let mut e = engrams[i].clone();
        e.links = pick_links(rows, e.id.as_str());
        out.push(e);
        i += 1;
    }
    proof {
        assert(engram_views(out@) =~= enriched(engram_views(engrams@), row_views(rows@)));
    }
    Ok(out)
}

/// Whether all rows hold engrams.
pub open spec fn all_engram_rows(rows: Seq<Seq<SqlView>>) -> bool {
    forall|i: int| 0 <= i < rows.len() ==> engram_row(#[trigger] rows[i])
}

/// The engrams that rows hold.
pub open spec fn engrams_in(rows: Seq<Seq<SqlView>>, now: Timestamp) -> Seq<EngramView> {
    rows.map_values(|row: Seq<SqlView>| engram_in(row, now))
}

/// Reads engrams from rows, without their links. One row that holds none spoils the read.
pub fn rows_to_engrams(rows: &Vec<Row>, now: Timestamp) -> (r: Result<Vec<Engram>, EngramError>)
    ensures
        match r {
            Ok(v) => {
                &&& all_engram_rows(row_views(rows@))
                &&& engram_views(v@) == engrams_in(row_views(rows@), now)
                &&& now.wf() ==> forall|i: int| 0 <= i < v@.len() ==> (#[trigger] v@[i])@.wf()
            },
            Err(e) => !all_engram_rows(row_views(rows@)) && e@ == ErrorView::Database(
                "row is no engram"@,
            ),
        },
{
    let mut out: Vec<Engram> = Vec::new();
    let mut i: usize = 0;
    while i < rows.len()
        invariant
            i <= rows@.len(),
            out@.len() == i,
            forall|j: int| 0 <= j < i ==> engram_row(#[trigger] row_views(rows@)[j]),
            forall|j: int|
                0 <= j < i ==> (#[trigger] out@[j])@ == engram_in(row_views(rows@)[j], now),
            now.wf() ==> forall|j: int| 0 <= j < i ==> (#[trigger] out@[j])@.wf(),
        decreases rows@.len() - i,
    {
        proof {
            assert(row_views(rows@)[i as int] == value_views(rows@[i as int]@));
        }
        let e = row_to_engram(&rows[i], now)?;
        out.push(e);
        i += 1;
    }
    proof {
        assert(engram_views(out@) =~= engrams_in(row_views(rows@), now));
    }
    Ok(out)
}

/// The columns that an engram is read from and stored in, in their order.
pub proof fn law_columns_read()
    ensures
        engram_column_names() == seq![
            "id"@,
            "layer"@,
            "source"@,
            "privacy_level"@,
            "content"@,
            "context"@,
            "strength"@,
            "valence"@,
            "retrievals"@,
            "imagined"@,
            "grounded"@,
            "created_at"@,
            "last_retrieved"@,
            "project"@,
            "tags"@,
            "scope"@,
            "content_type"@,
            "occurred_at"@,
            "modified_at"@,
        ],
        stored_columns() == engram_column_names().push("content_hash"@),
        engram_columns() == joined(engram_column_names(), ", "@),
{
}

/// An engram is stored value by value: each of its fields in the column of that name.
pub proof fn law_engram_is_stored_by_column(e: EngramView, hash: Seq<char>)
    ensures
        ({
            let v = engram_values(e, hash);
            &&& v.len() == 20
            &&& stored_columns()[0] == "id"@ && v[0] == SqlView::Text(e.id)
            &&& stored_columns()[1] == "layer"@ && v[1] == SqlView::Text(e.layer.name())
            &&& stored_columns()[2] == "source"@ && v[2] == SqlView::Text(e.source.name())
            &&& stored_columns()[3] == "privacy_level"@ && v[3] == SqlView::Text(
                e.privacy_level.name(),
            )
            &&& stored_columns()[4] == "content"@ && v[4] == SqlView::Text(e.content)
            &&& stored_columns()[5] == "context"@ && v[5] == SqlView::Text(e.context)
            &&& stored_columns()[6] == "strength"@ && v[6] == SqlView::Real(e.strength)
            &&& stored_columns()[7] == "valence"@ && v[7] == SqlView::Real(e.valence)
            &&& stored_columns()[8] == "retrievals"@ && v[8] == SqlView::Integer(
                e.retrievals as i64,
            )
            &&& stored_columns()[9] == "imagined"@ && v[9] == SqlView::Integer(
                if e.imagined {
                    1
                } else {
                    0
                },
            )
            &&& stored_columns()[10] == "grounded"@ && v[10] == SqlView::Integer(
                if e.grounded {
                    1
                } else {
                    0
                },
            )
            &&& stored_columns()[11] == "created_at"@ && v[11] == SqlView::Text(
                e.created_at.text(),
            )
            &&& stored_columns()[12] == "last_retrieved"@ && v[12]
                == if e.last_retrieved is Some {
                SqlView::Text(e.last_retrieved->0.text())
            } else {
                SqlView::Null
            }
            &&& stored_columns()[13] == "project"@ && v[13] == if e.project is Some {
                SqlView::Text(e.project->0)
            } else {
                SqlView::Null
            }
            &&& stored_columns()[14] == "tags"@ && v[14] == SqlView::Text(json_array(e.tags))
            &&& stored_columns()[15] == "scope"@ && v[15] == SqlView::Text(e.scope)
            &&& stored_columns()[16] == "content_type"@ && v[16] == SqlView::Text(e.content_type)
            &&& stored_columns()[17] == "occurred_at"@ && v[17] == if e.occurred_at is Some {
                SqlView::Text(e.occurred_at->0.text())
            } else {
                SqlView::Null
            }
            &&& stored_columns()[18] == "modified_at"@ && v[18] == SqlView::Text(
                e.modified_at.text(),
            )
            &&& stored_columns()[19] == "content_hash"@ && v[19] == SqlView::Text(hash)
        }),
{
}

/// An engram is read value by value, each of its fields from the column of that name; a time of
/// modification that cannot be read is that of the creation.
pub proof fn law_engram_is_read_by_column(row: Seq<SqlView>, now: Timestamp)
    requires
        engram_row(row),
        row.len() >= 19,
    ensures
        ({
            let e = engram_in(row, now);
            &&& row[0] == SqlView::Text(e.id)
            &&& e.layer == stored_layer(row[1]->Text_0)
            &&& e.source == stored_source(row[2]->Text_0)
            &&& e.privacy_level == stored_privacy(row[3]->Text_0)
            &&& e.context == stored_context(row[5]->Text_0)
            &&& row[4] == SqlView::Text(e.content)
            &&& row[6] == SqlView::Real(e.strength)
            &&& row[7] == SqlView::Real(e.valence)
            &&& row[8] == SqlView::Integer(e.retrievals as i64)
            &&& e.imagined <==> row[9] != SqlView::Integer(0)
            &&& e.grounded <==> row[10] != SqlView::Integer(0)
            &&& e.created_at == if Timestamp::parsed(row[11]->Text_0) is Some {
                Timestamp::parsed(row[11]->Text_0)->0
            } else {
                now
            }
            &&& row[12] is Null ==> e.last_retrieved is None
            &&& row[12] is Text ==> e.last_retrieved == Timestamp::parsed(row[12]->Text_0)
            &&& row[13] is Null ==> e.project is None
            &&& row[13] is Text ==> e.project == Some(row[13]->Text_0)
            &&& e.tags == stored_tags(row[14]->Text_0)
            &&& row[15] is Text ==> row[15] == SqlView::Text(e.scope)
            &&& row[15] !is Text ==> e.scope == "moment"@
            &&& row[16] is Text ==> row[16] == SqlView::Text(e.content_type)
            &&& row[16] !is Text ==> e.content_type == "text"@
            &&& row[17] is Text ==> e.occurred_at == Timestamp::parsed(row[17]->Text_0)
            &&& row[17] !is Text ==> e.occurred_at is None
            &&& row[18] is Text && Timestamp::parsed(row[18]->Text_0) is Some ==> e.modified_at
                == Timestamp::parsed(row[18]->Text_0)->0
            &&& !(row[18] is Text && Timestamp::parsed(row[18]->Text_0) is Some)
                ==> e.modified_at == e.created_at
            &&& e.links.len() == 0
        }),
{
}

/// What is stored by its name is read back by it, and a name that stands for nothing is read as an
/// episode, an interaction, strictly local, and an association.
pub proof fn law_names_are_read_back(
    l: EngramLayer,
    s: EngramSource,
    p: PrivacyLevel,
    k: LinkType,
    name: Seq<char>,
)
    ensures
        stored_layer(l.name()) == l,
        stored_source(s.name()) == s,
        stored_privacy(p.name()) == p,
        stored_link_type(k.name()) == k,
        (forall|v: EngramLayer| !#[trigger] v.named(name)) ==> stored_layer(name) is Episodic,
        (forall|v: EngramSource| !#[trigger] v.named(name)) ==> stored_source(name) is Interaction,
        (forall|v: PrivacyLevel| !#[trigger] v.named(name)) ==> stored_privacy(
            name,
        ) is StrictLocal,
        (forall|v: LinkType| !#[trigger] v.named(name)) ==> stored_link_type(
            name,
        ) is Associative,
{
    assert(l.named(l.name()));
    assert(s.named(s.name()));
    assert(p.named(p.name()));
    assert(k.named(k.name()));
    EngramLayer::law_names_are_unambiguous(l, stored_layer(l.name()), l.name());
    EngramSource::law_names_are_unambiguous(s, stored_source(s.name()), s.name());
    PrivacyLevel::law_names_are_unambiguous(p, stored_privacy(p.name()), p.name());
    LinkType::law_names_are_unambiguous(k, stored_link_type(k.name()), k.name());
}

/// An engram gets all of its own links, in the order of the rows, and those of no other engram.
pub proof fn law_engrams_get_their_own_links(rows: Seq<Seq<SqlView>>, source: Seq<char>)
    ensures
        links_from(rows, source) == rows.filter(
            |row: Seq<SqlView>| row.len() > 0 && row[0] == SqlView::Text(source),
        ).map_values(|row: Seq<SqlView>| link_in(row, 1)),
    decreases rows.len(),
{
    reveal(Seq::filter);
    let own = |row: Seq<SqlView>| row.len() > 0 && row[0] == SqlView::Text(source);
    let link = |row: Seq<SqlView>| link_in(row, 1);
    if rows.len() == 0 {
        assert(links_from(rows, source) =~= rows.filter(own).map_values(link));
    } else {
        law_engrams_get_their_own_links(rows.drop_last(), source);
        let before = rows.drop_last().filter(own);
        if own(rows.last()) {
            assert(rows.filter(own).map_values(link) =~= before.map_values(link).push(
                link(rows.last()),
            ));
        }
    }
}

/// A link is read as it is stored: its target, its weight and its type stand side by side.
pub proof fn law_link_is_read_by_column(row: Seq<SqlView>, at: int)
    requires
        0 <= at,
        link_row(row, at),
    ensures
        at + 2 < row.len(),
        row[at] == SqlView::Text(link_in(row, at).target_id),
        row[at + 1] == SqlView::Real(link_in(row, at).weight),
        link_in(row, at).link_type == stored_link_type(row[at + 2]->Text_0),
{
}

/// Engrams keep everything but their links when these are looked up, and their order.
pub proof fn law_looking_up_links_changes_nothing_else(
    engrams: Seq<EngramView>,
    rows: Seq<Seq<SqlView>>,
    i: int,
)
    requires
        0 <= i < engrams.len(),
    ensures
        enriched(engrams, rows).len() == engrams.len(),
        enriched(engrams, rows)[i] == (EngramView {
            links: links_from(rows, engrams[i].id),
            ..engrams[i]
        }),
{
}

/// A row holds an engram exactly if each of its columns holds what the table declares there.
pub proof fn law_rows_hold_engrams(row: Seq<SqlView>)
    ensures
        engram_row(row) <==> {
            let small = |v: SqlView| v is Integer && i32::MIN <= v->Integer_0 <= i32::MAX;
            &&& row.len() >= 15
            &&& row[0] is Text && row[1] is Text && row[2] is Text && row[3] is Text
            &&& row[4] is Text && row[5] is Text
            &&& row[6] is Real && row[7] is Real
            &&& small(row[8]) && small(row[9]) && small(row[10])
            &&& row[11] is Text
            &&& row[12] is Text || row[12] is Null
            &&& row[13] is Text || row[13] is Null
            &&& row[14] is Text
        },
        forall|at: int|
            0 <= at ==> (#[trigger] link_row(row, at) <==> at + 2 < row.len() && row[at] is Text
                && row[at + 1] is Real && row[at + 2] is Text),
{
}

/// Links are read for many engrams at a time, the strongest first.
pub proof fn law_links_are_asked_for_by_weight()
    ensures
        ALL_LINKS@
            == "SELECT source_id, target_id, weight, link_type FROM engram_links ORDER BY weight DESC"@,
{
}

/// Every row of links is read, in the order of the rows.
pub proof fn law_every_link_is_read(rows: Seq<Seq<SqlView>>, at: int)
    ensures
        links_in(rows, at).len() == rows.len(),
        forall|i: int|
            0 <= i < rows.len() ==> #[trigger] links_in(rows, at)[i] == link_in(rows[i], at),
{
}

/// Rows are read as engrams if each of them holds one, and every one is read, in the order of the
/// rows; links are read if each row holds the engram that it belongs to and a link behind it.
pub proof fn law_every_engram_is_read(rows: Seq<Seq<SqlView>>, list: Seq<Engram>, now: Timestamp)
    ensures
        all_engram_rows(rows) <==> forall|i: int|
            0 <= i < rows.len() ==> engram_row(#[trigger] rows[i]),
        engrams_in(rows, now).len() == rows.len(),
        forall|i: int|
            0 <= i < rows.len() ==> #[trigger] engrams_in(rows, now)[i] == engram_in(rows[i], now),
        engram_views(list).len() == list.len(),
        forall|i: int| 0 <= i < list.len() ==> #[trigger] engram_views(list)[i] == list[i]@,
        all_link_rows(rows) <==> forall|i: int|
            0 <= i < rows.len() ==> (#[trigger] rows[i]).len() >= 4 && rows[i][0] is Text
                && rows[i][1] is Text && rows[i][2] is Real && rows[i][3] is Text,
{
    if all_link_rows(rows) {
        assert forall|i: int| 0 <= i < rows.len() implies (#[trigger] rows[i]).len() >= 4
            && rows[i][0] is Text && rows[i][1] is Text && rows[i][2] is Real
            && rows[i][3] is Text by {
            assert(link_row(rows[i], 1));
        }
    }
}

} // verus!
