//! Finding memories by layer, by content, by tags and by age.
use crate::engram::EngramLayer;
use crate::rows::{columns_text, engram_column_names, engram_columns};
use crate::sql::{
    lemma_values_push, limit_value, limit_view, text_value, value_views, with1, with2, SqlValue,
    SqlView, Statement, StatementView,
};
use crate::tables::{append_sql, appended, law_conditions_read, meets, quarantined_row, Cells, Condition};
use crate::text::{
    alphanumeric, chars_of, concat, concat3, decimal, decimal_text, is_alphanumeric, join,
    join_texts, joined, string_of, texts, views,
};
use vstd::prelude::*;

verus! {

/// Which engrams a query is about. An engram is quarantined if it is imagined and not grounded.
#[derive(Debug, Clone, Copy, PartialEq, Eq, Structural)]
pub enum QuarantineFilter {
    /// All engrams.
    All,
    /// Those that are not quarantined.
    LiveOnly,
    /// Those that are.
    QuarantinedOnly,
}

impl Default for QuarantineFilter {
    fn default() -> (r: Self)
        ensures
            r == QuarantineFilter::All,
    {
        QuarantineFilter::All
    }
}

impl QuarantineFilter {
    /// The conditions that the filter adds.
    pub open spec fn conditions(self) -> Seq<Condition> {
        match self {
            QuarantineFilter::All => Seq::empty(),
            QuarantineFilter::LiveOnly => seq![Condition::Live],
            QuarantineFilter::QuarantinedOnly => seq![Condition::Quarantined],
        }
    }

    /// Whether the filter admits a row.
    pub open spec fn admits(self, row: Cells) -> bool {
        meets(row, self.conditions(), Seq::empty())
    }

    /// The filter as it is appended to a condition, with the given name before the columns.
    pub open spec fn clause(self, qualifier: Seq<char>) -> Seq<char> {
        appended(self.conditions(), qualifier, ""@)
    }

    /// The filter as it is appended to a condition.
    pub fn sql(&self, qualifier: &str) -> (r: String)
        ensures
            r@ == self.clause(qualifier@),
    {
        let mut v: Vec<Condition> = Vec::new();
        match self {
            QuarantineFilter::All => {},
            QuarantineFilter::LiveOnly => {
                v.push(Condition::Live);
            },
            QuarantineFilter::QuarantinedOnly => {
                v.push(Condition::Quarantined);
            },
        }
        assert(v@ =~= self.conditions());
        append_sql(&v, qualifier, "")
    }
}

/// Every engram is either live or quarantined: the two filters share no engram, and together they
/// leave none out.
pub proof fn law_filters_partition(row: Cells)
    ensures
        QuarantineFilter::All.admits(row),
        QuarantineFilter::LiveOnly.admits(row) <==> !quarantined_row(row),
        QuarantineFilter::QuarantinedOnly.admits(row) <==> quarantined_row(row),
{
    let live = QuarantineFilter::LiveOnly.conditions();
    let quarantined = QuarantineFilter::QuarantinedOnly.conditions();
    assert(meets(row, live, Seq::empty()) <==> live[0].holds(row, Seq::empty()));
    assert(meets(row, quarantined, Seq::empty()) <==> quarantined[0].holds(row, Seq::empty()));
}

/// A query for engrams, with what follows the name of the table.
pub open spec fn engrams_where(rest: Seq<char>) -> Seq<char> {
    "SELECT "@ + engram_columns() + " FROM engrams WHERE "@ + rest
}

/// A query for engrams, with what follows the name of the table.
pub fn select_engrams(rest: &str) -> (r: String)
    ensures
        r@ == engrams_where(rest@),
{
    let head = concat3(
        "SELECT ",
        columns_text().as_str(),
        " FROM engrams WHERE ",
    );
    concat(head.as_str(), rest)
}

/// The query for the engrams of a layer, the strongest first.
pub open spec fn layer_query(
    layer: EngramLayer,
    limit: usize,
    filter: QuarantineFilter,
) -> StatementView {
    StatementView {
        sql: engrams_where(
            "layer = ?1"@ + filter.clause(""@)
                + " ORDER BY strength DESC, created_at DESC, id LIMIT ?2"@,
        ),
        params: seq![SqlView::Text(layer.name()), limit_view(limit)],
    }
}

/// The query for the engrams of a layer, the strongest first.
pub fn search_by_layer_filtered(
    layer: EngramLayer,
    limit: usize,
    filter: QuarantineFilter,
) -> (r: Statement)
    ensures
        r@ == layer_query(layer, limit, filter),
{
    let clause = filter.sql("");
    let rest = concat3(
        "layer = ?1",
        clause.as_str(),
        " ORDER BY strength DESC, created_at DESC, id LIMIT ?2",
    );
    with2(select_engrams(rest.as_str()).as_str(), text_value(layer.as_str()), limit_value(limit))
}

/// The query for the engrams of a layer, quarantined or not.
pub fn search_by_layer(layer: EngramLayer, limit: usize) -> (r: Statement)
    ensures
        r@ == layer_query(layer, limit, QuarantineFilter::All),
{
    search_by_layer_filtered(layer, limit, QuarantineFilter::All)
}

/// The query for a page of all engrams, the newest first.
pub open spec fn list_query(
    limit: usize,
    offset: usize,
    filter: QuarantineFilter,
) -> StatementView {
    StatementView {
        sql: engrams_where(
            "1=1"@ + filter.clause(""@) + " ORDER BY created_at DESC, id LIMIT ?1 OFFSET ?2"@,
        ),
        params: seq![limit_view(limit), limit_view(offset)],
    }
}

/// The query for a page of all engrams, the newest first.
pub fn list_filtered(limit: usize, offset: usize, filter: QuarantineFilter) -> (r: Statement)
    ensures
        r@ == list_query(limit, offset, filter),
{
    let clause = filter.sql("");
    let rest = concat3("1=1", clause.as_str(), " ORDER BY created_at DESC, id LIMIT ?1 OFFSET ?2");
    with2(select_engrams(rest.as_str()).as_str(), limit_value(limit), limit_value(offset))
}

/// The query for a page of all engrams, quarantined or not.
pub fn list(limit: usize, offset: usize) -> (r: Statement)
    ensures
        r@ == list_query(limit, offset, QuarantineFilter::All),
{
    list_filtered(limit, offset, QuarantineFilter::All)
}

/// The query for the engrams that were modified after a time, the oldest first.
pub fn list_modified_since(cutoff: &str, limit: usize) -> (r: Statement)
    ensures
        r@ == (StatementView {
            sql: engrams_where(
                Condition::ModifiedAfter.text(""@, "?1"@) + " ORDER BY modified_at ASC LIMIT ?2"@,
            ),
            params: seq![SqlView::Text(cutoff@), limit_view(limit)],
        }),
{
    let condition = Condition::ModifiedAfter.sql("", "?1");
    let rest = concat(condition.as_str(), " ORDER BY modified_at ASC LIMIT ?2");
    with2(
        select_engrams(rest.as_str()).as_str(),
        text_value(cutoff),
        limit_value(limit),
    )
}

/// The query for the engrams that were never pushed or were modified since, the oldest first.
pub fn list_unsynced(limit: usize) -> (r: Statement)
    ensures
        r@ == (StatementView {
            sql: engrams_where(
                Condition::Unsynced.text(""@, ""@) + " ORDER BY modified_at ASC LIMIT ?1"@,
            ),
            params: seq![limit_view(limit)],
        }),
{
    let condition = Condition::Unsynced.sql("", "");
    let rest = concat(condition.as_str(), " ORDER BY modified_at ASC LIMIT ?1");
    with1(select_engrams(rest.as_str()).as_str(), limit_value(limit))
}

/// Whether the database's LIKE gives a character a meaning, where the backslash is the escape.
pub open spec fn wild(c: char) -> bool {
    c == '%' || c == '_' || c == '\\'
}

/// A text with a backslash before each character that LIKE gives a meaning.
pub open spec fn escaped(s: Seq<char>) -> Seq<char>
    decreases s.len(),
{
    if s.len() == 0 {
        Seq::empty()
    } else if wild(s.last()) {
        escaped(s.drop_last()).push('\\').push(s.last())
    } else {
        escaped(s.drop_last()).push(s.last())
    }
}

/// What an escaped text stands for: a backslash makes the next character stand for itself.
pub open spec fn unescaped(s: Seq<char>) -> Seq<char>
    decreases s.len(),
{
    if s.len() == 0 {
        Seq::empty()
    } else if s[0] == '\\' && s.len() > 1 {
        seq![s[1]] + unescaped(s.skip(2))
    } else {
        seq![s[0]] + unescaped(s.skip(1))
    }
}

/// Whether every character of a pattern stands for itself alone: what LIKE gives a meaning stands
/// behind a backslash.
pub open spec fn plain_pattern(s: Seq<char>) -> bool
    decreases s.len(),
{
    if s.len() == 0 {
        true
    } else if s[0] == '\\' {
        s.len() > 1 && plain_pattern(s.skip(2))
    } else {
        !wild(s[0]) && plain_pattern(s.skip(1))
    }
}

proof fn lemma_pattern_behind(p: Seq<char>, tail: Seq<char>, c: char)
    requires
        plain_pattern(p),
        plain_pattern(tail),
        unescaped(tail) == seq![c],
    ensures
        plain_pattern(p + tail),
        unescaped(p + tail) == unescaped(p).push(c),
    decreases p.len(),
{
    let all = p + tail;
    if p.len() == 0 {
        assert(all =~= tail);
        assert(unescaped(p).push(c) =~= seq![c]);
    } else {
        let n: int = if p[0] == '\\' {
            2
        } else {
            1
        };
        assert(n <= p.len());
        assert(plain_pattern(p.skip(n)));
        lemma_pattern_behind(p.skip(n), tail, c);
        assert(all[0] == p[0] && all[n - 1] == p[n - 1]);
        assert(all.skip(n) =~= p.skip(n) + tail);
        assert(unescaped(p) == seq![p[n - 1]] + unescaped(p.skip(n)));
        assert(unescaped(all) == seq![p[n - 1]] + unescaped(all.skip(n)));
        assert(seq![p[n - 1]] + unescaped(p.skip(n)).push(c) =~= (seq![p[n - 1]] + unescaped(
            p.skip(n),
        )).push(c));
    }
}

proof fn lemma_escaped_char(c: char)
    ensures
        wild(c) ==> plain_pattern(seq!['\\', c]) && unescaped(seq!['\\', c]) == seq![c],
        !wild(c) ==> plain_pattern(seq![c]) && unescaped(seq![c]) == seq![c],
{
    assert(seq!['\\', c].skip(2) =~= Seq::<char>::empty());
    assert(seq![c].skip(1) =~= Seq::<char>::empty());
    assert(plain_pattern(Seq::<char>::empty()));
    assert(unescaped(Seq::<char>::empty()) =~= Seq::<char>::empty());
    assert(seq![c] + Seq::<char>::empty() =~= seq![c]);
    reveal_with_fuel(plain_pattern, 2);
    reveal_with_fuel(unescaped, 2);
}

/// An escaped text is a pattern for that text and no other: none of its characters has a meaning of
/// its own, and it stands for the text that was escaped.
pub proof fn law_escaped_text_stands_for_itself(s: Seq<char>)
    ensures
        plain_pattern(escaped(s)),
        unescaped(escaped(s)) == s,
    decreases s.len(),
{
    if s.len() > 0 {
        law_escaped_text_stands_for_itself(s.drop_last());
        let c = s.last();
        let p = escaped(s.drop_last());
        lemma_escaped_char(c);
        if wild(c) {
            lemma_pattern_behind(p, seq!['\\', c], c);
            assert(p + seq!['\\', c] =~= escaped(s));
        } else {
            lemma_pattern_behind(p, seq![c], c);
            assert(p + seq![c] =~= escaped(s));
        }
        assert(s.drop_last().push(c) =~= s);
    }
}

/// A text with a backslash before each character that LIKE gives a meaning.
fn escape(s: &str) -> (r: String)
    ensures
        r@ == escaped(s@),
{
    let chars = chars_of(s);
    let mut out: Vec<char> = Vec::new();
    let mut i: usize = 0;
    while i < chars.len()
        invariant
            i <= chars@.len(),
            out@ == escaped(chars@.take(i as int)),
        decreases chars@.len() - i,
    {
        let c: char = chars[i];
        proof {
            assert(chars@.take(i + 1).drop_last() =~= chars@.take(i as int));
            assert(chars@.take(i + 1).last() == c);
        }
        if c == '%' || c == '_' || c == '\\' {
            out.push('\\');
        }
        out.push(c);
        i += 1;
    }
    proof {
        assert(chars@.take(chars@.len() as int) =~= chars@);
    }
    string_of(out.as_slice())
}

/// The condition that the tags match a numbered pattern, for each of `n` patterns.
pub open spec fn tag_clauses(n: nat) -> Seq<Seq<char>> {
    Seq::new(n, |i: int| "tags LIKE ?"@ + decimal((i + 1) as nat) + " ESCAPE '\\'"@)
}

/// The patterns that match lists of tags with each of the given ones, and the limit.
pub open spec fn tag_params(tags: Seq<Seq<char>>, limit: usize) -> Seq<SqlView> {
    Seq::new(
        tags.len(),
        |i: int| SqlView::Text("%\""@ + escaped(tags[i]) + "\"%"@),
    ).push(limit_view(limit))
}

/// The query for the engrams that carry all of some tags, the newest first. Without tags it is
/// no query, and the database refuses it.
pub open spec fn tags_query(
    tags: Seq<Seq<char>>,
    limit: usize,
    filter: QuarantineFilter,
) -> StatementView {
    StatementView {
        sql: engrams_where(
            joined(tag_clauses(tags.len()), " AND "@) + filter.clause(""@)
                + " ORDER BY created_at DESC, id LIMIT ?"@ + decimal(tags.len() + 1),
        ),
        params: tag_params(tags, limit),
    }
}

/// The query for the engrams that carry all of some tags, the newest first.
pub fn search_by_tags_filtered(
    tags: &Vec<String>,
    limit: usize,
    filter: QuarantineFilter,
) -> (r: Statement)
    ensures
        r@ == tags_query(texts(tags@), limit, filter),
{
    let mut clauses: Vec<String> = Vec::new();
    let mut params: Vec<SqlValue> = Vec::new();
    let mut i: usize = 0;
    let ghost all = tag_clauses(texts(tags@).len());
    let ghost values = tag_params(texts(tags@), limit);
    while i < tags.len()
        invariant
            i <= tags@.len(),
            all == tag_clauses(texts(tags@).len()),
            values == tag_params(texts(tags@), limit),
            texts(clauses@) == all.take(i as int),
            value_views(params@) == values.take(i as int),
        decreases tags@.len() - i,
    {
        let number = decimal_text(i as u64 + 1);
        let clause = concat3("tags LIKE ?", number.as_str(), " ESCAPE '\\'");
        let tag = escape(tags[i].as_str());
        let pattern = concat3("%\"", tag.as_str(), "\"%");
        let value = SqlValue::Text(pattern);
        proof {
            assert(texts(tags@)[i as int] == tags@[i as int]@);
            assert(all[i as int] == clause@);
            assert(values[i as int] == value@);
            assert(texts(clauses@.push(clause)) =~= texts(clauses@).push(clause@));
            assert(all.take(i + 1) =~= all.take(i as int).push(all[i as int]));
            lemma_values_push(params@, value);
            assert(values.take(i + 1) =~= values.take(i as int).push(values[i as int]));
        }
        clauses.push(clause);
        params.push(value);
        i += 1;
    }
    let last = limit_value(limit);
    proof {
        assert(all.take(tags@.len() as int) =~= all);
        lemma_values_push(params@, last);
        assert(values =~= values.take(tags@.len() as int).push(limit_view(limit)));
    }
    params.push(last);
    let condition = join_texts(&clauses, " AND ");
    let clause = filter.sql("");
    let number = decimal_text(params.len() as u64);
    let head = concat3(
        condition.as_str(),
        clause.as_str(),
        " ORDER BY created_at DESC, id LIMIT ?",
    );
    let rest = concat(head.as_str(), number.as_str());
    Statement { sql: select_engrams(rest.as_str()), params }
}

/// The query for the engrams that carry all of some tags, quarantined or not.
pub fn search_by_tags(tags: &Vec<String>, limit: usize) -> (r: Statement)
    ensures
        r@ == tags_query(texts(tags@), limit, QuarantineFilter::All),
{
    search_by_tags_filtered(tags, limit, QuarantineFilter::All)
}

/// The runs of letters and digits in a text.
pub open spec fn tokens(s: Seq<char>) -> Seq<Seq<char>>
    decreases s.len(),
{
    if s.len() == 0 {
        Seq::empty()
    } else {
        let before = tokens(s.drop_last());
        if !alphanumeric(s.last()) {
            before
        } else if s.len() >= 2 && alphanumeric(s[s.len() - 2]) {
            before.drop_last().push(before.last().push(s.last()))
        } else {
            before.push(seq![s.last()])
        }
    }
}

/// A text without quotation marks.
pub open spec fn unquoted(s: Seq<char>) -> Seq<char> {
    s.filter(|c: char| c != '"')
}

fn remove_quotes(v: &Vec<char>) -> (r: Vec<char>)
    ensures
        r@ == unquoted(v@),
{
    let mut out: Vec<char> = Vec::new();
    let mut i: usize = 0;
    proof {
        reveal(Seq::filter);
        assert(unquoted(v@.take(0)) =~= Seq::empty());
    }
    while i < v.len()
        invariant
            i <= v@.len(),
            out@ == unquoted(v@.take(i as int)),
        decreases v@.len() - i,
    {
        proof {
            reveal(Seq::filter);
            assert(v@.take(i + 1).drop_last() =~= v@.take(i as int));
        }
        if v[i] != '"' {
            out.push(v[i]);
        }
        i += 1;
    }
    proof {
        assert(v@.take(v@.len() as int) =~= v@);
    }
    out
}

/// The runs that are finished, and the one in progress if there is one.
pub open spec fn with_run(done: Seq<Seq<char>>, run: Seq<char>) -> Seq<Seq<char>> {
    if run.len() == 0 {
        done
    } else {
        done.push(run)
    }
}

fn split_tokens(v: &Vec<char>) -> (r: Vec<Vec<char>>)
    ensures
        views(r@) == tokens(v@),
{
    let mut out: Vec<Vec<char>> = Vec::new();
    let mut run: Vec<char> = Vec::new();
    let mut i: usize = 0;
    assert(views(out@) =~= Seq::empty());
    while i < v.len()
        invariant
            i <= v@.len(),
            tokens(v@.take(i as int)) == with_run(views(out@), run@),
            run@.len() > 0 <==> i > 0 && alphanumeric(v@[i - 1]),
        decreases v@.len() - i,
    {
        let ghost upto = v@.take(i + 1);
        proof {
            assert(upto.drop_last() =~= v@.take(i as int));
            assert(upto.last() == v@[i as int]);
            if i > 0 {
                assert(upto[upto.len() - 2] == v@[i - 1]);
            }
        }
        if is_alphanumeric(v[i]) {
            let ghost before = run@;
            run.push(v[i]);
            proof {
                if before.len() > 0 {
                    assert(views(out@).push(before).drop_last() =~= views(out@));
                } else {
                    assert(run@ =~= seq![v@[i as int]]);
                }
            }
        } else {
            if run.len() > 0 {
                proof {
                    assert(views(out@.push(run)) =~= views(out@).push(run@));
                }
                out.push(run);
                run = Vec::new();
            }
        }
        i += 1;
    }
    proof {
        assert(v@.take(v@.len() as int) =~= v@);
    }
    if run.len() > 0 {
        proof {
            assert(views(out@.push(run)) =~= views(out@).push(run@));
        }
        out.push(run);
    }
    out
}

/// The query of the text index, the best match first.
pub open spec fn index_query(
    expression: Seq<char>,
    limit: usize,
    filter: QuarantineFilter,
) -> StatementView {
    StatementView {
        sql: "SELECT e.id, e.layer, e.source, e.privacy_level, e.content, e.context, e.strength, e.valence, e.retrievals, e.imagined, e.grounded, e.created_at, e.last_retrieved, e.project, e.tags, e.scope, e.content_type, e.occurred_at, e.modified_at FROM engrams_fts fts INNER JOIN engrams e ON fts.id = e.id WHERE engrams_fts MATCH ?1"@
            + filter.clause("e"@) + " ORDER BY rank, e.created_at DESC, e.id LIMIT ?2"@,
        params: seq![SqlView::Text(expression), limit_view(limit)],
    }
}

fn match_index(expression: &str, limit: usize, filter: QuarantineFilter) -> (r: Statement)
    ensures
        r@ == index_query(expression@, limit, filter),
{
    let clause = filter.sql("e");
    let sql = concat3(
        "SELECT e.id, e.layer, e.source, e.privacy_level, e.content, e.context, e.strength, e.valence, e.retrievals, e.imagined, e.grounded, e.created_at, e.last_retrieved, e.project, e.tags, e.scope, e.content_type, e.occurred_at, e.modified_at FROM engrams_fts fts INNER JOIN engrams e ON fts.id = e.id WHERE engrams_fts MATCH ?1",
        clause.as_str(),
        " ORDER BY rank, e.created_at DESC, e.id LIMIT ?2",
    );
    with2(sql.as_str(), text_value(expression), limit_value(limit))
}

/// The query for contents with the text in them, the strongest first.
pub open spec fn pattern_query(
    text: Seq<char>,
    limit: usize,
    filter: QuarantineFilter,
) -> StatementView {
    StatementView {
        sql: engrams_where(
            "content LIKE ?1"@ + filter.clause(""@)
                + " ORDER BY strength DESC, created_at DESC, id LIMIT ?2"@,
        ),
        params: seq![SqlView::Text("%"@ + text + "%"@), limit_view(limit)],
    }
}

fn match_pattern(text: &str, limit: usize, filter: QuarantineFilter) -> (r: Statement)
    ensures
        r@ == pattern_query(text@, limit, filter),
{
    let clause = filter.sql("");
    let rest = concat3(
        "content LIKE ?1",
        clause.as_str(),
        " ORDER BY strength DESC, created_at DESC, id LIMIT ?2",
    );
    let pattern = concat3("%", text, "%");
    with2(
        select_engrams(rest.as_str()).as_str(),
        SqlValue::Text(pattern),
        limit_value(limit),
    )
}

/// How contents are searched: the index for all words, then for any, then, where the index cannot
/// read the query, the contents themselves.
#[derive(Debug)]
pub struct ContentSearch {
    pub all_words: Statement,
    pub any_word: Statement,
    pub plain_text: Statement,
}

/// How contents are searched, as seen in contracts.
#[verifier::ext_equal]
pub struct ContentSearchView {
    pub all_words: StatementView,
    pub any_word: StatementView,
    pub plain_text: StatementView,
}

impl View for ContentSearch {
    type V = ContentSearchView;

    open spec fn view(&self) -> ContentSearchView {
        ContentSearchView {
            all_words: self.all_words@,
            any_word: self.any_word@,
            plain_text: self.plain_text@,
        }
    }
}

/// How contents are searched for a query; not at all for one without letters and digits, which
/// finds nothing.
pub open spec fn content_search(
    query: Seq<char>,
    limit: usize,
    filter: QuarantineFilter,
) -> Option<ContentSearchView> {
    let list = tokens(unquoted(query));
    if list.len() == 0 {
        None
    } else {
        Some(
            ContentSearchView {
                all_words: index_query(joined(list, " AND "@), limit, filter),
                any_word: index_query(joined(list, " OR "@), limit, filter),
                plain_text: pattern_query(query, limit, filter),
            },
        )
    }
}

/// What an optional search says.
pub open spec fn opt_search(s: Option<ContentSearch>) -> Option<ContentSearchView> {
    match s {
        Some(x) => Some(x@),
        None => None,
    }
}

/// How contents are searched for a query; not at all for one without letters and digits, which
/// finds nothing.
pub fn search_by_content_filtered(
    query: &str,
    limit: usize,
    filter: QuarantineFilter,
) -> (r: Option<ContentSearch>)
    ensures
        opt_search(r) == content_search(query@, limit, filter),
{
    let all = chars_of(query);
    let bare = remove_quotes(&all);
    let list = split_tokens(&bare);
    assert(views(list@).len() == list@.len());
    if list.len() == 0 {
        return None;
    }
    let conjunction = chars_of(" AND ");
    let disjunction = chars_of(" OR ");
    let every = join(&list, conjunction.as_slice());
    let any = join(&list, disjunction.as_slice());
    let every_text = string_of(every.as_slice());
    let any_text = string_of(any.as_slice());
    Some(
        ContentSearch {
            all_words: match_index(every_text.as_str(), limit, filter),
            any_word: match_index(any_text.as_str(), limit, filter),
            plain_text: match_pattern(query, limit, filter),
        },
    )
}

/// How contents are searched for a query, quarantined or not.
pub fn search_by_content(query: &str, limit: usize) -> (r: Option<ContentSearch>)
    ensures
        opt_search(r) == content_search(query@, limit, QuarantineFilter::All),
{
    search_by_content_filtered(query, limit, QuarantineFilter::All)
}

/// Which query of a search of contents runs.
#[derive(Debug, Clone, Copy, PartialEq, Eq, Structural)]
pub enum ContentStage {
    AllWords,
    AnyWord,
    PlainText,
}

/// Which query of a search of contents runs next, given how many engrams the last one found, or
/// nothing where it failed. Nothing runs next where the last one settled the search.
pub open spec fn stage_after(stage: ContentStage, found: Option<usize>) -> Option<ContentStage> {
    match (stage, found) {
        (ContentStage::AllWords, Some(n)) if n > 0 => None,
        (ContentStage::AllWords, _) => Some(ContentStage::AnyWord),
        (ContentStage::AnyWord, None) => Some(ContentStage::PlainText),
        _ => None,
    }
}

/// Which query of a search of contents runs next.
pub fn next_stage(stage: ContentStage, found: Option<usize>) -> (r: Option<ContentStage>)
    ensures
        r == stage_after(stage, found),
{
    match stage {
        ContentStage::AllWords => match found {
            Some(n) => if n > 0 {
                None
            } else {
                Some(ContentStage::AnyWord)
            },
            None => Some(ContentStage::AnyWord),
        },
        ContentStage::AnyWord => match found {
            Some(_) => None,
            None => Some(ContentStage::PlainText),
        },
        ContentStage::PlainText => None,
    }
}

/// What goes to the text index are words of letters and digits, none of them empty: no quotation
/// mark and no operator character of the index comes from the query.
pub proof fn law_tokens_are_alphanumeric(s: Seq<char>)
    ensures
        forall|i: int| 0 <= i < tokens(s).len() ==> (#[trigger] tokens(s)[i]).len() > 0,
        forall|i: int, k: int|
            0 <= i < tokens(s).len() && 0 <= k < tokens(s)[i].len() ==> alphanumeric(
                #[trigger] tokens(s)[i][k],
            ),
        s.len() > 0 && alphanumeric(s.last()) ==> tokens(s).len() > 0,
    decreases s.len(),
{
    if s.len() > 0 {
        law_tokens_are_alphanumeric(s.drop_last());
        let before = tokens(s.drop_last());
        if alphanumeric(s.last()) && s.len() >= 2 && alphanumeric(s[s.len() - 2]) {
            assert(s.drop_last().last() == s[s.len() - 2]);
            assert(before.len() > 0);
        }
    }
}

/// Every letter and digit of a text ends up in a token: a text without tokens has none.
pub proof fn law_tokens_miss_nothing(s: Seq<char>)
    ensures
        tokens(s).len() == 0 <==> forall|k: int| 0 <= k < s.len() ==> !alphanumeric(#[trigger] s[k]),
    decreases s.len(),
{
    if s.len() > 0 {
        law_tokens_miss_nothing(s.drop_last());
        law_tokens_are_alphanumeric(s);
        law_tokens_are_alphanumeric(s.drop_last());
        let t = s.drop_last();
        if alphanumeric(s.last()) {
            assert(!(forall|k: int| 0 <= k < s.len() ==> !alphanumeric(#[trigger] s[k]))) by {
                assert(alphanumeric(s[s.len() - 1]));
            }
        } else {
            if tokens(s).len() == 0 {
                assert forall|k: int| 0 <= k < s.len() implies !alphanumeric(#[trigger] s[k]) by {
                    if k < t.len() {
                        assert(t[k] == s[k]);
                    }
                }
            } else {
                let k = choose|k: int| 0 <= k < t.len() && alphanumeric(#[trigger] t[k]);
                assert(s[k] == t[k]);
            }
        }
    }
}

/// A filter lets through what it says, by what a row holds: all rows, those that are not both
/// imagined and ungrounded, or those that are.
pub proof fn law_filters_go_by_what_a_row_holds(row: Cells)
    ensures
        ({
            let quarantined = row["imagined"@] == SqlView::Integer(1) && row["grounded"@]
                == SqlView::Integer(0);
            &&& QuarantineFilter::All.admits(row)
            &&& QuarantineFilter::LiveOnly.admits(row) <==> !quarantined
            &&& QuarantineFilter::QuarantinedOnly.admits(row) <==> quarantined
        }),
{
    law_filters_partition(row);
}

/// A filter adds to a query what it lets through, and nothing where that is everything.
pub proof fn law_filters_read()
    ensures
        QuarantineFilter::All.clause(""@) == Seq::<char>::empty(),
        QuarantineFilter::All.clause("e"@) == Seq::<char>::empty(),
        QuarantineFilter::LiveOnly.clause(""@) == " AND NOT (imagined = 1 AND grounded = 0)"@,
        QuarantineFilter::LiveOnly.clause("e"@)
            == " AND NOT (e.imagined = 1 AND e.grounded = 0)"@,
        QuarantineFilter::QuarantinedOnly.clause(""@) == " AND imagined = 1 AND grounded = 0"@,
        QuarantineFilter::QuarantinedOnly.clause("e"@)
            == " AND e.imagined = 1 AND e.grounded = 0"@,
{
    reveal_with_fuel(appended, 2);
    law_conditions_read();
    assert(seq![Condition::Live].drop_last() =~= Seq::<Condition>::empty());
    assert(seq![Condition::Quarantined].drop_last() =~= Seq::<Condition>::empty());
    assert(QuarantineFilter::LiveOnly.clause(""@) == " AND NOT (imagined = 1 AND grounded = 0)"@)
        by {
        reveal_strlit(" AND ");
        reveal_strlit("NOT (imagined = 1 AND grounded = 0)");
        reveal_strlit(" AND NOT (imagined = 1 AND grounded = 0)");
        assert(QuarantineFilter::LiveOnly.clause(""@)
            =~= " AND NOT (imagined = 1 AND grounded = 0)"@);
    }
    assert(QuarantineFilter::QuarantinedOnly.clause(""@) == " AND imagined = 1 AND grounded = 0"@)
        by {
        reveal_strlit(" AND ");
        reveal_strlit("imagined = 1 AND grounded = 0");
        reveal_strlit(" AND imagined = 1 AND grounded = 0");
        assert(QuarantineFilter::QuarantinedOnly.clause(""@)
            =~= " AND imagined = 1 AND grounded = 0"@);
    }
    assert(QuarantineFilter::LiveOnly.clause("e"@)
        == " AND NOT (e.imagined = 1 AND e.grounded = 0)"@) by {
        reveal_strlit("e");
        reveal_strlit(".");
        reveal_strlit(" AND ");
        reveal_strlit("NOT (");
        reveal_strlit("imagined = 1 AND ");
        reveal_strlit("grounded = 0)");
        reveal_strlit(" AND NOT (e.imagined = 1 AND e.grounded = 0)");
        assert(QuarantineFilter::LiveOnly.clause("e"@)
            =~= " AND NOT (e.imagined = 1 AND e.grounded = 0)"@);
    }
    assert(QuarantineFilter::QuarantinedOnly.clause("e"@)
        == " AND e.imagined = 1 AND e.grounded = 0"@) by {
        reveal_strlit("e");
        reveal_strlit(".");
        reveal_strlit(" AND ");
        reveal_strlit("imagined = 1 AND ");
        reveal_strlit("grounded = 0");
        reveal_strlit(" AND e.imagined = 1 AND e.grounded = 0");
        assert(QuarantineFilter::QuarantinedOnly.clause("e"@)
            =~= " AND e.imagined = 1 AND e.grounded = 0"@);
    }
}

/// A layer is searched for its strongest memories, and a list is the newest first, both within the
/// limit that is given and past the offset; a filter narrows either.
pub proof fn law_layers_and_lists_are_asked_for(
    layer: EngramLayer,
    limit: usize,
    offset: usize,
    filter: QuarantineFilter,
)
    ensures
        layer_query(layer, limit, filter).params == seq![
            SqlView::Text(
                match layer {
                    EngramLayer::Episodic => "episodic"@,
                    EngramLayer::Semantic => "semantic"@,
                    EngramLayer::Imagined => "imagined"@,
                },
            ),
            limit_view(limit),
        ],
        layer_query(layer, limit, filter).sql == engrams_where(
            "layer = ?1"@ + filter.clause(""@)
                + " ORDER BY strength DESC, created_at DESC, id LIMIT ?2"@,
        ),
        list_query(limit, offset, filter).params == seq![limit_view(limit), limit_view(offset)],
        list_query(limit, offset, filter).sql == engrams_where(
            "1=1"@ + filter.clause(""@) + " ORDER BY created_at DESC, id LIMIT ?1 OFFSET ?2"@,
        ),
{
}

/// A search by tags asks for every one of them: there is one condition and one pattern for each,
/// the pattern is that of the tag in quotes, with nothing in it that stands for anything but
/// itself, and all conditions must hold.
pub proof fn law_every_tag_is_asked_for(
    tags: Seq<Seq<char>>,
    limit: usize,
    filter: QuarantineFilter,
    i: int,
) -> (pattern: Seq<char>)
    requires
        0 <= i < tags.len(),
    ensures
        ({
            let q = tags_query(tags, limit, filter);
            let clauses = Seq::new(
                tags.len(),
                |k: int| "tags LIKE ?"@ + decimal((k + 1) as nat) + " ESCAPE '\\'"@,
            );
            &&& q.params.len() == tags.len() + 1
            &&& q.params[i] == SqlView::Text("%\""@ + pattern + "\"%"@)
            &&& plain_pattern(pattern)
            &&& unescaped(pattern) == tags[i]
            &&& q.params[tags.len() as int] == limit_view(limit)
            &&& q.sql == engrams_where(
                joined(clauses, " AND "@) + filter.clause(""@)
                    + " ORDER BY created_at DESC, id LIMIT ?"@ + decimal(tags.len() + 1),
            )
        }),
{
    law_escaped_text_stands_for_itself(tags[i]);
    assert(tag_clauses(tags.len()) =~= Seq::new(
        tags.len(),
        |k: int| "tags LIKE ?"@ + decimal((k + 1) as nat) + " ESCAPE '\\'"@,
    ));
    escaped(tags[i])
}

/// Escaping only puts backslashes before the characters that stand for others.
pub proof fn law_text_without_wildcards_is_not_escaped(s: Seq<char>)
    requires
        forall|i: int|
            0 <= i < s.len() ==> #[trigger] s[i] != '%' && s[i] != '_' && s[i] != '\\',
    ensures
        escaped(s) == s,
    decreases s.len(),
{
    if s.len() > 0 {
        law_text_without_wildcards_is_not_escaped(s.drop_last());
        assert(s.last() == s[s.len() - 1]);
        assert(s.drop_last().push(s.last()) =~= s);
    }
}

/// What is neither a letter nor a digit parts tokens.
pub proof fn law_other_characters_part_tokens(a: Seq<char>, gap: char, b: Seq<char>)
    requires
        !alphanumeric(gap),
    ensures
        tokens(a + seq![gap] + b) == tokens(a) + tokens(b),
    decreases b.len(),
{
    let s = a + seq![gap] + b;
    if b.len() == 0 {
        assert(s.last() == gap);
        assert(s.drop_last() =~= a);
        assert(tokens(a) + tokens(b) =~= tokens(a));
    } else {
        let c = b.drop_last();
        assert(s.last() == b.last());
        assert(s.drop_last() =~= a + seq![gap] + c);
        law_other_characters_part_tokens(a, gap, c);
        if alphanumeric(b.last()) {
            if b.len() >= 2 && alphanumeric(b[b.len() - 2]) {
                assert(s[s.len() - 2] == b[b.len() - 2]);
                law_tokens_are_alphanumeric(c);
                assert(c.last() == b[b.len() - 2]);
                assert(tokens(c).len() > 0);
                let all = tokens(a) + tokens(c);
                assert(all.last() == tokens(c).last());
                assert(all.drop_last().push(all.last().push(b.last())) =~= tokens(a) + tokens(
                    c,
                ).drop_last().push(tokens(c).last().push(b.last())));
            } else {
                assert(s[s.len() - 2] == if b.len() >= 2 {
                    b[b.len() - 2]
                } else {
                    gap
                });
                assert((tokens(a) + tokens(c)).push(seq![b.last()]) =~= tokens(a) + tokens(c).push(
                    seq![b.last()],
                ));
            }
        }
    }
}

/// A run of letters and digits is one token, whole.
pub proof fn law_run_is_one_token(w: Seq<char>)
    requires
        w.len() > 0,
        forall|i: int| 0 <= i < w.len() ==> alphanumeric(#[trigger] w[i]),
    ensures
        tokens(w) == seq![w],
    decreases w.len(),
{
    reveal_with_fuel(tokens, 2);
    let v = w.drop_last();
    assert(alphanumeric(w[w.len() - 1]));
    if w.len() == 1 {
        assert(tokens(v) =~= Seq::<Seq<char>>::empty());
        assert(seq![w.last()] =~= w);
        assert(tokens(w) =~= seq![w]);
    } else {
        assert forall|i: int| 0 <= i < v.len() implies alphanumeric(#[trigger] v[i]) by {
            assert(v[i] == w[i]);
        }
        law_run_is_one_token(v);
        assert(alphanumeric(w[w.len() - 2]));
        assert(v.push(w.last()) =~= w);
        assert(tokens(w) =~= seq![w]);
    }
}

/// A search for a content asks the text index for all of its tokens, then for any of them, and the
/// table for the text as it was given; it asks for nothing where there is no letter and no digit.
pub proof fn law_content_is_asked_for_by_all_its_tokens(
    query: Seq<char>,
    limit: usize,
    filter: QuarantineFilter,
)
    requires
        !query.contains('"'),
    ensures
        content_search(query, limit, filter) is None <==> forall|k: int|
            0 <= k < query.len() ==> !alphanumeric(#[trigger] query[k]),
        content_search(query, limit, filter) matches Some(s) ==> {
            &&& s.all_words.params == seq![
                SqlView::Text(joined(tokens(query), " AND "@)),
                limit_view(limit),
            ]
            &&& s.any_word.params == seq![
                SqlView::Text(joined(tokens(query), " OR "@)),
                limit_view(limit),
            ]
            &&& s.plain_text.params == seq![
                SqlView::Text("%"@ + query + "%"@),
                limit_view(limit),
            ]
            &&& s.all_words.sql == s.any_word.sql
            &&& s.all_words.sql
                == "SELECT e.id, e.layer, e.source, e.privacy_level, e.content, e.context, e.strength, e.valence, e.retrievals, e.imagined, e.grounded, e.created_at, e.last_retrieved, e.project, e.tags, e.scope, e.content_type, e.occurred_at, e.modified_at FROM engrams_fts fts INNER JOIN engrams e ON fts.id = e.id WHERE engrams_fts MATCH ?1"@
                + filter.clause("e"@) + " ORDER BY rank, e.created_at DESC, e.id LIMIT ?2"@
            &&& s.plain_text.sql == engrams_where(
                "content LIKE ?1"@ + filter.clause(""@)
                    + " ORDER BY strength DESC, created_at DESC, id LIMIT ?2"@,
            )
        },
{
    lemma_nothing_to_unquote(query);
    law_tokens_miss_nothing(query);
}

proof fn lemma_nothing_to_unquote(s: Seq<char>)
    requires
        !s.contains('"'),
    ensures
        unquoted(s) == s,
    decreases s.len(),
{
    reveal(Seq::filter);
    if s.len() > 0 {
        assert(s[s.len() - 1] == s.last());
        assert(s.contains(s.last()));
        let t = s.drop_last();
        assert(!t.contains('"')) by {
            if t.contains('"') {
                let k = choose|k: int| 0 <= k < t.len() && t[k] == '"';
                assert(s[k] == '"');
            }
        }
        lemma_nothing_to_unquote(t);
        assert(t.push(s.last()) =~= s);
    }
}

/// Quotes in a search do not count, wherever they stand.
pub proof fn law_quotes_do_not_count(a: Seq<char>, b: Seq<char>)
    ensures
        unquoted(a + seq!['"'] + b) == unquoted(a + b),
{
    let keep = |c: char| c != '"';
    Seq::filter_distributes_over_add(a + seq!['"'], b, keep);
    Seq::filter_distributes_over_add(a, seq!['"'], keep);
    Seq::filter_distributes_over_add(a, b, keep);
    reveal_with_fuel(Seq::filter, 2);
    assert(seq!['"'].drop_last() =~= Seq::<char>::empty());
    assert(!keep(seq!['"'].last()));
    assert(seq!['"'].filter(keep) =~= Seq::<char>::empty());
    assert(a.filter(keep) + Seq::<char>::empty() =~= a.filter(keep));
}

/// A search for a content goes on until it is answered: where all words give something it ends,
/// else any word is tried; where the text index fails on that too, the text itself is; and nothing
/// is tried twice.
pub proof fn law_content_search_goes_on_until_answered(found: Option<usize>)
    ensures
        stage_after(ContentStage::AllWords, found) == if found is Some && found->0 > 0 {
            None
        } else {
            Some(ContentStage::AnyWord)
        },
        stage_after(ContentStage::AnyWord, found) == if found is Some {
            None
        } else {
            Some(ContentStage::PlainText)
        },
        stage_after(ContentStage::PlainText, found) is None,
{
}

/// Engrams are asked for with all their columns, in the order in which a row is read.
pub proof fn law_engrams_are_asked_for_whole(rest: Seq<char>)
    ensures
        engrams_where(rest) == "SELECT "@ + joined(engram_column_names(), ", "@)
            + " FROM engrams WHERE "@ + rest,
{
}

} // verus!
