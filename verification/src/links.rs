//! Links between memories: explicit ones, and ones found on capture.
use crate::embedding::{
    law_nearest_ones_are_found, nearest, neighbours, Embedded, EmbeddedView, LinkInferenceConfig,
};
use crate::engram::{Engram, EngramLink, EngramView, LinkType, LinkView};
use crate::json::{json_member, read_tags, stored_tags, text_member};
use crate::measure::Measure;
use crate::noise::holds_text;
use crate::rank::{all_views, ScoredView};
use crate::sql::{
    lemma_statements_push, statement_views, text_value, with1, with2, with3, with4, SqlValue,
    SqlView, Statement, StatementView,
};
use crate::text::{opt_text, texts};
use vstd::prelude::*;

verus! {

/// Stores a link, or replaces the one between the same engrams.
pub open spec fn link_statement_of(
    source: Seq<char>,
    target: Seq<char>,
    weight: Measure,
    link_type: LinkType,
) -> StatementView {
    StatementView {
        sql: "INSERT OR REPLACE INTO engram_links (source_id, target_id, weight, link_type) VALUES (?1, ?2, ?3, ?4)"@,
        params: seq![
            SqlView::Text(source),
            SqlView::Text(target),
            SqlView::Real(weight),
            SqlView::Text(link_type.name()),
        ],
    }
}

/// Stores a link, or replaces the one between the same engrams.
pub fn link_statement(source: &str, target: &str, weight: Measure, link_type: LinkType) -> (r:
    Statement)
    ensures
        r@ == link_statement_of(source@, target@, weight, link_type),
{
    with4(
        "INSERT OR REPLACE INTO engram_links (source_id, target_id, weight, link_type) VALUES (?1, ?2, ?3, ?4)",
        text_value(source),
        text_value(target),
        SqlValue::Real(weight),
        text_value(link_type.as_str()),
    )
}

/// Stores a link that came with an engram, unless its target is not stored here.
pub open spec fn carried_link_statement_of(source: Seq<char>, link: LinkView) -> StatementView {
    StatementView {
        sql: "INSERT OR REPLACE INTO engram_links (source_id, target_id, weight, link_type) SELECT ?1, ?2, ?3, ?4 WHERE EXISTS (SELECT 1 FROM engrams WHERE id = ?2)"@,
        params: seq![
            SqlView::Text(source),
            SqlView::Text(link.target_id),
            SqlView::Real(link.weight),
            SqlView::Text(link.link_type.name()),
        ],
    }
}

/// The statements that store the links that came with an engram.
pub open spec fn carried_links(source: Seq<char>, links: Seq<LinkView>) -> Seq<StatementView> {
    links.map_values(|l: LinkView| carried_link_statement_of(source, l))
}

/// The statements that store the links that came with an engram.
pub fn carried_link_statements(source: &str, links: &Vec<EngramLink>) -> (r: Vec<Statement>)
    ensures
        statement_views(r@) == carried_links(source@, crate::engram::link_views(links@)),
{
    let mut out: Vec<Statement> = Vec::new();
    let mut i: usize = 0;
    while i < links.len()
        invariant
            i <= links@.len(),
            out@.len() == i,
            forall|j: int|
                0 <= j < i ==> (#[trigger] out@[j])@ == carried_link_statement_of(
                    source@,
                    links@[j]@,
                ),
        decreases links@.len() - i,
    {
        let l = &links[i];
        out.push(
            with4(
                "INSERT OR REPLACE INTO engram_links (source_id, target_id, weight, link_type) SELECT ?1, ?2, ?3, ?4 WHERE EXISTS (SELECT 1 FROM engrams WHERE id = ?2)",
                text_value(source),
                text_value(l.target_id.as_str()),
                SqlValue::Real(l.weight),
                text_value(l.link_type.as_str()),
            ),
        );
        i += 1;
    }
    assert(statement_views(out@) =~= carried_links(
        source@,
        crate::engram::link_views(links@),
    ));
    out
}

/// The statements that link an engram with its neighbours, each with the similarity as its weight:
/// in both directions, but towards the neighbour only where the engram is quarantined.
pub open spec fn inferred_links(id: Seq<char>, quarantined: bool, near: Seq<ScoredView>) -> Seq<
    StatementView,
>
    decreases near.len(),
{
    if near.len() == 0 {
        Seq::empty()
    } else {
        let n = near.last();
        let there = inferred_links(id, quarantined, near.drop_last()).push(
            link_statement_of(id, n.id, n.score, LinkType::Associative),
        );
        if quarantined {
            there
        } else {
            there.push(link_statement_of(n.id, id, n.score, LinkType::Associative))
        }
    }
}

/// The query for the live memories whose embeddings are compared with that of a new memory.
pub open spec fn live_embeddings_query(id: Seq<char>) -> StatementView {
    StatementView {
        sql: "SELECT ee.engram_id, ee.embedding, e.created_at FROM engram_embeddings ee JOIN engrams e ON e.id = ee.engram_id WHERE ee.engram_id != ?1 AND NOT (e.imagined = 1 AND e.grounded = 0)"@,
        params: seq![SqlView::Text(id)],
    }
}

/// The query for the live memories whose embeddings are compared with that of a new memory.
pub fn live_embeddings(id: &str) -> (r: Statement)
    ensures
        r@ == live_embeddings_query(id@),
{
    with1(
        "SELECT ee.engram_id, ee.embedding, e.created_at FROM engram_embeddings ee JOIN engrams e ON e.id = ee.engram_id WHERE ee.engram_id != ?1 AND NOT (e.imagined = 1 AND e.grounded = 0)",
        text_value(id),
    )
}

/// The links from a new memory to its nearest neighbours, and back unless it is quarantined, given
/// the similarity of each live memory.
pub fn generate_semantic_links(
    id: &str,
    quarantined: bool,
    live: &Vec<Embedded>,
    scores: &Vec<Measure>,
    config: LinkInferenceConfig,
) -> (r: Vec<Statement>)
    requires
        live@.len() == scores@.len(),
    ensures
        statement_views(r@) == inferred_links(
            id@,
            quarantined,
            nearest(
                all_views(live@),
                scores@,
                Some(config.min_similarity),
                Seq::empty(),
                config.max_links,
            ),
        ),
{
    let none: Vec<String> = Vec::new();
    assert(texts(none@) =~= Seq::empty());
    let near = neighbours(live, scores, Some(config.min_similarity), &none, config.max_links);
    let ghost all = all_views(near@);
    let mut out: Vec<Statement> = Vec::new();
    let mut i: usize = 0;
    proof {
        assert(statement_views(out@) =~= Seq::empty());
    }
    while i < near.len()
        invariant
            i <= near@.len(),
            all == all_views(near@),
            statement_views(out@) == inferred_links(id@, quarantined, all.take(i as int)),
        decreases near@.len() - i,
    {
        let n = &near[i];
        let there = link_statement(id, n.id.as_str(), n.score, LinkType::Associative);
        proof {
            assert(all.take(i + 1).drop_last() =~= all.take(i as int));
            assert(all.take(i + 1).last() == n@);
            lemma_statements_push(out@, there);
        }
        out.push(there);
        if !quarantined {
            let back = link_statement(n.id.as_str(), id, n.score, LinkType::Associative);
            proof {
                lemma_statements_push(out@, back);
            }
            out.push(back);
        }
        i += 1;
    }
    proof {
        assert(all.take(all.len() as int) =~= all);
    }
    out
}

/// Every inferred link of a live memory goes both ways with the same weight, and there are two per
/// neighbour.
pub proof fn law_semantic_links_go_both_ways(id: Seq<char>, near: Seq<ScoredView>)
    ensures
        inferred_links(id, false, near).len() == 2 * near.len(),
        forall|i: int|
            0 <= i < near.len() ==> {
                let n = #[trigger] near[i];
                inferred_links(id, false, near)[2 * i] == link_statement_of(
                    id,
                    n.id,
                    n.score,
                    LinkType::Associative,
                ) && inferred_links(id, false, near)[2 * i + 1] == link_statement_of(
                    n.id,
                    id,
                    n.score,
                    LinkType::Associative,
                )
            },
    decreases near.len(),
{
    if near.len() > 0 {
        law_semantic_links_go_both_ways(id, near.drop_last());
        assert forall|i: int| 0 <= i < near.len() implies {
            let n = #[trigger] near[i];
            inferred_links(id, false, near)[2 * i] == link_statement_of(
                id,
                n.id,
                n.score,
                LinkType::Associative,
            ) && inferred_links(id, false, near)[2 * i + 1] == link_statement_of(
                n.id,
                id,
                n.score,
                LinkType::Associative,
            )
        } by {
            if i < near.len() - 1 {
                assert(near[i] == near.drop_last()[i]);
            }
        }
    }
}

/// No link is inferred into quarantine: the links of a quarantined memory all start from it.
pub proof fn law_no_link_leads_into_quarantine(id: Seq<char>, near: Seq<ScoredView>)
    ensures
        inferred_links(id, true, near).len() == near.len(),
        forall|i: int|
            0 <= i < near.len() ==> #[trigger] inferred_links(id, true, near)[i]
                == link_statement_of(id, near[i].id, near[i].score, LinkType::Associative),
    decreases near.len(),
{
    if near.len() > 0 {
        law_no_link_leads_into_quarantine(id, near.drop_last());
        assert forall|i: int| 0 <= i < near.len() implies #[trigger] inferred_links(
            id,
            true,
            near,
        )[i] == link_statement_of(id, near[i].id, near[i].score, LinkType::Associative) by {
            if i < near.len() - 1 {
                assert(near[i] == near.drop_last()[i]);
                assert(inferred_links(id, true, near)[i] == inferred_links(
                    id,
                    true,
                    near.drop_last(),
                )[i]);
            }
        }
    }
}

/// The query for the latest other memory of a source in a session.
pub open spec fn session_query(
    source: Seq<char>,
    id: Seq<char>,
    session: Seq<char>,
) -> StatementView {
    StatementView {
        sql: "SELECT id FROM engrams WHERE source = ?1 AND id != ?2 AND CASE WHEN json_valid(context) THEN json_extract(context, '$.session_id') = ?3 ELSE 0 END ORDER BY created_at DESC LIMIT 1"@,
        params: seq![
            SqlView::Text(source),
            SqlView::Text(id),
            SqlView::Text(session),
        ],
    }
}

/// The query for the latest other memory of a source.
pub open spec fn predecessor_query(source: Seq<char>, id: Seq<char>) -> StatementView {
    StatementView {
        sql: "SELECT id FROM engrams WHERE source = ?1 AND id != ?2 ORDER BY created_at DESC LIMIT 1"@,
        params: seq![SqlView::Text(source), SqlView::Text(id)],
    }
}

/// The query for the latest other memories of a source, with their tags.
pub open spec fn tagged_query(source: Seq<char>, id: Seq<char>) -> StatementView {
    StatementView {
        sql: "SELECT id, tags FROM engrams WHERE source = ?1 AND id != ?2 ORDER BY created_at DESC LIMIT 20"@,
        params: seq![SqlView::Text(source), SqlView::Text(id)],
    }
}

/// The query for the memories that a memory is already linked to.
pub open spec fn linked_query(id: Seq<char>) -> StatementView {
    StatementView {
        sql: "SELECT target_id FROM engram_links WHERE source_id = ?1"@,
        params: seq![SqlView::Text(id)],
    }
}

/// What has to be looked up before a new memory is linked.
#[derive(Debug)]
pub struct LinkLookups {
    /// What it is already linked to.
    pub linked: Statement,
    /// The latest memory of its session, where it has one.
    pub in_session: Option<Statement>,
    /// The latest memory of its source.
    pub predecessor: Statement,
    /// The latest memories of its source, with their tags.
    pub tagged: Statement,
}

/// What has to be looked up, as seen in contracts.
#[verifier::ext_equal]
pub struct LookupsView {
    pub linked: StatementView,
    pub in_session: Option<StatementView>,
    pub predecessor: StatementView,
    pub tagged: StatementView,
}

impl View for LinkLookups {
    type V = LookupsView;

    open spec fn view(&self) -> LookupsView {
        LookupsView {
            linked: self.linked@,
            in_session: match self.in_session {
                Some(s) => Some(s@),
                None => None,
            },
            predecessor: self.predecessor@,
            tagged: self.tagged@,
        }
    }
}

/// What has to be looked up for an engram in a session, or in none.
pub open spec fn lookups_for(e: EngramView, session: Option<Seq<char>>) -> LookupsView {
    LookupsView {
        linked: linked_query(e.id),
        in_session: match session {
            Some(s) => Some(session_query(e.source.name(), e.id, s)),
            None => None,
        },
        predecessor: predecessor_query(e.source.name(), e.id),
        tagged: tagged_query(e.source.name(), e.id),
    }
}

/// The session of an engram, from its context.
pub open spec fn session_of(e: EngramView) -> Option<Seq<char>> {
    json_member(e.context, "session_id"@)
}

/// What has to be looked up before an engram in a given session is linked.
pub fn lookups_in_session(e: &Engram, session: &Option<String>) -> (r: LinkLookups)
    ensures
        r@ == lookups_for(e@, opt_text(*session)),
{
    let source = e.source.as_str();
    let id = e.id.as_str();
    let in_session = match session {
        Some(s) => {
            Some(
                with3(
                    "SELECT id FROM engrams WHERE source = ?1 AND id != ?2 AND CASE WHEN json_valid(context) THEN json_extract(context, '$.session_id') = ?3 ELSE 0 END ORDER BY created_at DESC LIMIT 1",
                    text_value(source),
                    text_value(id),
                    text_value(s.as_str()),
                ),
            )
        },
        None => None,
    };
    LinkLookups {
        linked: with1("SELECT target_id FROM engram_links WHERE source_id = ?1", text_value(id)),
        in_session,
        predecessor: with2(
            "SELECT id FROM engrams WHERE source = ?1 AND id != ?2 ORDER BY created_at DESC LIMIT 1",
            text_value(source),
            text_value(id),
        ),
        tagged: with2(
            "SELECT id, tags FROM engrams WHERE source = ?1 AND id != ?2 ORDER BY created_at DESC LIMIT 20",
            text_value(source),
            text_value(id),
        ),
    }
}

/// What has to be looked up before an engram is linked.
pub fn link_lookups(e: &Engram) -> (r: LinkLookups)
    ensures
        r@ == lookups_for(e@, session_of(e@)),
{
    let session = text_member(e.context.as_str(), "session_id");
    lookups_in_session(e, &session)
}

/// A memory of the same source, with its stored tags.
#[derive(Debug)]
pub struct Tagged {
    pub id: String,
    pub tags: String,
}

/// What the lookups found.
#[derive(Debug)]
pub struct LinkFindings {
    pub linked: Vec<String>,
    pub in_session: Option<String>,
    pub predecessor: Option<String>,
    pub tagged: Vec<Tagged>,
}

/// A memory of the same source, as seen in contracts.
#[verifier::ext_equal]
pub struct TaggedView {
    pub id: Seq<char>,
    pub tags: Seq<char>,
}

impl View for Tagged {
    type V = TaggedView;

    open spec fn view(&self) -> TaggedView {
        TaggedView { id: self.id@, tags: self.tags@ }
    }
}

/// What the lookups found, as seen in contracts.
#[verifier::ext_equal]
pub struct FindingsView {
    pub linked: Seq<Seq<char>>,
    pub in_session: Option<Seq<char>>,
    pub predecessor: Option<Seq<char>>,
    pub tagged: Seq<TaggedView>,
}

impl View for LinkFindings {
    type V = FindingsView;

    open spec fn view(&self) -> FindingsView {
        FindingsView {
            linked: texts(self.linked@),
            in_session: opt_text(self.in_session),
            predecessor: opt_text(self.predecessor),
            tagged: all_views(self.tagged@),
        }
    }
}

/// How many tags of one list also stand in another.
pub open spec fn shared(tags: Seq<Seq<char>>, others: Seq<Seq<char>>) -> nat
    decreases tags.len(),
{
    if tags.len() == 0 {
        0
    } else if others.contains(tags.last()) {
        shared(tags.drop_last(), others) + 1
    } else {
        shared(tags.drop_last(), others)
    }
}

/// The memory that shares most tags with a list, the first of several; it must share at least two
/// fifths of the list.
pub open spec fn closest(tags: Seq<Seq<char>>, list: Seq<TaggedView>) -> Option<(Seq<char>, nat)>
    decreases list.len(),
{
    if list.len() == 0 {
        None
    } else {
        let best = closest(tags, list.drop_last());
        let n = shared(tags, stored_tags(list.last().tags));
        if tags.len() > 0 && 5 * n >= 2 * tags.len() && (best is None || n > (best->0).1) {
            Some((list.last().id, n))
        } else {
            best
        }
    }
}

fn count_shared(tags: &Vec<String>, others: &Vec<String>) -> (r: usize)
    ensures
        r == shared(texts(tags@), texts(others@)),
        r <= tags@.len(),
{
    let ghost all = texts(tags@);
    let mut n: usize = 0;
    let mut i: usize = 0;
    while i < tags.len()
        invariant
            i <= tags@.len(),
            n <= i,
            all == texts(tags@),
            n == shared(all.take(i as int), texts(others@)),
        decreases tags@.len() - i,
    {
        proof {
            assert(all.take(i + 1).drop_last() =~= all.take(i as int));
            assert(all.take(i + 1).last() == tags@[i as int]@);
        }
        if holds_text(others, tags[i].as_str()) {
            n += 1;
        }
        i += 1;
    }
    proof {
        assert(all.take(all.len() as int) =~= all);
    }
    n
}

/// A memory and how much of the new memory's tags it shares.
#[derive(Debug)]
pub struct Overlap {
    pub target: String,
    /// How many tags are shared.
    pub shared: usize,
    /// How many tags the new memory has.
    pub of: usize,
}

/// An overlap, as seen in contracts.
#[verifier::ext_equal]
pub struct OverlapView {
    pub target: Seq<char>,
    pub shared: nat,
    pub of: nat,
}

impl View for Overlap {
    type V = OverlapView;

    open spec fn view(&self) -> OverlapView {
        OverlapView { target: self.target@, shared: self.shared as nat, of: self.of as nat }
    }
}

/// The links a new memory gets: one to its predecessor in time, and one to the memory that shares
/// most tags with it, weighted by the share.
#[derive(Debug)]
pub struct CaptureLinks {
    pub temporal: Option<Statement>,
    pub associative: Option<Overlap>,
}

/// The links a new memory gets, as seen in contracts.
#[verifier::ext_equal]
pub struct CaptureLinksView {
    pub temporal: Option<StatementView>,
    pub associative: Option<OverlapView>,
}

impl View for CaptureLinks {
    type V = CaptureLinksView;

    open spec fn view(&self) -> CaptureLinksView {
        CaptureLinksView {
            temporal: match self.temporal {
                Some(s) => Some(s@),
                None => None,
            },
            associative: match self.associative {
                Some(o) => Some(o@),
                None => None,
            },
        }
    }
}

/// The bits of 0.6, the weight of a link in time.
pub const TEMPORAL_WEIGHT: u64 = 0x3fe3_3333_3333_3333;

/// The memory that came before: the latest of the session, else the latest of the source.
pub open spec fn came_before(f: FindingsView) -> Option<Seq<char>> {
    match f.in_session {
        Some(id) => Some(id),
        None => f.predecessor,
    }
}

/// The links a new memory gets. What it is already linked to is left alone.
pub open spec fn capture_links(e: EngramView, f: FindingsView) -> CaptureLinksView {
    CaptureLinksView {
        temporal: match came_before(f) {
            Some(id) if !f.linked.contains(id) => Some(
                link_statement_of(
                    e.id,
                    id,
                    Measure { bits: TEMPORAL_WEIGHT },
                    LinkType::Temporal,
                ),
            ),
            _ => None,
        },
        associative: match closest(e.tags, f.tagged) {
            Some(p) if !f.linked.contains(p.0) => Some(
                OverlapView { target: p.0, shared: p.1, of: e.tags.len() },
            ),
            _ => None,
        },
    }
}

fn find_closest(tags: &Vec<String>, list: &Vec<Tagged>) -> (r: Option<(usize, usize)>)
    ensures
        match r {
            Some(p) => p.0 < list@.len() && closest(texts(tags@), all_views(list@)) == Some(
                (list@[p.0 as int].id@, p.1 as nat),
            ),
            None => closest(texts(tags@), all_views(list@)) is None,
        },
{
    let ghost all = all_views(list@);
    let mut best: Option<(usize, usize)> = None;
    let mut i: usize = 0;
    while i < list.len()
        invariant
            i <= list@.len(),
            all == all_views(list@),
            match best {
                Some(p) => p.0 < i && p.1 <= tags@.len() && closest(
                    texts(tags@),
                    all.take(i as int),
                ) == Some((list@[p.0 as int].id@, p.1 as nat)),
                None => closest(texts(tags@), all.take(i as int)) is None,
            },
        decreases list@.len() - i,
    {
        let others = read_tags(list[i].tags.as_str());
        let n: usize = count_shared(tags, &others);
        proof {
            assert(all.take(i + 1).drop_last() =~= all.take(i as int));
            assert(all.take(i + 1).last() == list@[i as int]@);
            assert(texts(tags@).len() == tags@.len());
        }
        let better = match best {
            Some(p) => n > p.1,
            None => true,
        };
        let enough = 5 * (n as u128) >= 2 * (tags.len() as u128);
        if tags.len() > 0 && enough && better {
            best = Some((i, n));
        }
        i += 1;
    }
    proof {
        assert(all.take(all.len() as int) =~= all);
    }
    best
}

/// The links a new memory gets, given what the lookups found.
pub fn generate_links(e: &Engram, found: &LinkFindings) -> (r: CaptureLinks)
    ensures
        r@ == capture_links(e@, found@),
{
    let before = match &found.in_session {
        Some(id) => Some(id.clone()),
        None => crate::text::clone_opt(&found.predecessor),
    };
    let temporal = match before {
        Some(id) => {
            if holds_text(&found.linked, id.as_str()) {
                None
            } else {
                Some(
                    link_statement(
                        e.id.as_str(),
                        id.as_str(),
                        Measure { bits: TEMPORAL_WEIGHT },
                        LinkType::Temporal,
                    ),
                )
            }
        },
        None => None,
    };
    let associative = match find_closest(&e.tags, &found.tagged) {
        Some(p) => {
            let target = found.tagged[p.0].id.clone();
            if holds_text(&found.linked, target.as_str()) {
                None
            } else {
                Some(Overlap { target, shared: p.1, of: e.tags.len() })
            }
        },
        None => None,
    };
    proof {
        assert(texts(e.tags@).len() == e.tags@.len());
    }
    CaptureLinks { temporal, associative }
}

/// Pairs that are already linked are left alone.
pub proof fn law_existing_links_are_left_alone(e: EngramView, f: FindingsView)
    ensures
        capture_links(e, f).temporal matches Some(s) ==> exists|id: Seq<char>|
            !#[trigger] f.linked.contains(id) && s == link_statement_of(
                e.id,
                id,
                Measure { bits: TEMPORAL_WEIGHT },
                LinkType::Temporal,
            ),
        capture_links(e, f).associative matches Some(o) ==> !f.linked.contains(o.target),
{
    if let Some(s) = capture_links(e, f).temporal {
        let id = came_before(f)->0;
        assert(!f.linked.contains(id));
    }
}

/// The weight of an associative link is a share of the tags between two fifths and one.
pub proof fn law_shared_tags_are_a_fraction(tags: Seq<Seq<char>>, list: Seq<TaggedView>)
    ensures
        closest(tags, list) matches Some(p) ==> 5 * p.1 >= 2 * tags.len() && p.1 <= tags.len()
            && tags.len() > 0,
    decreases list.len(),
{
    if list.len() > 0 {
        law_shared_tags_are_a_fraction(tags, list.drop_last());
        lemma_shared_bound(tags, stored_tags(list.last().tags));
    }
}

proof fn lemma_shared_bound(tags: Seq<Seq<char>>, others: Seq<Seq<char>>)
    ensures
        shared(tags, others) <= tags.len(),
    decreases tags.len(),
{
    if tags.len() > 0 {
        lemma_shared_bound(tags.drop_last(), others);
    }
}

/// A link is stored from one memory to another, with its weight and the name of its type.
pub proof fn law_link_is_stored_as_given(
    source: Seq<char>,
    target: Seq<char>,
    weight: Measure,
    link_type: LinkType,
)
    ensures
        link_statement_of(source, target, weight, link_type) == (StatementView {
            sql: "INSERT OR REPLACE INTO engram_links (source_id, target_id, weight, link_type) VALUES (?1, ?2, ?3, ?4)"@,
            params: seq![
                SqlView::Text(source),
                SqlView::Text(target),
                SqlView::Real(weight),
                SqlView::Text(
                    match link_type {
                        LinkType::Associative => "associative"@,
                        LinkType::Causal => "causal"@,
                        LinkType::Analogical => "analogical"@,
                        LinkType::Temporal => "temporal"@,
                    },
                ),
            ],
        }),
{
}

/// Every link that came with a memory is stored as it came, if its target is there, and no other.
pub proof fn law_carried_links_are_stored_as_they_came(
    source: Seq<char>,
    links: Seq<LinkView>,
    i: int,
)
    requires
        0 <= i < links.len(),
    ensures
        carried_links(source, links).len() == links.len(),
        carried_links(source, links)[i].sql
            == "INSERT OR REPLACE INTO engram_links (source_id, target_id, weight, link_type) SELECT ?1, ?2, ?3, ?4 WHERE EXISTS (SELECT 1 FROM engrams WHERE id = ?2)"@,
        carried_links(source, links)[i].params == link_statement_of(
            source,
            links[i].target_id,
            links[i].weight,
            links[i].link_type,
        ).params,
{
}

/// A new memory is linked to the one that came before it, with a weight of 0.6: the latest of its
/// session where there is one, else the latest of its source; unless the two are linked already or
/// there is none.
pub proof fn law_memory_is_linked_to_its_predecessor(e: EngramView, f: FindingsView)
    ensures
        ({
            let before = if f.in_session is Some {
                f.in_session
            } else {
                f.predecessor
            };
            capture_links(e, f).temporal == if before is Some && !f.linked.contains(before->0) {
                Some(
                    StatementView {
                        sql: "INSERT OR REPLACE INTO engram_links (source_id, target_id, weight, link_type) VALUES (?1, ?2, ?3, ?4)"@,
                        params: seq![
                            SqlView::Text(e.id),
                            SqlView::Text(before->0),
                            SqlView::Real(Measure { bits: 0x3fe3_3333_3333_3333 }),
                            SqlView::Text("temporal"@),
                        ],
                    },
                )
            } else {
                None
            }
        }),
{
}

/// The shared tags are those of the one memory that the other one has too.
pub proof fn law_shared_tags_are_counted(tags: Seq<Seq<char>>, others: Seq<Seq<char>>)
    ensures
        shared(tags, others) == tags.filter(|t: Seq<char>| others.contains(t)).len(),
    decreases tags.len(),
{
    reveal(Seq::filter);
    if tags.len() > 0 {
        law_shared_tags_are_counted(tags.drop_last(), others);
    }
}

/// The closest relative of a memory shares two fifths of its tags or more, and no candidate shares
/// more; a memory has none only if no candidate shares that many.
pub proof fn law_closest_relative_shares_the_most(tags: Seq<Seq<char>>, list: Seq<TaggedView>)
    requires
        tags.len() > 0,
    ensures
        forall|i: int|
            0 <= i < list.len() && 5 * shared(tags, stored_tags((#[trigger] list[i]).tags)) >= 2
                * tags.len() ==> closest(tags, list) is Some && (closest(tags, list)->0).1 >= shared(
                tags,
                stored_tags(list[i].tags),
            ),
        closest(tags, list) is Some ==> 5 * (closest(tags, list)->0).1 >= 2 * tags.len()
            && exists|i: int|
            0 <= i < list.len() && (#[trigger] list[i]).id == (closest(tags, list)->0).0 && shared(
                tags,
                stored_tags(list[i].tags),
            ) == (closest(tags, list)->0).1,
    decreases list.len(),
{
    if list.len() > 0 {
        let before = list.drop_last();
        law_closest_relative_shares_the_most(tags, before);
        let best = closest(tags, before);
        assert forall|i: int|
            0 <= i < list.len() && 5 * shared(tags, stored_tags((#[trigger] list[i]).tags)) >= 2
                * tags.len() implies closest(tags, list) is Some && (closest(tags, list)->0).1
            >= shared(tags, stored_tags(list[i].tags)) by {
            if i < before.len() {
                assert(before[i] == list[i]);
            }
        }
        if closest(tags, list) is Some {
            if closest(tags, list) == best {
                let i = choose|i: int|
                    0 <= i < before.len() && (#[trigger] before[i]).id == (best->0).0 && shared(
                        tags,
                        stored_tags(before[i].tags),
                    ) == (best->0).1;
                assert(list[i] == before[i]);
            } else {
                assert(list[list.len() - 1].id == (closest(tags, list)->0).0);
            }
        }
    }
}

/// A new memory is linked to its closest relative by tags, unless the two are linked already: the
/// link goes to that relative and carries how many of the memory's tags the two share.
pub proof fn law_memory_is_linked_to_its_closest_relative(e: EngramView, f: FindingsView)
    ensures
        capture_links(e, f).associative is Some <==> closest(e.tags, f.tagged) is Some
            && !f.linked.contains((closest(e.tags, f.tagged)->0).0),
        capture_links(e, f).associative is Some ==> {
            let o = capture_links(e, f).associative->0;
            &&& o.target == (closest(e.tags, f.tagged)->0).0
            &&& o.of == e.tags.len()
            &&& exists|i: int|
                0 <= i < f.tagged.len() && (#[trigger] f.tagged[i]).id == o.target && o.shared
                    == e.tags.filter(
                    |t: Seq<char>| stored_tags(f.tagged[i].tags).contains(t),
                ).len()
        },
{
    if capture_links(e, f).associative is Some {
        law_shared_tags_are_a_fraction(e.tags, f.tagged);
        law_closest_relative_shares_the_most(e.tags, f.tagged);
        let p = closest(e.tags, f.tagged)->0;
        let i = choose|i: int|
            0 <= i < f.tagged.len() && (#[trigger] f.tagged[i]).id == p.0 && shared(
                e.tags,
                stored_tags(f.tagged[i].tags),
            ) == p.1;
        law_shared_tags_are_counted(e.tags, stored_tags(f.tagged[i].tags));
        assert(f.tagged[i].id == p.0);
    }
}

/// What is looked up for the links of a new memory: what it is linked to, the latest memory of its
/// source and, where it has a session, of that session, and the latest twenty with tags; never the
/// memory itself.
pub proof fn law_relatives_are_looked_up_by_source(e: EngramView, session: Option<Seq<char>>)
    ensures
        ({
            let l = lookups_for(e, session);
            &&& l.linked == (StatementView {
                sql: "SELECT target_id FROM engram_links WHERE source_id = ?1"@,
                params: seq![SqlView::Text(e.id)],
            })
            &&& l.in_session is Some <==> session is Some
            &&& session is Some ==> l.in_session->0 == (StatementView {
                sql: "SELECT id FROM engrams WHERE source = ?1 AND id != ?2 AND CASE WHEN json_valid(context) THEN json_extract(context, '$.session_id') = ?3 ELSE 0 END ORDER BY created_at DESC LIMIT 1"@,
                params: seq![
                    SqlView::Text(e.source.name()),
                    SqlView::Text(e.id),
                    SqlView::Text(session->0),
                ],
            })
            &&& l.predecessor == (StatementView {
                sql: "SELECT id FROM engrams WHERE source = ?1 AND id != ?2 ORDER BY created_at DESC LIMIT 1"@,
                params: seq![SqlView::Text(e.source.name()), SqlView::Text(e.id)],
            })
            &&& l.tagged == (StatementView {
                sql: "SELECT id, tags FROM engrams WHERE source = ?1 AND id != ?2 ORDER BY created_at DESC LIMIT 20"@,
                params: seq![SqlView::Text(e.source.name()), SqlView::Text(e.id)],
            })
        }),
{
}

/// A live memory is linked both ways with the live memories that are the most similar to it, if
/// they are similar enough: of each stored one that is, either both links are made, with the
/// similarity as their weight, or as many others as may be linked are no less similar.
pub proof fn law_similar_memories_are_linked(
    id: Seq<char>,
    live: Seq<EmbeddedView>,
    scores: Seq<Measure>,
    min: Measure,
    max: usize,
    k: int,
)
    requires
        live.len() == scores.len(),
        0 <= k < live.len(),
        scores[k].at_least(min),
    ensures
        ({
            let near = nearest(live, scores, Some(min), Seq::empty(), max);
            let made = inferred_links(id, false, near);
            ||| made.contains(
                link_statement_of(id, live[k].id, scores[k], LinkType::Associative),
            ) && made.contains(
                link_statement_of(live[k].id, id, scores[k], LinkType::Associative),
            )
            ||| near.len() == max && forall|i: int|
                0 <= i < near.len() ==> (#[trigger] near[i]).score.rank() >= scores[k].rank()
        }),
{
    let near = nearest(live, scores, Some(min), Seq::empty(), max);
    let made = inferred_links(id, false, near);
    law_nearest_ones_are_found(live, scores, Some(min), Seq::empty(), max, k);
    law_semantic_links_go_both_ways(id, near);
    let x = ScoredView { id: live[k].id, score: scores[k], created_at: live[k].created_at };
    if near.contains(x) {
        let i = choose|i: int| 0 <= i < near.len() && near[i] == x;
        assert(near[i].id == live[k].id);
        assert(made[2 * i] == link_statement_of(id, live[k].id, scores[k], LinkType::Associative));
        assert(made[2 * i + 1] == link_statement_of(
            live[k].id,
            id,
            scores[k],
            LinkType::Associative,
        ));
    }
}

/// Of relatives that share equally many tags the first one counts, which is the newest: every
/// candidate before the closest relative shares fewer.
pub proof fn law_first_of_the_closest_counts(tags: Seq<Seq<char>>, list: Seq<TaggedView>)
    requires
        tags.len() > 0,
    ensures
        closest(tags, list) is Some ==> exists|i: int|
            0 <= i < list.len() && (#[trigger] list[i]).id == (closest(tags, list)->0).0 && shared(
                tags,
                stored_tags(list[i].tags),
            ) == (closest(tags, list)->0).1 && forall|j: int|
                0 <= j < i ==> shared(tags, stored_tags((#[trigger] list[j]).tags)) < (closest(
                    tags,
                    list,
                )->0).1,
    decreases list.len(),
{
    if list.len() > 0 {
        let before = list.drop_last();
        law_first_of_the_closest_counts(tags, before);
        law_closest_relative_shares_the_most(tags, before);
        let best = closest(tags, before);
        let now = closest(tags, list);
        if now is Some {
            if now == best {
                let i = choose|i: int|
                    0 <= i < before.len() && (#[trigger] before[i]).id == (best->0).0 && shared(
                        tags,
                        stored_tags(before[i].tags),
                    ) == (best->0).1 && forall|j: int|
                        0 <= j < i ==> shared(tags, stored_tags((#[trigger] before[j]).tags)) < (
                        best->0).1;
                assert(list[i] == before[i]);
                assert forall|j: int| 0 <= j < i implies shared(
                    tags,
                    stored_tags((#[trigger] list[j]).tags),
                ) < (now->0).1 by {
                    assert(before[j] == list[j]);
                }
            } else {
                let i = list.len() - 1;
                assert(list[i].id == (now->0).0);
                assert forall|j: int| 0 <= j < i implies shared(
                    tags,
                    stored_tags((#[trigger] list[j]).tags),
                ) < (now->0).1 by {
                    assert(before[j] == list[j]);
                    let n = shared(tags, stored_tags(list[j].tags));
                    if n >= (now->0).1 {
                        assert(5 * n >= 2 * tags.len());
                        assert(best is Some && (best->0).1 >= n);
                    }
                }
            }
        }
    }
}

} // verus!
