//! Queries for memories, and how their results are chosen and ordered.
use crate::engram::{Engram, EngramLayer, EngramView};
use crate::entry::{
    engram_layer_of, engram_to_memory_entry, entry_of, memory_layer_to_engram_layer, MemoryEntry,
    MemoryLayer, MemoryScope, MemorySource,
};
use crate::error::EngramError;
use crate::measure::{Measure, ZERO};
use crate::qem::QemConfig;
use crate::rank::{
    all_views, law_ranking_orders_and_keeps_everything, rank, ranking, top, Ranked,
};
use crate::rows::engram_views;
use crate::text::{
    clone_texts, dictionary_le, in_order, lemma_dictionary_total, lemma_dictionary_transitive,
    opt_text, texts,
};
use crate::time::Timestamp;
use vstd::prelude::*;

verus! {

/// By what results are ordered.
#[derive(Debug, Clone, Copy, PartialEq, Eq, Structural)]
pub enum SortKey {
    /// The strongest first.
    Strength,
    /// The newest first.
    Recency,
    /// The most positive first.
    Valence,
    /// The most often retrieved first.
    RetrievalCount,
    /// The most relevant first.
    Relevance,
}

/// A query for memories.
#[derive(Debug)]
pub struct Query {
    pub text: Option<String>,
    pub embedding: Option<Vec<Measure>>,
    pub layer: Option<MemoryLayer>,
    pub scope: Option<MemoryScope>,
    pub source: Option<MemorySource>,
    /// All of them must be there.
    pub tags: Vec<String>,
    pub project: Option<String>,
    pub min_strength: Option<Measure>,
    pub created_after: Option<Timestamp>,
    pub created_before: Option<Timestamp>,
    pub exclude_session: Option<String>,
    pub sort_by: SortKey,
    pub limit: usize,
    pub offset: usize,
    /// The code of a subject, for the lookup of associations.
    pub subject_code: Option<u32>,
    /// The code of a relation, for the lookup of associations.
    pub relation_code: Option<u32>,
}

/// A query, as seen in contracts.
#[verifier::ext_equal]
pub struct QueryView {
    pub text: Option<Seq<char>>,
    pub embedding: Option<Seq<Measure>>,
    pub layer: Option<MemoryLayer>,
    pub scope: Option<MemoryScope>,
    pub source: Option<MemorySource>,
    pub tags: Seq<Seq<char>>,
    pub project: Option<Seq<char>>,
    pub min_strength: Option<Measure>,
    pub created_after: Option<Timestamp>,
    pub created_before: Option<Timestamp>,
    pub exclude_session: Option<Seq<char>>,
    pub sort_by: SortKey,
    pub limit: usize,
    pub offset: usize,
    pub subject_code: Option<u32>,
    pub relation_code: Option<u32>,
}

impl View for Query {
    type V = QueryView;

    open spec fn view(&self) -> QueryView {
        QueryView {
            text: opt_text(self.text),
            embedding: match self.embedding {
                Some(v) => Some(v@),
                None => None,
            },
            layer: self.layer,
            scope: self.scope,
            source: self.source,
            tags: texts(self.tags@),
            project: opt_text(self.project),
            min_strength: self.min_strength,
            created_after: self.created_after,
            created_before: self.created_before,
            exclude_session: opt_text(self.exclude_session),
            sort_by: self.sort_by,
            limit: self.limit,
            offset: self.offset,
            subject_code: self.subject_code,
            relation_code: self.relation_code,
        }
    }
}

impl QueryView {
    /// The query that asks for nothing in particular: the first twenty, the strongest first.
    pub open spec fn any() -> QueryView {
        QueryView {
            text: None,
            embedding: None,
            layer: None,
            scope: None,
            source: None,
            tags: Seq::empty(),
            project: None,
            min_strength: None,
            created_after: None,
            created_before: None,
            exclude_session: None,
            sort_by: SortKey::Strength,
            limit: 20,
            offset: 0,
            subject_code: None,
            relation_code: None,
        }
    }
}

impl Default for Query {
    fn default() -> (r: Self)
        ensures
            r@ == QueryView::any(),
    {
        let r = Query {
            text: None,
            embedding: None,
            layer: None,
            scope: None,
            source: None,
            tags: Vec::new(),
            project: None,
            min_strength: None,
            created_after: None,
            created_before: None,
            exclude_session: None,
            sort_by: SortKey::Strength,
            limit: 20,
            offset: 0,
            subject_code: None,
            relation_code: None,
        };
        assert(r@.tags =~= Seq::empty());
        r
    }
}

impl Query {
    /// The query that asks for nothing in particular.
    pub fn new() -> (r: Self)
        ensures
            r@ == QueryView::any(),
    {
        Query::default()
    }

    /// Asks for a text.
    pub fn text(self, text: String) -> (r: Self)
        ensures
            r@ == (QueryView { text: Some(text@), ..self@ }),
    {
        let mut q = self;
        q.text = Some(text);
        q
    }

    /// Asks for what is similar.
    pub fn embedding(self, embedding: Vec<Measure>) -> (r: Self)
        ensures
            r@ == (QueryView { embedding: Some(embedding@), ..self@ }),
    {
        let mut q = self;
        q.embedding = Some(embedding);
        q
    }

    /// Asks for a layer.
    pub fn layer(self, layer: MemoryLayer) -> (r: Self)
        ensures
            r@ == (QueryView { layer: Some(layer), ..self@ }),
    {
        let mut q = self;
        q.layer = Some(layer);
        q
    }

    /// Asks for a scope.
    pub fn scope(self, scope: MemoryScope) -> (r: Self)
        ensures
            r@ == (QueryView { scope: Some(scope), ..self@ }),
    {
        let mut q = self;
        q.scope = Some(scope);
        q
    }

    /// Asks for a strength at least.
    pub fn min_strength(self, strength: Measure) -> (r: Self)
        ensures
            r@ == (QueryView { min_strength: Some(strength), ..self@ }),
    {
        let mut q = self;
        q.min_strength = Some(strength);
        q
    }

    /// Asks for what was made after a time.
    pub fn created_after(self, ts: Timestamp) -> (r: Self)
        ensures
            r@ == (QueryView { created_after: Some(ts), ..self@ }),
    {
        let mut q = self;
        q.created_after = Some(ts);
        q
    }

    /// Leaves out a session.
    pub fn exclude_session(self, session_id: String) -> (r: Self)
        ensures
            r@ == (QueryView { exclude_session: Some(session_id@), ..self@ }),
    {
        let mut q = self;
        q.exclude_session = Some(session_id);
        q
    }

    /// Asks for an order.
    pub fn sort_by(self, sort: SortKey) -> (r: Self)
        ensures
            r@ == (QueryView { sort_by: sort, ..self@ }),
    {
        let mut q = self;
        q.sort_by = sort;
        q
    }

    /// Asks for so many at most.
    pub fn limit(self, limit: usize) -> (r: Self)
        ensures
            r@ == (QueryView { limit, ..self@ }),
    {
        let mut q = self;
        q.limit = limit;
        q
    }

    /// Passes over the first ones.
    pub fn offset(self, offset: usize) -> (r: Self)
        ensures
            r@ == (QueryView { offset, ..self@ }),
    {
        let mut q = self;
        q.offset = offset;
        q
    }
}

/// The query that fills a cache: the strongest memories, as many as the cache takes at first.
pub fn warm_query(config: QemConfig) -> (r: Query)
    ensures
        r@ == (QueryView {
            min_strength: Some(config.warm_strength_min),
            sort_by: SortKey::Strength,
            limit: config.warm_limit,
            ..QueryView::any()
        }),
{
    Query::new().min_strength(config.warm_strength_min).sort_by(SortKey::Strength).limit(
        config.warm_limit,
    )
}

/// What a query is looked up by.
#[derive(Debug)]
pub enum Lookup {
    Content(String),
    Tags(Vec<String>),
    Layer(EngramLayer),
    /// All, from an offset on.
    All(usize),
}

/// What a query is looked up by, as seen in contracts.
#[verifier::ext_equal]
pub enum LookupView {
    Content(Seq<char>),
    Tags(Seq<Seq<char>>),
    Layer(EngramLayer),
    All(usize),
}

impl View for Lookup {
    type V = LookupView;

    open spec fn view(&self) -> LookupView {
        match self {
            Lookup::Content(s) => LookupView::Content(s@),
            Lookup::Tags(v) => LookupView::Tags(texts(v@)),
            Lookup::Layer(l) => LookupView::Layer(*l),
            Lookup::All(n) => LookupView::All(*n),
        }
    }
}

impl QueryView {
    /// What the store looks a query up by: its text, else its tags, else its layer.
    pub open spec fn store_lookup(self) -> LookupView {
        if self.text is Some {
            LookupView::Content(self.text->0)
        } else if self.tags.len() > 0 {
            LookupView::Tags(self.tags)
        } else if self.layer is Some {
            LookupView::Layer(engram_layer_of(self.layer->0))
        } else {
            LookupView::All(self.offset)
        }
    }

    /// What a backend looks a query up by: its layer, else its text, else its tags.
    pub open spec fn backend_lookup(self) -> LookupView {
        if self.layer is Some {
            LookupView::Layer(engram_layer_of(self.layer->0))
        } else if self.text is Some {
            LookupView::Content(self.text->0)
        } else if self.tags.len() > 0 {
            LookupView::Tags(self.tags)
        } else {
            LookupView::All(self.offset)
        }
    }

    /// How many a backend fetches: more than asked for where it still leaves some out or orders
    /// them.
    pub open spec fn fetch_limit(self) -> usize {
        if (self.min_strength is Some || self.sort_by !is Relevance) && self.limit < 2000 {
            2000
        } else {
            self.limit
        }
    }
}

impl Query {
    /// What the store looks a query up by.
    pub fn store_lookup(&self) -> (r: Lookup)
        ensures
            r@ == self@.store_lookup(),
    {
        assert(texts(self.tags@).len() == self.tags@.len());
        if let Some(text) = &self.text {
            Lookup::Content(text.clone())
        } else if self.tags.len() > 0 {
            Lookup::Tags(clone_texts(&self.tags))
        } else if let Some(layer) = self.layer {
            Lookup::Layer(memory_layer_to_engram_layer(layer))
        } else {
            Lookup::All(self.offset)
        }
    }

    /// What a backend looks a query up by.
    pub fn backend_lookup(&self) -> (r: Lookup)
        ensures
            r@ == self@.backend_lookup(),
    {
        assert(texts(self.tags@).len() == self.tags@.len());
        if let Some(layer) = self.layer {
            Lookup::Layer(memory_layer_to_engram_layer(layer))
        } else if let Some(text) = &self.text {
            Lookup::Content(text.clone())
        } else if self.tags.len() > 0 {
            Lookup::Tags(clone_texts(&self.tags))
        } else {
            Lookup::All(self.offset)
        }
    }

    /// How many a backend fetches.
    pub fn fetch_limit(&self) -> (r: usize)
        ensures
            r == self@.fetch_limit(),
    {
        let wider = match self.sort_by {
            SortKey::Relevance => self.min_strength.is_some(),
            _ => true,
        };
        if wider && self.limit < 2000 {
            2000
        } else {
            self.limit
        }
    }
}

/// A result and what it is ordered by.
#[derive(Debug)]
pub struct Hit {
    pub engram: Engram,
    pub key: i64,
}

/// A result, as seen in contracts.
#[verifier::ext_equal]
pub struct HitView {
    pub engram: EngramView,
    pub key: int,
}

impl View for Hit {
    type V = HitView;

    open spec fn view(&self) -> HitView {
        HitView { engram: self.engram@, key: self.key as int }
    }
}

impl Ranked for Hit {
    open spec fn before(a: HitView, b: HitView) -> bool {
        ||| a.key > b.key
        ||| a.key == b.key && a.engram.created_at.after(b.engram.created_at)
        ||| a.key == b.key && a.engram.created_at == b.engram.created_at && dictionary_le(
            a.engram.id,
            b.engram.id,
        )
    }

    proof fn lemma_total(a: HitView, b: HitView) {
        lemma_dictionary_total(a.engram.id, b.engram.id);
    }

    proof fn lemma_transitive(a: HitView, b: HitView, c: HitView) {
        if dictionary_le(a.engram.id, b.engram.id) && dictionary_le(b.engram.id, c.engram.id) {
            lemma_dictionary_transitive(a.engram.id, b.engram.id, c.engram.id);
        }
    }

    fn goes_before(&self, other: &Self) -> (r: bool) {
        if self.key != other.key {
            self.key > other.key
        } else if self.engram.created_at != other.engram.created_at {
            self.engram.created_at.is_after(other.engram.created_at)
        } else {
            in_order(self.engram.id.as_str(), other.engram.id.as_str())
        }
    }
}

impl SortKey {
    /// What an engram is ordered by. By recency all are alike: the creation, which tells results
    /// apart that are otherwise alike, decides.
    pub open spec fn key_of(self, e: EngramView, relevance: Measure) -> int {
        match self {
            SortKey::Strength => e.strength.rank(),
            SortKey::Recency => 0,
            SortKey::Valence => e.valence.rank(),
            SortKey::RetrievalCount => e.retrievals as int,
            SortKey::Relevance => relevance.rank(),
        }
    }

    fn key(self, e: &Engram, relevance: Measure) -> (r: i64)
        ensures
            r == self.key_of(e@, relevance),
    {
        match self {
            SortKey::Strength => e.strength.position(),
            SortKey::Recency => 0,
            SortKey::Valence => e.valence.position(),
            SortKey::RetrievalCount => e.retrievals as i64,
            SortKey::Relevance => relevance.position(),
        }
    }
}

/// Whether an engram is strong enough.
pub open spec fn strong_enough(e: EngramView, min: Option<Measure>) -> bool {
    match min {
        Some(m) => e.strength.at_least(m),
        None => true,
    }
}

/// The engrams that are strong enough, with what they are ordered by.
pub open spec fn hits(
    list: Seq<EngramView>,
    relevance: Seq<Measure>,
    min: Option<Measure>,
    key: SortKey,
) -> Seq<HitView>
    decreases list.len(),
{
    if list.len() == 0 {
        Seq::empty()
    } else {
        let before = hits(list.drop_last(), relevance, min, key);
        let e = list.last();
        if strong_enough(e, min) {
            before.push(HitView { engram: e, key: key.key_of(e, relevance[list.len() - 1]) })
        } else {
            before
        }
    }
}

/// The engrams of results.
pub open spec fn engrams_of(list: Seq<HitView>) -> Seq<EngramView> {
    list.map_values(|h: HitView| h.engram)
}

fn collect_hits(
    list: &Vec<Engram>,
    relevance: &Vec<Measure>,
    min: Option<Measure>,
    key: SortKey,
) -> (r: Vec<Hit>)
    requires
        list@.len() == relevance@.len(),
    ensures
        all_views(r@) == hits(engram_views(list@), relevance@, min, key),
{
    let ghost all = engram_views(list@);
    let mut out: Vec<Hit> = Vec::new();
    let mut i: usize = 0;
    assert(all_views(out@) =~= Seq::empty());
    while i < list.len()
        invariant
            i <= list@.len(),
            list@.len() == relevance@.len(),
            all == engram_views(list@),
            all_views(out@) == hits(all.take(i as int), relevance@, min, key),
        decreases list@.len() - i,
    {
        proof {
            assert(all.take(i + 1).drop_last() =~= all.take(i as int));
            assert(all.take(i + 1).last() == list@[i as int]@);
        }
        let strong = match min {
            Some(m) => list[i].strength.ge(m),
            None => true,
        };
        if strong {
            let ghost before = out@;
            let hit = Hit { engram: list[i].clone(), key: key.key(&list[i], relevance[i]) };
            out.push(hit);
            assert(all_views(out@) =~= all_views(before).push(hit@));
        }
        i += 1;
    }
    proof {
        assert(all.take(all.len() as int) =~= all);
    }
    out
}

fn strip_keys(list: Vec<Hit>) -> (r: Vec<Engram>)
    ensures
        engram_views(r@) == engrams_of(all_views(list@)),
{
    let ghost want = engrams_of(all_views(list@));
    let mut out: Vec<Engram> = Vec::new();
    let mut i: usize = 0;
    assert(engram_views(out@) =~= want.take(0));
    while i < list.len()
        invariant
            i <= list@.len(),
            want == engrams_of(all_views(list@)),
            engram_views(out@) == want.take(i as int),
        decreases list@.len() - i,
    {
        let ghost before = out@;
        let e = list[i].engram.clone();
        out.push(e);
        proof {
            assert(all_views(list@)[i as int] == list@[i as int]@);
            assert(want[i as int] == e@);
            assert(engram_views(out@) =~= engram_views(before).push(e@));
            assert(want.take(i + 1) =~= want.take(i as int).push(want[i as int]));
        }
        i += 1;
    }
    assert(want.take(want.len() as int) =~= want);
    out
}

/// What the store gives for a query, from what it found: those that are strong enough, in order.
pub open spec fn store_results(
    list: Seq<EngramView>,
    relevance: Seq<Measure>,
    min: Option<Measure>,
    key: SortKey,
) -> Seq<EngramView> {
    engrams_of(ranking::<Hit>(hits(list, relevance, min, key)))
}

/// What the store gives for a query, from what it found and how relevant each is.
pub fn search_store(
    list: &Vec<Engram>,
    relevance: &Vec<Measure>,
    min: Option<Measure>,
    key: SortKey,
) -> (r: Vec<Engram>)
    requires
        list@.len() == relevance@.len(),
    ensures
        engram_views(r@) == store_results(engram_views(list@), relevance@, min, key),
{
    let found = collect_hits(list, relevance, min, key);
    strip_keys(rank(found))
}

/// No measures of relevance: all are alike.
pub open spec fn all_alike(n: nat) -> Seq<Measure> {
    Seq::new(n, |i: int| Measure { bits: ZERO })
}

/// What a backend gives for a query, from what it fetched: those that are strong enough, in order,
/// at most as many as asked for. By relevance they keep the order in which they were found.
pub open spec fn backend_results(
    list: Seq<EngramView>,
    min: Option<Measure>,
    key: SortKey,
    limit: nat,
) -> Seq<EngramView> {
    let found = hits(list, all_alike(list.len()), min, key);
    engrams_of(
        top(
            if key is Relevance {
                found
            } else {
                ranking::<Hit>(found)
            },
            limit,
        ),
    )
}

/// What a backend gives for a query, from what it fetched.
pub fn search_backend(list: &Vec<Engram>, min: Option<Measure>, key: SortKey, limit: usize) -> (r:
    Vec<Engram>)
    ensures
        engram_views(r@) == backend_results(engram_views(list@), min, key, limit as nat),
{
    let mut relevance: Vec<Measure> = Vec::new();
    let mut i: usize = 0;
    while i < list.len()
        invariant
            i <= list@.len(),
            relevance@ == all_alike(i as nat),
        decreases list@.len() - i,
    {
        relevance.push(Measure { bits: ZERO });
        assert(relevance@ =~= all_alike((i + 1) as nat));
        i += 1;
    }
    assert(engram_views(list@).len() == list@.len());
    let found = collect_hits(list, &relevance, min, key);
    let mut ordered = match key {
        SortKey::Relevance => found,
        _ => rank(found),
    };
    let ghost whole = all_views(ordered@);
    if ordered.len() > limit {
        ordered.truncate(limit);
        proof {
            assert(all_views(ordered@) =~= whole.take(limit as int));
        }
    }
    strip_keys(ordered)
}

proof fn lemma_hits_are_strong(
    list: Seq<EngramView>,
    relevance: Seq<Measure>,
    min: Option<Measure>,
    key: SortKey,
)
    ensures
        forall|i: int|
            0 <= i < hits(list, relevance, min, key).len() ==> strong_enough(
                (#[trigger] hits(list, relevance, min, key)[i]).engram,
                min,
            ),
    decreases list.len(),
{
    if list.len() > 0 {
        lemma_hits_are_strong(list.drop_last(), relevance, min, key);
        let before = hits(list.drop_last(), relevance, min, key);
        let all = hits(list, relevance, min, key);
        assert forall|i: int| 0 <= i < all.len() implies strong_enough(
            (#[trigger] all[i]).engram,
            min,
        ) by {
            if i < before.len() {
                assert(all[i] == before[i]);
            }
        }
    }
}

proof fn lemma_ranked_hits_are_strong(found: Seq<HitView>, min: Option<Measure>)
    requires
        forall|i: int| 0 <= i < found.len() ==> strong_enough((#[trigger] found[i]).engram, min),
    ensures
        ranking::<Hit>(found).len() == found.len(),
        forall|i: int|
            0 <= i < ranking::<Hit>(found).len() ==> strong_enough(
                (#[trigger] ranking::<Hit>(found)[i]).engram,
                min,
            ),
{
    broadcast use vstd::seq_lib::group_to_multiset_ensures;

    law_ranking_orders_and_keeps_everything::<Hit>(found);
    let ranked = ranking::<Hit>(found);
    assert(ranked.to_multiset().len() == ranked.len());
    assert(found.to_multiset().len() == found.len());
    assert forall|i: int| 0 <= i < ranked.len() implies strong_enough(
        (#[trigger] ranked[i]).engram,
        min,
    ) by {
        assert(ranked.to_multiset().count(ranked[i]) > 0);
        assert(found.to_multiset().count(ranked[i]) > 0);
        assert(found.contains(ranked[i]));
        let k = choose|k: int| 0 <= k < found.len() && found[k] == ranked[i];
        assert(strong_enough(found[k].engram, min));
    }
}

/// Results are strong enough, and weak ones do not take the place of strong ones: what is too weak
/// is left out before the results are cut to what was asked for.
pub proof fn law_weak_ones_are_left_out_first(
    list: Seq<EngramView>,
    min: Option<Measure>,
    key: SortKey,
    limit: nat,
)
    ensures
        ({
            let strong = hits(list, all_alike(list.len()), min, key).len();
            let given = backend_results(list, min, key, limit);
            &&& given.len() == if strong <= limit {
                strong
            } else {
                limit
            }
            &&& forall|i: int| 0 <= i < given.len() ==> strong_enough(#[trigger] given[i], min)
        }),
{
    let found = hits(list, all_alike(list.len()), min, key);
    lemma_hits_are_strong(list, all_alike(list.len()), min, key);
    lemma_ranked_hits_are_strong(found, min);
    let ordered = if key is Relevance {
        found
    } else {
        ranking::<Hit>(found)
    };
    let given = backend_results(list, min, key, limit);
    assert forall|i: int| 0 <= i < given.len() implies strong_enough(#[trigger] given[i], min) by {
        assert(given[i] == ordered[i].engram);
    }
}

proof fn lemma_hits_carry_their_keys(
    list: Seq<EngramView>,
    relevance: Seq<Measure>,
    min: Option<Measure>,
    key: SortKey,
)
    requires
        key !is Relevance,
    ensures
        forall|i: int|
            0 <= i < hits(list, relevance, min, key).len() ==> (#[trigger] hits(
                list,
                relevance,
                min,
                key,
            )[i]).key == key.key_of(hits(list, relevance, min, key)[i].engram, Measure { bits: ZERO }),
    decreases list.len(),
{
    if list.len() > 0 {
        lemma_hits_carry_their_keys(list.drop_last(), relevance, min, key);
        let before = hits(list.drop_last(), relevance, min, key);
        let all = hits(list, relevance, min, key);
        assert forall|i: int| 0 <= i < all.len() implies (#[trigger] all[i]).key == key.key_of(
            all[i].engram,
            Measure { bits: ZERO },
        ) by {
            if i < before.len() {
                assert(all[i] == before[i]);
            }
        }
    }
}

/// Results come in the order asked for: none stands behind one that ranks lower.
pub proof fn law_results_are_in_order(
    list: Seq<EngramView>,
    min: Option<Measure>,
    key: SortKey,
    limit: nat,
)
    requires
        key !is Relevance,
    ensures
        ({
            let given = backend_results(list, min, key, limit);
            let none = Measure { bits: ZERO };
            forall|i: int, j: int|
                #![trigger given[i], given[j]]
                0 <= i < j < given.len() ==> key.key_of(given[i], none) >= key.key_of(
                    given[j],
                    none,
                ) && (key is Recency ==> !given[j].created_at.after(given[i].created_at))
        }),
{
    broadcast use vstd::seq_lib::group_to_multiset_ensures;

    let none = Measure { bits: ZERO };
    let found = hits(list, all_alike(list.len()), min, key);
    lemma_hits_carry_their_keys(list, all_alike(list.len()), min, key);
    law_ranking_orders_and_keeps_everything::<Hit>(found);
    let ranked = ranking::<Hit>(found);
    assert forall|i: int| 0 <= i < ranked.len() implies (#[trigger] ranked[i]).key == key.key_of(
        ranked[i].engram,
        none,
    ) by {
        assert(ranked.to_multiset().count(ranked[i]) > 0);
        assert(found.to_multiset().count(ranked[i]) > 0);
        assert(found.contains(ranked[i]));
        let k = choose|k: int| 0 <= k < found.len() && found[k] == ranked[i];
        assert(found[k].key == key.key_of(found[k].engram, none));
    }
    let given = backend_results(list, min, key, limit);
    assert forall|i: int, j: int|
        #![trigger given[i], given[j]]
        0 <= i < j < given.len() implies key.key_of(given[i], none) >= key.key_of(given[j], none)
        && (key is Recency ==> !given[j].created_at.after(given[i].created_at)) by {
        assert(given[i] == ranked[i].engram && given[j] == ranked[j].engram);
        assert(Hit::before(ranked[i], ranked[j]));
    }
}

/// What a backend gives for an identifier: an engram that is not found is no error.
pub fn retrieve(found: Result<Engram, EngramError>) -> (r: Result<Option<MemoryEntry>, EngramError>)
    ensures
        match found {
            Ok(e) => r matches Ok(Some(m)) && m@ == entry_of(e@),
            Err(EngramError::NotFound(_)) => r matches Ok(None),
            Err(e) => r == Err::<Option<MemoryEntry>, EngramError>(e),
        },
{
    match found {
        Ok(e) => Ok(Some(engram_to_memory_entry(e))),
        Err(EngramError::NotFound(_)) => Ok(None),
        Err(e) => Err(e),
    }
}

/// What a day's care did.
#[derive(Debug, Clone, Copy, PartialEq, Eq, Structural)]
pub struct DecayReport {
    pub strengthened: u32,
    pub decayed: u32,
    pub pruned: u32,
}

/// What a week's care did.
#[derive(Debug, Clone, Copy, PartialEq, Eq, Structural)]
pub struct ConsolidationReport {
    pub promoted_to_semantic: u32,
    pub pruned_imagined: u32,
    pub narratives_updated: u32,
    pub rules_crystallized: u32,
}

/// The report on a day's care, which prunes nothing.
pub fn apply_decay(strengthened: u32, decayed: u32) -> (r: DecayReport)
    ensures
        r == (DecayReport { strengthened, decayed, pruned: 0 }),
{
    DecayReport { strengthened, decayed, pruned: 0 }
}

/// The report on a week's care, which touches no narratives and no rules.
pub fn consolidate(promoted: u32, pruned: u32) -> (r: ConsolidationReport)
    ensures
        r == (ConsolidationReport {
            promoted_to_semantic: promoted,
            pruned_imagined: pruned,
            narratives_updated: 0,
            rules_crystallized: 0,
        }),
{
    ConsolidationReport {
        promoted_to_semantic: promoted,
        pruned_imagined: pruned,
        narratives_updated: 0,
        rules_crystallized: 0,
    }
}

/// Whether an engram is at least as strong as asked for.
pub open spec fn asked_for(min: Option<Measure>) -> spec_fn(EngramView) -> bool {
    |e: EngramView| min is Some ==> e.strength.at_least(min->0)
}

proof fn lemma_hits_are_those_asked_for(
    list: Seq<EngramView>,
    relevance: Seq<Measure>,
    min: Option<Measure>,
    key: SortKey,
)
    ensures
        engrams_of(hits(list, relevance, min, key)) == list.filter(asked_for(min)),
    decreases list.len(),
{
    reveal(Seq::filter);
    let all = hits(list, relevance, min, key);
    if list.len() == 0 {
        assert(engrams_of(all) =~= list.filter(asked_for(min)));
    } else {
        let before = hits(list.drop_last(), relevance, min, key);
        lemma_hits_are_those_asked_for(list.drop_last(), relevance, min, key);
        if strong_enough(list.last(), min) {
            assert(engrams_of(all) =~= engrams_of(before).push(list.last()));
        }
    }
}

/// Where each of the results that are strong enough comes from, and what it is ordered by.
proof fn lemma_hit_comes_from(
    list: Seq<EngramView>,
    relevance: Seq<Measure>,
    min: Option<Measure>,
    key: SortKey,
    h: HitView,
) -> (k: int)
    requires
        list.len() <= relevance.len(),
        hits(list, relevance, min, key).contains(h),
    ensures
        0 <= k < list.len(),
        h.engram == list[k],
        h.key == key.key_of(list[k], relevance[k]),
    decreases list.len(),
{
    let all = hits(list, relevance, min, key);
    let i = choose|i: int| 0 <= i < all.len() && all[i] == h;
    let before = hits(list.drop_last(), relevance, min, key);
    if i < before.len() {
        assert(before[i] == h);
        lemma_hit_comes_from(list.drop_last(), relevance, min, key, h)
    } else {
        list.len() - 1
    }
}

/// Mapping the elements of two lists that hold the same ones gives lists that hold the same ones.
proof fn lemma_engrams_of_same(a: Seq<HitView>, b: Seq<HitView>)
    requires
        a.to_multiset() == b.to_multiset(),
    ensures
        engrams_of(a).to_multiset() == engrams_of(b).to_multiset(),
    decreases a.len(),
{
    broadcast use vstd::seq_lib::group_to_multiset_ensures;

    assert(a.len() == a.to_multiset().len());
    assert(b.len() == b.to_multiset().len());
    if a.len() == 0 {
        assert(engrams_of(a) =~= engrams_of(b));
    } else {
        assert(b.to_multiset().count(a[0]) > 0) by {
            assert(a.contains(a[0]));
        }
        assert(b.contains(a[0]));
        let k = choose|k: int| 0 <= k < b.len() && b[k] == a[0];
        let (x, y) = (a.remove(0), b.remove(k));
        assert(x.to_multiset() =~= a.to_multiset().remove(a[0]));
        assert(y.to_multiset() =~= b.to_multiset().remove(b[k]));
        lemma_engrams_of_same(x, y);
        assert(engrams_of(x) =~= engrams_of(a).remove(0));
        assert(engrams_of(y) =~= engrams_of(b).remove(k));
        assert(engrams_of(a)[0] == engrams_of(b)[k]);
        let (p, q) = (engrams_of(a), engrams_of(b));
        assert(p.remove(0).to_multiset() =~= p.to_multiset().remove(p[0]));
        assert(q.remove(k).to_multiset() =~= q.to_multiset().remove(q[k]));
        assert(p.to_multiset().count(p[0]) > 0) by {
            assert(p.contains(p[0]));
        }
        assert(q.to_multiset().count(q[k]) > 0) by {
            assert(q.contains(q[k]));
        }
        assert(p.to_multiset() =~= p.to_multiset().remove(p[0]).insert(p[0]));
        assert(q.to_multiset() =~= q.to_multiset().remove(q[k]).insert(q[k]));
    }
}

/// What the store gives are the engrams that it found and that are at least as strong as asked
/// for, each as often as it was found, and no others.
pub proof fn law_store_gives_what_was_asked_for(
    list: Seq<EngramView>,
    relevance: Seq<Measure>,
    min: Option<Measure>,
    key: SortKey,
)
    ensures
        store_results(list, relevance, min, key).to_multiset() == list.filter(
            |e: EngramView| min is Some ==> e.strength.at_least(min->0),
        ).to_multiset(),
{
    let found = hits(list, relevance, min, key);
    law_ranking_orders_and_keeps_everything::<Hit>(found);
    lemma_hits_are_those_asked_for(list, relevance, min, key);
    lemma_engrams_of_same(ranking::<Hit>(found), found);
    assert(asked_for(min) =~= (|e: EngramView| min is Some ==> e.strength.at_least(min->0)));
}

/// How one result may stand before another, by what was asked for: `x` and `y` are how relevant
/// the two are.
pub open spec fn stands_before(
    key: SortKey,
    a: EngramView,
    x: Measure,
    b: EngramView,
    y: Measure,
) -> bool {
    &&& key is Strength ==> a.strength.rank() >= b.strength.rank()
    &&& key is Valence ==> a.valence.rank() >= b.valence.rank()
    &&& key is RetrievalCount ==> a.retrievals >= b.retrievals
    &&& key is Relevance ==> x.rank() >= y.rank()
    &&& key is Recency ==> !b.created_at.after(a.created_at)
}

proof fn lemma_ranked_hits_stand_in_order(
    list: Seq<EngramView>,
    relevance: Seq<Measure>,
    min: Option<Measure>,
    key: SortKey,
) -> (from: Seq<int>)
    requires
        list.len() == relevance.len(),
    ensures
        ({
            let ranked = ranking::<Hit>(hits(list, relevance, min, key));
            &&& from.len() == ranked.len()
            &&& forall|i: int|
                0 <= i < ranked.len() ==> 0 <= #[trigger] from[i] < list.len() && ranked[i].engram
                    == list[from[i]]
            &&& forall|i: int, j: int|
                #![trigger from[i], from[j]]
                0 <= i < j < ranked.len() ==> stands_before(
                    key,
                    list[from[i]],
                    relevance[from[i]],
                    list[from[j]],
                    relevance[from[j]],
                )
        }),
{
    broadcast use vstd::seq_lib::group_to_multiset_ensures;

    let found = hits(list, relevance, min, key);
    law_ranking_orders_and_keeps_everything::<Hit>(found);
    let ranked = ranking::<Hit>(found);
    let from = Seq::new(
        ranked.len(),
        |i: int|
            choose|k: int|
                0 <= k < list.len() && ranked[i].engram == #[trigger] list[k] && ranked[i].key
                    == key.key_of(list[k], relevance[k]),
    );
    assert forall|i: int| 0 <= i < ranked.len() implies 0 <= #[trigger] from[i] < list.len()
        && ranked[i].engram == list[from[i]] && ranked[i].key == key.key_of(
        list[from[i]],
        relevance[from[i]],
    ) by {
        assert(ranked.contains(ranked[i]));
        assert(ranked.to_multiset().count(ranked[i]) > 0);
        assert(found.to_multiset().count(ranked[i]) > 0);
        let k = lemma_hit_comes_from(list, relevance, min, key, ranked[i]);
        assert(ranked[i].engram == list[k]);
    }
    assert forall|i: int, j: int|
        #![trigger from[i], from[j]]
        0 <= i < j < ranked.len() implies stands_before(
        key,
        list[from[i]],
        relevance[from[i]],
        list[from[j]],
        relevance[from[j]],
    ) by {
        assert(Hit::before(ranked[i], ranked[j]));
    }
    from
}

/// The store gives results in the order asked for: by strength the strongest first, by valence the
/// most positive, by retrievals the most often retrieved, by recency the newest, and by relevance
/// the most relevant. `from` says which of the found engrams each result is.
pub proof fn law_store_orders_by_what_was_asked_for(
    list: Seq<EngramView>,
    relevance: Seq<Measure>,
    min: Option<Measure>,
    key: SortKey,
) -> (from: Seq<int>)
    requires
        list.len() == relevance.len(),
    ensures
        ({
            let given = store_results(list, relevance, min, key);
            &&& from.len() == given.len()
            &&& forall|i: int|
                0 <= i < given.len() ==> 0 <= #[trigger] from[i] < list.len() && given[i]
                    == list[from[i]]
            &&& forall|i: int, j: int|
                #![trigger given[i], given[j]]
                #![trigger from[i], from[j]]
                0 <= i < j < given.len() ==> {
                    &&& key is Strength ==> given[i].strength.rank() >= given[j].strength.rank()
                    &&& key is Valence ==> given[i].valence.rank() >= given[j].valence.rank()
                    &&& key is RetrievalCount ==> given[i].retrievals >= given[j].retrievals
                    &&& key is Relevance ==> relevance[from[i]].rank() >= relevance[from[j]].rank()
                    &&& key is Recency ==> !given[j].created_at.after(given[i].created_at)
                }
        }),
{
    let from = lemma_ranked_hits_stand_in_order(list, relevance, min, key);
    let given = store_results(list, relevance, min, key);
    assert forall|i: int, j: int|
        #![trigger given[i], given[j]]
        #![trigger from[i], from[j]]
        0 <= i < j < given.len() implies {
        &&& key is Strength ==> given[i].strength.rank() >= given[j].strength.rank()
        &&& key is Valence ==> given[i].valence.rank() >= given[j].valence.rank()
        &&& key is RetrievalCount ==> given[i].retrievals >= given[j].retrievals
        &&& key is Relevance ==> relevance[from[i]].rank() >= relevance[from[j]].rank()
        &&& key is Recency ==> !given[j].created_at.after(given[i].created_at)
    } by {
        assert(stands_before(
            key,
            list[from[i]],
            relevance[from[i]],
            list[from[j]],
            relevance[from[j]],
        ));
    }
    from
}

/// A backend gives results in the order asked for, at most as many as asked for; by relevance it
/// keeps the order in which they were found.
pub proof fn law_backend_orders_by_what_was_asked_for(
    list: Seq<EngramView>,
    min: Option<Measure>,
    key: SortKey,
    limit: nat,
)
    ensures
        ({
            let given = backend_results(list, min, key, limit);
            &&& given.len() <= limit
            &&& forall|i: int, j: int|
                #![trigger given[i], given[j]]
                0 <= i < j < given.len() ==> {
                    &&& key is Strength ==> given[i].strength.rank() >= given[j].strength.rank()
                    &&& key is Valence ==> given[i].valence.rank() >= given[j].valence.rank()
                    &&& key is RetrievalCount ==> given[i].retrievals >= given[j].retrievals
                    &&& key is Recency ==> !given[j].created_at.after(given[i].created_at)
                }
            &&& key is Relevance ==> given == top(
                list.filter(|e: EngramView| min is Some ==> e.strength.at_least(min->0)),
                limit,
            )
        }),
{
    let alike = all_alike(list.len());
    let from = lemma_ranked_hits_stand_in_order(list, alike, min, key);
    let found = hits(list, alike, min, key);
    let ranked = ranking::<Hit>(found);
    let given = backend_results(list, min, key, limit);
    if key is Relevance {
        lemma_hits_are_those_asked_for(list, alike, min, key);
        assert(asked_for(min) =~= (|e: EngramView| min is Some ==> e.strength.at_least(min->0)));
        assert(given =~= top(engrams_of(found), limit));
    } else {
        assert forall|i: int, j: int|
            #![trigger given[i], given[j]]
            0 <= i < j < given.len() implies {
            &&& key is Strength ==> given[i].strength.rank() >= given[j].strength.rank()
            &&& key is Valence ==> given[i].valence.rank() >= given[j].valence.rank()
            &&& key is RetrievalCount ==> given[i].retrievals >= given[j].retrievals
            &&& key is Recency ==> !given[j].created_at.after(given[i].created_at)
        } by {
            assert(given[i] == ranked[i].engram && given[j] == ranked[j].engram);
            assert(given[i] == list[from[i]] && given[j] == list[from[j]]);
            assert(stands_before(
                key,
                list[from[i]],
                alike[from[i]],
                list[from[j]],
                alike[from[j]],
            ));
        }
    }
}

/// A backend shows the best of what it fetched: an engram that is at least as strong as asked for
/// is given, unless as many others are as were asked for and each of them may stand before it.
pub proof fn law_backend_leaves_out_none_but_the_last(
    list: Seq<EngramView>,
    min: Option<Measure>,
    key: SortKey,
    limit: nat,
    k: int,
)
    requires
        0 <= k < list.len(),
        min is Some ==> list[k].strength.at_least(min->0),
    ensures
        ({
            let given = backend_results(list, min, key, limit);
            ||| given.contains(list[k])
            ||| given.len() == limit && forall|i: int|
                0 <= i < given.len() ==> {
                    let e = #[trigger] given[i];
                    &&& key is Strength ==> e.strength.rank() >= list[k].strength.rank()
                    &&& key is Valence ==> e.valence.rank() >= list[k].valence.rank()
                    &&& key is RetrievalCount ==> e.retrievals >= list[k].retrievals
                    &&& key is Recency ==> !list[k].created_at.after(e.created_at)
                }
        }),
{
    broadcast use vstd::seq_lib::group_to_multiset_ensures;

    let alike = all_alike(list.len());
    let from = lemma_ranked_hits_stand_in_order(list, alike, min, key);
    let found = hits(list, alike, min, key);
    let ranked = ranking::<Hit>(found);
    law_ranking_orders_and_keeps_everything::<Hit>(found);
    lemma_hits_are_those_asked_for(list, alike, min, key);
    lemma_engrams_of_same(ranked, found);
    let given = backend_results(list, min, key, limit);
    let e = list[k];
    assert(engrams_of(found).contains(e)) by {
        list.lemma_filter_contains(asked_for(min), k);
    }
    let whole = engrams_of(
        if key is Relevance {
            found
        } else {
            ranked
        },
    );
    assert(engrams_of(ranked).contains(e)) by {
        assert(engrams_of(found).to_multiset().count(e) > 0);
        assert(engrams_of(ranked).to_multiset().count(e) > 0);
    }
    let m = choose|m: int| 0 <= m < whole.len() && whole[m] == e;
    if m < given.len() {
        assert(given[m] == e);
    } else {
        assert(given.len() == limit);
        assert forall|i: int| 0 <= i < given.len() implies {
            let x = #[trigger] given[i];
            &&& key is Strength ==> x.strength.rank() >= e.strength.rank()
            &&& key is Valence ==> x.valence.rank() >= e.valence.rank()
            &&& key is RetrievalCount ==> x.retrievals >= e.retrievals
            &&& key is Recency ==> !e.created_at.after(x.created_at)
        } by {
            if key !is Relevance {
                assert(given[i] == ranked[i].engram && e == ranked[m].engram);
                assert(given[i] == list[from[i]] && e == list[from[m]]);
                assert(stands_before(
                    key,
                    list[from[i]],
                    alike[from[i]],
                    list[from[m]],
                    alike[from[m]],
                ));
            }
        }
    }
}

/// A query is looked up by what it asks for: by its text, its tags or its layer, and by all only
/// where it asks for none of these.
pub proof fn law_query_is_looked_up_by_what_it_holds(q: QueryView)
    ensures
        match q.store_lookup() {
            LookupView::Content(s) => q.text == Some(s),
            LookupView::Tags(t) => q.text is None && q.tags == t && t.len() > 0,
            LookupView::Layer(l) => q.text is None && q.tags.len() == 0 && q.layer is Some
                && engram_layer_of(q.layer->0) == l,
            LookupView::All(n) => q.text is None && q.tags.len() == 0 && q.layer is None
                && q.offset == n,
        },
        match q.backend_lookup() {
            LookupView::Layer(l) => q.layer is Some && engram_layer_of(q.layer->0) == l,
            LookupView::Content(s) => q.layer is None && q.text == Some(s),
            LookupView::Tags(t) => q.layer is None && q.text is None && q.tags == t && t.len() > 0,
            LookupView::All(n) => q.layer is None && q.text is None && q.tags.len() == 0
                && q.offset == n,
        },
        q.fetch_limit() >= q.limit,
        q.min_strength is Some || q.sort_by !is Relevance ==> q.fetch_limit() >= 2000,
        q.min_strength is None && q.sort_by is Relevance ==> q.fetch_limit() == q.limit,
{
}

/// Results that are alike in what they are ordered by come with the newer first, and those made at
/// the same time in the order of their identifiers.
pub proof fn law_results_that_are_alike_come_by_age(
    list: Seq<EngramView>,
    relevance: Seq<Measure>,
    min: Option<Measure>,
    key: SortKey,
    limit: nat,
)
    requires
        list.len() == relevance.len(),
        key !is Relevance,
    ensures
        ({
            let s = store_results(list, relevance, min, key);
            forall|i: int, j: int|
                #![trigger s[i], s[j]]
                0 <= i < j < s.len() && alike(key, s[i], s[j]) ==> !s[j].created_at.after(
                    s[i].created_at,
                ) && (s[i].created_at == s[j].created_at ==> dictionary_le(s[i].id, s[j].id))
        }),
        ({
            let b = backend_results(list, min, key, limit);
            forall|i: int, j: int|
                #![trigger b[i], b[j]]
                0 <= i < j < b.len() && alike(key, b[i], b[j]) ==> !b[j].created_at.after(
                    b[i].created_at,
                ) && (b[i].created_at == b[j].created_at ==> dictionary_le(b[i].id, b[j].id))
        }),
{
    let s = store_results(list, relevance, min, key);
    lemma_alike_ones_come_by_age(list, relevance, min, key);
    let b = backend_results(list, min, key, limit);
    let whole = store_results(list, all_alike(list.len()), min, key);
    lemma_alike_ones_come_by_age(list, all_alike(list.len()), min, key);
    assert forall|i: int, j: int|
        #![trigger b[i], b[j]]
        0 <= i < j < b.len() && alike(key, b[i], b[j]) implies !b[j].created_at.after(
        b[i].created_at,
    ) && (b[i].created_at == b[j].created_at ==> dictionary_le(b[i].id, b[j].id)) by {
        assert(b[i] == whole[i] && b[j] == whole[j]);
    }
}

/// Whether two engrams are alike in what results are ordered by.
pub open spec fn alike(key: SortKey, a: EngramView, b: EngramView) -> bool {
    &&& key is Strength ==> a.strength.rank() == b.strength.rank()
    &&& key is Valence ==> a.valence.rank() == b.valence.rank()
    &&& key is RetrievalCount ==> a.retrievals == b.retrievals
}

proof fn lemma_alike_ones_come_by_age(
    list: Seq<EngramView>,
    relevance: Seq<Measure>,
    min: Option<Measure>,
    key: SortKey,
)
    requires
        list.len() == relevance.len(),
        key !is Relevance,
    ensures
        ({
            let s = store_results(list, relevance, min, key);
            forall|i: int, j: int|
                #![trigger s[i], s[j]]
                0 <= i < j < s.len() && alike(key, s[i], s[j]) ==> !s[j].created_at.after(
                    s[i].created_at,
                ) && (s[i].created_at == s[j].created_at ==> dictionary_le(s[i].id, s[j].id))
        }),
{
    broadcast use vstd::seq_lib::group_to_multiset_ensures;

    let found = hits(list, relevance, min, key);
    lemma_hits_carry_their_keys(list, relevance, min, key);
    law_ranking_orders_and_keeps_everything::<Hit>(found);
    let ranked = ranking::<Hit>(found);
    let none = Measure { bits: ZERO };
    assert forall|i: int| 0 <= i < ranked.len() implies (#[trigger] ranked[i]).key == key.key_of(
        ranked[i].engram,
        none,
    ) by {
        assert(ranked.contains(ranked[i]));
        assert(ranked.to_multiset().count(ranked[i]) > 0);
        assert(found.to_multiset().count(ranked[i]) > 0);
        assert(found.contains(ranked[i]));
        let k = choose|k: int| 0 <= k < found.len() && found[k] == ranked[i];
        assert(found[k].key == key.key_of(found[k].engram, none));
    }
    let s = store_results(list, relevance, min, key);
    assert forall|i: int, j: int|
        #![trigger s[i], s[j]]
        0 <= i < j < s.len() && alike(key, s[i], s[j]) implies !s[j].created_at.after(
        s[i].created_at,
    ) && (s[i].created_at == s[j].created_at ==> dictionary_le(s[i].id, s[j].id)) by {
        assert(s[i] == ranked[i].engram && s[j] == ranked[j].engram);
        assert(Hit::before(ranked[i], ranked[j]));
        assert(ranked[i].key == ranked[j].key);
    }
}

/// What is said of a query is said of its fields.
pub proof fn law_query_is_seen_as_it_is(x: Query)
    ensures
        x@.layer == x.layer,
        x@.scope == x.scope,
        x@.source == x.source,
        x@.min_strength == x.min_strength,
        x@.created_after == x.created_after,
        x@.created_before == x.created_before,
        x@.sort_by == x.sort_by,
        x@.limit == x.limit,
        x@.offset == x.offset,
        x@.subject_code == x.subject_code,
        x@.relation_code == x.relation_code,
        (x@.text is Some) == (x.text is Some),
        x.text is Some ==> x@.text->0 == (x.text->0)@,
        (x@.embedding is Some) == (x.embedding is Some),
        x.embedding is Some ==> x@.embedding->0 == (x.embedding->0)@,
        (x@.project is Some) == (x.project is Some),
        x.project is Some ==> x@.project->0 == (x.project->0)@,
        (x@.exclude_session is Some) == (x.exclude_session is Some),
        x.exclude_session is Some ==> x@.exclude_session->0 == (x.exclude_session->0)@,
        x@.tags.len() == x.tags@.len(),
        forall|i: int| 0 <= i < x.tags@.len() ==> #[trigger] x@.tags[i] == x.tags@[i]@,
{
}

/// A new query asks for the twenty strongest memories, whatever they are.
pub proof fn law_new_query_asks_for_the_strongest()
    ensures
        ({
            let q = QueryView::any();
            &&& q.limit == 20 && q.offset == 0
            &&& q.sort_by is Strength
            &&& q.text is None && q.embedding is None && q.layer is None && q.scope is None
            &&& q.source is None && q.project is None && q.tags.len() == 0
            &&& q.min_strength is None && q.created_after is None && q.created_before is None
            &&& q.exclude_session is None && q.subject_code is None && q.relation_code is None
        }),
{
}

} // verus!
