//! An associative first-level cache of memories.
//!
//! Memories are found by 32-bit codes folded from their content. The codes are derivable from the
//! content and never the only index.
use crate::engram::LinkType;
use crate::entry::{EntryView, MemoryEntry, MemoryId, MemoryLayer};
use crate::measure::Measure;
use crate::text::text_eq;
use std::collections::HashMap;
use vstd::prelude::*;
use vstd::std_specs::iter::IteratorSpec;
use vstd::utf8::encode_utf8;

verus! {

broadcast use vstd::std_specs::hash::group_hash_axioms;

/// A 32-bit code for fast association. The same content always has the same code; different
/// content may share one.
#[derive(Debug, Clone, Copy, PartialEq, Eq, Hash, Structural)]
pub struct QemCode(pub u32);

impl QemCode {
    /// Combines two codes into the key of an association.
    pub fn bind(self, other: QemCode) -> (r: QemCode)
        ensures
            r.0 == self.0 ^ other.0,
    {
        QemCode(self.0 ^ other.0)
    }
}

/// Binding is symmetric, associative and undone by binding again: from a bound key either part
/// gives the other.
pub proof fn law_bind_is_invertible(a: u32, b: u32, c: u32)
    ensures
        a ^ b == b ^ a,
        (a ^ b) ^ c == a ^ (b ^ c),
        (a ^ b) ^ b == a,
        (a ^ b) ^ a == b,
        a ^ 0 == a,
{
    assert(a ^ b == b ^ a) by (bit_vector);
    assert((a ^ b) ^ c == a ^ (b ^ c)) by (bit_vector);
    assert((a ^ b) ^ b == a) by (bit_vector);
    assert((a ^ b) ^ a == b) by (bit_vector);
    assert(a ^ 0 == a) by (bit_vector);
}

/// Four bytes as a little-endian number; missing bytes count as 0.
pub open spec fn word_at(bytes: Seq<u8>, at: int) -> u32 {
    let b = |i: int|
        if at + i < bytes.len() {
            bytes[at + i] as u32
        } else {
            0u32
        };
    b(0) | (b(1) << 8) | (b(2) << 16) | (b(3) << 24)
}

/// All bytes from `at` on, folded together four at a time.
pub open spec fn folded(bytes: Seq<u8>, at: int) -> u32
    decreases bytes.len() - at + 4,
{
    if at >= bytes.len() {
        0
    } else {
        word_at(bytes, at) ^ folded(bytes, at + 4)
    }
}

/// The code that a layer adds to its contents.
pub open spec fn salt_of(layer: MemoryLayer) -> u32 {
    match layer {
        MemoryLayer::Episodic => 0xE715_0D1C,
        MemoryLayer::Semantic => 0x5E04_171C,
        MemoryLayer::Imagined => 0x1140_113D,
    }
}

/// The code of a relation name.
pub open spec fn relation_code(relation: Seq<char>) -> u32 {
    folded(encode_utf8(relation), 0)
}

/// The code of content in a layer.
pub open spec fn content_code(content: Seq<char>, layer: MemoryLayer) -> u32 {
    folded(encode_utf8(content), 0) ^ salt_of(layer)
}

fn byte_or_zero(bytes: &[u8], at: usize) -> (r: u32)
    ensures
        r == if at < bytes@.len() {
            bytes@[at as int] as u32
        } else {
            0
        },
{
    if at < bytes.len() {
        bytes[at] as u32
    } else {
        0
    }
}

fn fold(bytes: &[u8]) -> (r: u32)
    ensures
        r == folded(bytes@, 0),
{
    let mut code: u32 = 0;
    let mut at: usize = 0;
    let n: usize = bytes.len();
    proof {
        let f = folded(bytes@, 0);
        assert(0 ^ f == f) by (bit_vector);
    }
    while at < n
        invariant
            n == bytes@.len(),
            code ^ folded(bytes@, at as int) == folded(bytes@, 0),
        decreases n - at,
    {
        let b0: u32 = byte_or_zero(bytes, at);
        let b1: u32 = if at < n - 1 {
            byte_or_zero(bytes, at + 1)
        } else {
            0
        };
        let b2: u32 = if n >= 2 && at < n - 2 {
            byte_or_zero(bytes, at + 2)
        } else {
            0
        };
        let b3: u32 = if n >= 3 && at < n - 3 {
            byte_or_zero(bytes, at + 3)
        } else {
            0
        };
        let word: u32 = b0 | (b1 << 8) | (b2 << 16) | (b3 << 24);
        proof {
            assert(word == word_at(bytes@, at as int));
            let rest = folded(bytes@, at + 4);
            assert((code ^ word) ^ rest == code ^ (word ^ rest)) by (bit_vector);
        }
        code = code ^ word;
        if n - at <= 4 {
            proof {
                assert(folded(bytes@, at + 4) == 0);
                assert(code ^ 0 == code) by (bit_vector);
            }
            return code;
        }
        at += 4;
    }
    proof {
        assert(code ^ 0 == code) by (bit_vector);
    }
    code
}

/// Derives codes from content.
pub struct QemEncoder;

impl QemEncoder {
    /// The code of content in a layer: its bytes folded together four at a time, with the layer's
    /// own pattern, so that the same text has different codes in different layers.
    pub fn encode(content: &str, layer: MemoryLayer) -> (r: QemCode)
        ensures
            r.0 == content_code(content@, layer),
    {
        let code: u32 = fold(content.as_bytes());
        let salt: u32 = match layer {
            MemoryLayer::Episodic => 0xE715_0D1C,
            MemoryLayer::Semantic => 0x5E04_171C,
            MemoryLayer::Imagined => 0x1140_113D,
        };
        QemCode(code ^ salt)
    }

    /// The code of a relation name.
    pub fn encode_relation(relation: &str) -> (r: QemCode)
        ensures
            r.0 == relation_code(relation@),
    {
        QemCode(fold(relation.as_bytes()))
    }
}

/// The same content has different codes in different layers.
pub proof fn law_layers_have_different_codes(content: Seq<char>, a: MemoryLayer, b: MemoryLayer)
    requires
        a != b,
    ensures
        content_code(content, a) != content_code(content, b),
{
    let f = folded(encode_utf8(content), 0);
    assert(f ^ 0xE715_0D1Cu32 != f ^ 0x5E04_171Cu32) by (bit_vector);
    assert(f ^ 0xE715_0D1Cu32 != f ^ 0x1140_113Du32) by (bit_vector);
    assert(f ^ 0x5E04_171Cu32 != f ^ 0x1140_113Du32) by (bit_vector);
}

/// How often a code was among the codes seen last.
#[derive(Debug, Clone, Copy, PartialEq, Eq, Structural)]
pub struct Surprise {
    /// How many of the codes seen last were this one.
    pub seen: usize,
    /// How many codes seen last there were, at least 1.
    pub of: usize,
}

/// Remembers the codes seen last and tells how surprising a code is. A code that was not seen
/// lately is worth storing; one that was seen often is already well represented.
pub struct NoveltyFilter {
    window: Vec<QemCode>,
    cursor: usize,
    capacity: usize,
}

/// The test whether a code is the given one.
pub open spec fn equals(code: u32) -> spec_fn(u32) -> bool {
    |c: u32| c == code
}

/// How often a code occurs in a list of codes.
pub open spec fn occurrences(codes: Seq<u32>, code: u32) -> nat {
    codes.filter(equals(code)).len()
}

impl NoveltyFilter {
    /// How many codes are remembered at most.
    pub closed spec fn capacity_spec(&self) -> nat {
        self.capacity as nat
    }

    /// The remembered codes, oldest first.
    pub closed spec fn recent(&self) -> Seq<u32> {
        let codes = self.window@.map_values(|c: QemCode| c.0);
        if self.window@.len() < self.capacity {
            codes
        } else {
            codes.skip(self.cursor as int) + codes.take(self.cursor as int)
        }
    }

    /// Whether the ring buffer is in order.
    pub closed spec fn wf(&self) -> bool {
        &&& self.window@.len() <= self.capacity
        &&& self.window@.len() < self.capacity ==> self.cursor == self.window@.len()
        &&& self.window@.len() == self.capacity ==> self.cursor == 0 || self.cursor < self.capacity
    }

    /// A filter that has seen nothing.
    pub fn new(capacity: usize) -> (r: Self)
        ensures
            r.wf(),
            r.recent() == Seq::<u32>::empty(),
            r.capacity_spec() == capacity,
    {
        let r = NoveltyFilter { window: Vec::new(), cursor: 0, capacity };
        assert(r.recent() =~= Seq::<u32>::empty());
        r
    }

    fn count(&self, code: QemCode) -> (r: usize)
        requires
            self.wf(),
        ensures
            r == occurrences(self.recent(), code.0),
    {
        let ghost codes = self.window@.map_values(|c: QemCode| c.0);
        let ghost is_it = equals(code.0);
        let mut i: usize = 0;
        let mut n: usize = 0;
        while i < self.window.len()
            invariant
                i <= self.window@.len(),
                n <= i,
                codes == self.window@.map_values(|c: QemCode| c.0),
                is_it == equals(code.0),
                n == codes.take(i as int).filter(is_it).len(),
            decreases self.window@.len() - i,
        {
            proof {
                let upto = codes.take(i + 1);
                assert(upto.drop_last() =~= codes.take(i as int));
                assert(upto.last() == self.window@[i as int].0);
                reveal(Seq::filter);
            }
            if self.window[i].0 == code.0 {
                n += 1;
            }
            i += 1;
        }
        proof {
            assert(codes.take(codes.len() as int) =~= codes);
            if self.window@.len() == self.capacity {
                let k = self.cursor as int;
                assert(codes =~= codes.take(k) + codes.skip(k));
                Seq::filter_distributes_over_add(codes.take(k), codes.skip(k), is_it);
                Seq::filter_distributes_over_add(codes.skip(k), codes.take(k), is_it);
            }
        }
        n
    }

    /// Takes note of a code and says how often it was among the codes seen last.
    pub fn observe(&mut self, code: QemCode) -> (r: Surprise)
        requires
            old(self).wf(),
            old(self).capacity_spec() > 0,
        ensures
            r.seen == occurrences(old(self).recent(), code.0),
            r.of == if old(self).recent().len() == 0 {
                1
            } else {
                old(self).recent().len()
            },
            final(self).wf(),
            final(self).capacity_spec() == old(self).capacity_spec(),
            final(self).recent() == seen_also(
                old(self).recent(),
                old(self).capacity_spec(),
                code.0,
            ),
    {
        let seen: usize = self.count(code);
        let n: usize = self.window.len();
        let of: usize = if n == 0 {
            1
        } else {
            n
        };
        let ghost before = self.window@.map_values(|c: QemCode| c.0);
        let ghost start = self.cursor as int;
        if n < self.capacity {
            self.window.push(code);
        } else {
            let at: usize = self.cursor;
            self.window.set(at, code);
        }
        if self.cursor + 1 == self.capacity {
            self.cursor = 0;
        } else {
            self.cursor = self.cursor + 1;
        }
        proof {
            let after = self.window@.map_values(|c: QemCode| c.0);
            if n < self.capacity {
                assert(after =~= before.push(code.0));
                if n + 1 == self.capacity {
                    assert(after.skip(0) + after.take(0) =~= after);
                }
            } else {
                assert(after =~= before.update(start, code.0));
                assert(after.skip(self.cursor as int) + after.take(self.cursor as int) =~= (
                before.skip(start) + before.take(start)).drop_first().push(code.0));
            }
        }
        Surprise { seen, of }
    }

    /// How many codes are remembered.
    pub fn len(&self) -> (r: usize)
        ensures
            self.wf() ==> r == self.recent().len(),
    {
        self.window.len()
    }

    /// Whether no code is remembered.
    pub fn is_empty(&self) -> (r: bool)
        ensures
            self.wf() ==> r == (self.recent().len() == 0),
    {
        self.window.len() == 0
    }
}

/// A filter never remembers more codes than its capacity.
pub proof fn law_window_keeps_to_its_capacity(filter: &NoveltyFilter)
    requires
        filter.wf(),
    ensures
        filter.recent().len() <= filter.capacity_spec(),
{
}

/// A code never takes up more of the window than the window is long, so a surprise is a fraction
/// between 0 and 1; a code that was not seen lately is fully surprising, and one that fills the
/// window is not surprising at all.
pub proof fn law_surprise_is_a_fraction(recent: Seq<u32>, code: u32)
    ensures
        occurrences(recent, code) <= recent.len(),
        !recent.contains(code) ==> occurrences(recent, code) == 0,
        (forall|i: int| 0 <= i < recent.len() ==> recent[i] == code) ==> occurrences(recent, code)
            == recent.len(),
    decreases recent.len(),
{
    reveal(Seq::filter);
    if recent.len() > 0 {
        let before = recent.drop_last();
        law_surprise_is_a_fraction(before, code);
        assert(recent.contains(recent.last()));
        assert(before.contains(code) ==> recent.contains(code)) by {
            if before.contains(code) {
                let i = choose|i: int| 0 <= i < before.len() && before[i] == code;
                assert(recent[i] == code);
            }
        }
    }
}

/// Settings of the cache.
#[derive(Debug, Clone, Copy, PartialEq, Eq, Structural)]
pub struct QemConfig {
    /// Least strength of the memories the cache is warmed with.
    pub warm_strength_min: Measure,
    /// Most memories the cache is warmed with.
    pub warm_limit: usize,
    /// How many codes the novelty filter remembers.
    pub novelty_window: usize,
    /// Least surprise for storage with high confidence.
    pub surprise_min: Measure,
    /// Strength that an association must exceed to be found.
    pub min_association_strength: Measure,
    /// Most memories in the cache; beyond this the weakest leaves.
    pub max_entries: usize,
    /// Most associations in the cache; beyond this the oldest leaves.
    pub max_associations: usize,
}

impl Default for QemConfig {
    fn default() -> (r: Self)
        ensures
            r == (QemConfig {
                warm_strength_min: Measure { bits: 0x3fd3_3333_3333_3333 },
                warm_limit: 1000,
                novelty_window: 100,
                surprise_min: Measure { bits: 0x3fc9_9999_9999_999a },
                min_association_strength: Measure { bits: 0x3fb9_9999_9999_999a },
                max_entries: 10_000,
                max_associations: 10_000,
            }),
    {
        QemConfig {
            warm_strength_min: Measure { bits: 0x3fd3_3333_3333_3333 },
            warm_limit: 1000,
            novelty_window: 100,
            surprise_min: Measure { bits: 0x3fc9_9999_9999_999a },
            min_association_strength: Measure { bits: 0x3fb9_9999_9999_999a },
            max_entries: 10_000,
            max_associations: 10_000,
        }
    }
}

#[derive(Debug)]
struct CachedEntry {
    memory_id: MemoryId,
    strength: Measure,
}

/// What the cache knows of a memory.
#[verifier::ext_equal]
pub struct CachedView {
    pub memory_id: Seq<char>,
    pub strength: Measure,
}

impl View for CachedEntry {
    type V = CachedView;

    closed spec fn view(&self) -> CachedView {
        CachedView { memory_id: self.memory_id@, strength: self.strength }
    }
}

#[derive(Debug)]
struct CachedAssociation {
    subject_code: QemCode,
    relation_code: QemCode,
    object_code: QemCode,
    memory_id: MemoryId,
    strength: Measure,
}

/// An association: the subject, under the relation, leads to the object.
#[verifier::ext_equal]
pub struct AssociationView {
    pub subject: u32,
    pub relation: u32,
    pub object: u32,
    pub memory_id: Seq<char>,
    pub strength: Measure,
}

impl View for CachedAssociation {
    type V = AssociationView;

    closed spec fn view(&self) -> AssociationView {
        AssociationView {
            subject: self.subject_code.0,
            relation: self.relation_code.0,
            object: self.object_code.0,
            memory_id: self.memory_id@,
            strength: self.strength,
        }
    }
}

impl CachedAssociation {
    fn copy(&self) -> (r: Self)
        ensures
            r@ == self@,
    {
        CachedAssociation {
            subject_code: self.subject_code,
            relation_code: self.relation_code,
            object_code: self.object_code,
            memory_id: self.memory_id.clone(),
            strength: self.strength,
        }
    }
}

/// The first-level cache. It knows memories by their codes; the memories themselves stay in the
/// store behind it.
pub struct QemCache {
    by_code: HashMap<u32, CachedEntry>,
    associations: Vec<CachedAssociation>,
    novelty: NoveltyFilter,
    config: QemConfig,
    hits: u64,
    misses: u64,
}

/// Whether the association is found under a key.
pub open spec fn answers(a: AssociationView, key: u32, config: QemConfig) -> bool {
    a.subject ^ a.relation == key && a.strength.exceeds(config.min_association_strength)
}

/// The memory of the first association that is found under a key.
pub open spec fn first_answer(
    associations: Seq<AssociationView>,
    key: u32,
    config: QemConfig,
) -> Option<Seq<char>>
    decreases associations.len(),
{
    if associations.len() == 0 {
        None
    } else if answers(associations[0], key, config) {
        Some(associations[0].memory_id)
    } else {
        first_answer(associations.drop_first(), key, config)
    }
}

/// The test whether an association has none of the given codes as subject or object.
pub open spec fn free_of(codes: Set<u32>) -> spec_fn(AssociationView) -> bool {
    |a: AssociationView| !codes.contains(a.subject) && !codes.contains(a.object)
}

/// The test whether an association does not lead to a memory.
pub open spec fn not_about(id: Seq<char>) -> spec_fn(AssociationView) -> bool {
    |a: AssociationView| a.memory_id != id
}

/// The test whether an association is not the one of a subject under a relation.
pub open spec fn other_than(subject: u32, relation: u32) -> spec_fn(AssociationView) -> bool {
    |a: AssociationView| !(a.subject == subject && a.relation == relation)
}

/// The codes under which a memory is cached.
pub open spec fn codes_of(entries: Map<u32, CachedView>, id: Seq<char>) -> Set<u32> {
    Set::new(|code: u32| entries.contains_key(code) && entries[code].memory_id == id)
}

/// Whether no cached memory is weaker than the one under a code.
pub open spec fn weakest(entries: Map<u32, CachedView>, code: u32) -> bool {
    &&& entries.contains_key(code)
    &&& forall|other: u32| #[trigger]
        entries.contains_key(other) ==> !entries[code].strength.exceeds(entries[other].strength)
}

/// Room for one more memory: when the cache is full, a weakest memory leaves, with its
/// associations; otherwise nothing changes.
pub open spec fn makes_room(
    entries: Map<u32, CachedView>,
    links: Seq<AssociationView>,
    max: usize,
    entries_after: Map<u32, CachedView>,
    links_after: Seq<AssociationView>,
) -> bool {
    if entries.dom().len() >= max && entries.dom().len() > 0 {
        exists|code: u32| #[trigger]
            weakest(entries, code) && entries_after == entries.remove(code) && links_after
                == links.filter(free_of(set![code]))
    } else {
        entries_after == entries && links_after == links
    }
}

/// The codes seen last, after one more.
pub open spec fn seen_also(recent: Seq<u32>, capacity: nat, code: u32) -> Seq<u32> {
    if recent.len() < capacity {
        recent.push(code)
    } else {
        recent.drop_first().push(code)
    }
}

/// What the cache knows of an entry.
pub open spec fn cached_view(e: EntryView) -> CachedView {
    CachedView { memory_id: e.id, strength: e.strength }
}

/// Taking in one memory: room is made for it, and it is cached under the code of its content.
pub open spec fn takes_in(
    entries: Map<u32, CachedView>,
    links: Seq<AssociationView>,
    max: usize,
    e: EntryView,
    entries_after: Map<u32, CachedView>,
    links_after: Seq<AssociationView>,
) -> bool {
    exists|room: Map<u32, CachedView>| #[trigger]
        makes_room(entries, links, max, room, links_after) && entries_after == room.insert(
            content_code(e.content, e.layer),
            cached_view(e),
        )
}

/// Warming with a list of memories: they are taken in one after the other.
pub open spec fn warms(
    entries: Map<u32, CachedView>,
    links: Seq<AssociationView>,
    max: usize,
    list: Seq<EntryView>,
    entries_after: Map<u32, CachedView>,
    links_after: Seq<AssociationView>,
) -> bool
    decreases list.len(),
{
    if list.len() == 0 {
        entries_after == entries && links_after == links
    } else {
        exists|mid: Map<u32, CachedView>, mid_links: Seq<AssociationView>|
            {
                &&& warms(entries, links, max, list.drop_last(), mid, mid_links)
                &&& #[trigger] takes_in(
                    mid,
                    mid_links,
                    max,
                    list.last(),
                    entries_after,
                    links_after,
                )
            }
    }
}

/// The codes seen last after warming with a list of memories.
pub open spec fn warmed_codes(recent: Seq<u32>, capacity: nat, list: Seq<EntryView>) -> Seq<u32>
    decreases list.len(),
{
    if list.len() == 0 {
        recent
    } else {
        let e = list.last();
        seen_also(
            warmed_codes(recent, capacity, list.drop_last()),
            capacity,
            content_code(e.content, e.layer),
        )
    }
}

/// What a list of entries says.
pub open spec fn entry_views(list: Seq<MemoryEntry>) -> Seq<EntryView> {
    list.map_values(|e: MemoryEntry| e@)
}

/// The associations after a link from one code to another: the older one of the subject under the
/// relation is gone, the oldest leaves when the list is full, and the new one comes last.
pub open spec fn associations_after_link(
    associations: Seq<AssociationView>,
    new: AssociationView,
    max: usize,
) -> Seq<AssociationView> {
    let others = associations.filter(other_than(new.subject, new.relation));
    if others.len() >= max {
        others.drop_first().push(new)
    } else {
        others.push(new)
    }
}

/// What the cache does first with a search.
pub enum SearchStart {
    /// An association answers: fetch this memory from the store.
    Fetch(MemoryId),
    /// Search the store.
    Store,
}

impl QemCache {
    /// The cached memories by their codes.
    pub closed spec fn entries(&self) -> Map<u32, CachedView> {
        self.by_code@.map_values(|e: CachedEntry| e@)
    }

    /// The cached associations, oldest first.
    pub closed spec fn links(&self) -> Seq<AssociationView> {
        self.associations@.map_values(|a: CachedAssociation| a@)
    }

    /// The codes seen last.
    pub closed spec fn filter(&self) -> NoveltyFilter {
        self.novelty
    }

    /// The settings.
    pub closed spec fn settings(&self) -> QemConfig {
        self.config
    }

    /// How many lookups hit and missed.
    pub closed spec fn tally(&self) -> (u64, u64) {
        (self.hits, self.misses)
    }

    /// Whether the cache is in order.
    pub closed spec fn wf(&self) -> bool {
        &&& self.novelty.wf()
        &&& self.novelty.capacity_spec() == self.config.novelty_window
        &&& self.by_code@.dom().finite()
        &&& self.by_code@.dom().len() <= self.config.max_entries || self.by_code@.dom().len() <= 1
    }

    /// Whether everything but the tally is as in `other`.
    pub open spec fn same_contents(&self, other: &QemCache) -> bool {
        &&& self.wf()
        &&& self.entries() == other.entries()
        &&& self.links() == other.links()
        &&& self.filter().recent() == other.filter().recent()
        &&& self.settings() == other.settings()
    }

    /// An empty cache.
    pub fn new(config: QemConfig) -> (r: Self)
        ensures
            r.wf(),
            r.entries() == Map::<u32, CachedView>::empty(),
            r.links() == Seq::<AssociationView>::empty(),
            r.filter().recent() == Seq::<u32>::empty(),
            r.settings() == config,
            r.tally() == (0u64, 0u64),
    {
        let r = QemCache {
            by_code: HashMap::new(),
            associations: Vec::new(),
            novelty: NoveltyFilter::new(config.novelty_window),
            config,
            hits: 0,
            misses: 0,
        };
        assert(r.entries() =~= Map::<u32, CachedView>::empty());
        assert(r.links() =~= Seq::<AssociationView>::empty());
        r
    }

    /// Hits, and hits and misses together; nothing before the first lookup. Their ratio is the hit
    /// rate.
    pub fn hit_rate(&self) -> (r: Option<(u64, u128)>)
        ensures
            r == if self.tally().0 == 0 && self.tally().1 == 0 {
                None
            } else {
                Some((self.tally().0, (self.tally().0 + self.tally().1) as u128))
            },
    {
        if self.hits == 0 && self.misses == 0 {
            None
        } else {
            Some((self.hits, self.hits as u128 + self.misses as u128))
        }
    }

    /// Records a lookup that the caller did itself.
    pub fn record_lookup(&mut self, hit: bool)
        requires
            old(self).wf(),
            hit ==> old(self).tally().0 < u64::MAX,
            !hit ==> old(self).tally().1 < u64::MAX,
        ensures
            final(self).same_contents(old(self)),
            final(self).tally() == if hit {
                ((old(self).tally().0 + 1) as u64, old(self).tally().1)
            } else {
                (old(self).tally().0, (old(self).tally().1 + 1) as u64)
            },
    {
        if hit {
            self.hits = self.hits + 1;
        } else {
            self.misses = self.misses + 1;
        }
    }

    /// How many lookups hit.
    pub fn hits(&self) -> (r: u64)
        ensures
            r == self.tally().0,
    {
        self.hits
    }

    /// How many lookups missed.
    pub fn misses(&self) -> (r: u64)
        ensures
            r == self.tally().1,
    {
        self.misses
    }

    /// How many memories are cached.
    pub fn cache_size(&self) -> (r: usize)
        ensures
            r == self.entries().dom().len(),
    {
        proof {
            assert(self.entries().dom() =~= self.by_code@.dom());
        }
        self.by_code.len()
    }

    /// The cached memories with a code: one, or none.
    pub fn lookup_by_code(&self, code: u32) -> (r: Vec<MemoryId>)
        ensures
            self.entries().contains_key(code) ==> r@.len() == 1 && r@[0]@
                == self.entries()[code].memory_id,
            !self.entries().contains_key(code) ==> r@.len() == 0,
    {
        let mut out: Vec<MemoryId> = Vec::new();
        if let Some(e) = self.by_code.get(&code) {
            out.push(e.memory_id.clone());
        }
        out
    }

    fn find(&self, key: u32) -> (r: Option<MemoryId>)
        ensures
            match r {
                Some(id) => first_answer(self.links(), key, self.settings()) == Some(id@),
                None => first_answer(self.links(), key, self.settings()) is None,
            },
    {
        let mut i: usize = 0;
        proof {
            assert(self.links().skip(0) =~= self.links());
        }
        while i < self.associations.len()
            invariant
                i <= self.associations@.len(),
                first_answer(self.links().skip(i as int), key, self.settings()) == first_answer(
                    self.links(),
                    key,
                    self.settings(),
                ),
            decreases self.associations@.len() - i,
        {
            let a = &self.associations[i];
            proof {
                let rest = self.links().skip(i as int);
                assert(rest[0] == a@);
                assert(rest.drop_first() =~= self.links().skip(i + 1));
            }
            if a.subject_code.bind(a.relation_code).0 == key && a.strength.gt(
                self.config.min_association_strength,
            ) {
                return Some(a.memory_id.clone());
            }
            i += 1;
        }
        None
    }

    /// The memory that a subject leads to under a relation, if an association says so.
    pub fn associative_lookup(&self, subject: u32, relation: u32) -> (r: Option<MemoryId>)
        ensures
            match r {
                Some(id) => first_answer(self.links(), subject ^ relation, self.settings()) == Some(
                    id@,
                ),
                None => first_answer(self.links(), subject ^ relation, self.settings()) is None,
            },
    {
        let key = QemCode(subject).bind(QemCode(relation));
        self.find(key.0)
    }

    fn codes(&self) -> (r: Vec<u32>)
        ensures
            r@.to_set() == self.by_code@.dom(),
    {
        let mut out: Vec<u32> = Vec::new();
        let keys = self.by_code.keys();
        let ghost all = keys.remaining().unref();
        for k in it: keys
            invariant
                it.seq().unref() == all,
                all.to_set() == self.by_code@.dom(),
                out@ == all.take(it.index() as int),
        {
            out.push(*k);
            proof {
                assert(all.take(it.index() + 1) =~= all.take(it.index() as int).push(*k));
            }
        }
        proof {
            assert(all.take(all.len() as int) =~= all);
        }
        out
    }

    /// Some code under which a memory is cached.
    fn code_of(&self, id: &str) -> (r: Option<u32>)
        ensures
            match r {
                Some(code) => codes_of(self.entries(), id@).contains(code),
                None => forall|code: u32| !codes_of(self.entries(), id@).contains(code),
            },
    {
        let codes = self.codes();
        let mut i: usize = 0;
        while i < codes.len()
            invariant
                i <= codes@.len(),
                codes@.to_set() == self.by_code@.dom(),
                forall|j: int|
                    0 <= j < i ==> self.entries()[#[trigger] codes@[j]].memory_id != id@,
            decreases codes@.len() - i,
        {
            let code: u32 = codes[i];
            proof {
                assert(codes@.to_set().contains(code));
            }
            if let Some(e) = self.by_code.get(&code) {
                if text_eq(e.memory_id.as_str(), id) {
                    return Some(code);
                }
            }
            i += 1;
        }
        proof {
            assert forall|code: u32| !codes_of(self.entries(), id@).contains(code) by {
                if self.by_code@.dom().contains(code) {
                    assert(codes@.to_set().contains(code));
                    let j = choose|j: int| 0 <= j < codes@.len() && codes@[j] == code;
                    assert(self.entries()[codes@[j]].memory_id != id@);
                }
            }
        }
        None
    }

    /// Whether a memory is cached.
    pub fn is_cached(&self, memory_id: &str) -> (r: bool)
        ensures
            r == exists|code: u32| codes_of(self.entries(), memory_id@).contains(code),
    {
        self.code_of(memory_id).is_some()
    }

    /// Drops the associations that lead to a memory.
    fn drop_associations_about(&mut self, id: &str)
        ensures
            final(self).links() == old(self).links().filter(not_about(id@)),
            final(self).by_code == old(self).by_code,
            final(self).novelty == old(self).novelty,
            final(self).config == old(self).config,
            final(self).tally() == old(self).tally(),
    {
        let ghost keep = not_about(id@);
        let ghost before = self.links();
        let mut kept: Vec<CachedAssociation> = Vec::new();
        let mut old_list: Vec<CachedAssociation> = Vec::new();
        std::mem::swap(&mut old_list, &mut self.associations);
        let mut i: usize = 0;
        while i < old_list.len()
            invariant
                i <= old_list@.len(),
                keep == not_about(id@),
                before == old_list@.map_values(|a: CachedAssociation| a@),
                kept@.map_values(|a: CachedAssociation| a@) == before.take(i as int).filter(keep),
            decreases old_list@.len() - i,
        {
            let a = &old_list[i];
            proof {
                let upto = before.take(i + 1);
                assert(upto.drop_last() =~= before.take(i as int));
                assert(upto.last() == a@);
                reveal(Seq::filter);
            }
            if !text_eq(a.memory_id.as_str(), id) {
                let copy = a.copy();
                proof {
                    assert(kept@.push(copy).map_values(|a: CachedAssociation| a@)
                        =~= kept@.map_values(|a: CachedAssociation| a@).push(copy@));
                }
                kept.push(copy);
            }
            i += 1;
        }
        proof {
            assert(before.take(before.len() as int) =~= before);
        }
        self.associations = kept;
    }

    /// Drops the associations that have one of the codes as subject or object.
    fn drop_associations(&mut self, codes: &Vec<u32>)
        ensures
            final(self).links() == old(self).links().filter(free_of(codes@.to_set())),
            final(self).by_code == old(self).by_code,
            final(self).novelty == old(self).novelty,
            final(self).config == old(self).config,
            final(self).tally() == old(self).tally(),
    {
        let ghost keep = free_of(codes@.to_set());
        let ghost before = self.links();
        let mut kept: Vec<CachedAssociation> = Vec::new();
        let mut old_list: Vec<CachedAssociation> = Vec::new();
        std::mem::swap(&mut old_list, &mut self.associations);
        let mut i: usize = 0;
        while i < old_list.len()
            invariant
                i <= old_list@.len(),
                keep == free_of(codes@.to_set()),
                before == old_list@.map_values(|a: CachedAssociation| a@),
                kept@.map_values(|a: CachedAssociation| a@) == before.take(i as int).filter(keep),
            decreases old_list@.len() - i,
        {
            let a = &old_list[i];
            let touched = has_code(codes, a.subject_code.0) || has_code(codes, a.object_code.0);
            proof {
                let upto = before.take(i + 1);
                assert(upto.drop_last() =~= before.take(i as int));
                assert(upto.last() == a@);
                reveal(Seq::filter);
            }
            if !touched {
                let copy = a.copy();
                proof {
                    assert(kept@.push(copy).map_values(|a: CachedAssociation| a@)
                        =~= kept@.map_values(|a: CachedAssociation| a@).push(copy@));
                }
                kept.push(copy);
            }
            i += 1;
        }
        proof {
            assert(before.take(before.len() as int) =~= before);
        }
        self.associations = kept;
    }

    /// Forgets a memory, with the associations of its codes and those that lead to it. To be
    /// called when the memory is deleted from the store, so that the cache does not return it.
    pub fn evict_by_id(&mut self, memory_id: &str)
        requires
            old(self).wf(),
        ensures
            final(self).wf(),
            final(self).entries() == old(self).entries().remove_keys(
                codes_of(old(self).entries(), memory_id@),
            ),
            final(self).links() == old(self).links().filter(
                free_of(codes_of(old(self).entries(), memory_id@)),
            ).filter(not_about(memory_id@)),
            forall|key: u32|
                #[trigger] first_answer(final(self).links(), key, final(self).settings()) != Some(
                    memory_id@,
                ),
            final(self).filter().recent() == old(self).filter().recent(),
            final(self).settings() == old(self).settings(),
            final(self).tally() == old(self).tally(),
    {
        let ghost before = self.entries();
        let ghost gone = codes_of(before, memory_id@);
        let codes = self.codes();
        let mut evicted: Vec<u32> = Vec::new();
        let mut i: usize = 0;
        proof {
            assert(evicted@.to_set() =~= codes@.take(0).to_set().intersect(gone));
        }
        while i < codes.len()
            invariant
                i <= codes@.len(),
                self == old(self),
                before == self.entries(),
                gone == codes_of(before, memory_id@),
                codes@.to_set() == self.by_code@.dom(),
                evicted@.to_set() == codes@.take(i as int).to_set().intersect(gone),
            decreases codes@.len() - i,
        {
            let code: u32 = codes[i];
            proof {
                assert(codes@.to_set().contains(code));
                assert(codes@.take(i + 1) =~= codes@.take(i as int).push(code));
                codes@.take(i as int).lemma_push_to_set_commute(code);
                evicted@.lemma_push_to_set_commute(code);
            }
            if let Some(e) = self.by_code.get(&code) {
                if text_eq(e.memory_id.as_str(), memory_id) {
                    evicted.push(code);
                }
            }
            proof {
                assert(evicted@.to_set() =~= codes@.take(i + 1).to_set().intersect(gone));
            }
            i += 1;
        }
        proof {
            assert(codes@.take(codes@.len() as int) =~= codes@);
            assert(evicted@.to_set() =~= gone);
        }
        let mut j: usize = 0;
        while j < evicted.len()
            invariant
                j <= evicted@.len(),
                self.by_code@ == old(self).by_code@.remove_keys(evicted@.take(j as int).to_set()),
                self.by_code@.dom().finite(),
                self.by_code@.dom().len() <= old(self).by_code@.dom().len(),
                self.associations == old(self).associations,
                self.novelty == old(self).novelty,
                self.config == old(self).config,
                self.tally() == old(self).tally(),
            decreases evicted@.len() - j,
        {
            let code: u32 = evicted[j];
            let ghost m = self.by_code@;
            self.by_code.remove(&code);
            proof {
                let upto = evicted@.take(j + 1);
                assert(upto =~= evicted@.take(j as int).push(code));
                evicted@.take(j as int).lemma_push_to_set_commute(code);
                assert(self.by_code@ =~= m.remove(code));
                assert(self.by_code@ =~= old(self).by_code@.remove_keys(upto.to_set()));
            }
            j += 1;
        }
        proof {
            assert(evicted@.take(evicted@.len() as int) =~= evicted@);
            assert(self.entries() =~= before.remove_keys(codes_of(before, memory_id@)));
        }
        self.drop_associations(&evicted);
        self.drop_associations_about(memory_id);
        proof {
            let links = old(self).links();
            assert forall|key: u32| #[trigger]
                first_answer(self.links(), key, self.settings()) != Some(memory_id@) by {
                lemma_filtered_answers(links, before, memory_id@, key, self.settings());
            }
        }
    }

    /// A code under which no weaker memory is cached.
    fn weakest_code(&self) -> (r: u32)
        requires
            self.wf(),
            self.entries().dom().len() > 0,
        ensures
            weakest(self.entries(), r),
    {
        let codes = self.codes();
        proof {
            assert(self.entries().dom() =~= self.by_code@.dom());
            let some = self.entries().dom().choose();
            assert(codes@.to_set().contains(some));
            assert(codes@.len() > 0);
        }
        let mut best: u32 = codes[0];
        proof {
            assert(codes@.to_set().contains(codes@[0]));
        }
        let mut i: usize = 0;
        while i < codes.len()
            invariant
                i <= codes@.len(),
                codes@.to_set() == self.by_code@.dom(),
                self.by_code@.contains_key(best),
                forall|j: int|
                    0 <= j < i ==> self.by_code@[best].strength.rank() <= self.by_code@[
                        #[trigger] codes@[j]
                    ].strength.rank(),
            decreases codes@.len() - i,
        {
            let code: u32 = codes[i];
            proof {
                assert(codes@.to_set().contains(code));
            }
            if let Some(e) = self.by_code.get(&code) {
                if let Some(b) = self.by_code.get(&best) {
                    if e.strength.position() < b.strength.position() {
                        best = code;
                    }
                }
            }
            i += 1;
        }
        proof {
            assert forall|other: u32| #[trigger] self.entries().contains_key(other) implies
                !self.entries()[best].strength.exceeds(self.entries()[other].strength) by {
                assert(codes@.to_set().contains(other));
                let j = choose|j: int| 0 <= j < codes@.len() && codes@[j] == other;
                assert(self.by_code@[best].strength.rank() <= self.by_code@[codes@[j]].strength.rank());
            }
        }
        best
    }

    fn make_room(&mut self)
        requires
            old(self).wf(),
        ensures
            final(self).wf(),
            makes_room(
                old(self).entries(),
                old(self).links(),
                old(self).settings().max_entries,
                final(self).entries(),
                final(self).links(),
            ),
            final(self).by_code@.dom().len() < old(self).config.max_entries
                || final(self).by_code@.dom().len() == 0,
            final(self).novelty == old(self).novelty,
            final(self).config == old(self).config,
            final(self).tally() == old(self).tally(),
    {
        let n: usize = self.cache_size();
        proof {
            assert(self.entries().dom() =~= self.by_code@.dom());
        }
        if n >= self.config.max_entries && n > 0 {
            let code: u32 = self.weakest_code();
            self.by_code.remove(&code);
            proof {
                assert(self.by_code@.dom() =~= old(self).by_code@.dom().remove(code));
                assert(self.entries() =~= old(self).entries().remove(code));
                assert(weakest(old(self).entries(), code));
            }
            let mut gone: Vec<u32> = Vec::new();
            gone.push(code);
            proof {
                Seq::<u32>::empty().lemma_push_to_set_commute(code);
                assert(gone@ =~= Seq::<u32>::empty().push(code));
                assert(gone@.to_set() =~= set![code]);
            }
            self.drop_associations(&gone);
        }
    }

    fn remember(&mut self, code: QemCode, id: MemoryId, strength: Measure)
        requires
            old(self).wf(),
            old(self).by_code@.dom().len() < old(self).config.max_entries
                || old(self).by_code@.dom().len() == 0,
        ensures
            final(self).wf(),
            final(self).entries() == old(self).entries().insert(
                code.0,
                CachedView { memory_id: id@, strength },
            ),
            final(self).links() == old(self).links(),
            final(self).novelty == old(self).novelty,
            final(self).config == old(self).config,
            final(self).tally() == old(self).tally(),
    {
        self.by_code.insert(code.0, CachedEntry { memory_id: id, strength });
        proof {
            assert(self.by_code@.dom() =~= old(self).by_code@.dom().insert(code.0));
            assert(self.entries() =~= old(self).entries().insert(
                code.0,
                CachedView { memory_id: id@, strength },
            ));
        }
    }

    /// Takes a stored memory into the cache. To be called once the memory is in the store.
    pub fn populate_l1(&mut self, entry: &MemoryEntry)
        requires
            old(self).wf(),
            old(self).settings().novelty_window > 0,
        ensures
            final(self).wf(),
            takes_in(
                old(self).entries(),
                old(self).links(),
                old(self).settings().max_entries,
                entry@,
                final(self).entries(),
                final(self).links(),
            ),
            final(self).filter().recent() == seen_also(
                old(self).filter().recent(),
                old(self).settings().novelty_window as nat,
                content_code(entry.content@, entry.layer),
            ),
            final(self).settings() == old(self).settings(),
            final(self).tally() == old(self).tally(),
    {
        let code = QemEncoder::encode(entry.content.as_str(), entry.layer);
        self.novelty.observe(code);
        self.make_room();
        let ghost room = self.entries();
        self.remember(code, entry.id.clone(), entry.strength);
        proof {
            assert(makes_room(
                old(self).entries(),
                old(self).links(),
                old(self).settings().max_entries,
                room,
                self.links(),
            ));
        }
    }

    /// Warms the cache with memories from the store, in their order. A full cache makes room for
    /// each, so it does not grow beyond its limit.
    pub fn warm(&mut self, list: &Vec<MemoryEntry>)
        requires
            old(self).wf(),
            old(self).settings().novelty_window > 0,
        ensures
            final(self).wf(),
            warms(
                old(self).entries(),
                old(self).links(),
                old(self).settings().max_entries,
                entry_views(list@),
                final(self).entries(),
                final(self).links(),
            ),
            old(self).settings().max_entries > 0 ==> final(self).entries().dom().len() <= old(
                self,
            ).settings().max_entries,
            final(self).filter().recent() == warmed_codes(
                old(self).filter().recent(),
                old(self).settings().novelty_window as nat,
                entry_views(list@),
            ),
            final(self).settings() == old(self).settings(),
            final(self).tally() == old(self).tally(),
    {
        let mut i: usize = 0;
        let ghost all = entry_views(list@);
        while i < list.len()
            invariant
                i <= list@.len(),
                all == entry_views(list@),
                self.wf(),
                self.settings() == old(self).settings(),
                self.settings().novelty_window > 0,
                warms(
                    old(self).entries(),
                    old(self).links(),
                    old(self).settings().max_entries,
                    all.take(i as int),
                    self.entries(),
                    self.links(),
                ),
                self.filter().recent() == warmed_codes(
                    old(self).filter().recent(),
                    self.settings().novelty_window as nat,
                    all.take(i as int),
                ),
                self.tally() == old(self).tally(),
            decreases list@.len() - i,
        {
            let entry = &list[i];
            proof {
                let upto = all.take(i + 1);
                assert(upto.drop_last() =~= all.take(i as int));
                assert(upto.last() == entry@);
            }
            let ghost mid = self.entries();
            let ghost mid_links = self.links();
            self.populate_l1(entry);
            proof {
                assert(warms(
                    old(self).entries(),
                    old(self).links(),
                    old(self).settings().max_entries,
                    all.take(i + 1).drop_last(),
                    mid,
                    mid_links,
                ));
                assert(takes_in(
                    mid,
                    mid_links,
                    old(self).settings().max_entries,
                    all.take(i + 1).last(),
                    self.entries(),
                    self.links(),
                ));
            }
            i += 1;
        }
        proof {
            assert(all.take(all.len() as int) =~= all);
            law_cache_is_bounded(self);
        }
    }

    /// Counts the retrieval of a memory as a hit or a miss.
    pub fn note_retrieval(&mut self, memory_id: &str) -> (r: bool)
        requires
            old(self).wf(),
            old(self).tally().0 < u64::MAX,
            old(self).tally().1 < u64::MAX,
        ensures
            r == exists|code: u32| codes_of(old(self).entries(), memory_id@).contains(code),
            final(self).same_contents(old(self)),
            final(self).tally() == if r {
                ((old(self).tally().0 + 1) as u64, old(self).tally().1)
            } else {
                (old(self).tally().0, (old(self).tally().1 + 1) as u64)
            },
    {
        let hit = self.is_cached(memory_id);
        self.record_lookup(hit);
        hit
    }

    /// Starts a search. When subject and relation are given and an association answers, that is a
    /// hit and its memory is to be fetched; otherwise it is a miss and the store is to be searched.
    pub fn begin_search(&mut self, subject: Option<u32>, relation: Option<u32>) -> (r: SearchStart)
        requires
            old(self).wf(),
            old(self).tally().0 < u64::MAX,
            old(self).tally().1 < u64::MAX,
        ensures
            final(self).same_contents(old(self)),
            match (subject, relation) {
                (Some(s), Some(l)) => match first_answer(
                    old(self).links(),
                    s ^ l,
                    old(self).settings(),
                ) {
                    Some(id) => {
                        &&& r matches SearchStart::Fetch(m) && m@ == id
                        &&& final(self).tally() == ((old(self).tally().0 + 1) as u64, old(
                            self,
                        ).tally().1)
                    },
                    None => {
                        &&& r is Store
                        &&& final(self).tally() == (
                            old(self).tally().0,
                            (old(self).tally().1 + 1) as u64,
                        )
                    },
                },
                _ => {
                    &&& r is Store
                    &&& final(self).tally() == (
                        old(self).tally().0,
                        (old(self).tally().1 + 1) as u64,
                    )
                },
            },
    {
        if let (Some(s), Some(l)) = (subject, relation) {
            if let Some(id) = self.associative_lookup(s, l) {
                self.record_lookup(true);
                return SearchStart::Fetch(id);
            }
        }
        self.record_lookup(false);
        SearchStart::Store
    }

    /// The fetched memory of an association was not in the store: that is a miss, and the store is
    /// to be searched after all.
    pub fn fetch_failed(&mut self)
        requires
            old(self).wf(),
            old(self).tally().1 < u64::MAX,
        ensures
            final(self).same_contents(old(self)),
            final(self).tally() == (old(self).tally().0, (old(self).tally().1 + 1) as u64),
    {
        self.record_lookup(false);
    }

    /// Caches a stored link between two memories as an association, when both are cached. With a
    /// memory cached under several codes, any of them stands for it.
    pub fn link(&mut self, source: &MemoryId, target: &MemoryId, link_type: LinkType, weight: Measure)
        requires
            old(self).wf(),
            old(self).settings().max_associations > 0 || (forall|code: u32|
                !codes_of(old(self).entries(), source@).contains(code)) || (forall|code: u32|
                !codes_of(old(self).entries(), target@).contains(code)),
        ensures
            final(self).wf(),
            final(self).entries() == old(self).entries(),
            final(self).filter().recent() == old(self).filter().recent(),
            final(self).settings() == old(self).settings(),
            final(self).tally() == old(self).tally(),
            (exists|s: u32| codes_of(old(self).entries(), source@).contains(s)) && (exists|t: u32|
                codes_of(old(self).entries(), target@).contains(t)) ==> exists|s: u32, t: u32|
                #![trigger codes_of(old(self).entries(), source@).contains(s), codes_of(
                    old(self).entries(),
                    target@,
                ).contains(t)]
                codes_of(old(self).entries(), source@).contains(s) && codes_of(
                    old(self).entries(),
                    target@,
                ).contains(t) && final(self).links() == associations_after_link(
                    old(self).links(),
                    (AssociationView {
                        subject: s,
                        relation: relation_code(link_type.name()),
                        object: t,
                        memory_id: target@,
                        strength: weight,
                    }),
                    old(self).settings().max_associations,
                ),
            !((exists|s: u32| codes_of(old(self).entries(), source@).contains(s)) && (exists|t: u32|
                codes_of(old(self).entries(), target@).contains(t))) ==> final(self).links() == old(
                self,
            ).links(),
    {
        let from = self.code_of(source.as_str());
        let to = self.code_of(target.as_str());
        if let (Some(s), Some(t)) = (from, to) {
            let relation = QemEncoder::encode_relation(link_type.as_str());
            self.drop_association(s, relation.0);
            if self.associations.len() >= self.config.max_associations {
                if self.associations.len() > 0 {
                    let ghost before = self.links();
                    self.associations.remove(0);
                    proof {
                        assert(self.links() =~= before.drop_first());
                    }
                }
            }
            let new = CachedAssociation {
                subject_code: QemCode(s),
                relation_code: relation,
                object_code: QemCode(t),
                memory_id: target.clone(),
                strength: weight,
            };
            let ghost before = self.links();
            self.associations.push(new);
            proof {
                assert(self.links() =~= before.push(new@));
                assert(codes_of(old(self).entries(), source@).contains(s));
                assert(codes_of(old(self).entries(), target@).contains(t));
            }
        }
    }

    /// Drops the association of a subject under a relation.
    fn drop_association(&mut self, subject: u32, relation: u32)
        ensures
            final(self).links() == old(self).links().filter(other_than(subject, relation)),
            final(self).by_code == old(self).by_code,
            final(self).novelty == old(self).novelty,
            final(self).config == old(self).config,
            final(self).tally() == old(self).tally(),
    {
        let ghost keep = other_than(subject, relation);
        let ghost before = self.links();
        let mut kept: Vec<CachedAssociation> = Vec::new();
        let mut old_list: Vec<CachedAssociation> = Vec::new();
        std::mem::swap(&mut old_list, &mut self.associations);
        let mut i: usize = 0;
        while i < old_list.len()
            invariant
                i <= old_list@.len(),
                keep == other_than(subject, relation),
                before == old_list@.map_values(|a: CachedAssociation| a@),
                kept@.map_values(|a: CachedAssociation| a@) == before.take(i as int).filter(keep),
            decreases old_list@.len() - i,
        {
            let a = &old_list[i];
            proof {
                let upto = before.take(i + 1);
                assert(upto.drop_last() =~= before.take(i as int));
                assert(upto.last() == a@);
                reveal(Seq::filter);
            }
            if !(a.subject_code.0 == subject && a.relation_code.0 == relation) {
                let copy = a.copy();
                proof {
                    assert(kept@.push(copy).map_values(|a: CachedAssociation| a@)
                        =~= kept@.map_values(|a: CachedAssociation| a@).push(copy@));
                }
                kept.push(copy);
            }
            i += 1;
        }
        proof {
            assert(before.take(before.len() as int) =~= before);
        }
        self.associations = kept;
    }
}

fn has_code(codes: &Vec<u32>, code: u32) -> (r: bool)
    ensures
        r == codes@.to_set().contains(code),
{
    let mut i: usize = 0;
    while i < codes.len()
        invariant
            i <= codes@.len(),
            forall|j: int| 0 <= j < i ==> codes@[j] != code,
        decreases codes@.len() - i,
    {
        if codes[i] == code {
            return true;
        }
        i += 1;
    }
    false
}

/// A memory that was just taken into the cache is cached.
pub proof fn law_populated_memory_is_cached(room: Map<u32, CachedView>, e: EntryView)
    ensures
        codes_of(
            room.insert(content_code(e.content, e.layer), cached_view(e)),
            e.id,
        ).contains(content_code(e.content, e.layer)),
{
}

proof fn lemma_no_answer_without_association(
    links: Seq<AssociationView>,
    key: u32,
    config: QemConfig,
    id: Seq<char>,
)
    requires
        forall|i: int| 0 <= i < links.len() ==> (#[trigger] links[i]).memory_id != id,
    ensures
        first_answer(links, key, config) != Some(id),
    decreases links.len(),
{
    if links.len() > 0 {
        let rest = links.drop_first();
        assert forall|i: int| 0 <= i < rest.len() implies (#[trigger] rest[i]).memory_id != id by {
            assert(rest[i] == links[i + 1]);
        }
        lemma_no_answer_without_association(rest, key, config, id);
    }
}

proof fn lemma_filtered_answers(
    links: Seq<AssociationView>,
    entries: Map<u32, CachedView>,
    id: Seq<char>,
    key: u32,
    config: QemConfig,
)
    ensures
        first_answer(
            links.filter(free_of(codes_of(entries, id))).filter(not_about(id)),
            key,
            config,
        ) != Some(id),
        forall|i: int|
            0 <= i < links.filter(free_of(codes_of(entries, id))).filter(not_about(id)).len() ==> {
                let a = #[trigger] links.filter(free_of(codes_of(entries, id))).filter(
                    not_about(id),
                )[i];
                &&& !codes_of(entries, id).contains(a.subject)
                &&& !codes_of(entries, id).contains(a.object)
                &&& a.memory_id != id
            },
{
    broadcast use vstd::seq_lib::group_filter_ensures;

    let free = links.filter(free_of(codes_of(entries, id)));
    let after = free.filter(not_about(id));
    assert forall|i: int| 0 <= i < after.len() implies {
        let a = #[trigger] after[i];
        &&& !codes_of(entries, id).contains(a.subject)
        &&& !codes_of(entries, id).contains(a.object)
        &&& a.memory_id != id
    } by {
        assert(after.contains(after[i]));
        assert(not_about(id)(after[i]));
        free.lemma_filter_contains_rev(not_about(id), after[i]);
        let k = choose|k: int| 0 <= k < free.len() && free[k] == after[i];
        assert(free_of(codes_of(entries, id))(free[k]));
    }
    lemma_no_answer_without_association(after, key, config, id);
}

/// An evicted memory is cached no longer, no association speaks of its codes, and no lookup gives
/// it back, not even where another memory has taken over its code; every other memory stays as it
/// was.
pub proof fn law_evicted_memory_is_gone(
    entries: Map<u32, CachedView>,
    links: Seq<AssociationView>,
    id: Seq<char>,
    other: Seq<char>,
    key: u32,
    config: QemConfig,
)
    requires
        other != id,
    ensures
        codes_of(entries.remove_keys(codes_of(entries, id)), id) =~= Set::<u32>::empty(),
        codes_of(entries.remove_keys(codes_of(entries, id)), other) =~= codes_of(entries, other),
        first_answer(
            links.filter(free_of(codes_of(entries, id))).filter(not_about(id)),
            key,
            config,
        ) != Some(id),
        forall|i: int|
            0 <= i < links.filter(free_of(codes_of(entries, id))).filter(not_about(id)).len() ==> {
                let a = #[trigger] links.filter(free_of(codes_of(entries, id))).filter(
                    not_about(id),
                )[i];
                &&& !codes_of(entries, id).contains(a.subject)
                &&& !codes_of(entries, id).contains(a.object)
                &&& a.memory_id != id
            },
{
    lemma_filtered_answers(links, entries, id, key, config);
}

/// A cache never holds more memories than its limit, and room for one always: taking in, warming,
/// linking and evicting all keep it in order.
pub proof fn law_cache_is_bounded(cache: &QemCache)
    requires
        cache.wf(),
    ensures
        cache.entries().dom().len() <= cache.settings().max_entries || cache.entries().dom().len()
            <= 1,
{
    assert(cache.entries().dom() =~= cache.by_code@.dom());
}

/// A cache that is not overfull does not become so: taking in a memory leaves at most the
/// permitted number of memories, and always room for one.
pub proof fn law_cache_keeps_to_its_size(
    entries: Map<u32, CachedView>,
    links: Seq<AssociationView>,
    max: usize,
    room: Map<u32, CachedView>,
    links_after: Seq<AssociationView>,
    code: u32,
    v: CachedView,
)
    requires
        entries.dom().finite(),
        entries.dom().len() <= max || entries.dom().len() <= 1,
        makes_room(entries, links, max, room, links_after),
    ensures
        room.insert(code, v).dom().len() <= max || room.insert(code, v).dom().len() <= 1,
{
    let after = room.insert(code, v);
    if entries.dom().len() >= max && entries.dom().len() > 0 {
        let k = choose|k: u32| #[trigger]
            weakest(entries, k) && room == entries.remove(k) && links_after == links.filter(
                free_of(set![k]),
            );
        assert(room.dom() =~= entries.dom().remove(k));
        assert(room.dom().len() == entries.dom().len() - 1);
    }
    assert(after.dom() =~= room.dom().insert(code));
    assert(after.dom().len() <= room.dom().len() + 1);
}

/// The list of associations does not grow beyond its limit.
pub proof fn law_associations_keep_to_their_limit(
    links: Seq<AssociationView>,
    new: AssociationView,
    max: usize,
)
    requires
        links.len() <= max,
        max > 0,
    ensures
        associations_after_link(links, new, max).len() <= max,
        associations_after_link(links, new, max).last() == new,
{
    links.lemma_filter_len(other_than(new.subject, new.relation));
}

/// A link is found by what it binds: unless an older association answers to the same key, the
/// subject and the relation of a link that is strong enough lead to its target.
pub proof fn law_linked_memory_is_found(
    links: Seq<AssociationView>,
    new: AssociationView,
    config: QemConfig,
)
    requires
        config.max_associations > 0,
        new.strength.exceeds(config.min_association_strength),
        forall|i: int|
            0 <= i < links.len() ==> answers(
                #[trigger] links[i],
                new.subject ^ new.relation,
                config,
            ) ==> links[i].subject == new.subject && links[i].relation == new.relation,
    ensures
        first_answer(
            associations_after_link(links, new, config.max_associations),
            new.subject ^ new.relation,
            config,
        ) == Some(new.memory_id),
{
    let key = new.subject ^ new.relation;
    let f = other_than(new.subject, new.relation);
    let others = links.filter(f);
    broadcast use vstd::seq_lib::group_filter_ensures;

    let after = associations_after_link(links, new, config.max_associations);
    assert forall|i: int| 0 <= i < after.len() - 1 implies !answers(#[trigger] after[i], key, config) by {
        let a = after[i];
        assert(others.contains(a)) by {
            if others.len() >= config.max_associations {
                assert(others[i + 1] == a);
            } else {
                assert(others[i] == a);
            }
        }
        let k = choose|k: int| 0 <= k < others.len() && others[k] == a;
        assert(f(others[k]));
        links.lemma_filter_contains_rev(f, a);
        assert(links.contains(a));
        let j = choose|j: int| 0 <= j < links.len() && links[j] == a;
        assert(!(answers(links[j], key, config)));
    }
    lemma_last_answers(after, key, config);
}

proof fn lemma_last_answers(links: Seq<AssociationView>, key: u32, config: QemConfig)
    requires
        links.len() > 0,
        answers(links.last(), key, config),
        forall|i: int| 0 <= i < links.len() - 1 ==> !answers(#[trigger] links[i], key, config),
    ensures
        first_answer(links, key, config) == Some(links.last().memory_id),
    decreases links.len(),
{
    if links.len() > 1 {
        assert(!answers(links[0], key, config));
        let rest = links.drop_first();
        assert forall|i: int| 0 <= i < rest.len() - 1 implies !answers(#[trigger] rest[i], key, config) by {
            assert(rest[i] == links[i + 1]);
        }
        lemma_last_answers(rest, key, config);
    }
}

/// A code is folded word by word: bytes that fill whole words and what stands behind them each
/// have their own fold, and the two combine.
pub proof fn law_codes_are_folded_word_by_word(a: Seq<u8>, b: Seq<u8>)
    requires
        a.len() % 4 == 0,
    ensures
        folded(a + b, 0) == folded(a, 0) ^ folded(b, 0),
{
    lemma_folded_behind(a, b, 0);
}

proof fn lemma_folded_behind(a: Seq<u8>, b: Seq<u8>, at: int)
    requires
        a.len() % 4 == 0,
        at % 4 == 0,
        0 <= at <= a.len(),
    ensures
        folded(a + b, at) == folded(a, at) ^ folded(b, 0),
    decreases a.len() - at,
{
    if at == a.len() {
        lemma_folded_shifted(a, b, 0);
        let f = folded(b, 0);
        assert(f == 0u32 ^ f) by (bit_vector);
    } else {
        lemma_folded_behind(a, b, at + 4);
        assert(word_at(a + b, at) == word_at(a, at)) by {
            assert((a + b)[at] == a[at]);
            assert((a + b)[at + 1] == a[at + 1]);
            assert((a + b)[at + 2] == a[at + 2]);
            assert((a + b)[at + 3] == a[at + 3]);
        }
        let (w, f, g) = (word_at(a, at), folded(a, at + 4), folded(b, 0));
        assert(w ^ (f ^ g) == (w ^ f) ^ g) by (bit_vector);
    }
}

proof fn lemma_folded_shifted(a: Seq<u8>, b: Seq<u8>, k: int)
    requires
        0 <= k,
    ensures
        folded(a + b, a.len() + k) == folded(b, k),
    decreases b.len() - k + 4,
{
    let s = a + b;
    if k < b.len() {
        lemma_folded_shifted(a, b, k + 4);
        assert(word_at(s, a.len() + k) == word_at(b, k)) by {
            assert(s[a.len() + k] == b[k]);
            if k + 1 < b.len() {
                assert(s[a.len() + (k + 1)] == b[k + 1]);
            }
            if k + 2 < b.len() {
                assert(s[a.len() + (k + 2)] == b[k + 2]);
            }
            if k + 3 < b.len() {
                assert(s[a.len() + (k + 3)] == b[k + 3]);
            }
        }
        assert(s.len() == a.len() + b.len());
    }
}

/// The fold of up to four bytes is the number that they write, the lowest byte first; so short
/// contents of the same length have the same fold only if they are the same.
pub proof fn law_short_codes_are_numbers(b: Seq<u8>)
    requires
        b.len() <= 4,
    ensures
        folded(b, 0) == (if b.len() > 0 {
            b[0] as int
        } else {
            0
        }) + 0x100 * (if b.len() > 1 {
            b[1] as int
        } else {
            0
        }) + 0x1_0000 * (if b.len() > 2 {
            b[2] as int
        } else {
            0
        }) + 0x100_0000 * (if b.len() > 3 {
            b[3] as int
        } else {
            0
        }),
{
    reveal_with_fuel(folded, 2);
    let at = |i: int|
        if i < b.len() {
            b[i] as u32
        } else {
            0u32
        };
    let (w, x, y, z) = (at(0), at(1), at(2), at(3));
    assert(w | (x << 8) | (y << 16) | (z << 24) == w + 0x100 * x + 0x1_0000 * y + 0x100_0000 * z)
        by (bit_vector)
        requires
            w <= 255,
            x <= 255,
            y <= 255,
            z <= 255,
    ;
    let f = word_at(b, 0);
    assert(f ^ 0u32 == f) by (bit_vector);
}

/// The code of a content is its fold, marked with its layer; that of a relation is its fold as it
/// is.
pub proof fn law_codes_are_marked_with_their_layer(content: Seq<char>)
    ensures
        content_code(content, MemoryLayer::Episodic) == relation_code(content) ^ 0xE715_0D1Cu32,
        content_code(content, MemoryLayer::Semantic) == relation_code(content) ^ 0x5E04_171Cu32,
        content_code(content, MemoryLayer::Imagined) == relation_code(content) ^ 0x1140_113Du32,
        relation_code(content) == folded(encode_utf8(content), 0),
{
}

/// A question is answered by the first association with its subject and its relation that is
/// stronger than the least that counts, and by none only where there is none.
pub proof fn law_first_association_answers(
    links: Seq<AssociationView>,
    key: u32,
    config: QemConfig,
)
    ensures
        first_answer(links, key, config) is None <==> forall|i: int|
            0 <= i < links.len() ==> !((#[trigger] links[i]).subject ^ links[i].relation == key
                && links[i].strength.exceeds(config.min_association_strength)),
        first_answer(links, key, config) matches Some(id) ==> exists|i: int|
            0 <= i < links.len() && (#[trigger] links[i]).memory_id == id && links[i].subject
                ^ links[i].relation == key && links[i].strength.exceeds(
                config.min_association_strength,
            ) && forall|j: int|
                0 <= j < i ==> !((#[trigger] links[j]).subject ^ links[j].relation == key
                    && links[j].strength.exceeds(config.min_association_strength)),
    decreases links.len(),
{
    if links.len() > 0 {
        let rest = links.drop_first();
        law_first_association_answers(rest, key, config);
        if answers(links[0], key, config) {
            assert(links[0].memory_id == first_answer(links, key, config)->0);
        } else {
            let found = first_answer(rest, key, config);
            if found is Some {
                let i = choose|i: int|
                    0 <= i < rest.len() && (#[trigger] rest[i]).memory_id == found->0
                        && rest[i].subject ^ rest[i].relation == key && rest[i].strength.exceeds(
                        config.min_association_strength,
                    ) && forall|j: int|
                        0 <= j < i ==> !((#[trigger] rest[j]).subject ^ rest[j].relation == key
                            && rest[j].strength.exceeds(config.min_association_strength));
                assert(rest[i] == links[i + 1]);
                assert forall|j: int| 0 <= j < i + 1 implies !((#[trigger] links[j]).subject
                    ^ links[j].relation == key && links[j].strength.exceeds(
                    config.min_association_strength,
                )) by {
                    if j > 0 {
                        assert(rest[j - 1] == links[j]);
                    }
                }
                assert(links[i + 1].memory_id == found->0);
            } else {
                assert forall|i: int| 0 <= i < links.len() implies !((
                #[trigger] links[i]).subject ^ links[i].relation == key
                    && links[i].strength.exceeds(config.min_association_strength)) by {
                    if i > 0 {
                        assert(rest[i - 1] == links[i]);
                    }
                }
            }
        }
    }
}

/// A cache that takes a memory in holds it under the code of its content and layer, with its
/// identifier and strength. It keeps everything else where it has room; where it is full, it gives
/// up one memory that is no stronger than any other, and nothing more.
pub proof fn law_cache_gives_up_only_the_weakest(
    entries: Map<u32, CachedView>,
    links: Seq<AssociationView>,
    max: usize,
    e: EntryView,
    entries_after: Map<u32, CachedView>,
    links_after: Seq<AssociationView>,
)
    requires
        takes_in(entries, links, max, e, entries_after, links_after),
    ensures
        ({
            let code = content_code(e.content, e.layer);
            &&& entries_after.contains_key(code)
            &&& entries_after[code].memory_id == e.id
            &&& entries_after[code].strength == e.strength
            &&& entries.dom().len() < max || entries.dom().len() == 0 ==> links_after == links
                && forall|c: u32|
                c != code ==> (#[trigger] entries_after.contains_key(c) <==> entries.contains_key(
                    c,
                )) && (entries.contains_key(c) ==> entries_after[c] == entries[c])
            &&& entries.dom().len() >= max && entries.dom().len() > 0 ==> exists|gone: u32| #[trigger]
                entries.contains_key(gone) && (forall|c: u32| #[trigger]
                    entries.contains_key(c) ==> !entries[gone].strength.exceeds(
                        entries[c].strength,
                    )) && (forall|c: u32|
                    c != code ==> (#[trigger] entries_after.contains_key(c)
                        <==> entries.contains_key(c) && c != gone) && (entries.contains_key(c) && c
                        != gone ==> entries_after[c] == entries[c])) && links_after == links.filter(
                    |a: AssociationView| a.subject != gone && a.object != gone,
                )
        }),
{
    let room = choose|room: Map<u32, CachedView>| #[trigger]
        makes_room(entries, links, max, room, links_after) && entries_after == room.insert(
            content_code(e.content, e.layer),
            cached_view(e),
        );
    if entries.dom().len() >= max && entries.dom().len() > 0 {
        let gone = choose|code: u32| #[trigger]
            weakest(entries, code) && room == entries.remove(code) && links_after == links.filter(
                free_of(set![code]),
            );
        assert(entries.contains_key(gone));
        assert(free_of(set![gone]) =~= (|a: AssociationView| a.subject != gone && a.object
            != gone));
    }
}

/// The codes that a filter remembers are the latest ones, as many as it has room for: a new one
/// comes last, and where there is no room the oldest goes.
pub proof fn law_latest_codes_are_remembered(recent: Seq<u32>, capacity: nat, code: u32)
    requires
        0 < capacity,
        recent.len() <= capacity,
    ensures
        ({
            let after = seen_also(recent, capacity, code);
            let all = recent.push(code);
            &&& after.len() == if recent.len() < capacity {
                recent.len() + 1
            } else {
                capacity
            }
            &&& after.last() == code
            &&& forall|i: int|
                0 <= i < after.len() ==> #[trigger] after[i] == all[all.len() - after.len() + i]
        }),
{
}

/// A new association takes the place of one with the same subject and relation, and comes last.
/// All others stay, in order, unless there is no room, where the oldest goes.
pub proof fn law_new_association_replaces_only_its_like(
    links: Seq<AssociationView>,
    new: AssociationView,
    max: usize,
)
    requires
        max > 0,
    ensures
        ({
            let others = links.filter(
                |a: AssociationView| !(a.subject == new.subject && a.relation == new.relation),
            );
            let after = associations_after_link(links, new, max);
            &&& after.last() == new
            &&& others.len() < max ==> after == others.push(new)
            &&& others.len() >= max ==> after == others.skip(1).push(new)
        }),
{
    assert(other_than(new.subject, new.relation) =~= (|a: AssociationView|
        !(a.subject == new.subject && a.relation == new.relation)));
    let others = links.filter(other_than(new.subject, new.relation));
    if others.len() >= max {
        assert(others.drop_first() =~= others.skip(1));
    }
}

/// Evicting a memory costs no other: an association that neither leads to it nor starts or ends
/// at one of its codes stays.
pub proof fn law_eviction_keeps_other_associations(
    entries: Map<u32, CachedView>,
    links: Seq<AssociationView>,
    id: Seq<char>,
    i: int,
)
    requires
        0 <= i < links.len(),
        links[i].memory_id != id,
        !(entries.contains_key(links[i].subject) && entries[links[i].subject].memory_id == id),
        !(entries.contains_key(links[i].object) && entries[links[i].object].memory_id == id),
    ensures
        links.filter(free_of(codes_of(entries, id))).filter(not_about(id)).contains(links[i]),
{
    let free = links.filter(free_of(codes_of(entries, id)));
    links.lemma_filter_contains(free_of(codes_of(entries, id)), i);
    let k = choose|k: int| 0 <= k < free.len() && free[k] == links[i];
    free.lemma_filter_contains(not_about(id), k);
}

/// Every memory that a cache is warmed with is seen, in order, up to what is remembered.
pub proof fn law_warming_sees_every_memory(recent: Seq<u32>, capacity: nat, list: Seq<EntryView>)
    requires
        recent.len() + list.len() <= capacity,
    ensures
        warmed_codes(recent, capacity, list) == recent + list.map_values(
            |e: EntryView| content_code(e.content, e.layer),
        ),
    decreases list.len(),
{
    let code = |e: EntryView| content_code(e.content, e.layer);
    if list.len() == 0 {
        assert(warmed_codes(recent, capacity, list) =~= recent + list.map_values(code));
    } else {
        law_warming_sees_every_memory(recent, capacity, list.drop_last());
        assert(list.map_values(code) =~= list.drop_last().map_values(code).push(
            code(list.last()),
        ));
        assert(recent + list.map_values(code) =~= (recent + list.drop_last().map_values(
            code,
        )).push(code(list.last())));
    }
}

/// A memory is cached under a code exactly if the entry of that code is its own.
pub proof fn law_codes_of_a_memory(entries: Map<u32, CachedView>, id: Seq<char>, code: u32)
    ensures
        codes_of(entries, id).contains(code) <==> entries.contains_key(code)
            && entries[code].memory_id == id,
{
}

/// How often a code was seen adds up: once for each time.
pub proof fn law_occurrences_add_up(recent: Seq<u32>, seen: u32, code: u32)
    ensures
        occurrences(recent.push(seen), code) == occurrences(recent, code) + (if seen == code {
            1int
        } else {
            0int
        }),
        occurrences(Seq::empty(), code) == 0,
{
    reveal(Seq::filter);
    assert(recent.push(seen).drop_last() =~= recent);
}

/// Where only the counters change, what is cached, associated and remembered stays as it was.
pub proof fn law_counting_changes_nothing_else(a: QemCache, b: QemCache)
    requires
        a.same_contents(&b),
    ensures
        a.entries() == b.entries(),
        a.links() == b.links(),
        a.filter().recent() == b.filter().recent(),
        a.settings() == b.settings(),
{
}

/// What is said of memories is said of each of them, in their order.
pub proof fn law_memories_are_seen_as_they_are(list: Seq<MemoryEntry>)
    ensures
        entry_views(list).len() == list.len(),
        forall|i: int| 0 <= i < list.len() ==> #[trigger] entry_views(list)[i] == list[i]@,
{
}

} // verus!
