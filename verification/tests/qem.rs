//! The first-level cache in front of a store that lives in memory.

use std::collections::HashMap;

use axiom_engram::engram::LinkType;
use axiom_engram::entry::{MemoryEntry, MemoryId, MemoryLayer, MemorySource};
use axiom_engram::measure::Measure;
use axiom_engram::qem::{NoveltyFilter, QemCache, QemCode, QemConfig, QemEncoder, SearchStart, Surprise};
use axiom_engram::query::{warm_query, Query};

fn number(m: Measure) -> f64 {
    f64::from_bits(m.bits)
}

fn measure(x: f64) -> Measure {
    Measure { bits: x.to_bits() }
}

fn surprise(s: Surprise) -> f64 {
    1.0 - s.seen as f64 / s.of as f64
}

fn copy(e: &MemoryEntry) -> MemoryEntry {
    let mut c = MemoryEntry::new_episodic(e.content.clone(), e.source);
    c.id = e.id.clone();
    c.layer = e.layer;
    c.strength = e.strength;
    c
}

struct TestBackend {
    entries: HashMap<String, MemoryEntry>,
}

impl TestBackend {
    fn new() -> Self {
        TestBackend { entries: HashMap::new() }
    }

    fn capture(&mut self, entry: MemoryEntry) -> MemoryId {
        let id = entry.id.clone();
        self.entries.insert(id.0.clone(), entry);
        id
    }

    fn retrieve(&self, id: &MemoryId) -> Option<MemoryEntry> {
        self.entries.get(&id.0).map(copy)
    }

    fn search(&self, query: &Query) -> Vec<MemoryEntry> {
        let mut results: Vec<MemoryEntry> = self.entries.values().map(copy).collect();
        if let Some(text) = &query.text {
            let text = text.to_lowercase();
            results.retain(|e| e.content.to_lowercase().contains(&text));
        }
        if let Some(min) = query.min_strength {
            results.retain(|e| e.strength.ge(min));
        }
        results.sort_by(|a, b| {
            number(b.strength).partial_cmp(&number(a.strength)).unwrap_or(std::cmp::Ordering::Equal)
        });
        results.truncate(query.limit);
        results
    }
}

struct Cached {
    backend: TestBackend,
    config: QemConfig,
    cache: QemCache,
}

impl Cached {
    fn new(backend: TestBackend, config: QemConfig) -> Self {
        Cached { backend, config, cache: QemCache::new(config) }
    }

    fn warm(&mut self) {
        let list = self.backend.search(&warm_query(self.config));
        self.cache.warm(&list);
    }

    fn capture(&mut self, entry: MemoryEntry) -> MemoryId {
        let id = self.backend.capture(copy(&entry));
        self.cache.populate_l1(&entry);
        id
    }

    fn retrieve(&mut self, id: &MemoryId) -> Option<MemoryEntry> {
        self.cache.note_retrieval(id.as_str());
        self.backend.retrieve(id)
    }

    fn search(&mut self, query: &Query) -> Vec<MemoryEntry> {
        if let SearchStart::Fetch(id) = self.cache.begin_search(query.subject_code, query.relation_code) {
            match self.backend.retrieve(&id) {
                Some(e) => return vec![e],
                None => self.cache.fetch_failed(),
            }
        }
        self.backend.search(query)
    }

    fn hit_rate(&self) -> f64 {
        match self.cache.hit_rate() {
            Some((hits, all)) => hits as f64 / all as f64,
            None => 0.0,
        }
    }
}

fn episodic(content: &str) -> MemoryEntry {
    MemoryEntry::new_episodic(content.to_string(), MemorySource::Interaction)
}

#[test]
fn test_qem_cache_warm() {
    let mut backend = TestBackend::new();
    for i in 0..5 {
        let entry =
            MemoryEntry::new_episodic(format!("memory number {}", i), MemorySource::Interaction);
        backend.capture(entry);
    }

    let mut cache = Cached::new(backend, QemConfig::default());
    cache.warm();

    assert!(cache.cache.cache_size() > 0, "cache should have entries after warm");
}

#[test]
fn test_qem_cache_write_through() {
    let mut cache = Cached::new(TestBackend::new(), QemConfig::default());

    let entry = MemoryEntry::new_episodic("test write-through".into(), MemorySource::Interaction);
    let id = cache.capture(entry);

    let fetched = cache.retrieve(&id);
    assert!(fetched.is_some());
    assert_eq!(fetched.unwrap().content, "test write-through");
}

#[test]
fn test_qem_cache_hit_tracking() {
    let mut cache = Cached::new(TestBackend::new(), QemConfig::default());

    let entry = MemoryEntry::new_episodic("hit tracking test".into(), MemorySource::Interaction);
    let id = cache.capture(entry);

    let _ = cache.retrieve(&id);
    assert!(cache.hit_rate() >= 0.0);

    let _ = cache.retrieve(&MemoryId::from_string("nonexistent".to_string()));
    assert!(cache.hit_rate() <= 1.0);
}

#[test]
fn test_is_cached() {
    let mut cache = Cached::new(TestBackend::new(), QemConfig::default());

    let entry = MemoryEntry::new_episodic("cache membership test".into(), MemorySource::Interaction);
    let id = cache.backend.capture(copy(&entry));
    assert!(!cache.cache.is_cached(&id.0), "capture via the raw backend must not populate L1");

    cache.cache.populate_l1(&entry);
    assert!(cache.cache.is_cached(&id.0), "populate_l1 must make the entry visible to is_cached");
    assert!(!cache.cache.is_cached("absent"), "unknown IDs are never cached");
}

#[test]
fn test_record_lookup_counters() {
    let mut cache = Cached::new(TestBackend::new(), QemConfig::default());

    assert_eq!(cache.cache.hits(), 0);
    assert_eq!(cache.cache.misses(), 0);
    assert_eq!(cache.hit_rate(), 0.0);

    cache.cache.record_lookup(true);
    cache.cache.record_lookup(true);
    cache.cache.record_lookup(false);

    assert_eq!(cache.cache.hits(), 2);
    assert_eq!(cache.cache.misses(), 1);
    assert!((cache.hit_rate() - 2.0 / 3.0).abs() < 1e-9);
}

#[test]
fn test_qem_encoder_deterministic() {
    let code1 = QemEncoder::encode("hello world", MemoryLayer::Episodic);
    let code2 = QemEncoder::encode("hello world", MemoryLayer::Episodic);
    assert_eq!(code1, code2, "same content + layer → same code");
}

#[test]
fn test_qem_encoder_layer_salt() {
    let code_ep = QemEncoder::encode("hello", MemoryLayer::Episodic);
    let code_sem = QemEncoder::encode("hello", MemoryLayer::Semantic);
    assert_ne!(code_ep, code_sem, "different layers → different codes");
}

#[test]
fn test_novelty_filter() {
    let mut filter = NoveltyFilter::new(10);
    let code = QemCode(42);

    let s1 = surprise(filter.observe(code));
    assert!(s1 > 0.5, "first observation should be surprising, got {}", s1);

    for _ in 0..9 {
        filter.observe(code);
    }

    let s10 = surprise(filter.observe(code));
    assert!(s10 < 0.5, "after many observations, should not be surprising, got {}", s10);
}

#[test]
fn codes_fold_the_bytes_of_the_content() {
    // "hello" is 6f-6c-6c-65-68 read backwards; the last byte wraps to the first place.
    let bytes = 0x6c6c_6568u32 ^ 0x6f;
    assert_eq!(QemEncoder::encode_relation("hello"), QemCode(bytes));
    assert_eq!(QemEncoder::encode("hello", MemoryLayer::Episodic), QemCode(bytes ^ 0xE715_0D1C));
    assert_eq!(QemEncoder::encode("hello", MemoryLayer::Semantic), QemCode(bytes ^ 0x5E04_171C));
    assert_eq!(QemEncoder::encode("hello", MemoryLayer::Imagined), QemCode(bytes ^ 0x1140_113D));
    assert_eq!(QemEncoder::encode_relation(""), QemCode(0));
    // A letter outside ASCII counts as its two bytes.
    assert_eq!(QemEncoder::encode_relation("é"), QemCode(0xa9c3));
}

#[test]
fn binding_twice_gives_the_code_back() {
    let (a, b) = (QemCode(0x1234_5678), QemCode(0x0ff0_a5a5));
    assert_eq!(a.bind(b), QemCode(0x1dc4_f3dd));
    assert_eq!(a.bind(b).bind(b), a);
}

#[test]
fn novelty_window_forgets_the_oldest() {
    let mut filter = NoveltyFilter::new(2);
    assert!(filter.is_empty());
    assert_eq!(filter.observe(QemCode(1)), Surprise { seen: 0, of: 1 });
    assert_eq!(filter.observe(QemCode(1)), Surprise { seen: 1, of: 1 });
    assert_eq!(filter.observe(QemCode(2)), Surprise { seen: 0, of: 2 });
    assert_eq!(filter.observe(QemCode(1)), Surprise { seen: 1, of: 2 });
    assert_eq!(filter.observe(QemCode(2)), Surprise { seen: 1, of: 2 });
    assert_eq!(filter.observe(QemCode(3)), Surprise { seen: 0, of: 2 });
    assert_eq!(filter.observe(QemCode(1)), Surprise { seen: 0, of: 2 });
    assert_eq!(filter.len(), 2);
}

#[test]
fn cache_settings_start_as_documented() {
    let c = QemConfig::default();
    assert_eq!(number(c.warm_strength_min), 0.3);
    assert_eq!(c.warm_limit, 1000);
    assert_eq!(c.novelty_window, 100);
    assert_eq!(number(c.surprise_min), 0.2);
    assert_eq!(number(c.min_association_strength), 0.1);
    assert_eq!(c.max_entries, 10_000);
    assert_eq!(c.max_associations, 10_000);
}

#[test]
fn warming_asks_for_the_strongest() {
    let mut backend = TestBackend::new();
    for (content, strength) in [("strong one", 0.9), ("fair one", 0.4), ("weak one", 0.2)] {
        let mut e = episodic(content);
        e.strength = measure(strength);
        backend.capture(e);
    }
    let mut cache = Cached::new(backend, QemConfig { warm_limit: 1, ..QemConfig::default() });
    cache.warm();
    assert_eq!(cache.cache.cache_size(), 1);
    let code = QemEncoder::encode("strong one", MemoryLayer::Episodic);
    assert_eq!(cache.cache.lookup_by_code(code.0).len(), 1);
    assert!(cache.cache.lookup_by_code(code.0 ^ 1).is_empty());
}

#[test]
fn full_cache_loses_its_weakest() {
    let config = QemConfig { max_entries: 2, ..QemConfig::default() };
    let mut cache = Cached::new(TestBackend::new(), config);
    let mut ids = Vec::new();
    for (content, strength) in [("first", 0.9), ("second", 0.1), ("third", 0.5)] {
        let mut e = episodic(content);
        e.strength = measure(strength);
        ids.push(cache.capture(e));
    }
    assert_eq!(cache.cache.cache_size(), 2);
    assert!(cache.cache.is_cached(ids[0].as_str()));
    assert!(!cache.cache.is_cached(ids[1].as_str()));
    assert!(cache.cache.is_cached(ids[2].as_str()));
}

#[test]
fn linked_memory_is_found_by_association() {
    let mut cache = Cached::new(TestBackend::new(), QemConfig::default());
    let (a, b) = (episodic("the cause"), episodic("the effect"));
    let subject = QemEncoder::encode("the cause", MemoryLayer::Episodic).0;
    let relation = QemEncoder::encode_relation("causal").0;
    let a = cache.capture(a);
    let b = cache.capture(b);
    assert!(cache.cache.associative_lookup(subject, relation).is_none());
    cache.cache.link(&a, &b, LinkType::Causal, measure(0.1));
    assert!(cache.cache.associative_lookup(subject, relation).is_none(), "not strong enough");
    cache.cache.link(&a, &b, LinkType::Causal, measure(0.8));
    assert_eq!(cache.cache.associative_lookup(subject, relation).unwrap().0, b.0);

    let mut q = Query::new();
    q.subject_code = Some(subject);
    q.relation_code = Some(relation);
    let found = cache.search(&q);
    assert_eq!(found.len(), 1);
    assert_eq!(found[0].content, "the effect");
    assert_eq!((cache.cache.hits(), cache.cache.misses()), (1, 0));

    // The associated memory is gone from the store: the whole store is searched.
    cache.backend.entries.remove(b.as_str());
    assert_eq!(cache.search(&q)[0].content, "the cause");
    assert_eq!((cache.cache.hits(), cache.cache.misses()), (2, 1));

    cache.cache.evict_by_id(b.as_str());
    assert!(!cache.cache.is_cached(b.as_str()));
    assert!(cache.cache.is_cached(a.as_str()));
    assert!(cache.cache.associative_lookup(subject, relation).is_none());
}

#[test]
fn only_cached_memories_are_associated() {
    let mut cache = Cached::new(TestBackend::new(), QemConfig::default());
    let a = cache.capture(episodic("known"));
    let stranger = MemoryId::from_string("stranger".to_string());
    cache.cache.link(&a, &stranger, LinkType::Causal, measure(0.8));
    let subject = QemEncoder::encode("known", MemoryLayer::Episodic).0;
    let relation = QemEncoder::encode_relation("causal").0;
    assert!(cache.cache.associative_lookup(subject, relation).is_none());
}

#[test]
fn oldest_association_leaves() {
    let config = QemConfig { max_associations: 1, ..QemConfig::default() };
    let mut cache = Cached::new(TestBackend::new(), config);
    let a = cache.capture(episodic("alpha"));
    let b = cache.capture(episodic("beta"));
    cache.cache.link(&a, &b, LinkType::Causal, measure(0.8));
    cache.cache.link(&b, &a, LinkType::Causal, measure(0.8));
    let relation = QemEncoder::encode_relation("causal").0;
    let first = QemEncoder::encode("alpha", MemoryLayer::Episodic).0;
    let second = QemEncoder::encode("beta", MemoryLayer::Episodic).0;
    assert!(cache.cache.associative_lookup(first, relation).is_none());
    assert_eq!(cache.cache.associative_lookup(second, relation).unwrap().0, a.0);
}

#[test]
fn warming_keeps_to_the_limit() {
    let config = QemConfig { max_entries: 2, ..QemConfig::default() };
    let mut cache = QemCache::new(config);
    let mut list = Vec::new();
    for (content, strength) in [("one", 0.9), ("two", 0.8), ("three", 0.7), ("four", 0.6)] {
        let mut e = episodic(content);
        e.strength = measure(strength);
        list.push(e);
    }
    cache.warm(&list);
    assert_eq!(cache.cache_size(), 2);
    assert!(cache.is_cached(list[0].id.as_str()), "the weakest leaves");
    assert!(cache.is_cached(list[3].id.as_str()));
    cache.warm(&list);
    assert_eq!(cache.cache_size(), 2);
}

#[test]
fn evicted_memory_is_not_found_behind_a_code_that_was_taken_over() {
    let mut cache = QemCache::new(QemConfig::default());
    let (a, b, twin) = (episodic("the cause"), episodic("the effect"), episodic("the effect"));
    cache.populate_l1(&a);
    cache.populate_l1(&b);
    cache.link(&a.id, &b.id, LinkType::Causal, measure(0.8));
    let subject = QemEncoder::encode("the cause", MemoryLayer::Episodic).0;
    let relation = QemEncoder::encode_relation("causal").0;
    assert_eq!(cache.associative_lookup(subject, relation).unwrap().0, b.id.0);
    // The same content under another identifier takes the code over.
    cache.populate_l1(&twin);
    assert!(!cache.is_cached(b.id.as_str()));
    cache.evict_by_id(b.id.as_str());
    assert!(cache.associative_lookup(subject, relation).is_none());
    assert!(cache.is_cached(a.id.as_str()));
    assert!(cache.is_cached(twin.id.as_str()));
}
