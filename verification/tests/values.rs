//! Numbers, texts, times, identifiers, keys and names.

use std::collections::hash_map::DefaultHasher;
use std::hash::{Hash, Hasher};

use axiom_engram::capture::{auto_tags, choose_project, extract_project};
use axiom_engram::embed::{
    clip_tokens, dirs_fallback, ensure_loaded, generate_embeddings_batch, model_dir, needs_download,
    should_embed, LoadDecision, NoopEmbedder,
};
use axiom_engram::embedding::{
    blob_to_embedding, embedding_to_blob, LinkInferenceConfig, DECAY_DUP_THRESHOLD,
    MIN_RELATED_SIMILARITY, SIMILAR_DEDUP_THRESHOLD,
};
use axiom_engram::engram::{
    CharacterTopology, Engram, EngramLayer, EngramLink, EngramSource, LinkType, PrivacyLevel,
};
use axiom_engram::entry::{
    engram_to_memory_entry, memory_entry_to_engram, ContentType, EvidenceRef, MemoryEntry, MemoryId,
    MemoryLayer, MemoryScope, MemorySource,
};
use axiom_engram::error::EngramError;
use axiom_engram::ids::memory_id;
use axiom_engram::json::{read_context, read_tags};
use axiom_engram::keys::{
    choose_salt, create_per_vault_salt, derive_legacy_key, derive_passphrase_key,
    derive_passphrase_key_sha256, derive_vault_key, machine_guid, platform_uuid, read_machine_id,
};
use axiom_engram::links::TEMPORAL_WEIGHT;
use axiom_engram::measure::{Measure, HALF, ONE, ZERO};
use axiom_engram::noise::{is_noise, normalized_hash};
use axiom_engram::query::{Query, SortKey};
use axiom_engram::rank::{rank, Scored};
use axiom_engram::search::search_by_content;
use axiom_engram::sql::SqlValue;
use axiom_engram::sync::default_pull_limit;
use axiom_engram::text::{is_space, split_words, string_of, trim};
use axiom_engram::time::Timestamp;
use axiom_engram::web::{generate_memory_id, noise_reason, version, wire_source};
use argon2::password_hash::{PasswordHasher, SaltString};
use sha2::Digest;

fn measure(x: f64) -> Measure {
    Measure { bits: x.to_bits() }
}

fn number(m: Measure) -> f64 {
    f64::from_bits(m.bits)
}

fn at(secs: i64) -> Timestamp {
    Timestamp { secs, nanos: 0 }
}

fn chars(s: &str) -> Vec<char> {
    s.chars().collect()
}

#[test]
fn constants_are_the_numbers_they_name() {
    assert_eq!(f64::from_bits(ZERO), 0.0);
    assert_eq!(f64::from_bits(HALF), 0.5);
    assert_eq!(f64::from_bits(ONE), 1.0);
    assert_eq!(f64::from_bits(SIMILAR_DEDUP_THRESHOLD), 0.95);
    assert_eq!(f64::from_bits(DECAY_DUP_THRESHOLD), 0.9);
    assert_eq!(f64::from_bits(MIN_RELATED_SIMILARITY), 0.35);
    assert_eq!(f64::from_bits(TEMPORAL_WEIGHT), 0.6);
    let infer = LinkInferenceConfig::default();
    assert_eq!(infer.max_links, 5);
    assert_eq!(number(infer.min_similarity), 0.35);
    let c = CharacterTopology::default();
    assert_eq!(
        [
            c.curiosity, c.creativity, c.wisdom, c.kindness, c.courage, c.integrity, c.beauty,
            c.hope, c.perseverance,
        ]
        .map(number),
        [0.9, 0.85, 0.8, 0.85, 0.75, 0.9, 0.8, 0.85, 0.8]
    );
}

#[test]
fn measures_compare_like_numbers() {
    let list = [
        f64::NEG_INFINITY, -2.5, -1.0, -0.0, 0.0, 5e-324, 0.1, 0.95, 1.0, 1e300, f64::INFINITY,
        f64::NAN, -f64::NAN,
    ];
    for a in list {
        for b in list {
            assert_eq!(measure(a).ge(measure(b)), a >= b, "{a} >= {b}");
            assert_eq!(measure(a).gt(measure(b)), a > b, "{a} > {b}");
        }
        assert_eq!(measure(a).is_nan(), a.is_nan());
    }
}

#[test]
fn white_space_is_what_the_standard_says() {
    for n in 0..=0x10ffffu32 {
        if let Some(c) = char::from_u32(n) {
            assert_eq!(is_space(c), c.is_whitespace(), "{n:x}");
        }
    }
}

#[test]
fn words_and_ends_are_found() {
    for s in ["", "  ", " a", "a\u{3000}b ", "\t one two\r\nthree "] {
        let words: Vec<String> =
            split_words(&chars(s)).iter().map(|w| string_of(w)).collect();
        let expected: Vec<String> = s.split_whitespace().map(|w| w.to_string()).collect();
        assert_eq!(words, expected);
        assert_eq!(string_of(&trim(&chars(s))), s.trim());
    }
}

#[test]
fn times_read_back_as_written() {
    let t = Timestamp::parse("2026-08-06T19:15:30.250+02:00").unwrap();
    assert_eq!(t, Timestamp { secs: 1_786_036_530, nanos: 250_000_000 });
    assert_eq!(t.weekday(), 3);
    assert_eq!(t.hour(), 17);
    assert!(Timestamp::parse("yesterday").is_none());
    assert!(t.is_after(at(t.secs)));
    assert!(!at(t.secs).is_after(t));
    assert_eq!(at(0).weekday(), 3);
    assert_eq!(at(-1).weekday(), 2);
    assert_eq!(at(-1).hour(), 23);
}

#[test]
fn days_are_whole_and_never_negative() {
    assert_eq!(at(86_400 * 3).days_since(at(0)), 3);
    assert_eq!(at(86_400 * 3 - 1).days_since(at(0)), 2);
    assert_eq!(Timestamp { secs: 86_400, nanos: 0 }.days_since(Timestamp { secs: 0, nanos: 1 }), 0);
    assert_eq!(at(0).days_since(at(86_400)), 0);
    assert_eq!(at(86_400 * 30).minus_days(7), at(86_400 * 23));
    assert!(at(0).is_wf());
    assert!(!Timestamp { secs: 0, nanos: 1_500_000_000 }.is_wf());
    assert!(Timestamp { secs: 59, nanos: 1_500_000_000 }.is_wf());
    assert!(!at(i64::MAX).is_wf());
    assert!(at(-8_334_601_228_800).is_wf());
    assert!(!at(-8_334_601_228_801).is_wf());
    match &axiom_engram::store::touch("x", at(-8_334_601_228_800)).params[0] {
        SqlValue::Text(first_day) => assert!(first_day.starts_with("-262143-01-01T00:00:00")),
        other => panic!("no text: {other:?}"),
    }
    assert!(Timestamp::now().secs > 1_700_000_000);
}

#[test]
fn identifiers_come_from_a_uuid() {
    let uuid = "0123abcd-4567-489a-b012-3456789abcde";
    assert_eq!(memory_id(uuid), "mem_0123abcd4567489a");
    let e = Engram::new_imagined("x".to_string(), "{}".to_string());
    assert_eq!(e.id.len(), 36);
    assert_eq!(&e.id[14..15], "4", "a random UUID");
    assert_ne!(Engram::new_imagined("x".to_string(), "{}".to_string()).id, e.id);
    let id = MemoryId::new();
    assert!(id.0.starts_with("mem_") && id.0.len() == 20);
    assert!(id.0[4..].chars().all(|c| c.is_ascii_hexdigit()));
    assert_ne!(MemoryId::new().0, id.0);
    assert_eq!(MemoryId::from_u64(42).0, "ep_42");
    assert_eq!(MemoryId::from("abc").0, "abc");
    assert_eq!(generate_memory_id().len(), 20);
}

#[test]
fn machine_keys_hash_the_identifier_with_the_salt() {
    let digest = sha2::Sha256::digest("m1:axiom-engram-vault-v1".as_bytes());
    let hex: String = digest.iter().map(|b| format!("{b:02x}")).collect();
    assert_eq!(derive_vault_key("m1"), hex);
    assert_eq!(derive_passphrase_key_sha256("m1"), hex);
    assert_ne!(derive_vault_key("m2"), hex);
}

#[test]
fn legacy_keys_hash_four_times() {
    let expected: String = ["", "b", "c", "d"]
        .iter()
        .map(|end| {
            let mut hasher = DefaultHasher::new();
            format!("m1:axiom-engram-vault-v1{end}").hash(&mut hasher);
            format!("{:016x}", hasher.finish())
        })
        .collect();
    assert_eq!(derive_legacy_key("m1"), expected);
}

#[test]
fn passphrase_keys_depend_on_the_salt() {
    let digest = sha2::Sha256::digest("axiom-engram-vault-v2".as_bytes());
    assert_eq!(choose_salt(&None), digest[..16].to_vec());
    assert_eq!(choose_salt(&Some(vec![7; 15])), digest[..16].to_vec());
    assert_eq!(choose_salt(&Some((0..20).collect())), (0..16).collect::<Vec<u8>>());
    assert!(create_per_vault_salt(true).is_none());
    let salt = create_per_vault_salt(false).unwrap();
    assert_eq!(salt.len(), 16);
    assert_ne!(create_per_vault_salt(false).unwrap(), salt);
    let key = derive_passphrase_key("secret", &Some(vec![1; 16]));
    let params = argon2::Params::new(65536, 3, 4, None).unwrap();
    let context =
        argon2::Argon2::new(argon2::Algorithm::Argon2id, argon2::Version::V0x13, params);
    let encoded = SaltString::encode_b64(&[1; 16]).unwrap();
    let hash = context.hash_password(b"secret", &encoded).unwrap().hash.unwrap();
    let hex: String = hash.as_bytes().iter().map(|b| format!("{b:02x}")).collect();
    assert_eq!(key, hex);
}

#[test]
fn machine_identifiers_are_read() {
    let ioreg = "+-o Root\n  |   \"IOPlatformSerialNumber\" = \"C02\"\n  |   \"IOPlatformUUID\" = \"564D0000-AAAA\"\n";
    assert_eq!(platform_uuid(ioreg).as_deref(), Some("564D0000-AAAA"));
    assert_eq!(platform_uuid("\"IOPlatformUUID\" = \"  \""), None);
    assert_eq!(platform_uuid("nothing"), None);
    let reg = "\r\nHKEY_LOCAL_MACHINE\\SOFTWARE\r\n    MachineGuid    REG_SZ    1234-ab\r\n\r\n";
    assert_eq!(machine_guid(reg).as_deref(), Some("1234-ab"));
    assert_eq!(machine_guid(""), None);
    assert_eq!(
        read_machine_id(&vec![None, Some("  \n".to_string()), Some(" abc\n".to_string())]),
        "abc"
    );
    assert_eq!(read_machine_id(&vec![None]), "axiom-fallback-key-no-machine-id");
}

#[test]
fn stored_texts_are_read_leniently() {
    assert_eq!(read_tags(r#"["a","b c"]"#), vec!["a", "b c"]);
    assert!(read_tags("a,b").is_empty());
    assert!(read_tags("[1]").is_empty());
    assert_eq!(read_context(" { \"a\" : [ 1, 2 ] } "), r#"{"a":[1,2]}"#);
    assert_eq!(read_context("{"), "{}");
}

#[test]
fn projects_come_from_the_context() {
    assert_eq!(extract_project(r#"{"cwd":"/home/me/engram/"}"#).as_deref(), Some("engram"));
    assert_eq!(extract_project(r#"{"cwd":".","repo":" axiom "}"#).as_deref(), Some("axiom"));
    assert_eq!(extract_project(r#"{"cwd":"/","repo":" ","project":"p"}"#).as_deref(), Some("p"));
    assert_eq!(extract_project(r#"{"cwd":3}"#), None);
    assert_eq!(extract_project("no json"), None);
    let some = |s: &str| Some(s.to_string());
    assert_eq!(choose_project(&some("a/b//"), &some("r"), &None).as_deref(), Some("b"));
}

#[test]
fn sources_give_tags() {
    assert_eq!(auto_tags(EngramSource::Window), vec!["terminal", "window"]);
    assert_eq!(auto_tags(EngramSource::Observation), vec!["auto"]);
    assert_eq!(auto_tags(EngramSource::Chat), vec!["chat"]);
    assert_eq!(auto_tags(EngramSource::Mic), vec!["voice"]);
    assert_eq!(auto_tags(EngramSource::Agent), vec!["agent"]);
    assert_eq!(auto_tags(EngramSource::AiSession), vec!["session"]);
    assert!(auto_tags(EngramSource::Interaction).is_empty());
}

#[test]
fn names_stand_for_one_value_each() {
    for s in ["strict_local", "hybrid", "cloud_first", "enterprise"] {
        assert_eq!(PrivacyLevel::from_str(s).unwrap().as_str(), s);
    }
    assert_eq!(PrivacyLevel::from_str("public"), None);
    for l in [EngramLayer::Episodic, EngramLayer::Semantic, EngramLayer::Imagined] {
        assert_eq!(EngramLayer::from_str(l.as_str()), Some(l));
        assert_eq!(EngramLayer::from(MemoryLayer::from(l)), l);
    }
    assert_eq!(EngramLayer::from_str("Episodic"), None);
    for l in [LinkType::Causal, LinkType::Associative, LinkType::Analogical, LinkType::Temporal] {
        assert_eq!(LinkType::from_str(l.as_str()), Some(l));
    }
    assert_eq!(EngramSource::AiTool.as_str(), "ai-tool");
    assert_eq!(EngramSource::from_str("ai-session"), Some(EngramSource::AiSession));
    assert_eq!(EngramSource::from_str("ai_session"), None);
    assert_eq!(wire_source("ai_session"), Some(EngramSource::AiSession));
    assert_eq!(wire_source("ai-session"), None);
    assert_eq!(wire_source("slack"), Some(EngramSource::Slack));
    assert_eq!(MemorySource::from_str("slack"), Some(MemorySource::Slack));
    assert_eq!(MemoryScope::default().as_str(), "moment");
    assert_eq!(ContentType::default().as_str(), "text");
    assert_eq!(PrivacyLevel::default().as_str(), "strict_local");
}

#[test]
fn engrams_and_entries_convert_both_ways() {
    let mut e = Engram::new_episodic(
        "both ways".to_string(),
        EngramSource::AiTool,
        r#"{"a":1}"#.to_string(),
    );
    e.tags = vec!["t".to_string()];
    e.project = Some("p".to_string());
    e.strength = measure(1.5);
    e.retrievals = 3;
    e.links = vec![EngramLink {
        target_id: "x".to_string(),
        weight: measure(0.5),
        link_type: LinkType::Causal,
    }];
    let m = engram_to_memory_entry(e.clone());
    assert_eq!(m.id.0, e.id);
    assert_eq!(m.source, MemorySource::AiTool);
    assert_eq!(m.links_out.len(), 1);
    assert_eq!(m.retrieval_count, 3);
    let back = memory_entry_to_engram(m);
    assert_eq!(back.id, e.id);
    assert_eq!(back.content, e.content);
    assert_eq!(back.source, e.source);
    assert_eq!(back.context, e.context);
    assert_eq!(back.strength, e.strength);
    assert_eq!(back.tags, e.tags);
    assert_eq!(back.project, e.project);
    assert_eq!(back.created_at, e.created_at);
    let mut m = MemoryEntry::new_imagined("maybe".to_string());
    assert!(m.imagined && !m.grounded);
    assert_eq!(number(m.strength), 0.5);
    m.evidence = vec![EvidenceRef {
        memory_id: MemoryId::from("x"),
        relationship: "supports".to_string(),
    }];
    let e = memory_entry_to_engram(m);
    assert_eq!(e.layer, EngramLayer::Imagined);
}

#[test]
fn vectors_read_back_from_their_bytes() {
    let v: Vec<Measure> = [0.5, -1.25, f64::MIN_POSITIVE].iter().map(|x| measure(*x)).collect();
    let blob = embedding_to_blob(&v);
    let expected: Vec<u8> =
        [0.5, -1.25, f64::MIN_POSITIVE].iter().flat_map(|x: &f64| x.to_le_bytes()).collect();
    assert_eq!(blob, expected);
    assert_eq!(blob_to_embedding(&blob), v);
    assert_eq!(blob_to_embedding(&blob[..20]).len(), 2);
}

#[test]
fn results_have_one_order_only() {
    let make = |id: &str, score: f64, secs: i64| Scored {
        id: id.to_string(),
        score: measure(score),
        created_at: at(secs),
    };
    let ids = |list: Vec<Scored>| list.into_iter().map(|s| s.id).collect::<Vec<_>>();
    let one = rank(vec![make("c", 0.5, 1), make("b", 0.5, 1), make("a", 0.5, 2), make("d", 0.9, 0)]);
    let two = rank(vec![make("d", 0.9, 0), make("a", 0.5, 2), make("b", 0.5, 1), make("c", 0.5, 1)]);
    assert_eq!(ids(one), vec!["d", "a", "b", "c"]);
    assert_eq!(ids(two), vec!["d", "a", "b", "c"]);
}

#[test]
fn search_words_are_letters_and_digits() {
    let found = search_by_content("What's \"new\", in v0.1.6? (straße)", 3).unwrap();
    match &found.all_words.params[0] {
        SqlValue::Text(t) => {
            assert_eq!(t, "What AND s AND new AND in AND v0 AND 1 AND 6 AND straße")
        },
        other => panic!("{other:?}"),
    }
    match &found.any_word.params[0] {
        SqlValue::Text(t) => assert_eq!(t, "What OR s OR new OR in OR v0 OR 1 OR 6 OR straße"),
        other => panic!("{other:?}"),
    }
    assert!(search_by_content("?!", 3).is_none());
}

#[test]
fn errors_say_what_happened() {
    assert_eq!(EngramError::NotFound("x".to_string()).message(), "engram not found: x");
    assert_eq!(EngramError::Validation("x".to_string()).message(), "validation error: x");
    assert_eq!(EngramError::Database("x".to_string()).message(), "database error: x");
}

#[test]
fn queries_are_built_step_by_step() {
    let q = Query::new();
    assert_eq!(q.limit, 20);
    assert_eq!(q.offset, 0);
    assert_eq!(q.sort_by, SortKey::Strength);
    let q = q
        .text("words".to_string())
        .embedding(vec![measure(1.0)])
        .layer(MemoryLayer::Semantic)
        .scope(MemoryScope::Moment)
        .min_strength(measure(0.5))
        .created_after(at(5))
        .exclude_session("s".to_string())
        .sort_by(SortKey::RetrievalCount)
        .limit(7)
        .offset(3);
    assert_eq!(q.text.as_deref(), Some("words"));
    assert_eq!(q.embedding, Some(vec![measure(1.0)]));
    assert_eq!(q.layer, Some(MemoryLayer::Semantic));
    assert_eq!(q.scope, Some(MemoryScope::Moment));
    assert_eq!(q.min_strength, Some(measure(0.5)));
    assert_eq!(q.created_after, Some(at(5)));
    assert_eq!(q.exclude_session.as_deref(), Some("s"));
    assert_eq!(q.sort_by, SortKey::RetrievalCount);
    assert_eq!((q.limit, q.offset), (7, 3));
}

#[test]
fn noop_embedder_returns_empty() {
    let noop = NoopEmbedder;
    let result = noop.embed("hello world").unwrap();
    assert!(result.is_empty());
    assert_eq!(noop.dimensions(), 0);
    assert_eq!(noop.model_name(), "noop");
}

#[test]
fn should_embed_checks() {
    assert!(!should_embed("semantic", &"some long content ".repeat(10), 0));
    assert!(should_embed("semantic", &"x".repeat(101), 768));
    assert!(!should_embed("episodic", &"x".repeat(200), 768));
    assert!(!should_embed("semantic", "short", 768));
    assert!(!should_embed("semantic", &"é".repeat(100), 768), "a hundred characters are too few");
}

#[test]
fn failed_embeddings_are_passed_over() {
    let list = vec!["a".to_string(), "b".to_string(), "c".to_string()];
    let outcomes = vec![Some(vec![measure(1.0)]), None, Some(vec![])];
    assert_eq!(
        generate_embeddings_batch(&list, &outcomes),
        vec![("a".to_string(), vec![measure(1.0)])]
    );
}

#[test]
fn model_is_loaded_when_it_is_time() {
    assert_eq!(ensure_loaded(true, Some(0)), LoadDecision::Ready);
    assert_eq!(ensure_loaded(false, None), LoadDecision::Load);
    assert_eq!(ensure_loaded(false, Some(59)), LoadDecision::Wait);
    assert_eq!(ensure_loaded(false, Some(60)), LoadDecision::Load);
    assert!(!needs_download(true, true, true));
    assert!(needs_download(true, false, true));
    assert_eq!((clip_tokens(255), clip_tokens(300)), (255, 256));
    let some = |s: &str| Some(s.to_string());
    assert_eq!(
        model_dir(&some("/v"), &some("/h")).unwrap(),
        "/v/.engram/models/all-MiniLM-L6-v2"
    );
    assert_eq!(model_dir(&None, &some("/h/")).unwrap(), "/h/.engram/models/all-MiniLM-L6-v2");
    assert_eq!(model_dir(&some(""), &None).unwrap(), ".engram/models/all-MiniLM-L6-v2");
    assert!(model_dir(&None, &None).is_err());
    assert_eq!(dirs_fallback(&some("/h"), &None, &None).as_deref(), Some("/h"));
    assert_eq!(dirs_fallback(&None, &some("C:"), &some("\\u")).as_deref(), Some("C:\\u"));
    assert_eq!(dirs_fallback(&None, &some(""), &some("")), None);
}

#[test]
fn browsers_learn_why_text_is_noise() {
    assert_eq!(version(), "0.1.6");
    assert_eq!(default_pull_limit(), 1000);
    assert_eq!(noise_reason("sleep 5", "interaction").unwrap(), is_noise("sleep 5", EngramSource::Interaction));
    assert!(noise_reason("sleep 5", "ai_tool").unwrap().is_none());
    assert!(noise_reason("sleep 5", "window").unwrap().is_some());
    assert!(noise_reason("decided to ship on Monday", "ai_session").unwrap().is_none());
    assert!(noise_reason("sleep 5", "nowhere").is_err());
}

#[test]
fn hashes_ignore_case_and_spacing() {
    let hex = normalized_hash("  Hello   World ");
    let digest = sha2::Sha256::digest("hello world".as_bytes());
    let expected: String = digest.iter().map(|b| format!("{b:02x}")).collect();
    assert_eq!(hex, expected);
    assert_eq!(normalized_hash("ÄRGER"), normalized_hash("ärger"));
}
