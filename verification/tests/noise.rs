use axiom_engram::engram::EngramSource;
use axiom_engram::noise::{
    is_noise, normalize_tags, normalized_hash, strip_prefixes, TAG_MAX_COUNT, TAG_MAX_LEN,
};

fn src() -> EngramSource {
    EngramSource::Interaction
}

#[test]
fn denies_bookkeeping_commands() {
    for cmd in ["sleep", "sleep 5", "pkill -f engram", "tail -5 log.txt", "cd"] {
        assert!(is_noise(cmd, src()).is_some(), "{cmd} should be noise");
    }
}

#[test]
fn denies_engramctl_self_references() {
    for cmd in [
        "source engramctl record",
        "engramctl record 'ran cargo test'",
        "engramctl session start",
        "engramctl session stop",
    ] {
        assert!(is_noise(cmd, src()).is_some(), "{cmd} should be noise");
    }
}

#[test]
fn strips_counter_prefixes() {
    let stripped = strip_prefixes("[89] [10:23:45] [/home/alice/engram] cargo check");
    assert_eq!(stripped, "cargo check");
}

#[test]
fn keeps_bracket_content_that_is_not_a_prefix() {
    assert_eq!(strip_prefixes("[note] decided X"), "[note] decided X");
}

#[test]
fn normalize_tags_lowercases_strips_and_collapses() {
    assert_eq!(
        normalize_tags(vec!["  CLI  ".into(), "Deploy".into()]),
        vec!["cli", "deploy"]
    );
    assert_eq!(normalize_tags(vec!["#Deploy".into()]), vec!["deploy"]);
    assert_eq!(normalize_tags(vec!["in   flight".into()]), vec!["in flight"]);
}

#[test]
fn normalize_tags_drops_noise_and_duplicates() {
    assert_eq!(
        normalize_tags(vec![
            " Note ".into(),
            "misc".into(),
            "note".into(),
            "".into(),
            "   ".into()
        ]),
        Vec::<String>::new()
    );
    assert_eq!(
        normalize_tags(vec!["deploy".into(), "Deploy".into(), "site".into()]),
        vec!["deploy", "site"]
    );
}

#[test]
fn normalize_tags_caps_count_and_length() {
    let many: Vec<String> = (0..12).map(|i| format!("tag{i}")).collect();
    assert_eq!(normalize_tags(many).len(), TAG_MAX_COUNT);
    assert_eq!(
        normalize_tags(vec!["x".repeat(40)]),
        vec!["x".repeat(TAG_MAX_LEN)]
    );
}

#[test]
fn normalize_tags_keeps_empty_input_empty() {
    assert_eq!(normalize_tags(Vec::new()), Vec::<String>::new());
    assert_eq!(
        normalize_tags(vec!["#".into(), "##".into()]),
        Vec::<String>::new()
    );
}

#[test]
fn denies_short_counter_prefixed_commands() {
    // 3+ tokens after strip: kept
    assert!(is_noise("[12] [10:00:00] [/x] cargo check passed", src()).is_none());
    // Counter-prefixed captures under 3 tokens are command-shaped junk
    assert!(is_noise("[12] [/x] ls -la", src()).is_some());
    assert!(is_noise("[12] [/x] cargo check", src()).is_some());
}

#[test]
fn allows_meaningful_content() {
    for content in [
        "Fixed a deadlock in QemCache by switching from std RwLock to parking_lot",
        "deployed site",
        "The build passes now after bumping the cache version",
    ] {
        assert!(is_noise(content, src()).is_none(), "{content} should be kept");
    }
}

#[test]
fn exempts_curated_sources() {
    for source in [
        EngramSource::Consolidation,
        EngramSource::Imagined,
        EngramSource::AiSession,
        EngramSource::AiTool,
        EngramSource::Research,
    ] {
        assert!(is_noise("sleep", source).is_none(), "{source:?} should be exempt");
    }
}

#[test]
fn normalized_hash_is_stable_and_normalizing() {
    let a = normalized_hash("  [12] [/x] cargo  check  ");
    let b = normalized_hash("[99] [09:00:00] [/y] Cargo Check");
    assert_eq!(a, b);
    assert_ne!(a, normalized_hash("cargo build"));
}

#[test]
fn empty_bracket_is_no_counter() {
    assert_eq!(strip_prefixes("[] buy more milk"), "[] buy more milk");
    assert_eq!(strip_prefixes("[7] [] buy more milk"), "[] buy more milk");
    assert_ne!(normalized_hash("[] buy more milk"), normalized_hash("buy more milk"));
}
