//! Links, patterns and other rules, on findings made by hand.

use axiom_engram::engram::{Engram, EngramSource};
use axiom_engram::links::{generate_links, link_lookups, LinkFindings, Tagged};
use axiom_engram::measure::Measure;
use axiom_engram::patterns::{detect_temporal_patterns, Grouping, Ratio};
use axiom_engram::query::{Lookup, Query, SortKey};
use axiom_engram::recall::{find_near_duplicates, is_working_state, word_overlap, Candidate};
use axiom_engram::search::{next_stage, ContentStage, QuarantineFilter};
use axiom_engram::sql::SqlValue;
use axiom_engram::time::Timestamp;
use axiom_engram::web::noise_reason;

fn measure(x: f64) -> Measure {
    Measure { bits: x.to_bits() }
}

fn tagged(id: &str, tags: &str) -> Tagged {
    Tagged { id: id.to_string(), tags: tags.to_string() }
}

fn capture(tags: &[&str]) -> Engram {
    let mut e = Engram::new_episodic(
        "something new".to_string(),
        EngramSource::Chat,
        r#"{"session_id":"s1"}"#.to_string(),
    );
    e.tags = tags.iter().map(|t| t.to_string()).collect();
    e
}

#[test]
fn closest_memory_shares_most_tags() {
    let e = capture(&["a", "b", "c", "d", "e"]);
    let found = LinkFindings {
        linked: vec![],
        in_session: None,
        predecessor: Some("p".to_string()),
        tagged: vec![tagged("x", r#"["a"]"#), tagged("y", r#"["a","b"]"#), tagged("z", r#"["c","d"]"#)],
    };
    let links = generate_links(&e, &found);
    let o = links.associative.unwrap();
    assert_eq!((o.target.as_str(), o.shared, o.of), ("y", 2, 5));
    match &links.temporal.unwrap().params[1] {
        SqlValue::Text(t) => assert_eq!(t, "p"),
        other => panic!("{other:?}"),
    }
}

#[test]
fn too_few_shared_tags_make_no_link() {
    let e = capture(&["a", "b", "c"]);
    let found = LinkFindings {
        linked: vec![],
        in_session: None,
        predecessor: None,
        tagged: vec![tagged("x", r#"["a"]"#), tagged("y", "not a list")],
    };
    let links = generate_links(&e, &found);
    assert!(links.associative.is_none());
    assert!(links.temporal.is_none());
}

#[test]
fn existing_links_are_left_alone() {
    let e = capture(&["a"]);
    let found = LinkFindings {
        linked: vec!["x".to_string(), "s".to_string()],
        in_session: Some("s".to_string()),
        predecessor: Some("p".to_string()),
        tagged: vec![tagged("x", r#"["a"]"#)],
    };
    let links = generate_links(&e, &found);
    assert!(links.associative.is_none());
    assert!(links.temporal.is_none(), "the session's latest is linked already");
    assert!(link_lookups(&e).in_session.is_some());
}

#[test]
fn peaks_are_counted() {
    // Monday morning, Tuesday morning, Tuesday night.
    let times: Vec<Timestamp> = ["2026-08-03T08:00:00Z", "2026-08-04T08:00:00Z", "2026-08-04T23:00:00Z"]
        .iter()
        .map(|s| Timestamp::parse(s).unwrap())
        .collect();
    assert_eq!(Grouping::Weekday.peak(&times), (1, 2));
    assert!(detect_temporal_patterns("q", &times, 1).is_none(), "two are no pattern");
}

#[test]
fn pattern_names_what_stands_out() {
    let mut times: Vec<Timestamp> = Vec::new();
    for day in 3..10 {
        times.push(Timestamp::parse(&format!("2026-08-{day:02}T08:00:00Z")).unwrap());
    }
    let p = detect_temporal_patterns("q", &times, 5).unwrap();
    assert_eq!(p.peak_day, None);
    assert_eq!(p.peak_period.as_deref(), Some("morning"));
    assert_eq!(p.period_strength, Some(Ratio { over: 28, under: 7 }));
    assert_eq!(p.describe("14"), "I've noticed usually in the morning");
}

#[test]
fn long_words_overlap() {
    assert_eq!(word_overlap("Deploy the NEW site", "the site was new, deploy it"), 2);
    assert_eq!(word_overlap("of it as", "of it as"), 0);
}

#[test]
fn working_state_is_recognized() {
    assert!(is_working_state("WIP: parser"));
    assert!(is_working_state("the migration is in flight"));
    assert!(!is_working_state("the parser is done"));
}

#[test]
fn near_duplicates_start_at_the_threshold() {
    let list: Vec<Candidate> = ["a", "b", "c"]
        .iter()
        .map(|id| Candidate {
            id: id.to_string(),
            content: format!("content of {id}"),
            vector: vec![measure(1.0)],
        })
        .collect();
    let scores: Vec<Vec<Measure>> = [[1.0, 0.9, 0.99], [0.9, 1.0, 0.89], [0.99, 0.89, 1.0]]
        .iter()
        .map(|row| row.iter().map(|x| measure(*x)).collect())
        .collect();
    let found = find_near_duplicates(&list, &scores, 10);
    assert_eq!(found.len(), 2);
    assert_eq!((found[0].a_id.as_str(), found[0].b_id.as_str()), ("a", "c"));
    assert_eq!((found[1].a_id.as_str(), found[1].b_id.as_str()), ("a", "b"));
    assert_eq!(find_near_duplicates(&list, &scores, 1).len(), 1);
}

#[test]
fn content_searches_go_on_until_one_settles() {
    assert_eq!(next_stage(ContentStage::AllWords, Some(2)), None);
    assert_eq!(next_stage(ContentStage::AllWords, Some(0)), Some(ContentStage::AnyWord));
    assert_eq!(next_stage(ContentStage::AllWords, None), Some(ContentStage::AnyWord));
    assert_eq!(next_stage(ContentStage::AnyWord, Some(0)), None);
    assert_eq!(next_stage(ContentStage::AnyWord, None), Some(ContentStage::PlainText));
    assert_eq!(next_stage(ContentStage::PlainText, None), None);
}

#[test]
fn filters_name_their_part_of_the_vault() {
    assert_eq!(QuarantineFilter::All.sql("e"), "");
    assert_eq!(QuarantineFilter::LiveOnly.sql("e"), " AND NOT (e.imagined = 1 AND e.grounded = 0)");
    assert_eq!(
        QuarantineFilter::QuarantinedOnly.sql(""),
        " AND imagined = 1 AND grounded = 0"
    );
}

#[test]
fn filtered_or_sorted_searches_fetch_more() {
    let q = Query::new().limit(5);
    assert_eq!(q.fetch_limit(), 2000);
    let q = q.sort_by(SortKey::Relevance);
    assert_eq!(q.fetch_limit(), 5);
    let q = q.min_strength(measure(0.1));
    assert_eq!(q.fetch_limit(), 2000);
    assert_eq!(q.limit(5000).fetch_limit(), 5000);
    let q = Query::new().text("words".to_string());
    assert!(matches!(q.store_lookup(), Lookup::Content(_)));
    assert!(matches!(q.backend_lookup(), Lookup::Content(_)));
}

#[test]
fn noise_reasons_are_worded_as_documented() {
    assert_eq!(noise_reason("sleep 30", "chat").unwrap().as_deref(), Some("transient command"));
    assert_eq!(noise_reason("Quarterly planning notes", "chat").unwrap(), None);
    assert_eq!(noise_reason("  ", "chat").unwrap().as_deref(), Some("empty content"));
    assert_eq!(noise_reason("LS", "chat").unwrap().as_deref(), Some("bookkeeping command"));
    assert_eq!(noise_reason("cd foo && make", "chat").unwrap(), None);
    assert_eq!(noise_reason("cd && cd ..", "chat").unwrap().as_deref(), Some("cd bookkeeping"));
    let chain = noise_reason("cd /tmp && cd /home", "chat").unwrap();
    assert_eq!(chain.as_deref(), Some("cd bookkeeping"));
    assert_eq!(noise_reason("cd /tmp && make && cd ..", "chat").unwrap(), None);
    assert_eq!(noise_reason("word", "chat").unwrap().as_deref(), Some("single token"));
    assert_eq!(
        noise_reason("[12] cargo test", "window").unwrap().as_deref(),
        Some("too short for a memory")
    );
}
