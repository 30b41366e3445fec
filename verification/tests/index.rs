use recall::index::state::CURRENT_STATE_VERSION;
use recall::index::{discover_and_sort_files, prune_stale_sessions, IndexRun, IndexState};
use recall::parser::{OpenCodeParser, SessionLocator};

fn locator(identity: &str, fingerprint: &str, sort_timestamp: i64) -> SessionLocator {
    SessionLocator {
        identity: identity.to_string(),
        path: identity.to_string(),
        database_session_id: None,
        fingerprint: fingerprint.to_string(),
        sort_timestamp,
    }
}

#[test]
fn outdated_state_file_requests_rebuild() {
    assert!(!IndexState::is_current_state_file(r#"{"indexed_files":{},"version":1}"#).unwrap());
    assert!(IndexState::is_current_state_file(r#"{"indexed_sessions":{},"version":2}"#).unwrap());
    assert!(!IndexState::is_current_state_file(r#"{"version":"2"}"#).unwrap());
    assert!(!IndexState::is_current_state_file(r#"{}"#).unwrap());
    assert!(IndexState::is_current_state_file("not json").is_err());

    let mut state = IndexState::requiring_rebuild();
    assert!(state.take_rebuild_required());
    assert!(!state.take_rebuild_required());
    assert_eq!(state.version, 2);
    assert_eq!(CURRENT_STATE_VERSION, 2);
}

#[test]
fn marking_and_removing_drive_reindexing() {
    let mut state = IndexState::default();
    assert!(!state.take_rebuild_required());
    let a = locator("a", "1:1", 0);
    assert!(state.needs_reindex(&a));
    state.mark_indexed(&a);
    assert!(!state.needs_reindex(&a));
    assert!(state.needs_reindex(&locator("a", "2:2", 0)));
    assert!(state.needs_reindex(&locator("b", "1:1", 0)));
    state.mark_indexed(&locator("a", "2:2", 0));
    assert!(state.needs_reindex(&a));
    assert_eq!(state.fingerprint_of("a").as_deref(), Some("2:2"));
    assert_eq!(state.identities(), vec!["a".to_string()]);
    state.remove("a");
    assert!(state.needs_reindex(&a));
    assert!(state.identities().is_empty());
    state.remove("a");
    state.record("x".to_string(), "f".to_string());
    assert_eq!(state.fingerprint_of("x").as_deref(), Some("f"));
}

#[test]
fn pruning_removes_only_undiscovered_sessions() {
    let mut state = IndexState::new();
    for id in ["a", "b", "c"] {
        state.mark_indexed(&locator(id, "f", 0));
    }
    let discovered = vec![locator("b", "g", 0), locator("d", "g", 0)];
    let mut stale = prune_stale_sessions(&mut state, &discovered);
    stale.sort();
    assert_eq!(stale, vec!["a".to_string(), "c".to_string()]);
    assert_eq!(state.identities(), vec!["b".to_string()]);
    assert_eq!(state.fingerprint_of("b").as_deref(), Some("f"));
    assert!(prune_stale_sessions(&mut state, &discovered).is_empty());
}

#[test]
fn discovered_sessions_sort_newest_first_stably() {
    let sorted = discover_and_sort_files(vec![
        locator("old", "", 1),
        locator("new", "", 9),
        locator("mid1", "", 5),
        locator("mid2", "", 5),
        OpenCodeParser::database_locator("/db", "s".to_string(), 7),
    ]);
    let order: Vec<&str> = sorted.iter().map(|l| l.path.as_str()).collect();
    assert_eq!(order, vec!["new", "/db", "mid1", "mid2", "old"]);
    assert!(discover_and_sort_files(Vec::new()).is_empty());
}

#[test]
fn index_run_reports_progress_and_commits() {
    let mut state = IndexState::new();
    let total = 401;
    let mut run = IndexRun::new(total);
    let mut progress = Vec::new();
    let mut commits = Vec::new();
    for i in 0..total {
        let l = locator(&format!("s{i}"), "f", 0);
        let parsed = if i % 3 == 0 { None } else { Some(i % 2 == 0) };
        let step = run.step(&mut state, &l, parsed);
        assert_eq!(step.write_session, parsed == Some(true));
        assert_eq!(state.needs_reindex(&l), parsed.is_none());
        if let Some(p) = step.progress {
            assert_eq!(p.total, total);
            progress.push(p.indexed);
        }
        if step.commit_and_reload {
            commits.push(i + 1);
        }
    }
    assert!(run.is_finished());
    assert_eq!(run.indexed(), (0..total).filter(|i| i % 3 != 0).count());
    assert_eq!(progress, vec![50, 100, 150, 200, 250, 300, 350, 400, 401]);
    assert_eq!(commits, vec![200, 400]);
}

#[test]
fn failed_parse_forgets_a_session() {
    let mut state = IndexState::new();
    let l = locator("a", "f", 0);
    state.mark_indexed(&l);
    let mut run = IndexRun::new(1);
    let step = run.step(&mut state, &l, None);
    assert!(!step.write_session);
    assert!(step.progress.is_some());
    assert!(state.needs_reindex(&l));
    assert_eq!(run.indexed(), 0);
}

#[test]
fn stored_entries_round_trip() {
    let mut state = IndexState::new();
    state.mark_indexed(&locator("a", "1:1", 1));
    state.mark_indexed(&locator("b", "2:2", 2));
    state.mark_indexed(&locator("a", "3:3", 3));
    let mut pairs = state.entries();
    pairs.sort();
    assert_eq!(pairs, vec![("a".to_string(), "3:3".to_string()), ("b".to_string(), "2:2".to_string())]);
    let back = IndexState::from_entries(state.version, state.entries());
    assert_eq!(back.fingerprint_of("a"), Some("3:3".to_string()));
    assert_eq!(back.fingerprint_of("b"), Some("2:2".to_string()));
    assert_eq!(back.identities().len(), 2);
    assert_eq!(back.version, state.version);
    // A later pair for the same identity wins.
    let later = IndexState::from_entries(
        7,
        vec![("x".to_string(), "old".to_string()), ("x".to_string(), "new".to_string())],
    );
    assert_eq!(later.fingerprint_of("x"), Some("new".to_string()));
    assert_eq!(later.version, 7);
}

#[test]
fn state_from_pairs_in_any_order() {
    let pairs = vec![
        ("a".to_string(), "1".to_string()),
        ("b".to_string(), "2".to_string()),
        ("c".to_string(), "3".to_string()),
    ];
    let mut reordered = pairs.clone();
    reordered.reverse();
    reordered.swap(0, 1);
    let first = IndexState::from_entries(CURRENT_STATE_VERSION, pairs);
    let second = IndexState::from_entries(CURRENT_STATE_VERSION, reordered);
    for id in ["a", "b", "c", "d"] {
        assert_eq!(first.fingerprint_of(id), second.fingerprint_of(id));
    }
    assert_eq!(second.fingerprint_of("c"), Some("3".to_string()));
    assert_eq!(first.version(), CURRENT_STATE_VERSION);
    assert_eq!(IndexState::from_entries(5, Vec::new()).version(), 5);
}
