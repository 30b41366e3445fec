use chrono::Utc;
use recall::clock::current_millis;
use recall::parser::join_consecutive_messages;
use recall::parser::opencode::{
    get_storage_root, millis_to_datetime, DatabaseMessageRow, DatabaseSession,
    DatabaseSessionListing, DatabaseSessionRow,
    LegacySessionFiles, OpenCodeMessageRecord, OpenCodePartRecord, OpenCodeSessionRecord,
    ParseError,
};
use recall::parser::opencode::role_from_name;
use recall::parser::{
    discover_session_files, has_db_extension, is_db_extension, is_jsonl_extension, is_project_log_name, is_project_session_log,
    is_session_log, opencode_data_root, parse_session, parse_session_file, sqlite_identity,
    sqlite_identity_of_encoded, OpenCodeParser, SessionLocator, SessionParser,
};
use recall::{Message, Role, Session, SessionSource};

fn message(role: Role, content: &str, timestamp: i64) -> Message {
    Message { role, content: content.to_string(), timestamp }
}

#[test]
fn test_join_consecutive_messages_different_roles() {
    let now = Utc::now().timestamp_millis();
    let messages = vec![
        message(Role::User, "Hello", now),
        message(Role::Assistant, "Hi", now),
        message(Role::User, "Bye", now),
    ];
    let joined = join_consecutive_messages(messages);
    assert_eq!(joined.len(), 3);
}

#[test]
fn test_join_consecutive_messages_same_role() {
    let t1 = Utc::now();
    let t2 = t1 + chrono::Duration::seconds(10);
    let messages = vec![
        message(Role::User, "Part 1", t1.timestamp_millis()),
        message(Role::User, "Part 2", t2.timestamp_millis()),
        message(Role::Assistant, "Response", t2.timestamp_millis()),
    ];
    let joined = join_consecutive_messages(messages);
    assert_eq!(joined.len(), 2);
    assert_eq!(joined[0].content, "Part 1\n\nPart 2");
    assert_eq!(joined[0].timestamp, t2.timestamp_millis()); // Uses latest timestamp
    assert_eq!(joined[1].content, "Response");
}

#[test]
fn joining_keeps_the_latest_timestamp() {
    let messages = vec![
        message(Role::User, "a", 30),
        message(Role::User, "b", 10),
        message(Role::User, "c", 20),
        message(Role::Assistant, "d", 5),
    ];
    let joined = join_consecutive_messages(messages);
    assert_eq!(joined.len(), 2);
    assert_eq!(joined[0].content, "a\n\nb\n\nc");
    assert_eq!(joined[0].timestamp, 30);
    assert_eq!(joined[1].timestamp, 5);
}

#[test]
fn test_join_consecutive_messages_multiple_same_role() {
    let now = Utc::now().timestamp_millis();
    let messages = vec![
        message(Role::Assistant, "A", now),
        message(Role::Assistant, "B", now),
        message(Role::Assistant, "C", now),
    ];
    let joined = join_consecutive_messages(messages);
    assert_eq!(joined.len(), 1);
    assert_eq!(joined[0].content, "A\n\nB\n\nC");
}

#[test]
fn join_of_joined_messages_changes_nothing() {
    let messages = vec![
        message(Role::User, "a", 1),
        message(Role::User, "b", 2),
        message(Role::Assistant, "c", 3),
        message(Role::Assistant, "d", 4),
        message(Role::User, "e", 5),
    ];
    let once = join_consecutive_messages(messages);
    let again = join_consecutive_messages(
        once.iter().map(|m| message(m.role, &m.content, m.timestamp)).collect(),
    );
    assert_eq!(once.len(), 3);
    assert_eq!(again.len(), once.len());
    for (x, y) in once.iter().zip(again.iter()) {
        assert_eq!(x.role, y.role);
        assert_eq!(x.content, y.content);
        assert_eq!(x.timestamp, y.timestamp);
    }
    assert_eq!(once[0].timestamp, 2);
    assert_eq!(once[1].content, "c\n\nd");
    assert!(join_consecutive_messages(Vec::new()).is_empty());
}

#[test]
fn test_can_parse_opencode_path() {
    assert!(OpenCodeParser::can_parse(
        "/home/user/.local/share/opencode/storage/session/project123/ses_abc.json"
    ));
    assert!(!OpenCodeParser::can_parse("/home/user/.assistant/projects/foo/session.jsonl"));
    assert!(!OpenCodeParser::can_parse("/home/user/.codex/sessions/session.jsonl"));
}

#[test]
fn can_parse_needs_adjacent_storage_and_session() {
    assert!(!OpenCodeParser::can_parse("/data/storage/other/session/p/ses_a.json"));
    assert!(!OpenCodeParser::can_parse("/data/storage/session/p/ses_a.jsonl"));
    assert!(OpenCodeParser::can_parse("storage/session/ses_a.json"));
}

#[test]
fn test_millis_to_datetime() {
    let dt = millis_to_datetime(1763499168814).unwrap();
    assert!(dt == 1763499168814);
}

#[test]
fn millis_out_of_chrono_range_fall_back_to_now() {
    let before = Utc::now().timestamp_millis();
    let dt = millis_to_datetime(i64::MAX).unwrap();
    let after = Utc::now().timestamp_millis();
    assert!(before <= dt && dt <= after);
}

#[test]
fn chrono_range_ends_are_kept() {
    let first = chrono::DateTime::<Utc>::MIN_UTC.timestamp_millis();
    let last = chrono::DateTime::<Utc>::MAX_UTC.timestamp_millis();
    assert_eq!(first, -8_334_601_228_800_000);
    assert_eq!(last, 8_210_266_876_799_999);
    assert_eq!(millis_to_datetime(first), Some(first));
    assert_eq!(millis_to_datetime(last), Some(last));
    // One millisecond beyond either end stands for the current time.
    let before = Utc::now().timestamp_millis();
    let beyond = millis_to_datetime(last + 1).unwrap();
    let below = millis_to_datetime(first - 1).unwrap();
    let after = Utc::now().timestamp_millis();
    assert!(before <= beyond && beyond <= after);
    assert!(before <= below && below <= after);
}

#[test]
fn current_time_is_in_chrono_range() {
    let before = Utc::now().timestamp_millis();
    let now = current_millis().unwrap();
    let after = Utc::now().timestamp_millis();
    assert!(before <= now && now <= after);
}

#[test]
fn test_get_storage_root() {
    let path = "/home/user/.local/share/opencode/storage/session/proj/ses_123.json";
    let root = get_storage_root(path);
    assert_eq!(root, Some("/home/user/.local/share/opencode/storage".to_string()));
}

#[test]
fn storage_root_needs_three_levels() {
    assert_eq!(get_storage_root("ses_123.json"), None);
    assert_eq!(get_storage_root("a/ses_123.json"), None);
    assert_eq!(get_storage_root("a/b/ses_123.json"), Some(String::new()));
}

fn sqlite_fixture_rows() -> DatabaseSession {
    // The rows that the fixture database holds for `ses_main`, messages in
    // creation order and parts in ID order, as the queries return them.
    DatabaseSession {
        session: DatabaseSessionRow {
            directory: "/work/project".to_string(),
            time_created: 1_000,
            time_updated: 4_000,
        },
        messages: vec![
            DatabaseMessageRow {
                id: "msg_a".to_string(),
                time_created: 1_000,
                data: r#"{"role":"user"}"#.to_string(),
                parts: vec![
                    r#"{"type":"text","text":"first"}"#.to_string(),
                    r#"{"type":"text","text":"second"}"#.to_string(),
                    r#"{"type":"tool","text":"hidden"}"#.to_string(),
                ],
            },
            DatabaseMessageRow {
                id: "msg_b".to_string(),
                time_created: 2_000,
                data: r#"{"role":"assistant"}"#.to_string(),
                parts: vec![r#"{"type":"text","text":"answer one"}"#.to_string()],
            },
            DatabaseMessageRow {
                id: "msg_c".to_string(),
                time_created: 3_000,
                data: r#"{"role":"assistant"}"#.to_string(),
                parts: vec![r#"{"type":"text","text":"answer two"}"#.to_string()],
            },
        ],
    }
}

fn sqlite_fixture_listings() -> Vec<DatabaseSessionListing> {
    // The `session` rows of the fixture database.
    vec![
        DatabaseSessionListing { id: "ses_main".to_string(), parent_id: None, time_updated: 4_000 },
        DatabaseSessionListing {
            id: "ses_child".to_string(),
            parent_id: Some("ses_main".to_string()),
            time_updated: 5_000,
        },
    ]
}

#[test]
fn test_discovers_and_parses_sqlite_sessions() {
    let locators =
        OpenCodeParser::discover_database("/tmp/opencode/opencode.db", sqlite_fixture_listings());
    assert_eq!(locators.len(), 1, "child sessions must be excluded");
    assert_eq!(locators[0].database_session_id.as_deref(), Some("ses_main"));
    assert_eq!(locators[0].fingerprint, "4000");

    let session = OpenCodeParser::parse_locator(&locators[0], Some(sqlite_fixture_rows())).unwrap();
    assert_eq!(session.id, "ses_main");
    assert_eq!(session.cwd, "/work/project");
    assert_eq!(session.timestamp, 4_000);
    assert_eq!(session.messages.len(), 2);
    assert_eq!(session.messages[0].role, Role::User);
    assert_eq!(session.messages[0].content, "first\nsecond");
    assert_eq!(session.messages[0].timestamp, 1_000);
    assert_eq!(session.messages[1].role, Role::Assistant);
    assert_eq!(session.messages[1].content, "answer one\n\nanswer two");
    assert_eq!(session.messages[1].timestamp, 3_000);
}

#[test]
fn database_session_takes_cwd_from_message_when_directory_empty() {
    let mut rows = sqlite_fixture_rows();
    rows.session.directory = String::new();
    rows.messages[1].data = r#"{"role":"assistant","path":{"cwd":"/from/message"}}"#.to_string();
    let session = OpenCodeParser::session_from_rows("/db", "ses_main", &rows, Some(0)).unwrap();
    assert_eq!(session.cwd, "/from/message");
    assert_eq!(session.file_path, "/db");
    assert_eq!(session.source, SessionSource::OpenCode);

    let mut rows = sqlite_fixture_rows();
    rows.session.directory = String::new();
    let session = OpenCodeParser::session_from_rows("/db", "ses_main", &rows, Some(0)).unwrap();
    assert_eq!(session.cwd, ".");
}

#[test]
fn database_session_errors_and_skips() {
    let mut rows = sqlite_fixture_rows();
    rows.messages[1].data = "not json".to_string();
    match OpenCodeParser::session_from_rows("/db", "ses_main", &rows, Some(0)) {
        Err(ParseError::InvalidMessageJson(id)) => assert_eq!(id, "msg_b"),
        other => panic!("unexpected {:?}", other.map(|s| s.id)),
    }

    let mut rows = sqlite_fixture_rows();
    rows.messages[2].parts.push("{".to_string());
    match OpenCodeParser::session_from_rows("/db", "ses_main", &rows, Some(0)) {
        Err(ParseError::InvalidPartJson(id)) => assert_eq!(id, "msg_c"),
        other => panic!("unexpected {:?}", other.map(|s| s.id)),
    }

    // A message of another role is skipped before its parts are read.
    let mut rows = sqlite_fixture_rows();
    rows.messages[1].data = r#"{"role":"system"}"#.to_string();
    rows.messages[1].parts = vec!["{".to_string()];
    let session = OpenCodeParser::session_from_rows("/db", "ses_main", &rows, Some(0)).unwrap();
    assert_eq!(session.messages.len(), 2);
    assert_eq!(session.messages[1].content, "answer two");

    // Out-of-range creation times stand for the current time given.
    let mut rows = sqlite_fixture_rows();
    rows.messages[2].time_created = i64::MAX;
    rows.session.time_updated = i64::MIN;
    rows.session.time_created = i64::MIN;
    let session = OpenCodeParser::session_from_rows("/db", "ses_main", &rows, Some(7_000)).unwrap();
    // The joined answer keeps the later of its parts' times.
    assert_eq!(session.messages[1].timestamp, 7_000);
    assert_eq!(session.timestamp, 7_000);
    let session = OpenCodeParser::session_from_rows("/db", "ses_main", &rows, Some(77)).unwrap();
    assert_eq!(session.messages[1].timestamp, 2_000);
    assert_eq!(session.timestamp, 77);
}

#[test]
fn database_sessions_without_clock() {
    // Representable times need no clock reading.
    let rows = sqlite_fixture_rows();
    let session = OpenCodeParser::session_from_rows("/db", "ses_main", &rows, None).unwrap();
    assert_eq!(session.timestamp, 4_000);
    assert_eq!(session.messages[1].timestamp, 3_000);

    // A kept message whose time is out of range asks for one.
    let mut rows = sqlite_fixture_rows();
    rows.messages[2].time_created = i64::MAX;
    assert!(matches!(
        OpenCodeParser::session_from_rows("/db", "ses_main", &rows, None),
        Err(ParseError::ClockUnavailable)
    ));
    // So does a session whose own times are out of range.
    let mut rows = sqlite_fixture_rows();
    rows.session.time_updated = i64::MIN;
    rows.session.time_created = i64::MIN;
    assert!(matches!(
        OpenCodeParser::session_from_rows("/db", "ses_main", &rows, None),
        Err(ParseError::ClockUnavailable)
    ));
    // A skipped message's time is never looked at.
    let mut rows = sqlite_fixture_rows();
    rows.messages[1].data = r#"{"role":"system"}"#.to_string();
    rows.messages[1].time_created = i64::MAX;
    let session = OpenCodeParser::session_from_rows("/db", "ses_main", &rows, None).unwrap();
    assert_eq!(session.messages[1].timestamp, 3_000);

    // Parsing a locator reads the clock only when asked to.
    let mut rows = sqlite_fixture_rows();
    rows.messages[2].time_created = i64::MAX;
    let db = OpenCodeParser::database_locator("/db", "ses_main".to_string(), 4_000);
    let before = Utc::now().timestamp_millis();
    let session = OpenCodeParser::parse_locator(&db, Some(rows)).unwrap();
    let after = Utc::now().timestamp_millis();
    assert!(before <= session.messages[1].timestamp && session.messages[1].timestamp <= after);
}

#[test]
fn discovery_lists_top_level_rows_in_order() {
    let mut listings = sqlite_fixture_listings();
    listings.push(DatabaseSessionListing { id: "ses_other".to_string(), parent_id: None, time_updated: -3 });
    let locators = OpenCodeParser::discover_database("/db", listings);
    assert_eq!(locators.len(), 2);
    assert_eq!(locators[0].database_session_id.as_deref(), Some("ses_main"));
    assert_eq!(locators[1].database_session_id.as_deref(), Some("ses_other"));
    assert_eq!(locators[1].fingerprint, "-3");
    assert_eq!(locators[1].sort_timestamp, -3);
    assert!(OpenCodeParser::discover_database("/db", Vec::new()).is_empty());
}

#[test]
fn parse_locator_errors() {
    let plain = SessionLocator::from_index_identity("/some/file.jsonl");
    assert!(matches!(OpenCodeParser::parse_locator(&plain, None), Err(ParseError::NoSessionId)));
    let db = OpenCodeParser::database_locator("/db", "ses_gone".to_string(), 1);
    assert!(matches!(OpenCodeParser::parse_locator(&db, None), Err(ParseError::SessionNotInDatabase)));
}

fn part(file_name: &str, part_type: &str, text: Option<&str>) -> OpenCodePartRecord {
    OpenCodePartRecord {
        file_name: file_name.to_string(),
        part_type: part_type.to_string(),
        text: text.map(|t| t.to_string()),
    }
}

fn legacy_files() -> LegacySessionFiles {
    LegacySessionFiles {
        session: OpenCodeSessionRecord {
            id: "ses_legacy".to_string(),
            directory: None,
            created: Some(500),
            parent_id: None,
        },
        messages: vec![
            OpenCodeMessageRecord {
                id: "msg_2".to_string(),
                role: "assistant".to_string(),
                created: Some(2_000),
                path_cwd: Some("/second".to_string()),
                parts: vec![part("prt_1", "text", Some("reply"))],
            },
            OpenCodeMessageRecord {
                id: "msg_1".to_string(),
                role: "user".to_string(),
                created: Some(1_000),
                path_cwd: Some("/first".to_string()),
                parts: vec![
                    part("prt_b", "text", Some("world")),
                    part("prt_c", "step-start", Some("hidden")),
                    part("prt_a", "text", Some("hello")),
                    part("prt_d", "text", Some("")),
                ],
            },
            OpenCodeMessageRecord {
                id: "msg_3".to_string(),
                role: "tool".to_string(),
                created: Some(9_000),
                path_cwd: None,
                parts: vec![part("prt_1", "text", Some("ignored"))],
            },
        ],
    }
}

const LEGACY_PATH: &str = "/home/u/.local/share/opencode/storage/session/proj/ses_legacy.json";

#[test]
fn legacy_session_orders_messages_and_parts() {
    let session = OpenCodeParser::session_from_files(LEGACY_PATH, legacy_files(), Some(0)).unwrap();
    assert_eq!(session.id, "ses_legacy");
    assert_eq!(session.source, SessionSource::OpenCode);
    assert_eq!(session.file_path, LEGACY_PATH);
    // The first message in creation order that has a path gives the cwd.
    assert_eq!(session.cwd, "/first");
    assert_eq!(session.git_branch, None);
    // The latest message time, even of a skipped role.
    assert_eq!(session.timestamp, 9_000);
    assert_eq!(session.messages.len(), 2);
    assert_eq!(session.messages[0].role, Role::User);
    assert_eq!(session.messages[0].content, "hello\nworld");
    assert_eq!(session.messages[0].timestamp, 1_000);
    assert_eq!(session.messages[1].content, "reply");
}

#[test]
fn legacy_session_directory_and_fallbacks() {
    let mut files = legacy_files();
    files.session.directory = Some("/dir".to_string());
    files.messages.clear();
    let session = OpenCodeParser::session_from_files(LEGACY_PATH, files, Some(0)).unwrap();
    assert_eq!(session.cwd, "/dir");
    assert_eq!(session.timestamp, 500);
    assert!(session.messages.is_empty());

    let mut files = legacy_files();
    files.session.created = None;
    files.messages.clear();
    let session = OpenCodeParser::session_from_files(LEGACY_PATH, files, Some(42)).unwrap();
    assert_eq!(session.cwd, ".");
    assert_eq!(session.timestamp, 42);
}

#[test]
fn legacy_sessions_without_clock() {
    // Every message time representable: no clock reading is needed.
    let session = OpenCodeParser::session_from_files(LEGACY_PATH, legacy_files(), None).unwrap();
    assert_eq!(session.timestamp, 9_000);

    // A message without a creation time asks for one, whatever its role.
    let mut files = legacy_files();
    files.messages[0].created = None;
    assert!(matches!(
        OpenCodeParser::session_from_files(LEGACY_PATH, files, None),
        Err(ParseError::ClockUnavailable)
    ));
    // Without messages, the session's own time decides.
    let mut files = legacy_files();
    files.messages.clear();
    files.session.created = Some(i64::MIN);
    assert!(matches!(
        OpenCodeParser::session_from_files(LEGACY_PATH, files, None),
        Err(ParseError::ClockUnavailable)
    ));
    // A child session is refused before any time is looked at.
    let mut files = legacy_files();
    files.messages[0].created = None;
    files.session.parent_id = Some("ses_top".to_string());
    assert!(matches!(
        OpenCodeParser::session_from_files(LEGACY_PATH, files, None),
        Err(ParseError::ChildSession)
    ));

    // Parsing the files reads the clock only when asked to.
    let mut files = legacy_files();
    files.messages.clear();
    files.session.created = None;
    let before = Utc::now().timestamp_millis();
    let session = OpenCodeParser::parse_file(LEGACY_PATH, files).unwrap();
    let after = Utc::now().timestamp_millis();
    assert!(before <= session.timestamp && session.timestamp <= after);
    let session = OpenCodeParser::parse_file(LEGACY_PATH, legacy_files()).unwrap();
    assert_eq!(session.timestamp, 9_000);
}

#[test]
fn legacy_child_sessions_and_bad_paths_are_refused() {
    let mut files = legacy_files();
    files.session.parent_id = Some("ses_top".to_string());
    assert!(matches!(
        OpenCodeParser::session_from_files(LEGACY_PATH, files, Some(0)),
        Err(ParseError::ChildSession)
    ));
    assert!(matches!(
        OpenCodeParser::session_from_files("ses_legacy.json", legacy_files(), Some(0)),
        Err(ParseError::NoStorageRoot)
    ));
}

#[test]
fn parse_session_file_dispatches_on_format() {
    assert!(matches!(
        parse_session_file("/home/u/.assistant/projects/p/s.jsonl", None),
        Err(ParseError::UnknownFormat)
    ));
    assert!(matches!(parse_session_file(LEGACY_PATH, None), Err(ParseError::SessionFileUnreadable)));
    let session = parse_session_file(LEGACY_PATH, Some(legacy_files())).unwrap();
    assert_eq!(session.id, "ses_legacy");
}

#[test]
fn parse_session_follows_the_locator() {
    let db = OpenCodeParser::database_locator("/db", "ses_main".to_string(), 4_000);
    let session = parse_session(&db, Some(sqlite_fixture_rows()), None).unwrap();
    assert_eq!(session.id, "ses_main");
    let file = SessionLocator::file(LEGACY_PATH.to_string(), 5_000_000, 10);
    let session = parse_session(&file, Some(sqlite_fixture_rows()), Some(legacy_files())).unwrap();
    assert_eq!(session.id, "ses_legacy");
}

#[test]
fn json_record_filter() {
    assert!(OpenCodeParser::is_json_file("/s/storage/part/msg_1/prt_1.json"));
    assert!(!OpenCodeParser::is_json_file("/s/storage/part/msg_1/prt_1.json.tmp"));
    assert!(!OpenCodeParser::is_json_file("/s/storage/part/msg_1/.json"));
}

#[test]
fn legacy_discovery_filter() {
    assert!(OpenCodeParser::is_legacy_session_file("/r/storage/session/p/ses_top.json"));
    assert!(!OpenCodeParser::is_legacy_session_file("/r/storage/session/p/top.json"));
    assert!(!OpenCodeParser::is_legacy_session_file("/r/storage/session/p/ses_top.jsonl"));
}

#[test]
fn session_log_filters() {
    assert!(is_session_log("/h/.codex/sessions/2025/a.jsonl"));
    assert!(!is_session_log("/h/.codex/sessions/2025/a.json"));
    assert!(is_project_session_log("/h/.assistant/projects/p/abc.jsonl"));
    assert!(!is_project_session_log("/h/.assistant/projects/p/agent-abc.jsonl"));
    assert!(!is_project_session_log("/h/.assistant/projects/p/abc.txt"));
}

#[test]
fn opencode_root_choice() {
    assert_eq!(opencode_data_root("/home/u", true, Some("/xdg".to_string())), "/home/u/.local/share/opencode");
    assert_eq!(opencode_data_root("/home/u", false, Some("/xdg".to_string())), "/xdg/opencode");
    assert_eq!(opencode_data_root("/home/u", false, None), "/home/u/.local/share/opencode");
}

#[test]
fn file_locator_fingerprint_and_timestamp() {
    let locator = SessionLocator::file("/a/b.jsonl".to_string(), 1_700_000_000_123_456_789, 42);
    assert_eq!(locator.identity, "/a/b.jsonl");
    assert_eq!(locator.path, "/a/b.jsonl");
    assert_eq!(locator.database_session_id, None);
    assert_eq!(locator.fingerprint, "1700000000123456789:42");
    assert_eq!(locator.sort_timestamp, 1_700_000_000_123);
    let zero = SessionLocator::file("z".to_string(), 0, 0);
    assert_eq!(zero.fingerprint, "0:0");
}

#[test]
fn database_locator_fingerprints_negative_times() {
    let locator = OpenCodeParser::database_locator("/db", "s".to_string(), -15);
    assert_eq!(locator.fingerprint, "-15");
    assert_eq!(locator.sort_timestamp, -15);
}

fn session(source: SessionSource, file_path: &str) -> Session {
    Session {
        id: "ses_x".to_string(),
        source,
        file_path: file_path.to_string(),
        cwd: "/w".to_string(),
        git_branch: None,
        timestamp: 1234,
        messages: Vec::new(),
    }
}

#[test]
fn sqlite_identity_round_trips() {
    let identity = sqlite_identity("/data/opencode.db", "ses_\"quoted\"");
    assert!(identity.starts_with("opencode-sqlite:["));
    let back = SessionLocator::from_index_identity(&identity);
    assert_eq!(back.identity, identity);
    assert_eq!(back.path, "/data/opencode.db");
    assert_eq!(back.database_session_id.as_deref(), Some("ses_\"quoted\""));
    assert_eq!(back.fingerprint, "");
    assert_eq!(back.sort_timestamp, 0);

    let locator = SessionLocator::from_session(&session(SessionSource::OpenCode, "/data/opencode.db"), None);
    assert_eq!(locator.database_session_id.as_deref(), Some("ses_x"));
    assert_eq!(locator.sort_timestamp, 1234);
    let back = SessionLocator::from_index_identity(&locator.identity);
    assert_eq!(back.path, "/data/opencode.db");
    assert_eq!(back.database_session_id.as_deref(), Some("ses_x"));
}

#[test]
fn file_sessions_are_located_by_file() {
    let s = session(SessionSource::Projects, "/h/.assistant/projects/p/a.jsonl");
    let located = SessionLocator::from_session(&s, Some((2_000_000, 7)));
    assert_eq!(located.identity, "/h/.assistant/projects/p/a.jsonl");
    assert_eq!(located.fingerprint, "2000000:7");
    assert_eq!(located.sort_timestamp, 2);
    let unstated = SessionLocator::from_session(&s, None);
    assert_eq!(unstated.fingerprint, "");
    assert_eq!(unstated.sort_timestamp, 1234);
    // A database file of another source is still a file.
    let other = SessionLocator::from_session(&session(SessionSource::CodexCli, "/x/opencode.db"), None);
    assert_eq!(other.database_session_id, None);

    let plain = SessionLocator::from_index_identity("/h/.assistant/projects/p/a.jsonl");
    assert_eq!(plain.path, "/h/.assistant/projects/p/a.jsonl");
    assert_eq!(plain.database_session_id, None);
    let broken = SessionLocator::from_index_identity("opencode-sqlite:not json");
    assert_eq!(broken.path, "opencode-sqlite:not json");
    assert_eq!(broken.database_session_id, None);
}

#[test]
fn discovered_paths_in_order() {
    let locators = vec![
        SessionLocator::file("/a".to_string(), 0, 0),
        OpenCodeParser::database_locator("/db", "s".to_string(), 1),
    ];
    assert_eq!(discover_session_files(locators), vec!["/a".to_string(), "/db".to_string()]);
}

#[test]
fn path_decisions_on_given_parts() {
    let some = |s: &str| Some(s.to_string());
    assert!(is_jsonl_extension(&some("jsonl")));
    assert!(!is_jsonl_extension(&some("json")));
    assert!(!is_jsonl_extension(&None));
    assert!(is_project_log_name(&some("jsonl"), &some("abc.jsonl")));
    assert!(is_project_log_name(&some("jsonl"), &None));
    assert!(!is_project_log_name(&some("jsonl"), &some("agent-1.jsonl")));
    assert!(!is_project_log_name(&None, &some("abc")));
    assert!(OpenCodeParser::is_json_extension(&some("json")));
    assert!(!OpenCodeParser::is_json_extension(&some("JSON")));
    assert!(OpenCodeParser::is_legacy_session_name(&some("json"), &some("ses_1.json")));
    assert!(!OpenCodeParser::is_legacy_session_name(&some("json"), &None));
    assert!(!OpenCodeParser::is_legacy_session_name(&some("jsonl"), &some("ses_1.jsonl")));
    let parts = |p: &[&str]| p.iter().map(|s| s.to_string()).collect::<Vec<String>>();
    assert!(OpenCodeParser::is_storage_session_parts(&parts(&["/", "storage", "session", "a.json"]), &some("json")));
    assert!(!OpenCodeParser::is_storage_session_parts(&parts(&["storage", "x", "session", "a.json"]), &some("json")));
    assert!(!OpenCodeParser::is_storage_session_parts(&parts(&["storage", "session"]), &None));
    assert!(!OpenCodeParser::is_storage_session_parts(&parts(&["session", "storage"]), &some("json")));
}

#[test]
fn locators_from_given_call_results() {
    let parsed = SessionLocator::from_parsed_identity(
        "opencode-sqlite:x",
        Some(("/d/opencode.db".to_string(), "ses_9".to_string())),
    );
    assert_eq!(parsed.identity, "opencode-sqlite:x");
    assert_eq!(parsed.path, "/d/opencode.db");
    assert_eq!(parsed.database_session_id.as_deref(), Some("ses_9"));
    let plain = SessionLocator::from_parsed_identity("/f.jsonl", None);
    assert_eq!(plain.path, "/f.jsonl");
    assert_eq!(plain.database_session_id, None);

    assert_eq!(sqlite_identity_of_encoded("[\"a\",\"b\"]"), "opencode-sqlite:[\"a\",\"b\"]");

    // The extension decides, not the file name.
    let s = session(SessionSource::OpenCode, "/d/opencode.sqlite");
    let by_row = SessionLocator::from_session_with_extension(&s, None, Some("db".to_string()));
    assert_eq!(by_row.database_session_id.as_deref(), Some("ses_x"));
    assert!(by_row.identity.starts_with("opencode-sqlite:"));
    let by_file = SessionLocator::from_session_with_extension(&s, Some((3_000_000, 1)), None);
    assert_eq!(by_file.database_session_id, None);
    assert_eq!(by_file.fingerprint, "3000000:1");
}

#[test]
fn relocating_discovered_sessions() {
    // A database row's locator comes back from its parsed session.
    let db = OpenCodeParser::database_locator("/data/opencode.db", "ses_main".to_string(), 4_000);
    let session = parse_session(&db, Some(sqlite_fixture_rows()), None).unwrap();
    let again = SessionLocator::from_session(&session, None);
    assert_eq!(again.identity, db.identity);
    assert_eq!(again.path, db.path);
    assert_eq!(again.database_session_id, db.database_session_id);
    // So does a file's.
    let file = SessionLocator::file(LEGACY_PATH.to_string(), 5_000_000, 10);
    let session = parse_session(&file, None, Some(legacy_files())).unwrap();
    let again = SessionLocator::from_session(&session, Some((6_000_000, 11)));
    assert_eq!(again.identity, file.identity);
    assert_eq!(again.path, file.path);
    assert_eq!(again.database_session_id, None);
}

#[test]
fn database_row_decisions_on_given_values() {
    let some = |s: &str| Some(s.to_string());
    assert_eq!(OpenCodeParser::database_part_text(&some("text"), some("hi")), some("hi"));
    assert_eq!(OpenCodeParser::database_part_text(&some("text"), some("")), None);
    assert_eq!(OpenCodeParser::database_part_text(&some("text"), None), None);
    assert_eq!(OpenCodeParser::database_part_text(&some("tool"), some("hidden")), None);
    assert_eq!(OpenCodeParser::database_part_text(&None, some("x")), None);

    assert_eq!(OpenCodeParser::cwd_after_message(String::new(), some("/w")), "/w");
    assert_eq!(OpenCodeParser::cwd_after_message(String::new(), None), "");
    assert_eq!(OpenCodeParser::cwd_after_message("/a".to_string(), some("/w")), "/a");

    assert_eq!(role_from_name("user"), Some(Role::User));
    assert_eq!(role_from_name("assistant"), Some(Role::Assistant));
    assert_eq!(role_from_name("system"), None);

    let texts = vec!["one".to_string(), "two".to_string()];
    let msg = OpenCodeParser::database_message(Role::User, &texts, 1_500, None).unwrap().unwrap();
    assert_eq!(msg.content, "one\ntwo");
    assert_eq!(msg.timestamp, 1_500);
    assert!(OpenCodeParser::database_message(Role::User, &Vec::new(), i64::MAX, None).unwrap().is_none());
    assert!(matches!(
        OpenCodeParser::database_message(Role::Assistant, &texts, i64::MAX, None),
        Err(ParseError::ClockUnavailable)
    ));
    let msg = OpenCodeParser::database_message(Role::Assistant, &texts, i64::MAX, Some(9)).unwrap().unwrap();
    assert_eq!(msg.timestamp, 9);
}

#[test]
fn database_file_extension() {
    assert!(has_db_extension("/data/opencode/opencode.db"));
    assert!(!has_db_extension("/data/opencode/opencode.db-wal"));
    assert!(!has_db_extension("/data/opencode"));
    assert!(is_db_extension(&Some("db".to_string())));
    assert!(!is_db_extension(&None));
}

#[test]
fn opencode_root_below_plain_directories() {
    assert_eq!(opencode_data_root("/h", false, None), "/h/.local/share/opencode");
    assert_eq!(opencode_data_root("/h", false, Some("/x/data".to_string())), "/x/data/opencode");
}
