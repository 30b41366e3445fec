pub mod join;
pub mod opencode;

pub use join::join_consecutive_messages;
pub use opencode::OpenCodeParser;

use vstd::prelude::*;

use crate::json::{json_pair, json_pair_parsed, json_pair_text, parse_json_pair};
use crate::paths::{path_extension, path_extension_text, path_file_name, path_file_name_text, path_join, path_joined_text};
use crate::session::{Session, SessionModel, SessionSource};
use crate::parser::opencode::{
    clock_on_demand, clock_reading, database_locator_model, is_storage_session_path, legacy_session, located_session,
    session_result, DatabaseSession, LegacySessionFiles, ParseError,
};
use crate::text::{
    decimal_digits, option_text, push_decimal, starts_with, strip_prefix, text_eq,
    without_prefix,
};

verus! {

/// A source-neutral reference to one indexable session.
#[derive(Debug, Clone, PartialEq, Eq)]
pub struct SessionLocator {
    /// Stable identity used by the search index and the index state.
    pub identity: String,
    /// Backing session file or database.
    pub path: String,
    /// Row ID for sessions stored inside a database.
    pub database_session_id: Option<String>,
    /// Per-session change fingerprint.
    pub fingerprint: String,
    /// Millisecond timestamp used to order indexing work.
    pub sort_timestamp: i64,
}

/// The mathematical value of a [`SessionLocator`].
pub struct LocatorModel {
    pub identity: Seq<char>,
    pub path: Seq<char>,
    pub database_session_id: Option<Seq<char>>,
    pub fingerprint: Seq<char>,
    pub sort_timestamp: i64,
}

impl View for SessionLocator {
    type V = LocatorModel;

    open spec fn view(&self) -> LocatorModel {
        LocatorModel {
            identity: self.identity@,
            path: self.path@,
            database_session_id: option_text(self.database_session_id),
            fingerprint: self.fingerprint@,
            sort_timestamp: self.sort_timestamp,
        }
    }
}

/// The text that starts the identity of a session stored in an OpenCode database.
pub open spec fn sqlite_identity_prefix() -> Seq<char> {
    "opencode-sqlite:"@
}

/// The identity of session `id` stored in the database at `path`.
pub open spec fn sqlite_identity_text(path: Seq<char>, id: Seq<char>) -> Seq<char> {
    sqlite_identity_prefix() + json_pair_text(path, id)
}

/// The fingerprint of a file: its modification time in nanoseconds and its
/// length in bytes, as `"{nanos}:{len}"`.
pub open spec fn file_fingerprint(modified_nanos: u128, len: u64) -> Seq<char> {
    decimal_digits(modified_nanos as nat) + seq![':'] + decimal_digits(len as nat)
}

/// The locator of a session file with the given path, modification time
/// (nanoseconds since the Unix epoch) and length in bytes.
pub open spec fn file_locator_model(path: Seq<char>, modified_nanos: u128, len: u64) -> LocatorModel {
    LocatorModel {
        identity: path,
        path,
        database_session_id: None,
        fingerprint: file_fingerprint(modified_nanos, len),
        sort_timestamp: (modified_nanos / 1_000_000) as i64,
    }
}

/// Whether two locators name the same session the same way: the same
/// identity, backing path and database row.
pub open spec fn same_session(a: LocatorModel, b: LocatorModel) -> bool {
    &&& a.identity == b.identity
    &&& a.path == b.path
    &&& a.database_session_id == b.database_session_id
}

/// The texts of a pair of strings.
pub open spec fn pair_texts(pair: Option<(String, String)>) -> Option<(Seq<char>, Seq<char>)> {
    match pair {
        Some((a, b)) => Some((a@, b@)),
        None => None,
    }
}

/// The locator an index identity stands for, given the (path, session ID)
/// pair read from it: the database session so named, or else the file whose
/// path is the identity.
pub open spec fn locator_of_parsed_identity(identity: Seq<char>, parsed: Option<(Seq<char>, Seq<char>)>) -> LocatorModel {
    match parsed {
        Some((path, id)) => LocatorModel {
            identity,
            path,
            database_session_id: Some(id),
            fingerprint: seq![],
            sort_timestamp: 0,
        },
        None => LocatorModel {
            identity,
            path: identity,
            database_session_id: None,
            fingerprint: seq![],
            sort_timestamp: 0,
        },
    }
}

/// The locator that an index identity stands for.
pub open spec fn locator_from_identity(identity: Seq<char>) -> LocatorModel {
    locator_of_parsed_identity(
        identity,
        match without_prefix(identity, sqlite_identity_prefix()) {
            Some(encoded) => json_pair_parsed(encoded),
            None => None,
        },
    )
}

/// The identity of session `session_id` stored in the database at `path`.
pub fn sqlite_identity(path: &str, session_id: &str) -> (r: String)
    ensures
        r@ == sqlite_identity_text(path@, session_id@),
        locator_from_identity(r@) == (LocatorModel {
            identity: r@,
            path: path@,
            database_session_id: Some(session_id@),
            fingerprint: seq![],
            sort_timestamp: 0,
        }),
{
    let encoded = json_pair(path, session_id);
    sqlite_identity_of_encoded(encoded.as_str())
}

/// The identity of a database session whose path and ID `serde_json` encoded
/// as the pair text `encoded`: that text behind the SQLite prefix.
pub fn sqlite_identity_of_encoded(encoded: &str) -> (r: String)
    ensures
        r@ == sqlite_identity_prefix() + encoded@,
        without_prefix(r@, sqlite_identity_prefix()) == Some(encoded@),
{
    let mut identity = String::from_str("opencode-sqlite:");
    identity.append(encoded);
    assert(identity@.take(sqlite_identity_prefix().len() as int) =~= sqlite_identity_prefix());
    assert(identity@.skip(sqlite_identity_prefix().len() as int) =~= encoded@);
    identity
}

impl SessionLocator {
    /// The locator of a session file with the given path, modification time
    /// (nanoseconds since the Unix epoch) and length in bytes.
    pub fn file(path: String, modified_nanos: u128, len: u64) -> (r: Self)
        ensures
            r@ == file_locator_model(path@, modified_nanos, len),
    {
        let mut fingerprint = String::new();
        push_decimal(&mut fingerprint, modified_nanos);
        fingerprint.push(':');
        push_decimal(&mut fingerprint, len as u128);
        assert(fingerprint@ =~= file_fingerprint(modified_nanos, len));
        let millis = modified_nanos / 1_000_000;
        SessionLocator {
            identity: path.clone(),
            path,
            database_session_id: None,
            fingerprint,
            sort_timestamp: millis as i64,
        }
    }

    /// The locator of a parsed session. A session of an OpenCode database is
    /// located by its row; any other by its file, whose modification time and
    /// length `file_stamp` gives when the file could be examined.
    pub fn from_session(session: &Session, file_stamp: Option<(u128, u64)>) -> (r: Self)
        ensures
            r@ == locator_of_session(session@, file_stamp),
            session.source == SessionSource::OpenCode && path_extension_text(session.file_path@)
                == Some("db"@) ==> locator_from_identity(r.identity@) == (LocatorModel {
                identity: r.identity@,
                path: session.file_path@,
                database_session_id: Some(session.id@),
                fingerprint: seq![],
                sort_timestamp: 0,
            }),
    {
        let extension = path_extension(session.file_path.as_str());
        Self::from_session_with_extension(session, file_stamp, extension)
    }

    /// [`SessionLocator::from_session`] given the extension of the session's
    /// file path (what `Path::extension` gives).
    pub fn from_session_with_extension(session: &Session, file_stamp: Option<(u128, u64)>, extension: Option<String>) -> (r: Self)
        ensures
            r@ == locator_of_session_with(session@, file_stamp, option_text(extension)),
            session.source == SessionSource::OpenCode && option_text(extension) == Some("db"@)
                ==> locator_from_identity(r.identity@) == (LocatorModel {
                identity: r.identity@,
                path: session.file_path@,
                database_session_id: Some(session.id@),
                fingerprint: seq![],
                sort_timestamp: 0,
            }),
    {
        let in_database = is_db_extension(&extension);
        if session.source == SessionSource::OpenCode && in_database {
            let id = session.id.clone();
            SessionLocator {
                identity: sqlite_identity(session.file_path.as_str(), id.as_str()),
                path: session.file_path.clone(),
                database_session_id: Some(id),
                fingerprint: String::new(),
                sort_timestamp: session.timestamp,
            }
        } else {
            match file_stamp {
                Some((nanos, len)) => Self::file(session.file_path.clone(), nanos, len),
                None => SessionLocator {
                    identity: session.file_path.clone(),
                    path: session.file_path.clone(),
                    database_session_id: None,
                    fingerprint: String::new(),
                    sort_timestamp: session.timestamp,
                },
            }
        }
    }

    /// The locator that an identity kept in the search index stands for.
    pub fn from_index_identity(identity: &str) -> (r: Self)
        ensures
            r@ == locator_from_identity(identity@),
    {
        let parsed = match strip_prefix(identity, "opencode-sqlite:") {
            Some(encoded) => parse_json_pair(encoded.as_str()),
            None => None,
        };
        Self::from_parsed_identity(identity, parsed)
    }

    /// The locator an index identity stands for, given what `serde_json` read
    /// as a (path, session ID) pair from the text behind its SQLite prefix
    /// (`None` when it has no such prefix or the text is no such pair).
    pub fn from_parsed_identity(identity: &str, parsed: Option<(String, String)>) -> (r: Self)
        ensures
            r@ == locator_of_parsed_identity(identity@, pair_texts(parsed)),
    {
        match parsed {
            Some((path, id)) => SessionLocator {
                identity: String::from_str(identity),
                path,
                database_session_id: Some(id),
                fingerprint: String::new(),
                sort_timestamp: 0,
            },
            None => SessionLocator {
                identity: String::from_str(identity),
                path: String::from_str(identity),
                database_session_id: None,
                fingerprint: String::new(),
                sort_timestamp: 0,
            },
        }
    }
}

/// The locator of a session (see [`SessionLocator::from_session`]).
pub open spec fn locator_of_session(
    session: crate::session::SessionModel,
    file_stamp: Option<(u128, u64)>,
) -> LocatorModel {
    locator_of_session_with(session, file_stamp, path_extension_text(session.file_path))
}

/// The locator of a session whose file path has the extension `extension`.
pub open spec fn locator_of_session_with(
    session: crate::session::SessionModel,
    file_stamp: Option<(u128, u64)>,
    extension: Option<Seq<char>>,
) -> LocatorModel {
    if session.source == SessionSource::OpenCode && extension == Some("db"@) {
        LocatorModel {
            identity: sqlite_identity_text(session.file_path, session.id),
            path: session.file_path,
            database_session_id: Some(session.id),
            fingerprint: seq![],
            sort_timestamp: session.timestamp,
        }
    } else {
        match file_stamp {
            Some((nanos, len)) => LocatorModel {
                identity: session.file_path,
                path: session.file_path,
                database_session_id: None,
                fingerprint: file_fingerprint(nanos, len),
                sort_timestamp: (nanos / 1_000_000) as i64,
            },
            None => LocatorModel {
                identity: session.file_path,
                path: session.file_path,
                database_session_id: None,
                fingerprint: seq![],
                sort_timestamp: session.timestamp,
            },
        }
    }
}

/// Parsers of the session files of one tool.
pub trait SessionParser {
    /// Whether this parser can handle the given file.
    fn can_parse(path: &str) -> bool;
}

impl SessionParser for OpenCodeParser {
    /// A `.json` file below a `storage` directory followed by a `session` directory.
    fn can_parse(path: &str) -> (r: bool)
        ensures
            r == is_storage_session_path(path@),
    {
        OpenCodeParser::is_storage_session_file(path)
    }
}

/// The session that a session file holds, given what was read of it (`None`
/// when it could not be read) and the system clock's reading `clock` (`None`
/// when there is none).
pub open spec fn file_session(path: Seq<char>, files: Option<LegacySessionFiles>, clock: Option<i64>) -> Result<SessionModel, ParseError> {
    if is_storage_session_path(path) {
        match files {
            Some(files) => legacy_session(path, files, clock),
            None => Err(ParseError::SessionFileUnreadable),
        }
    } else {
        Err(ParseError::UnknownFormat)
    }
}

/// Parse a session file, auto-detecting the format. `files` is what OpenCode's
/// file storage holds for it, when that could be read. The system clock is
/// read only when a timestamp is missing or out of `chrono`'s range.
pub fn parse_session_file(path: &str, files: Option<LegacySessionFiles>) -> (r: Result<Session, ParseError>)
    ensures
        exists|clock: Option<i64>|
            clock_reading(clock) && session_result(r) == clock_on_demand(
                file_session(path@, files, None),
                #[trigger] file_session(path@, files, clock),
            ),
{
    let ghost files_in = files;
    if OpenCodeParser::can_parse(path) {
        match files {
            Some(files) => {
                let r = OpenCodeParser::parse_file(path, files);
                proof {
                    let f = files_in->Some_0;
                    let c = choose|c: Option<i64>|
                        clock_reading(c) && session_result(r) == clock_on_demand(
                            legacy_session(path@, f, None),
                            #[trigger] legacy_session(path@, f, c),
                        );
                    assert(file_session(path@, files_in, c) == legacy_session(path@, f, c));
                    assert(file_session(path@, files_in, None) == legacy_session(path@, f, None));
                }
                r
            },
            None => {
                assert(file_session(path@, files_in, None) == file_session(path@, files_in, None));
                Err(ParseError::SessionFileUnreadable)
            },
        }
    } else {
        assert(file_session(path@, files_in, None) == file_session(path@, files_in, None));
        Err(ParseError::UnknownFormat)
    }
}

/// [`parse_session_file`] given the system clock's reading `clock` (`None`
/// when there is none).
pub fn session_file_at(path: &str, files: Option<LegacySessionFiles>, clock: Option<i64>) -> (r: Result<Session, ParseError>)
    ensures
        session_result(r) == file_session(path@, files, clock),
{
    if OpenCodeParser::can_parse(path) {
        match files {
            Some(files) => OpenCodeParser::session_from_files(path, files, clock),
            None => Err(ParseError::SessionFileUnreadable),
        }
    } else {
        Err(ParseError::UnknownFormat)
    }
}

/// The session a locator stands for, given what was read for it: the rows of
/// its database (`None` when its session row is gone) or its files; and the
/// system clock's reading `clock` (`None` when there is none).
pub open spec fn locator_session(locator: LocatorModel, database: Option<DatabaseSession>, files: Option<LegacySessionFiles>, clock: Option<i64>) -> Result<SessionModel, ParseError> {
    if locator.database_session_id is Some {
        located_session(locator, database, clock)
    } else {
        file_session(locator.path, files, clock)
    }
}

/// Parses the session a locator stands for: from the rows of its database
/// when it names one, else from its file. The system clock is read only when
/// a timestamp is missing or out of `chrono`'s range.
pub fn parse_session(locator: &SessionLocator, database: Option<DatabaseSession>, files: Option<LegacySessionFiles>) -> (r: Result<Session, ParseError>)
    ensures
        exists|clock: Option<i64>|
            clock_reading(clock) && session_result(r) == clock_on_demand(
                locator_session(locator@, database, files, None),
                #[trigger] locator_session(locator@, database, files, clock),
            ),
{
    let ghost database_in = database;
    let ghost files_in = files;
    if locator.database_session_id.is_some() {
        let r = OpenCodeParser::parse_locator(locator, database);
        proof {
            let c = choose|c: Option<i64>|
                clock_reading(c) && session_result(r) == clock_on_demand(
                    located_session(locator@, database_in, None),
                    #[trigger] located_session(locator@, database_in, c),
                );
            assert(locator_session(locator@, database_in, files_in, c) == located_session(locator@, database_in, c));
            assert(locator_session(locator@, database_in, files_in, None) == located_session(locator@, database_in, None));
        }
        r
    } else {
        let r = parse_session_file(locator.path.as_str(), files);
        proof {
            let c = choose|c: Option<i64>|
                clock_reading(c) && session_result(r) == clock_on_demand(
                    file_session(locator@.path, files_in, None),
                    #[trigger] file_session(locator@.path, files_in, c),
                );
            assert(locator_session(locator@, database_in, files_in, c) == file_session(locator@.path, files_in, c));
            assert(locator_session(locator@, database_in, files_in, None) == file_session(locator@.path, files_in, None));
        }
        r
    }
}

/// Locating a session parsed from a discovered database row again gives back
/// that row's locator (identity, path and row), provided the database file's
/// extension is `db`, as OpenCode's `opencode.db` has.
pub proof fn lemma_relocating_database_sessions(
    database: Seq<char>,
    id: Seq<char>,
    time_updated: i64,
    rows: Option<DatabaseSession>,
    files: Option<LegacySessionFiles>,
    clock: Option<i64>,
    file_stamp: Option<(u128, u64)>,
)
    requires
        path_extension_text(database) == Some("db"@),
    ensures
        ({
            let discovered = database_locator_model(database, id, time_updated);
            locator_session(discovered, rows, files, clock) matches Ok(s) ==> same_session(
                locator_of_session(s, file_stamp),
                discovered,
            )
        }),
{
}

/// Locating a session parsed from a discovered session file again gives back
/// that file's locator (identity, path and no row), whatever the file's
/// modification time and length are then.
pub proof fn lemma_relocating_file_sessions(
    path: Seq<char>,
    modified_nanos: u128,
    len: u64,
    rows: Option<DatabaseSession>,
    files: Option<LegacySessionFiles>,
    clock: Option<i64>,
    file_stamp: Option<(u128, u64)>,
)
    ensures
        ({
            let discovered = file_locator_model(path, modified_nanos, len);
            locator_session(discovered, rows, files, clock) matches Ok(s) ==> same_session(
                locator_of_session(s, file_stamp),
                discovered,
            )
        }),
{
    let discovered = file_locator_model(path, modified_nanos, len);
    if let Ok(s) = locator_session(discovered, rows, files, clock) {
        reveal_strlit("json");
        reveal_strlit("db");
        assert("json"@[0] != "db"@[0]);
        assert(path_extension_text(path) == Some("json"@));
        assert(s.file_path == path);
        assert(path_extension_text(s.file_path) != Some("db"@));
    }
}

/// The backing paths of the discovered sessions, in order.
pub fn discover_session_files(discovered: Vec<SessionLocator>) -> (paths: Vec<String>)
    ensures
        paths@.len() == discovered@.len(),
        forall|i: int| 0 <= i < paths@.len() ==> #[trigger] paths@[i]@ == discovered@[i].path@,
{
    let mut paths: Vec<String> = Vec::new();
    let mut i: usize = 0;
    while i < discovered.len()
        invariant
            0 <= i <= discovered.len(),
            paths@.len() == i,
            forall|k: int| 0 <= k < i ==> #[trigger] paths@[k]@ == discovered@[k].path@,
        decreases discovered.len() - i,
    {
        paths.push(discovered[i].path.clone());
        i += 1;
    }
    paths
}

/// Whether a file with the extension `extension` is a JSON-lines log.
pub open spec fn jsonl_extension(extension: Option<Seq<char>>) -> bool {
    extension == Some("jsonl"@)
}

/// Whether a file with the extension `extension` and the name `file_name` is a
/// conversation log of a project directory: a JSON-lines file that is not an
/// agent sidechain (`agent-*`).
pub open spec fn project_log_name(extension: Option<Seq<char>>, file_name: Option<Seq<char>>) -> bool {
    jsonl_extension(extension) && !match file_name {
        Some(name) => without_prefix(name, "agent-"@) is Some,
        None => false,
    }
}

/// Whether a file is a database file: its extension is `db`, as OpenCode's
/// `opencode.db` has.
pub fn has_db_extension(path: &str) -> (r: bool)
    ensures
        r == (path_extension_text(path@) == Some("db"@)),
{
    is_db_extension(&path_extension(path))
}

/// Whether a file with the extension `extension` (what `Path::extension`
/// gives) is a database file.
pub fn is_db_extension(extension: &Option<String>) -> (r: bool)
    ensures
        r == (option_text(*extension) == Some("db"@)),
{
    match extension {
        Some(ext) => text_eq(ext.as_str(), "db"),
        None => false,
    }
}

/// Whether a file is a JSON-lines session log.
pub fn is_session_log(path: &str) -> (r: bool)
    ensures
        r == jsonl_extension(path_extension_text(path@)),
{
    is_jsonl_extension(&path_extension(path))
}

/// Whether a file with the extension `extension` (what `Path::extension`
/// gives) is a JSON-lines log.
pub fn is_jsonl_extension(extension: &Option<String>) -> (r: bool)
    ensures
        r == jsonl_extension(option_text(*extension)),
{
    match extension {
        Some(ext) => text_eq(ext.as_str(), "jsonl"),
        None => false,
    }
}

/// Whether a file of a project directory is a conversation log: a
/// JSON-lines file that is not an agent sidechain (`agent-*`).
pub fn is_project_session_log(path: &str) -> (r: bool)
    ensures
        r == project_log_name(path_extension_text(path@), path_file_name_text(path@)),
{
    is_project_log_name(&path_extension(path), &path_file_name(path))
}

/// Whether a file with the extension `extension` and the name `file_name`
/// (what `Path::extension` and `Path::file_name` give) is a conversation log
/// of a project directory.
pub fn is_project_log_name(extension: &Option<String>, file_name: &Option<String>) -> (r: bool)
    ensures
        r == project_log_name(option_text(*extension), option_text(*file_name)),
{
    if !is_jsonl_extension(extension) {
        return false;
    }
    match file_name {
        Some(name) => !starts_with(name.as_str(), "agent-"),
        None => true,
    }
}

/// The directory of OpenCode's data: below the home directory when it was
/// overridden, else below `XDG_DATA_HOME` when that is set.
pub fn opencode_data_root(home: &str, home_overridden: bool, xdg_data_home: Option<String>) -> (r: String)
    ensures
        r@ == (if home_overridden {
            path_joined_text(home@, ".local/share/opencode"@)
        } else {
            match xdg_data_home {
                Some(x) => path_joined_text(x@, "opencode"@),
                None => path_joined_text(home@, ".local/share/opencode"@),
            }
        }),
        (home_overridden || xdg_data_home is None) && plain_directory(home@) ==> r@ == home@
            + "/.local/share/opencode"@,
        !home_overridden ==> (xdg_data_home matches Some(x) ==> (plain_directory(x@) ==> r@ == x@
            + "/opencode"@)),
{
    proof {
        reveal_strlit(".local/share/opencode");
        reveal_strlit("/.local/share/opencode");
        reveal_strlit("opencode");
        reveal_strlit("/opencode");
        assert(seq!['/'] + ".local/share/opencode"@ =~= "/.local/share/opencode"@);
        assert(seq!['/'] + "opencode"@ =~= "/opencode"@);
    }
    let ghost xdg = xdg_data_home;
    let r = if home_overridden {
        path_join(home, ".local/share/opencode")
    } else {
        match xdg_data_home {
            Some(x) => path_join(x.as_str(), "opencode"),
            None => path_join(home, ".local/share/opencode"),
        }
    };
    proof {
        assert(home@ + seq!['/'] + ".local/share/opencode"@ =~= home@ + "/.local/share/opencode"@);
        if let Some(x) = xdg {
            assert(x@ + seq!['/'] + "opencode"@ =~= x@ + "/opencode"@);
        }
    }
    r
}

/// Whether a directory path is non-empty and does not end in a separator.
pub open spec fn plain_directory(dir: Seq<char>) -> bool {
    dir.len() > 0 && dir.last() != '/'
}

} // verus!
