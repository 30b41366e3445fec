use vstd::prelude::*;

use crate::clock::{chrono_millis_in_range, current_millis, utc_from_millis};
use crate::json::{json_string_at, json_text_at};
use crate::order::{
    kept_by, lemma_sort_then_keep, lemma_stable_sorted, order_of, sorted_by, stable_sort, stable_sorted, strict_weak_order,
    StableOrder,
};
use crate::parser::join::{
    contents_nonempty, join_consecutive_messages, lemma_joined_contents_nonempty,
    lemma_joined_roles_alternate,
};
use crate::parser::{sqlite_identity, sqlite_identity_text, LocatorModel, SessionLocator};
use crate::paths::{
    path_component_texts, path_components, path_extension, path_extension_text, path_file_name,
    path_file_name_text, path_parent, path_parent_text,
};
use crate::session::{
    joined_messages, messages_model, roles_alternate, Message, MessageModel, Role, Session,
    SessionModel, SessionSource,
};
use crate::text::{
    decimal_text, i64_decimal, join_with_newline, lemma_newline_joined_nonempty,
    lemma_text_before_strict_weak_order,
    newline_joined, option_text, starts_with, text_before, text_eq, text_less, texts_model,
    without_prefix,
};

verus! {

/// Parser for the sessions of OpenCode.
pub struct OpenCodeParser;

/// Why a session could not be read.
#[derive(Debug)]
pub enum ParseError {
    /// No parser recognises the file.
    UnknownFormat,
    /// The session file of a recognised format could not be read.
    SessionFileUnreadable,
    /// OpenCode child sessions are not indexed.
    ChildSession,
    /// The session file does not lie three levels below a storage directory.
    NoStorageRoot,
    /// The locator names no row of an OpenCode database.
    NoSessionId,
    /// The session is no longer in its OpenCode database.
    SessionNotInDatabase,
    /// The data of the message with this ID is not JSON.
    InvalidMessageJson(String),
    /// The data of a part of the message with this ID is not JSON.
    InvalidPartJson(String),
    /// A timestamp was missing or out of `chrono`'s range, so the current time
    /// stands in for it, and the system clock gave no time `chrono` represents.
    ClockUnavailable,
}

/// Session metadata of OpenCode's file storage (`session/<project>/ses_*.json`).
pub struct OpenCodeSessionRecord {
    pub id: String,
    pub directory: Option<String>,
    /// `time.created`, in milliseconds since the Unix epoch.
    pub created: Option<i64>,
    pub parent_id: Option<String>,
}

/// A content part of OpenCode's file storage (`part/<message>/prt_*.json`).
pub struct OpenCodePartRecord {
    /// The name of the part's file.
    pub file_name: String,
    pub part_type: String,
    pub text: Option<String>,
}

/// A message of OpenCode's file storage (`message/<session>/msg_*.json`) with
/// the parts stored for it, in the order they were found.
pub struct OpenCodeMessageRecord {
    pub id: String,
    pub role: String,
    /// `time.created`, in milliseconds since the Unix epoch.
    pub created: Option<i64>,
    /// `path.cwd`.
    pub path_cwd: Option<String>,
    pub parts: Vec<OpenCodePartRecord>,
}

/// What OpenCode's file storage holds for one session: its metadata and its
/// messages, in the order they were found.
pub struct LegacySessionFiles {
    pub session: OpenCodeSessionRecord,
    pub messages: Vec<OpenCodeMessageRecord>,
}

/// The `session` row of an OpenCode database.
pub struct DatabaseSessionRow {
    pub directory: String,
    pub time_created: i64,
    pub time_updated: i64,
}

/// A `message` row of an OpenCode database with the `data` of its `part` rows
/// ordered by part ID.
pub struct DatabaseMessageRow {
    pub id: String,
    pub time_created: i64,
    pub data: String,
    pub parts: Vec<String>,
}

/// What an OpenCode database holds for one session; the messages are ordered
/// by creation time, then ID.
pub struct DatabaseSession {
    pub session: DatabaseSessionRow,
    pub messages: Vec<DatabaseMessageRow>,
}

/// A session's model, or the error that stopped reading it.
pub open spec fn session_result(r: Result<Session, ParseError>) -> Result<SessionModel, ParseError> {
    match r {
        Ok(s) => Ok(s@),
        Err(e) => Err(e),
    }
}

// ---------------------------------------------------------------------------
// Paths

/// Whether a file with the extension `extension` is a `.json` file.
pub open spec fn json_extension(extension: Option<Seq<char>>) -> bool {
    extension == Some("json"@)
}

/// Whether a file with the extension `extension` and the name `file_name` is
/// a session file of OpenCode's storage: a `.json` file named `ses_*`.
pub open spec fn legacy_session_name(extension: Option<Seq<char>>, file_name: Option<Seq<char>>) -> bool {
    json_extension(extension) && match file_name {
        Some(name) => without_prefix(name, "ses_"@) is Some,
        None => false,
    }
}

/// Whether a path with the components `parts` and the extension `extension`
/// is a session file of OpenCode's storage: a `.json` file below a `storage`
/// directory followed by a `session` directory.
pub open spec fn storage_session_parts(parts: Seq<Seq<char>>, extension: Option<Seq<char>>) -> bool {
    &&& exists|i: int| 0 <= i < parts.len() - 1 && #[trigger] parts[i] == "storage"@ && parts[i + 1] == "session"@
    &&& json_extension(extension)
}

/// Whether a path is a session file of OpenCode's storage.
pub open spec fn is_storage_session_path(path: Seq<char>) -> bool {
    storage_session_parts(path_component_texts(path), path_extension_text(path))
}

/// The storage directory of a session file: three levels up.
pub open spec fn storage_root_text(path: Seq<char>) -> Option<Seq<char>> {
    match path_parent_text(path) {
        Some(project) => match path_parent_text(project) {
            Some(session_dir) => path_parent_text(session_dir),
            None => None,
        },
        None => None,
    }
}

/// Get the storage root directory from a session file path.
/// Path: `storage/session/<project_id>/ses_*.json`; returns `storage/`.
pub fn get_storage_root(session_path: &str) -> (r: Option<String>)
    ensures
        option_text(r) == storage_root_text(session_path@),
{
    let project = path_parent(session_path)?;
    let session_dir = path_parent(project.as_str())?;
    path_parent(session_dir.as_str())
}

// ---------------------------------------------------------------------------
// Time

/// The instant `millis` when `chrono` can represent it, else `now`.
pub open spec fn millis_or(millis: i64, now: i64) -> i64 {
    if chrono_millis_in_range(millis) {
        millis
    } else {
        now
    }
}

/// The instant `millis`, or `now` when `chrono` cannot represent it.
pub fn millis_or_now(millis: i64, now: i64) -> (r: i64)
    ensures
        r == millis_or(millis, now),
{
    match utc_from_millis(millis) {
        Some(m) => m,
        None => now,
    }
}

/// The instant `millis` when `chrono` can represent it, else the clock's
/// reading `clock` (`None` when there is none).
pub open spec fn millis_or_clock(millis: i64, clock: Option<i64>) -> Option<i64> {
    if chrono_millis_in_range(millis) {
        Some(millis)
    } else {
        clock
    }
}

/// The instant `millis`, or the clock's reading `clock` when `chrono` cannot
/// represent it.
pub fn millis_or_clock_reading(millis: i64, clock: Option<i64>) -> (r: Option<i64>)
    ensures
        r == millis_or_clock(millis, clock),
{
    match utc_from_millis(millis) {
        Some(m) => Some(m),
        None => clock,
    }
}

/// Convert a milliseconds timestamp to an instant, falling back to the
/// current time when `chrono` cannot represent it; `None` when that fallback
/// is needed and the system clock gives no time `chrono` represents. A result
/// is always an instant `chrono` can represent, so an unrepresentable input is
/// never handed back.
pub fn millis_to_datetime(millis: i64) -> (r: Option<i64>)
    ensures
        chrono_millis_in_range(millis) ==> r == Some(millis),
        r matches Some(t) ==> chrono_millis_in_range(t),
        r != Some(millis) <== !chrono_millis_in_range(millis),
{
    match utc_from_millis(millis) {
        Some(m) => Some(m),
        None => current_millis(),
    }
}

// ---------------------------------------------------------------------------
// Roles

/// The role a role name stands for, if any.
pub open spec fn role_named(name: Seq<char>) -> Option<Role> {
    if name == "user"@ {
        Some(Role::User)
    } else if name == "assistant"@ {
        Some(Role::Assistant)
    } else {
        None
    }
}

/// The role a role name stands for, if any.
pub fn role_from_name(name: &str) -> (r: Option<Role>)
    ensures
        r == role_named(name@),
{
    if text_eq(name, "user") {
        Some(Role::User)
    } else if text_eq(name, "assistant") {
        Some(Role::Assistant)
    } else {
        None
    }
}

// ---------------------------------------------------------------------------
// File storage

/// The creation time a message is ordered by (0 when it has none).
pub open spec fn created_key(m: OpenCodeMessageRecord) -> i64 {
    match m.created {
        Some(c) => c,
        None => 0,
    }
}

impl StableOrder for OpenCodeMessageRecord {
    /// Messages are ordered by creation time.
    open spec fn comes_before(a: Self, b: Self) -> bool {
        created_key(a) < created_key(b)
    }

    fn goes_before(&self, other: &Self) -> (r: bool) {
        let a = match self.created {
            Some(c) => c,
            None => 0,
        };
        let b = match other.created {
            Some(c) => c,
            None => 0,
        };
        a < b
    }
}

impl StableOrder for OpenCodePartRecord {
    /// Parts are ordered by file name (their IDs sort in creation order).
    open spec fn comes_before(a: Self, b: Self) -> bool {
        text_before(a.file_name@, b.file_name@)
    }

    fn goes_before(&self, other: &Self) -> (r: bool) {
        text_less(self.file_name.as_str(), other.file_name.as_str())
    }
}

/// The parts of a message are read in file-name order, none lost or added.
pub proof fn lemma_parts_in_name_order(parts: Seq<OpenCodePartRecord>)
    ensures
        sorted_by(stable_sorted(parts, order_of::<OpenCodePartRecord>()), order_of::<OpenCodePartRecord>()),
        stable_sorted(parts, order_of::<OpenCodePartRecord>()).to_multiset() == parts.to_multiset(),
{
    lemma_part_order_strict_weak();
    lemma_stable_sorted(parts, order_of::<OpenCodePartRecord>());
}

proof fn lemma_part_order_strict_weak()
    ensures
        strict_weak_order(order_of::<OpenCodePartRecord>()),
{
    lemma_text_before_strict_weak_order();
    let names = |a: Seq<char>, b: Seq<char>| text_before(a, b);
    let before = order_of::<OpenCodePartRecord>();
    assert forall|a: OpenCodePartRecord, b: OpenCodePartRecord| #[trigger] before(a, b) implies !before(b, a) by {
        assert(names(a.file_name@, b.file_name@));
    }
    assert forall|a: OpenCodePartRecord, b: OpenCodePartRecord, c: OpenCodePartRecord|
        #![trigger before(a, b), before(b, c)]
        #![trigger before(a, b), before(a, c)]
        #![trigger before(b, c), before(a, c)]
        !before(a, b) && !before(b, c) implies !before(a, c) by {
        assert(!names(a.file_name@, b.file_name@) && !names(b.file_name@, c.file_name@));
        assert(!names(a.file_name@, c.file_name@));
    }
}

/// The messages of OpenCode's file storage are read in creation order
/// (missing times counting as 0), none lost or added.
pub proof fn lemma_messages_in_creation_order(messages: Seq<OpenCodeMessageRecord>)
    ensures
        sorted_by(stable_sorted(messages, order_of::<OpenCodeMessageRecord>()), order_of::<OpenCodeMessageRecord>()),
        stable_sorted(messages, order_of::<OpenCodeMessageRecord>()).to_multiset() == messages.to_multiset(),
{
    assert(strict_weak_order(order_of::<OpenCodeMessageRecord>()));
    lemma_stable_sorted(messages, order_of::<OpenCodeMessageRecord>());
}

/// Whether a part contributes text: a non-empty text of a `text` part.
pub open spec fn part_text(part: OpenCodePartRecord) -> Option<Seq<char>> {
    if part.part_type@ == "text"@ {
        match part.text {
            Some(t) => if t@.len() > 0 {
                Some(t@)
            } else {
                None
            },
            None => None,
        }
    } else {
        None
    }
}

/// The texts that the parts contribute, in order.
pub open spec fn part_texts(parts: Seq<OpenCodePartRecord>) -> Seq<Seq<char>>
    decreases parts.len(),
{
    if parts.len() == 0 {
        seq![]
    } else {
        let earlier = part_texts(parts.drop_last());
        match part_text(parts.last()) {
            Some(t) => earlier.push(t),
            None => earlier,
        }
    }
}

/// The content of a message: the texts of its parts ordered by file name,
/// joined by newlines.
pub open spec fn message_content(parts: Seq<OpenCodePartRecord>) -> Seq<char> {
    newline_joined(part_texts(stable_sorted(parts, order_of::<OpenCodePartRecord>())))
}

/// Read all text parts of a message and concatenate them.
pub fn read_message_parts(parts: Vec<OpenCodePartRecord>) -> (r: String)
    ensures
        r@ == message_content(parts@),
{
    let sorted = stable_sort(parts);
    let mut texts: Vec<String> = Vec::new();
    let mut i: usize = 0;
    while i < sorted.len()
        invariant
            0 <= i <= sorted.len(),
            texts_model(texts@) == part_texts(sorted@.take(i as int)),
        decreases sorted.len() - i,
    {
        let part = &sorted[i];
        assert(sorted@.take(i as int + 1).drop_last() =~= sorted@.take(i as int));
        if text_eq(part.part_type.as_str(), "text") {
            match &part.text {
                Some(t) => {
                    if !t.as_str().is_empty() {
                        texts.push(t.clone());
                    }
                },
                None => {},
            }
        }
        assert(texts_model(texts@) =~= part_texts(sorted@.take(i as int + 1)));
        i += 1;
    }
    assert(sorted@.take(i as int) =~= sorted@);
    join_with_newline(&texts)
}

/// The timestamp of a message: its creation time, or `now` when it has none
/// or `chrono` cannot represent it.
pub open spec fn message_time(m: OpenCodeMessageRecord, now: i64) -> i64 {
    match m.created {
        Some(c) => millis_or(c, now),
        None => now,
    }
}

/// What reading the messages in order has gathered: the messages kept, the
/// latest timestamp seen and the working directory found.
pub struct LegacyScan {
    pub messages: Seq<MessageModel>,
    pub latest: Option<i64>,
    pub cwd: Option<Seq<char>>,
}

/// Reads the messages in order, starting from the working directory `cwd`.
pub open spec fn legacy_scan(ms: Seq<OpenCodeMessageRecord>, cwd: Option<Seq<char>>, now: i64) -> LegacyScan
    decreases ms.len(),
{
    if ms.len() == 0 {
        LegacyScan { messages: seq![], latest: None, cwd }
    } else {
        let prev = legacy_scan(ms.drop_last(), cwd, now);
        let m = ms.last();
        let ts = message_time(m, now);
        let latest = match prev.latest {
            Some(l) => if ts > l {
                Some(ts)
            } else {
                Some(l)
            },
            None => Some(ts),
        };
        let found_cwd = match prev.cwd {
            Some(c) => Some(c),
            None => option_text(m.path_cwd),
        };
        let content = message_content(m.parts@);
        let messages = match role_named(m.role@) {
            Some(role) => if content.len() > 0 {
                prev.messages.push(MessageModel { role, content, timestamp: ts })
            } else {
                prev.messages
            },
            None => prev.messages,
        };
        LegacyScan { messages, latest, cwd: found_cwd }
    }
}

/// Whether a creation time is known: present, and one `chrono` represents.
pub open spec fn time_known(created: Option<i64>) -> bool {
    created matches Some(c) && chrono_millis_in_range(c)
}

/// Whether reading OpenCode's file storage takes the current time: some
/// message lacks a known creation time, or there is no message and the
/// session's own creation time is not known.
pub open spec fn legacy_needs_clock(files: LegacySessionFiles) -> bool {
    ||| exists|i: int| 0 <= i < files.messages@.len() && !time_known(#[trigger] files.messages@[i].created)
    ||| files.messages@.len() == 0 && !time_known(files.session.created)
}

/// The session that OpenCode's file storage holds at `path`, given the
/// system clock's reading `clock` (`None` when there is none). The clock is
/// consulted only when [`legacy_needs_clock`] holds; then, without a reading,
/// the result is [`ParseError::ClockUnavailable`]. (Where it is not consulted,
/// the time passed on below is never used.)
pub open spec fn legacy_session(path: Seq<char>, files: LegacySessionFiles, clock: Option<i64>) -> Result<SessionModel, ParseError> {
    match clock {
        Some(now) => legacy_session_at(path, files, now),
        None => if files.session.parent_id is None && storage_root_text(path) is Some
            && legacy_needs_clock(files) {
            Err(ParseError::ClockUnavailable)
        } else {
            legacy_session_at(path, files, 0)
        },
    }
}

/// The session that OpenCode's file storage holds at `path`, with `now`
/// standing for the current time.
pub open spec fn legacy_session_at(path: Seq<char>, files: LegacySessionFiles, now: i64) -> Result<SessionModel, ParseError> {
    if files.session.parent_id is Some {
        Err(ParseError::ChildSession)
    } else if storage_root_text(path) is None {
        Err(ParseError::NoStorageRoot)
    } else {
        let scan = legacy_scan(
            stable_sorted(files.messages@, order_of::<OpenCodeMessageRecord>()),
            option_text(files.session.directory),
            now,
        );
        Ok(SessionModel {
            id: files.session.id@,
            source: SessionSource::OpenCode,
            file_path: path,
            cwd: match scan.cwd {
                Some(c) => c,
                None => "."@,
            },
            git_branch: None,
            timestamp: match scan.latest {
                Some(l) => l,
                None => match files.session.created {
                    Some(c) => millis_or(c, now),
                    None => now,
                },
            },
            messages: joined_messages(scan.messages),
        })
    }
}

impl OpenCodeParser {
    /// Whether reading these files takes the current time (see
    /// [`legacy_needs_clock`]).
    pub fn files_need_clock(files: &LegacySessionFiles) -> (r: bool)
        ensures
            r == legacy_needs_clock(*files),
    {
        let mut i: usize = 0;
        while i < files.messages.len()
            invariant
                0 <= i <= files.messages.len(),
                forall|k: int| 0 <= k < i ==> time_known(#[trigger] files.messages@[k].created),
            decreases files.messages.len() - i,
        {
            if !Self::created_time_known(&files.messages[i].created) {
                return true;
            }
            i += 1;
        }
        files.messages.len() == 0 && !Self::created_time_known(&files.session.created)
    }

    /// Whether a creation time is present and one `chrono` represents.
    fn created_time_known(created: &Option<i64>) -> (r: bool)
        ensures
            r == time_known(*created),
    {
        match created {
            Some(c) => utc_from_millis(*c).is_some(),
            None => false,
        }
    }

    /// Builds the session that OpenCode's file storage holds at `path`, given
    /// the system clock's reading `clock` (`None` when there is none).
    pub fn session_from_files(path: &str, files: LegacySessionFiles, clock: Option<i64>) -> (r: Result<Session, ParseError>)
        ensures
            session_result(r) == legacy_session(path@, files, clock),
    {
        let ghost files_in = files;
        if files.session.parent_id.is_some() {
            return Err(ParseError::ChildSession);
        }
        if get_storage_root(path).is_none() {
            return Err(ParseError::NoStorageRoot);
        }
        let now = match clock {
            Some(n) => n,
            None => {
                if Self::files_need_clock(&files) {
                    return Err(ParseError::ClockUnavailable);
                }
                0
            },
        };
        assert(legacy_session(path@, files_in, clock) == legacy_session_at(path@, files_in, now));
        let LegacySessionFiles { session, messages } = files;
        let sorted = stable_sort(messages);
        let ghost order = sorted@;
        let mut kept: Vec<Message> = Vec::new();
        let mut latest: Option<i64> = None;
        let mut cwd: Option<String> = session.directory;
        let mut remaining = sorted;
        let mut pending: Vec<OpenCodeMessageRecord> = Vec::new();
        while remaining.len() > 0
            invariant
                remaining@ + pending@.reverse() == order,
            decreases remaining.len(),
        {
            let m = remaining.pop().unwrap();
            let ghost p0 = pending@;
            pending.push(m);
            assert(pending@.reverse() =~= seq![m] + p0.reverse());
        }
        assert(pending@.reverse() =~= order);
        let n = pending.len();
        let mut done: usize = 0;
        while pending.len() > 0
            invariant
                done + pending.len() == n,
                n == order.len(),
                order.take(done as int) + pending@.reverse() == order,
                ({
                    let scan = legacy_scan(order.take(done as int), option_text(files_in.session.directory), now);
                    &&& messages_model(kept@) == scan.messages
                    &&& latest == scan.latest
                    &&& option_text(cwd) == scan.cwd
                }),
            decreases pending.len(),
        {
            let ghost p0 = pending@;
            let m = pending.pop().unwrap();
            assert(p0.reverse() =~= seq![m] + pending@.reverse());
            assert(order[done as int] == m) by {
                assert((order.take(done as int) + p0.reverse())[done as int] == m);
            }
            assert(order.take(done as int + 1).drop_last() =~= order.take(done as int));
            let OpenCodeMessageRecord { id: _, role, created, path_cwd, parts } = m;
            let timestamp = match created {
                Some(c) => millis_or_now(c, now),
                None => now,
            };
            latest = match latest {
                Some(l) => if timestamp > l {
                    Some(timestamp)
                } else {
                    Some(l)
                },
                None => Some(timestamp),
            };
            if cwd.is_none() {
                cwd = path_cwd;
            }
            let content = read_message_parts(parts);
            match role_from_name(role.as_str()) {
                Some(r) => {
                    if !content.as_str().is_empty() {
                        kept.push(Message { role: r, content, timestamp });
                    }
                },
                None => {},
            }
            assert(messages_model(kept@) =~= legacy_scan(order.take(done as int + 1), option_text(files_in.session.directory), now).messages);
            done += 1;
            assert(order.take(done as int) + pending@.reverse() =~= order);
        }
        assert(order.take(done as int) =~= order);
        let cwd_text = match cwd {
            Some(c) => c,
            None => String::from_str("."),
        };
        let timestamp = match latest {
            Some(l) => l,
            None => match session.created {
                Some(c) => millis_or_now(c, now),
                None => now,
            },
        };
        Ok(Session {
            id: session.id,
            source: SessionSource::OpenCode,
            file_path: String::from_str(path),
            cwd: cwd_text,
            git_branch: None,
            timestamp,
            messages: join_consecutive_messages(kept),
        })
    }
}

// ---------------------------------------------------------------------------
// Database

/// The JSON keys of a message's role.
pub open spec fn role_keys() -> Seq<Seq<char>> {
    seq!["role"@]
}

/// The JSON keys of a message's working directory.
pub open spec fn cwd_keys() -> Seq<Seq<char>> {
    seq!["path"@, "cwd"@]
}

/// The JSON keys of a part's type.
pub open spec fn type_keys() -> Seq<Seq<char>> {
    seq!["type"@]
}

/// The JSON keys of a part's text.
pub open spec fn text_keys() -> Seq<Seq<char>> {
    seq!["text"@]
}

/// The string found at the keys of the JSON text; `None` also when the text
/// is not JSON.
pub open spec fn found_text(data: Seq<char>, keys: Seq<Seq<char>>) -> Option<Seq<char>> {
    match json_text_at(data, keys) {
        Ok(found) => found,
        Err(_) => None,
    }
}

/// The text a part row contributes, given its `type` and `text` values: the
/// non-empty text of a `text` part.
pub open spec fn part_row_text(kind: Option<Seq<char>>, text: Option<Seq<char>>) -> Option<Seq<char>> {
    if kind == Some("text"@) {
        match text {
            Some(t) => if t.len() > 0 {
                Some(t)
            } else {
                None
            },
            None => None,
        }
    } else {
        None
    }
}

/// The working directory after a kept message whose `path.cwd` value is
/// `found`: the one found so far, or `found` while none was.
pub open spec fn next_cwd(cwd: Seq<char>, found: Option<Seq<char>>) -> Seq<char> {
    if cwd.len() == 0 {
        match found {
            Some(f) => f,
            None => cwd,
        }
    } else {
        cwd
    }
}

/// The message a row of the given role makes from the texts of its parts and
/// its creation time: none without texts; `clock` stands in for a time
/// `chrono` cannot represent.
pub open spec fn row_message(role: Role, texts: Seq<Seq<char>>, time_created: i64, clock: Option<i64>) -> Result<Option<MessageModel>, ParseError> {
    if texts.len() > 0 {
        match millis_or_clock(time_created, clock) {
            Some(timestamp) => Ok(Some(MessageModel { role, content: newline_joined(texts), timestamp })),
            None => Err(ParseError::ClockUnavailable),
        }
    } else {
        Ok(None)
    }
}

/// A built message's model, or the error that stopped building it.
pub open spec fn message_result(r: Result<Option<Message>, ParseError>) -> Result<Option<MessageModel>, ParseError> {
    match r {
        Ok(Some(m)) => Ok(Some(m@)),
        Ok(None) => Ok(None),
        Err(e) => Err(e),
    }
}

/// The texts that the part rows contribute, in order: the non-empty `text` of
/// each `text` part. `Err` when a part's data is not JSON.
pub open spec fn database_part_texts(parts: Seq<String>) -> Result<Seq<Seq<char>>, ()>
    decreases parts.len(),
{
    if parts.len() == 0 {
        Ok(seq![])
    } else {
        match database_part_texts(parts.drop_last()) {
            Err(e) => Err(e),
            Ok(earlier) => {
                let data = parts.last()@;
                match json_text_at(data, type_keys()) {
                    Err(e) => Err(e),
                    Ok(kind) => match part_row_text(kind, found_text(data, text_keys())) {
                        Some(t) => Ok(earlier.push(t)),
                        None => Ok(earlier),
                    },
                }
            },
        }
    }
}

/// What reading the message rows in order has gathered: the messages kept and
/// the working directory found; or the error that stopped it. `clock` is the
/// system clock's reading, consulted for a kept message whose creation time
/// `chrono` cannot represent (`None` when there is none).
pub open spec fn database_scan(ms: Seq<DatabaseMessageRow>, directory: Seq<char>, clock: Option<i64>) -> Result<(Seq<MessageModel>, Seq<char>), ParseError>
    decreases ms.len(),
{
    if ms.len() == 0 {
        Ok((seq![], directory))
    } else {
        match database_scan(ms.drop_last(), directory, clock) {
            Err(e) => Err(e),
            Ok((kept, cwd)) => {
                let m = ms.last();
                match json_text_at(m.data@, role_keys()) {
                    Err(_) => Err(ParseError::InvalidMessageJson(m.id)),
                    Ok(role_name) => {
                        let role = match role_name {
                            Some(name) => role_named(name),
                            None => None,
                        };
                        match role {
                            None => Ok((kept, cwd)),
                            Some(role) => {
                                let cwd = next_cwd(cwd, found_text(m.data@, cwd_keys()));
                                match database_part_texts(m.parts@) {
                                    Err(_) => Err(ParseError::InvalidPartJson(m.id)),
                                    Ok(texts) => match row_message(role, texts, m.time_created, clock) {
                                        Err(e) => Err(e),
                                        Ok(Some(message)) => Ok((kept.push(message), cwd)),
                                        Ok(None) => Ok((kept, cwd)),
                                    },
                                }
                            },
                        }
                    },
                }
            },
        }
    }
}

/// The time of the session's newest change: the later of its creation and
/// update times.
pub open spec fn newest_change(session: DatabaseSessionRow) -> i64 {
    if session.time_updated > session.time_created {
        session.time_updated
    } else {
        session.time_created
    }
}

/// The session `session_id` that the OpenCode database at `database` holds,
/// given the system clock's reading `clock` (`None` when there is none).
pub open spec fn database_session(database: Seq<char>, session_id: Seq<char>, rows: DatabaseSession, clock: Option<i64>) -> Result<SessionModel, ParseError> {
    match database_scan(rows.messages@, rows.session.directory@, clock) {
        Err(e) => Err(e),
        Ok((kept, cwd)) => match millis_or_clock(newest_change(rows.session), clock) {
            None => Err(ParseError::ClockUnavailable),
            Some(timestamp) => Ok(
                SessionModel {
                    id: session_id,
                    source: SessionSource::OpenCode,
                    file_path: database,
                    cwd: if cwd.len() == 0 {
                        "."@
                    } else {
                        cwd
                    },
                    git_branch: None,
                    timestamp,
                    messages: joined_messages(kept),
                },
            ),
        },
    }
}

fn database_part_texts_of(parts: &Vec<String>) -> (r: Result<Vec<String>, ()>)
    ensures
        match r {
            Ok(texts) => database_part_texts(parts@) == Ok::<Seq<Seq<char>>, ()>(texts_model(texts@)),
            Err(_) => database_part_texts(parts@) is Err,
        },
{
    let mut texts: Vec<String> = Vec::new();
    let mut i: usize = 0;
    assert(parts@.take(0) =~= Seq::<String>::empty());
    assert(texts_model(texts@) =~= Seq::<Seq<char>>::empty());
    while i < parts.len()
        invariant
            0 <= i <= parts.len(),
            database_part_texts(parts@.take(i as int)) == Ok::<Seq<Seq<char>>, ()>(texts_model(texts@)),
        decreases parts.len() - i,
    {
        let data = parts[i].as_str();
        assert(parts@.take(i as int + 1).drop_last() =~= parts@.take(i as int));
        assert(parts@.take(i as int + 1).last() == parts@[i as int]);
        let type_key: &[&str] = &["type"];
        assert(type_key@.map_values(|k: &str| k@) =~= type_keys());
        let kind = json_string_at(data, type_key);
        match kind {
            Err(_) => {
                proof {
                    lemma_database_part_texts_err_extends(parts@, i as int + 1);
                }
                return Err(());
            },
            Ok(kind) => {
                let is_text = match &kind {
                    Some(k) => text_eq(k.as_str(), "text"),
                    None => false,
                };
                let text = if is_text {
                    let text_key: &[&str] = &["text"];
                    assert(text_key@.map_values(|k: &str| k@) =~= text_keys());
                    match json_string_at(data, text_key) {
                        Ok(found) => found,
                        Err(_) => None,
                    }
                } else {
                    None
                };
                match OpenCodeParser::database_part_text(&kind, text) {
                    Some(t) => {
                        let ghost before = texts_model(texts@);
                        texts.push(t);
                        assert(texts_model(texts@) =~= before.push(t@));
                    },
                    None => {},
                }
            },
        }
        assert(database_part_texts(parts@.take(i as int + 1)) == Ok::<Seq<Seq<char>>, ()>(texts_model(texts@)));
        i += 1;
    }
    assert(parts@.take(i as int) =~= parts@);
    Ok(texts)
}

proof fn lemma_database_part_texts_err_extends(parts: Seq<String>, k: int)
    requires
        0 <= k <= parts.len(),
        database_part_texts(parts.take(k)) is Err,
    ensures
        database_part_texts(parts) is Err,
    decreases parts.len() - k,
{
    if k < parts.len() {
        assert(parts.take(k + 1).drop_last() =~= parts.take(k));
        lemma_database_part_texts_err_extends(parts, k + 1);
    } else {
        assert(parts.take(k) =~= parts);
    }
}

proof fn lemma_database_scan_err_extends(ms: Seq<DatabaseMessageRow>, k: int, directory: Seq<char>, now: Option<i64>)
    requires
        0 <= k <= ms.len(),
        database_scan(ms.take(k), directory, now) is Err,
    ensures
        database_scan(ms, directory, now) == database_scan(ms.take(k), directory, now),
    decreases ms.len() - k,
{
    if k < ms.len() {
        assert(ms.take(k + 1).drop_last() =~= ms.take(k));
        lemma_database_scan_err_extends(ms, k + 1, directory, now);
    } else {
        assert(ms.take(k) =~= ms);
    }
}

impl OpenCodeParser {
    /// The text a part row contributes, given its `type` value and its `text`
    /// value (what the JSON of its data holds at those keys).
    pub fn database_part_text(kind: &Option<String>, text: Option<String>) -> (r: Option<String>)
        ensures
            option_text(r) == part_row_text(option_text(*kind), option_text(text)),
    {
        let is_text = match kind {
            Some(k) => text_eq(k.as_str(), "text"),
            None => false,
        };
        if !is_text {
            return None;
        }
        match text {
            Some(t) => if t.as_str().is_empty() {
                None
            } else {
                Some(t)
            },
            None => None,
        }
    }

    /// The working directory after a kept message whose `path.cwd` value is
    /// `found`.
    pub fn cwd_after_message(cwd: String, found: Option<String>) -> (r: String)
        ensures
            r@ == next_cwd(cwd@, option_text(found)),
    {
        if cwd.as_str().is_empty() {
            match found {
                Some(f) => f,
                None => cwd,
            }
        } else {
            cwd
        }
    }

    /// The message a row of role `role` makes from the texts of its parts and
    /// its creation time, given the system clock's reading `clock`.
    pub fn database_message(role: Role, texts: &Vec<String>, time_created: i64, clock: Option<i64>) -> (r: Result<Option<Message>, ParseError>)
        ensures
            message_result(r) == row_message(role, texts_model(texts@), time_created, clock),
    {
        if texts.len() == 0 {
            return Ok(None);
        }
        let content = join_with_newline(texts);
        match millis_or_clock_reading(time_created, clock) {
            Some(timestamp) => Ok(Some(Message { role, content, timestamp })),
            None => Err(ParseError::ClockUnavailable),
        }
    }

    /// Builds session `session_id` from the rows of the OpenCode database at
    /// `database`, given the system clock's reading `clock` (`None` when there
    /// is none).
    pub fn session_from_rows(database: &str, session_id: &str, rows: &DatabaseSession, clock: Option<i64>) -> (r: Result<Session, ParseError>)
        ensures
            session_result(r) == database_session(database@, session_id@, *rows, clock),
    {
        let ghost rows_in = *rows;
        let session = &rows.session;
        let messages = &rows.messages;
        let mut kept: Vec<Message> = Vec::new();
        let mut cwd: String = session.directory.clone();
        let mut i: usize = 0;
        assert(messages@.take(0) =~= Seq::<DatabaseMessageRow>::empty());
        assert(messages_model(kept@) =~= Seq::<MessageModel>::empty());
        while i < messages.len()
            invariant
                0 <= i <= messages.len(),
                messages@ == rows_in.messages@,
                session == rows_in.session,
                rows_in == *rows,
                database_scan(messages@.take(i as int), session.directory@, clock) == Ok::<(Seq<MessageModel>, Seq<char>), ParseError>((messages_model(kept@), cwd@)),
            decreases messages.len() - i,
        {
            let m = &messages[i];
            assert(messages@.take(i as int + 1).drop_last() =~= messages@.take(i as int));
            assert(messages@.take(i as int + 1).last() == messages@[i as int]);
            let role_key: &[&str] = &["role"];
            assert(role_key@.map_values(|k: &str| k@) =~= role_keys());
            let role_name = json_string_at(m.data.as_str(), role_key);
            let role = match role_name {
                Err(_) => {
                    proof {
                        lemma_database_scan_err_extends(messages@, i as int + 1, session.directory@, clock);
                    }
                    return Err(ParseError::InvalidMessageJson(m.id.clone()));
                },
                Ok(Some(name)) => role_from_name(name.as_str()),
                Ok(None) => None,
            };
            match role {
                None => {},
                Some(role) => {
                    let found = if cwd.as_str().is_empty() {
                        let cwd_key: &[&str] = &["path", "cwd"];
                        assert(cwd_key@.map_values(|k: &str| k@) =~= cwd_keys());
                        match json_string_at(m.data.as_str(), cwd_key) {
                            Ok(found) => found,
                            Err(_) => None,
                        }
                    } else {
                        None
                    };
                    cwd = Self::cwd_after_message(cwd, found);
                    match database_part_texts_of(&m.parts) {
                        Err(_) => {
                            proof {
                                lemma_database_scan_err_extends(messages@, i as int + 1, session.directory@, clock);
                            }
                            return Err(ParseError::InvalidPartJson(m.id.clone()));
                        },
                        Ok(texts) => {
                            match Self::database_message(role, &texts, m.time_created, clock) {
                                Ok(Some(msg)) => {
                                    let ghost before = messages_model(kept@);
                                    kept.push(msg);
                                    assert(messages_model(kept@) =~= before.push(msg@));
                                },
                                Ok(None) => {},
                                Err(e) => {
                                    proof {
                                        lemma_database_scan_err_extends(messages@, i as int + 1, session.directory@, clock);
                                    }
                                    return Err(e);
                                },
                            }
                        },
                    }
                },
            }
            assert(database_scan(messages@.take(i as int + 1), session.directory@, clock) == Ok::<(Seq<MessageModel>, Seq<char>), ParseError>((messages_model(kept@), cwd@)));
            i += 1;
        }
        assert(messages@.take(i as int) =~= messages@);
        let newest = if session.time_updated > session.time_created {
            session.time_updated
        } else {
            session.time_created
        };
        let cwd_text = if cwd.as_str().is_empty() {
            String::from_str(".")
        } else {
            cwd
        };
        let timestamp = match millis_or_clock_reading(newest, clock) {
            Some(t) => t,
            None => return Err(ParseError::ClockUnavailable),
        };
        Ok(Session {
            id: String::from_str(session_id),
            source: SessionSource::OpenCode,
            file_path: String::from_str(database),
            cwd: cwd_text,
            git_branch: None,
            timestamp,
            messages: join_consecutive_messages(kept),
        })
    }
}

/// In every session read from OpenCode, neighbouring messages have different roles.
pub proof fn lemma_opencode_sessions_alternate(
    path: Seq<char>,
    files: LegacySessionFiles,
    database: Seq<char>,
    session_id: Seq<char>,
    rows: DatabaseSession,
    clock: Option<i64>,
)
    ensures
        legacy_session(path, files, clock) matches Ok(s) ==> roles_alternate(s.messages),
        database_session(database, session_id, rows, clock) matches Ok(s) ==> roles_alternate(s.messages),
{
    let now = match clock {
        Some(n) => n,
        None => 0,
    };
    let scan = legacy_scan(
        stable_sorted(files.messages@, order_of::<OpenCodeMessageRecord>()),
        option_text(files.session.directory),
        now,
    );
    lemma_joined_roles_alternate(scan.messages);
    if let Ok((kept, _)) = database_scan(rows.messages@, rows.session.directory@, clock) {
        lemma_joined_roles_alternate(kept);
    }
}

// ---------------------------------------------------------------------------
// What the stored files contribute

/// Keeps the parts whose type is exactly `text`.
pub open spec fn text_kind_parts() -> spec_fn(OpenCodePartRecord) -> bool {
    |p: OpenCodePartRecord| p.part_type@ == "text"@
}

/// Whether a stored message has a part of type `text` with a non-empty text.
pub open spec fn message_has_text(m: OpenCodeMessageRecord) -> bool {
    exists|k: int|
        0 <= k < m.parts@.len() && (#[trigger] m.parts@[k]).part_type@ == "text"@ && (m.parts@[k].text matches Some(
            t,
        ) && t@.len() > 0)
}

/// Keeps the stored messages that have a non-empty text part.
pub open spec fn messages_with_text() -> spec_fn(OpenCodeMessageRecord) -> bool {
    |m: OpenCodeMessageRecord| message_has_text(m)
}

proof fn lemma_part_texts_of_text_kind(q: Seq<OpenCodePartRecord>)
    ensures
        part_texts(kept_by(q, text_kind_parts())) == part_texts(q),
    decreases q.len(),
{
    if q.len() > 0 {
        let rest = q.drop_last();
        lemma_part_texts_of_text_kind(rest);
        let k = kept_by(q, text_kind_parts());
        if q.last().part_type@ == "text"@ {
            assert(k.drop_last() =~= kept_by(rest, text_kind_parts()));
            assert(k.last() == q.last());
        } else {
            assert(k == kept_by(rest, text_kind_parts()));
        }
    }
}

proof fn lemma_part_texts_none(q: Seq<OpenCodePartRecord>)
    requires
        forall|i: int| 0 <= i < q.len() ==> part_text(#[trigger] q[i]) is None,
    ensures
        part_texts(q) == Seq::<Seq<char>>::empty(),
    decreases q.len(),
{
    if q.len() > 0 {
        let rest = q.drop_last();
        assert forall|i: int| 0 <= i < rest.len() implies part_text(#[trigger] rest[i]) is None by {
            assert(rest[i] == q[i]);
        }
        lemma_part_texts_none(rest);
        assert(part_text(q[q.len() - 1]) is None);
    }
}

proof fn lemma_textless_message_content(m: OpenCodeMessageRecord)
    requires
        !message_has_text(m),
    ensures
        message_content(m.parts@) == Seq::<char>::empty(),
{
    let parts = m.parts@;
    let order = order_of::<OpenCodePartRecord>();
    let sorted = stable_sorted(parts, order);
    lemma_part_order_strict_weak();
    lemma_stable_sorted(parts, order);
    sorted.to_multiset_ensures();
    parts.to_multiset_ensures();
    assert forall|i: int| 0 <= i < sorted.len() implies part_text(#[trigger] sorted[i]) is None by {
        let e = sorted[i];
        assert(sorted.contains(e));
        assert(parts.to_multiset().count(e) > 0);
        assert(parts.contains(e));
        let j = choose|j: int| 0 <= j < parts.len() && parts[j] == e;
        assert(!(parts[j].part_type@ == "text"@ && (parts[j].text matches Some(t) && t@.len() > 0)));
    }
    lemma_part_texts_none(sorted);
}

proof fn lemma_scan_without_textless_messages(q: Seq<OpenCodeMessageRecord>, cwd: Option<Seq<char>>, other_cwd: Option<Seq<char>>, now: i64)
    ensures
        legacy_scan(kept_by(q, messages_with_text()), other_cwd, now).messages == legacy_scan(q, cwd, now).messages,
    decreases q.len(),
{
    if q.len() > 0 {
        let rest = q.drop_last();
        let m = q.last();
        lemma_scan_without_textless_messages(rest, cwd, other_cwd, now);
        let k = kept_by(q, messages_with_text());
        if message_has_text(m) {
            assert(k.drop_last() =~= kept_by(rest, messages_with_text()));
            assert(k.last() == m);
        } else {
            assert(k == kept_by(rest, messages_with_text()));
            lemma_textless_message_content(m);
        }
    }
}

proof fn lemma_scan_messages_nonempty(q: Seq<OpenCodeMessageRecord>, cwd: Option<Seq<char>>, now: i64)
    ensures
        contents_nonempty(legacy_scan(q, cwd, now).messages),
    decreases q.len(),
{
    if q.len() > 0 {
        lemma_scan_messages_nonempty(q.drop_last(), cwd, now);
    }
}

/// A stored message's content comes only from its parts whose type is
/// exactly `text`: leaving out every part of another kind (reasoning, tool,
/// step parts) gives the same content.
pub proof fn lemma_stored_content_from_text_parts(parts: Seq<OpenCodePartRecord>)
    ensures
        message_content(kept_by(parts, text_kind_parts())) == message_content(parts),
{
    let order = order_of::<OpenCodePartRecord>();
    lemma_part_order_strict_weak();
    lemma_sort_then_keep(parts, order, text_kind_parts());
    lemma_part_texts_of_text_kind(stable_sorted(parts, order));
}

/// Every message of a session parsed from OpenCode's file storage has content.
pub proof fn lemma_stored_messages_have_content(path: Seq<char>, files: LegacySessionFiles, clock: Option<i64>)
    ensures
        legacy_session(path, files, clock) matches Ok(s) ==> contents_nonempty(s.messages),
{
    let now = match clock {
        Some(n) => n,
        None => 0,
    };
    let sorted = stable_sorted(files.messages@, order_of::<OpenCodeMessageRecord>());
    lemma_scan_messages_nonempty(sorted, option_text(files.session.directory), now);
    lemma_joined_contents_nonempty(legacy_scan(sorted, option_text(files.session.directory), now).messages);
}

/// A stored message without a non-empty `text` part adds no message: leaving
/// out every such message gives the same messages, or the same error.
pub proof fn lemma_stored_textless_messages_add_nothing(
    path: Seq<char>,
    files: LegacySessionFiles,
    fewer: LegacySessionFiles,
    now: i64,
)
    requires
        fewer.session == files.session,
        fewer.messages@ == kept_by(files.messages@, messages_with_text()),
    ensures
        match legacy_session_at(path, files, now) {
            Err(e) => legacy_session_at(path, fewer, now) == Err::<SessionModel, ParseError>(e),
            Ok(s) => legacy_session_at(path, fewer, now) matches Ok(t) && t.messages == s.messages,
        },
{
    let order = order_of::<OpenCodeMessageRecord>();
    assert(strict_weak_order(order));
    lemma_sort_then_keep(files.messages@, order, messages_with_text());
    let cwd = option_text(files.session.directory);
    lemma_scan_without_textless_messages(stable_sorted(files.messages@, order), cwd, cwd, now);
}

// ---------------------------------------------------------------------------
// What the database rows contribute

/// Whether a part's data is JSON whose `type` is missing or other than `text`
/// (a reasoning, tool or step part, say).
pub open spec fn other_kind_part(data: String) -> bool {
    json_text_at(data@, type_keys()) matches Ok(kind) && kind != Some("text"@)
}

/// Keeps the parts that are not of another kind than `text`.
pub open spec fn not_other_kind() -> spec_fn(String) -> bool {
    |data: String| !other_kind_part(data)
}

/// Whether a part's data is JSON that contributes no text: it is not a
/// `text` part, or its `text` is missing or empty.
pub open spec fn part_adds_no_text(data: String) -> bool {
    json_text_at(data@, type_keys()) matches Ok(kind) && (kind != Some("text"@) || match found_text(
        data@,
        text_keys(),
    ) {
        Some(t) => t.len() == 0,
        None => true,
    })
}

/// Whether a message row is JSON that contributes no message: its data is
/// JSON and each of its parts adds no text.
pub open spec fn textless_row(m: DatabaseMessageRow) -> bool {
    &&& json_text_at(m.data@, role_keys()) is Ok
    &&& forall|k: int| 0 <= k < m.parts@.len() ==> part_adds_no_text(#[trigger] m.parts@[k])
}

/// Keeps the message rows that are not textless.
pub open spec fn rows_with_text() -> spec_fn(DatabaseMessageRow) -> bool {
    |m: DatabaseMessageRow| !textless_row(m)
}

/// Whether two scans stopped with the same error, or kept the same messages
/// (whatever working directory they found).
pub open spec fn same_kept(x: Result<(Seq<MessageModel>, Seq<char>), ParseError>, y: Result<(Seq<MessageModel>, Seq<char>), ParseError>) -> bool {
    match x {
        Err(a) => y == Err::<(Seq<MessageModel>, Seq<char>), ParseError>(a),
        Ok((kept, _)) => y matches Ok((other, _)) && other == kept,
    }
}

proof fn lemma_other_parts_add_no_text(parts: Seq<String>)
    ensures
        database_part_texts(kept_by(parts, not_other_kind())) == database_part_texts(parts),
    decreases parts.len(),
{
    if parts.len() > 0 {
        let rest = parts.drop_last();
        lemma_other_parts_add_no_text(rest);
        let k = kept_by(parts, not_other_kind());
        if !other_kind_part(parts.last()) {
            assert(k.drop_last() =~= kept_by(rest, not_other_kind()));
            assert(k.last() == parts.last());
        } else {
            assert(k == kept_by(rest, not_other_kind()));
        }
    }
}

proof fn lemma_textless_parts(parts: Seq<String>)
    requires
        forall|k: int| 0 <= k < parts.len() ==> part_adds_no_text(#[trigger] parts[k]),
    ensures
        database_part_texts(parts) == Ok::<Seq<Seq<char>>, ()>(seq![]),
    decreases parts.len(),
{
    if parts.len() > 0 {
        let rest = parts.drop_last();
        assert forall|k: int| 0 <= k < rest.len() implies part_adds_no_text(#[trigger] rest[k]) by {
            assert(rest[k] == parts[k]);
        }
        lemma_textless_parts(rest);
        assert(part_adds_no_text(parts[parts.len() - 1]));
    }
}

proof fn lemma_part_texts_nonempty(parts: Seq<String>)
    ensures
        database_part_texts(parts) matches Ok(texts) ==> forall|i: int| 0 <= i < texts.len() ==> #[trigger] texts[i].len() > 0,
    decreases parts.len(),
{
    if parts.len() > 0 {
        lemma_part_texts_nonempty(parts.drop_last());
    }
}

proof fn lemma_scan_same_rows(a: Seq<DatabaseMessageRow>, b: Seq<DatabaseMessageRow>, directory: Seq<char>, clock: Option<i64>)
    requires
        a.len() == b.len(),
        forall|i: int| 0 <= i < a.len() ==> (#[trigger] a[i]).id == b[i].id && a[i].data == b[i].data
            && a[i].time_created == b[i].time_created && database_part_texts(a[i].parts@)
            == database_part_texts(b[i].parts@),
    ensures
        database_scan(a, directory, clock) == database_scan(b, directory, clock),
    decreases a.len(),
{
    if a.len() > 0 {
        let (ra, rb) = (a.drop_last(), b.drop_last());
        assert forall|i: int| 0 <= i < ra.len() implies (#[trigger] ra[i]).id == rb[i].id && ra[i].data == rb[i].data
            && ra[i].time_created == rb[i].time_created && database_part_texts(ra[i].parts@)
            == database_part_texts(rb[i].parts@) by {
            assert(ra[i] == a[i] && rb[i] == b[i]);
        }
        lemma_scan_same_rows(ra, rb, directory, clock);
        assert(a[a.len() - 1].id == b[b.len() - 1].id);
    }
}

proof fn lemma_scan_kept_nonempty(ms: Seq<DatabaseMessageRow>, directory: Seq<char>, clock: Option<i64>)
    ensures
        database_scan(ms, directory, clock) matches Ok((kept, _)) ==> contents_nonempty(kept),
    decreases ms.len(),
{
    if ms.len() > 0 {
        lemma_scan_kept_nonempty(ms.drop_last(), directory, clock);
        let m = ms.last();
        lemma_part_texts_nonempty(m.parts@);
        if let Ok(texts) = database_part_texts(m.parts@) {
            if texts.len() > 0 {
                lemma_newline_joined_nonempty(texts);
            }
        }
    }
}

proof fn lemma_scan_without_textless_rows(ms: Seq<DatabaseMessageRow>, directory: Seq<char>, clock: Option<i64>)
    ensures
        same_kept(database_scan(ms, directory, clock), database_scan(kept_by(ms, rows_with_text()), directory, clock)),
    decreases ms.len(),
{
    if ms.len() > 0 {
        let rest = ms.drop_last();
        let m = ms.last();
        lemma_scan_without_textless_rows(rest, directory, clock);
        let k = kept_by(ms, rows_with_text());
        if textless_row(m) {
            assert(k == kept_by(rest, rows_with_text()));
            lemma_textless_parts(m.parts@);
        } else {
            assert(k.drop_last() =~= kept_by(rest, rows_with_text()));
            assert(k.last() == m);
        }
    }
}

/// A database message's content comes only from its parts whose type is
/// exactly `text`: leaving out every part of another kind (reasoning, tool,
/// step parts) changes nothing in the parsed session.
pub proof fn lemma_database_other_parts_ignored(
    database: Seq<char>,
    session_id: Seq<char>,
    rows: DatabaseSession,
    text_only: DatabaseSession,
    clock: Option<i64>,
)
    requires
        text_only.session == rows.session,
        text_only.messages@.len() == rows.messages@.len(),
        forall|i: int| 0 <= i < rows.messages@.len() ==> {
            let (m, t) = (#[trigger] rows.messages@[i], text_only.messages@[i]);
            &&& t.id == m.id
            &&& t.data == m.data
            &&& t.time_created == m.time_created
            &&& t.parts@ == kept_by(m.parts@, not_other_kind())
        },
    ensures
        database_session(database, session_id, text_only, clock) == database_session(database, session_id, rows, clock),
{
    assert forall|i: int| 0 <= i < text_only.messages@.len() implies (#[trigger] text_only.messages@[i]).id
        == rows.messages@[i].id && text_only.messages@[i].data == rows.messages@[i].data
        && text_only.messages@[i].time_created == rows.messages@[i].time_created && database_part_texts(
        text_only.messages@[i].parts@,
    ) == database_part_texts(rows.messages@[i].parts@) by {
        assert(text_only.messages@[i].parts@ == kept_by(rows.messages@[i].parts@, not_other_kind()));
        lemma_other_parts_add_no_text(rows.messages@[i].parts@);
    }
    lemma_scan_same_rows(text_only.messages@, rows.messages@, rows.session.directory@, clock);
}

/// Every message of a session parsed from database rows has content.
pub proof fn lemma_database_messages_have_content(
    database: Seq<char>,
    session_id: Seq<char>,
    rows: DatabaseSession,
    clock: Option<i64>,
)
    ensures
        database_session(database, session_id, rows, clock) matches Ok(s) ==> contents_nonempty(s.messages),
{
    lemma_scan_kept_nonempty(rows.messages@, rows.session.directory@, clock);
    if let Ok((kept, _)) = database_scan(rows.messages@, rows.session.directory@, clock) {
        lemma_joined_contents_nonempty(kept);
    }
}

/// A message row that holds no non-empty `text` part adds no message:
/// leaving out every such row gives the same messages, or the same error.
pub proof fn lemma_database_textless_rows_add_nothing(
    database: Seq<char>,
    session_id: Seq<char>,
    rows: DatabaseSession,
    fewer: DatabaseSession,
    clock: Option<i64>,
)
    requires
        fewer.session == rows.session,
        fewer.messages@ == kept_by(rows.messages@, rows_with_text()),
    ensures
        match database_session(database, session_id, rows, clock) {
            Err(e) => database_session(database, session_id, fewer, clock) == Err::<SessionModel, ParseError>(e),
            Ok(s) => database_session(database, session_id, fewer, clock) matches Ok(t) && t.messages == s.messages,
        },
{
    lemma_scan_without_textless_rows(rows.messages@, rows.session.directory@, clock);
}

// ---------------------------------------------------------------------------
// Discovery

/// A row of an OpenCode database's `session` table, as discovery lists it.
pub struct DatabaseSessionListing {
    pub id: String,
    pub parent_id: Option<String>,
    pub time_updated: i64,
}

/// The locator of session `id` of the OpenCode database at `database`, last
/// updated at `time_updated`: found by its row, fingerprinted and ordered by
/// that time.
pub open spec fn database_locator_model(database: Seq<char>, id: Seq<char>, time_updated: i64) -> LocatorModel {
    LocatorModel {
        identity: sqlite_identity_text(database, id),
        path: database,
        database_session_id: Some(id),
        fingerprint: decimal_text(time_updated as int),
        sort_timestamp: time_updated,
    }
}

/// The models of a sequence of locators, in order.
pub open spec fn locators_model(locators: Seq<SessionLocator>) -> Seq<LocatorModel> {
    locators.map_values(|l: SessionLocator| l@)
}

/// The locators of the listed sessions that have no parent, in order.
pub open spec fn listed_locators(database: Seq<char>, listings: Seq<DatabaseSessionListing>) -> Seq<LocatorModel>
    decreases listings.len(),
{
    if listings.len() == 0 {
        seq![]
    } else {
        let earlier = listed_locators(database, listings.drop_last());
        let l = listings.last();
        if l.parent_id is None {
            earlier.push(database_locator_model(database, l.id@, l.time_updated))
        } else {
            earlier
        }
    }
}

// ---------------------------------------------------------------------------
// Entry points

/// The session a locator of an OpenCode database stands for, given the rows
/// found for it (`None` when its session row is gone) and the system clock's
/// reading `clock` (`None` when there is none).
pub open spec fn located_session(locator: LocatorModel, database: Option<DatabaseSession>, clock: Option<i64>) -> Result<SessionModel, ParseError> {
    match locator.database_session_id {
        None => Err(ParseError::NoSessionId),
        Some(id) => match database {
            None => Err(ParseError::SessionNotInDatabase),
            Some(rows) => database_session(locator.path, id, rows, clock),
        },
    }
}

/// Whether a result is the refusal for want of a clock reading.
pub open spec fn wants_clock(r: Result<SessionModel, ParseError>) -> bool {
    r matches Err(ParseError::ClockUnavailable)
}

/// What a parse gives when it reads the system clock only if the result
/// without a reading wants one: `without` is the result without a reading,
/// `with` the result given the reading that was taken.
pub open spec fn clock_on_demand(
    without: Result<SessionModel, ParseError>,
    with: Result<SessionModel, ParseError>,
) -> Result<SessionModel, ParseError> {
    if wants_clock(without) {
        with
    } else {
        without
    }
}

/// A reading of the system clock, as [`crate::clock::current_millis`] gives
/// it: none, or an instant `chrono` represents.
pub open spec fn clock_reading(clock: Option<i64>) -> bool {
    clock matches Some(now) ==> chrono_millis_in_range(now)
}

proof fn lemma_database_scan_clock(ms: Seq<DatabaseMessageRow>, directory: Seq<char>, now: i64)
    ensures
        !(database_scan(ms, directory, None) matches Err(ParseError::ClockUnavailable))
            ==> database_scan(ms, directory, Some(now)) == database_scan(ms, directory, None),
        !(database_scan(ms, directory, Some(now)) matches Err(ParseError::ClockUnavailable)),
    decreases ms.len(),
{
    if ms.len() > 0 {
        lemma_database_scan_clock(ms.drop_last(), directory, now);
    }
}

proof fn lemma_legacy_scan_known_times(ms: Seq<OpenCodeMessageRecord>, cwd: Option<Seq<char>>, now: i64)
    requires
        forall|k: int| 0 <= k < ms.len() ==> time_known(#[trigger] ms[k].created),
    ensures
        legacy_scan(ms, cwd, now) == legacy_scan(ms, cwd, 0),
        ms.len() > 0 ==> legacy_scan(ms, cwd, now).latest is Some,
    decreases ms.len(),
{
    if ms.len() > 0 {
        let prefix = ms.drop_last();
        assert forall|k: int| 0 <= k < prefix.len() implies time_known(#[trigger] prefix[k].created) by {
            assert(prefix[k] == ms[k]);
        }
        lemma_legacy_scan_known_times(prefix, cwd, now);
        assert(time_known(ms[ms.len() - 1].created));
    }
}

proof fn lemma_legacy_session_at_known_times(path: Seq<char>, files: LegacySessionFiles, now: i64)
    requires
        !legacy_needs_clock(files),
    ensures
        legacy_session_at(path, files, now) == legacy_session_at(path, files, 0),
{
    let order = order_of::<OpenCodeMessageRecord>();
    let ms = files.messages@;
    let sorted = stable_sorted(ms, order);
    lemma_messages_in_creation_order(ms);
    sorted.to_multiset_ensures();
    ms.to_multiset_ensures();
    assert forall|k: int| 0 <= k < sorted.len() implies time_known(#[trigger] sorted[k].created) by {
        assert(sorted.contains(sorted[k]));
        assert(sorted.to_multiset().count(sorted[k]) > 0);
        assert(ms.contains(sorted[k]));
        let j = choose|j: int| 0 <= j < ms.len() && ms[j] == sorted[k];
        assert(time_known(ms[j].created));
    }
    assert(sorted.len() == ms.len());
    lemma_legacy_scan_known_times(sorted, option_text(files.session.directory), now);
}

/// The system clock is read only on demand. Without a reading, a parse that
/// does not ask for one gives the same result as with any reading; and with a
/// reading, no parse asks for one.
pub proof fn lemma_clock_only_on_demand(
    locator: LocatorModel,
    database: Option<DatabaseSession>,
    files: Option<LegacySessionFiles>,
    now: i64,
)
    ensures
        !wants_clock(crate::parser::locator_session(locator, database, files, None))
            ==> crate::parser::locator_session(locator, database, files, Some(now))
            == crate::parser::locator_session(locator, database, files, None),
        !wants_clock(crate::parser::locator_session(locator, database, files, Some(now))),
{
    if let Some(rows) = database {
        lemma_database_scan_clock(rows.messages@, rows.session.directory@, now);
    }
    if let Some(f) = files {
        if !legacy_needs_clock(f) {
            lemma_legacy_session_at_known_times(locator.path, f, now);
        }
    }
}

impl OpenCodeParser {
    /// Parses the session that OpenCode's file storage holds at `path`,
    /// reading the system clock only when a timestamp is missing or out of
    /// `chrono`'s range.
    pub fn parse_file(path: &str, files: LegacySessionFiles) -> (r: Result<Session, ParseError>)
        ensures
            exists|clock: Option<i64>|
                clock_reading(clock) && session_result(r) == clock_on_demand(
                    legacy_session(path@, files, None),
                    #[trigger] legacy_session(path@, files, clock),
                ),
    {
        let ghost files_in = files;
        let needed = files.session.parent_id.is_none() && get_storage_root(path).is_some()
            && Self::files_need_clock(&files);
        let clock = if needed {
            current_millis()
        } else {
            None
        };
        let r = Self::session_from_files(path, files, clock);
        assert(session_result(r) == clock_on_demand(
            legacy_session(path@, files_in, None),
            legacy_session(path@, files_in, clock),
        ));
        r
    }

    /// Parses the session of an OpenCode database that `locator` names, from
    /// the rows found for it (`None` when its session row is gone), reading
    /// the system clock only when a timestamp it keeps is out of `chrono`'s
    /// range.
    pub fn parse_locator(locator: &SessionLocator, database: Option<DatabaseSession>) -> (r: Result<Session, ParseError>)
        ensures
            exists|clock: Option<i64>|
                clock_reading(clock) && session_result(r) == clock_on_demand(
                    located_session(locator@, database, None),
                    #[trigger] located_session(locator@, database, clock),
                ),
    {
        let first = Self::session_from_located_rows(locator, &database, None);
        match first {
            Err(ParseError::ClockUnavailable) => {
                let clock = current_millis();
                Self::session_from_located_rows(locator, &database, clock)
            },
            _ => {
                assert(session_result(first) == clock_on_demand(
                    located_session(locator@, database, None),
                    located_session(locator@, database, None),
                ));
                first
            },
        }
    }

    /// [`OpenCodeParser::parse_locator`] given the system clock's reading
    /// `clock` (`None` when there is none).
    pub fn session_from_located_rows(locator: &SessionLocator, database: &Option<DatabaseSession>, clock: Option<i64>) -> (r: Result<Session, ParseError>)
        ensures
            session_result(r) == located_session(locator@, *database, clock),
    {
        match &locator.database_session_id {
            None => Err(ParseError::NoSessionId),
            Some(id) => match database {
                None => Err(ParseError::SessionNotInDatabase),
                Some(rows) => Self::session_from_rows(locator.path.as_str(), id.as_str(), rows, clock),
            },
        }
    }

    /// The locators of the top-level sessions listed in the OpenCode database
    /// at `database`, in the order listed; child sessions are left out.
    pub fn discover_database(database: &str, listings: Vec<DatabaseSessionListing>) -> (r: Vec<SessionLocator>)
        ensures
            locators_model(r@) == listed_locators(database@, listings@),
    {
        let mut locators: Vec<SessionLocator> = Vec::new();
        let mut i: usize = 0;
        while i < listings.len()
            invariant
                0 <= i <= listings.len(),
                locators_model(locators@) == listed_locators(database@, listings@.take(i as int)),
            decreases listings.len() - i,
        {
            let listing = &listings[i];
            assert(listings@.take(i as int + 1).drop_last() =~= listings@.take(i as int));
            assert(listings@.take(i as int + 1).last() == listings@[i as int]);
            if listing.parent_id.is_none() {
                let ghost before = locators_model(locators@);
                let locator = Self::database_locator(database, listing.id.clone(), listing.time_updated);
                locators.push(locator);
                assert(locators_model(locators@) =~= before.push(locator@));
            }
            i += 1;
        }
        assert(listings@.take(i as int) =~= listings@);
        locators
    }

    /// The locator of session `id` of the OpenCode database at `database`,
    /// last updated at `time_updated`.
    pub fn database_locator(database: &str, id: String, time_updated: i64) -> (r: SessionLocator)
        ensures
            r@ == database_locator_model(database@, id@, time_updated),
    {
        SessionLocator {
            identity: sqlite_identity(database, id.as_str()),
            path: String::from_str(database),
            database_session_id: Some(id),
            fingerprint: i64_decimal(time_updated),
            sort_timestamp: time_updated,
        }
    }

    /// Whether a file of OpenCode's storage holds a JSON record (a message
    /// or a part): a `.json` file.
    pub fn is_json_file(path: &str) -> (r: bool)
        ensures
            r == json_extension(path_extension_text(path@)),
    {
        Self::is_json_extension(&path_extension(path))
    }

    /// Whether a file with the extension `extension` (what `Path::extension`
    /// gives) is a `.json` file.
    pub fn is_json_extension(extension: &Option<String>) -> (r: bool)
        ensures
            r == json_extension(option_text(*extension)),
    {
        match extension {
            Some(ext) => text_eq(ext.as_str(), "json"),
            None => false,
        }
    }

    /// Whether a file found below OpenCode's `storage/session` directory is
    /// a session file: a `.json` file whose name starts with `ses_`.
    pub fn is_legacy_session_file(path: &str) -> (r: bool)
        ensures
            r == legacy_session_name(path_extension_text(path@), path_file_name_text(path@)),
    {
        Self::is_legacy_session_name(&path_extension(path), &path_file_name(path))
    }

    /// Whether a file with the extension `extension` and the name `file_name`
    /// (what `Path::extension` and `Path::file_name` give) is a session file of
    /// OpenCode's storage.
    pub fn is_legacy_session_name(extension: &Option<String>, file_name: &Option<String>) -> (r: bool)
        ensures
            r == legacy_session_name(option_text(*extension), option_text(*file_name)),
    {
        if !Self::is_json_extension(extension) {
            return false;
        }
        match file_name {
            Some(name) => starts_with(name.as_str(), "ses_"),
            None => false,
        }
    }

    /// Whether a path is a session file of OpenCode's storage.
    pub fn is_storage_session_file(path: &str) -> (r: bool)
        ensures
            r == is_storage_session_path(path@),
    {
        let parts = path_components(path);
        Self::is_storage_session_parts(&parts, &path_extension(path))
    }

    /// Whether a path with the components `parts` and the extension
    /// `extension` (what `Path::components` and `Path::extension` give) is a
    /// session file of OpenCode's storage.
    pub fn is_storage_session_parts(parts: &Vec<String>, extension: &Option<String>) -> (r: bool)
        ensures
            r == storage_session_parts(texts_model(parts@), option_text(*extension)),
    {
        let mut found = false;
        let mut i: usize = 0;
        while i < parts.len()
            invariant
                0 <= i <= parts.len(),
                found == exists|k: int| 0 <= k < i && k + 1 < parts.len() && #[trigger] parts@[k]@ == "storage"@ && parts@[k + 1]@ == "session"@,
            decreases parts.len() - i,
        {
            if i + 1 < parts.len() && text_eq(parts[i].as_str(), "storage") && text_eq(parts[i + 1].as_str(), "session") {
                found = true;
            }
            i += 1;
        }
        let is_json = Self::is_json_extension(extension);
        proof {
            let texts = texts_model(parts@);
            if found {
                let k = choose|k: int| 0 <= k < i && k + 1 < parts.len() && #[trigger] parts@[k]@ == "storage"@ && parts@[k + 1]@ == "session"@;
                assert(texts[k] == parts@[k]@ && texts[k + 1] == parts@[k + 1]@);
            } else {
                assert forall|k: int| 0 <= k < texts.len() - 1 && #[trigger] texts[k] == "storage"@ implies texts[k + 1] != "session"@ by {
                    assert(texts[k] == parts@[k]@ && texts[k + 1] == parts@[k + 1]@);
                }
            }
        }
        found && is_json
    }
}

} // verus!
