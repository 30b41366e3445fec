use vstd::prelude::*;

use crate::parser::{LocatorModel, SessionLocator};
use crate::json::{json_unsigned_at, json_unsigned_at_keys};
use crate::text::{text_eq, texts_model};

verus! {

/// The version of the index state that this library writes and reads.
pub const CURRENT_STATE_VERSION: u32 = 2;

/// What is recorded of one indexed session.
#[derive(Debug)]
pub struct SessionState {
    pub fingerprint: String,
}

/// Tracks independently indexable sessions by stable locator identity.
#[derive(Debug)]
pub struct IndexState {
    /// One entry per indexed session: its identity and state.
    indexed_sessions: Vec<(String, SessionState)>,
    pub version: u32,
    rebuild_required: bool,
}

/// The fingerprint recorded for each identity of the entries.
pub open spec fn entries_map(entries: Seq<(String, SessionState)>) -> Map<Seq<char>, Seq<char>>
    decreases entries.len(),
{
    if entries.len() == 0 {
        Map::empty()
    } else {
        entries_map(entries.drop_last()).insert(entries.last().0@, entries.last().1.fingerprint@)
    }
}

/// No identity occurs twice among the entries.
pub open spec fn identities_unique(entries: Seq<(String, SessionState)>) -> bool {
    forall|i: int, j: int| 0 <= i < j < entries.len() ==> #[trigger] entries[i].0@ != #[trigger] entries[j].0@
}

/// The fingerprint of each identity of the (identity, fingerprint) pairs; a
/// later pair for an identity replaces an earlier one.
pub open spec fn pairs_map(pairs: Seq<(String, String)>) -> Map<Seq<char>, Seq<char>>
    decreases pairs.len(),
{
    if pairs.len() == 0 {
        Map::empty()
    } else {
        pairs_map(pairs.drop_last()).insert(pairs.last().0@, pairs.last().1@)
    }
}

/// No identity occurs twice among the pairs.
pub open spec fn pair_keys_unique(pairs: Seq<(String, String)>) -> bool {
    forall|i: int, j: int| 0 <= i < j < pairs.len() ==> #[trigger] pairs[i].0@ != #[trigger] pairs[j].0@
}

proof fn lemma_pairs_match_entries(pairs: Seq<(String, String)>, entries: Seq<(String, SessionState)>)
    requires
        pairs.len() == entries.len(),
        identities_unique(entries),
        forall|k: int| 0 <= k < pairs.len() ==> #[trigger] pairs[k].0@ == entries[k].0@
            && pairs[k].1@ == entries[k].1.fingerprint@,
    ensures
        pairs_map(pairs) == entries_map(entries),
        pair_keys_unique(pairs),
    decreases pairs.len(),
{
    if pairs.len() > 0 {
        let p = pairs.drop_last();
        let e = entries.drop_last();
        assert forall|k: int| 0 <= k < p.len() implies #[trigger] p[k].0@ == e[k].0@ && p[k].1@ == e[k].1.fingerprint@ by {
            assert(p[k] == pairs[k] && e[k] == entries[k]);
        }
        assert(identities_unique(e)) by {
            assert forall|i: int, j: int| 0 <= i < j < e.len() implies #[trigger] e[i].0@ != #[trigger] e[j].0@ by {
                assert(e[i] == entries[i] && e[j] == entries[j]);
            }
        }
        lemma_pairs_match_entries(p, e);
        assert(pairs.last().0@ == entries.last().0@);
    }
    assert forall|i: int, j: int| 0 <= i < j < pairs.len() implies #[trigger] pairs[i].0@ != #[trigger] pairs[j].0@ by {
        assert(pairs[i].0@ == entries[i].0@ && pairs[j].0@ == entries[j].0@);
    }
}

/// The mathematical value of an [`IndexState`].
pub struct IndexStateModel {
    /// The fingerprint recorded for each indexed identity.
    pub sessions: Map<Seq<char>, Seq<char>>,
    pub version: u32,
    pub rebuild_required: bool,
}

impl View for IndexState {
    type V = IndexStateModel;

    closed spec fn view(&self) -> IndexStateModel {
        IndexStateModel {
            sessions: entries_map(self.indexed_sessions@),
            version: self.version,
            rebuild_required: self.rebuild_required,
        }
    }
}

/// Whether the session a locator names must be indexed again: it is not
/// recorded, or recorded with another fingerprint.
pub open spec fn needs_reindex_in(sessions: Map<Seq<char>, Seq<char>>, locator: LocatorModel) -> bool {
    !(sessions.contains_key(locator.identity) && sessions[locator.identity] == locator.fingerprint)
}

proof fn lemma_entries_map_facts(entries: Seq<(String, SessionState)>)
    requires
        identities_unique(entries),
    ensures
        forall|i: int| 0 <= i < entries.len() ==> #[trigger] entries_map(entries).contains_key(entries[i].0@)
            && entries_map(entries)[entries[i].0@] == entries[i].1.fingerprint@,
        forall|k: Seq<char>| #[trigger] entries_map(entries).contains_key(k) ==> exists|i: int| 0 <= i < entries.len() && entries[i].0@ == k,
        entries_map(entries).dom().finite(),
        entries_map(entries).dom().len() == entries.len(),
    decreases entries.len(),
{
    if entries.len() > 0 {
        let rest = entries.drop_last();
        assert(identities_unique(rest)) by {
            assert forall|i: int, j: int| 0 <= i < j < rest.len() implies #[trigger] rest[i].0@ != #[trigger] rest[j].0@ by {
                assert(rest[i] == entries[i] && rest[j] == entries[j]);
            }
        }
        lemma_entries_map_facts(rest);
        let last = entries.last();
        assert(!entries_map(rest).contains_key(last.0@)) by {
            if entries_map(rest).contains_key(last.0@) {
                let i = choose|i: int| 0 <= i < rest.len() && rest[i].0@ == last.0@;
                assert(entries[i].0@ != entries[entries.len() - 1].0@);
            }
        }
        assert forall|i: int| 0 <= i < entries.len() implies #[trigger] entries_map(entries).contains_key(entries[i].0@)
            && entries_map(entries)[entries[i].0@] == entries[i].1.fingerprint@ by {
            if i < entries.len() - 1 {
                assert(entries[i] == rest[i]);
                assert(entries[i].0@ != entries[entries.len() - 1].0@);
            }
        }
        assert forall|k: Seq<char>| #[trigger] entries_map(entries).contains_key(k) implies exists|i: int| 0 <= i < entries.len() && entries[i].0@ == k by {
            if k == last.0@ {
                assert(entries[entries.len() - 1].0@ == k);
            } else {
                assert(entries_map(rest).contains_key(k));
                let i = choose|i: int| 0 <= i < rest.len() && rest[i].0@ == k;
                assert(entries[i] == rest[i]);
            }
        }
    }
}

proof fn lemma_entries_map_remove(entries: Seq<(String, SessionState)>, i: int)
    requires
        identities_unique(entries),
        0 <= i < entries.len(),
    ensures
        entries_map(entries.remove(i)) == entries_map(entries).remove(entries[i].0@),
        identities_unique(entries.remove(i)),
    decreases entries.len(),
{
    let rest = entries.drop_last();
    assert(identities_unique(rest)) by {
        assert forall|a: int, b: int| 0 <= a < b < rest.len() implies #[trigger] rest[a].0@ != #[trigger] rest[b].0@ by {
            assert(rest[a] == entries[a] && rest[b] == entries[b]);
        }
    }
    assert(identities_unique(entries.remove(i))) by {
        let r = entries.remove(i);
        assert forall|a: int, b: int| 0 <= a < b < r.len() implies #[trigger] r[a].0@ != #[trigger] r[b].0@ by {
            let a2 = if a < i { a } else { a + 1 };
            let b2 = if b < i { b } else { b + 1 };
            assert(r[a] == entries[a2] && r[b] == entries[b2]);
        }
    }
    lemma_entries_map_facts(rest);
    let last = entries.last();
    assert(!entries_map(rest).contains_key(last.0@)) by {
        if entries_map(rest).contains_key(last.0@) {
            let k = choose|k: int| 0 <= k < rest.len() && rest[k].0@ == last.0@;
            assert(entries[k].0@ != entries[entries.len() - 1].0@);
        }
    }
    if i == entries.len() - 1 {
        assert(entries.remove(i) =~= rest);
        assert(entries_map(rest) =~= entries_map(entries).remove(entries[i].0@));
    } else {
        lemma_entries_map_remove(rest, i);
        assert(entries.remove(i) =~= rest.remove(i).push(last));
        assert(entries[i] == rest[i]);
        assert(entries[i].0@ != last.0@);
        assert(rest.remove(i).push(last).drop_last() =~= rest.remove(i));
        assert(entries_map(rest.remove(i).push(last)) == entries_map(rest.remove(i)).insert(last.0@, last.1.fingerprint@));
        assert(entries_map(entries.remove(i)) =~= entries_map(entries).remove(entries[i].0@));
    }
}

proof fn lemma_entries_map_update(entries: Seq<(String, SessionState)>, i: int, entry: (String, SessionState))
    requires
        identities_unique(entries),
        0 <= i < entries.len(),
        entry.0@ == entries[i].0@,
    ensures
        entries_map(entries.update(i, entry)) == entries_map(entries).insert(entry.0@, entry.1.fingerprint@),
        identities_unique(entries.update(i, entry)),
    decreases entries.len(),
{
    let rest = entries.drop_last();
    assert(identities_unique(rest)) by {
        assert forall|a: int, b: int| 0 <= a < b < rest.len() implies #[trigger] rest[a].0@ != #[trigger] rest[b].0@ by {
            assert(rest[a] == entries[a] && rest[b] == entries[b]);
        }
    }
    let u = entries.update(i, entry);
    assert(identities_unique(u)) by {
        assert forall|a: int, b: int| 0 <= a < b < u.len() implies #[trigger] u[a].0@ != #[trigger] u[b].0@ by {
            assert(u[a].0@ == entries[a].0@ && u[b].0@ == entries[b].0@);
        }
    }
    if i == entries.len() - 1 {
        assert(u.drop_last() =~= rest);
        lemma_entries_map_facts(rest);
        assert(!entries_map(rest).contains_key(entry.0@)) by {
            if entries_map(rest).contains_key(entry.0@) {
                let k = choose|k: int| 0 <= k < rest.len() && rest[k].0@ == entry.0@;
                assert(entries[k].0@ != entries[entries.len() - 1].0@);
            }
        }
        assert(entries_map(u) =~= entries_map(entries).insert(entry.0@, entry.1.fingerprint@));
    } else {
        lemma_entries_map_update(rest, i, entry);
        assert(u.drop_last() =~= rest.update(i, entry));
        assert(u.last() == entries.last());
        assert(entries[i].0@ != entries.last().0@);
        assert(entries_map(u) =~= entries_map(entries).insert(entry.0@, entry.1.fingerprint@));
    }
}

proof fn lemma_entries_map_push(entries: Seq<(String, SessionState)>, entry: (String, SessionState))
    requires
        identities_unique(entries),
        !entries_map(entries).contains_key(entry.0@),
    ensures
        entries_map(entries.push(entry)) == entries_map(entries).insert(entry.0@, entry.1.fingerprint@),
        identities_unique(entries.push(entry)),
{
    lemma_entries_map_facts(entries);
    assert(entries.push(entry).drop_last() =~= entries);
    let p = entries.push(entry);
    assert forall|a: int, b: int| 0 <= a < b < p.len() implies #[trigger] p[a].0@ != #[trigger] p[b].0@ by {
        if b == entries.len() {
            assert(p[a] == entries[a]);
            assert(entries_map(entries).contains_key(entries[a].0@));
        } else {
            assert(p[a] == entries[a] && p[b] == entries[b]);
        }
    }
}

impl Default for IndexState {
    /// An empty state of the current version.
    fn default() -> (r: Self)
        ensures
            r.wf(),
            r@ == (IndexStateModel {
                sessions: Map::empty(),
                version: CURRENT_STATE_VERSION,
                rebuild_required: false,
            }),
    {
        IndexState::new()
    }
}

/// The stored state file is not JSON.
#[derive(Debug)]
pub struct StateFileError;

/// The JSON keys of a state file's version.
pub open spec fn version_keys() -> Seq<Seq<char>> {
    seq!["version"@]
}

impl IndexState {
    /// Whether a stored state file, given by its content, is of the current
    /// version; a file of another version (or none) asks for a rebuild.
    pub fn is_current_state_file(content: &str) -> (r: Result<bool, StateFileError>)
        ensures
            match json_unsigned_at(content@, version_keys()) {
                Ok(version) => r matches Ok(current) && current == (version == Some(CURRENT_STATE_VERSION as u64)),
                Err(_) => r is Err,
            },
    {
        let keys: &[&str] = &["version"];
        assert(keys@.map_values(|k: &str| k@) =~= version_keys());
        match json_unsigned_at_keys(content, keys) {
            Ok(Some(version)) => Ok(version == CURRENT_STATE_VERSION as u64),
            Ok(None) => Ok(false),
            Err(_) => Err(StateFileError),
        }
    }

    /// The well-formedness of the state: no identity is recorded twice.
    pub closed spec fn wf(&self) -> bool {
        identities_unique(self.indexed_sessions@)
    }

    /// An empty state of the current version.
    pub fn new() -> (r: Self)
        ensures
            r.wf(),
            r@ == (IndexStateModel {
                sessions: Map::empty(),
                version: CURRENT_STATE_VERSION,
                rebuild_required: false,
            }),
    {
        let r = IndexState { indexed_sessions: Vec::new(), version: CURRENT_STATE_VERSION, rebuild_required: false };
        assert(r@.sessions =~= Map::<Seq<char>, Seq<char>>::empty());
        r
    }

    /// The empty state that stands in for a stored state of another version:
    /// it asks once for the search index to be rebuilt.
    pub fn requiring_rebuild() -> (r: Self)
        ensures
            r.wf(),
            r@ == (IndexStateModel {
                sessions: Map::empty(),
                version: CURRENT_STATE_VERSION,
                rebuild_required: true,
            }),
    {
        let r = IndexState { indexed_sessions: Vec::new(), version: CURRENT_STATE_VERSION, rebuild_required: true };
        assert(r@.sessions =~= Map::<Seq<char>, Seq<char>>::empty());
        r
    }

    /// The position of `identity` among the entries, if recorded.
    fn position_of(&self, identity: &str) -> (r: Option<usize>)
        requires
            self.wf(),
        ensures
            match r {
                Some(i) => i < self.indexed_sessions@.len() && self.indexed_sessions@[i as int].0@ == identity@,
                None => !self@.sessions.contains_key(identity@),
            },
    {
        let mut i: usize = 0;
        while i < self.indexed_sessions.len()
            invariant
                0 <= i <= self.indexed_sessions@.len(),
                forall|k: int| 0 <= k < i ==> #[trigger] self.indexed_sessions@[k].0@ != identity@,
            decreases self.indexed_sessions.len() - i,
        {
            if text_eq(self.indexed_sessions[i].0.as_str(), identity) {
                return Some(i);
            }
            i += 1;
        }
        proof {
            lemma_entries_map_facts(self.indexed_sessions@);
            if self@.sessions.contains_key(identity@) {
                let k = choose|k: int| 0 <= k < self.indexed_sessions@.len() && self.indexed_sessions@[k].0@ == identity@;
                assert(self.indexed_sessions@[k].0@ != identity@);
            }
        }
        None
    }

    /// The fingerprint recorded for `identity`, if any.
    pub fn fingerprint_of(&self, identity: &str) -> (r: Option<String>)
        requires
            self.wf(),
        ensures
            match r {
                Some(f) => self@.sessions.contains_key(identity@) && self@.sessions[identity@] == f@,
                None => !self@.sessions.contains_key(identity@),
            },
    {
        match self.position_of(identity) {
            Some(i) => {
                proof {
                    lemma_entries_map_facts(self.indexed_sessions@);
                    assert(entries_map(self.indexed_sessions@).contains_key(self.indexed_sessions@[i as int].0@));
                }
                Some(self.indexed_sessions[i].1.fingerprint.clone())
            },
            None => None,
        }
    }

    /// Whether the session that `locator` names must be indexed again.
    pub fn needs_reindex(&self, locator: &SessionLocator) -> (r: bool)
        requires
            self.wf(),
        ensures
            r == needs_reindex_in(self@.sessions, locator@),
    {
        match self.fingerprint_of(locator.identity.as_str()) {
            Some(f) => !text_eq(f.as_str(), locator.fingerprint.as_str()),
            None => true,
        }
    }

    /// Records `fingerprint` for `identity`, replacing what was recorded.
    pub fn record(&mut self, identity: String, fingerprint: String)
        requires
            old(self).wf(),
        ensures
            final(self).wf(),
            final(self)@ == (IndexStateModel {
                sessions: old(self)@.sessions.insert(identity@, fingerprint@),
                ..old(self)@
            }),
    {
        let ghost old_entries = self.indexed_sessions@;
        let entry = (identity, SessionState { fingerprint });
        match self.position_of(entry.0.as_str()) {
            Some(i) => {
                proof {
                    lemma_entries_map_update(old_entries, i as int, entry);
                }
                self.indexed_sessions.set(i, entry);
            },
            None => {
                proof {
                    lemma_entries_map_push(old_entries, entry);
                }
                self.indexed_sessions.push(entry);
            },
        }
    }

    /// Records the locator's session as indexed with its current fingerprint.
    pub fn mark_indexed(&mut self, locator: &SessionLocator)
        requires
            old(self).wf(),
        ensures
            final(self).wf(),
            final(self)@ == (IndexStateModel {
                sessions: old(self)@.sessions.insert(locator.identity@, locator.fingerprint@),
                ..old(self)@
            }),
    {
        self.record(locator.identity.clone(), locator.fingerprint.clone());
    }

    /// Forgets the session with this identity.
    pub fn remove(&mut self, identity: &str)
        requires
            old(self).wf(),
        ensures
            final(self).wf(),
            final(self)@ == (IndexStateModel { sessions: old(self)@.sessions.remove(identity@), ..old(self)@ }),
    {
        let ghost old_entries = self.indexed_sessions@;
        match self.position_of(identity) {
            Some(i) => {
                proof {
                    lemma_entries_map_remove(old_entries, i as int);
                }
                self.indexed_sessions.remove(i);
            },
            None => {
                assert(self@.sessions =~= old(self)@.sessions.remove(identity@));
            },
        }
    }

    /// The identities of the recorded sessions, each once.
    pub fn identities(&self) -> (r: Vec<String>)
        requires
            self.wf(),
        ensures
            texts_model(r@).no_duplicates(),
            forall|k: Seq<char>| #[trigger] texts_model(r@).contains(k) == self@.sessions.contains_key(k),
    {
        proof {
            lemma_entries_map_facts(self.indexed_sessions@);
        }
        let mut r: Vec<String> = Vec::new();
        let mut i: usize = 0;
        while i < self.indexed_sessions.len()
            invariant
                0 <= i <= self.indexed_sessions@.len(),
                r@.len() == i,
                forall|k: int| 0 <= k < i ==> #[trigger] r@[k]@ == self.indexed_sessions@[k].0@,
            decreases self.indexed_sessions.len() - i,
        {
            r.push(self.indexed_sessions[i].0.clone());
            i += 1;
        }
        let ghost t = texts_model(r@);
        assert forall|k: Seq<char>| #[trigger] t.contains(k) == self@.sessions.contains_key(k) by {
            if self@.sessions.contains_key(k) {
                let a = choose|a: int| 0 <= a < self.indexed_sessions@.len() && self.indexed_sessions@[a].0@ == k;
                assert(t[a] == k);
            }
            if t.contains(k) {
                let a = choose|a: int| 0 <= a < t.len() && t[a] == k;
                assert(r@[a]@ == self.indexed_sessions@[a].0@);
            }
        }
        assert forall|a: int, b: int| 0 <= a < t.len() && 0 <= b < t.len() && a != b implies t[a] != t[b] by {
            assert(t[a] == self.indexed_sessions@[a].0@ && t[b] == self.indexed_sessions@[b].0@);
        }
        r
    }

    /// The version of the state.
    pub fn version(&self) -> (r: u32)
        ensures
            r == self@.version,
    {
        self.version
    }

    /// The recorded sessions as (identity, fingerprint) pairs, as the state
    /// file stores them; each identity once.
    pub fn entries(&self) -> (r: Vec<(String, String)>)
        requires
            self.wf(),
        ensures
            pairs_map(r@) == self@.sessions,
            pair_keys_unique(r@),
    {
        let mut r: Vec<(String, String)> = Vec::new();
        let mut i: usize = 0;
        while i < self.indexed_sessions.len()
            invariant
                0 <= i <= self.indexed_sessions@.len(),
                identities_unique(self.indexed_sessions@),
                r@.len() == i,
                forall|k: int| 0 <= k < i ==> #[trigger] r@[k].0@ == self.indexed_sessions@[k].0@
                    && r@[k].1@ == self.indexed_sessions@[k].1.fingerprint@,
            decreases self.indexed_sessions.len() - i,
        {
            let entry = &self.indexed_sessions[i];
            r.push((entry.0.clone(), entry.1.fingerprint.clone()));
            i += 1;
        }
        proof {
            lemma_pairs_match_entries(r@, self.indexed_sessions@);
        }
        r
    }

    /// The state that a state file of version `version` with these
    /// (identity, fingerprint) pairs stands for; a later pair for the same
    /// identity replaces an earlier one.
    pub fn from_entries(version: u32, pairs: Vec<(String, String)>) -> (r: Self)
        ensures
            r.wf(),
            r@ == (IndexStateModel { sessions: pairs_map(pairs@), version, rebuild_required: false }),
    {
        let mut state = Self::new();
        state.version = version;
        let ghost input = pairs@;
        let mut rest = pairs;
        let mut reversed: Vec<(String, String)> = Vec::new();
        while rest.len() > 0
            invariant
                rest@ + reversed@.reverse() == input,
            decreases rest.len(),
        {
            let x = rest.pop().unwrap();
            let ghost r0 = reversed@;
            reversed.push(x);
            assert(reversed@.reverse() =~= seq![x] + r0.reverse());
        }
        assert(reversed@.reverse() =~= input);
        let n = reversed.len();
        let mut done: usize = 0;
        assert(state@.sessions =~= pairs_map(input.take(0)));
        while reversed.len() > 0
            invariant
                done + reversed.len() == n,
                n == input.len(),
                input.take(done as int) + reversed@.reverse() == input,
                state.wf(),
                state@ == (IndexStateModel { sessions: pairs_map(input.take(done as int)), version, rebuild_required: false }),
            decreases reversed.len(),
        {
            let ghost r0 = reversed@;
            let (identity, fingerprint) = reversed.pop().unwrap();
            assert(r0.reverse() =~= seq![(identity, fingerprint)] + reversed@.reverse());
            assert(input[done as int] == (identity, fingerprint)) by {
                assert((input.take(done as int) + r0.reverse())[done as int] == (identity, fingerprint));
            }
            assert(input.take(done as int + 1).drop_last() =~= input.take(done as int));
            state.record(identity, fingerprint);
            done += 1;
            assert(input.take(done as int) + reversed@.reverse() =~= input);
        }
        assert(input.take(done as int) =~= input);
        state
    }

    /// Returns whether a rebuild of the search index was asked for, and
    /// clears the request.
    pub fn take_rebuild_required(&mut self) -> (r: bool)
        ensures
            r == old(self)@.rebuild_required,
            final(self)@ == rebuild_request_taken(old(self)@),
            final(self).wf() == old(self).wf(),
    {
        let r = self.rebuild_required;
        self.rebuild_required = false;
        r
    }
}

/// A session just recorded with its fingerprint needs no reindexing.
pub proof fn lemma_marked_needs_no_reindex(sessions: Map<Seq<char>, Seq<char>>, locator: LocatorModel)
    ensures
        !needs_reindex_in(sessions.insert(locator.identity, locator.fingerprint), locator),
{
}

/// A session recorded with another fingerprint needs reindexing.
pub proof fn lemma_changed_fingerprint_needs_reindex(sessions: Map<Seq<char>, Seq<char>>, marked: LocatorModel, current: LocatorModel)
    requires
        marked.identity == current.identity,
        marked.fingerprint != current.fingerprint,
    ensures
        needs_reindex_in(sessions.insert(marked.identity, marked.fingerprint), current),
{
}

/// A forgotten session needs reindexing.
pub proof fn lemma_removed_needs_reindex(sessions: Map<Seq<char>, Seq<char>>, locator: LocatorModel)
    ensures
        needs_reindex_in(sessions.remove(locator.identity), locator),
{
}

/// Recording or forgetting one session leaves the others as they were.
pub proof fn lemma_other_sessions_unaffected(sessions: Map<Seq<char>, Seq<char>>, changed: LocatorModel, other: LocatorModel)
    requires
        changed.identity != other.identity,
    ensures
        needs_reindex_in(sessions.insert(changed.identity, changed.fingerprint), other) == needs_reindex_in(sessions, other),
        needs_reindex_in(sessions.remove(changed.identity), other) == needs_reindex_in(sessions, other),
{
}

/// Every session needs indexing in an empty state.
pub proof fn lemma_empty_state_needs_reindex(locator: LocatorModel)
    ensures
        needs_reindex_in(Map::empty(), locator),
{
}

/// Storing a state as its (identity, fingerprint) pairs and reading those
/// pairs back, in any order, with its version gives the same state, less any
/// pending request for a rebuild. (`IndexState::entries` gives such pairs,
/// each identity once, and `IndexState::from_entries` reads them.)
pub proof fn lemma_stored_entries_round_trip(
    state: IndexStateModel,
    stored: Seq<(String, String)>,
    read: Seq<(String, String)>,
)
    requires
        pairs_map(stored) == state.sessions,
        pair_keys_unique(stored),
        pair_keys_unique(read),
        pair_views(read).to_multiset() == pair_views(stored).to_multiset(),
    ensures
        (IndexStateModel { sessions: pairs_map(read), version: state.version, rebuild_required: false })
            == rebuild_request_taken(state),
{
    lemma_entries_order_irrelevant(stored, read);
}

/// The (identity, fingerprint) texts of the pairs, in order.
pub open spec fn pair_views(pairs: Seq<(String, String)>) -> Seq<(Seq<char>, Seq<char>)> {
    pairs.map_values(|p: (String, String)| (p.0@, p.1@))
}

proof fn lemma_pairs_map_lookup(pairs: Seq<(String, String)>)
    requires
        pair_keys_unique(pairs),
    ensures
        forall|k: Seq<char>, v: Seq<char>| #[trigger] pair_views(pairs).contains((k, v))
            ==> pairs_map(pairs).contains_key(k) && pairs_map(pairs)[k] == v,
        forall|k: Seq<char>| #[trigger] pairs_map(pairs).contains_key(k)
            ==> pair_views(pairs).contains((k, pairs_map(pairs)[k])),
    decreases pairs.len(),
{
    if pairs.len() > 0 {
        let prefix = pairs.drop_last();
        let n = pairs.len() - 1;
        assert(pair_keys_unique(prefix)) by {
            assert forall|i: int, j: int| 0 <= i < j < prefix.len() implies #[trigger] prefix[i].0@ != #[trigger] prefix[j].0@ by {
                assert(prefix[i] == pairs[i] && prefix[j] == pairs[j]);
            }
        }
        lemma_pairs_map_lookup(prefix);
        let views = pair_views(pairs);
        let before = pair_views(prefix);
        assert(views =~= before.push((pairs[n].0@, pairs[n].1@)));
        let last_key = pairs[n].0@;
        assert forall|k: Seq<char>, v: Seq<char>| #[trigger] views.contains((k, v))
            implies pairs_map(pairs).contains_key(k) && pairs_map(pairs)[k] == v by {
            let i = choose|i: int| 0 <= i < views.len() && views[i] == (k, v);
            if i < n {
                assert(before[i] == (k, v));
                assert(before.contains((k, v)));
                assert(pairs[i].0@ != pairs[n].0@);
            }
        }
        assert forall|k: Seq<char>| #[trigger] pairs_map(pairs).contains_key(k)
            implies views.contains((k, pairs_map(pairs)[k])) by {
            if k == last_key {
                assert(views[n] == (k, pairs_map(pairs)[k]));
            } else {
                assert(pairs_map(prefix).contains_key(k));
                assert(before.contains((k, pairs_map(prefix)[k])));
                let i = choose|i: int| 0 <= i < before.len() && before[i] == (k, pairs_map(prefix)[k]);
                assert(views[i] == before[i]);
            }
        }
    }
}

/// The pairs of a state file, read in any order, give the same state: two
/// lists of (identity, fingerprint) pairs, each identity once, that hold the
/// same pairs map each identity to the same fingerprint.
pub proof fn lemma_entries_order_irrelevant(first: Seq<(String, String)>, second: Seq<(String, String)>)
    requires
        pair_keys_unique(first),
        pair_keys_unique(second),
        pair_views(first).to_multiset() == pair_views(second).to_multiset(),
    ensures
        pairs_map(first) == pairs_map(second),
{
    lemma_pairs_map_lookup(first);
    lemma_pairs_map_lookup(second);
    pair_views(first).to_multiset_ensures();
    pair_views(second).to_multiset_ensures();
    let a = pairs_map(first);
    let b = pairs_map(second);
    assert forall|k: Seq<char>| a.contains_key(k) implies b.contains_key(k) && b[k] == a[k] by {
        assert(pair_views(first).contains((k, a[k])));
        assert(pair_views(first).to_multiset().count((k, a[k])) > 0);
        assert(pair_views(second).contains((k, a[k])));
    }
    assert forall|k: Seq<char>| b.contains_key(k) implies a.contains_key(k) by {
        assert(pair_views(second).contains((k, b[k])));
        assert(pair_views(second).to_multiset().count((k, b[k])) > 0);
        assert(pair_views(first).contains((k, b[k])));
    }
    assert(a =~= b);
}

/// The state after a rebuild request was taken.
pub open spec fn rebuild_request_taken(state: IndexStateModel) -> IndexStateModel {
    IndexStateModel { rebuild_required: false, ..state }
}

/// A rebuild request is handed out once: taking it again finds none, and
/// leaves the state as it was.
pub proof fn lemma_rebuild_request_taken_once(state: IndexStateModel)
    ensures
        !rebuild_request_taken(state).rebuild_required,
        rebuild_request_taken(rebuild_request_taken(state)) == rebuild_request_taken(state),
{
}

} // verus!
