//! Shared indexing decisions for both background and synchronous indexing.
use vstd::prelude::*;

use crate::index::state::{needs_reindex_in, IndexState, IndexStateModel};
use crate::order::{lemma_stable_sorted, order_of, stable_sort, stable_sorted, StableOrder};
use crate::parser::SessionLocator;
use crate::text::{text_eq, texts_model};

verus! {

broadcast use vstd::seq_lib::group_to_multiset_ensures;

/// Progress information during indexing.
#[derive(Debug)]
pub struct IndexProgress {
    pub indexed: usize,
    pub total: usize,
}

impl StableOrder for SessionLocator {
    /// Newer sessions come first.
    open spec fn comes_before(a: Self, b: Self) -> bool {
        a.sort_timestamp > b.sort_timestamp
    }

    fn goes_before(&self, other: &Self) -> (r: bool) {
        self.sort_timestamp > other.sort_timestamp
    }
}

/// Sorts discovered sessions by their source-specific timestamp, newest
/// first; sessions with equal timestamps keep the order of discovery.
pub fn discover_and_sort_files(discovered: Vec<SessionLocator>) -> (sorted: Vec<SessionLocator>)
    ensures
        sorted@ == stable_sorted(discovered@, order_of::<SessionLocator>()),
        sorted@.to_multiset() == discovered@.to_multiset(),
        forall|i: int, j: int| 0 <= i < j < sorted@.len() ==> #[trigger] sorted@[i].sort_timestamp >= #[trigger] sorted@[j].sort_timestamp,
{
    let ghost input = discovered@;
    let sorted = stable_sort(discovered);
    proof {
        lemma_stable_sorted(input, order_of::<SessionLocator>());
        assert forall|i: int, j: int| 0 <= i < j < sorted@.len() implies #[trigger] sorted@[i].sort_timestamp >= #[trigger] sorted@[j].sort_timestamp by {
            assert(!(order_of::<SessionLocator>())(sorted@[j], sorted@[i]));
        }
    }
    sorted
}

/// The identities of the discovered sessions.
pub open spec fn discovered_identities(discovered: Seq<SessionLocator>) -> Set<Seq<char>> {
    Set::new(|k: Seq<char>| exists|i: int| 0 <= i < discovered.len() && #[trigger] discovered[i].identity@ == k)
}

fn is_discovered(identity: &str, discovered: &[SessionLocator]) -> (r: bool)
    ensures
        r == discovered_identities(discovered@).contains(identity@),
{
    let mut i: usize = 0;
    while i < discovered.len()
        invariant
            0 <= i <= discovered@.len(),
            forall|k: int| 0 <= k < i ==> #[trigger] discovered@[k].identity@ != identity@,
        decreases discovered.len() - i,
    {
        if text_eq(discovered[i].identity.as_str(), identity) {
            assert(discovered@[i as int].identity@ == identity@);
            return true;
        }
        i += 1;
    }
    false
}

/// The texts of `s` that `keep` does not hold, in order.
pub open spec fn not_kept(s: Seq<Seq<char>>, keep: Set<Seq<char>>) -> Seq<Seq<char>>
    decreases s.len(),
{
    if s.len() == 0 {
        seq![]
    } else if keep.contains(s.last()) {
        not_kept(s.drop_last(), keep)
    } else {
        not_kept(s.drop_last(), keep).push(s.last())
    }
}

proof fn lemma_not_kept(s: Seq<Seq<char>>, keep: Set<Seq<char>>)
    ensures
        forall|x: Seq<char>| #[trigger] not_kept(s, keep).contains(x) == (s.contains(x) && !keep.contains(x)),
        s.no_duplicates() ==> not_kept(s, keep).no_duplicates(),
    decreases s.len(),
{
    if s.len() > 0 {
        let rest = s.drop_last();
        let last = s.last();
        let p = not_kept(rest, keep);
        lemma_not_kept(rest, keep);
        assert forall|x: Seq<char>| #[trigger] s.contains(x) == (rest.contains(x) || x == last) by {
            if s.contains(x) {
                let i = choose|i: int| 0 <= i < s.len() && s[i] == x;
                if i < rest.len() {
                    assert(rest[i] == x);
                }
            }
            if rest.contains(x) {
                let i = choose|i: int| 0 <= i < rest.len() && rest[i] == x;
                assert(s[i] == x);
            }
            if x == last {
                assert(s[s.len() - 1] == x);
            }
        }
        if !keep.contains(last) {
            assert forall|x: Seq<char>| #[trigger] p.push(last).contains(x) == (p.contains(x) || x == last) by {
                if p.push(last).contains(x) {
                    let i = choose|i: int| 0 <= i < p.push(last).len() && p.push(last)[i] == x;
                    if i < p.len() {
                        assert(p[i] == x);
                    }
                }
                if p.contains(x) {
                    let i = choose|i: int| 0 <= i < p.len() && p[i] == x;
                    assert(p.push(last)[i] == x);
                }
                if x == last {
                    assert(p.push(last)[p.len() as int] == x);
                }
            }
        }
        if s.no_duplicates() {
            assert(rest.no_duplicates()) by {
                assert forall|a: int, b: int| 0 <= a < rest.len() && 0 <= b < rest.len() && a != b implies rest[a] != rest[b] by {
                    assert(s[a] == rest[a] && s[b] == rest[b]);
                }
            }
            assert(!rest.contains(last)) by {
                if rest.contains(last) {
                    let i = choose|i: int| 0 <= i < rest.len() && rest[i] == last;
                    assert(s[i] == s[s.len() - 1]);
                }
            }
            if !keep.contains(last) {
                assert(!p.contains(last));
                let q = p.push(last);
                assert forall|a: int, b: int| 0 <= a < q.len() && 0 <= b < q.len() && a != b implies q[a] != q[b] by {
                    if a < p.len() && b < p.len() {
                        assert(q[a] == p[a] && q[b] == p[b]);
                    } else if a < p.len() {
                        assert(q[a] == p[a]);
                    } else if b < p.len() {
                        assert(q[b] == p[b]);
                    }
                }
            }
        }
    }
}

/// Remove sessions which are no longer present, including missing database
/// rows. Returns the identities removed, each once, so that the caller can
/// drop them from the search index.
pub fn prune_stale_sessions(state: &mut IndexState, discovered: &[SessionLocator]) -> (stale: Vec<String>)
    requires
        old(state).wf(),
    ensures
        final(state).wf(),
        final(state)@ == (IndexStateModel {
            sessions: old(state)@.sessions.restrict(discovered_identities(discovered@)),
            ..old(state)@
        }),
        texts_model(stale@).no_duplicates(),
        forall|k: Seq<char>| #[trigger] texts_model(stale@).contains(k) == (old(state)@.sessions.contains_key(k)
            && !discovered_identities(discovered@).contains(k)),
{
    let ghost keep = discovered_identities(discovered@);
    let ghost start = state@;
    let identities = state.identities();
    let ghost ids = texts_model(identities@);
    let mut stale: Vec<String> = Vec::new();
    let mut i: usize = 0;
    while i < identities.len()
        invariant
            0 <= i <= identities@.len(),
            ids == texts_model(identities@),
            keep == discovered_identities(discovered@),
            texts_model(stale@) == not_kept(ids.take(i as int), keep),
        decreases identities.len() - i,
    {
        assert(ids.take(i as int + 1).drop_last() =~= ids.take(i as int));
        assert(ids[i as int] == identities@[i as int]@);
        assert(ids.take(i as int + 1).last() == identities@[i as int]@);
        if !is_discovered(identities[i].as_str(), discovered) {
            let ghost before = texts_model(stale@);
            stale.push(identities[i].clone());
            assert(texts_model(stale@) =~= before.push(identities@[i as int]@));
        }
        i += 1;
    }
    assert(ids.take(i as int) =~= ids);
    proof {
        lemma_not_kept(ids, keep);
    }
    let ghost removed = texts_model(stale@);
    let mut j: usize = 0;
    assert(removed.take(0).to_set() =~= Set::<Seq<char>>::empty());
    assert(start.sessions.remove_keys(Set::<Seq<char>>::empty()) =~= start.sessions);
    while j < stale.len()
        invariant
            0 <= j <= stale@.len(),
            removed == texts_model(stale@),
            state.wf(),
            state@ == (IndexStateModel { sessions: start.sessions.remove_keys(removed.take(j as int).to_set()), ..start }),
        decreases stale.len() - j,
    {
        state.remove(stale[j].as_str());
        assert(removed.take(j as int + 1) =~= removed.take(j as int).push(removed[j as int]));
        assert(removed.take(j as int + 1).to_set() =~= removed.take(j as int).to_set().insert(removed[j as int])) by {
            broadcast use vstd::seq_lib::group_seq_properties;
        }
        assert(state@.sessions =~= start.sessions.remove_keys(removed.take(j as int + 1).to_set()));
        j += 1;
    }
    assert(removed.take(j as int) =~= removed);
    assert(state@.sessions =~= start.sessions.restrict(keep)) by {
        assert forall|k: Seq<char>| #[trigger] removed.to_set().contains(k) == removed.contains(k) by {
            broadcast use vstd::seq_lib::group_seq_properties;
        }
    }
    stale
}

/// What the caller must do after one session of a batch was handled.
#[derive(Debug)]
pub struct IndexStep {
    /// Write the parsed session to the search index (it parsed and has messages).
    pub write_session: bool,
    /// Report this progress (every 50 sessions and at the end of the batch).
    pub progress: Option<IndexProgress>,
    /// Commit the search index and notify for a reload (every 200 sessions).
    pub commit_and_reload: bool,
}

/// The decisions of indexing one batch of sessions, one session at a time.
/// The caller deletes each session's old documents, parses it, hands the
/// outcome to [`IndexRun::step`], and carries out the returned [`IndexStep`];
/// after the batch it commits once more.
#[derive(Debug)]
pub struct IndexRun {
    total: usize,
    done: usize,
    indexed: usize,
}

/// The mathematical value of an [`IndexRun`].
pub struct IndexRunModel {
    /// The number of sessions in the batch.
    pub total: nat,
    /// The number of sessions handled so far.
    pub done: nat,
    /// The number of sessions that parsed so far.
    pub indexed: nat,
}

impl View for IndexRun {
    type V = IndexRunModel;

    closed spec fn view(&self) -> IndexRunModel {
        IndexRunModel { total: self.total as nat, done: self.done as nat, indexed: self.indexed as nat }
    }
}

/// Whether progress is reported after the `handled`-th session of a batch of `total`.
pub open spec fn progress_due(handled: nat, total: nat) -> bool {
    handled % 50 == 0 || handled == total
}

/// Whether the search index is committed after the `handled`-th session.
pub open spec fn commit_due(handled: nat) -> bool {
    handled % 200 == 0
}

impl IndexRun {
    /// Well-formedness: no more sessions parsed than handled, nor handled than in the batch.
    pub closed spec fn wf(&self) -> bool {
        self.indexed <= self.done <= self.total
    }

    /// A run over a batch of `total` sessions.
    pub fn new(total: usize) -> (r: Self)
        ensures
            r.wf(),
            r@ == (IndexRunModel { total: total as nat, done: 0, indexed: 0 }),
    {
        IndexRun { total, done: 0, indexed: 0 }
    }

    /// The number of sessions that parsed so far.
    pub fn indexed(&self) -> (r: usize)
        ensures
            r == self@.indexed,
    {
        self.indexed
    }

    /// Whether every session of the batch was handled.
    pub fn is_finished(&self) -> (r: bool)
        ensures
            r == (self@.done == self@.total),
    {
        self.done == self.total
    }

    /// Handles the next session of the batch, given whether it parsed
    /// (`Some`, with whether it has messages) or failed (`None`). A session
    /// that parsed is recorded as indexed, even when empty, so that it is not
    /// reprocessed; one that failed is forgotten, so that it is retried.
    pub fn step(&mut self, state: &mut IndexState, locator: &SessionLocator, parsed: Option<bool>) -> (r: IndexStep)
        requires
            old(self).wf(),
            old(self)@.done < old(self)@.total,
            old(state).wf(),
        ensures
            final(self).wf(),
            final(self)@ == (IndexRunModel {
                done: old(self)@.done + 1,
                indexed: if parsed is Some {
                    old(self)@.indexed + 1
                } else {
                    old(self)@.indexed
                },
                ..old(self)@
            }),
            final(state).wf(),
            final(state)@ == (IndexStateModel {
                sessions: if parsed is Some {
                    old(state)@.sessions.insert(locator.identity@, locator.fingerprint@)
                } else {
                    old(state)@.sessions.remove(locator.identity@)
                },
                ..old(state)@
            }),
            needs_reindex_in(final(state)@.sessions, locator@) == (parsed is None),
            r.write_session == (parsed == Some(true)),
            r.progress is Some == progress_due(final(self)@.done, final(self)@.total),
            r.progress matches Some(p) ==> p.indexed == final(self)@.done && p.total == final(self)@.total,
            r.commit_and_reload == commit_due(final(self)@.done),
    {
        match parsed {
            Some(_) => {
                state.mark_indexed(locator);
                self.indexed = self.indexed + 1;
            },
            None => {
                state.remove(locator.identity.as_str());
            },
        }
        self.done = self.done + 1;
        let handled = self.done;
        let progress = if handled % 50 == 0 || handled == self.total {
            Some(IndexProgress { indexed: handled, total: self.total })
        } else {
            None
        };
        IndexStep {
            write_session: parsed == Some(true),
            progress,
            commit_and_reload: handled % 200 == 0,
        }
    }
}

} // verus!
