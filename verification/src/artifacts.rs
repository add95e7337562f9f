//! The artifact store: an in-memory index from artifact identity to
//! lifecycle state.
//!
//! The store is owned and mutated by the host's event loop alone; every
//! other component learns of state changes through messages. An artifact is
//! `Preparing` while its one preparation job is in flight, `Prepared` once
//! it can be executed, and `FailedToProcess` forever after a preparation
//! failure: failures are cached and never retried within one process life.

use vstd::prelude::*;
use vstd::seq_lib::*;

use crate::artifact::ArtifactId;
use crate::channel::PrepareResultSender;
use crate::error::PrepareError;
use crate::error::PrepareErrorView;

verus! {

/// Lifecycle state of one artifact.
pub enum ArtifactState {
    /// A preparation job is in flight. Every precheck caller that asks while
    /// it runs is queued here, and all are answered identically when the job
    /// concludes.
    Preparing { waiting_for_response: Vec<PrepareResultSender> },
    /// The artifact is ready to execute; `last_time_needed` is refreshed on
    /// every access and drives eviction.
    Prepared { last_time_needed: u64 },
    /// Preparation failed terminally; the error is replayed to every later
    /// requester without another attempt.
    FailedToProcess(PrepareError),
}

/// Mathematical value of an [`ArtifactState`].
pub enum ArtifactStateView {
    Preparing { waiting: Seq<PrepareResultSender> },
    Prepared { last_time_needed: u64 },
    Failed(PrepareErrorView),
}

impl View for ArtifactState {
    type V = ArtifactStateView;

    open spec fn view(&self) -> ArtifactStateView {
        match self {
            ArtifactState::Preparing { waiting_for_response } => {
                ArtifactStateView::Preparing { waiting: waiting_for_response@ }
            },
            ArtifactState::Prepared { last_time_needed } => {
                ArtifactStateView::Prepared { last_time_needed: *last_time_needed }
            },
            ArtifactState::FailedToProcess(e) => ArtifactStateView::Failed(e@),
        }
    }
}

/// Mathematical value of the store: the entries in insertion order, each an
/// identity with its state.
pub type StoreView = Seq<(Seq<u8>, ArtifactStateView)>;

/// No two entries share an identity.
pub open spec fn store_wf(s: StoreView) -> bool {
    forall|i: int, j: int| 0 <= i < j < s.len() ==> s[i].0 != s[j].0
}

/// Whether the store has an entry for `id`.
pub open spec fn has_artifact(s: StoreView, id: Seq<u8>) -> bool {
    exists|i: int| 0 <= i < s.len() && s[i].0 == id
}

/// The index of the entry for `id`.
pub open spec fn index_of(s: StoreView, id: Seq<u8>) -> int {
    choose|i: int| 0 <= i < s.len() && s[i].0 == id
}

/// The state recorded for `id`.
pub open spec fn state_of(s: StoreView, id: Seq<u8>) -> ArtifactStateView {
    s[index_of(s, id)].1
}

/// The store with the entry for `id` set to `st`, everything else unchanged.
pub open spec fn set_state(s: StoreView, id: Seq<u8>, st: ArtifactStateView) -> StoreView {
    s.update(index_of(s, id), (id, st))
}

/// In a well-formed store the entry for an identity is unique, so any index
/// that holds `id` is the index `index_of` picks.
pub proof fn lemma_index_of_unique(s: StoreView, id: Seq<u8>, i: int)
    requires
        store_wf(s),
        0 <= i < s.len(),
        s[i].0 == id,
    ensures
        index_of(s, id) == i,
        has_artifact(s, id),
{
    assert(has_artifact(s, id));
    let j = index_of(s, id);
    assert(0 <= j < s.len() && s[j].0 == id);
    if i < j {
        assert(s[i].0 != s[j].0);
    } else if j < i {
        assert(s[j].0 != s[i].0);
    }
}

/// Whether a prepared artifact's time-to-live has run out by `now`.
pub open spec fn is_expired(st: ArtifactStateView, artifact_ttl: u64, now: u64) -> bool {
    match st {
        ArtifactStateView::Prepared { last_time_needed } => last_time_needed + artifact_ttl < now,
        _ => false,
    }
}

/// Holds of an entry a cleanup pass at `now` keeps.
pub open spec fn not_expired_pred(artifact_ttl: u64, now: u64) -> spec_fn(
    (Seq<u8>, ArtifactStateView),
) -> bool {
    |e: (Seq<u8>, ArtifactStateView)| !is_expired(e.1, artifact_ttl, now)
}

/// Holds of an entry a cleanup pass at `now` evicts.
pub open spec fn expired_pred(artifact_ttl: u64, now: u64) -> spec_fn(
    (Seq<u8>, ArtifactStateView),
) -> bool {
    |e: (Seq<u8>, ArtifactStateView)| is_expired(e.1, artifact_ttl, now)
}

/// The identity of each entry, in order.
pub open spec fn entry_ids(s: StoreView) -> Seq<Seq<u8>> {
    s.map_values(|e: (Seq<u8>, ArtifactStateView)| e.0)
}

/// The mathematical value of each identity in `s`, in order.
pub open spec fn id_views(s: Seq<ArtifactId>) -> Seq<Seq<u8>> {
    s.map_values(|a: ArtifactId| a@)
}

/// The entries a cleanup pass at `now` keeps: everything that is not an
/// expired prepared artifact. `Preparing` and `FailedToProcess` entries are
/// never time-evicted.
pub open spec fn kept_entries(s: StoreView, artifact_ttl: u64, now: u64) -> StoreView {
    s.filter(not_expired_pred(artifact_ttl, now))
}

/// The identities a cleanup pass at `now` evicts, in store order.
pub open spec fn swept_ids(s: StoreView, artifact_ttl: u64, now: u64) -> Seq<Seq<u8>> {
    entry_ids(s.filter(expired_pred(artifact_ttl, now)))
}

/// The artifact store.
pub struct Artifacts {
    entries: Vec<(ArtifactId, ArtifactState)>,
}

impl View for Artifacts {
    type V = StoreView;

    closed spec fn view(&self) -> StoreView {
        self.entries@.map_values(|e: (ArtifactId, ArtifactState)| (e.0@, e.1@))
    }
}

impl Artifacts {
    /// Whether the store keeps one entry per identity.
    pub open spec fn wf(&self) -> bool {
        store_wf(self@)
    }

    /// A store with no artifacts.
    pub fn empty() -> (r: Artifacts)
        ensures
            r@ == Seq::<(Seq<u8>, ArtifactStateView)>::empty(),
            r.wf(),
    {
        let r = Artifacts { entries: Vec::new() };
        proof {
            assert(r@ =~= Seq::<(Seq<u8>, ArtifactStateView)>::empty());
        }
        r
    }

    /// The index of the entry for `id`, if the store has one.
    fn find(&self, id: &ArtifactId) -> (r: Option<usize>)
        ensures
            match r {
                Some(i) => i < self@.len() && self@[i as int].0 == id@,
                None => !has_artifact(self@, id@),
            },
    {
        let mut i: usize = 0;
        while i < self.entries.len()
            invariant
                i <= self.entries.len(),
                self@.len() == self.entries@.len(),
                forall|j: int| 0 <= j < i ==> self@[j].0 != id@,
                forall|j: int|
                    0 <= j < self.entries@.len() ==> self@[j].0 == self.entries@[j].0@,
            decreases self.entries.len() - i,
        {
            if self.entries[i].0.equals(id) {
                return Some(i);
            }
            i = i + 1;
        }
        None
    }

    /// Whether the store has an entry for `id`.
    pub fn contains(&self, id: &ArtifactId) -> (r: bool)
        ensures
            r == has_artifact(self@, id@),
    {
        match self.find(id) {
            Some(i) => {
                proof {
                    assert(has_artifact(self@, id@));
                }
                true
            },
            None => false,
        }
    }

    /// The state recorded for `id`, if the store has one.
    pub fn get(&self, id: &ArtifactId) -> (r: Option<&ArtifactState>)
        requires
            self.wf(),
        ensures
            match r {
                Some(st) => has_artifact(self@, id@) && st@ == state_of(self@, id@),
                None => !has_artifact(self@, id@),
            },
    {
        match self.find(id) {
            Some(i) => {
                proof {
                    lemma_index_of_unique(self@, id@, i as int);
                }
                Some(&self.entries[i].1)
            },
            None => None,
        }
    }

    /// Records that a preparation job for `id` is in flight, with the given
    /// precheck callers already waiting for its outcome.
    pub fn insert_preparing(&mut self, id: ArtifactId, waiting: Vec<PrepareResultSender>)
        requires
            old(self).wf(),
            !has_artifact(old(self)@, id@),
        ensures
            final(self)@ == old(self)@.push(
                (id@, ArtifactStateView::Preparing { waiting: waiting@ }),
            ),
            final(self).wf(),
            has_artifact(final(self)@, id@),
            state_of(final(self)@, id@) == (ArtifactStateView::Preparing { waiting: waiting@ }),
    {
        let ghost idv = id@;
        let ghost stv = ArtifactStateView::Preparing { waiting: waiting@ };
        self.entries.push((id, ArtifactState::Preparing { waiting_for_response: waiting }));
        proof {
            assert(self@ =~= old(self)@.push((idv, stv)));
            let n = self@.len() - 1;
            assert(self@[n].0 == idv);
            lemma_index_of_unique(self@, idv, n);
        }
    }

    /// Records `id` as prepared, last needed at `last_time_needed`.
    pub fn insert_prepared(&mut self, id: ArtifactId, last_time_needed: u64)
        requires
            old(self).wf(),
            !has_artifact(old(self)@, id@),
        ensures
            final(self)@ == old(self)@.push(
                (id@, ArtifactStateView::Prepared { last_time_needed }),
            ),
            final(self).wf(),
    {
        let ghost idv = id@;
        self.entries.push((id, ArtifactState::Prepared { last_time_needed }));
        proof {
            assert(self@ =~= old(self)@.push(
                (idv, ArtifactStateView::Prepared { last_time_needed }),
            ));
        }
    }

    /// Refreshes the eviction clock of the prepared artifact `id`.
    pub fn touch(&mut self, id: &ArtifactId, now: u64)
        requires
            old(self).wf(),
            has_artifact(old(self)@, id@),
            state_of(old(self)@, id@) is Prepared,
        ensures
            final(self)@ == set_state(
                old(self)@,
                id@,
                ArtifactStateView::Prepared { last_time_needed: now },
            ),
            final(self).wf(),
    {
        self.replace_state(id, ArtifactState::Prepared { last_time_needed: now });
    }

    /// Appends one more precheck caller to the waiting list of the preparing
    /// artifact `id`.
    pub fn push_waiter(&mut self, id: &ArtifactId, result_sender: PrepareResultSender)
        requires
            old(self).wf(),
            has_artifact(old(self)@, id@),
            state_of(old(self)@, id@) is Preparing,
        ensures
            final(self)@ == set_state(
                old(self)@,
                id@,
                ArtifactStateView::Preparing {
                    waiting: state_of(old(self)@, id@)->Preparing_waiting.push(result_sender),
                },
            ),
            final(self).wf(),
    {
        let i = match self.find(id) {
            Some(i) => i,
            None => {
                proof {
                    assert(false);
                }
                0
            },
        };
        proof {
            lemma_index_of_unique(self@, id@, i as int);
        }
        let (entry_id, state) = self.entries.remove(i);
        let mut waiting = match state {
            ArtifactState::Preparing { waiting_for_response } => waiting_for_response,
            _ => {
                proof {
                    assert(false);
                }
                Vec::new()
            },
        };
        waiting.push(result_sender);
        self.entries.insert(i, (entry_id, ArtifactState::Preparing { waiting_for_response: waiting }));
        proof {
            assert(self@ =~= set_state(
                old(self)@,
                id@,
                ArtifactStateView::Preparing {
                    waiting: state_of(old(self)@, id@)->Preparing_waiting.push(result_sender),
                },
            ));
            lemma_set_state_wf(old(self)@, id@, state_of(self@, id@));
        }
    }

    /// Concludes the in-flight preparation of `id`: replaces its state with
    /// `new_state` and hands back the precheck callers that were waiting.
    pub fn conclude_preparing(&mut self, id: &ArtifactId, new_state: ArtifactState) -> (waiters:
        Vec<PrepareResultSender>)
        requires
            old(self).wf(),
            has_artifact(old(self)@, id@),
            state_of(old(self)@, id@) is Preparing,
        ensures
            waiters@ == state_of(old(self)@, id@)->Preparing_waiting,
            final(self)@ == set_state(old(self)@, id@, new_state@),
            final(self).wf(),
    {
        let ghost stv = new_state@;
        let i = match self.find(id) {
            Some(i) => i,
            None => {
                proof {
                    assert(false);
                }
                0
            },
        };
        proof {
            lemma_index_of_unique(self@, id@, i as int);
        }
        let (entry_id, state) = self.entries.remove(i);
        self.entries.insert(i, (entry_id, new_state));
        proof {
            assert(self@ =~= set_state(old(self)@, id@, stv));
            lemma_set_state_wf(old(self)@, id@, stv);
        }
        match state {
            ArtifactState::Preparing { waiting_for_response } => waiting_for_response,
            _ => {
                proof {
                    assert(false);
                }
                Vec::new()
            },
        }
    }

    /// Replaces the state of the existing entry for `id`.
    fn replace_state(&mut self, id: &ArtifactId, new_state: ArtifactState)
        requires
            old(self).wf(),
            has_artifact(old(self)@, id@),
        ensures
            final(self)@ == set_state(old(self)@, id@, new_state@),
            final(self).wf(),
    {
        let ghost stv = new_state@;
        let i = match self.find(id) {
            Some(i) => i,
            None => {
                proof {
                    assert(false);
                }
                0
            },
        };
        proof {
            lemma_index_of_unique(self@, id@, i as int);
        }
        let (entry_id, _old_state) = self.entries.remove(i);
        self.entries.insert(i, (entry_id, new_state));
        proof {
            assert(self@ =~= set_state(old(self)@, id@, stv));
            lemma_set_state_wf(old(self)@, id@, stv);
        }
    }

    /// Removes every prepared artifact whose time-to-live has run out by
    /// `now` and returns their identities; everything else stays. The clock
    /// value `now` is supplied by the caller, so a wall-clock step backwards
    /// merely delays eviction.
    pub fn prune(&mut self, artifact_ttl: u64, now: u64) -> (to_remove: Vec<ArtifactId>)
        requires
            old(self).wf(),
        ensures
            final(self)@ == kept_entries(old(self)@, artifact_ttl, now),
            id_views(to_remove@) == swept_ids(old(self)@, artifact_ttl, now),
            final(self).wf(),
    {
        broadcast use Seq::filter_distributes_over_add;

        let mut work: Vec<(ArtifactId, ArtifactState)> = Vec::new();
        core::mem::swap(&mut self.entries, &mut work);
        let ghost orig = work@.map_values(|e: (ArtifactId, ArtifactState)| (e.0@, e.1@));
        proof {
            assert(orig == old(self)@);
            assert(self@ =~= Seq::<(Seq<u8>, ArtifactStateView)>::empty());
            assert(orig.take(0) =~= Seq::<(Seq<u8>, ArtifactStateView)>::empty());
            assert(kept_entries(orig.take(0), artifact_ttl, now) =~= self@);
            assert(swept_ids(orig.take(0), artifact_ttl, now) =~= id_views(
                Seq::<ArtifactId>::empty(),
            ));
        }
        let mut to_remove: Vec<ArtifactId> = Vec::new();
        let ghost mut i: int = 0;
        while work.len() > 0
            invariant
                0 <= i <= orig.len(),
                i + work@.len() == orig.len(),
                forall|j: int|
                    0 <= j < work@.len() ==> (#[trigger] work@[j].0@, work@[j].1@) == orig[i + j],
                self@ == kept_entries(orig.take(i), artifact_ttl, now),
                id_views(to_remove@) == swept_ids(orig.take(i), artifact_ttl, now),
            decreases work@.len(),
        {
            let ghost prefix = orig.take(i);
            let ghost entry = orig[i];
            let (id, st) = work.remove(0);
            proof {
                assert((id@, st@) == entry);
                assert(orig.take(i + 1) =~= prefix + seq![entry]);
                lemma_filter_singleton(entry, not_expired_pred(artifact_ttl, now));
                lemma_filter_singleton(entry, expired_pred(artifact_ttl, now));
            }
            let expired = match &st {
                ArtifactState::Prepared { last_time_needed } => {
                    *last_time_needed <= u64::MAX - artifact_ttl && *last_time_needed
                        + artifact_ttl < now
                },
                _ => false,
            };
            proof {
                assert(expired == is_expired(entry.1, artifact_ttl, now));
                assert(orig.take(i + 1).filter(expired_pred(artifact_ttl, now)) == prefix.filter(
                    expired_pred(artifact_ttl, now),
                ) + seq![entry].filter(expired_pred(artifact_ttl, now)));
                assert(orig.take(i + 1).filter(not_expired_pred(artifact_ttl, now))
                    == prefix.filter(not_expired_pred(artifact_ttl, now)) + seq![entry].filter(
                    not_expired_pred(artifact_ttl, now),
                ));
            }
            if expired {
                let ghost prev_ids = id_views(to_remove@);
                to_remove.push(id);
                proof {
                    assert(id_views(to_remove@) =~= prev_ids.push(id@));
                    assert(seq![entry].filter(expired_pred(artifact_ttl, now)) == seq![entry]);
                    let swept = prefix.filter(expired_pred(artifact_ttl, now)) + seq![entry];
                    assert(entry_ids(swept) =~= entry_ids(
                        prefix.filter(expired_pred(artifact_ttl, now)),
                    ).push(entry.0));
                    assert(id_views(to_remove@) =~= swept_ids(orig.take(i + 1), artifact_ttl, now));
                    assert(self@ =~= kept_entries(orig.take(i + 1), artifact_ttl, now));
                }
            } else {
                let ghost before = self@;
                self.entries.push((id, st));
                proof {
                    assert(self@ =~= before.push(entry));
                    assert(self@ =~= kept_entries(orig.take(i + 1), artifact_ttl, now));
                    assert(id_views(to_remove@) =~= swept_ids(orig.take(i + 1), artifact_ttl, now));
                }
            }
            proof {
                i = i + 1;
            }
        }
        proof {
            assert(orig.take(orig.len() as int) =~= orig);
            lemma_kept_entries_wf(old(self)@, artifact_ttl, now);
        }
        to_remove
    }
}

/// `filter` on a one-element sequence keeps or drops that element.
proof fn lemma_filter_singleton<A>(x: A, pred: spec_fn(A) -> bool)
    ensures
        seq![x].filter(pred) == if pred(x) {
            seq![x]
        } else {
            Seq::<A>::empty()
        },
{
    reveal_with_fuel(Seq::filter, 2);
    assert(seq![x].drop_last() =~= Seq::<A>::empty());
}

/// Updating one entry's state in place keeps the identities unique.
pub proof fn lemma_set_state_wf(s: StoreView, id: Seq<u8>, st: ArtifactStateView)
    requires
        store_wf(s),
        has_artifact(s, id),
    ensures
        store_wf(set_state(s, id, st)),
        has_artifact(set_state(s, id, st), id),
        state_of(set_state(s, id, st), id) == st,
        set_state(s, id, st).len() == s.len(),
        forall|j: int|
            0 <= j < s.len() && j != index_of(s, id) ==> set_state(s, id, st)[j] == s[j],
{
    let i = index_of(s, id);
    assert(0 <= i < s.len() && s[i].0 == id);
    let s2 = set_state(s, id, st);
    assert(forall|j: int| 0 <= j < s2.len() && j != i ==> s2[j] == s[j]);
    assert(s2[i].0 == id);
    lemma_index_of_unique(s2, id, i);
}

/// Filtering a well-formed store keeps it well-formed.
pub proof fn lemma_kept_entries_wf(s: StoreView, artifact_ttl: u64, now: u64)
    requires
        store_wf(s),
    ensures
        store_wf(kept_entries(s, artifact_ttl, now)),
    decreases s.len(),
{
    broadcast use Seq::filter_distributes_over_add;

    if s.len() == 0 {
        assert(kept_entries(s, artifact_ttl, now) =~= s);
    } else {
        let rest = s.drop_last();
        let last = s.last();
        assert(s =~= rest + seq![last]);
        lemma_kept_entries_wf(rest, artifact_ttl, now);
        lemma_filter_singleton(last, not_expired_pred(artifact_ttl, now));
        let kept = kept_entries(s, artifact_ttl, now);
        let kept_rest = kept_entries(rest, artifact_ttl, now);
        assert(kept == kept_rest + seq![last].filter(not_expired_pred(artifact_ttl, now)));
        assert forall|i: int, j: int| 0 <= i < j < kept.len() implies kept[i].0 != kept[j].0 by {
            lemma_filter_member_of_source(rest, not_expired_pred(artifact_ttl, now), i);
            if j < kept_rest.len() {
                lemma_filter_member_of_source(rest, not_expired_pred(artifact_ttl, now), j);
            }
        }
    }
}

/// Every element of a filtered sequence stands somewhere in the sequence
/// it was filtered from.
pub proof fn lemma_filter_member_of_source<A>(s: Seq<A>, pred: spec_fn(A) -> bool, i: int)
    requires
        0 <= i < s.filter(pred).len(),
    ensures
        exists|k: int| 0 <= k < s.len() && s[k] == s.filter(pred)[i],
    decreases s.len(),
{
    reveal_with_fuel(Seq::filter, 2);
    if s.len() > 0 {
        let rest = s.drop_last();
        if i < rest.filter(pred).len() {
            lemma_filter_member_of_source(rest, pred, i);
            let k = choose|k: int| 0 <= k < rest.len() && rest[k] == rest.filter(pred)[i];
            assert(s[k] == s.filter(pred)[i]);
        } else {
            assert(s[s.len() - 1] == s.filter(pred)[i]);
        }
    }
}


/// Whether a scan entry would be accepted into the store built from
/// `names`' first `upto` entries: its name parses and its identity is new.
pub open spec fn scan_store(names: Seq<Seq<char>>, now: u64) -> StoreView
    decreases names.len(),
{
    if names.len() == 0 {
        Seq::empty()
    } else {
        let rest = scan_store(names.drop_last(), now);
        if crate::artifact::valid_file_name(names.last()) && !has_artifact(
            rest,
            crate::artifact::parsed_id(names.last()),
        ) {
            rest.push(
                (
                    crate::artifact::parsed_id(names.last()),
                    ArtifactStateView::Prepared { last_time_needed: now },
                ),
            )
        } else {
            rest
        }
    }
}

impl Artifacts {
    /// Reconstructs the store from the file names found in the artifact
    /// cache directory at startup: every well-formed artifact file counts
    /// as prepared, last needed `now`; anything else in the directory is
    /// not ours and is ignored.
    #[verifier::loop_isolation(false)]
    pub fn from_file_names(file_names: Vec<String>, now: u64) -> (r: Artifacts)
        ensures
            r@ == scan_store(file_names@.map_values(|s: String| s@), now),
            r.wf(),
    {
        let ghost names = file_names@.map_values(|s: String| s@);
        let mut r = Artifacts::empty();
        let mut i: usize = 0;
        proof {
            assert(names.take(0) =~= Seq::<Seq<char>>::empty());
        }
        while i < file_names.len()
            invariant
                i <= file_names@.len(),
                r@ == scan_store(names.take(i as int), now),
                r.wf(),
            decreases file_names@.len() - i,
        {
            let ghost prefix = names.take(i as int);
            proof {
                assert(names.take(i + 1).drop_last() =~= prefix);
                assert(names.take(i + 1).last() == names[i as int]);
            }
            match ArtifactId::from_file_name(file_names[i].as_str()) {
                Some(id) => {
                    if !r.contains(&id) {
                        r.insert_prepared(id, now);
                    }
                },
                None => {},
            }
            i = i + 1;
        }
        proof {
            assert(names.take(names.len() as int) =~= names);
        }
        r
    }
}

} // verus!
