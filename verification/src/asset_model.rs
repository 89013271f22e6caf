//! The asset registry as a mathematical value, and what holds of it: one
//! reference per path, pending sets that only shrink while the loader
//! reports, sessions that are settled once they are ready.

use vstd::prelude::*;

verus! {

/// The kinds of content that the registry tracks. Each kind has a table of
/// its own: a path names at most one asset of each kind.
#[derive(Clone, Copy, Debug, PartialEq, Eq, Structural)]
pub enum AssetKind {
    Image,
    Scene,
    Animation,
}

/// A reference to a requested asset: its kind and its place in that kind's
/// table. Two references are the same asset exactly if they are equal.
#[derive(Clone, Copy, Debug, PartialEq, Eq, Structural)]
pub struct AssetRef {
    pub kind: AssetKind,
    pub index: usize,
}

/// How far the load of an asset has come. `Loaded` and `Failed` are terminal.
#[derive(Clone, Copy, Debug, PartialEq, Eq, Structural)]
pub enum LoadState {
    Loading,
    Loaded,
    Failed,
}

impl LoadState {
    pub open spec fn terminal(self) -> bool {
        self != LoadState::Loading
    }

    /// Whether the load has ended, well or badly.
    pub fn is_terminal(self) -> (r: bool)
        ensures
            r == self.terminal(),
    {
        match self {
            LoadState::Loading => false,
            LoadState::Loaded => true,
            LoadState::Failed => true,
        }
    }
}

/// What the loader reported of one asset.
#[derive(Clone, Copy, Debug, PartialEq, Eq, Structural)]
pub struct Observation {
    pub asset: AssetRef,
    pub state: LoadState,
}

/// One requested asset, as the registry's model sees it.
pub struct AssetRecord {
    pub path: Seq<char>,
    pub session: usize,
    pub state: LoadState,
}

/// Some record has the path.
pub open spec fn has_path(records: Seq<AssetRecord>, path: Seq<char>) -> bool {
    exists|i: int| 0 <= i < records.len() && (#[trigger] records[i]).path == path
}

/// The place of a record with the path, where one exists.
pub open spec fn index_of_path(records: Seq<AssetRecord>, path: Seq<char>) -> int {
    choose|i: int| 0 <= i < records.len() && (#[trigger] records[i]).path == path
}

/// No two records have the same path.
pub open spec fn distinct_paths(records: Seq<AssetRecord>) -> bool {
    forall|i: int, j: int|
        0 <= i < j < records.len() ==> (#[trigger] records[i]).path != (#[trigger] records[j]).path
}

/// The handle that follows `session`, or the last handle where none follows.
pub open spec fn handle_after(session: usize) -> nat {
    if session < usize::MAX {
        (session + 1) as nat
    } else {
        usize::MAX as nat
    }
}

/// The registry as a mathematical value: how many session handles are in
/// use, and the requested assets of each kind in the order of their first
/// request.
pub struct RegistryModel {
    pub sessions: nat,
    pub images: Seq<AssetRecord>,
    pub scenes: Seq<AssetRecord>,
    pub animations: Seq<AssetRecord>,
}

impl RegistryModel {
    pub open spec fn table(self, kind: AssetKind) -> Seq<AssetRecord> {
        match kind {
            AssetKind::Image => self.images,
            AssetKind::Scene => self.scenes,
            AssetKind::Animation => self.animations,
        }
    }

    pub open spec fn with_table(self, kind: AssetKind, records: Seq<AssetRecord>) -> RegistryModel {
        match kind {
            AssetKind::Image => RegistryModel { images: records, ..self },
            AssetKind::Scene => RegistryModel { scenes: records, ..self },
            AssetKind::Animation => RegistryModel { animations: records, ..self },
        }
    }

    /// The registry has handed out `asset`.
    pub open spec fn knows(self, asset: AssetRef) -> bool {
        asset.index < self.table(asset.kind).len()
    }

    pub open spec fn record(self, asset: AssetRef) -> AssetRecord {
        self.table(asset.kind)[asset.index as int]
    }

    /// A path names at most one asset of a kind, the tables fit the index
    /// type, and every session that an asset was requested under is below
    /// the next handle to hand out (or no handle is left).
    pub open spec fn wf(self) -> bool {
        &&& self.sessions <= usize::MAX
        &&& forall|kind: AssetKind| #[trigger] self.table(kind).len() <= usize::MAX
        &&& forall|kind: AssetKind| distinct_paths(#[trigger] self.table(kind))
        &&& forall|asset: AssetRef|
            self.knows(asset) ==> (#[trigger] self.record(asset)).session < self.sessions
                || self.sessions == usize::MAX
    }

    /// The registry without any session or asset.
    pub open spec fn empty() -> RegistryModel {
        RegistryModel { sessions: 0, images: seq![], scenes: seq![], animations: seq![] }
    }

    /// One more handle is in use.
    pub open spec fn new_session(self) -> RegistryModel {
        RegistryModel { sessions: self.sessions + 1, ..self }
    }

    /// The number of handles in use once `session` is: a handle that was not
    /// handed out yet comes into use together with those below it.
    pub open spec fn sessions_with(self, session: usize) -> nat {
        if session < self.sessions {
            self.sessions
        } else {
            handle_after(session)
        }
    }

    /// The reference that a request for `path` returns: that of the record
    /// with the path, or the next free place of the table.
    pub open spec fn request_handle(self, kind: AssetKind, path: Seq<char>) -> AssetRef {
        if has_path(self.table(kind), path) {
            AssetRef { kind, index: index_of_path(self.table(kind), path) as usize }
        } else {
            AssetRef { kind, index: self.table(kind).len() as usize }
        }
    }

    /// The registry after a request: a known path changes no table; a new
    /// one gets a record that is loading on behalf of `session`.
    pub open spec fn request(self, session: usize, kind: AssetKind, path: Seq<char>) -> RegistryModel {
        let counted = RegistryModel { sessions: self.sessions_with(session), ..self };
        if has_path(self.table(kind), path) {
            counted
        } else {
            counted.with_table(
                kind,
                self.table(kind).push(AssetRecord { path, session, state: LoadState::Loading }),
            )
        }
    }

    /// The registry after the loader reported `state` of `asset`. Only an
    /// asset that is known and still loading changes.
    pub open spec fn observe(self, asset: AssetRef, state: LoadState) -> RegistryModel {
        if self.knows(asset) && self.record(asset).state == LoadState::Loading {
            self.with_table(
                asset.kind,
                self.table(asset.kind).update(
                    asset.index as int,
                    AssetRecord { state, ..self.record(asset) },
                ),
            )
        } else {
            self
        }
    }

    /// The registry after a list of reports, taken in order.
    pub open spec fn observe_all(self, observations: Seq<Observation>) -> RegistryModel
        decreases observations.len(),
    {
        if observations.len() == 0 {
            self
        } else {
            self.observe_all(observations.drop_last()).observe(
                observations.last().asset,
                observations.last().state,
            )
        }
    }

    /// `asset` was first requested under `session` and is still loading.
    pub open spec fn is_pending(self, asset: AssetRef, session: usize) -> bool {
        &&& self.knows(asset)
        &&& self.record(asset).session == session
        &&& self.record(asset).state == LoadState::Loading
    }

    /// `asset` was first requested under `session` and its load failed.
    pub open spec fn has_failed(self, asset: AssetRef, session: usize) -> bool {
        &&& self.knows(asset)
        &&& self.record(asset).session == session
        &&& self.record(asset).state == LoadState::Failed
    }

    /// The pending set of `session`.
    pub open spec fn pending(self, session: usize) -> Set<AssetRef> {
        Set::new(|asset: AssetRef| self.is_pending(asset, session))
    }

    /// The pending set of `session` is empty.
    pub open spec fn ready(self, session: usize) -> bool {
        forall|asset: AssetRef| !self.is_pending(asset, session)
    }
}

proof fn lemma_observe_tables(model: RegistryModel, asset: AssetRef, state: LoadState)
    requires
        model.knows(asset),
        model.record(asset).state == LoadState::Loading,
    ensures
        forall|k: AssetKind| #[trigger]
            model.observe(asset, state).table(k).len() == model.table(k).len(),
        forall|a: AssetRef|
            model.knows(a) && a != asset ==> #[trigger] model.observe(asset, state).record(a)
                == model.record(a),
        model.observe(asset, state).record(asset) == (AssetRecord {
            state,
            ..model.record(asset)
        }),
        model.observe(asset, state).sessions == model.sessions,
{
    let after = model.observe(asset, state);
    assert(forall|k: AssetKind| k != asset.kind ==> #[trigger] after.table(k) == model.table(k));
    assert(after.table(asset.kind) == model.table(asset.kind).update(
        asset.index as int,
        AssetRecord { state, ..model.record(asset) },
    ));
}

/// A report keeps the registry's model well formed.
pub proof fn lemma_observe_wf(model: RegistryModel, asset: AssetRef, state: LoadState)
    requires
        model.wf(),
    ensures
        model.observe(asset, state).wf(),
{
    let after = model.observe(asset, state);
    if model.knows(asset) && model.record(asset).state == LoadState::Loading {
        lemma_observe_tables(model, asset, state);
        assert forall|k: AssetKind| #[trigger] after.table(k).len() <= usize::MAX by {
            assert(model.table(k).len() <= usize::MAX);
        }
        assert forall|k: AssetKind| distinct_paths(#[trigger] after.table(k)) by {
            assert(distinct_paths(model.table(k)));
            let t = after.table(k);
            assert forall|i: int, j: int| 0 <= i < j < t.len() implies (#[trigger] t[i]).path != (
            #[trigger] t[j]).path by {
                let a = AssetRef { kind: k, index: i as usize };
                let b = AssetRef { kind: k, index: j as usize };
                assert(model.table(k).len() <= usize::MAX);
                assert(t[i].path == model.record(a).path) by {
                    if a != asset {
                        assert(after.record(a) == model.record(a));
                    }
                }
                assert(t[j].path == model.record(b).path) by {
                    if b != asset {
                        assert(after.record(b) == model.record(b));
                    }
                }
                assert(model.table(k)[i].path != model.table(k)[j].path);
            }
        }
        assert forall|a: AssetRef| after.knows(a) implies (#[trigger] after.record(a)).session
            < after.sessions || after.sessions == usize::MAX by {
            assert(model.knows(a));
            assert(model.record(a).session < model.sessions || model.sessions == usize::MAX);
            if a != asset {
                assert(after.record(a) == model.record(a));
            }
        }
    }
}

/// What one report changes of an asset `a`: nothing but the state, and that
/// only of the reported asset while it is loading.
pub proof fn lemma_observe_record(model: RegistryModel, asset: AssetRef, state: LoadState, a: AssetRef)
    ensures
        model.observe(asset, state).knows(a) == model.knows(a),
        model.observe(asset, state).sessions == model.sessions,
        model.knows(a) ==> model.observe(asset, state).record(a).path == model.record(a).path,
        model.knows(a) ==> model.observe(asset, state).record(a).session == model.record(
            a,
        ).session,
        model.knows(a) ==> model.observe(asset, state).record(a).state == (if a == asset
            && model.record(a).state == LoadState::Loading {
            state
        } else {
            model.record(a).state
        }),
{
    if model.knows(asset) && model.record(asset).state == LoadState::Loading {
        lemma_observe_tables(model, asset, state);
        assert(model.observe(asset, state).table(a.kind).len() == model.table(a.kind).len());
    }
}

/// Reports never add to a pending set, never touch a terminal state, and
/// never change which assets are known or under which session they were
/// requested.
pub proof fn lemma_observations_only_settle(
    model: RegistryModel,
    observations: Seq<Observation>,
    a: AssetRef,
)
    ensures
        model.observe_all(observations).knows(a) == model.knows(a),
        model.observe_all(observations).sessions == model.sessions,
        model.knows(a) ==> model.observe_all(observations).record(a).path == model.record(a).path,
        model.knows(a) ==> model.observe_all(observations).record(a).session == model.record(
            a,
        ).session,
        model.knows(a) && model.record(a).state.terminal() ==> model.observe_all(
            observations,
        ).record(a).state == model.record(a).state,
        forall|session: usize|
            model.observe_all(observations).is_pending(a, session) ==> model.is_pending(
                a,
                session,
            ),
    decreases observations.len(),
{
    if observations.len() > 0 {
        let earlier = model.observe_all(observations.drop_last());
        lemma_observations_only_settle(model, observations.drop_last(), a);
        lemma_observe_record(earlier, observations.last().asset, observations.last().state, a);
    }
}

/// A session that is ready stays ready, whatever the loader reports.
pub proof fn lemma_ready_stays_ready(
    model: RegistryModel,
    observations: Seq<Observation>,
    session: usize,
)
    requires
        model.ready(session),
    ensures
        model.observe_all(observations).ready(session),
{
    assert forall|a: AssetRef| !model.observe_all(observations).is_pending(a, session) by {
        lemma_observations_only_settle(model, observations, a);
        assert(!model.is_pending(a, session));
    }
}

/// An asset of which a terminal state was reported is pending no more.
pub proof fn lemma_terminal_report_settles(
    model: RegistryModel,
    observations: Seq<Observation>,
    i: int,
    session: usize,
)
    requires
        0 <= i < observations.len(),
        observations[i].state.terminal(),
    ensures
        !model.observe_all(observations).is_pending(observations[i].asset, session),
    decreases observations.len(),
{
    let earlier = model.observe_all(observations.drop_last());
    let last = observations.last();
    lemma_observe_record(earlier, last.asset, last.state, observations[i].asset);
    if i < observations.len() - 1 {
        assert(observations.drop_last()[i] == observations[i]);
        lemma_terminal_report_settles(model, observations.drop_last(), i, session);
    }
}

/// In a ready session every asset that was requested under it has reached a
/// terminal state.
pub proof fn lemma_ready_session_is_settled(model: RegistryModel, session: usize, asset: AssetRef)
    requires
        model.ready(session),
        model.knows(asset),
        model.record(asset).session == session,
    ensures
        model.record(asset).state.terminal(),
{
    assert(!model.is_pending(asset, session));
}

/// Once a path was requested, a request for it under any session returns
/// the same reference, adds no record and leaves every pending set as it is.
pub proof fn lemma_request_deduplicates(
    model: RegistryModel,
    first: usize,
    second: usize,
    kind: AssetKind,
    path: Seq<char>,
)
    requires
        model.wf(),
    ensures
        model.request(first, kind, path).request_handle(kind, path) == model.request_handle(
            kind,
            path,
        ),
        forall|k: AssetKind| #[trigger]
            model.request(first, kind, path).request(second, kind, path).table(k)
                == model.request(first, kind, path).table(k),
        forall|a: AssetRef, s: usize| #[trigger]
            model.request(first, kind, path).request(second, kind, path).is_pending(a, s)
                == model.request(first, kind, path).is_pending(a, s),
{
    let once = model.request(first, kind, path);
    let table = model.table(kind);
    assert(model.table(kind).len() <= usize::MAX);
    if has_path(table, path) {
        assert(once.table(kind) == table);
    } else {
        let added = AssetRecord { path, session: first, state: LoadState::Loading };
        assert(once.table(kind) == table.push(added));
        assert(once.table(kind)[table.len() as int].path == path);
        assert(has_path(once.table(kind), path));
        let chosen = index_of_path(once.table(kind), path);
        if chosen < table.len() {
            assert(table[chosen].path == path);
        }
    }
    let twice = once.request(second, kind, path);
    assert(has_path(once.table(kind), path));
    assert(forall|k: AssetKind| #[trigger] twice.table(k) == once.table(k));
}

/// Requests for different paths return different references.
pub proof fn lemma_paths_keep_apart(
    model: RegistryModel,
    first: usize,
    kind: AssetKind,
    path: Seq<char>,
    other: Seq<char>,
)
    requires
        model.wf(),
        model.request(first, kind, path).wf(),
        path != other,
    ensures
        model.request(first, kind, path).request_handle(kind, other) != model.request_handle(
            kind,
            path,
        ),
{
    let once = model.request(first, kind, path);
    let table = model.table(kind);
    let grown = once.table(kind);
    assert(table.len() <= usize::MAX);
    assert(grown.len() <= usize::MAX);
    if has_path(table, path) {
        assert(grown == table);
        let here = index_of_path(table, path);
        assert(table[here].path == path);
        if has_path(grown, other) {
            let there = index_of_path(grown, other);
            assert(grown[there].path == other);
        }
    } else {
        let added = AssetRecord { path, session: first, state: LoadState::Loading };
        assert(grown == table.push(added));
        assert(grown[table.len() as int].path == path);
        if has_path(grown, other) {
            let there = index_of_path(grown, other);
            assert(grown[there].path == other);
        }
    }
}

} // verus!
