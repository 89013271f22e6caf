//! The asset registry: one reference per content path, and per world session
//! the set of requested assets that have not finished loading.
//!
//! The registry starts no load and asks no loader. Its caller starts the load
//! of each path that `lookup` does not find before it is requested, and hands
//! in what the loader reports.

use vstd::prelude::*;
use crate::asset_model::{
    lemma_observe_record, lemma_observe_wf, AssetKind, AssetRecord, AssetRef, LoadState,
    Observation, RegistryModel, distinct_paths, has_path, index_of_path,
};
use crate::session_table::{
    table_contains, table_contents, table_get, table_get_mut, table_insert, table_new,
    SessionTable,
};

verus! {

/// One requested asset as the registry stores it.
struct AssetEntry {
    path: String,
    session: usize,
    state: LoadState,
}

impl AssetEntry {
    spec fn record(self) -> AssetRecord {
        AssetRecord { path: self.path@, session: self.session, state: self.state }
    }
}

/// The records that a table of entries stands for.
spec fn records(entries: Seq<AssetEntry>) -> Seq<AssetRecord> {
    Seq::new(entries.len(), |i: int| entries[i].record())
}

/// The registry of requested assets.
pub struct GameAssets {
    requested: SessionTable,
    handles: usize,
    image: Vec<AssetEntry>,
    scenes: Vec<AssetEntry>,
    animations: Vec<AssetEntry>,
}

impl View for GameAssets {
    type V = RegistryModel;

    closed spec fn view(&self) -> RegistryModel {
        RegistryModel {
            sessions: self.handles as nat,
            images: records(self.image@),
            scenes: records(self.scenes@),
            animations: records(self.animations@),
        }
    }
}

/// Removes `asset` from a list without repetitions, as the registry does:
/// the last item takes the place of the one that leaves.
fn remove_asset(list: &mut Vec<AssetRef>, asset: AssetRef)
    requires
        old(list)@.no_duplicates(),
    ensures
        final(list)@.no_duplicates(),
        forall|a: AssetRef| final(list)@.contains(a) <==> old(list)@.contains(a) && a != asset,
{
    let mut idx: usize = 0;
    while idx < list.len() && !(list[idx] == asset)
        invariant
            list@ == old(list)@,
            idx <= list.len(),
            forall|j: int| 0 <= j < idx ==> list@[j] != asset,
        decreases list.len() - idx,
    {
        idx = idx + 1;
    }
    if idx < list.len() {
        let ghost before = list@;
        list.swap_remove(idx);
        proof {
            let after = list@;
            assert forall|i: int, j: int| 0 <= i < j < after.len() implies after[i] != after[j] by {
                let oi = if i == idx { before.len() - 1 } else { i };
                let oj = if j == idx { before.len() - 1 } else { j };
                assert(after[i] == before[oi]);
                assert(after[j] == before[oj]);
            }
            assert forall|a: AssetRef| after.contains(a) <==> before.contains(a) && a != asset by {
                if after.contains(a) {
                    let i = choose|i: int| 0 <= i < after.len() && after[i] == a;
                    let oi = if i == idx { before.len() - 1 } else { i };
                    assert(before[oi] == a);
                    assert(before[idx as int] == asset);
                }
                if before.contains(a) && a != asset {
                    let i = choose|i: int| 0 <= i < before.len() && before[i] == a;
                    let ni = if i == before.len() - 1 { idx as int } else { i };
                    assert(i != idx);
                    assert(after[ni] == a);
                }
            }
        }
    } else {
        proof {
            assert forall|a: AssetRef| list@.contains(a) implies a != asset by {
                let i = choose|i: int| 0 <= i < list@.len() && list@[i] == a;
            }
        }
    }
}

/// `lists` holds, per session, exactly the assets pending under it, each
/// once.
spec fn indexed(model: RegistryModel, lists: Map<usize, Seq<AssetRef>>) -> bool {
    &&& forall|session: usize, i: int|
        lists.contains_key(session) && 0 <= i < lists[session].len() ==> model.is_pending(
            #[trigger] lists[session][i],
            session,
        )
    &&& forall|session: usize|
        lists.contains_key(session) ==> (#[trigger] lists[session]).no_duplicates()
    &&& forall|asset: AssetRef, session: usize| #[trigger]
        model.is_pending(asset, session) ==> lists.contains_key(session)
            && lists[session].contains(asset)
}

/// The model after a record was added to the table of `kind`.
spec fn grown(model: RegistryModel, kind: AssetKind, record: AssetRecord) -> RegistryModel {
    model.with_table(kind, model.table(kind).push(record))
}

proof fn lemma_grown_pending(model: RegistryModel, kind: AssetKind, record: AssetRecord)
    requires
        model.table(kind).len() < usize::MAX,
        record.state == LoadState::Loading,
    ensures
        forall|a: AssetRef, s: usize| #[trigger]
            grown(model, kind, record).is_pending(a, s) == (model.is_pending(a, s) || (a
                == AssetRef { kind, index: model.table(kind).len() as usize } && s
                == record.session)),
{
    let after = grown(model, kind, record);
    let asset = AssetRef { kind, index: model.table(kind).len() as usize };
    assert(after.table(kind) == model.table(kind).push(record));
    assert(forall|k: AssetKind| k != kind ==> #[trigger] after.table(k) == model.table(k));
    assert forall|a: AssetRef, s: usize| #[trigger]
        after.is_pending(a, s) == (model.is_pending(a, s) || (a == asset && s
            == record.session)) by {
        if a == asset {
            assert(after.record(a) == record);
        } else if model.knows(a) {
            assert(after.record(a) == model.record(a));
        }
    }
}

proof fn lemma_grown_wf(model: RegistryModel, kind: AssetKind, record: AssetRecord)
    requires
        model.wf(),
        model.table(kind).len() < usize::MAX,
        !has_path(model.table(kind), record.path),
        record.session < model.sessions || model.sessions == usize::MAX,
    ensures
        grown(model, kind, record).wf(),
{
    let after = grown(model, kind, record);
    let asset = AssetRef { kind, index: model.table(kind).len() as usize };
    assert(after.table(kind) == model.table(kind).push(record));
    assert(forall|k: AssetKind| k != kind ==> #[trigger] after.table(k) == model.table(k));
    assert forall|k: AssetKind| distinct_paths(#[trigger] after.table(k)) by {
        assert(distinct_paths(model.table(k)));
        if k == kind {
            let t = after.table(k);
            assert forall|i: int, j: int| 0 <= i < j < t.len() implies (#[trigger] t[i]).path != (
            #[trigger] t[j]).path by {
                assert(t[i] == model.table(k)[i]);
                if j == t.len() - 1 {
                    assert(model.table(k)[i].path != record.path);
                } else {
                    assert(t[j] == model.table(k)[j]);
                }
            }
        }
    }
    assert forall|k: AssetKind| #[trigger] after.table(k).len() <= usize::MAX by {
        assert(model.table(k).len() <= usize::MAX);
    }
    assert forall|a: AssetRef| after.knows(a) implies (#[trigger] after.record(a)).session
        < after.sessions || after.sessions == usize::MAX by {
        if a == asset {
            assert(after.record(a) == record);
        } else {
            assert(model.knows(a));
            assert(after.record(a) == model.record(a));
            assert(model.record(a).session < model.sessions || model.sessions == usize::MAX);
        }
    }
}

proof fn lemma_grown_indexed(
    model: RegistryModel,
    lists: Map<usize, Seq<AssetRef>>,
    kind: AssetKind,
    record: AssetRecord,
)
    requires
        indexed(model, lists),
        model.table(kind).len() < usize::MAX,
        record.state == LoadState::Loading,
        lists.contains_key(record.session),
    ensures
        indexed(
            grown(model, kind, record),
            lists.insert(
                record.session,
                lists[record.session].push(
                    AssetRef { kind, index: model.table(kind).len() as usize },
                ),
            ),
        ),
{
    let after = grown(model, kind, record);
    let asset = AssetRef { kind, index: model.table(kind).len() as usize };
    let home = record.session;
    let relisted = lists.insert(home, lists[home].push(asset));
    lemma_grown_pending(model, kind, record);
    assert forall|s: usize, i: int|
        relisted.contains_key(s) && 0 <= i < relisted[s].len() implies after.is_pending(
        #[trigger] relisted[s][i],
        s,
    ) by {
        if s == home {
            if i < lists[s].len() {
                assert(model.is_pending(lists[s][i], s));
            }
        } else {
            assert(model.is_pending(lists[s][i], s));
        }
    }
    assert forall|s: usize| relisted.contains_key(s) implies (
    #[trigger] relisted[s]).no_duplicates() by {
        assert(lists[s].no_duplicates());
        if s == home {
            assert forall|i: int| 0 <= i < lists[s].len() implies lists[s][i] != asset by {
                assert(model.is_pending(lists[s][i], s));
            }
        }
    }
    assert forall|a: AssetRef, s: usize| #[trigger]
        after.is_pending(a, s) implies relisted.contains_key(s) && relisted[s].contains(a) by {
        if model.is_pending(a, s) {
            assert(lists[s].contains(a));
            let i = choose|i: int| 0 <= i < lists[s].len() && lists[s][i] == a;
            assert(relisted[s][i] == a);
        } else {
            assert(relisted[s][lists[s].len() as int] == asset);
        }
    }
}

proof fn lemma_settled_indexed(
    model: RegistryModel,
    lists: Map<usize, Seq<AssetRef>>,
    asset: AssetRef,
    state: LoadState,
    shorter: Seq<AssetRef>,
)
    requires
        indexed(model, lists),
        model.knows(asset),
        model.record(asset).state == LoadState::Loading,
        state.terminal(),
        lists.contains_key(model.record(asset).session),
        shorter.no_duplicates(),
        forall|a: AssetRef|
            shorter.contains(a) <==> lists[model.record(asset).session].contains(a) && a != asset,
    ensures
        indexed(model.observe(asset, state), lists.insert(model.record(asset).session, shorter)),
{
    let after = model.observe(asset, state);
    let home = model.record(asset).session;
    let relisted = lists.insert(home, shorter);
    assert forall|a: AssetRef, s: usize| #[trigger]
        after.is_pending(a, s) == (model.is_pending(a, s) && a != asset) by {
        lemma_observe_record(model, asset, state, a);
    }
    assert forall|s: usize, i: int|
        relisted.contains_key(s) && 0 <= i < relisted[s].len() implies after.is_pending(
        #[trigger] relisted[s][i],
        s,
    ) by {
        let a = relisted[s][i];
        if s == home {
            assert(shorter.contains(a));
            assert(lists[s].contains(a));
            let j = choose|j: int| 0 <= j < lists[s].len() && lists[s][j] == a;
            assert(model.is_pending(lists[s][j], s));
        } else {
            assert(model.is_pending(lists[s][i], s));
            assert(model.record(a).session != home);
        }
    }
    assert forall|s: usize| relisted.contains_key(s) implies (
    #[trigger] relisted[s]).no_duplicates() by {
        if s != home {
            assert(lists[s].no_duplicates());
        }
    }
    assert forall|a: AssetRef, s: usize| #[trigger]
        after.is_pending(a, s) implies relisted.contains_key(s) && relisted[s].contains(a) by {
        assert(model.is_pending(a, s));
        assert(lists[s].contains(a));
    }
}

impl GameAssets {
    /// The per-session lists hold exactly the pending assets, each once.
    pub closed spec fn index_agrees(&self) -> bool {
        indexed(self@, table_contents(self.requested))
    }

    /// The registry's invariant.
    pub open spec fn wf(&self) -> bool {
        &&& self@.wf()
        &&& self.index_agrees()
    }

    /// A registry without sessions or assets.
    pub fn new() -> (assets: GameAssets)
        ensures
            assets.wf(),
            assets@ == RegistryModel::empty(),
    {
        let assets = GameAssets {
            requested: table_new(),
            handles: 0,
            image: Vec::new(),
            scenes: Vec::new(),
            animations: Vec::new(),
        };
        proof {
            assert(assets@.images =~= Seq::<AssetRecord>::empty());
            assert(assets@.scenes =~= Seq::<AssetRecord>::empty());
            assert(assets@.animations =~= Seq::<AssetRecord>::empty());
            assert(forall|kind: AssetKind| #[trigger] assets@.table(kind).len() == 0);
        }
        assets
    }

    /// The number of session handles in use.
    pub fn session_count(&self) -> (count: usize)
        ensures
            count == self@.sessions,
    {
        self.handles
    }

    /// Opens a world session: hands out the next unused handle. Nothing is
    /// pending under it.
    pub fn new_world(&mut self) -> (handle: usize)
        requires
            old(self).wf(),
            old(self)@.sessions < usize::MAX,
        ensures
            final(self).wf(),
            handle == old(self)@.sessions,
            final(self)@ == old(self)@.new_session(),
            final(self)@.ready(handle),
    {
        let handle = self.handles;
        self.handles += 1;
        if !table_contains(&self.requested, handle) {
            table_insert(&mut self.requested, handle, Vec::new());
        }
        proof {
            let before = old(self)@;
            let after = self@;
            assert(forall|kind: AssetKind| #[trigger] after.table(kind) == before.table(kind));
            assert forall|asset: AssetRef| after.knows(asset) implies (#[trigger] after.record(
                asset,
            )).session < after.sessions by {
                assert(before.knows(asset));
                assert(before.record(asset).session < before.sessions);
            }
            assert forall|asset: AssetRef, session: usize|
                after.is_pending(asset, session) == before.is_pending(asset, session) by {}
        }
        handle
    }

    fn entries(&self, kind: AssetKind) -> (table: &Vec<AssetEntry>)
        ensures
            records(table@) == self@.table(kind),
    {
        match kind {
            AssetKind::Image => &self.image,
            AssetKind::Scene => &self.scenes,
            AssetKind::Animation => &self.animations,
        }
    }

    /// Finds the asset of `kind` that was requested by `path`, if any was.
    pub fn lookup(&self, kind: AssetKind, path: &String) -> (found: Option<AssetRef>)
        requires
            self.wf(),
        ensures
            found.is_some() == has_path(self@.table(kind), path@),
            found.is_some() ==> found.unwrap() == self@.request_handle(kind, path@),
            found.is_some() ==> self@.knows(found.unwrap()),
    {
        let table = self.entries(kind);
        let ghost model = self@.table(kind);
        let mut i: usize = 0;
        while i < table.len()
            invariant
                i <= table.len(),
                self.wf(),
                model == self@.table(kind),
                records(table@) == model,
                forall|j: int| 0 <= j < i ==> (#[trigger] model[j]).path != path@,
            decreases table.len() - i,
        {
            if table[i].path == *path {
                proof {
                    assert(model[i as int].path == path@);
                    assert(distinct_paths(self@.table(kind)));
                    let chosen = index_of_path(model, path@);
                    assert(model[chosen].path == path@);
                    if chosen < i {
                        assert(model[chosen].path != model[i as int].path);
                    }
                    if chosen > i {
                        assert(model[i as int].path != model[chosen].path);
                    }
                }
                return Some(AssetRef { kind, index: i });
            }
            i = i + 1;
        }
        None
    }

    /// Brings `world_handle` into use: it gets a list of its own, and the
    /// next handle to hand out lies above it.
    fn count_session(&mut self, world_handle: usize)
        requires
            old(self).wf(),
        ensures
            final(self).wf(),
            final(self)@ == (RegistryModel {
                sessions: old(self)@.sessions_with(world_handle),
                ..old(self)@
            }),
            table_contents(final(self).requested).contains_key(world_handle),
    {
        if !table_contains(&self.requested, world_handle) {
            table_insert(&mut self.requested, world_handle, Vec::new());
        }
        if world_handle >= self.handles {
            self.handles = if world_handle < usize::MAX {
                world_handle + 1
            } else {
                usize::MAX
            };
        }
        proof {
            let before = old(self)@;
            let counted = self@;
            assert(forall|k: AssetKind| #[trigger] counted.table(k) == before.table(k));
            assert forall|a: AssetRef, s: usize|
                counted.is_pending(a, s) == before.is_pending(a, s) by {}
            assert forall|a: AssetRef| counted.knows(a) implies (#[trigger] counted.record(
                a,
            )).session < counted.sessions || counted.sessions == usize::MAX by {
                assert(before.knows(a));
                assert(before.record(a).session < before.sessions || before.sessions
                    == usize::MAX);
            }
        }
    }

    /// Requests the asset of `kind` at `path` on behalf of the session
    /// `world_handle`. A path that was requested before, under any session,
    /// gives the reference it gave then and changes nothing but the count of
    /// sessions. A new path gets the next reference of its kind and joins the
    /// pending set of the session; its load is then due.
    pub fn request(&mut self, world_handle: usize, kind: AssetKind, path: String) -> (asset: AssetRef)
        requires
            old(self).wf(),
        ensures
            final(self).wf(),
            final(self)@ == old(self)@.request(world_handle, kind, path@),
            asset == old(self)@.request_handle(kind, path@),
            final(self)@.knows(asset),
            final(self)@.record(asset).path == path@,
    {
        self.count_session(world_handle);
        let ghost counted = self@;
        match self.lookup(kind, &path) {
            Some(known) => {
                proof {
                    let chosen = index_of_path(counted.table(kind), path@);
                    assert(counted.table(kind)[chosen].path == path@);
                }
                known
            },
            None => {
                let ghost lists = table_contents(self.requested);
                let entry = AssetEntry { path, session: world_handle, state: LoadState::Loading };
                let ghost added = entry.record();
                let index = match kind {
                    AssetKind::Image => {
                        self.image.push(entry);
                        self.image.len() - 1
                    },
                    AssetKind::Scene => {
                        self.scenes.push(entry);
                        self.scenes.len() - 1
                    },
                    AssetKind::Animation => {
                        self.animations.push(entry);
                        self.animations.len() - 1
                    },
                };
                let asset = AssetRef { kind, index };
                proof {
                    assert(self@.table(kind) =~= counted.table(kind).push(added));
                    assert(self@ =~= grown(counted, kind, added));
                    lemma_grown_wf(counted, kind, added);
                    lemma_grown_indexed(counted, lists, kind, added);
                }
                match table_get_mut(&mut self.requested, world_handle) {
                    Some(pending) => {
                        pending.push(asset);
                    },
                    None => {},
                }
                asset
            },
        }
    }

    /// Requests the image at `path` for the session `world_handle`.
    pub fn request_image(&mut self, world_handle: usize, path: String) -> (asset: AssetRef)
        requires
            old(self).wf(),
        ensures
            final(self).wf(),
            final(self)@ == old(self)@.request(world_handle, AssetKind::Image, path@),
            asset == old(self)@.request_handle(AssetKind::Image, path@),
    {
        self.request(world_handle, AssetKind::Image, path)
    }

    /// Requests the scene at `path` for the session `world_handle`.
    pub fn request_scene(&mut self, world_handle: usize, path: String) -> (asset: AssetRef)
        requires
            old(self).wf(),
        ensures
            final(self).wf(),
            final(self)@ == old(self)@.request(world_handle, AssetKind::Scene, path@),
            asset == old(self)@.request_handle(AssetKind::Scene, path@),
    {
        self.request(world_handle, AssetKind::Scene, path)
    }

    /// Requests the animation clip at `path` for the session `world_handle`.
    pub fn request_animation(&mut self, world_handle: usize, path: String) -> (asset: AssetRef)
        requires
            old(self).wf(),
        ensures
            final(self).wf(),
            final(self)@ == old(self)@.request(world_handle, AssetKind::Animation, path@),
            asset == old(self)@.request_handle(AssetKind::Animation, path@),
    {
        self.request(world_handle, AssetKind::Animation, path)
    }

    /// The animation clip that was requested first.
    pub fn get_animation(&self) -> (asset: AssetRef)
        requires
            self@.animations.len() > 0,
        ensures
            asset == (AssetRef { kind: AssetKind::Animation, index: 0 }),
            self@.knows(asset),
    {
        AssetRef { kind: AssetKind::Animation, index: 0 }
    }

    /// The number of assets of `kind` that were requested.
    pub fn asset_count(&self, kind: AssetKind) -> (count: usize)
        ensures
            count == self@.table(kind).len(),
    {
        self.entries(kind).len()
    }

    /// The path that `asset` was requested by, or `None` for a reference
    /// that this registry did not hand out.
    pub fn path_of(&self, asset: AssetRef) -> (path: Option<String>)
        ensures
            path.is_some() == self@.knows(asset),
            path.is_some() ==> path.unwrap()@ == self@.record(asset).path,
    {
        let table = self.entries(asset.kind);
        if asset.index < table.len() {
            Some(table[asset.index].path.clone())
        } else {
            None
        }
    }

    /// The last state that was reported of `asset`, or `None` for a reference
    /// that this registry did not hand out.
    pub fn load_state(&self, asset: AssetRef) -> (state: Option<LoadState>)
        ensures
            state.is_some() == self@.knows(asset),
            state.is_some() ==> state.unwrap() == self@.record(asset).state,
    {
        let table = self.entries(asset.kind);
        if asset.index < table.len() {
            Some(table[asset.index].state)
        } else {
            None
        }
    }

    /// The assets that are pending under `world_handle`, each once: what the
    /// loader is to be asked about.
    pub fn pending_assets(&self, world_handle: usize) -> (pending: Vec<AssetRef>)
        requires
            self.wf(),
        ensures
            pending@.no_duplicates(),
            pending@.to_set() == self@.pending(world_handle),
    {
        let mut pending: Vec<AssetRef> = Vec::new();
        match table_get(&self.requested, world_handle) {
            Some(list) => {
                let mut i: usize = 0;
                while i < list.len()
                    invariant
                        i <= list.len(),
                        pending@ == list@.take(i as int),
                    decreases list.len() - i,
                {
                    pending.push(list[i]);
                    proof {
                        assert(pending@ =~= list@.take(i + 1));
                    }
                    i = i + 1;
                }
                proof {
                    assert(pending@ =~= list@);
                    assert forall|asset: AssetRef| pending@.contains(asset) implies self@.is_pending(
                        asset,
                        world_handle,
                    ) by {
                        let j = choose|j: int| 0 <= j < list@.len() && list@[j] == asset;
                        assert(self@.is_pending(list@[j], world_handle));
                    }
                }
            },
            None => {
                proof {
                    assert forall|asset: AssetRef| pending@.contains(asset) implies false by {
                        let j = choose|j: int| 0 <= j < pending@.len() && pending@[j] == asset;
                    }
                }
            },
        }
        pending
    }

    /// Whether nothing is pending under `world_handle`.
    pub fn is_ready(&self, world_handle: usize) -> (ready: bool)
        requires
            self.wf(),
        ensures
            ready == self@.ready(world_handle),
    {
        match table_get(&self.requested, world_handle) {
            Some(list) => {
                proof {
                    if list@.len() > 0 {
                        assert(self@.is_pending(list@[0], world_handle));
                    } else {
                        assert forall|asset: AssetRef| !self@.is_pending(
                            asset,
                            world_handle,
                        ) by {
                            if self@.is_pending(asset, world_handle) {
                                assert(list@.contains(asset));
                            }
                        }
                    }
                }
                list.len() == 0
            },
            None => true,
        }
    }

    /// Adds to `failed` the assets of `kind` that were requested under
    /// `world_handle` and failed to load.
    fn collect_failed(&self, kind: AssetKind, world_handle: usize, failed: &mut Vec<AssetRef>)
        requires
            old(failed)@.no_duplicates(),
            forall|i: int| 0 <= i < old(failed)@.len() ==> old(failed)@[i].kind != kind,
        ensures
            final(failed)@.no_duplicates(),
            forall|asset: AssetRef|
                #![trigger final(failed)@.contains(asset)]
                #![trigger self@.has_failed(asset, world_handle)]
                final(failed)@.contains(asset) <==> old(failed)@.contains(asset) || (asset.kind
                    == kind && self@.has_failed(asset, world_handle)),
    {
        let table = self.entries(kind);
        let ghost start = failed@;
        let mut i: usize = 0;
        while i < table.len()
            invariant
                i <= table.len(),
                records(table@) == self@.table(kind),
                start == old(failed)@,
                start.no_duplicates(),
                forall|j: int| 0 <= j < start.len() ==> start[j].kind != kind,
                failed@.no_duplicates(),
                forall|j: int|
                    start.len() <= j < failed@.len() ==> (#[trigger] failed@[j]).kind == kind
                        && failed@[j].index < i,
                forall|asset: AssetRef|
                    #![trigger failed@.contains(asset)]
                    #![trigger self@.has_failed(asset, world_handle)]
                    failed@.contains(asset) <==> start.contains(asset) || (asset.kind == kind
                        && asset.index < i && self@.has_failed(asset, world_handle)),
                start.len() <= failed@.len(),
                forall|j: int| 0 <= j < start.len() ==> failed@[j] == start[j],
            decreases table.len() - i,
        {
            let ghost before = failed@;
            let mut add = false;
            if table[i].session == world_handle {
                match table[i].state {
                    LoadState::Failed => {
                        add = true;
                    },
                    _ => {},
                }
            }
            let candidate = AssetRef { kind, index: i };
            proof {
                assert(add == self@.has_failed(candidate, world_handle));
            }
            if add {
                failed.push(candidate);
                proof {
                    assert(failed@[before.len() as int] == candidate);
                    assert forall|asset: AssetRef|
                        failed@.contains(asset) <==> before.contains(asset) || asset
                            == candidate by {
                        if before.contains(asset) {
                            let j = choose|j: int| 0 <= j < before.len() && before[j] == asset;
                            assert(failed@[j] == asset);
                        }
                        if failed@.contains(asset) {
                            let j = choose|j: int| 0 <= j < failed@.len() && failed@[j] == asset;
                            if j < before.len() {
                                assert(before[j] == asset);
                            }
                        }
                    }
                    assert(!before.contains(candidate)) by {
                        if before.contains(candidate) {
                            let j = choose|j: int|
                                0 <= j < before.len() && before[j] == candidate;
                            if j < start.len() {
                                assert(start[j].kind != kind);
                            } else {
                                assert(before[j].index < i);
                            }
                        }
                    }
                }
            }
            proof {
                assert forall|asset: AssetRef|
                    failed@.contains(asset) <==> start.contains(asset) || (asset.kind == kind
                        && asset.index < i + 1 && self@.has_failed(asset, world_handle)) by {
                    assert(before.contains(asset) <==> start.contains(asset) || (asset.kind
                        == kind && asset.index < i && self@.has_failed(asset, world_handle)));
                    if add {
                        assert(failed@.contains(asset) <==> before.contains(asset) || asset
                            == candidate);
                    } else {
                        assert(failed@ == before);
                    }
                    if asset.kind == kind && asset.index == i {
                        assert(asset == candidate);
                    }
                }
            }
            i = i + 1;
        }
        proof {
            assert(self@.table(kind).len() == table@.len());
            assert forall|asset: AssetRef|
                failed@.contains(asset) <==> start.contains(asset) || (asset.kind == kind
                    && self@.has_failed(asset, world_handle)) by {
                assert(failed@.contains(asset) <==> start.contains(asset) || (asset.kind == kind
                    && asset.index < i && self@.has_failed(asset, world_handle)));
                if asset.kind == kind && self@.has_failed(asset, world_handle) {
                    assert(self@.knows(asset));
                }
            }
        }
    }

    /// The assets that were requested under `world_handle` and failed to
    /// load, each once: what a ready session has to show for besides what
    /// was loaded.
    pub fn failed_assets(&self, world_handle: usize) -> (failed: Vec<AssetRef>)
        ensures
            failed@.no_duplicates(),
            forall|asset: AssetRef|
                #![trigger failed@.contains(asset)]
                #![trigger self@.has_failed(asset, world_handle)]
                failed@.contains(asset) <==> self@.has_failed(asset, world_handle),
    {
        let mut failed: Vec<AssetRef> = Vec::new();
        self.collect_failed(AssetKind::Image, world_handle, &mut failed);
        proof {
            assert forall|i: int| 0 <= i < failed@.len() implies failed@[i].kind
                == AssetKind::Image by {
                assert(failed@.contains(failed@[i]));
            }
        }
        self.collect_failed(AssetKind::Scene, world_handle, &mut failed);
        proof {
            assert forall|i: int| 0 <= i < failed@.len() implies failed@[i].kind
                != AssetKind::Animation by {
                assert(failed@.contains(failed@[i]));
            }
        }
        self.collect_failed(AssetKind::Animation, world_handle, &mut failed);
        failed
    }

    /// Takes in what the loader reported of one asset. A terminal state of
    /// an asset that was loading is recorded, and the asset leaves the
    /// pending set of its session; anything else changes nothing.
    pub fn record_load_state(&mut self, asset: AssetRef, state: LoadState)
        requires
            old(self).wf(),
        ensures
            final(self).wf(),
            final(self)@ == old(self)@.observe(asset, state),
    {
        let table = self.entries(asset.kind);
        if asset.index >= table.len() {
            return ;
        }
        let session = table[asset.index].session;
        match table[asset.index].state {
            LoadState::Loading => {},
            _ => {
                return ;
            },
        }
        if !state.is_terminal() {
            proof {
                assert(self@.table(asset.kind) =~= self@.table(asset.kind).update(
                    asset.index as int,
                    AssetRecord { state, ..self@.record(asset) },
                ));
                assert(self@ =~= self@.observe(asset, state));
            }
            return ;
        }
        let ghost lists = table_contents(self.requested);
        match asset.kind {
            AssetKind::Image => {
                self.image[asset.index].state = state;
            },
            AssetKind::Scene => {
                self.scenes[asset.index].state = state;
            },
            AssetKind::Animation => {
                self.animations[asset.index].state = state;
            },
        }
        proof {
            let before = old(self)@;
            assert(self@.table(asset.kind) =~= before.table(asset.kind).update(
                asset.index as int,
                AssetRecord { state, ..before.record(asset) },
            ));
            assert(self@ =~= before.observe(asset, state));
            lemma_observe_wf(before, asset, state);
            assert(before.is_pending(asset, session));
            assert(lists.contains_key(session));
            assert(lists[session].no_duplicates());
        }
        let ghost mut shorter: Seq<AssetRef> = lists[session];
        match table_get_mut(&mut self.requested, session) {
            Some(list) => {
                remove_asset(list, asset);
                proof {
                    shorter = list@;
                }
            },
            None => {},
        }
        proof {
            lemma_settled_indexed(old(self)@, lists, asset, state, shorter);
        }
    }

    /// One round of waiting for the session `world_handle`: takes in what
    /// the loader reported, in order, and tells whether the session is ready.
    /// The caller polls the loader about `pending_assets` and calls this
    /// again until it returns `true`.
    pub fn wait_for_world_assets(&mut self, world_handle: usize, observed: &Vec<Observation>) -> (ready:
        bool)
        requires
            old(self).wf(),
        ensures
            final(self).wf(),
            final(self)@ == old(self)@.observe_all(observed@),
            ready == final(self)@.ready(world_handle),
    {
        let mut i: usize = 0;
        while i < observed.len()
            invariant
                i <= observed.len(),
                self.wf(),
                self@ == old(self)@.observe_all(observed@.take(i as int)),
            decreases observed.len() - i,
        {
            let report = observed[i];
            self.record_load_state(report.asset, report.state);
            proof {
                assert(observed@.take(i + 1).drop_last() =~= observed@.take(i as int));
                assert(observed@.take(i + 1).last() == report);
            }
            i = i + 1;
        }
        proof {
            assert(observed@.take(i as int) =~= observed@);
        }
        self.is_ready(world_handle)
    }
}

impl Default for GameAssets {
    fn default() -> (assets: GameAssets)
        ensures
            assets.wf(),
            assets@ == RegistryModel::empty(),
    {
        GameAssets::new()
    }
}

} // verus!
