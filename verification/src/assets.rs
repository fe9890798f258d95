//! Which assets an instance still waits for, and how far loading has come.
use vstd::prelude::*;

verus! {

/// What the asset loader reports of one asset.
#[derive(Clone, Copy, Debug, PartialEq, Eq, Structural)]
pub enum LoadState {
    NotLoaded,
    Loading,
    Loaded,
    Failed,
}

/// The two answers of the asset loader about one asset at one tick.
#[derive(Clone, Copy, Debug, PartialEq, Eq, Structural)]
pub struct AssetStatus {
    /// The asset and everything it depends on is loaded.
    pub loaded_with_dependencies: bool,
    pub load_state: LoadState,
}

impl AssetStatus {
    /// An asset no longer blocks its instance when it is fully loaded or when
    /// loading it has failed for good.
    pub open spec fn resolved(self) -> bool {
        self.loaded_with_dependencies || self.load_state == LoadState::Failed
    }

    pub fn is_resolved(&self) -> (r: bool)
        ensures
            r == self.resolved(),
    {
        self.loaded_with_dependencies || self.load_state == LoadState::Failed
    }
}

/// One asset that an instance needs, with the identifier the loader gave it.
#[derive(Debug)]
pub struct AssetLoadTracker {
    pub name: String,
    pub path: String,
    pub id: u64,
    pub loaded: bool,
}

/// What the contracts read of an [`AssetLoadTracker`].
pub struct AssetView {
    pub name: Seq<char>,
    pub path: Seq<char>,
    pub id: u64,
    pub loaded: bool,
}

impl View for AssetLoadTracker {
    type V = AssetView;

    open spec fn view(&self) -> AssetView {
        AssetView { name: self.name@, path: self.path@, id: self.id, loaded: self.loaded }
    }
}

impl AssetLoadTracker {
    /// A copy with the same fields.
    pub fn duplicate(&self) -> (copy: AssetLoadTracker)
        ensures
            copy@ == self@,
    {
        AssetLoadTracker {
            name: self.name.clone(),
            path: self.path.clone(),
            id: self.id,
            loaded: self.loaded,
        }
    }
}

/// The views of a sequence of assets, in order.
pub open spec fn asset_views(assets: Seq<AssetLoadTracker>) -> Seq<AssetView> {
    assets.map_values(|a: AssetLoadTracker| a@)
}

/// The assets of `assets` that are not loaded, in order.
pub open spec fn pending_assets(assets: Seq<AssetView>) -> Seq<AssetView>
    decreases assets.len(),
{
    if assets.len() == 0 {
        Seq::empty()
    } else if assets.last().loaded {
        pending_assets(assets.drop_last())
    } else {
        pending_assets(assets.drop_last()).push(assets.last())
    }
}

/// How many of `assets` are marked as loaded.
pub open spec fn loaded_count(assets: Seq<AssetView>) -> nat
    decreases assets.len(),
{
    if assets.len() == 0 {
        0
    } else if assets.last().loaded {
        loaded_count(assets.drop_last()) + 1
    } else {
        loaded_count(assets.drop_last())
    }
}

/// Every one of `assets` is marked as loaded.
pub open spec fn all_assets_loaded(assets: Seq<AssetView>) -> bool {
    forall|i: int| 0 <= i < assets.len() ==> (#[trigger] assets[i]).loaded
}

/// Whether the status at position `i` says that the asset is resolved. An
/// asset without a status is still loading.
pub open spec fn resolved_at(statuses: Seq<AssetStatus>, i: int) -> bool {
    0 <= i < statuses.len() && statuses[i].resolved()
}

/// `assets` after a poll: each asset is marked as loaded when its status says
/// that it is resolved.
pub open spec fn polled_assets(assets: Seq<AssetView>, statuses: Seq<AssetStatus>) -> Seq<
    AssetView,
> {
    Seq::new(
        assets.len(),
        |i: int|
            AssetView {
                name: assets[i].name,
                path: assets[i].path,
                id: assets[i].id,
                loaded: resolved_at(statuses, i),
            },
    )
}

/// Progress as a fraction: `loaded` of `total` assets are resolved.
#[derive(Clone, Copy, Debug, PartialEq, Eq, Structural)]
pub struct LoadProgress {
    pub loaded: usize,
    pub total: usize,
}

impl LoadProgress {
    /// The fraction is one: there is at least one asset and all are resolved.
    pub open spec fn complete(self) -> bool {
        self.total > 0 && self.loaded == self.total
    }

    pub fn is_complete(&self) -> (r: bool)
        ensures
            r == self.complete(),
    {
        self.total > 0 && self.loaded == self.total
    }
}

/// The assets one instance waits for, with the aggregate of their states.
#[derive(Debug)]
pub struct BlueprintAssetsLoadState {
    pub all_loaded: bool,
    pub asset_infos: Vec<AssetLoadTracker>,
    pub progress: LoadProgress,
}

/// What the contracts read of a [`BlueprintAssetsLoadState`].
pub struct LoadStateView {
    pub all_loaded: bool,
    pub asset_infos: Seq<AssetView>,
    pub progress: LoadProgress,
}

impl View for BlueprintAssetsLoadState {
    type V = LoadStateView;

    open spec fn view(&self) -> LoadStateView {
        LoadStateView {
            all_loaded: self.all_loaded,
            asset_infos: asset_views(self.asset_infos@),
            progress: self.progress,
        }
    }
}

impl LoadStateView {
    /// The record that is attached when loading starts: the assets that are
    /// not loaded yet, none of them counted.
    pub open spec fn started(candidates: Seq<AssetView>) -> LoadStateView {
        LoadStateView {
            all_loaded: false,
            asset_infos: pending_assets(candidates),
            progress: LoadProgress {
                loaded: 0,
                total: pending_assets(candidates).len() as usize,
            },
        }
    }

    /// The record after the loader was asked about each asset.
    pub open spec fn polled(self, statuses: Seq<AssetStatus>) -> LoadStateView {
        let assets = polled_assets(self.asset_infos, statuses);
        LoadStateView {
            all_loaded: self.all_loaded || all_assets_loaded(assets),
            asset_infos: assets,
            progress: LoadProgress {
                loaded: loaded_count(assets) as usize,
                total: assets.len() as usize,
            },
        }
    }

    /// The counters agree with the assets.
    pub open spec fn consistent(self) -> bool {
        &&& self.progress.total == self.asset_infos.len()
        &&& self.progress.loaded == loaded_count(self.asset_infos)
    }

    /// Some asset of the record lives at `path`.
    pub open spec fn mentions(self, path: Seq<char>) -> bool {
        exists|i: int| 0 <= i < self.asset_infos.len() && (#[trigger] self.asset_infos[i]).path == path
    }
}

/// No more assets are counted as loaded than there are.
pub proof fn lemma_loaded_count_bound(assets: Seq<AssetView>)
    ensures
        loaded_count(assets) <= assets.len(),
    decreases assets.len(),
{
    if assets.len() > 0 {
        lemma_loaded_count_bound(assets.drop_last());
    }
}

/// All assets are counted exactly when each of them is marked as loaded.
pub proof fn lemma_loaded_count_full(assets: Seq<AssetView>)
    ensures
        loaded_count(assets) == assets.len() <==> all_assets_loaded(assets),
    decreases assets.len(),
{
    if assets.len() > 0 {
        let rest = assets.drop_last();
        lemma_loaded_count_full(rest);
        lemma_loaded_count_bound(rest);
        if all_assets_loaded(assets) {
            assert(assets[assets.len() - 1].loaded);
            assert forall|i: int| 0 <= i < rest.len() implies (#[trigger] rest[i]).loaded by {
                assert(assets[i].loaded);
            }
        }
        if loaded_count(assets) == assets.len() {
            assert(assets.last().loaded);
            assert(all_assets_loaded(rest));
            assert forall|i: int| 0 <= i < assets.len() implies (#[trigger] assets[i]).loaded by {
                if i < rest.len() {
                    assert(rest[i].loaded);
                }
            }
        }
    }
}

/// The assets that are not loaded are no more than the assets.
pub proof fn lemma_pending_bound(assets: Seq<AssetView>)
    ensures
        pending_assets(assets).len() <= assets.len(),
    decreases assets.len(),
{
    if assets.len() > 0 {
        lemma_pending_bound(assets.drop_last());
    }
}

impl BlueprintAssetsLoadState {
    /// Starts tracking the assets of `candidates` that are not loaded yet.
    /// With nothing left to wait for there is nothing to track.
    pub fn start(candidates: &Vec<AssetLoadTracker>) -> (state: Option<BlueprintAssetsLoadState>)
        ensures
            state.is_some() <==> pending_assets(asset_views(candidates@)).len() > 0,
            state matches Some(s) ==> s@ == LoadStateView::started(asset_views(candidates@)),
    {
        let ghost all = asset_views(candidates@);
        let mut waiting: Vec<AssetLoadTracker> = Vec::new();
        for i in 0..candidates.len()
            invariant
                all == asset_views(candidates@),
                asset_views(waiting@) =~= pending_assets(all.take(i as int)),
                waiting@.len() <= i,
        {
            proof {
                assert(all.take(i + 1).drop_last() =~= all.take(i as int));
                assert(all.take(i + 1).last() == candidates@[i as int]@);
            }
            if !candidates[i].loaded {
                let entry = candidates[i].duplicate();
                waiting.push(entry);
            }
        }
        proof {
            assert(all.take(candidates@.len() as int) =~= all);
        }
        if waiting.len() == 0 {
            None
        } else {
            let total = waiting.len();
            Some(
                BlueprintAssetsLoadState {
                    all_loaded: false,
                    asset_infos: waiting,
                    progress: LoadProgress { loaded: 0, total },
                },
            )
        }
    }

    /// Takes the loader's answers, one per asset and in the assets' order:
    /// marks the resolved assets, counts them, and notes when none is left.
    pub fn poll(&mut self, statuses: &Vec<AssetStatus>)
        ensures
            final(self)@ == old(self)@.polled(statuses@),
            final(self)@.consistent(),
    {
        let ghost before = asset_views(self.asset_infos@);
        let ghost after = polled_assets(before, statuses@);
        let total = self.asset_infos.len();
        let mut resolved: usize = 0;
        let mut all: bool = true;
        for i in 0..total
            invariant
                total == self.asset_infos@.len(),
                before.len() == total,
                after == polled_assets(before, statuses@),
                self.all_loaded == old(self).all_loaded,
                forall|j: int| 0 <= j < i ==> (#[trigger] self.asset_infos@[j])@ == after[j],
                forall|j: int| i <= j < total ==> (#[trigger] self.asset_infos@[j])@ == before[j],
                resolved == loaded_count(after.take(i as int)),
                resolved <= i,
                all == all_assets_loaded(after.take(i as int)),
        {
            let done = i < statuses.len() && statuses[i].is_resolved();
            self.asset_infos[i].loaded = done;
            proof {
                assert(self.asset_infos@[i as int]@ == after[i as int]);
                assert(after.take(i + 1).drop_last() =~= after.take(i as int));
                assert(after.take(i + 1).last() == after[i as int]);
                if all_assets_loaded(after.take(i + 1)) {
                    assert(after.take(i + 1)[i as int].loaded);
                    assert forall|j: int| 0 <= j < i implies (#[trigger] after.take(
                        i as int,
                    )[j]).loaded by {
                        assert(after.take(i + 1)[j].loaded);
                    }
                }
                if all_assets_loaded(after.take(i as int)) && done {
                    assert forall|j: int| 0 <= j < i + 1 implies (#[trigger] after.take(
                        i + 1,
                    )[j]).loaded by {
                        if j < i {
                            assert(after.take(i as int)[j].loaded);
                        }
                    }
                }
            }
            if done {
                resolved = resolved + 1;
            } else {
                all = false;
            }
        }
        proof {
            assert(after.take(total as int) =~= after);
            assert(asset_views(self.asset_infos@) =~= after);
        }
        self.progress = LoadProgress { loaded: resolved, total };
        if all {
            self.all_loaded = true;
        }
    }

    /// Whether some asset of the record lives at `path`.
    pub fn mentions(&self, path: &str) -> (found: bool)
        ensures
            found == self@.mentions(path@),
    {
        let wanted = path.to_owned();
        for i in 0..self.asset_infos.len()
            invariant
                wanted@ == path@,
                forall|j: int|
                    0 <= j < i ==> (#[trigger] asset_views(self.asset_infos@)[j]).path != path@,
        {
            if self.asset_infos[i].path == wanted {
                assert(self@.asset_infos[i as int].path == path@);
                return true;
            }
        }
        false
    }
}

} // verus!
