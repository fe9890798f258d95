//! Which instances are nested in which: the nearest enclosing instance of an
//! object, the instances nested directly below a root, and the record a root
//! keeps of them.
use vstd::prelude::*;

verus! {

/// An object on the way from a node to the top of the scene graph.
#[derive(Clone, Copy, Debug, PartialEq, Eq, Structural)]
pub struct HierarchyNode {
    pub entity: u64,
    /// The object names a blueprint: it is an instance.
    pub templated: bool,
}

/// An object below a freshly spawned instance, with its ancestors from its
/// parent upwards.
#[derive(Debug)]
pub struct Descendant {
    pub entity: u64,
    /// The object names a blueprint: it is an instance.
    pub templated: bool,
    pub ancestors: Vec<HierarchyNode>,
}

/// What the contracts read of a [`Descendant`].
pub struct DescendantView {
    pub entity: u64,
    pub templated: bool,
    pub ancestors: Seq<HierarchyNode>,
}

impl View for Descendant {
    type V = DescendantView;

    open spec fn view(&self) -> DescendantView {
        DescendantView {
            entity: self.entity,
            templated: self.templated,
            ancestors: self.ancestors@,
        }
    }
}

/// The views of a sequence of descendants, in order.
pub open spec fn descendant_views(descendants: Seq<Descendant>) -> Seq<DescendantView> {
    descendants.map_values(|d: Descendant| d@)
}

/// The nearest instance among `ancestors`, which run from the parent upwards.
pub open spec fn nearest_instance(ancestors: Seq<HierarchyNode>) -> Option<u64>
    decreases ancestors.len(),
{
    if ancestors.len() == 0 {
        None
    } else if ancestors.first().templated {
        Some(ancestors.first().entity)
    } else {
        nearest_instance(ancestors.drop_first())
    }
}

/// Walks `ancestors` from the parent upwards and stops at the first instance.
pub fn find_nearest_instance(ancestors: &Vec<HierarchyNode>) -> (found: Option<u64>)
    ensures
        found == nearest_instance(ancestors@),
{
    proof {
        assert(ancestors@.skip(0) =~= ancestors@);
    }
    for i in 0..ancestors.len()
        invariant
            nearest_instance(ancestors@) == nearest_instance(ancestors@.skip(i as int)),
    {
        proof {
            assert(ancestors@.skip(i as int).first() == ancestors@[i as int]);
            assert(ancestors@.skip(i as int).drop_first() =~= ancestors@.skip(i + 1));
        }
        if ancestors[i].templated {
            return Some(ancestors[i].entity);
        }
    }
    None
}

/// `descendant` is an instance nested directly in `root`: on the way up from
/// it, `root` is the first instance.
pub open spec fn nested_in(descendant: DescendantView, root: u64) -> bool {
    descendant.templated && nearest_instance(descendant.ancestors) == Some(root)
}

/// The instances among `descendants` that are nested directly in `root`, in
/// the order of the walk, each once.
pub open spec fn nested_instances(descendants: Seq<DescendantView>, root: u64) -> Seq<u64>
    decreases descendants.len(),
{
    if descendants.len() == 0 {
        Seq::empty()
    } else {
        let before = nested_instances(descendants.drop_last(), root);
        let last = descendants.last();
        if nested_in(last, root) && !before.contains(last.entity) {
            before.push(last.entity)
        } else {
            before
        }
    }
}

/// Whether `entity` occurs in `entities`.
pub fn contains_entity(entities: &Vec<u64>, entity: u64) -> (found: bool)
    ensures
        found == entities@.contains(entity),
{
    for i in 0..entities.len()
        invariant
            forall|j: int| 0 <= j < i ==> entities@[j] != entity,
    {
        if entities[i] == entity {
            return true;
        }
    }
    false
}

/// Collects the instances among `descendants` that are nested directly in
/// `root`.
pub fn find_nested_instances(descendants: &Vec<Descendant>, root: u64) -> (nested: Vec<u64>)
    ensures
        nested@ == nested_instances(descendant_views(descendants@), root),
{
    let ghost all = descendant_views(descendants@);
    let mut nested: Vec<u64> = Vec::new();
    for i in 0..descendants.len()
        invariant
            all == descendant_views(descendants@),
            nested@ == nested_instances(all.take(i as int), root),
    {
        proof {
            assert(all.take(i + 1).drop_last() =~= all.take(i as int));
            assert(all.take(i + 1).last() == descendants@[i as int]@);
        }
        let descendant = &descendants[i];
        if descendant.templated {
            let nearest = find_nearest_instance(&descendant.ancestors);
            let owned = match nearest {
                Some(owner) => owner == root,
                None => false,
            };
            if owned && !contains_entity(&nested, descendant.entity) {
                nested.push(descendant.entity);
            }
        }
    }
    proof {
        assert(all.take(descendants@.len() as int) =~= all);
    }
    nested
}

/// No instance occurs twice among the nested instances of a root.
pub proof fn lemma_nested_instances_distinct(descendants: Seq<DescendantView>, root: u64)
    ensures
        nested_instances(descendants, root).no_duplicates(),
    decreases descendants.len(),
{
    if descendants.len() > 0 {
        lemma_nested_instances_distinct(descendants.drop_last(), root);
    }
}

/// The record of a root: for each instance nested directly in it, whether that
/// instance is done. No instance occurs twice, and once the record is made it
/// gains no entry: entries only turn from pending to done.
#[derive(Debug)]
pub struct SubBlueprintsSpawnTracker {
    pub sub_blueprint_instances: Vec<(u64, bool)>,
}

impl View for SubBlueprintsSpawnTracker {
    type V = Seq<(u64, bool)>;

    open spec fn view(&self) -> Seq<(u64, bool)> {
        self.sub_blueprint_instances@
    }
}

/// The record in which each of `children` is pending.
pub open spec fn all_pending(children: Seq<u64>) -> Seq<(u64, bool)> {
    Seq::new(children.len(), |i: int| (children[i], false))
}

/// Every entry of `entries` is done.
pub open spec fn all_spawned(entries: Seq<(u64, bool)>) -> bool {
    forall|i: int| 0 <= i < entries.len() ==> (#[trigger] entries[i]).1
}

/// `entries` has an entry for `child`.
pub open spec fn tracks(entries: Seq<(u64, bool)>, child: u64) -> bool {
    exists|i: int| 0 <= i < entries.len() && (#[trigger] entries[i]).0 == child
}

/// `entries` with the entry of `child` done. Without such an entry nothing
/// changes: the record does not grow.
pub open spec fn with_spawned(entries: Seq<(u64, bool)>, child: u64) -> Seq<(u64, bool)> {
    Seq::new(
        entries.len(),
        |i: int|
            if entries[i].0 == child {
                (child, true)
            } else {
                entries[i]
            },
    )
}

/// No instance has two entries.
pub open spec fn distinct_entries(entries: Seq<(u64, bool)>) -> bool {
    forall|i: int, j: int|
        0 <= i < entries.len() && 0 <= j < entries.len() && i != j ==> (#[trigger] entries[i]).0
            != (#[trigger] entries[j]).0
}

impl SubBlueprintsSpawnTracker {
    /// The record of a root whose nested instances are `children`, all pending.
    pub fn new(children: &Vec<u64>) -> (tracker: SubBlueprintsSpawnTracker)
        ensures
            tracker@ == all_pending(children@),
    {
        let mut entries: Vec<(u64, bool)> = Vec::new();
        for i in 0..children.len()
            invariant
                entries@ =~= all_pending(children@.take(i as int)),
        {
            entries.push((children[i], false));
        }
        proof {
            assert(children@.take(children@.len() as int) =~= children@);
        }
        SubBlueprintsSpawnTracker { sub_blueprint_instances: entries }
    }

    /// Whether every nested instance is done.
    pub fn is_all_spawned(&self) -> (all: bool)
        ensures
            all == all_spawned(self@),
    {
        for i in 0..self.sub_blueprint_instances.len()
            invariant
                forall|j: int| 0 <= j < i ==> (#[trigger] self@[j]).1,
        {
            if !self.sub_blueprint_instances[i].1 {
                return false;
            }
        }
        true
    }

    /// Notes that the nested instance `child` is done, and says whether every
    /// nested instance is done now.
    pub fn mark_spawned(&mut self, child: u64) -> (all: bool)
        ensures
            final(self)@ == with_spawned(old(self)@, child),
            all == all_spawned(final(self)@),
    {
        let ghost before = self@;
        let total = self.sub_blueprint_instances.len();
        for i in 0..total
            invariant
                total == self@.len(),
                before.len() == total,
                before == old(self)@,
                forall|j: int| 0 <= j < i ==> (#[trigger] self@[j]) == with_spawned(before, child)[j],
                forall|j: int| i <= j < total ==> (#[trigger] self@[j]) == before[j],
        {
            if self.sub_blueprint_instances[i].0 == child {
                self.sub_blueprint_instances[i].1 = true;
            }
        }
        proof {
            assert(self@ =~= with_spawned(before, child));
        }
        self.is_all_spawned()
    }
}

/// A child of an anchor, with its own children.
#[derive(Debug)]
pub struct ChildNode {
    pub entity: u64,
    pub children: Vec<u64>,
}

/// What the contracts read of a [`ChildNode`].
pub struct ChildNodeView {
    pub entity: u64,
    pub children: Seq<u64>,
}

impl View for ChildNode {
    type V = ChildNodeView;

    open spec fn view(&self) -> ChildNodeView {
        ChildNodeView { entity: self.entity, children: self.children@ }
    }
}

/// The views of a sequence of children, in order.
pub open spec fn child_views(children: Seq<ChildNode>) -> Seq<ChildNodeView> {
    children.map_values(|c: ChildNode| c@)
}

/// The wrapper root among the children of an anchor: the first child that the
/// anchor did not have before its scene was spawned.
pub open spec fn wrapper_root(children: Seq<ChildNodeView>, original: Seq<u64>) -> Option<int>
    decreases children.len(),
{
    if children.len() == 0 {
        None
    } else {
        match wrapper_root(children.drop_last(), original) {
            Some(i) => Some(i),
            None => if original.contains(children.last().entity) {
                None
            } else {
                Some(children.len() - 1)
            },
        }
    }
}

/// Where [`wrapper_root`] finds a child, it is new and every child before it
/// is an old one; where it finds none, every child is an old one.
pub proof fn lemma_wrapper_root(children: Seq<ChildNodeView>, original: Seq<u64>)
    ensures
        match wrapper_root(children, original) {
            Some(i) => 0 <= i < children.len() && !original.contains(children[i].entity)
                && forall|j: int| 0 <= j < i ==> original.contains((#[trigger] children[j]).entity),
            None => forall|j: int|
                0 <= j < children.len() ==> original.contains((#[trigger] children[j]).entity),
        },
    decreases children.len(),
{
    if children.len() > 0 {
        let rest = children.drop_last();
        lemma_wrapper_root(rest, original);
        match wrapper_root(rest, original) {
            Some(i) => {
                assert(children[i] == rest[i]);
                assert forall|j: int| 0 <= j < i implies original.contains(
                    (#[trigger] children[j]).entity,
                ) by {
                    assert(children[j] == rest[j]);
                }
            },
            None => {
                assert forall|j: int| 0 <= j < children.len() - 1 implies original.contains(
                    (#[trigger] children[j]).entity,
                ) by {
                    assert(children[j] == rest[j]);
                }
            },
        }
    }
}

/// Finds the wrapper root among the children of an anchor.
pub fn find_wrapper_root(children: &Vec<ChildNode>, original: &Vec<u64>) -> (found: Option<usize>)
    ensures
        match found {
            Some(i) => wrapper_root(child_views(children@), original@) == Some(i as int) && i
                < children@.len() && !original@.contains(children@[i as int].entity)
                && forall|j: int| 0 <= j < i ==> original@.contains((#[trigger] children@[j]).entity),
            None => wrapper_root(child_views(children@), original@).is_none() && forall|j: int|
                0 <= j < children@.len() ==> original@.contains((#[trigger] children@[j]).entity),
        },
{
    let ghost all = child_views(children@);
    for i in 0..children.len()
        invariant
            all == child_views(children@),
            wrapper_root(all.take(i as int), original@).is_none(),
    {
        proof {
            assert(all.take(i + 1).drop_last() =~= all.take(i as int));
            assert(all.take(i + 1).last() == children@[i as int]@);
        }
        if !contains_entity(original, children[i].entity) {
            proof {
                lemma_wrapper_root_prefix(all, original@, i + 1);
                lemma_wrapper_root(all, original@);
                assert forall|j: int| 0 <= j < children@.len() implies all[j].entity == (
                #[trigger] children@[j]).entity by {}
            }
            return Some(i);
        }
    }
    proof {
        assert(all.take(children@.len() as int) =~= all);
        lemma_wrapper_root(all, original@);
        assert forall|j: int| 0 <= j < children@.len() implies all[j].entity == (
        #[trigger] children@[j]).entity by {}
    }
    None
}

/// A wrapper root found among the first `k` children is the wrapper root
/// among all of them.
pub proof fn lemma_wrapper_root_prefix(children: Seq<ChildNodeView>, original: Seq<u64>, k: int)
    requires
        0 <= k <= children.len(),
        wrapper_root(children.take(k), original).is_some(),
    ensures
        wrapper_root(children, original) == wrapper_root(children.take(k), original),
    decreases children.len() - k,
{
    if k < children.len() {
        assert(children.take(k + 1).drop_last() =~= children.take(k));
        lemma_wrapper_root_prefix(children, original, k + 1);
    } else {
        assert(children.take(k) =~= children);
    }
}

} // verus!
