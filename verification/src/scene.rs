//! What the commands mean: a model of the scene graph, and what becomes of it
//! when the commands of a step are carried out. The scene graph itself is the
//! engine's; the model says what the pipeline counts on.
use crate::commands::Command;
use crate::hierarchy::ChildNodeView;
use crate::registry::transfer_commands;
use vstd::prelude::*;

verus! {

/// An object of the scene graph.
pub struct ObjectView {
    pub parent: Option<u64>,
    pub children: Seq<u64>,
    /// The attributes of the object but for its links, each kind with its value.
    pub attributes: Map<u64, u64>,
    pub visible: bool,
}

/// The objects that are alive.
pub struct SceneView {
    pub objects: Map<u64, ObjectView>,
}

/// `entities` without `gone`.
pub open spec fn without_entities(entities: Seq<u64>, gone: Set<u64>) -> Seq<u64>
    decreases entities.len(),
{
    if entities.len() == 0 {
        Seq::empty()
    } else if gone.contains(entities.last()) {
        without_entities(entities.drop_last(), gone)
    } else {
        without_entities(entities.drop_last(), gone).push(entities.last())
    }
}

/// What is left of `entities` are its entries that are not in `gone`.
pub proof fn lemma_without_entities(entities: Seq<u64>, gone: Set<u64>, entity: u64)
    ensures
        without_entities(entities, gone).contains(entity) <==> entities.contains(entity)
            && !gone.contains(entity),
    decreases entities.len(),
{
    let left = without_entities(entities, gone);
    if entities.len() == 0 {
        assert(!left.contains(entity));
        assert(!entities.contains(entity));
    } else {
        let rest = entities.drop_last();
        let last = entities.last();
        let before = without_entities(rest, gone);
        lemma_without_entities(rest, gone, entity);
        if left.contains(entity) {
            let k = choose|k: int| 0 <= k < left.len() && left[k] == entity;
            if gone.contains(last) || k < before.len() {
                assert(before[k] == entity);
                let m = choose|m: int| 0 <= m < rest.len() && rest[m] == entity;
                assert(entities[m] == entity);
            } else {
                assert(entities[entities.len() - 1] == entity);
            }
        }
        if entities.contains(entity) && !gone.contains(entity) {
            let m = choose|m: int| 0 <= m < entities.len() && entities[m] == entity;
            if m < rest.len() {
                assert(rest[m] == entity);
                let k = choose|k: int| 0 <= k < before.len() && before[k] == entity;
                assert(left[k] == entity);
            } else {
                assert(left[left.len() - 1] == entity);
            }
        }
    }
}

impl SceneView {
    pub open spec fn alive(self, entity: u64) -> bool {
        self.objects.contains_key(entity)
    }

    /// The parent of an object that is alive.
    pub open spec fn parent_of(self, entity: u64) -> Option<u64> {
        if self.alive(entity) {
            self.objects[entity].parent
        } else {
            None
        }
    }

    /// The object `steps` links above `entity`.
    pub open spec fn ancestor(self, entity: u64, steps: nat) -> Option<u64>
        decreases steps,
    {
        if steps == 0 {
            Some(entity)
        } else {
            match self.parent_of(entity) {
                Some(parent) => self.ancestor(parent, (steps - 1) as nat),
                None => None,
            }
        }
    }

    /// `entity` is somewhere below `top`.
    pub open spec fn below(self, entity: u64, top: u64) -> bool {
        exists|steps: nat| steps > 0 && self.ancestor(entity, steps) == Some(top)
    }

    /// The objects below `top`.
    pub open spec fn descendants(self, top: u64) -> Set<u64> {
        Set::new(|entity: u64| self.below(entity, top))
    }

    /// The links agree: an object is among the children of its parent, the
    /// children of an object have it as parent, all of them are alive, and no
    /// object is below itself.
    pub open spec fn wf(self) -> bool {
        &&& forall|entity: u64| !(#[trigger] self.below(entity, entity))
        &&& forall|entity: u64|
            self.alive(entity) && (#[trigger] self.objects[entity]).parent.is_some() ==> {
                let parent = self.objects[entity].parent.unwrap();
                self.alive(parent) && self.objects[parent].children.contains(entity)
            }
        &&& forall|entity: u64, i: int|
            self.alive(entity) && 0 <= i < self.objects[entity].children.len() ==> {
                let child = #[trigger] self.objects[entity].children[i];
                self.alive(child) && self.objects[child].parent == Some(entity)
            }
    }

    /// The scene with `entity` taken from the children of its parent.
    pub open spec fn detached(self, entity: u64) -> SceneView {
        if !self.alive(entity) {
            self
        } else {
            let loose = ObjectView { parent: None, ..self.objects[entity] };
            match self.objects[entity].parent {
                Some(parent) if self.alive(parent) && parent != entity => {
                    let left = ObjectView {
                        children: without_entities(self.objects[parent].children, set![entity]),
                        ..self.objects[parent]
                    };
                    SceneView { objects: self.objects.insert(parent, left).insert(entity, loose) }
                },
                _ => SceneView { objects: self.objects.insert(entity, loose) },
            }
        }
    }

    /// The scene with `child` made the last child of `parent`.
    pub open spec fn with_child(self, parent: u64, child: u64) -> SceneView {
        if !self.alive(parent) || !self.alive(child) || parent == child {
            self
        } else {
            let loose = self.detached(child);
            let moved = ObjectView { parent: Some(parent), ..loose.objects[child] };
            let grown = ObjectView {
                children: loose.objects[parent].children.push(child),
                ..loose.objects[parent]
            };
            SceneView { objects: loose.objects.insert(child, moved).insert(parent, grown) }
        }
    }

    /// The scene with the attributes of `source` copied onto `destination`:
    /// what `destination` has of them is replaced, what it lacks is added.
    pub open spec fn with_copied(self, source: u64, destination: u64) -> SceneView {
        if !self.alive(source) || !self.alive(destination) {
            self
        } else {
            let target = self.objects[destination];
            let merged = ObjectView {
                attributes: target.attributes.union_prefer_right(self.objects[source].attributes),
                ..target
            };
            SceneView { objects: self.objects.insert(destination, merged) }
        }
    }

    /// The scene with the objects of `gone` destroyed: they are alive no
    /// longer, and no object that is left has one of them as parent or child.
    pub open spec fn without(self, gone: Set<u64>) -> SceneView {
        SceneView {
            objects: Map::new(
                |entity: u64| self.alive(entity) && !gone.contains(entity),
                |entity: u64|
                    ObjectView {
                        parent: match self.objects[entity].parent {
                            Some(parent) if gone.contains(parent) => None,
                            other => other,
                        },
                        children: without_entities(self.objects[entity].children, gone),
                        ..self.objects[entity]
                    },
            ),
        }
    }

    /// The scene with `entity` shown or hidden.
    pub open spec fn with_visibility(self, entity: u64, visible: bool) -> SceneView {
        if !self.alive(entity) {
            self
        } else {
            SceneView {
                objects: self.objects.insert(
                    entity,
                    ObjectView { visible, ..self.objects[entity] },
                ),
            }
        }
    }

    /// The scene after one command. The model follows the commands that
    /// rearrange, copy, show, hide and destroy; what a spawned scene looks
    /// like is for the engine to say, and the model leaves the scene as it is.
    pub open spec fn apply(self, command: Command) -> SceneView {
        match command {
            Command::SetVisibility { entity, visible } => self.with_visibility(entity, visible),
            Command::AddChild { parent, child } => self.with_child(parent, child),
            Command::CopyComponents { source, destination } => self.with_copied(
                source,
                destination,
            ),
            Command::Despawn { entity } => self.without(self.descendants(entity).insert(entity)),
            Command::DespawnDescendants { entity } => self.without(self.descendants(entity)),
            Command::SpawnScene { .. } => self,
            Command::CaptureAnimations { .. } => self,
            Command::TrackRoot { .. } => self,
        }
    }

    /// The scene after the commands, carried out in order.
    pub open spec fn apply_all(self, commands: Seq<Command>) -> SceneView
        decreases commands.len(),
    {
        if commands.len() == 0 {
            self
        } else {
            self.apply_all(commands.drop_last()).apply(commands.last())
        }
    }

    /// Whatever is below `top` reaches it through an object whose parent is
    /// `top`.
    pub proof fn lemma_below_needs_child(self, entity: u64, top: u64, steps: nat)
        requires
            steps > 0,
            self.ancestor(entity, steps) == Some(top),
        ensures
            exists|child: u64| self.alive(child) && (#[trigger] self.objects[child]).parent == Some(top),
        decreases steps,
    {
        if steps == 1 {
            assert(self.alive(entity) && self.objects[entity].parent == Some(top));
        } else {
            let parent = self.parent_of(entity).unwrap();
            self.lemma_below_needs_child(parent, top, (steps - 1) as nat);
        }
    }
}

/// The commands of a merge up to the moves of the first `moved` children of
/// the wrapper node.
pub open spec fn transfer_prefix(anchor: u64, wrapper: ChildNodeView, moved: int) -> Seq<Command> {
    seq![Command::CopyComponents { source: wrapper.entity, destination: anchor }] + Seq::new(
        moved as nat,
        |i: int| Command::AddChild { parent: anchor, child: wrapper.children[i] },
    )
}

/// What holds while the children of the wrapper node move up one by one.
pub open spec fn merging(
    scene: SceneView,
    now: SceneView,
    anchor: u64,
    wrapper: ChildNodeView,
    moved: int,
) -> bool {
    &&& now.objects.dom() == scene.objects.dom()
    &&& now.objects[wrapper.entity].parent == Some(anchor)
    &&& forall|entity: u64|
        now.alive(entity) && (#[trigger] now.objects[entity]).parent == Some(wrapper.entity)
            ==> exists|j: int| moved <= j < wrapper.children.len() && wrapper.children[j] == entity
    &&& forall|j: int|
        0 <= j < moved ==> {
            let child = #[trigger] wrapper.children[j];
            now.objects[child].parent == Some(anchor) && now.objects[anchor].children.contains(
                child,
            )
        }
    &&& forall|entity: u64|
        now.alive(entity) ==> (#[trigger] now.objects[entity]).attributes == (if entity == anchor {
            scene.objects[anchor].attributes.union_prefer_right(
                scene.objects[wrapper.entity].attributes,
            )
        } else {
            scene.objects[entity].attributes
        })
}

/// The moves of the children of the wrapper node keep what [`merging`] says.
pub proof fn lemma_transfer_prefix(scene: SceneView, anchor: u64, wrapper: ChildNodeView, moved: int)
    requires
        scene.wf(),
        scene.alive(anchor),
        scene.alive(wrapper.entity),
        anchor != wrapper.entity,
        scene.objects[wrapper.entity].parent == Some(anchor),
        scene.objects[wrapper.entity].children == wrapper.children,
        !wrapper.children.contains(anchor),
        0 <= moved <= wrapper.children.len(),
    ensures
        merging(scene, scene.apply_all(transfer_prefix(anchor, wrapper, moved)), anchor, wrapper, moved),
    decreases moved,
{
    let commands = transfer_prefix(anchor, wrapper, moved);
    if moved == 0 {
        let copy = Command::CopyComponents { source: wrapper.entity, destination: anchor };
        assert(commands =~= seq![copy]);
        assert(commands.drop_last() =~= Seq::<Command>::empty());
        assert(scene.apply_all(commands.drop_last()) == scene);
        let now = scene.apply_all(commands);
        assert(now == scene.with_copied(wrapper.entity, anchor));
        assert(now.objects.dom() =~= scene.objects.dom());
        assert forall|entity: u64|
            now.alive(entity) && (#[trigger] now.objects[entity]).parent == Some(
                wrapper.entity,
            ) implies exists|j: int|
            0 <= j < wrapper.children.len() && wrapper.children[j] == entity by {
            assert(scene.objects[entity].parent == Some(wrapper.entity));
            let children = scene.objects[wrapper.entity].children;
            assert(children.contains(entity));
            let j = choose|j: int| 0 <= j < children.len() && children[j] == entity;
            assert(wrapper.children[j] == entity);
        }
    } else {
        let before = transfer_prefix(anchor, wrapper, moved - 1);
        lemma_transfer_prefix(scene, anchor, wrapper, moved - 1);
        assert(commands.drop_last() =~= before);
        let child = wrapper.children[moved - 1];
        assert(commands.last() == Command::AddChild { parent: anchor, child });
        let prev = scene.apply_all(before);
        let now = scene.apply_all(commands);
        assert(now == prev.with_child(anchor, child));
        assert(wrapper.children.contains(child));
        assert(scene.alive(child)) by {
            assert(scene.objects[wrapper.entity].children[moved - 1] == child);
        }
        assert(scene.objects[child].parent == Some(wrapper.entity)) by {
            assert(scene.objects[wrapper.entity].children[moved - 1] == child);
        }
        assert(child != wrapper.entity);
        assert(child != anchor);
        assert(prev.alive(child) && prev.alive(anchor));
        let loose = prev.detached(child);
        assert(now.objects.dom() =~= scene.objects.dom());
        assert(loose.objects[anchor].attributes == prev.objects[anchor].attributes);
        assert(loose.objects[child].attributes == prev.objects[child].attributes);
        assert forall|entity: u64|
            now.alive(entity) && (#[trigger] now.objects[entity]).parent == Some(
                wrapper.entity,
            ) implies exists|j: int|
            moved <= j < wrapper.children.len() && wrapper.children[j] == entity by {
            assert(entity != child);
            assert(prev.objects[entity].parent == Some(wrapper.entity));
            let j = choose|j: int|
                moved - 1 <= j < wrapper.children.len() && wrapper.children[j] == entity;
            assert(j != moved - 1);
        }
        assert forall|j: int| 0 <= j < moved implies ({
            let c = #[trigger] wrapper.children[j];
            now.objects[c].parent == Some(anchor) && now.objects[anchor].children.contains(c)
        }) by {
            let c = wrapper.children[j];
            let grown = loose.objects[anchor].children.push(child);
            assert(now.objects[anchor].children == grown);
            if c == child {
                assert(grown[grown.len() - 1] == child);
            } else {
                assert(j < moved - 1);
                assert(prev.objects[c].parent == Some(anchor));
                assert(prev.objects[anchor].children.contains(c));
                lemma_without_entities(prev.objects[anchor].children, set![child], c);
                assert(loose.objects[anchor].children.contains(c));
                let k = choose|k: int|
                    0 <= k < loose.objects[anchor].children.len() && loose.objects[anchor].children[k]
                        == c;
                assert(grown[k] == c);
                assert(wrapper.children.contains(c));
                assert(c != anchor);
            }
        }
        assert forall|entity: u64| now.alive(entity) implies (#[trigger] now.objects[entity]).attributes
            == (if entity == anchor {
            scene.objects[anchor].attributes.union_prefer_right(
                scene.objects[wrapper.entity].attributes,
            )
        } else {
            scene.objects[entity].attributes
        }) by {
            assert(prev.alive(entity));
            assert(loose.objects[entity].attributes == prev.objects[entity].attributes);
        }
    }
}

/// After the commands of a merge are carried out, the wrapper node is
/// destroyed and the anchor has no link to it; every former child of the
/// wrapper node is alive and a child of the anchor; and the anchor has every
/// attribute of the wrapper node at the wrapper node's value, and its other
/// attributes as before.
pub proof fn law_transfer_merges_wrapper(scene: SceneView, anchor: u64, wrapper: ChildNodeView)
    requires
        scene.wf(),
        scene.alive(anchor),
        scene.alive(wrapper.entity),
        scene.objects[wrapper.entity].parent == Some(anchor),
        scene.objects[wrapper.entity].children == wrapper.children,
    ensures
        ({
            let after = scene.apply_all(transfer_commands(anchor, wrapper));
            &&& !after.alive(wrapper.entity)
            &&& after.alive(anchor)
            &&& !after.objects[anchor].children.contains(wrapper.entity)
            &&& forall|i: int|
                0 <= i < wrapper.children.len() ==> {
                    let child = #[trigger] wrapper.children[i];
                    &&& after.alive(child)
                    &&& after.objects[child].parent == Some(anchor)
                    &&& after.objects[anchor].children.contains(child)
                }
            &&& forall|kind: u64| #[trigger]
                scene.objects[wrapper.entity].attributes.contains_key(kind) ==> {
                    &&& after.objects[anchor].attributes.contains_key(kind)
                    &&& after.objects[anchor].attributes[kind]
                        == scene.objects[wrapper.entity].attributes[kind]
                }
            &&& forall|kind: u64|
                !(#[trigger] scene.objects[wrapper.entity].attributes.contains_key(kind)) ==> {
                    &&& after.objects[anchor].attributes.contains_key(kind)
                        == scene.objects[anchor].attributes.contains_key(kind)
                    &&& scene.objects[anchor].attributes.contains_key(kind)
                        ==> after.objects[anchor].attributes[kind]
                        == scene.objects[anchor].attributes[kind]
                }
        }),
{
    let total = wrapper.children.len() as int;
    let commands = transfer_commands(anchor, wrapper);
    let before = transfer_prefix(anchor, wrapper, total);
    assert(anchor != wrapper.entity) by {
        if anchor == wrapper.entity {
            assert(scene.ancestor(anchor, 0) == Some(anchor));
            assert(scene.ancestor(anchor, 1) == Some(anchor));
            assert(scene.below(anchor, anchor));
        }
    }
    assert(!wrapper.children.contains(anchor)) by {
        if wrapper.children.contains(anchor) {
            let i = choose|i: int| 0 <= i < wrapper.children.len() && wrapper.children[i] == anchor;
            assert(scene.objects[wrapper.entity].children[i] == anchor);
            assert(scene.objects[anchor].parent == Some(wrapper.entity));
            assert(scene.ancestor(anchor, 0) == Some(anchor));
            assert(scene.ancestor(wrapper.entity, 1) == Some(anchor));
            assert(scene.ancestor(anchor, 2) == Some(anchor));
            assert(scene.below(anchor, anchor));
        }
    }
    lemma_transfer_prefix(scene, anchor, wrapper, total);
    assert(commands.drop_last() =~= before);
    assert(commands.last() == Command::Despawn { entity: wrapper.entity });
    let prev = scene.apply_all(before);
    let after = scene.apply_all(commands);
    let below = prev.descendants(wrapper.entity);
    assert(after == prev.without(below.insert(wrapper.entity)));
    assert forall|entity: u64| !below.contains(entity) by {
        if prev.below(entity, wrapper.entity) {
            let steps = choose|steps: nat|
                steps > 0 && prev.ancestor(entity, steps) == Some(wrapper.entity);
            prev.lemma_below_needs_child(entity, wrapper.entity, steps);
        }
    }
    let gone = below.insert(wrapper.entity);
    assert(!gone.contains(anchor));
    lemma_without_entities(prev.objects[anchor].children, gone, wrapper.entity);
    assert forall|i: int| 0 <= i < wrapper.children.len() implies ({
        let child = #[trigger] wrapper.children[i];
        &&& after.alive(child)
        &&& after.objects[child].parent == Some(anchor)
        &&& after.objects[anchor].children.contains(child)
    }) by {
        let child = wrapper.children[i];
        assert(scene.objects[wrapper.entity].children[i] == child);
        assert(scene.alive(child));
        assert(scene.objects[child].parent == Some(wrapper.entity));
        assert(child != wrapper.entity);
        assert(!gone.contains(child));
        assert(prev.alive(child));
        lemma_without_entities(prev.objects[anchor].children, gone, child);
    }
}

/// After the command that clears an anchor is carried out, nothing is alive
/// below the anchor, the anchor has no children, and what was not below the
/// anchor is alive as before.
pub proof fn law_reload_destroys_children(scene: SceneView, anchor: u64)
    requires
        scene.wf(),
        scene.alive(anchor),
    ensures
        ({
            let after = scene.apply(Command::DespawnDescendants { entity: anchor });
            &&& after.alive(anchor)
            &&& after.objects[anchor].children.len() == 0
            &&& forall|entity: u64| scene.below(entity, anchor) ==> !after.alive(entity)
            &&& forall|entity: u64|
                scene.alive(entity) && !scene.below(entity, anchor) ==> after.alive(entity)
        }),
{
    let gone = scene.descendants(anchor);
    let after = scene.without(gone);
    let children = scene.objects[anchor].children;
    let left = without_entities(children, gone);
    if left.len() > 0 {
        let child = left[0];
        assert(left.contains(child));
        lemma_without_entities(children, gone, child);
        let i = choose|i: int| 0 <= i < children.len() && children[i] == child;
        assert(scene.objects[anchor].children[i] == child);
        assert(scene.objects[child].parent == Some(anchor));
        assert(scene.ancestor(child, 1) == Some(anchor)) by {
            assert(scene.ancestor(anchor, 0) == Some(anchor));
        }
        assert(scene.below(child, anchor));
    }
}

} // verus!
