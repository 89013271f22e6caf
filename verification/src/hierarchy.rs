//! The parent relation of the scene graph, kept free of cycles, and the climb
//! from an entity to the top of its hierarchy.

use std::collections::HashMap;
use vstd::prelude::*;

verus! {

broadcast use vstd::std_specs::hash::group_hash_axioms;

/// An entity of the scene graph, by the id that the graph gave it.
pub type Entity = u64;

/// The entity reached from `entity` after at most `steps` parent links; the
/// climb stops early at an entity without parent.
pub open spec fn ancestor(parents: Map<Entity, Entity>, entity: Entity, steps: nat) -> Entity
    decreases steps,
{
    if steps == 0 || !parents.contains_key(entity) {
        entity
    } else {
        ancestor(parents, parents[entity], (steps - 1) as nat)
    }
}

/// Exactly `steps` parent links lead from `entity` to an entity without
/// parent.
pub open spec fn reaches_top(parents: Map<Entity, Entity>, entity: Entity, steps: nat) -> bool
    decreases steps,
{
    if !parents.contains_key(entity) {
        steps == 0
    } else {
        steps > 0 && reaches_top(parents, parents[entity], (steps - 1) as nat)
    }
}

/// The chain of parent links from `entity` ends.
pub open spec fn has_top(parents: Map<Entity, Entity>, entity: Entity) -> bool {
    exists|steps: nat| reaches_top(parents, entity, steps)
}

/// No chain of parent links runs in a circle.
pub open spec fn acyclic(parents: Map<Entity, Entity>) -> bool {
    forall|entity: Entity| #[trigger] has_top(parents, entity)
}

/// The number of parent links between `entity` and the top of its hierarchy.
pub open spec fn depth(parents: Map<Entity, Entity>, entity: Entity) -> nat {
    choose|steps: nat| reaches_top(parents, entity, steps)
}

/// The top ancestor of `entity`: where the climb along parent links ends.
pub open spec fn top_ancestor(parents: Map<Entity, Entity>, entity: Entity) -> Entity {
    ancestor(parents, entity, depth(parents, entity))
}

/// `target` lies on the chain of parent links that starts at `from`, `from`
/// itself included.
pub open spec fn on_chain(parents: Map<Entity, Entity>, from: Entity, target: Entity) -> bool {
    exists|steps: nat| ancestor(parents, from, steps) == target
}

/// A chain has one length only.
pub proof fn lemma_depth_unique(parents: Map<Entity, Entity>, entity: Entity, a: nat, b: nat)
    requires
        reaches_top(parents, entity, a),
        reaches_top(parents, entity, b),
    ensures
        a == b,
    decreases a,
{
    if parents.contains_key(entity) {
        lemma_depth_unique(parents, parents[entity], (a - 1) as nat, (b - 1) as nat);
    }
}

/// The depth of an entity whose chain ends: none without a parent, else one
/// more than the parent's.
pub proof fn lemma_depth(parents: Map<Entity, Entity>, entity: Entity)
    requires
        has_top(parents, entity),
    ensures
        reaches_top(parents, entity, depth(parents, entity)),
        !parents.contains_key(entity) ==> depth(parents, entity) == 0,
        parents.contains_key(entity) ==> has_top(parents, parents[entity]) && depth(
            parents,
            entity,
        ) == depth(parents, parents[entity]) + 1,
{
    let d = depth(parents, entity);
    if parents.contains_key(entity) {
        let up = parents[entity];
        assert(reaches_top(parents, up, (d - 1) as nat));
        lemma_depth_unique(parents, up, (d - 1) as nat, depth(parents, up));
    }
}

/// What the top ancestor is: an entity without parent; the entity itself
/// where it has no parent, else the top ancestor of its parent.
pub proof fn lemma_top_ancestor(parents: Map<Entity, Entity>, entity: Entity)
    requires
        has_top(parents, entity),
    ensures
        !parents.contains_key(top_ancestor(parents, entity)),
        !parents.contains_key(entity) ==> top_ancestor(parents, entity) == entity,
        parents.contains_key(entity) ==> top_ancestor(parents, entity) == top_ancestor(
            parents,
            parents[entity],
        ),
    decreases depth(parents, entity),
{
    lemma_depth(parents, entity);
    if parents.contains_key(entity) {
        lemma_top_ancestor(parents, parents[entity]);
    }
}

/// Climbing from the parent is climbing one step further from the child.
proof fn lemma_ancestor_shift(parents: Map<Entity, Entity>, entity: Entity, steps: nat)
    requires
        parents.contains_key(entity),
    ensures
        ancestor(parents, parents[entity], steps) == ancestor(parents, entity, steps + 1),
{
}

/// Climbing one step more is taking the parent of where the climb had come.
proof fn lemma_ancestor_next(parents: Map<Entity, Entity>, entity: Entity, steps: nat)
    ensures
        ancestor(parents, entity, steps + 1) == (if parents.contains_key(
            ancestor(parents, entity, steps),
        ) {
            parents[ancestor(parents, entity, steps)]
        } else {
            ancestor(parents, entity, steps)
        }),
    decreases steps,
{
    if parents.contains_key(entity) {
        let up = parents[entity];
        assert(ancestor(parents, entity, steps + 1) == ancestor(parents, up, steps));
        if steps > 0 {
            lemma_ancestor_next(parents, up, (steps - 1) as nat);
            assert(ancestor(parents, entity, steps) == ancestor(parents, up, (steps - 1) as nat));
        } else {
            assert(ancestor(parents, up, 0) == up);
            assert(ancestor(parents, entity, 0) == entity);
        }
    }
}

/// Where the climb has reached an entity without parent, it stays.
proof fn lemma_ancestor_rest(parents: Map<Entity, Entity>, entity: Entity, reached: nat, steps: nat)
    requires
        !parents.contains_key(ancestor(parents, entity, reached)),
        steps >= reached,
    ensures
        ancestor(parents, entity, steps) == ancestor(parents, entity, reached),
    decreases steps - reached,
{
    if steps > reached {
        lemma_ancestor_rest(parents, entity, reached, (steps - 1) as nat);
        lemma_ancestor_next(parents, entity, (steps - 1) as nat);
    }
}

/// A chain that avoids `child` is the same chain after `child` got another
/// parent.
proof fn lemma_chain_kept(
    parents: Map<Entity, Entity>,
    child: Entity,
    parent: Entity,
    from: Entity,
    steps: nat,
)
    requires
        !on_chain(parents, from, child),
        reaches_top(parents, from, steps),
    ensures
        reaches_top(parents.insert(child, parent), from, steps),
    decreases steps,
{
    assert(ancestor(parents, from, 0) == from);
    assert(from != child);
    if parents.contains_key(from) {
        let up = parents[from];
        assert forall|n: nat| ancestor(parents, up, n) != child by {
            lemma_ancestor_shift(parents, from, n);
            assert(ancestor(parents, from, n + 1) != child);
        }
        lemma_chain_kept(parents, child, parent, up, (steps - 1) as nat);
    }
}

/// Giving `child` the parent `parent` makes no circle where `child` is not
/// on the chain of `parent`.
proof fn lemma_insert_has_top(
    parents: Map<Entity, Entity>,
    child: Entity,
    parent: Entity,
    entity: Entity,
    steps: nat,
)
    requires
        acyclic(parents),
        !on_chain(parents, parent, child),
        reaches_top(parents, entity, steps),
    ensures
        has_top(parents.insert(child, parent), entity),
    decreases steps,
{
    let after = parents.insert(child, parent);
    if entity == child {
        assert(has_top(parents, parent));
        let d = depth(parents, parent);
        lemma_chain_kept(parents, child, parent, parent, d);
        assert(reaches_top(after, entity, d + 1));
    } else if !parents.contains_key(entity) {
        assert(reaches_top(after, entity, 0));
    } else {
        lemma_insert_has_top(parents, child, parent, parents[entity], (steps - 1) as nat);
        let m = choose|m: nat| reaches_top(after, parents[entity], m);
        assert(reaches_top(after, entity, m + 1));
    }
}

/// Taking the parent of `child` away makes no circle.
proof fn lemma_remove_has_top(
    parents: Map<Entity, Entity>,
    child: Entity,
    entity: Entity,
    steps: nat,
)
    requires
        reaches_top(parents, entity, steps),
    ensures
        has_top(parents.remove(child), entity),
    decreases steps,
{
    let after = parents.remove(child);
    if entity == child || !parents.contains_key(entity) {
        assert(reaches_top(after, entity, 0));
    } else {
        lemma_remove_has_top(parents, child, parents[entity], (steps - 1) as nat);
        let m = choose|m: nat| reaches_top(after, parents[entity], m);
        assert(reaches_top(after, entity, m + 1));
    }
}

/// Why a parent link was refused.
#[derive(Clone, Copy, Debug, PartialEq, Eq, Structural)]
pub enum HierarchyError {
    /// The link would close a circle: the child is the parent itself or one
    /// of its ancestors.
    Cycle,
}

/// The parent of each entity that has one.
pub struct Hierarchy {
    parents: HashMap<Entity, Entity>,
}

impl View for Hierarchy {
    type V = Map<Entity, Entity>;

    closed spec fn view(&self) -> Map<Entity, Entity> {
        self.parents@
    }
}

impl Hierarchy {
    /// No chain of parent links runs in a circle.
    pub open spec fn wf(&self) -> bool {
        acyclic(self@)
    }

    /// A hierarchy in which no entity has a parent.
    pub fn new() -> (hierarchy: Hierarchy)
        ensures
            hierarchy.wf(),
            forall|entity: Entity| !hierarchy@.contains_key(entity),
    {
        let hierarchy = Hierarchy { parents: HashMap::new() };
        proof {
            assert forall|entity: Entity| #[trigger] has_top(hierarchy@, entity) by {
                assert(reaches_top(hierarchy@, entity, 0));
            }
        }
        hierarchy
    }

    /// The parent of `child`, if it has one.
    pub fn parent(&self, child: Entity) -> (parent: Option<Entity>)
        ensures
            parent.is_some() == self@.contains_key(child),
            parent.is_some() ==> parent.unwrap() == self@[child],
    {
        match self.parents.get(&child) {
            Some(parent) => Some(*parent),
            None => None,
        }
    }

    /// Tells whether `target` lies on the chain of parent links that starts
    /// at `from`, `from` itself included.
    pub fn is_on_chain(&self, from: Entity, target: Entity) -> (found: bool)
        requires
            self.wf(),
        ensures
            found == on_chain(self@, from, target),
    {
        let mut current = from;
        let mut seen = false;
        let ghost mut climbed: nat = 0;
        loop
            invariant_except_break
                self.wf(),
                current == ancestor(self@, from, climbed),
                forall|n: nat| n < climbed ==> ancestor(self@, from, n) != target,
            ensures
                seen == on_chain(self@, from, target),
            decreases depth(self@, current),
        {
            if current == target {
                seen = true;
                break ;
            }
            match self.parents.get(&current) {
                Some(up) => {
                    proof {
                        assert(has_top(self@, current));
                        lemma_depth(self@, current);
                        lemma_ancestor_next(self@, from, climbed);
                        climbed = climbed + 1;
                    }
                    current = *up;
                },
                None => {
                    proof {
                        assert(has_top(self@, from));
                        assert forall|n: nat| ancestor(self@, from, n) != target by {
                            if n >= climbed {
                                lemma_ancestor_rest(self@, from, climbed, n);
                            }
                        }
                    }
                    seen = false;
                    break ;
                },
            }
        }
        seen
    }

    /// Makes `parent` the parent of `child`, in place of the parent it may
    /// have had. A link that would close a circle is refused and changes
    /// nothing.
    pub fn set_parent(&mut self, child: Entity, parent: Entity) -> (result: Result<
        (),
        HierarchyError,
    >)
        requires
            old(self).wf(),
        ensures
            final(self).wf(),
            result.is_err() == on_chain(old(self)@, parent, child),
            result.is_ok() ==> final(self)@ == old(self)@.insert(child, parent),
            result.is_err() ==> final(self)@ == old(self)@,
    {
        if self.is_on_chain(parent, child) {
            return Err(HierarchyError::Cycle);
        }
        self.parents.insert(child, parent);
        proof {
            let before = old(self)@;
            assert forall|entity: Entity| #[trigger] has_top(self@, entity) by {
                assert(has_top(before, entity));
                lemma_insert_has_top(before, child, parent, entity, depth(before, entity));
            }
        }
        Ok(())
    }

    /// Takes the parent of `child` away, if it had one.
    pub fn remove_parent(&mut self, child: Entity)
        requires
            old(self).wf(),
        ensures
            final(self).wf(),
            final(self)@ == old(self)@.remove(child),
    {
        self.parents.remove(&child);
        proof {
            let before = old(self)@;
            assert(self@ =~= before.remove(child));
            assert forall|entity: Entity| #[trigger] has_top(self@, entity) by {
                assert(has_top(before, entity));
                lemma_remove_has_top(before, child, entity, depth(before, entity));
            }
        }
    }
}

/// Climbs the parent links from `curr_entity` to the top of its hierarchy.
pub fn get_top_parent(curr_entity: Entity, parent_query: &Hierarchy) -> (top: Entity)
    requires
        parent_query.wf(),
    ensures
        top == top_ancestor(parent_query@, curr_entity),
        !parent_query@.contains_key(top),
{
    let mut current = curr_entity;
    loop
        invariant_except_break
            parent_query.wf(),
            top_ancestor(parent_query@, current) == top_ancestor(parent_query@, curr_entity),
        ensures
            current == top_ancestor(parent_query@, curr_entity),
            !parent_query@.contains_key(current),
        decreases depth(parent_query@, current),
    {
        proof {
            assert(has_top(parent_query@, current));
            lemma_depth(parent_query@, current);
            lemma_top_ancestor(parent_query@, current);
        }
        match parent_query.parent(current) {
            Some(up) => {
                current = up;
            },
            None => {
                break ;
            },
        }
    }
    current
}

} // verus!
