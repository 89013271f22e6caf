//! Linking the animation player of a hierarchy to the hierarchy's top
//! ancestor, and choosing the clip that a freshly linked player starts.

use std::collections::HashMap;
use vstd::prelude::*;
use crate::hierarchy::{
    acyclic, get_top_parent, has_top, lemma_top_ancestor, top_ancestor, Entity, Hierarchy,
};

verus! {

broadcast use vstd::std_specs::hash::group_hash_axioms;

/// Held for a top ancestor: the entity below it that plays its animations.
#[derive(Clone, Copy, Debug, PartialEq, Eq, Structural)]
pub struct AnimationEntityLink(pub Entity);

/// The classes of entity that behaviour tells apart.
#[derive(Clone, Copy, Debug, PartialEq, Eq, Structural)]
pub enum EntityType {
    Player,
    Ling,
}

/// The class of each entity that was seen to have one.
pub struct EntityTypes(pub HashMap<Entity, EntityType>);

/// The order to start a clip on an animation player. Clips are named by
/// their place among the animation assets, speed is in hundredths of the
/// clip's own speed; playback repeats.
#[derive(Clone, Copy, Debug, PartialEq, Eq, Structural)]
pub struct Playback {
    pub player: Entity,
    pub clip: usize,
    pub speed: u32,
}

/// The clip of the player's hierarchy and its speed.
pub const PLAYER_CLIP: usize = 1;

pub const PLAYER_SPEED: u32 = 80;

/// The clip of a ling's hierarchy and its speed.
pub const LING_CLIP: usize = 0;

pub const LING_SPEED: u32 = 200;

/// The links after a pass, and the animation players that found the top of
/// their hierarchy linked already: each of those calls for a warning.
pub struct Linking {
    pub links: Map<Entity, AnimationEntityLink>,
    pub rejected: Seq<Entity>,
}

/// Takes one animation player in: its top ancestor is linked to it unless
/// that ancestor has a link, which then stays.
pub open spec fn link_one(parents: Map<Entity, Entity>, so_far: Linking, player: Entity) -> Linking {
    let top = top_ancestor(parents, player);
    if so_far.links.contains_key(top) {
        Linking { links: so_far.links, rejected: so_far.rejected.push(player) }
    } else {
        Linking {
            links: so_far.links.insert(top, AnimationEntityLink(player)),
            rejected: so_far.rejected,
        }
    }
}

/// Takes the animation players in, one after the other.
pub open spec fn link_all(
    parents: Map<Entity, Entity>,
    links: Map<Entity, AnimationEntityLink>,
    players: Seq<Entity>,
) -> Linking
    decreases players.len(),
{
    if players.len() == 0 {
        Linking { links, rejected: Seq::empty() }
    } else {
        link_one(parents, link_all(parents, links, players.drop_last()), players.last())
    }
}

/// Of two animation players under one top ancestor that has no link yet,
/// the first is linked and the second is rejected.
pub proof fn lemma_second_player_is_rejected(
    parents: Map<Entity, Entity>,
    links: Map<Entity, AnimationEntityLink>,
    first: Entity,
    second: Entity,
)
    requires
        top_ancestor(parents, first) == top_ancestor(parents, second),
        !links.contains_key(top_ancestor(parents, first)),
    ensures
        link_all(parents, links, seq![first, second]).links == links.insert(
            top_ancestor(parents, first),
            AnimationEntityLink(first),
        ),
        link_all(parents, links, seq![first, second]).rejected == seq![second],
{
    let both = seq![first, second];
    let one = both.drop_last();
    assert(one =~= seq![first]);
    assert(one.drop_last() =~= Seq::<Entity>::empty());
    assert(link_all(parents, links, one.drop_last()) == Linking { links, rejected: Seq::empty() });
    assert(link_all(parents, links, one) == link_one(
        parents,
        link_all(parents, links, one.drop_last()),
        first,
    ));
    assert(link_all(parents, links, both) == link_one(
        parents,
        link_all(parents, links, one),
        second,
    ));
    assert(link_all(parents, links, both).rejected =~= seq![second]);
}

/// A pass never changes or removes a link: a top ancestor keeps the
/// animation player that it was linked to first.
pub proof fn lemma_links_are_kept(
    parents: Map<Entity, Entity>,
    links: Map<Entity, AnimationEntityLink>,
    players: Seq<Entity>,
    top: Entity,
)
    requires
        links.contains_key(top),
    ensures
        link_all(parents, links, players).links.contains_key(top),
        link_all(parents, links, players).links[top] == links[top],
    decreases players.len(),
{
    if players.len() > 0 {
        lemma_links_are_kept(parents, links, players.drop_last(), top);
    }
}

/// Links sit on top ancestors: where every linked entity is without parent
/// before a pass, every linked entity is so after it.
pub proof fn lemma_links_sit_on_tops(
    parents: Map<Entity, Entity>,
    links: Map<Entity, AnimationEntityLink>,
    players: Seq<Entity>,
    top: Entity,
)
    requires
        acyclic(parents),
        forall|entity: Entity| links.contains_key(entity) ==> !parents.contains_key(entity),
        link_all(parents, links, players).links.contains_key(top),
    ensures
        !parents.contains_key(top),
    decreases players.len(),
{
    if players.len() > 0 {
        let earlier = link_all(parents, links, players.drop_last());
        if earlier.links.contains_key(top) {
            lemma_links_sit_on_tops(parents, links, players.drop_last(), top);
        } else {
            assert(top == top_ancestor(parents, players.last()));
            assert(has_top(parents, players.last()));
            lemma_top_ancestor(parents, players.last());
        }
    }
}

/// Links each new animation player to the top ancestor of its hierarchy and
/// returns the players that were rejected because their top ancestor was
/// linked already.
pub fn link_animations(
    player_query: &Vec<Entity>,
    parent_query: &Hierarchy,
    links: &mut HashMap<Entity, AnimationEntityLink>,
) -> (rejected: Vec<Entity>)
    requires
        parent_query.wf(),
    ensures
        final(links)@ == link_all(parent_query@, old(links)@, player_query@).links,
        rejected@ == link_all(parent_query@, old(links)@, player_query@).rejected,
{
    let mut rejected: Vec<Entity> = Vec::new();
    let mut i: usize = 0;
    while i < player_query.len()
        invariant
            i <= player_query.len(),
            parent_query.wf(),
            links@ == link_all(parent_query@, old(links)@, player_query@.take(i as int)).links,
            rejected@ == link_all(
                parent_query@,
                old(links)@,
                player_query@.take(i as int),
            ).rejected,
        decreases player_query.len() - i,
    {
        let entity = player_query[i];
        let top_entity = get_top_parent(entity, parent_query);
        proof {
            assert(player_query@.take(i + 1).drop_last() =~= player_query@.take(i as int));
            assert(player_query@.take(i + 1).last() == entity);
        }
        if links.contains_key(&top_entity) {
            rejected.push(entity);
        } else {
            links.insert(top_entity, AnimationEntityLink(entity));
        }
        i = i + 1;
    }
    proof {
        assert(player_query@.take(i as int) =~= player_query@);
    }
    rejected
}

/// The table after each entity of the list was seen to be of the class
/// `class`.
pub open spec fn classed(
    types: Map<Entity, EntityType>,
    entities: Seq<Entity>,
    class: EntityType,
) -> Map<Entity, EntityType>
    decreases entities.len(),
{
    if entities.len() == 0 {
        types
    } else {
        classed(types, entities.drop_last(), class).insert(entities.last(), class)
    }
}

fn note_class(entities: &Vec<Entity>, class: EntityType, entity_type_map: &mut EntityTypes)
    ensures
        final(entity_type_map).0@ == classed(old(entity_type_map).0@, entities@, class),
{
    let mut i: usize = 0;
    while i < entities.len()
        invariant
            i <= entities.len(),
            entity_type_map.0@ == classed(old(entity_type_map).0@, entities@.take(i as int), class),
        decreases entities.len() - i,
    {
        proof {
            assert(entities@.take(i + 1).drop_last() =~= entities@.take(i as int));
        }
        entity_type_map.0.insert(entities[i], class);
        i = i + 1;
    }
    proof {
        assert(entities@.take(i as int) =~= entities@);
    }
}

/// Notes the class of the entities that appeared: first the players, then
/// the lings.
pub fn map_entity_to_type(
    players: &Vec<Entity>,
    lings: &Vec<Entity>,
    entity_type_map: &mut EntityTypes,
)
    ensures
        final(entity_type_map).0@ == classed(
            classed(old(entity_type_map).0@, players@, EntityType::Player),
            lings@,
            EntityType::Ling,
        ),
{
    note_class(players, EntityType::Player, entity_type_map);
    note_class(lings, EntityType::Ling, entity_type_map);
}

/// The order that starts the animation of a hierarchy of the class `class`.
pub open spec fn playback_for(class: EntityType, player: Entity) -> Playback {
    match class {
        EntityType::Player => Playback { player, clip: PLAYER_CLIP, speed: PLAYER_SPEED },
        EntityType::Ling => Playback { player, clip: LING_CLIP, speed: LING_SPEED },
    }
}

/// The orders for a list of fresh links, each given with its top ancestor:
/// one for each link whose top ancestor has a class, in the order of the
/// list.
pub open spec fn playbacks(
    types: Map<Entity, EntityType>,
    fresh: Seq<(Entity, AnimationEntityLink)>,
) -> Seq<Playback>
    decreases fresh.len(),
{
    if fresh.len() == 0 {
        Seq::empty()
    } else {
        let earlier = playbacks(types, fresh.drop_last());
        let (top, link) = fresh.last();
        if types.contains_key(top) {
            earlier.push(playback_for(types[top], link.0))
        } else {
            earlier
        }
    }
}

/// Chooses, for each fresh link, the clip and speed that its animation
/// player is to start, by the class of the link's top ancestor.
pub fn tmp_animation(
    query: &Vec<(Entity, AnimationEntityLink)>,
    entity_type_map: &EntityTypes,
) -> (orders: Vec<Playback>)
    ensures
        orders@ == playbacks(entity_type_map.0@, query@),
{
    let mut orders: Vec<Playback> = Vec::new();
    let mut i: usize = 0;
    while i < query.len()
        invariant
            i <= query.len(),
            orders@ == playbacks(entity_type_map.0@, query@.take(i as int)),
        decreases query.len() - i,
    {
        let (top_entity, player_entity) = query[i];
        proof {
            assert(query@.take(i + 1).drop_last() =~= query@.take(i as int));
            assert(query@.take(i + 1).last() == query@[i as int]);
        }
        match entity_type_map.0.get(&top_entity) {
            Some(e_type) => match e_type {
                EntityType::Player => {
                    orders.push(
                        Playback { player: player_entity.0, clip: PLAYER_CLIP, speed: PLAYER_SPEED },
                    );
                },
                EntityType::Ling => {
                    orders.push(
                        Playback { player: player_entity.0, clip: LING_CLIP, speed: LING_SPEED },
                    );
                },
            },
            None => {},
        }
        i = i + 1;
    }
    proof {
        assert(query@.take(i as int) =~= query@);
    }
    orders
}

} // verus!
