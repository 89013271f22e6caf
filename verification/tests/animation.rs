use std::collections::HashMap;
use world_core::animation::{
    link_animations, map_entity_to_type, tmp_animation, AnimationEntityLink, EntityType,
    EntityTypes, Playback,
};
use world_core::hierarchy::Hierarchy;

const ROOT: u64 = 1;
const BODY: u64 = 2;
const A: u64 = 3;
const B: u64 = 4;

fn two_players_under_one_root() -> Hierarchy {
    let mut hierarchy = Hierarchy::new();
    hierarchy.set_parent(BODY, ROOT).unwrap();
    hierarchy.set_parent(A, BODY).unwrap();
    hierarchy.set_parent(B, ROOT).unwrap();
    hierarchy
}

#[test]
fn only_the_first_animation_player_of_a_root_is_linked() {
    let hierarchy = two_players_under_one_root();
    let mut links = HashMap::new();
    let rejected = link_animations(&vec![A, B], &hierarchy, &mut links);
    assert_eq!(rejected, vec![B]);
    assert_eq!(links.len(), 1);
    assert_eq!(links.get(&ROOT), Some(&AnimationEntityLink(A)));
}

#[test]
fn a_link_of_an_earlier_pass_is_kept() {
    let hierarchy = two_players_under_one_root();
    let mut links = HashMap::new();
    assert!(link_animations(&vec![B], &hierarchy, &mut links).is_empty());
    assert_eq!(link_animations(&vec![A], &hierarchy, &mut links), vec![A]);
    assert_eq!(links.get(&ROOT), Some(&AnimationEntityLink(B)));
}

#[test]
fn players_of_different_roots_are_all_linked() {
    let mut hierarchy = two_players_under_one_root();
    hierarchy.set_parent(11, 10).unwrap();
    let mut links = HashMap::new();
    let rejected = link_animations(&vec![11, A, 20], &hierarchy, &mut links);
    assert!(rejected.is_empty());
    assert_eq!(links.get(&10), Some(&AnimationEntityLink(11)));
    assert_eq!(links.get(&ROOT), Some(&AnimationEntityLink(A)));
    // An animation player without parent is its own top ancestor.
    assert_eq!(links.get(&20), Some(&AnimationEntityLink(20)));
    assert_eq!(links.len(), 3);
}

#[test]
fn no_new_player_changes_nothing() {
    let hierarchy = two_players_under_one_root();
    let mut links = HashMap::new();
    links.insert(ROOT, AnimationEntityLink(A));
    assert!(link_animations(&vec![], &hierarchy, &mut links).is_empty());
    assert_eq!(links.len(), 1);
}

#[test]
fn entities_are_classed_as_they_appear() {
    let mut types = EntityTypes(HashMap::new());
    map_entity_to_type(&vec![1], &vec![5, 6], &mut types);
    assert_eq!(types.0.get(&1), Some(&EntityType::Player));
    assert_eq!(types.0.get(&5), Some(&EntityType::Ling));
    assert_eq!(types.0.get(&6), Some(&EntityType::Ling));
    assert_eq!(types.0.len(), 3);
    map_entity_to_type(&vec![], &vec![7], &mut types);
    assert_eq!(types.0.get(&7), Some(&EntityType::Ling));
    assert_eq!(types.0.get(&1), Some(&EntityType::Player));
}

#[test]
fn the_clip_goes_by_the_class_of_the_top_ancestor() {
    let mut types = EntityTypes(HashMap::new());
    map_entity_to_type(&vec![1], &vec![5], &mut types);
    let fresh = vec![
        (5, AnimationEntityLink(50)),
        (9, AnimationEntityLink(90)),
        (1, AnimationEntityLink(10)),
    ];
    assert_eq!(
        tmp_animation(&fresh, &types),
        vec![
            Playback { player: 50, clip: 0, speed: 200 },
            Playback { player: 10, clip: 1, speed: 80 },
        ]
    );
    assert!(tmp_animation(&vec![], &types).is_empty());
}
