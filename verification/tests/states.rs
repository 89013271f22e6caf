use world_core::states::GameState;

#[test]
fn the_game_starts_in_game() {
    assert_eq!(GameState::default(), GameState::InGame);
    assert_ne!(GameState::default(), GameState::Paused);
}
