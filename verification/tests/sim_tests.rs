use wasmcolonies::construction::{construction, ConstructionSite};
use wasmcolonies::player::{Player, Score};
use wasmcolonies::resources::{mines, Mine, ResourceType};
use wasmcolonies::structure::Structure;
use wasmcolonies::sdk::Game;

#[test]
fn construction_progress_caps_at_100() {
    let mut sites = vec![
        ConstructionSite { progress: 0, progress_rate_pct: 1 },
        ConstructionSite { progress: 99, progress_rate_pct: 30 },
        ConstructionSite { progress: 100, progress_rate_pct: 10 },
        ConstructionSite { progress: 250, progress_rate_pct: 250 },
    ];
    construction(&mut sites);
    assert_eq!(sites[0].progress, 1);
    assert_eq!(sites[1].progress, 100);
    assert_eq!(sites[2].progress, 100);
    assert_eq!(sites[3].progress, 100);
    assert_eq!(sites[0].progress_rate_pct, 1);
}

#[test]
fn unfinished_mine_yields_nothing() {
    let m = Mine::new(ResourceType::Wasmium, 1_000, 1_000, 1000);
    let site = ConstructionSite { progress: 50, progress_rate_pct: 1 };
    let mut units = vec![(m, site)];
    mines(&mut units);
    assert_eq!(units[0].0.current_qty, 0);
    assert_eq!(units[0].0.deposit_qty, 1_000);
}

#[test]
fn finished_mine_yields_and_depletes() {
    let m = Mine::new(ResourceType::Wasmium, 1_000, 1_000, 1000);
    let site = ConstructionSite { progress: 100, progress_rate_pct: 1 };
    let mut units = vec![(m, site)];
    mines(&mut units);
    assert_eq!(units[0].0.current_qty, 1_000);
    assert_eq!(units[0].0.deposit_qty, 0);
    // At capacity: a further tick changes nothing.
    mines(&mut units);
    assert_eq!(units[0].0.current_qty, 1_000);
    assert_eq!(units[0].0.deposit_qty, 0);
}

#[test]
fn mine_yield_is_clamped_to_capacity() {
    let m = Mine::new(ResourceType::Wasmium, 10, 100, 7);
    let site = ConstructionSite { progress: 100, progress_rate_pct: 1 };
    let mut units = vec![(m, site)];
    mines(&mut units);
    assert_eq!(units[0].0.current_qty, 7);
    assert_eq!(units[0].0.deposit_qty, 93);
    mines(&mut units);
    assert_eq!(units[0].0.current_qty, 10);
    assert_eq!(units[0].0.deposit_qty, 86);
}

#[test]
fn player_base_is_the_standard_structure() {
    let s = Structure::player_base();
    assert_eq!(s.max_hp, 1000);
    assert_eq!(s.hp, 1000);
    assert!(s.attackable);
    assert_eq!(s.ar, 125);
}

#[test]
fn players_start_with_empty_identity_and_zero_score() {
    let p = Player::default();
    assert_eq!(p.actor_key, "");
    assert_eq!(p.id, "");
    assert_eq!(Score::default().value, 0);
}

#[test]
fn game_hands_out_world_handles() {
    let _colony = Game::my_colony();
    let _map = Game::map();
}
