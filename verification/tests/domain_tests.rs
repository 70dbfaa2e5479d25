use wasmcolonies::domain::{
    ColonyEvent, ConstructionSite, ConstructionSiteData, GenerationConflict,
};
use wasmcolonies::protocol::{ColonyCommand, OreType, UnitType};
use wasmcolonies::rules::GameParameters;

fn mine() -> UnitType {
    UnitType::Mine(OreType::Wasmium)
}

#[test]
fn replay_reconstructs_state() {
    // Construction begins at tick 5 with 1000 ticks to go, then one tick
    // elapses: 999 remain.
    let events = vec![
        ColonyEvent::UnitConstructionBegan { tick: 5, utype: mine(), yield_in: 1000 },
        ColonyEvent::TickFinished(6),
    ];
    let state = ConstructionSite::replay(&ConstructionSiteData::default(), &events);
    assert_eq!(state.remaining, 999);
    assert_eq!(state.yields, mine());
    assert_eq!(state.began, 5);
    assert_eq!(state.generation, 2);
}

#[test]
fn handle_command_ignores_state() {
    let params = GameParameters { construction_times: vec![(mine(), 250)] };
    let s1 = ConstructionSiteData::default();
    let s2 = ConstructionSiteData { id: 9, began: 4, generation: 17, remaining: 3, yields: mine() };
    let cmd = ColonyCommand::ConstructUnit(7, mine());
    let ev1 = ConstructionSite::handle_command(&params, &s1, &cmd);
    let ev2 = ConstructionSite::handle_command(&params, &s2, &cmd);
    let expected = vec![ColonyEvent::UnitConstructionBegan { tick: 7, utype: mine(), yield_in: 250 }];
    assert_eq!(ev1, expected);
    assert_eq!(ev2, expected);
}

#[test]
fn handle_command_uses_default_duration_when_unconfigured() {
    let params = GameParameters::default();
    let s = ConstructionSiteData::default();
    let ev = ConstructionSite::handle_command(&params, &s, &ColonyCommand::ConstructUnit(7, mine()));
    assert_eq!(
        ev,
        vec![ColonyEvent::UnitConstructionBegan { tick: 7, utype: mine(), yield_in: 1000 }]
    );
}

#[test]
fn pass_yields_single_noop_event() {
    let params = GameParameters::default();
    let s = ConstructionSiteData::default();
    let ev = ConstructionSite::handle_command(&params, &s, &ColonyCommand::Pass(3));
    assert_eq!(ev, vec![ColonyEvent::Noop]);
}

#[test]
fn tick_finished_floors_at_zero() {
    let s = ConstructionSiteData::default();
    assert_eq!(s.remaining, 0);
    let after = ConstructionSite::apply_event(&s, &ColonyEvent::TickFinished(1));
    assert_eq!(after.remaining, 0);
    let again = ConstructionSite::apply_event(&after, &ColonyEvent::TickFinished(2));
    assert_eq!(again.remaining, 0);
}

#[test]
fn every_apply_advances_generation() {
    let s = ConstructionSiteData::default();
    let a = ConstructionSite::apply_event(&s, &ColonyEvent::Noop);
    assert_eq!(a.generation, 1);
    assert_eq!(a.remaining, s.remaining);
    let b = ConstructionSite::apply_event(&a, &ColonyEvent::TickFinished(0));
    assert_eq!(b.generation, 2);
}

#[test]
fn stale_generation_is_rejected() {
    let s = ConstructionSiteData::default();
    let s = ConstructionSite::apply_event(&s, &ColonyEvent::Noop);
    assert_eq!(s.generation(), 1);
    let conflict = ConstructionSite::apply_event_checked(&s, 0, &ColonyEvent::TickFinished(1));
    assert_eq!(conflict, Err(GenerationConflict { expected: 0, actual: 1 }));
    let ok = ConstructionSite::apply_event_checked(&s, 1, &ColonyEvent::TickFinished(1))
        .expect("matching generation applies");
    assert_eq!(ok.generation, 2);
}

#[test]
fn first_configured_duration_wins() {
    let params = GameParameters {
        construction_times: vec![(mine(), 30), (mine(), 99), (UnitType::Unknown, 7)],
    };
    assert_eq!(params.duration_of(mine()), Some(30));
    assert_eq!(params.duration_of(UnitType::Unknown), Some(7));
    assert_eq!(params.configured_duration(mine()), 30);
    let empty = GameParameters::default();
    assert_eq!(empty.duration_of(mine()), None);
    assert_eq!(empty.configured_duration(mine()), 1000);
}

#[test]
fn unit_type_default_is_the_neutral_variant() {
    assert_eq!(UnitType::default(), UnitType::Unknown);
}
