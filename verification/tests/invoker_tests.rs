use wasmcolonies::codec::{encode_inv_response, encode_pt_response};
use wasmcolonies::invoker::{
    commands_or_fallback, interpret_reply, prepare_player_tick, InvokeError,
};
use wasmcolonies::lattice::{new_host_key, InvocationResponse};
use wasmcolonies::orchestrator::{collect_players, collect_tick_commands};
use wasmcolonies::protocol::{ColonyCommand, OreType, PlayerTickResponse, UnitType};

fn mine() -> UnitType {
    UnitType::Mine(OreType::Wasmium)
}

#[test]
fn no_reply_degrades_to_single_pass() {
    let outcome = interpret_reply(None);
    assert_eq!(outcome, Err(InvokeError::Unreachable));
    let cmds = commands_or_fallback(outcome, 42);
    assert_eq!(cmds, vec![ColonyCommand::Pass(42)]);
}

#[test]
fn garbage_reply_is_a_protocol_error() {
    let outcome = interpret_reply(Some(vec![0xff, 0x00, 0x13]));
    assert!(matches!(outcome, Err(InvokeError::Protocol(_))));
    let cmds = commands_or_fallback(outcome, 9);
    assert_eq!(cmds, vec![ColonyCommand::Pass(9)]);
}

#[test]
fn remote_error_is_reported_with_its_message() {
    let resp = InvocationResponse {
        msg: vec![],
        error: Some("boom".to_string()),
        invocation_id: "i-1".to_string(),
    };
    let bytes = encode_inv_response(&resp).expect("encodes");
    let outcome = interpret_reply(Some(bytes));
    assert_eq!(outcome, Err(InvokeError::Remote("boom".to_string())));
}

#[test]
fn good_reply_yields_the_commands() {
    let payload = encode_pt_response(&PlayerTickResponse {
        commands: vec![ColonyCommand::Pass(3), ColonyCommand::ConstructUnit(3, mine())],
    })
    .expect("encodes");
    let resp = InvocationResponse { msg: payload, error: None, invocation_id: "i-2".to_string() };
    let bytes = encode_inv_response(&resp).expect("encodes");
    let outcome = interpret_reply(Some(bytes));
    assert_eq!(
        outcome,
        Ok(vec![ColonyCommand::Pass(3), ColonyCommand::ConstructUnit(3, mine())])
    );
}

#[test]
fn bad_inner_payload_is_a_protocol_error() {
    let resp = InvocationResponse {
        msg: vec![0x13, 0x37],
        error: None,
        invocation_id: "i-3".to_string(),
    };
    let bytes = encode_inv_response(&resp).expect("encodes");
    assert!(matches!(interpret_reply(Some(bytes)), Err(InvokeError::Protocol(_))));
}

#[test]
fn three_players_aggregate_in_roster_order() {
    // Player A times out, player B passes, player C builds a mine.
    let t = 11;
    let outcomes = vec![
        Err(InvokeError::Unreachable),
        Ok(vec![ColonyCommand::Pass(t)]),
        Ok(vec![ColonyCommand::ConstructUnit(t, mine())]),
    ];
    let all = collect_tick_commands(outcomes, t);
    assert_eq!(
        all,
        vec![
            ColonyCommand::Pass(t),
            ColonyCommand::Pass(t),
            ColonyCommand::ConstructUnit(t, mine()),
        ]
    );
}

#[test]
fn commands_are_never_carried_across_players() {
    let outcomes = vec![
        Ok(vec![]),
        Ok(vec![ColonyCommand::Pass(1), ColonyCommand::Pass(1)]),
        Err(InvokeError::Remote("x".to_string())),
    ];
    let all = collect_tick_commands(outcomes, 1);
    assert_eq!(
        all,
        vec![ColonyCommand::Pass(1), ColonyCommand::Pass(1), ColonyCommand::Pass(1)]
    );
}

#[test]
fn prepared_call_targets_the_player() {
    let hk = new_host_key();
    let (subject, inv, bytes) =
        prepare_player_tick(&hk, "player1", "MDVV", 5, None).expect("prepares");
    assert_eq!(subject, "wasmbus.rpc.default.MDVV");
    assert_eq!(inv.operation, "PlayerTick");
    assert!(!bytes.is_empty());
    assert_eq!(inv.id.len(), 36);
}

#[test]
fn roster_has_the_bootstrap_player() {
    let players = collect_players();
    assert_eq!(players.len(), 1);
    assert_eq!(players[0].player_id, "player1");
    assert_eq!(
        players[0].actor_key,
        "MDVVUGY5RK7TMJGJOOCOTFY6QA3M3W4ODENO43HWEKLO5OMTVKF5KAWJ"
    );
}
