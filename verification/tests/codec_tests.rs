use wasmcolonies::codec::{
    decode_inv_response, decode_invocation, decode_player_tick, decode_pt_response,
    emit_u64, encode_inv_response, encode_invocation, encode_player_tick, encode_pt_response,
    read_u64,
};
use wasmcolonies::lattice::{Entity, Invocation, InvocationResponse};
use wasmcolonies::protocol::{
    ColonyCommand, GameStateColonyView, OreType, PlayerTick, PlayerTickResponse, UnitType,
};

#[test]
fn uint_minimal_forms() {
    let mut out: Vec<u8> = Vec::new();
    emit_u64(&mut out, 0x7f);
    assert_eq!(out, vec![0x7f]);
    let mut out: Vec<u8> = Vec::new();
    emit_u64(&mut out, 0x80);
    assert_eq!(out, vec![0xcc, 0x80]);
    let mut out: Vec<u8> = Vec::new();
    emit_u64(&mut out, 0x1234);
    assert_eq!(out, vec![0xcd, 0x12, 0x34]);
    let mut out: Vec<u8> = Vec::new();
    emit_u64(&mut out, 0x12345678);
    assert_eq!(out, vec![0xce, 0x12, 0x34, 0x56, 0x78]);
    let mut out: Vec<u8> = Vec::new();
    emit_u64(&mut out, 0x0102030405060708);
    assert_eq!(out, vec![0xcf, 0x01, 0x02, 0x03, 0x04, 0x05, 0x06, 0x07, 0x08]);
}

#[test]
fn uint_read_round_trip() {
    for v in [0u64, 1, 127, 128, 255, 256, 65535, 65536, u32::MAX as u64, u64::MAX] {
        let mut out: Vec<u8> = Vec::new();
        emit_u64(&mut out, v);
        let (got, used) = read_u64(out.as_slice(), 0).expect("readable");
        assert_eq!(got, v);
        assert_eq!(used, out.len());
    }
}

#[test]
fn uint_truncated_fails() {
    assert!(read_u64(&[0xcd, 0x12], 0).is_none());
    assert!(read_u64(&[0xcf, 1, 2, 3], 0).is_none());
    assert!(read_u64(&[], 0).is_none());
}

#[test]
fn player_tick_exact_bytes() {
    let pt = PlayerTick { tick: 7, player_id: "p1".to_string(), game_state: None };
    let bytes = encode_player_tick(&pt).expect("encodes");
    let expected: Vec<u8> = vec![
        0x83, 0xa4, 0x74, 0x69, 0x63, 0x6b, 0x07, 0xa9, 0x70, 0x6c, 0x61, 0x79, 0x65, 0x72,
        0x5f, 0x69, 0x64, 0xa2, 0x70, 0x31, 0xaa, 0x67, 0x61, 0x6d, 0x65, 0x5f, 0x73, 0x74,
        0x61, 0x74, 0x65, 0xc0,
    ];
    assert_eq!(bytes, expected);
}

#[test]
fn player_tick_round_trip() {
    let pt = PlayerTick {
        tick: 40_000,
        player_id: "player one \u{00e9}".to_string(),
        game_state: Some(GameStateColonyView { placeholder: 123_456_789 }),
    };
    let bytes = encode_player_tick(&pt).expect("encodes");
    let back = decode_player_tick(bytes.as_slice()).expect("decodes");
    assert_eq!(back, pt);
}

#[test]
fn pt_response_round_trip() {
    let resp = PlayerTickResponse {
        commands: vec![
            ColonyCommand::Pass(1),
            ColonyCommand::ConstructUnit(2, UnitType::Mine(OreType::Wasmium)),
            ColonyCommand::ConstructUnit(3, UnitType::Unknown),
        ],
    };
    let bytes = encode_pt_response(&resp).expect("encodes");
    let back = decode_pt_response(bytes.as_slice()).expect("decodes");
    assert_eq!(back, resp);
}

#[test]
fn empty_commands_round_trip() {
    let resp = PlayerTickResponse { commands: vec![] };
    let bytes = encode_pt_response(&resp).expect("encodes");
    let back = decode_pt_response(bytes.as_slice()).expect("decodes");
    assert_eq!(back, resp);
}

#[test]
fn invocation_round_trip() {
    let inv = Invocation {
        origin: Entity::Actor("system".to_string()),
        target: Entity::Capability {
            id: "VPROV".to_string(),
            contract_id: "wasm:Key Value".to_string(),
            link_name: "default".to_string(),
        },
        operation: "PlayerTick".to_string(),
        msg: vec![0, 1, 2, 254, 255],
        id: "abc-def".to_string(),
        encoded_claims: "eyJ0.eyJq.c2ln".to_string(),
        host_id: "NHOST".to_string(),
    };
    let bytes = encode_invocation(&inv).expect("encodes");
    let back = decode_invocation(bytes.as_slice()).expect("decodes");
    assert_eq!(back, inv);
}

#[test]
fn inv_response_round_trip_with_error() {
    let resp = InvocationResponse {
        msg: vec![],
        error: Some("decision unit failed".to_string()),
        invocation_id: "abc".to_string(),
    };
    let bytes = encode_inv_response(&resp).expect("encodes");
    let back = decode_inv_response(bytes.as_slice()).expect("decodes");
    assert_eq!(back, resp);
}

#[test]
fn inv_response_round_trip_without_error() {
    let resp = InvocationResponse {
        msg: vec![9, 8, 7],
        error: None,
        invocation_id: "xyz".to_string(),
    };
    let bytes = encode_inv_response(&resp).expect("encodes");
    let back = decode_inv_response(bytes.as_slice()).expect("decodes");
    assert_eq!(back, resp);
}

#[test]
fn unknown_extra_field_is_skipped() {
    // A PlayerTick map with one extra field ("x": [1, "y"]) a newer writer
    // might add; an old reader must still decode the message.
    let mut bytes: Vec<u8> = vec![0x84];
    bytes.extend_from_slice(&[0xa4, 0x74, 0x69, 0x63, 0x6b, 0x07]); // "tick": 7
    bytes.extend_from_slice(&[0xa1, 0x78]); // "x"
    bytes.extend_from_slice(&[0x92, 0x01, 0xa1, 0x79]); // [1, "y"]
    bytes.extend_from_slice(&[
        0xa9, 0x70, 0x6c, 0x61, 0x79, 0x65, 0x72, 0x5f, 0x69, 0x64, 0xa2, 0x70, 0x31,
    ]); // "player_id": "p1"
    bytes.extend_from_slice(&[
        0xaa, 0x67, 0x61, 0x6d, 0x65, 0x5f, 0x73, 0x74, 0x61, 0x74, 0x65, 0xc0,
    ]); // "game_state": nil
    let pt = decode_player_tick(bytes.as_slice()).expect("decodes despite extra field");
    assert_eq!(pt, PlayerTick { tick: 7, player_id: "p1".to_string(), game_state: None });
}

#[test]
fn fields_in_any_order_decode() {
    let mut bytes: Vec<u8> = vec![0x83];
    bytes.extend_from_slice(&[
        0xaa, 0x67, 0x61, 0x6d, 0x65, 0x5f, 0x73, 0x74, 0x61, 0x74, 0x65, 0xc0,
    ]); // "game_state": nil
    bytes.extend_from_slice(&[
        0xa9, 0x70, 0x6c, 0x61, 0x79, 0x65, 0x72, 0x5f, 0x69, 0x64, 0xa2, 0x70, 0x31,
    ]); // "player_id": "p1"
    bytes.extend_from_slice(&[0xa4, 0x74, 0x69, 0x63, 0x6b, 0x07]); // "tick": 7
    let pt = decode_player_tick(bytes.as_slice()).expect("decodes in any field order");
    assert_eq!(pt, PlayerTick { tick: 7, player_id: "p1".to_string(), game_state: None });
}

#[test]
fn missing_field_fails() {
    // Only "tick" is present; the other two required fields are missing.
    let bytes: Vec<u8> = vec![0x81, 0xa4, 0x74, 0x69, 0x63, 0x6b, 0x07];
    assert!(decode_player_tick(bytes.as_slice()).is_err());
}

#[test]
fn truncated_message_fails() {
    let pt = PlayerTick { tick: 7, player_id: "p1".to_string(), game_state: None };
    let bytes = encode_player_tick(&pt).expect("encodes");
    for cut in 0..bytes.len() {
        assert!(decode_player_tick(&bytes[..cut]).is_err());
    }
}

#[test]
fn invalid_utf8_string_fails() {
    // "player_id" whose announced string bytes are not UTF-8.
    let mut bytes: Vec<u8> = vec![0x83];
    bytes.extend_from_slice(&[0xa4, 0x74, 0x69, 0x63, 0x6b, 0x07]);
    bytes.extend_from_slice(&[
        0xa9, 0x70, 0x6c, 0x61, 0x79, 0x65, 0x72, 0x5f, 0x69, 0x64, 0xa2, 0xff, 0xfe,
    ]);
    bytes.extend_from_slice(&[
        0xaa, 0x67, 0x61, 0x6d, 0x65, 0x5f, 0x73, 0x74, 0x61, 0x74, 0x65, 0xc0,
    ]);
    assert!(decode_player_tick(bytes.as_slice()).is_err());
}

#[test]
fn pass_command_exact_bytes() {
    let resp = PlayerTickResponse { commands: vec![ColonyCommand::Pass(5)] };
    let bytes = encode_pt_response(&resp).expect("encodes");
    let expected: Vec<u8> = vec![
        0x81, 0xa8, 0x63, 0x6f, 0x6d, 0x6d, 0x61, 0x6e, 0x64, 0x73, // {"commands":
        0x91, // [
        0x81, 0xa4, 0x50, 0x61, 0x73, 0x73, 0x05, // {"Pass": 5}
    ];
    assert_eq!(bytes, expected);
}

#[test]
fn construct_unit_exact_bytes() {
    // The neutral unit type is written under the name `None` on the wire.
    let resp = PlayerTickResponse { commands: vec![ColonyCommand::ConstructUnit(1, UnitType::Unknown)] };
    let bytes = encode_pt_response(&resp).expect("encodes");
    let expected: Vec<u8> = vec![
        0x81, 0xa8, 0x63, 0x6f, 0x6d, 0x6d, 0x61, 0x6e, 0x64, 0x73, // {"commands":
        0x91, // [
        0x81, 0xad, 0x43, 0x6f, 0x6e, 0x73, 0x74, 0x72, 0x75, 0x63, 0x74, 0x55, 0x6e, 0x69,
        0x74, // {"ConstructUnit":
        0x92, 0x01, 0xa4, 0x4e, 0x6f, 0x6e, 0x65, // [1, "None"]
    ];
    assert_eq!(bytes, expected);
}
