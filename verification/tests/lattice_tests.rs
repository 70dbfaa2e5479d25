use wasmcolonies::codec::{decode_invocation, encode_invocation};
use wasmcolonies::lattice::{invocation_hash, new_host_key, rpc_subject, Entity, Invocation};

#[test]
fn actor_address_is_scheme_and_key() {
    let e = Entity::Actor("MDVV".to_string());
    assert_eq!(e.url(), "wasmbus://MDVV");
}

#[test]
fn capability_address_is_normalized() {
    let e = Entity::Capability {
        id: "VKEY".to_string(),
        contract_id: "Wasm:Cloud KV".to_string(),
        link_name: "My Link".to_string(),
    };
    assert_eq!(e.url(), "wasmbus://wasm/cloud_kv/my_link/VKEY");
}

#[test]
fn address_is_deterministic() {
    let e = Entity::Capability {
        id: "VKEY".to_string(),
        contract_id: "wasm:keyvalue".to_string(),
        link_name: "default".to_string(),
    };
    assert_eq!(e.url(), e.url());
    let e2 = e.clone();
    assert_eq!(e.url(), e2.url());
}

#[test]
fn digest_is_deterministic() {
    let a = invocation_hash("wasmbus://T/Op", "wasmbus://O", &[1, 2, 3]);
    let b = invocation_hash("wasmbus://T/Op", "wasmbus://O", &[1, 2, 3]);
    assert_eq!(a, b);
    let c = invocation_hash("wasmbus://T/Op", "wasmbus://O", &[1, 2, 4]);
    assert_ne!(a, c);
}

#[test]
fn digest_of_empty_inputs_is_the_empty_sha256() {
    // SHA-256 of the empty byte sequence, in upper-case hex.
    assert_eq!(
        invocation_hash("", "", &[]),
        "E3B0C44298FC1C149AFBF4C8996FB92427AE41E4649B934CA495991B7852B855"
    );
}

#[test]
fn digest_is_64_hex_digits() {
    let h = invocation_hash("t", "o", &[0xde, 0xad]);
    assert_eq!(h.len(), 64);
    assert!(h.chars().all(|c| c.is_ascii_digit() || ('A'..='F').contains(&c)));
}

#[test]
fn rpc_subject_uses_default_prefix() {
    assert_eq!(rpc_subject(None, "MDVV"), "wasmbus.rpc.default.MDVV");
    assert_eq!(rpc_subject(Some("lat1".to_string()), "MDVV"), "wasmbus.rpc.lat1.MDVV");
}

#[test]
fn invocation_new_populates_envelope() {
    let hk = new_host_key();
    let inv = Invocation::new(
        &hk,
        Entity::Actor("system".to_string()),
        Entity::Actor("MDVV".to_string()),
        "PlayerTick",
        vec![1, 2, 3],
    )
    .expect("signing succeeds");
    assert_eq!(inv.origin, Entity::Actor("system".to_string()));
    assert_eq!(inv.target, Entity::Actor("MDVV".to_string()));
    assert_eq!(inv.operation, "PlayerTick");
    assert_eq!(inv.msg, vec![1, 2, 3]);
    assert_eq!(inv.id.len(), 36);
    assert!(!inv.encoded_claims.is_empty());
    assert!(!inv.host_id.is_empty());
}

#[test]
fn invocation_ids_are_unique_per_call() {
    let hk = new_host_key();
    let mk = || {
        Invocation::new(
            &hk,
            Entity::Actor("system".to_string()),
            Entity::Actor("MDVV".to_string()),
            "PlayerTick",
            vec![],
        )
        .expect("signing succeeds")
    };
    assert_ne!(mk().id, mk().id);
}

#[test]
fn signed_envelope_survives_the_wire() {
    let hk = new_host_key();
    let inv = Invocation::new(
        &hk,
        Entity::Actor("system".to_string()),
        Entity::Actor("MDVV".to_string()),
        "PlayerTick",
        vec![4, 5, 6],
    )
    .expect("signing succeeds");
    let bytes = encode_invocation(&inv).expect("encodes");
    let back = decode_invocation(bytes.as_slice()).expect("decodes");
    assert_eq!(back, inv);
}
