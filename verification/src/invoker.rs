//! The pure half of the RPC client. Building the outbound envelope and
//! interpreting what came back over the bus are verified here; the bus call
//! itself (publish and bounded wait) is I/O and lives outside the library.
//! Every failure is mapped into a single outcome type, and the fallback
//! policy turns any failure into a lone `Pass` for that player's tick.

use vstd::prelude::*;
use vstd::utf8::encode_utf8;
use crate::codec::{decode_inv_response, decode_pt_response, enc_invocation, enc_player_tick,
    encode_invocation, encode_player_tick, parse_inv_response, parse_pt_response};
use crate::lattice::{rpc_subject, rpc_subject_chars, Entity, EntityModel, Invocation};
use crate::protocol::{ColonyCommand, GameStateColonyView, PlayerTick, PlayerTickModel,
    OP_PLAYER_TICK};

verus! {

/// How long the invoker waits for a reply, in milliseconds.
pub const RPC_TIMEOUT_MILLIS: u64 = 1_000;

/// Why a player's commands could not be fetched this tick.
#[derive(Debug, Clone, PartialEq)]
pub enum InvokeError {
    /// The bus was unreachable, or no reply arrived within the timeout.
    Unreachable,
    /// The decision unit replied with an explicit error message.
    Remote(String),
    /// A reply arrived but could not be decoded at some stage.
    Protocol(String),
}

/// Build everything the bus needs for one player-tick call: the subject to
/// publish on, the signed envelope, and its wire bytes. The envelope is
/// addressed from the fixed system origin to the player's decision unit,
/// with the operation name `PlayerTick`, and carries the encoded tick
/// request as its payload. Fails only if a string is too long for the wire
/// or the outside signer refuses; the error is a message.
pub fn prepare_player_tick(
    hostkey: &wascap::prelude::KeyPair,
    player_id: &str,
    actor_key: &str,
    tick: u64,
    gs: Option<GameStateColonyView>,
) -> (r: Result<(String, Invocation, Vec<u8>), String>)
    ensures
        match r {
            Ok((subject, inv, bytes)) => subject@ == rpc_subject_chars(None, actor_key@)
                && inv@.origin == EntityModel::Actor(encode_utf8("system"@)) && inv@.target
                == EntityModel::Actor(encode_utf8(actor_key@)) && inv@.operation == encode_utf8(
                "PlayerTick"@,
            ) && inv@.msg == enc_player_tick(
                PlayerTickModel { tick, player_id: encode_utf8(player_id@), game_state: gs },
            ) && inv.id@.len() == 36 && bytes@ == enc_invocation(inv@),
            Err(_) => true,
        },
{
    let pt = PlayerTick {
        tick,
        player_id: String::from_str(player_id),
        game_state: gs,
    };
    let msg: Vec<u8> = match encode_player_tick(&pt) {
        Ok(b) => b,
        Err(_) => {
            return Err(String::from_str("tick request is not representable on the wire"));
        },
    };
    let origin = Entity::Actor(String::from_str("system"));
    let target = Entity::Actor(String::from_str(actor_key));
    let inv: Invocation = match Invocation::new(hostkey, origin, target, OP_PLAYER_TICK, msg) {
        Ok(inv) => inv,
        Err(e) => {
            return Err(e);
        },
    };
    let bytes: Vec<u8> = match encode_invocation(&inv) {
        Ok(b) => b,
        Err(_) => {
            return Err(String::from_str("envelope is not representable on the wire"));
        },
    };
    let subject: String = rpc_subject(None, actor_key);
    Ok((subject, inv, bytes))
}

/// Interpret what the bus returned for one invocation. No reply within the
/// timeout is `Unreachable`; a reply that does not decode as an
/// `InvocationResponse` is `Protocol`; a response carrying an error string
/// is `Remote` with that string; otherwise the response payload must decode
/// as a `PlayerTickResponse`, whose commands are the result.
pub fn interpret_reply(reply: Option<Vec<u8>>) -> (r: Result<Vec<ColonyCommand>, InvokeError>)
    ensures
        match reply {
            None => r == Err::<Vec<ColonyCommand>, InvokeError>(InvokeError::Unreachable),
            Some(ref bytes) => match parse_inv_response(bytes@, 0) {
                None => r matches Err(InvokeError::Protocol(_)),
                Some((irm, _)) => match irm.error {
                    Some(e) => r matches Err(InvokeError::Remote(msg)) && encode_utf8(msg@) == e,
                    None => match parse_pt_response(irm.msg, 0) {
                        None => r matches Err(InvokeError::Protocol(_)),
                        Some((cs, _)) => r matches Ok(c) && c@ == cs,
                    },
                },
            },
        },
{
    let bytes: Vec<u8> = match reply {
        Some(b) => b,
        None => {
            return Err(InvokeError::Unreachable);
        },
    };
    let ir = match decode_inv_response(bytes.as_slice()) {
        Ok(ir) => ir,
        Err(e) => {
            return Err(InvokeError::Protocol(e.reason));
        },
    };
    match ir.error {
        Some(e) => Err(InvokeError::Remote(e)),
        None => {
            match decode_pt_response(ir.msg.as_slice()) {
                Ok(resp) => Ok(resp.commands),
                Err(e) => Err(InvokeError::Protocol(e.reason)),
            }
        },
    }
}

/// The fallback policy at the call site: a fetched command list is used as
/// is, and any failure degrades to exactly one `Pass` for that tick, so a
/// misbehaving or unreachable decision unit never stalls the tick.
pub fn commands_or_fallback(fetched: Result<Vec<ColonyCommand>, InvokeError>, tick: u64) -> (r:
    Vec<ColonyCommand>)
    ensures
        match fetched {
            Ok(ref c) => r@ == c@,
            Err(_) => r@ =~= seq![ColonyCommand::Pass(tick)],
        },
{
    match fetched {
        Ok(c) => c,
        Err(_) => {
            vec![ColonyCommand::Pass(tick)]
        },
    }
}

} // verus!
