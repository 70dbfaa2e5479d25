//! Protocol data types exchanged between the shard orchestrator and the
//! player decision units: the per-tick request and response, the commands a
//! colony may propose, and the roster entry that names a player's decision
//! unit on the bus.

use vstd::prelude::*;
use vstd::utf8::encode_utf8;

verus! {

/// Operation name used for the per-tick invocation of a player decision unit.
pub const OP_PLAYER_TICK: &'static str = "PlayerTick";

/// Ore that a mine can extract.
#[derive(Debug, Clone, Copy, PartialEq, Eq, Structural)]
pub enum OreType {
    Wasmium,
}

/// Kind of unit a colony can ask to construct. `Unknown` is the neutral
/// value; on the wire it is written under the name `None`.
#[derive(Debug, Clone, Copy, PartialEq, Eq, Structural)]
pub enum UnitType {
    Unknown,
    Mine(OreType),
}

impl Default for UnitType {
    fn default() -> (r: UnitType)
        ensures
            r == UnitType::Unknown,
    {
        UnitType::Unknown
    }
}

/// A command proposed by a player decision unit for a given tick.
#[derive(Debug, Clone, Copy, PartialEq, Eq, Structural)]
pub enum ColonyCommand {
    Pass(u64),
    ConstructUnit(u64, UnitType),
}

/// The slice of game state a colony is shown each tick. It is populated by
/// the orchestrator, never by the decision unit.
#[derive(Debug, Clone, Copy, PartialEq, Eq, Structural)]
pub struct GameStateColonyView {
    pub placeholder: u64,
}

impl Default for GameStateColonyView {
    fn default() -> (r: GameStateColonyView)
        ensures
            r == (GameStateColonyView { placeholder: 0u64 }),
    {
        GameStateColonyView { placeholder: 0 }
    }
}

/// The request sent to a player decision unit once per tick.
#[derive(Debug, Clone, PartialEq)]
pub struct PlayerTick {
    pub tick: u64,
    pub player_id: String,
    pub game_state: Option<GameStateColonyView>,
}

/// The decision unit's answer: the ordered commands it proposes.
#[derive(Debug, Clone, PartialEq)]
pub struct PlayerTickResponse {
    pub commands: Vec<ColonyCommand>,
}

/// Roster entry: which decision unit answers for a player.
#[derive(Debug, Clone, PartialEq)]
pub struct PlayerTarget {
    pub player_id: String,
    pub actor_key: String,
}

/// Mathematical model of a [`PlayerTick`]: strings are modelled by their
/// UTF-8 byte sequences, which is how they travel on the wire.
pub struct PlayerTickModel {
    pub tick: u64,
    pub player_id: Seq<u8>,
    pub game_state: Option<GameStateColonyView>,
}

impl View for PlayerTick {
    type V = PlayerTickModel;

    open spec fn view(&self) -> PlayerTickModel {
        PlayerTickModel {
            tick: self.tick,
            player_id: encode_utf8(self.player_id@),
            game_state: self.game_state,
        }
    }
}

impl View for PlayerTickResponse {
    type V = Seq<ColonyCommand>;

    open spec fn view(&self) -> Seq<ColonyCommand> {
        self.commands@
    }
}

/// Equal tick-request models name equal requests: the model loses nothing,
/// so the codec round-trip law pins the decoded request itself.
pub proof fn lemma_player_tick_view_injective(a: PlayerTick, b: PlayerTick)
    requires
        a@ == b@,
    ensures
        a.tick == b.tick,
        a.player_id@ == b.player_id@,
        a.game_state == b.game_state,
{
    crate::lattice::lemma_encode_utf8_injective(a.player_id@, b.player_id@);
}

} // verus!
