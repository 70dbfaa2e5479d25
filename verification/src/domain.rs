//! The command/event aggregate engine. Commands are turned into events by a
//! deterministic handler, and events are folded into versioned aggregate
//! state; replaying the event history from the initial state reproduces the
//! current state exactly.

use vstd::prelude::*;
use crate::protocol::{ColonyCommand, UnitType};
use crate::rules::{spec_configured_duration, GameParameters};

verus! {

/// An event recorded against a construction-site aggregate. `Noop` is the
/// defined default event: it advances the aggregate's generation and changes
/// nothing else.
#[derive(Debug, Clone, Copy, PartialEq, Eq, Structural)]
pub enum ColonyEvent {
    Noop,
    TickFinished(u64),
    UnitConstructionBegan { tick: u64, utype: UnitType, yield_in: u64 },
}

/// Versioned state of one construction-site aggregate. `generation` is the
/// optimistic-concurrency version counter: it increases by one on every
/// applied event and never otherwise.
#[derive(Debug, Clone, Copy, PartialEq, Eq, Structural)]
pub struct ConstructionSiteData {
    pub id: u64,
    pub began: u64,
    pub generation: u64,
    pub remaining: u64,
    pub yields: UnitType,
}

impl Default for ConstructionSiteData {
    fn default() -> (r: ConstructionSiteData)
        ensures
            r == initial_site_state(),
    {
        ConstructionSiteData {
            id: 0,
            began: 0,
            generation: 0,
            remaining: 0,
            yields: UnitType::Unknown,
        }
    }
}

/// The state a construction-site aggregate is created with.
pub open spec fn initial_site_state() -> ConstructionSiteData {
    ConstructionSiteData { id: 0, began: 0, generation: 0, remaining: 0, yields: UnitType::Unknown }
}

/// Deterministic event fold. `TickFinished` decrements `remaining`, floored
/// at zero; `UnitConstructionBegan` resets `began`, `yields` and `remaining`
/// to the event's values; `Noop` changes nothing; every applied event
/// advances `generation` by one.
pub open spec fn spec_apply_event(s: ConstructionSiteData, e: ColonyEvent) -> ConstructionSiteData
    recommends
        s.generation < u64::MAX,
{
    match e {
        ColonyEvent::Noop => ConstructionSiteData { generation: (s.generation + 1) as u64, ..s },
        ColonyEvent::TickFinished(_t) => ConstructionSiteData {
            generation: (s.generation + 1) as u64,
            remaining: if s.remaining > 0 { (s.remaining - 1) as u64 } else { 0u64 },
            ..s
        },
        ColonyEvent::UnitConstructionBegan { tick, utype, yield_in } => ConstructionSiteData {
            generation: (s.generation + 1) as u64,
            began: tick,
            yields: utype,
            remaining: yield_in,
            ..s
        },
    }
}

/// Deterministic command handler. It consults only the parameter table and
/// the command, never the current state: `ConstructUnit` always yields
/// exactly one `UnitConstructionBegan` with the configured duration, and
/// `Pass` yields exactly one `Noop`.
pub open spec fn spec_handle_command(p: GameParameters, cmd: ColonyCommand) -> Seq<ColonyEvent> {
    match cmd {
        ColonyCommand::Pass(_t) => seq![ColonyEvent::Noop],
        ColonyCommand::ConstructUnit(tick, ut) => seq![
            ColonyEvent::UnitConstructionBegan {
                tick: tick,
                utype: ut,
                yield_in: spec_configured_duration(p, ut),
            },
        ],
    }
}

/// Folding a sequence of events into aggregate state, in order.
pub open spec fn spec_replay(s: ConstructionSiteData, evs: Seq<ColonyEvent>) -> ConstructionSiteData
    decreases evs.len(),
{
    if evs.len() == 0 {
        s
    } else {
        spec_replay(spec_apply_event(s, evs[0]), evs.drop_first())
    }
}

/// Raised when an event is applied against a stale generation.
#[derive(Debug, Clone, Copy, PartialEq, Eq, Structural)]
pub struct GenerationConflict {
    pub expected: u64,
    pub actual: u64,
}

/// The construction-site aggregate: its command handler and event fold.
pub struct ConstructionSite;

impl ConstructionSite {
    /// Fold one event into the state.
    pub fn apply_event(state: &ConstructionSiteData, evt: &ColonyEvent) -> (r: ConstructionSiteData)
        requires
            state.generation < u64::MAX,
        ensures
            r == spec_apply_event(*state, *evt),
    {
        match evt {
            ColonyEvent::Noop => ConstructionSiteData { generation: state.generation + 1, ..*state },
            ColonyEvent::TickFinished(_t) => ConstructionSiteData {
                generation: state.generation + 1,
                remaining: if state.remaining > 0 { state.remaining - 1 } else { 0 },
                ..*state
            },
            ColonyEvent::UnitConstructionBegan { tick, utype, yield_in } => ConstructionSiteData {
                generation: state.generation + 1,
                began: *tick,
                yields: *utype,
                remaining: *yield_in,
                ..*state
            },
        }
    }

    /// Fold one event into the state, but only if the caller read the
    /// current generation; a stale read is rejected as a conflict.
    pub fn apply_event_checked(
        state: &ConstructionSiteData,
        read_generation: u64,
        evt: &ColonyEvent,
    ) -> (r: Result<ConstructionSiteData, GenerationConflict>)
        requires
            state.generation < u64::MAX,
        ensures
            match r {
                Ok(ns) => read_generation == state.generation && ns == spec_apply_event(
                    *state,
                    *evt,
                ),
                Err(c) => read_generation != state.generation && c == (GenerationConflict {
                    expected: read_generation,
                    actual: state.generation,
                }),
            },
    {
        if read_generation == state.generation {
            Ok(Self::apply_event(state, evt))
        } else {
            Err(GenerationConflict { expected: read_generation, actual: state.generation })
        }
    }

    /// Turn one command into the events it gives rise to. The result depends
    /// only on the parameter table and the command, never on `state`.
    pub fn handle_command(
        params: &GameParameters,
        _state: &ConstructionSiteData,
        cmd: &ColonyCommand,
    ) -> (r: Vec<ColonyEvent>)
        ensures
            r@ == spec_handle_command(*params, *cmd),
    {
        match cmd {
            ColonyCommand::Pass(_t) => {
                let evs: Vec<ColonyEvent> = vec![ColonyEvent::Noop];
                proof {
                    assert(evs@ =~= spec_handle_command(*params, *cmd));
                }
                evs
            },
            ColonyCommand::ConstructUnit(tick, ut) => {
                let evs: Vec<ColonyEvent> = vec![
                    ColonyEvent::UnitConstructionBegan {
                        tick: *tick,
                        utype: *ut,
                        yield_in: params.configured_duration(*ut),
                    },
                ];
                proof {
                    assert(evs@ =~= spec_handle_command(*params, *cmd));
                }
                evs
            },
        }
    }

    /// Replay an event history against a starting state, in order.
    pub fn replay(initial: &ConstructionSiteData, events: &Vec<ColonyEvent>) -> (r:
        ConstructionSiteData)
        requires
            initial.generation + events@.len() <= u64::MAX,
        ensures
            r == spec_replay(*initial, events@),
    {
        let n: usize = events.len();
        let mut state: ConstructionSiteData = *initial;
        let mut i: usize = 0;
        proof {
            assert(events@.skip(0) =~= events@);
        }
        while i < n
            invariant
                i <= n,
                n == events@.len(),
                initial.generation + n <= u64::MAX,
                state.generation == initial.generation + i,
                spec_replay(*initial, events@) == spec_replay(state, events@.skip(i as int)),
            decreases n - i,
        {
            proof {
                assert(events@.skip(i as int)[0] == events@[i as int]);
                assert(events@.skip(i as int).drop_first() =~= events@.skip(i as int + 1));
            }
            state = Self::apply_event(&state, &events[i]);
            i = i + 1;
        }
        proof {
            assert(events@.skip(n as int) =~= Seq::<ColonyEvent>::empty());
        }
        state
    }
}

impl ConstructionSiteData {
    /// The aggregate's current optimistic-concurrency version.
    pub fn generation(&self) -> (r: u64)
        ensures
            r == self.generation,
    {
        self.generation
    }
}

/// Applying any event advances the generation by exactly one; applying a
/// history advances it by the history's length. With the conflict check of
/// [`ConstructionSite::apply_event_checked`], this is what makes a stale
/// write detectable.
pub proof fn lemma_replay_generation(s: ConstructionSiteData, evs: Seq<ColonyEvent>)
    requires
        s.generation + evs.len() <= u64::MAX,
    ensures
        spec_replay(s, evs).generation == s.generation + evs.len(),
    decreases evs.len(),
{
    if evs.len() > 0 {
        lemma_replay_generation(spec_apply_event(s, evs[0]), evs.drop_first());
    }
}

/// Replay composes: folding a history and then further events is the same
/// as replaying the concatenated history. Together with the exact contract
/// of [`ConstructionSite::apply_event`], this is why replaying the full
/// event history from the initial state reproduces the current state
/// exactly, however the events were applied along the way.
pub proof fn lemma_replay_append(s: ConstructionSiteData, e1: Seq<ColonyEvent>, e2: Seq<
    ColonyEvent,
>)
    ensures
        spec_replay(s, e1 + e2) == spec_replay(spec_replay(s, e1), e2),
    decreases e1.len(),
{
    if e1.len() == 0 {
        assert(e1 + e2 =~= e2);
    } else {
        lemma_replay_append(spec_apply_event(s, e1[0]), e1.drop_first(), e2);
        assert((e1 + e2).drop_first() =~= e1.drop_first() + e2);
        assert((e1 + e2)[0] == e1[0]);
    }
}

/// Saturating floor of the tick countdown: a finished countdown stays at
/// zero when further ticks are applied; it never underflows.
pub proof fn lemma_tick_finished_floor(s: ConstructionSiteData, t: u64)
    requires
        s.generation < u64::MAX,
        s.remaining == 0,
    ensures
        spec_apply_event(s, ColonyEvent::TickFinished(t)).remaining == 0,
{
}

/// The command handler is a function of the parameter table and the command
/// alone: `ConstructUnit(t, ut)` yields exactly one `UnitConstructionBegan`
/// carrying the configured duration, whatever the aggregate state was.
pub proof fn lemma_construct_unit_events(p: GameParameters, t: u64, ut: UnitType)
    ensures
        spec_handle_command(p, ColonyCommand::ConstructUnit(t, ut)) =~= seq![
            ColonyEvent::UnitConstructionBegan {
                tick: t,
                utype: ut,
                yield_in: spec_configured_duration(p, ut),
            },
        ],
{
}


} // verus!
