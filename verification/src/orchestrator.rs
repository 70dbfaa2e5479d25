//! The per-tick aggregation step of the orchestrator. Dispatching the
//! concurrent invocations is scheduling and I/O and lives outside the
//! library; what is verified here is how the per-player outcomes of one tick
//! are folded into the single command list handed to the aggregate engine:
//! in roster order, one block per player, with a lone `Pass` fallback for
//! every player whose call failed.

use vstd::prelude::*;
use crate::invoker::InvokeError;
use crate::protocol::{ColonyCommand, PlayerTarget};

verus! {

/// The commands one player contributes to the tick: its fetched list, or
/// exactly one `Pass` when its call failed.
pub open spec fn spec_player_commands(outcome: Option<Seq<ColonyCommand>>, tick: u64) -> Seq<
    ColonyCommand,
> {
    match outcome {
        Some(cs) => cs,
        None => seq![ColonyCommand::Pass(tick)],
    }
}

/// The tick's aggregate command list: each player's contribution in roster
/// order, with no cross-player reordering.
pub open spec fn spec_aggregate(outcomes: Seq<Option<Seq<ColonyCommand>>>, tick: u64) -> Seq<
    ColonyCommand,
>
    decreases outcomes.len(),
{
    if outcomes.len() == 0 {
        Seq::empty()
    } else {
        spec_player_commands(outcomes[0], tick) + spec_aggregate(outcomes.drop_first(), tick)
    }
}

/// The view of a tick's outcomes: a failed fetch carries no commands.
pub open spec fn outcome_views(
    outcomes: Seq<Result<Vec<ColonyCommand>, InvokeError>>,
) -> Seq<Option<Seq<ColonyCommand>>> {
    outcomes.map_values(
        |o: Result<Vec<ColonyCommand>, InvokeError>|
            match o {
                Ok(c) => Some(c@),
                Err(_) => None,
            },
    )
}

/// A player that got no reply contributes exactly one `Pass` carrying the
/// tick, never nothing and never more.
pub proof fn lemma_no_reply_contributes_single_pass(tick: u64)
    ensures
        spec_player_commands(None, tick) =~= seq![ColonyCommand::Pass(tick)],
{
}

/// Appending one more outcome extends the aggregate at the end.
proof fn lemma_spec_aggregate_snoc(
    outcomes: Seq<Option<Seq<ColonyCommand>>>,
    o: Option<Seq<ColonyCommand>>,
    tick: u64,
)
    ensures
        spec_aggregate(outcomes.push(o), tick) == spec_aggregate(outcomes, tick)
            + spec_player_commands(o, tick),
    decreases outcomes.len(),
{
    if outcomes.len() == 0 {
        assert(outcomes.push(o).drop_first() =~= Seq::<Option<Seq<ColonyCommand>>>::empty());
        assert(outcomes.push(o)[0] == o);
        assert(spec_aggregate(outcomes.push(o).drop_first(), tick) =~= Seq::<ColonyCommand>::empty());
        assert(spec_aggregate(outcomes.push(o), tick) =~= spec_player_commands(o, tick));
        assert(spec_aggregate(outcomes, tick) =~= Seq::<ColonyCommand>::empty());
        assert(spec_aggregate(outcomes.push(o), tick) =~= spec_aggregate(outcomes, tick)
            + spec_player_commands(o, tick));
    } else {
        lemma_spec_aggregate_snoc(outcomes.drop_first(), o, tick);
        assert(outcomes.push(o).drop_first() =~= outcomes.drop_first().push(o));
        assert(outcomes.push(o)[0] == outcomes[0]);
        assert(spec_aggregate(outcomes.push(o), tick) =~= spec_player_commands(outcomes[0], tick)
            + (spec_aggregate(outcomes.drop_first(), tick) + spec_player_commands(o, tick)));
        assert(spec_aggregate(outcomes.push(o), tick) =~= spec_aggregate(outcomes, tick)
            + spec_player_commands(o, tick));
    }
}

/// Fold the per-player outcomes of one tick into the aggregate command
/// list, in roster order, applying the `Pass` fallback per failed player.
pub fn collect_tick_commands(
    outcomes: Vec<Result<Vec<ColonyCommand>, InvokeError>>,
    tick: u64,
) -> (r: Vec<ColonyCommand>)
    ensures
        r@ == spec_aggregate(outcome_views(outcomes@), tick),
{
    let ghost all = outcome_views(outcomes@);
    let n: usize = outcomes.len();
    let mut acc: Vec<ColonyCommand> = Vec::new();
    let mut i: usize = 0;
    proof {
        assert(all.take(0) =~= Seq::<Option<Seq<ColonyCommand>>>::empty());
        assert(acc@ =~= spec_aggregate(all.take(0), tick));
    }
    let mut rest = outcomes;
    // consume from the front, keeping roster order
    let mut k: usize = 0;
    while k < n
        invariant
            k <= n,
            n == rest@.len(),
            all == outcome_views(rest@),
            all.len() == n,
            acc@ == spec_aggregate(all.take(k as int), tick),
        decreases n - k,
    {
        proof {
            assert(all[k as int] == (match rest@[k as int] {
                Ok(c) => Some(c@),
                Err(_) => None::<Seq<ColonyCommand>>,
            }));
            lemma_spec_aggregate_snoc(all.take(k as int), all[k as int], tick);
            assert(all.take(k as int).push(all[k as int]) =~= all.take(k as int + 1));
        }
        match &rest[k] {
            Ok(cs) => {
                let m: usize = cs.len();
                let mut t: usize = 0;
                while t < m
                    invariant
                        t <= m,
                        k < n,
                        n == rest@.len(),
                        m == cs@.len(),
                        rest@[k as int] matches Ok(c) && c@ == cs@,
                        all == outcome_views(rest@),
                        all.len() == n,
                        acc@ == spec_aggregate(all.take(k as int), tick) + cs@.take(t as int),
                    decreases m - t,
                {
                    acc.push(cs[t]);
                    proof {
                        assert(cs@.take(t as int).push(cs@[t as int]) =~= cs@.take(t as int + 1));
                        assert(acc@ =~= spec_aggregate(all.take(k as int), tick) + cs@.take(
                            t as int + 1,
                        ));
                    }
                    t = t + 1;
                }
                proof {
                    assert(cs@.take(m as int) =~= cs@);
                    assert(spec_player_commands(all[k as int], tick) == cs@);
                    assert(acc@ =~= spec_aggregate(all.take(k as int + 1), tick));
                }
            },
            Err(_) => {
                acc.push(ColonyCommand::Pass(tick));
                proof {
                    assert(spec_player_commands(all[k as int], tick) =~= seq![
                        ColonyCommand::Pass(tick),
                    ]);
                    assert(acc@ =~= spec_aggregate(all.take(k as int + 1), tick));
                }
            },
        }
        k = k + 1;
    }
    proof {
        assert(all.take(n as int) =~= all);
    }
    acc
}

/// The current player roster, as the world bootstrap injects it.
pub fn collect_players() -> (r: Vec<PlayerTarget>)
    ensures
        r@.len() == 1,
        r@[0].player_id@ == "player1"@,
        r@[0].actor_key@ == "MDVVUGY5RK7TMJGJOOCOTFY6QA3M3W4ODENO43HWEKLO5OMTVKF5KAWJ"@,
{
    let p = PlayerTarget {
        player_id: String::from_str("player1"),
        actor_key: String::from_str("MDVVUGY5RK7TMJGJOOCOTFY6QA3M3W4ODENO43HWEKLO5OMTVKF5KAWJ"),
    };
    let mut r: Vec<PlayerTarget> = Vec::new();
    r.push(p);
    r
}

} // verus!
