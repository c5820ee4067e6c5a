//! What each player may see of the game, as mathematics.
use vstd::prelude::*;

use crate::model::{Item, Player, PlayerView};
use crate::protocol::{
    AttackView, PAttackView, PTriggerView, PTurnView, PerspectivePlayer, TriggerView, TurnView,
};
use crate::roster::{items_of, seat_of, state_of, Table};
use crate::rules::{loser_player, winner_player, StateView};

verus! {

/// What everybody sees of a seat: the player, their job once revealed, and how many items they hold.
pub open spec fn public_player(e: (Player, PlayerView)) -> PerspectivePlayer {
    PerspectivePlayer {
        player: e.0,
        job: if e.1.job_is_visible {
            Some(e.1.job)
        } else {
            None
        },
        item_count: e.1.items.len() as usize,
    }
}

pub open spec fn public_players(t: Table) -> Seq<PerspectivePlayer> {
    t.map_values(|e: (Player, PlayerView)| public_player(e))
}

/// The sextant's selections with every seat but `seat` hidden.
pub open spec fn own_selection(sel: Seq<Option<Item>>, seat: int) -> Seq<Option<Item>> {
    Seq::new(
        sel.len(),
        |i: int|
            if i == seat {
                sel[i]
            } else {
                None
            },
    )
}

/// The player entitled to look at a pending trigger, and the player looked at.
pub open spec fn trigger_parties(offerer: Player, target: Player, next_item: Option<Item>) -> (
    Player,
    Player,
) {
    if next_item is Some {
        (offerer, target)
    } else {
        (target, offerer)
    }
}

pub open spec fn perspective_trigger(
    s: StateView,
    trigger: TriggerView,
    relevant: Player,
    other: Player,
    viewer: Player,
) -> PTriggerView {
    let t = s.game.players;
    match trigger {
        TriggerView::Priviledge => PTriggerView::Priviledge {
            items: if relevant == viewer {
                Some(items_of(t, other))
            } else {
                None
            },
        },
        TriggerView::Monocle => PTriggerView::Monocle {
            faction: if relevant == viewer {
                Some(state_of(t, other).faction)
            } else {
                None
            },
        },
        TriggerView::Coat => PTriggerView::Coat {
            available_jobs: if relevant == viewer {
                Some(s.game.job_stack)
            } else {
                None
            },
        },
        TriggerView::Sextant { item_selections, is_forward } => PTriggerView::Sextant {
            item_selections: own_selection(item_selections, seat_of(t, viewer)),
            is_forward,
        },
    }
}

/// The turn as `viewer` may see it.
pub open spec fn perspective_turn(s: StateView, viewer: Player) -> PTurnView {
    let t = s.game.players;
    match s.turn {
        TurnView::WaitingForQuickblink(p) => PTurnView::TurnStart { player: p },
        TurnView::GameOver { winner } => PTurnView::GameOver { winner },
        TurnView::TradePending { offerer, target, item } => PTurnView::TradePending {
            offerer,
            target,
            item: if target == viewer {
                Some(item)
            } else {
                None
            },
        },
        TurnView::ResolvingTradeTrigger { offerer, target, next_item, trigger } => {
            let (relevant, other) = trigger_parties(offerer, target, next_item);
            PTurnView::ResolvingTradeTrigger {
                offerer,
                target,
                is_first_item: next_item is Some,
                trigger: perspective_trigger(s, trigger, relevant, other, viewer),
            }
        },
        TurnView::Attacking { attacker, defender, state } => PTurnView::Attacking {
            attacker,
            defender,
            state: match state {
                AttackView::FinishResolving { winner, steal_items } => {
                    if viewer == winner_player(attacker, defender, winner) {
                        let victim = state_of(t, loser_player(attacker, defender, winner));
                        if steal_items {
                            PAttackView::FinishResolvingItems { target_items: victim.items }
                        } else {
                            PAttackView::FinishResolvingCredentials {
                                target_faction: victim.faction,
                                target_job: victim.job,
                            }
                        }
                    } else {
                        PAttackView::Normal(state)
                    }
                },
                _ => PAttackView::Normal(state),
            },
        },
        TurnView::DonatingItem { donor, .. } => PTurnView::DonatingItem { donor },
    }
}

} // verus!
