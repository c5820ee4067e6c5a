//! The rules as mathematics: what every command does to the game, for every
//! state, stated over the views of the game's types.
use vstd::prelude::*;

use crate::model::{
    can_use_job, count_victory, must_accept, opponent_of, spec_inventory_limit, used_job, Faction,
    Item, Job, Player, PlayerView,
};
use crate::protocol::{
    AttackRole, AttackSupport, AttackView, AttackWinner, Buff, BuffSource, Command,
    CommandError, ItemDonationFollowup, TriggerView, TurnView,
};
use crate::roster::{
    has_player, items_of, keys_unique, next_of, seat_of, state_of, supporters, with_state, Table,
};

verus! {

/// The table, the draw pile and the pool of unused jobs.
pub ghost struct GameView {
    pub players: Table,
    pub item_stack: Seq<Item>,
    pub job_stack: Seq<Job>,
}

/// A whole game: the table and the turn.
pub ghost struct StateView {
    pub game: GameView,
    pub turn: TurnView,
}

/// Marks a trigger that left its player over the inventory limit.
#[derive(Clone, Copy, PartialEq, Eq, Structural, Debug)]
pub struct NeedDonation;

pub open spec fn limit_of(g: GameView) -> nat {
    spec_inventory_limit(g.players.len())
}

pub open spec fn with_items(v: PlayerView, items: Seq<Item>) -> PlayerView {
    PlayerView { items, ..v }
}

/// `p` hands `item` to `q`: it leaves `p`'s inventory at its first place and
/// is appended to `q`'s.
pub open spec fn move_item(t: Table, p: Player, q: Player, item: Item) -> Table {
    let t1 = with_state(t, p, with_items(state_of(t, p), items_of(t, p).remove_value(item)));
    with_state(t1, q, with_items(state_of(t1, q), items_of(t1, q).push(item)))
}

pub open spec fn at(g: GameView, turn: TurnView) -> StateView {
    StateView { game: g, turn }
}

pub open spec fn turn_start_after(g: GameView, p: Player) -> StateView {
    at(g, TurnView::WaitingForQuickblink(next_of(g.players, p)))
}

/// `p` draws the top of the draw pile, if any.
pub open spec fn draw(g: GameView, p: Player) -> GameView {
    if g.item_stack.len() > 0 {
        GameView {
            players: with_state(
                g.players,
                p,
                with_items(state_of(g.players, p), items_of(g.players, p).push(g.item_stack.last())),
            ),
            item_stack: g.item_stack.drop_last(),
            ..g
        }
    } else {
        g
    }
}

/// The sextant's selections before anybody chose.
pub open spec fn no_selections(n: nat) -> Seq<Option<Item>> {
    Seq::new(n, |i: int| None)
}

/// What happens when `item` passes from `giver` to `receiver` in a trade.
pub open spec fn trade_trigger(item: Item, g: GameView, giver: Player, receiver: Player) -> (
    GameView,
    Option<Result<TriggerView, NeedDonation>>,
) {
    match item {
        Item::BagKey | Item::BagGoblet => {
            if g.item_stack.len() > 0 {
                let g1 = draw(g, receiver);
                if items_of(g1.players, receiver).len() > limit_of(g) {
                    (g1, Some(Err(NeedDonation)))
                } else {
                    (g1, None)
                }
            } else {
                (g, None)
            }
        },
        Item::Priviledge => (g, Some(Ok(TriggerView::Priviledge))),
        Item::Monocle => (g, Some(Ok(TriggerView::Monocle))),
        Item::Coat => (g, Some(Ok(TriggerView::Coat))),
        Item::Sextant => (
            g,
            Some(
                Ok(
                    TriggerView::Sextant {
                        item_selections: no_selections(g.players.len()),
                        is_forward: None,
                    },
                ),
            ),
        ),
        Item::Tome => {
            let gv = state_of(g.players, giver);
            let rv = state_of(g.players, receiver);
            let t1 = with_state(
                g.players,
                giver,
                PlayerView { job: rv.job, job_is_visible: false, ..gv },
            );
            let t2 = with_state(t1, receiver, PlayerView { job: gv.job, job_is_visible: false, ..rv });
            (GameView { players: t2, ..g }, None)
        },
        _ => (g, None),
    }
}

/// The trigger of the item that the offerer received, handed over by the target.
pub open spec fn second_trigger(g: GameView, offerer: Player, target: Player, item: Item) -> StateView {
    let (g1, o) = trade_trigger(item, g, target, offerer);
    match o {
        Some(Ok(t)) => at(
            g1,
            TurnView::ResolvingTradeTrigger { offerer, target, next_item: None, trigger: t },
        ),
        Some(Err(_)) => at(
            g1,
            TurnView::DonatingItem {
                donor: offerer,
                followup: ItemDonationFollowup::NextPlayer(next_of(g1.players, offerer)),
            },
        ),
        None => turn_start_after(g1, offerer),
    }
}

/// The triggers of a completed trade: first the offered item, then the returned one.
pub open spec fn trade_triggers(
    g: GameView,
    offerer: Player,
    target: Player,
    item: Item,
    item2: Item,
) -> StateView {
    let (g1, o) = trade_trigger(item, g, offerer, target);
    match o {
        Some(Ok(t)) => at(
            g1,
            TurnView::ResolvingTradeTrigger { offerer, target, next_item: Some(item2), trigger: t },
        ),
        Some(Err(_)) => at(
            g1,
            TurnView::DonatingItem {
                donor: target,
                followup: ItemDonationFollowup::TradeTriggers { offerer, target, item: item2 },
            },
        ),
        None => second_trigger(g1, offerer, target, item2),
    }
}

/// What follows a resolved trigger: the second item's trigger, if still due.
pub open spec fn continue_trade(
    g: GameView,
    offerer: Player,
    target: Player,
    next_item: Option<Item>,
) -> StateView {
    match next_item {
        Some(ni) => second_trigger(g, offerer, target, ni),
        None => turn_start_after(g, offerer),
    }
}

/// Both items change hands, each taking the other's first place.
pub open spec fn swap_items(t: Table, offerer: Player, target: Player, item: Item, item2: Item) -> Table {
    let ov = state_of(t, offerer);
    let io = ov.items.index_of_first(item).unwrap();
    let t1 = with_state(t, offerer, with_items(ov, ov.items.update(io, item2)));
    let tv = state_of(t1, target);
    let it = tv.items.index_of_first(item2).unwrap();
    with_state(t1, target, with_items(tv, tv.items.update(it, item)))
}

pub open spec fn in_team(x: Player, actor: Player, teammates: Seq<Player>) -> bool {
    x == actor || teammates.contains(x)
}

/// The victory items held by the team, each seat counted once.
pub open spec fn team_total(
    t: Table,
    actor: Player,
    teammates: Seq<Player>,
    f: Faction,
    pile_empty: bool,
) -> nat
    decreases t.len(),
{
    if t.len() == 0 {
        0
    } else {
        team_total(t.drop_last(), actor, teammates, f, pile_empty) + (if in_team(
            t.last().0,
            actor,
            teammates,
        ) {
            count_victory(t.last().1.items, f, pile_empty)
        } else {
            0
        })
    }
}

/// A victory announcement holds: every member of the team shares the actor's
/// faction, and together they hold at least three victory items.
pub open spec fn team_wins(g: GameView, actor: Player, teammates: Seq<Player>) -> bool {
    let t = g.players;
    let f = state_of(t, actor).faction;
    let e = g.item_stack.len() == 0;
    &&& forall|i: int|
        0 <= i < t.len() && in_team(t[i].0, actor, teammates) ==> t[i].1.faction == f
    &&& team_total(t, actor, teammates, f, e) >= 3
}

pub open spec fn step_turn_start(g: GameView, p: Player, actor: Player, c: Command) -> Result<
    StateView,
    CommandError,
> {
    let t = g.players;
    if actor != p {
        Err(CommandError::NotYourTurn)
    } else {
        match c {
            Command::Pass => Ok(turn_start_after(g, p)),
            Command::AnnounceVictory { teammates } => {
                if items_of(t, actor).contains(Item::BlackPearl) {
                    Err(CommandError::BlackPearl)
                } else if exists|i: int|
                    0 <= i < teammates@.len() && !has_player(t, #[trigger] teammates@[i]) {
                    Err(CommandError::InvalidTargetPlayer)
                } else {
                    let f = state_of(t, actor).faction;
                    Ok(
                        at(
                            g,
                            TurnView::GameOver {
                                winner: if team_wins(g, actor, teammates@) {
                                    f
                                } else {
                                    opponent_of(f)
                                },
                            },
                        ),
                    )
                }
            },
            Command::OfferTrade { target, item } => {
                if actor == target || !has_player(t, target) {
                    Err(CommandError::InvalidTargetPlayer)
                } else if !items_of(t, actor).contains(item) {
                    Err(CommandError::InvalidItemError(item))
                } else {
                    Ok(at(g, TurnView::TradePending { offerer: actor, target, item }))
                }
            },
            Command::InitiateAttack { player } => {
                if !has_player(t, player) || actor == player {
                    Err(CommandError::InvalidTargetPlayer)
                } else {
                    Ok(
                        at(
                            g,
                            TurnView::Attacking {
                                attacker: actor,
                                defender: player,
                                state: AttackView::WaitingForPriest { passed: Seq::empty() },
                            },
                        ),
                    )
                }
            },
            _ => Err(CommandError::InvalidCommandInThisContext),
        }
    }
}

pub open spec fn is_bag_pair(a: Item, b: Item) -> bool {
    (a == Item::BagGoblet && b == Item::BagKey) || (a == Item::BagKey && b == Item::BagGoblet)
}

pub open spec fn step_trade_pending(
    g: GameView,
    offerer: Player,
    target: Player,
    item: Item,
    actor: Player,
    c: Command,
) -> Result<StateView, CommandError> {
    let t = g.players;
    if actor != target {
        Err(CommandError::NotYourTurn)
    } else {
        match c {
            Command::AcceptTrade { item: item2 } => {
                if g.item_stack.len() > 0 && is_bag_pair(item, item2) {
                    Err(CommandError::InvalidItemError(item2))
                } else if !items_of(t, target).contains(item2) {
                    Err(CommandError::InvalidItemError(item2))
                } else {
                    let g1 = GameView { players: swap_items(t, offerer, target, item, item2), ..g };
                    if item == Item::BrokenMirror || item2 == Item::BrokenMirror {
                        Ok(turn_start_after(g1, offerer))
                    } else {
                        Ok(trade_triggers(g1, offerer, target, item, item2))
                    }
                }
            },
            Command::RejectTrade => {
                if must_accept(item) {
                    Err(CommandError::MustAccept)
                } else {
                    Ok(turn_start_after(g, offerer))
                }
            },
            _ => Err(CommandError::InvalidCommandInThisContext),
        }
    }
}

/// Every seat has chosen an item.
pub open spec fn all_selected(sel: Seq<Option<Item>>) -> bool {
    forall|i: int| 0 <= i < sel.len() ==> (#[trigger] sel[i]) is Some
}

/// The seat that hands its selection to seat `i`.
pub open spec fn ring_source(n: int, i: int, forward: bool) -> int {
    if forward {
        (i + n - 1) % n
    } else {
        (i + 1) % n
    }
}

/// Every seat gives its selected item to its neighbour in the chosen direction, all at once.
pub open spec fn ring_pass(t: Table, sel: Seq<Option<Item>>, forward: bool) -> Table {
    Seq::new(
        t.len(),
        |i: int|
            (
                t[i].0,
                with_items(
                    t[i].1,
                    t[i].1.items.remove_value(sel[i].unwrap()).push(
                        sel[ring_source(t.len() as int, i, forward)].unwrap(),
                    ),
                ),
            ),
    )
}

pub open spec fn step_trigger(
    g: GameView,
    offerer: Player,
    target: Player,
    next_item: Option<Item>,
    trigger: TriggerView,
    actor: Player,
    c: Command,
) -> Result<StateView, CommandError> {
    let t = g.players;
    let responsible = if next_item is Some {
        offerer
    } else {
        target
    };
    match trigger {
        TriggerView::Priviledge | TriggerView::Monocle => {
            if actor != responsible {
                Err(CommandError::NotYourTurn)
            } else {
                match c {
                    Command::DoneLookingAtThings => Ok(continue_trade(g, offerer, target, next_item)),
                    _ => Err(CommandError::InvalidCommandInThisContext),
                }
            }
        },
        TriggerView::Coat => {
            if actor != responsible {
                Err(CommandError::NotYourTurn)
            } else {
                match c {
                    Command::PickNewJob { job } => match g.job_stack.index_of_first(job) {
                        Some(i) => {
                            let av = state_of(t, actor);
                            let g1 = GameView {
                                players: with_state(t, actor, PlayerView { job, ..av }),
                                job_stack: g.job_stack.update(i, av.job),
                                ..g
                            };
                            Ok(continue_trade(g1, offerer, target, next_item))
                        },
                        None => Err(CommandError::InvalidJobError(job)),
                    },
                    _ => Err(CommandError::InvalidCommandInThisContext),
                }
            }
        },
        TriggerView::Sextant { item_selections, is_forward: None } => {
            if actor != responsible {
                Err(CommandError::NotYourTurn)
            } else {
                match c {
                    Command::SetSextantDirection { forward } => Ok(
                        at(
                            g,
                            TurnView::ResolvingTradeTrigger {
                                offerer,
                                target,
                                next_item,
                                trigger: TriggerView::Sextant {
                                    item_selections,
                                    is_forward: Some(forward),
                                },
                            },
                        ),
                    ),
                    _ => Err(CommandError::InvalidCommandInThisContext),
                }
            }
        },
        TriggerView::Sextant { item_selections, is_forward: Some(forward) } => {
            match c {
                Command::SelectSextantItem { item } => {
                    let seat = seat_of(t, actor);
                    if item_selections[seat] is Some {
                        Err(CommandError::InvalidCommandInThisContext)
                    } else if !items_of(t, actor).contains(item) {
                        Err(CommandError::InvalidItemError(item))
                    } else {
                        let sel = item_selections.update(seat, Some(item));
                        if all_selected(sel) {
                            Ok(
                                continue_trade(
                                    GameView { players: ring_pass(t, sel, forward), ..g },
                                    offerer,
                                    target,
                                    next_item,
                                ),
                            )
                        } else {
                            Ok(
                                at(
                                    g,
                                    TurnView::ResolvingTradeTrigger {
                                        offerer,
                                        target,
                                        next_item,
                                        trigger: TriggerView::Sextant {
                                            item_selections: sel,
                                            is_forward: Some(forward),
                                        },
                                    },
                                ),
                            )
                        }
                    }
                },
                _ => Err(CommandError::InvalidCommandInThisContext),
            }
        },
    }
}

pub open spec fn step_donating(
    g: GameView,
    donor: Player,
    followup: ItemDonationFollowup,
    actor: Player,
    c: Command,
) -> Result<StateView, CommandError> {
    let t = g.players;
    if actor != donor {
        Err(CommandError::NotYourTurn)
    } else {
        match c {
            Command::DonateItem { target, item } => {
                if !has_player(t, target) || target == donor {
                    Err(CommandError::InvalidTargetPlayer)
                } else if !items_of(t, donor).contains(item) {
                    Err(CommandError::InvalidItemError(item))
                } else {
                    let g1 = GameView { players: move_item(t, donor, target, item), ..g };
                    match followup {
                        ItemDonationFollowup::NextPlayer(p) => Ok(
                            at(g1, TurnView::WaitingForQuickblink(p)),
                        ),
                        ItemDonationFollowup::TradeTriggers { offerer, target: tt, item: it } => Ok(
                            second_trigger(g1, offerer, tt, it),
                        ),
                    }
                }
            },
            _ => Err(CommandError::InvalidCommandInThisContext),
        }
    }
}

pub open spec fn vote_total(votes: Seq<(Player, AttackSupport)>) -> int
    decreases votes.len(),
{
    if votes.len() == 0 {
        0
    } else {
        vote_total(votes.drop_last()) + votes.last().1.spec_vote_value()
    }
}

pub open spec fn buff_total(buffs: Seq<Buff>) -> int
    decreases buffs.len(),
{
    if buffs.len() == 0 {
        0
    } else {
        buff_total(buffs.drop_last()) + buffs.last().raw_score as int
    }
}

/// The score of an attack: positive favours the attacker, negative the defender.
pub open spec fn attack_score(votes: Seq<(Player, AttackSupport)>, buffs: Seq<Buff>) -> int {
    buff_total(buffs) + vote_total(votes)
}

/// The voters, in voting order.
pub open spec fn voters(votes: Seq<(Player, AttackSupport)>) -> Seq<Player> {
    votes.map_values(|e: (Player, AttackSupport)| e.0)
}

/// What `actor` fights as, if anything.
pub open spec fn role_of(
    attacker: Player,
    defender: Player,
    votes: Seq<(Player, AttackSupport)>,
    actor: Player,
) -> Option<AttackRole> {
    if actor == attacker {
        Some(AttackRole::Attacker)
    } else if actor == defender {
        Some(AttackRole::Defender)
    } else {
        match voters(votes).index_of_first(actor) {
            Some(i) => Some(AttackRole::AttackSupport(votes[i].1)),
            None => None,
        }
    }
}

pub open spec fn all_abstain(votes: Seq<(Player, AttackSupport)>) -> Seq<(Player, AttackSupport)> {
    votes.map_values(|e: (Player, AttackSupport)| (e.0, AttackSupport::Abstain))
}

/// The buffs played by attacker or defender, in order.
pub open spec fn principal_buffs(buffs: Seq<Buff>, attacker: Player, defender: Player) -> Seq<Buff>
    decreases buffs.len(),
{
    if buffs.len() == 0 {
        Seq::empty()
    } else {
        let prev = principal_buffs(buffs.drop_last(), attacker, defender);
        let b = buffs.last();
        if b.user == attacker || b.user == defender {
            prev.push(b)
        } else {
            prev
        }
    }
}

pub open spec fn buff_used(buffs: Seq<Buff>, source: BuffSource) -> bool {
    exists|i: int| 0 <= i < buffs.len() && buffs[i].source == source
}

pub open spec fn winner_player(attacker: Player, defender: Player, w: AttackWinner) -> Player {
    match w {
        AttackWinner::Attacker => attacker,
        AttackWinner::Defender => defender,
    }
}

pub open spec fn loser_player(attacker: Player, defender: Player, w: AttackWinner) -> Player {
    match w {
        AttackWinner::Attacker => defender,
        AttackWinner::Defender => attacker,
    }
}

/// After `p` received items: their donation if over the limit, else the next turn.
pub open spec fn after_receiving(g: GameView, p: Player, attacker: Player) -> StateView {
    let next = next_of(g.players, attacker);
    if items_of(g.players, p).len() > limit_of(g) {
        at(g, TurnView::DonatingItem { donor: p, followup: ItemDonationFollowup::NextPlayer(next) })
    } else {
        at(g, TurnView::WaitingForQuickblink(next))
    }
}

/// A tied attack: the attacker draws from the pile, if it has anything, and the turn ends.
pub open spec fn tie_outcome(g: GameView, attacker: Player) -> StateView {
    if g.item_stack.len() > 0 {
        after_receiving(draw(g, attacker), attacker, attacker)
    } else {
        turn_start_after(g, attacker)
    }
}

pub open spec fn attacking(g: GameView, attacker: Player, defender: Player, s: AttackView) -> StateView {
    at(g, TurnView::Attacking { attacker, defender, state: s })
}

/// The table after `p` used their job.
pub open spec fn use_job_of(g: GameView, p: Player) -> GameView {
    GameView { players: with_state(g.players, p, used_job(state_of(g.players, p))), ..g }
}

/// The items of winner and loser after a theft of `item`, with `give_back` returned.
pub open spec fn steal_result(w: Seq<Item>, l: Seq<Item>, item: Item, give_back: Option<Item>) -> (
    Seq<Item>,
    Seq<Item>,
) {
    match give_back {
        Some(gb) => (w.push(item).remove_value(gb), l.remove_value(item).push(gb)),
        None => (w.push(item), l.remove_value(item)),
    }
}

/// The table after the winner `w` took `item` from the loser `l`, handing back `give_back`.
pub open spec fn steal_table(t: Table, w: Player, l: Player, item: Item, give_back: Option<Item>) -> Table {
    let (wi, li) = steal_result(items_of(t, w), items_of(t, l), item, give_back);
    let t1 = with_state(t, w, with_items(state_of(t, w), wi));
    with_state(t1, l, with_items(state_of(t1, l), li))
}

pub open spec fn step_buff(
    g: GameView,
    attacker: Player,
    defender: Player,
    votes: Seq<(Player, AttackSupport)>,
    buffs: Seq<Buff>,
    actor: Player,
    b: BuffSource,
    target: Option<Player>,
) -> Result<StateView, CommandError> {
    let t = g.players;
    match role_of(attacker, defender, votes, actor) {
        None => Err(CommandError::YouAbstained),
        Some(role) => {
            let valid = match b {
                BuffSource::Job(x) => can_use_job(state_of(t, actor), x),
                BuffSource::Item(x) => items_of(t, actor).contains(x),
            };
            if !valid {
                match b {
                    BuffSource::Job(_) => Err(CommandError::JobError),
                    BuffSource::Item(x) => Err(CommandError::InvalidItemError(x)),
                }
            } else {
                let g1 = if b is Job {
                    use_job_of(g, actor)
                } else {
                    g
                };
                if b == BuffSource::Job(Job::Doctor) {
                    Ok(turn_start_after(g1, attacker))
                } else if b == BuffSource::Job(Job::PoisonMixer) {
                    if target == Some(attacker) {
                        Ok(
                            attacking(
                                g1,
                                attacker,
                                defender,
                                AttackView::Resolving { winner: AttackWinner::Attacker },
                            ),
                        )
                    } else if target == Some(defender) {
                        Ok(
                            attacking(
                                g1,
                                attacker,
                                defender,
                                AttackView::Resolving { winner: AttackWinner::Defender },
                            ),
                        )
                    } else {
                        Err(CommandError::InvalidCommandInThisContext)
                    }
                } else {
                    match b.spec_raw_score(role) {
                        None => Err(CommandError::InvalidCommandInThisContext),
                        Some(raw) => {
                            if buff_used(buffs, b) {
                                Err(CommandError::DuplicateBuffUsage)
                            } else {
                                let duel = b == BuffSource::Job(Job::Duelist);
                                let v2 = if duel {
                                    all_abstain(votes)
                                } else {
                                    votes
                                };
                                let b2 = if duel {
                                    principal_buffs(buffs, attacker, defender)
                                } else {
                                    buffs
                                };
                                Ok(
                                    attacking(
                                        g1,
                                        attacker,
                                        defender,
                                        AttackView::ItemsOrJobs {
                                            votes: v2,
                                            passed: Seq::empty(),
                                            buffs: b2.push(
                                                Buff { user: actor, source: b, raw_score: raw as i8 },
                                            ),
                                        },
                                    ),
                                )
                            }
                        },
                    }
                }
            }
        },
    }
}

pub open spec fn step_attack(
    g: GameView,
    attacker: Player,
    defender: Player,
    s: AttackView,
    actor: Player,
    c: Command,
) -> Result<StateView, CommandError> {
    let t = g.players;
    let n = t.len();
    match s {
        AttackView::WaitingForPriest { passed } => match c {
            Command::UsePriest { priest: true } => {
                if passed.contains(actor) {
                    Err(CommandError::YouHaveAlreadyPassed)
                } else if !can_use_job(state_of(t, actor), Job::Priest) {
                    Err(CommandError::JobError)
                } else {
                    Ok(
                        attacking(
                            use_job_of(g, actor),
                            attacker,
                            defender,
                            AttackView::PayingPriest { priest: actor },
                        ),
                    )
                }
            },
            Command::UsePriest { priest: false } => {
                let p2 = if passed.contains(actor) {
                    passed
                } else {
                    passed.push(actor)
                };
                if p2.len() == n {
                    if supporters(t, attacker, defender).len() == 0 {
                        Ok(
                            attacking(
                                g,
                                attacker,
                                defender,
                                AttackView::WaitingForHypnotizer(Seq::empty()),
                            ),
                        )
                    } else {
                        Ok(attacking(g, attacker, defender, AttackView::DeclaringSupport(Seq::empty())))
                    }
                } else {
                    Ok(attacking(g, attacker, defender, AttackView::WaitingForPriest { passed: p2 }))
                }
            },
            _ => Err(CommandError::InvalidCommandInThisContext),
        },
        AttackView::PayingPriest { priest } => {
            if actor != attacker {
                Err(CommandError::NotYourTurn)
            } else {
                match c {
                    Command::PayPriest { item } => {
                        if !items_of(t, attacker).contains(item) {
                            Err(CommandError::InvalidItemError(item))
                        } else {
                            let g1 = GameView { players: move_item(t, attacker, priest, item), ..g };
                            Ok(after_receiving(g1, priest, attacker))
                        }
                    },
                    _ => Err(CommandError::InvalidCommandInThisContext),
                }
            }
        },
        AttackView::DeclaringSupport(votes) => {
            let sup = supporters(t, attacker, defender);
            if actor != sup[votes.len() as int] {
                Err(CommandError::NotYourTurn)
            } else {
                match c {
                    Command::DeclareSupport { support } => {
                        let v2 = votes.push((actor, support));
                        if v2.len() == sup.len() {
                            Ok(attacking(g, attacker, defender, AttackView::WaitingForHypnotizer(v2)))
                        } else {
                            Ok(attacking(g, attacker, defender, AttackView::DeclaringSupport(v2)))
                        }
                    },
                    _ => Err(CommandError::InvalidCommandInThisContext),
                }
            }
        },
        AttackView::WaitingForHypnotizer(votes) => {
            if actor != attacker {
                Err(CommandError::NotYourTurn)
            } else {
                match c {
                    Command::Hypnotize { target: None } => Ok(
                        attacking(
                            g,
                            attacker,
                            defender,
                            AttackView::ItemsOrJobs {
                                votes,
                                passed: Seq::empty(),
                                buffs: Seq::empty(),
                            },
                        ),
                    ),
                    Command::Hypnotize { target: Some(x) } => match voters(votes).index_of_first(x) {
                        None => Err(CommandError::InvalidTargetPlayer),
                        Some(i) => {
                            if !can_use_job(state_of(t, actor), Job::Hypnotist) {
                                Err(CommandError::JobError)
                            } else {
                                Ok(
                                    attacking(
                                        use_job_of(g, actor),
                                        attacker,
                                        defender,
                                        AttackView::ItemsOrJobs {
                                            votes: votes.update(i, (x, AttackSupport::Abstain)),
                                            passed: Seq::empty(),
                                            buffs: Seq::empty(),
                                        },
                                    ),
                                )
                            }
                        },
                    },
                    _ => Err(CommandError::InvalidCommandInThisContext),
                }
            }
        },
        AttackView::ItemsOrJobs { votes, passed, buffs } => {
            if passed.contains(actor) {
                Err(CommandError::YouHaveAlreadyPassed)
            } else {
                match c {
                    Command::ItemOrJob { buff: None, target: _ } => {
                        let p2 = passed.push(actor);
                        if p2.len() == n {
                            let score = attack_score(votes, buffs);
                            if score == 0 {
                                Ok(tie_outcome(g, attacker))
                            } else {
                                Ok(
                                    attacking(
                                        g,
                                        attacker,
                                        defender,
                                        AttackView::Resolving {
                                            winner: if score > 0 {
                                                AttackWinner::Attacker
                                            } else {
                                                AttackWinner::Defender
                                            },
                                        },
                                    ),
                                )
                            }
                        } else {
                            Ok(
                                attacking(
                                    g,
                                    attacker,
                                    defender,
                                    AttackView::ItemsOrJobs { votes, passed: p2, buffs },
                                ),
                            )
                        }
                    },
                    Command::ItemOrJob { buff: Some(b), target } => step_buff(
                        g,
                        attacker,
                        defender,
                        votes,
                        buffs,
                        actor,
                        b,
                        target,
                    ),
                    _ => Err(CommandError::InvalidCommandInThisContext),
                }
            }
        },
        AttackView::Resolving { winner } => {
            if actor != winner_player(attacker, defender, winner) {
                Err(CommandError::NotYourTurn)
            } else {
                match c {
                    Command::ClaimReward { steal_items } => Ok(
                        attacking(
                            g,
                            attacker,
                            defender,
                            AttackView::FinishResolving { winner, steal_items },
                        ),
                    ),
                    _ => Err(CommandError::InvalidCommandInThisContext),
                }
            }
        },
        AttackView::FinishResolving { winner, steal_items } => {
            let w = winner_player(attacker, defender, winner);
            let l = loser_player(attacker, defender, winner);
            if actor != w {
                Err(CommandError::NotYourTurn)
            } else {
                match c {
                    Command::DoneLookingAtThings => {
                        if !steal_items {
                            Ok(turn_start_after(g, attacker))
                        } else {
                            Err(CommandError::InvalidCommandInThisContext)
                        }
                    },
                    Command::StealItem { item, give_back } => {
                        if !steal_items {
                            Err(CommandError::InvalidCommandInThisContext)
                        } else if (give_back is Some) != (items_of(t, l).len() == 1) {
                            Err(CommandError::InvalidStealCommand)
                        } else if !items_of(t, l).contains(item) {
                            Err(CommandError::InvalidStealCommand)
                        } else if give_back matches Some(gb) && !items_of(t, w).push(
                            item,
                        ).contains(gb) {
                            Err(CommandError::InvalidStealCommand)
                        } else {
                            let t2 = steal_table(t, w, l, item, give_back);
                            Ok(after_receiving(GameView { players: t2, ..g }, w, attacker))
                        }
                    },
                    _ => Err(CommandError::InvalidCommandInThisContext),
                }
            }
        },
    }
}

/// The one transition function of the game: what `actor` sending `c` does to `s`.
pub open spec fn step(s: StateView, actor: Player, c: Command) -> Result<StateView, CommandError> {
    let g = s.game;
    match s.turn {
        TurnView::GameOver { .. } => Err(CommandError::GameOver),
        TurnView::WaitingForQuickblink(p) => if !has_player(g.players, actor) {
            Err(CommandError::NotYourTurn)
        } else {
            step_turn_start(g, p, actor, c)
        },
        TurnView::TradePending { offerer, target, item } => if !has_player(g.players, actor) {
            Err(CommandError::NotYourTurn)
        } else {
            step_trade_pending(g, offerer, target, item, actor, c)
        },
        TurnView::ResolvingTradeTrigger { offerer, target, next_item, trigger } => if !has_player(
            g.players,
            actor,
        ) {
            Err(CommandError::NotYourTurn)
        } else {
            step_trigger(g, offerer, target, next_item, trigger, actor, c)
        },
        TurnView::Attacking { attacker, defender, state } => if !has_player(g.players, actor) {
            Err(CommandError::NotYourTurn)
        } else {
            step_attack(g, attacker, defender, state, actor, c)
        },
        TurnView::DonatingItem { donor, followup } => if !has_player(g.players, actor) {
            Err(CommandError::NotYourTurn)
        } else {
            step_donating(g, donor, followup, actor, c)
        },
    }
}

/// The players who may act in `s` (besides errors of the kind "already passed").
pub open spec fn may_act(s: StateView, actor: Player) -> bool {
    let t = s.game.players;
    has_player(t, actor) && match s.turn {
        TurnView::GameOver { .. } => false,
        TurnView::WaitingForQuickblink(p) => actor == p,
        TurnView::TradePending { target, .. } => actor == target,
        TurnView::ResolvingTradeTrigger { offerer, target, next_item, trigger } => {
            let responsible = if next_item is Some {
                offerer
            } else {
                target
            };
            match trigger {
                TriggerView::Sextant { is_forward: Some(_), .. } => true,
                _ => actor == responsible,
            }
        },
        TurnView::Attacking { attacker, defender, state } => match state {
            AttackView::WaitingForPriest { .. } => true,
            AttackView::PayingPriest { .. } => actor == attacker,
            AttackView::DeclaringSupport(votes) => actor == supporters(t, attacker, defender)[votes.len() as int],
            AttackView::WaitingForHypnotizer(_) => actor == attacker,
            AttackView::ItemsOrJobs { .. } => true,
            AttackView::Resolving { winner } => actor == winner_player(attacker, defender, winner),
            AttackView::FinishResolving { winner, .. } => actor == winner_player(
                attacker,
                defender,
                winner,
            ),
        },
        TurnView::DonatingItem { donor, .. } => actor == donor,
    }
}

/// The votes come from distinct supporters of the attack.
pub open spec fn votes_ok(
    t: Table,
    attacker: Player,
    defender: Player,
    votes: Seq<(Player, AttackSupport)>,
) -> bool {
    &&& voters(votes).no_duplicates()
    &&& forall|i: int|
        0 <= i < votes.len() ==> supporters(t, attacker, defender).contains(
            #[trigger] voters(votes)[i],
        )
}

/// What an attack in progress relies on: nobody declines twice, the votes so
/// far are those of the first supporters in voting order, and each supporter
/// votes at most once.
pub open spec fn attack_wf(t: Table, attacker: Player, defender: Player, s: AttackView) -> bool {
    let sup = supporters(t, attacker, defender);
    match s {
        AttackView::WaitingForPriest { passed } => passed.no_duplicates(),
        AttackView::PayingPriest { priest } => has_player(t, priest),
        AttackView::DeclaringSupport(votes) => votes.len() < sup.len() && voters(votes)
            == sup.subrange(0, votes.len() as int),
        AttackView::WaitingForHypnotizer(votes) => votes_ok(t, attacker, defender, votes),
        AttackView::ItemsOrJobs { votes, passed, .. } => votes_ok(t, attacker, defender, votes)
            && passed.no_duplicates(),
        _ => true,
    }
}

/// The invariant of a game in progress: the players named by the turn sit at
/// the table, and what the turn relies on still holds.
pub open spec fn wf(s: StateView) -> bool {
    let t = s.game.players;
    &&& keys_unique(t)
    &&& t.len() >= 3
    &&& match s.turn {
        TurnView::GameOver { .. } => true,
        TurnView::WaitingForQuickblink(p) => has_player(t, p),
        TurnView::TradePending { offerer, target, item } => {
            &&& has_player(t, offerer)
            &&& has_player(t, target)
            &&& offerer != target
            &&& items_of(t, offerer).contains(item)
        },
        TurnView::ResolvingTradeTrigger { offerer, target, trigger, .. } => {
            &&& has_player(t, offerer)
            &&& has_player(t, target)
            &&& offerer != target
            &&& trigger matches TriggerView::Sextant { item_selections, .. } ==> {
                &&& item_selections.len() == t.len()
                &&& forall|i: int|
                    0 <= i < t.len() && (#[trigger] item_selections[i]) is Some
                        ==> t[i].1.items.contains(item_selections[i].unwrap())
            }
        },
        TurnView::Attacking { attacker, defender, state } => {
            &&& has_player(t, attacker)
            &&& has_player(t, defender)
            &&& attacker != defender
            &&& attack_wf(t, attacker, defender, state)
        },
        TurnView::DonatingItem { donor, followup } => {
            &&& has_player(t, donor)
            &&& match followup {
                ItemDonationFollowup::NextPlayer(p) => has_player(t, p),
                ItemDonationFollowup::TradeTriggers { offerer, target, .. } => {
                    &&& has_player(t, offerer)
                    &&& has_player(t, target)
                    &&& offerer != target
                },
            }
        },
    }
}

} // verus!
