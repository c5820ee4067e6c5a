//! The game itself: the authoritative state and the one function that
//! changes it, proved to follow the rules of `rules`.
use vstd::prelude::*;

use crate::model::{
    can_use, count_victory, count_victory_items, inventory_limit, is_must_accept, position_of,
    position_of_job, Faction, Item, Job, Player, PlayerState, PlayerView,
};
use crate::perspective::{own_selection, perspective_turn, public_players};
use crate::protocol::{
    AttackRole, AttackState, AttackSupport, AttackView, AttackWinner, Buff, BuffSource, Command,
    CommandError, ItemDonationFollowup, Perspective, PerspectiveAttackState, PerspectivePlayer,
    PerspectiveTradeTriggerState, PerspectiveTurnState, TradeTriggerState, TriggerView, TurnState,
};
use crate::roster::{
    has_player, items_of, keys_unique, lemma_next_has, lemma_same_seats, lemma_supporters_distinct,
    lemma_with_state,
    next_of, same_seats, seat_of, state_of, supporters, view_entries, with_state,
    GameStatePlayers, Table,
};
use crate::rules::{
    after_receiving, all_abstain, all_selected, at, attack_score, buff_total, buff_used,
    continue_trade, draw, in_team, move_item, no_selections, principal_buffs, ring_pass,
    ring_source, second_trigger, steal_result, steal_table, step, step_attack, step_buff,
    step_donating, step_trade_pending, step_trigger, step_turn_start, swap_items, team_total,
    tie_outcome, trade_trigger, trade_triggers, use_job_of, vote_total, voters, winner_player,
    with_items, wf, attack_wf, votes_ok, GameView, NeedDonation, StateView,
};

verus! {

/// The table, the draw pile (drawn from its end) and the pool of unused jobs.
#[derive(Debug)]
pub struct GameState {
    p: GameStatePlayers,
    item_stack: Vec<Item>,
    job_stack: Vec<Job>,
}

impl View for GameState {
    type V = GameView;

    closed spec fn view(&self) -> GameView {
        GameView { players: self.p@, item_stack: self.item_stack@, job_stack: self.job_stack@ }
    }
}

/// A game: the table and whose move it is.
#[derive(Debug)]
pub struct State {
    game: GameState,
    pub turn: TurnState,
}

impl View for State {
    type V = StateView;

    closed spec fn view(&self) -> StateView {
        StateView { game: self.game@, turn: self.turn@ }
    }
}

/// The table is consistent: nobody sits twice, and at least three play.
pub open spec fn game_wf(g: GameView) -> bool {
    keys_unique(g.players) && g.players.len() >= 3
}

pub open spec fn outcome(r: Result<TurnState, CommandError>, g: GameView) -> Result<
    StateView,
    CommandError,
> {
    match r {
        Ok(t) => Ok(StateView { game: g, turn: t@ }),
        Err(e) => Err(e),
    }
}

pub open spec fn trigger_outcome(r: Option<Result<TradeTriggerState, NeedDonation>>) -> Option<
    Result<TriggerView, NeedDonation>,
> {
    match r {
        Some(Ok(t)) => Some(Ok(t@)),
        Some(Err(e)) => Some(Err(e)),
        None => None,
    }
}

pub fn holds(v: &Vec<Item>, x: Item) -> (r: bool)
    ensures
        r == v@.contains(x),
{
    position_of(v, x).is_some()
}

pub fn names(v: &Vec<Player>, x: Player) -> (r: bool)
    ensures
        r == v@.contains(x),
{
    let mut k: usize = 0;
    while k < v.len()
        invariant
            k <= v@.len(),
            forall|j: int| 0 <= j < k ==> v@[j] != x,
        decreases v@.len() - k,
    {
        if v[k] == x {
            return true;
        }
        k = k + 1;
    }
    false
}

fn copy_players(v: &Vec<Player>) -> (r: Vec<Player>)
    ensures
        r@ == v@,
{
    crate::model::copy_vec(v)
}

/// One `None` per seat.
fn empty_selections(n: usize) -> (r: Vec<Option<Item>>)
    ensures
        r@ == no_selections(n as nat),
{
    let mut r: Vec<Option<Item>> = Vec::new();
    let mut k: usize = 0;
    while k < n
        invariant
            k <= n,
            r@ == Seq::new(k as nat, |i: int| None::<Item>),
        decreases n - k,
    {
        r.push(None);
        k = k + 1;
        assert(r@ =~= Seq::new(k as nat, |i: int| None::<Item>));
    }
    r
}

impl GameState {
    /// The state of `p`.
    fn state(&self, p: Player) -> (r: &PlayerState)
        requires
            game_wf(self@),
            has_player(self@.players, p),
        ensures
            r@ == state_of(self@.players, p),
    {
        self.p.player(p)
    }

    /// Replaces the state of `p`.
    fn set_state(&mut self, p: Player, v: PlayerState)
        requires
            game_wf(old(self)@),
            has_player(old(self)@.players, p),
        ensures
            final(self)@ == (GameView { players: with_state(old(self)@.players, p, v@), ..old(self)@ }),
            game_wf(final(self)@),
            same_seats(old(self)@.players, final(self)@.players),
    {
        let i = self.p.index_of(p).unwrap();
        proof {
            lemma_seat_exists_of(old(self)@.players, p);
            lemma_with_state(old(self)@.players, p, v@);
        }
        self.p.set(i, v);
    }

    fn next(&self, p: Player) -> (r: Player)
        requires
            game_wf(self@),
            has_player(self@.players, p),
        ensures
            r == next_of(self@.players, p),
    {
        self.p.next_player(p)
    }

    /// `p` hands `item`, which they hold, to `q`.
    fn move_item(&mut self, p: Player, q: Player, item: Item)
        requires
            game_wf(old(self)@),
            has_player(old(self)@.players, p),
            has_player(old(self)@.players, q),
            items_of(old(self)@.players, p).contains(item),
        ensures
            final(self)@ == (GameView {
                players: move_item(old(self)@.players, p, q, item),
                ..old(self)@
            }),
            game_wf(final(self)@),
            same_seats(old(self)@.players, final(self)@.players),
    {
        let mut ps = self.state(p).duplicate();
        let idx = position_of(&ps.items, item).unwrap();
        ps.items.remove(idx);
        proof {
            assert(ps@.items == items_of(old(self)@.players, p).remove_value(item));
        }
        self.set_state(p, ps);
        proof {
            lemma_with_state(old(self)@.players, p, ps@);
        }
        let ghost t1 = self@.players;
        let mut qs = self.state(q).duplicate();
        qs.items.push(item);
        self.set_state(q, qs);
        proof {
            lemma_with_state(t1, q, qs@);
            lemma_same_seats(old(self)@.players, t1);
            lemma_same_seats(t1, self@.players);
            assert(same_seats(old(self)@.players, self@.players));
        }
    }

    /// `p` draws the top of the draw pile, if any.
    fn draw(&mut self, p: Player)
        requires
            game_wf(old(self)@),
            has_player(old(self)@.players, p),
        ensures
            final(self)@ == draw(old(self)@, p),
            game_wf(final(self)@),
            same_seats(old(self)@.players, final(self)@.players),
    {
        proof {
            lemma_same_seats(old(self)@.players, old(self)@.players);
        }
        if self.item_stack.len() > 0 {
            let drawn = self.item_stack.pop().unwrap();
            let mut ps = self.state(p).duplicate();
            ps.items.push(drawn);
            self.set_state(p, ps);
        }
    }

    /// Resolves the trigger of `item`, just passed from `giver` to `receiver`.
    fn trade_trigger(&mut self, item: Item, giver: Player, receiver: Player) -> (r: Option<
        Result<TradeTriggerState, NeedDonation>,
    >)
        requires
            game_wf(old(self)@),
            has_player(old(self)@.players, giver),
            has_player(old(self)@.players, receiver),
            giver != receiver,
        ensures
            (final(self)@, trigger_outcome(r)) == trade_trigger(item, old(self)@, giver, receiver),
            game_wf(final(self)@),
            same_seats(old(self)@.players, final(self)@.players),
    {
        proof {
            lemma_same_seats(old(self)@.players, old(self)@.players);
        }
        match item {
            Item::BagKey | Item::BagGoblet => {
                if self.item_stack.len() > 0 {
                    self.draw(receiver);
                    proof {
                        let t = old(self)@.players;
                        lemma_with_state(
                            t,
                            receiver,
                            with_items(
                                state_of(t, receiver),
                                items_of(t, receiver).push(old(self)@.item_stack.last()),
                            ),
                        );
                    }
                    let limit = inventory_limit(self.p.len());
                    if self.state(receiver).items.len() > limit {
                        return Some(Err(NeedDonation));
                    }
                }
                None
            },
            Item::Priviledge => Some(Ok(TradeTriggerState::Priviledge)),
            Item::Monocle => Some(Ok(TradeTriggerState::Monocle)),
            Item::Coat => Some(Ok(TradeTriggerState::Coat)),
            Item::Sextant => {
                let sel = empty_selections(self.p.len());
                Some(Ok(TradeTriggerState::Sextant { item_selections: sel, is_forward: None }))
            },
            Item::Tome => {
                let mut gs = self.state(giver).duplicate();
                let mut rs = self.state(receiver).duplicate();
                let gj = gs.job;
                gs.job = rs.job;
                gs.job_is_visible = false;
                rs.job = gj;
                rs.job_is_visible = false;
                self.set_state(giver, gs);
                proof {
                    lemma_with_state(old(self)@.players, giver, gs@);
                }
                self.set_state(receiver, rs);
                proof {
                    lemma_with_state(with_state(old(self)@.players, giver, gs@), receiver, rs@);
                }
                None
            },
            _ => None,
        }
    }
}

impl GameState {
    /// The trigger of the item handed back by the target, then the next turn.
    fn second_trigger(&mut self, offerer: Player, target: Player, item: Item) -> (r: TurnState)
        requires
            game_wf(old(self)@),
            has_player(old(self)@.players, offerer),
            has_player(old(self)@.players, target),
            offerer != target,
        ensures
            (StateView { game: final(self)@, turn: r@ }) == second_trigger(
                old(self)@,
                offerer,
                target,
                item,
            ),
            game_wf(final(self)@),
            same_seats(old(self)@.players, final(self)@.players),
            wf(StateView { game: final(self)@, turn: r@ }),
    {
        let o = self.trade_trigger(item, target, offerer);
        proof {
            lemma_same_seats(old(self)@.players, self@.players);
            lemma_next_has(self@.players, offerer);
        }
        match o {
            Some(Ok(t)) => TurnState::ResolvingTradeTrigger {
                offerer,
                target,
                next_item: None,
                trigger: t,
            },
            Some(Err(_)) => TurnState::DonatingItem {
                donor: offerer,
                followup: ItemDonationFollowup::NextPlayer(self.next(offerer)),
            },
            None => TurnState::WaitingForQuickblink(self.next(offerer)),
        }
    }

    /// The triggers of a completed trade, the offered item first.
    fn trade_triggers(&mut self, offerer: Player, target: Player, item: Item, item2: Item) -> (r:
        TurnState)
        requires
            game_wf(old(self)@),
            has_player(old(self)@.players, offerer),
            has_player(old(self)@.players, target),
            offerer != target,
        ensures
            (StateView { game: final(self)@, turn: r@ }) == trade_triggers(
                old(self)@,
                offerer,
                target,
                item,
                item2,
            ),
            game_wf(final(self)@),
            same_seats(old(self)@.players, final(self)@.players),
            wf(StateView { game: final(self)@, turn: r@ }),
    {
        let o = self.trade_trigger(item, offerer, target);
        proof {
            lemma_same_seats(old(self)@.players, self@.players);
        }
        match o {
            Some(Ok(t)) => TurnState::ResolvingTradeTrigger {
                offerer,
                target,
                next_item: Some(item2),
                trigger: t,
            },
            Some(Err(_)) => TurnState::DonatingItem {
                donor: target,
                followup: ItemDonationFollowup::TradeTriggers { offerer, target, item: item2 },
            },
            None => {
                let r = self.second_trigger(offerer, target, item2);
                proof {
                    lemma_same_seats(old(self)@.players, self@.players);
                }
                r
            },
        }
    }

    /// After a trigger is resolved: the second item's trigger if still due, else the next turn.
    fn continue_trade(&mut self, offerer: Player, target: Player, next_item: Option<Item>) -> (r:
        TurnState)
        requires
            game_wf(old(self)@),
            has_player(old(self)@.players, offerer),
            has_player(old(self)@.players, target),
            offerer != target,
        ensures
            (StateView { game: final(self)@, turn: r@ }) == continue_trade(
                old(self)@,
                offerer,
                target,
                next_item,
            ),
            game_wf(final(self)@),
            same_seats(old(self)@.players, final(self)@.players),
            wf(StateView { game: final(self)@, turn: r@ }),
    {
        proof {
            lemma_same_seats(old(self)@.players, old(self)@.players);
            lemma_next_has(old(self)@.players, offerer);
        }
        match next_item {
            Some(ni) => self.second_trigger(offerer, target, ni),
            None => TurnState::WaitingForQuickblink(self.next(offerer)),
        }
    }

    /// The outcome of an announcement of victory by `actor` with `teammates`.
    fn announce_victory(&self, actor: Player, teammates: &Vec<Player>) -> (r: Result<
        TurnState,
        CommandError,
    >)
        requires
            game_wf(self@),
            has_player(self@.players, actor),
        ensures
            outcome(r, self@) == step_turn_start(
                self@,
                actor,
                actor,
                Command::AnnounceVictory { teammates: *teammates },
            ),
    {
        let t = Ghost(self@.players);
        let me = self.state(actor);
        if holds(&me.items, Item::BlackPearl) {
            return Err(CommandError::BlackPearl);
        }
        let mut k: usize = 0;
        while k < teammates.len()
            invariant
                game_wf(self@),
                has_player(self@.players, actor),
                !items_of(self@.players, actor).contains(Item::BlackPearl),
                k <= teammates@.len(),
                forall|j: int| 0 <= j < k ==> has_player(self@.players, #[trigger] teammates@[j]),
            decreases teammates@.len() - k,
        {
            if self.p.index_of(teammates[k]).is_none() {
                assert(!has_player(self@.players, teammates@[k as int]));
                return Err(CommandError::InvalidTargetPlayer);
            }
            k = k + 1;
        }
        let f = me.faction;
        let e = self.item_stack.len() == 0;
        let n = self.p.len();
        let mut ok = true;
        let mut total: usize = 0;
        let mut i: usize = 0;
        while i < n
            invariant
                game_wf(self@),
                t@ == self@.players,
                n == t@.len(),
                i <= n,
                total <= 3,
                ok == (forall|j: int|
                    0 <= j < i && in_team(t@[j].0, actor, teammates@) ==> t@[j].1.faction == f),
                total as nat == (if team_total(t@.subrange(0, i as int), actor, teammates@, f, e)
                    >= 3 {
                    3
                } else {
                    team_total(t@.subrange(0, i as int), actor, teammates@, f, e)
                }),
            decreases n - i,
        {
            assert(t@.subrange(0, i + 1).drop_last() =~= t@.subrange(0, i as int));
            let key = self.p.key(i);
            if key == actor || names(teammates, key) {
                let st = self.p.get(i);
                let cnt = count_victory_items(&st.items, f, e);
                if st.faction != f {
                    ok = false;
                }
                if cnt >= 3 - total {
                    total = 3;
                } else {
                    total = total + cnt;
                }
            }
            i = i + 1;
        }
        assert(t@.subrange(0, n as int) =~= t@);
        if ok && total >= 3 {
            Ok(TurnState::GameOver { winner: f })
        } else {
            Ok(
                TurnState::GameOver {
                    winner: match f {
                        Faction::Order => Faction::Brotherhood,
                        Faction::Brotherhood => Faction::Order,
                    },
                },
            )
        }
    }

    /// A command at the start of `p`'s turn.
    fn turn_start(&mut self, p: Player, actor: Player, c: Command) -> (r: Result<
        TurnState,
        CommandError,
    >)
        requires
            game_wf(old(self)@),
            has_player(old(self)@.players, p),
            has_player(old(self)@.players, actor),
        ensures
            outcome(r, final(self)@) == step_turn_start(old(self)@, p, actor, c),
            final(self)@ == old(self)@,
            r matches Ok(t) ==> wf(StateView { game: final(self)@, turn: t@ }),
    {
        if actor != p {
            return Err(CommandError::NotYourTurn);
        }
        proof {
            lemma_next_has(old(self)@.players, p);
        }
        match c {
            Command::Pass => Ok(TurnState::WaitingForQuickblink(self.next(p))),
            Command::AnnounceVictory { teammates } => self.announce_victory(actor, &teammates),
            Command::OfferTrade { target, item } => {
                if actor == target || self.p.index_of(target).is_none() {
                    Err(CommandError::InvalidTargetPlayer)
                } else if !holds(&self.state(actor).items, item) {
                    Err(CommandError::InvalidItemError(item))
                } else {
                    Ok(TurnState::TradePending { offerer: actor, target, item })
                }
            },
            Command::InitiateAttack { player } => {
                if self.p.index_of(player).is_none() || actor == player {
                    Err(CommandError::InvalidTargetPlayer)
                } else {
                    Ok(
                        TurnState::Attacking {
                            attacker: actor,
                            defender: player,
                            state: AttackState::WaitingForPriest { passed: Vec::new() },
                        },
                    )
                }
            },
            _ => Err(CommandError::InvalidCommandInThisContext),
        }
    }

    /// The target's answer to a trade offer.
    fn trade_pending(
        &mut self,
        offerer: Player,
        target: Player,
        item: Item,
        actor: Player,
        c: Command,
    ) -> (r: Result<TurnState, CommandError>)
        requires
            game_wf(old(self)@),
            has_player(old(self)@.players, offerer),
            has_player(old(self)@.players, target),
            offerer != target,
            items_of(old(self)@.players, offerer).contains(item),
        ensures
            outcome(r, final(self)@) == step_trade_pending(old(self)@, offerer, target, item, actor, c),
            r is Err ==> final(self)@ == old(self)@,
            game_wf(final(self)@),
            same_seats(old(self)@.players, final(self)@.players),
            r matches Ok(t) ==> wf(StateView { game: final(self)@, turn: t@ }),
    {
        proof {
            lemma_same_seats(old(self)@.players, old(self)@.players);
        }
        if actor != target {
            return Err(CommandError::NotYourTurn);
        }
        proof {
            lemma_next_has(old(self)@.players, offerer);
        }
        match c {
            Command::AcceptTrade { item: item2 } => {
                if self.item_stack.len() > 0 && ((item == Item::BagGoblet && item2 == Item::BagKey)
                    || (item == Item::BagKey && item2 == Item::BagGoblet)) {
                    return Err(CommandError::InvalidItemError(item2));
                }
                if !holds(&self.state(target).items, item2) {
                    return Err(CommandError::InvalidItemError(item2));
                }
                let ghost t0 = old(self)@.players;
                let mut os = self.state(offerer).duplicate();
                let io = position_of(&os.items, item).unwrap();
                os.items.set(io, item2);
                self.set_state(offerer, os);
                proof {
                    lemma_with_state(t0, offerer, os@);
                }
                let ghost t1 = self@.players;
                let mut ts = self.state(target).duplicate();
                let it = position_of(&ts.items, item2).unwrap();
                ts.items.set(it, item);
                self.set_state(target, ts);
                proof {
                    lemma_with_state(t1, target, ts@);
                    lemma_same_seats(t0, self@.players);
                    assert(self@.players == swap_items(t0, offerer, target, item, item2));
                    lemma_next_has(self@.players, offerer);
                }
                if item == Item::BrokenMirror || item2 == Item::BrokenMirror {
                    Ok(TurnState::WaitingForQuickblink(self.next(offerer)))
                } else {
                    let ghost t2 = self@.players;
                    let r = self.trade_triggers(offerer, target, item, item2);
                    proof {
                        lemma_same_seats(t2, self@.players);
                    }
                    Ok(r)
                }
            },
            Command::RejectTrade => {
                if is_must_accept(item) {
                    Err(CommandError::MustAccept)
                } else {
                    Ok(TurnState::WaitingForQuickblink(self.next(offerer)))
                }
            },
            _ => Err(CommandError::InvalidCommandInThisContext),
        }
    }
}

/// Whether every seat has chosen.
fn all_some(v: &Vec<Option<Item>>) -> (r: bool)
    ensures
        r == all_selected(v@),
{
    let mut k: usize = 0;
    while k < v.len()
        invariant
            k <= v@.len(),
            forall|j: int| 0 <= j < k ==> (#[trigger] v@[j]) is Some,
        decreases v@.len() - k,
    {
        if v[k].is_none() {
            return false;
        }
        k = k + 1;
    }
    true
}

impl GameState {
    /// Every seat hands its selection to its neighbour in the chosen direction.
    fn ring_pass(&mut self, sel: &Vec<Option<Item>>, forward: bool)
        requires
            game_wf(old(self)@),
            sel@.len() == old(self)@.players.len(),
            all_selected(sel@),
            forall|i: int|
                0 <= i < old(self)@.players.len() ==> old(self)@.players[i].1.items.contains(
                    (#[trigger] sel@[i]).unwrap(),
                ),
        ensures
            final(self)@ == (GameView {
                players: ring_pass(old(self)@.players, sel@, forward),
                ..old(self)@
            }),
            game_wf(final(self)@),
            same_seats(old(self)@.players, final(self)@.players),
    {
        let ghost t0 = old(self)@.players;
        let ghost goal = ring_pass(t0, sel@, forward);
        let n = self.p.len();
        let mut i: usize = 0;
        while i < n
            invariant
                n == t0.len(),
                i <= n,
                t0 == old(self)@.players,
                goal == ring_pass(t0, sel@, forward),
                sel@.len() == n,
                all_selected(sel@),
                forall|j: int| 0 <= j < n ==> t0[j].1.items.contains((#[trigger] sel@[j]).unwrap()),
                self@.item_stack == old(self)@.item_stack,
                self@.job_stack == old(self)@.job_stack,
                self@.players.len() == n,
                forall|j: int| 0 <= j < i ==> self@.players[j] == goal[j],
                forall|j: int| i <= j < n ==> self@.players[j] == t0[j],
            decreases n - i,
        {
            let src = if forward {
                if i == 0 {
                    n - 1
                } else {
                    i - 1
                }
            } else {
                if i + 1 == n {
                    0
                } else {
                    i + 1
                }
            };
            proof {
                let ni = n as int;
                if forward {
                    if i == 0 {
                        vstd::arithmetic::div_mod::lemma_fundamental_div_mod_converse(
                            i + ni - 1,
                            ni,
                            0,
                            ni - 1,
                        );
                    } else {
                        vstd::arithmetic::div_mod::lemma_fundamental_div_mod_converse(
                            i + ni - 1,
                            ni,
                            1,
                            i - 1,
                        );
                    }
                } else {
                    if i + 1 == n {
                        vstd::arithmetic::div_mod::lemma_fundamental_div_mod_converse(
                            i + 1,
                            ni,
                            1,
                            0,
                        );
                    } else {
                        vstd::arithmetic::div_mod::lemma_fundamental_div_mod_converse(
                            i + 1,
                            ni,
                            0,
                            i + 1,
                        );
                    }
                }
                assert(src as int == ring_source(ni, i as int, forward));
                assert(sel@[i as int] is Some);
                assert(sel@[src as int] is Some);
            }
            let mut st = self.p.get(i).duplicate();
            let x = sel[i].unwrap();
            let y = sel[src].unwrap();
            let idx = position_of(&st.items, x).unwrap();
            st.items.remove(idx);
            st.items.push(y);
            proof {
                assert(st@ == goal[i as int].1);
            }
            self.p.set(i, st);
            i = i + 1;
        }
        proof {
            assert(self@.players =~= goal);
            assert(same_seats(t0, goal));
            lemma_same_seats(t0, goal);
        }
    }

    /// A command while a trade trigger is being resolved.
    fn trigger_step(
        &mut self,
        offerer: Player,
        target: Player,
        next_item: Option<Item>,
        trigger: &TradeTriggerState,
        actor: Player,
        c: Command,
    ) -> (r: Result<TurnState, CommandError>)
        requires
            game_wf(old(self)@),
            has_player(old(self)@.players, offerer),
            has_player(old(self)@.players, target),
            has_player(old(self)@.players, actor),
            offerer != target,
            trigger@ matches TriggerView::Sextant { item_selections, .. } ==> {
                &&& item_selections.len() == old(self)@.players.len()
                &&& forall|i: int|
                    0 <= i < old(self)@.players.len() && (#[trigger] item_selections[i]) is Some
                        ==> old(self)@.players[i].1.items.contains(item_selections[i].unwrap())
            },
        ensures
            outcome(r, final(self)@) == step_trigger(
                old(self)@,
                offerer,
                target,
                next_item,
                trigger@,
                actor,
                c,
            ),
            r is Err ==> final(self)@ == old(self)@,
            game_wf(final(self)@),
            same_seats(old(self)@.players, final(self)@.players),
            r matches Ok(t) ==> wf(StateView { game: final(self)@, turn: t@ }),
    {
        proof {
            lemma_same_seats(old(self)@.players, old(self)@.players);
        }
        let responsible = if next_item.is_some() {
            offerer
        } else {
            target
        };
        match trigger {
            TradeTriggerState::Priviledge | TradeTriggerState::Monocle => {
                if actor != responsible {
                    return Err(CommandError::NotYourTurn);
                }
                match c {
                    Command::DoneLookingAtThings => Ok(self.continue_trade(offerer, target, next_item)),
                    _ => Err(CommandError::InvalidCommandInThisContext),
                }
            },
            TradeTriggerState::Coat => {
                if actor != responsible {
                    return Err(CommandError::NotYourTurn);
                }
                match c {
                    Command::PickNewJob { job } => match position_of_job(&self.job_stack, job) {
                        Some(i) => {
                            let mut st = self.state(actor).duplicate();
                            let old_job = st.job;
                            st.job = job;
                            self.set_state(actor, st);
                            self.job_stack.set(i, old_job);
                            let ghost t1 = self@.players;
                            let r = self.continue_trade(offerer, target, next_item);
                            proof {
                                lemma_same_seats(old(self)@.players, t1);
                                lemma_same_seats(t1, self@.players);
                            }
                            Ok(r)
                        },
                        None => Err(CommandError::InvalidJobError(job)),
                    },
                    _ => Err(CommandError::InvalidCommandInThisContext),
                }
            },
            TradeTriggerState::Sextant { item_selections, is_forward } => match is_forward {
                None => {
                    if actor != responsible {
                        return Err(CommandError::NotYourTurn);
                    }
                    match c {
                        Command::SetSextantDirection { forward } => Ok(
                            TurnState::ResolvingTradeTrigger {
                                offerer,
                                target,
                                next_item,
                                trigger: TradeTriggerState::Sextant {
                                    item_selections: crate::model::copy_vec(item_selections),
                                    is_forward: Some(forward),
                                },
                            },
                        ),
                        _ => Err(CommandError::InvalidCommandInThisContext),
                    }
                },
                Some(forward) => match c {
                    Command::SelectSextantItem { item } => {
                        let seat = self.p.index_of(actor).unwrap();
                        if item_selections[seat].is_some() {
                            return Err(CommandError::InvalidCommandInThisContext);
                        }
                        if !holds(&self.state(actor).items, item) {
                            return Err(CommandError::InvalidItemError(item));
                        }
                        let mut sel = crate::model::copy_vec(item_selections);
                        sel.set(seat, Some(item));
                        if all_some(&sel) {
                            proof {
                                let t = old(self)@.players;
                                assert forall|i: int| 0 <= i < t.len() implies t[i].1.items.contains(
                                    (#[trigger] sel@[i]).unwrap(),
                                ) by {
                                    assert(sel@[i] is Some);
                                    if i != seat {
                                        assert(item_selections@[i] is Some);
                                    }
                                }
                            }
                            self.ring_pass(&sel, *forward);
                            let ghost t1 = self@.players;
                            let r = self.continue_trade(offerer, target, next_item);
                            proof {
                                lemma_same_seats(old(self)@.players, t1);
                                lemma_same_seats(t1, self@.players);
                            }
                            Ok(r)
                        } else {
                            proof {
                                let t = old(self)@.players;
                                assert forall|i: int|
                                    0 <= i < t.len() && (#[trigger] sel@[i]) is Some implies t[i].1.items.contains(
                                    sel@[i].unwrap(),
                                ) by {
                                    if i != seat {
                                        assert(item_selections@[i] is Some);
                                    }
                                }
                            }
                            Ok(
                                TurnState::ResolvingTradeTrigger {
                                    offerer,
                                    target,
                                    next_item,
                                    trigger: TradeTriggerState::Sextant {
                                        item_selections: sel,
                                        is_forward: Some(*forward),
                                    },
                                },
                            )
                        }
                    },
                    _ => Err(CommandError::InvalidCommandInThisContext),
                },
            },
        }
    }

    /// A forced donation by `donor`.
    fn donating(
        &mut self,
        donor: Player,
        followup: ItemDonationFollowup,
        actor: Player,
        c: Command,
    ) -> (r: Result<TurnState, CommandError>)
        requires
            game_wf(old(self)@),
            has_player(old(self)@.players, donor),
            followup matches ItemDonationFollowup::NextPlayer(p) ==> has_player(old(self)@.players, p),
            followup matches ItemDonationFollowup::TradeTriggers { offerer, target, .. } ==> {
                &&& has_player(old(self)@.players, offerer)
                &&& has_player(old(self)@.players, target)
                &&& offerer != target
            },
        ensures
            outcome(r, final(self)@) == step_donating(old(self)@, donor, followup, actor, c),
            r is Err ==> final(self)@ == old(self)@,
            game_wf(final(self)@),
            same_seats(old(self)@.players, final(self)@.players),
            r matches Ok(t) ==> wf(StateView { game: final(self)@, turn: t@ }),
    {
        proof {
            lemma_same_seats(old(self)@.players, old(self)@.players);
        }
        if actor != donor {
            return Err(CommandError::NotYourTurn);
        }
        match c {
            Command::DonateItem { target, item } => {
                if self.p.index_of(target).is_none() || target == donor {
                    return Err(CommandError::InvalidTargetPlayer);
                }
                if !holds(&self.state(donor).items, item) {
                    return Err(CommandError::InvalidItemError(item));
                }
                self.move_item(donor, target, item);
                proof {
                    lemma_same_seats(old(self)@.players, self@.players);
                }
                match followup {
                    ItemDonationFollowup::NextPlayer(p) => Ok(TurnState::WaitingForQuickblink(p)),
                    ItemDonationFollowup::TradeTriggers { offerer, target: tt, item: it } => {
                        let ghost t1 = self@.players;
                        let r = self.second_trigger(offerer, tt, it);
                        proof {
                            lemma_same_seats(t1, self@.players);
                        }
                        Ok(r)
                    },
                }
            },
            _ => Err(CommandError::InvalidCommandInThisContext),
        }
    }
}

/// The first vote cast by `x`, if any.
fn vote_index(votes: &Vec<(Player, AttackSupport)>, x: Player) -> (r: Option<usize>)
    ensures
        match r {
            Some(i) => voters(votes@).index_of_first(x) == Some(i as int) && i < votes@.len(),
            None => voters(votes@).index_of_first(x) is None,
        },
{
    let ghost vs = voters(votes@);
    let mut k: usize = 0;
    while k < votes.len()
        invariant
            k <= votes@.len(),
            vs == voters(votes@),
            forall|j: int| 0 <= j < k ==> vs[j] != x,
        decreases votes@.len() - k,
    {
        if votes[k].0 == x {
            proof {
                vs.index_of_first_ensures(x);
                assert(vs[k as int] == x);
            }
            return Some(k);
        }
        k = k + 1;
    }
    proof {
        vs.index_of_first_ensures(x);
        if vs.contains(x) {
            let j = choose|j: int| 0 <= j < vs.len() && vs[j] == x;
            assert(vs[j] != x);
        }
    }
    None
}

/// The total of votes and buffs.
fn score(votes: &Vec<(Player, AttackSupport)>, buffs: &Vec<Buff>) -> (r: i128)
    ensures
        r as int == attack_score(votes@, buffs@),
{
    let mut total: i128 = 0;
    let mut k: usize = 0;
    while k < buffs.len()
        invariant
            k <= buffs@.len(),
            total as int == buff_total(buffs@.subrange(0, k as int)),
            -128 * (k as int) <= total <= 127 * (k as int),
        decreases buffs@.len() - k,
    {
        assert(buffs@.subrange(0, k + 1).drop_last() =~= buffs@.subrange(0, k as int));
        total = total + buffs[k].raw_score as i128;
        k = k + 1;
    }
    assert(buffs@.subrange(0, k as int) =~= buffs@);
    let mut v: i128 = 0;
    let mut j: usize = 0;
    while j < votes.len()
        invariant
            j <= votes@.len(),
            v as int == vote_total(votes@.subrange(0, j as int)),
            -(j as int) <= v <= j as int,
        decreases votes@.len() - j,
    {
        assert(votes@.subrange(0, j + 1).drop_last() =~= votes@.subrange(0, j as int));
        v = v + votes[j].1.vote_value() as i128;
        j = j + 1;
    }
    assert(votes@.subrange(0, j as int) =~= votes@);
    total + v
}

fn buff_already_used(buffs: &Vec<Buff>, b: BuffSource) -> (r: bool)
    ensures
        r == buff_used(buffs@, b),
{
    let mut k: usize = 0;
    while k < buffs.len()
        invariant
            k <= buffs@.len(),
            forall|j: int| 0 <= j < k ==> buffs@[j].source != b,
        decreases buffs@.len() - k,
    {
        if buffs[k].source == b {
            return true;
        }
        k = k + 1;
    }
    false
}

fn abstain_all(votes: &Vec<(Player, AttackSupport)>) -> (r: Vec<(Player, AttackSupport)>)
    ensures
        r@ == all_abstain(votes@),
{
    let mut r: Vec<(Player, AttackSupport)> = Vec::new();
    let mut k: usize = 0;
    while k < votes.len()
        invariant
            k <= votes@.len(),
            r@ == all_abstain(votes@.subrange(0, k as int)),
        decreases votes@.len() - k,
    {
        r.push((votes[k].0, AttackSupport::Abstain));
        k = k + 1;
        assert(r@ =~= all_abstain(votes@.subrange(0, k as int)));
    }
    assert(votes@.subrange(0, k as int) =~= votes@);
    r
}

fn keep_principal(buffs: &Vec<Buff>, attacker: Player, defender: Player) -> (r: Vec<Buff>)
    ensures
        r@ == principal_buffs(buffs@, attacker, defender),
{
    let mut r: Vec<Buff> = Vec::new();
    let mut k: usize = 0;
    while k < buffs.len()
        invariant
            k <= buffs@.len(),
            r@ == principal_buffs(buffs@.subrange(0, k as int), attacker, defender),
        decreases buffs@.len() - k,
    {
        assert(buffs@.subrange(0, k + 1).drop_last() =~= buffs@.subrange(0, k as int));
        let b = buffs[k];
        if b.user == attacker || b.user == defender {
            r.push(b);
        }
        k = k + 1;
    }
    assert(buffs@.subrange(0, k as int) =~= buffs@);
    r
}

fn winner_of(attacker: Player, defender: Player, w: AttackWinner) -> (r: Player)
    ensures
        r == winner_player(attacker, defender, w),
{
    match w {
        AttackWinner::Attacker => attacker,
        AttackWinner::Defender => defender,
    }
}

impl GameState {
    /// `p` uses their job, which they may.
    fn spend_job(&mut self, p: Player)
        requires
            game_wf(old(self)@),
            has_player(old(self)@.players, p),
        ensures
            final(self)@ == use_job_of(old(self)@, p),
            game_wf(final(self)@),
            same_seats(old(self)@.players, final(self)@.players),
    {
        let mut st = self.state(p).duplicate();
        st.job_is_visible = true;
        self.set_state(p, st);
    }

    /// After `p` received an item: their donation if over the limit, else the next turn.
    fn after_receiving(&self, p: Player, attacker: Player) -> (r: TurnState)
        requires
            game_wf(self@),
            has_player(self@.players, p),
            has_player(self@.players, attacker),
        ensures
            (StateView { game: self@, turn: r@ }) == after_receiving(self@, p, attacker),
            wf(StateView { game: self@, turn: r@ }),
    {
        let next = self.next(attacker);
        proof {
            lemma_next_has(self@.players, attacker);
        }
        if self.state(p).items.len() > inventory_limit(self.p.len()) {
            TurnState::DonatingItem { donor: p, followup: ItemDonationFollowup::NextPlayer(next) }
        } else {
            TurnState::WaitingForQuickblink(next)
        }
    }

    fn tie(&mut self, attacker: Player) -> (r: TurnState)
        requires
            game_wf(old(self)@),
            has_player(old(self)@.players, attacker),
        ensures
            (StateView { game: final(self)@, turn: r@ }) == tie_outcome(old(self)@, attacker),
            game_wf(final(self)@),
            same_seats(old(self)@.players, final(self)@.players),
            wf(StateView { game: final(self)@, turn: r@ }),
    {
        proof {
            lemma_same_seats(old(self)@.players, old(self)@.players);
        }
        if self.item_stack.len() > 0 {
            self.draw(attacker);
            proof {
                lemma_same_seats(old(self)@.players, self@.players);
            }
            self.after_receiving(attacker, attacker)
        } else {
            proof {
                lemma_next_has(old(self)@.players, attacker);
            }
            TurnState::WaitingForQuickblink(self.next(attacker))
        }
    }

    /// `actor` plays an item or job `b` during an attack.
    fn buff_step(
        &mut self,
        attacker: Player,
        defender: Player,
        votes: &Vec<(Player, AttackSupport)>,
        buffs: &Vec<Buff>,
        actor: Player,
        b: BuffSource,
        target: Option<Player>,
    ) -> (r: Result<TurnState, CommandError>)
        requires
            game_wf(old(self)@),
            has_player(old(self)@.players, attacker),
            has_player(old(self)@.players, defender),
            attacker != defender,
            has_player(old(self)@.players, actor),
            votes_ok(old(self)@.players, attacker, defender, votes@),
        ensures
            outcome(r, final(self)@) == step_buff(
                old(self)@,
                attacker,
                defender,
                votes@,
                buffs@,
                actor,
                b,
                target,
            ),
            r is Err ==> final(self)@ == old(self)@,
            game_wf(final(self)@),
            same_seats(old(self)@.players, final(self)@.players),
            r matches Ok(t) ==> wf(StateView { game: final(self)@, turn: t@ }),
    {
        proof {
            lemma_same_seats(old(self)@.players, old(self)@.players);
        }
        let role = if actor == attacker {
            AttackRole::Attacker
        } else if actor == defender {
            AttackRole::Defender
        } else {
            match vote_index(votes, actor) {
                Some(i) => AttackRole::AttackSupport(votes[i].1),
                None => {
                    return Err(CommandError::YouAbstained);
                },
            }
        };
        let valid = match b {
            BuffSource::Job(x) => can_use(self.state(actor), x),
            BuffSource::Item(x) => holds(&self.state(actor).items, x),
        };
        if !valid {
            return match b {
                BuffSource::Job(_) => Err(CommandError::JobError),
                BuffSource::Item(x) => Err(CommandError::InvalidItemError(x)),
            };
        }
        if b == BuffSource::Job(Job::Doctor) {
            self.spend_job(actor);
            proof {
                lemma_same_seats(old(self)@.players, self@.players);
                lemma_next_has(self@.players, attacker);
            }
            return Ok(TurnState::WaitingForQuickblink(self.next(attacker)));
        }
        if b == BuffSource::Job(Job::PoisonMixer) {
            let winner = match target {
                Some(x) => {
                    if x == attacker {
                        AttackWinner::Attacker
                    } else if x == defender {
                        AttackWinner::Defender
                    } else {
                        return Err(CommandError::InvalidCommandInThisContext);
                    }
                },
                None => {
                    return Err(CommandError::InvalidCommandInThisContext);
                },
            };
            self.spend_job(actor);
            proof {
                lemma_same_seats(old(self)@.players, self@.players);
            }
            return Ok(
                TurnState::Attacking { attacker, defender, state: AttackState::Resolving { winner } },
            );
        }
        let raw = match b.raw_score(role) {
            Some(raw) => raw,
            None => {
                return Err(CommandError::InvalidCommandInThisContext);
            },
        };
        if buff_already_used(buffs, b) {
            return Err(CommandError::DuplicateBuffUsage);
        }
        if let BuffSource::Job(_) = b {
            self.spend_job(actor);
        }
        proof {
            lemma_same_seats(old(self)@.players, self@.players);
        }
        let duel = b == BuffSource::Job(Job::Duelist);
        let v2 = if duel {
            abstain_all(votes)
        } else {
            crate::model::copy_vec(votes)
        };
        assert(voters(v2@) =~= voters(votes@));
        let mut b2 = if duel {
            keep_principal(buffs, attacker, defender)
        } else {
            crate::model::copy_vec(buffs)
        };
        b2.push(Buff { user: actor, source: b, raw_score: raw });
        Ok(
            TurnState::Attacking {
                attacker,
                defender,
                state: AttackState::ItemsOrJobs { votes: v2, passed: Vec::new(), buffs: b2 },
            },
        )
    }
}

impl GameState {
    /// A command during an attack, by phase.
    fn attack_step(
        &mut self,
        attacker: Player,
        defender: Player,
        state: &AttackState,
        actor: Player,
        c: Command,
    ) -> (r: Result<TurnState, CommandError>)
        requires
            game_wf(old(self)@),
            has_player(old(self)@.players, attacker),
            has_player(old(self)@.players, defender),
            has_player(old(self)@.players, actor),
            attacker != defender,
            attack_wf(old(self)@.players, attacker, defender, state@),
        ensures
            outcome(r, final(self)@) == step_attack(
                old(self)@,
                attacker,
                defender,
                state@,
                actor,
                c,
            ),
            r is Err ==> final(self)@ == old(self)@,
            game_wf(final(self)@),
            same_seats(old(self)@.players, final(self)@.players),
            r matches Ok(t) ==> wf(StateView { game: final(self)@, turn: t@ }),
    {
        match state {
            AttackState::ItemsOrJobs { .. } => self.attack_items(attacker, defender, state, actor, c),
            AttackState::Resolving { .. } | AttackState::FinishResolving { .. } => self.attack_resolution(
                attacker,
                defender,
                state,
                actor,
                c,
            ),
            _ => self.attack_opening(attacker, defender, state, actor, c),
        }
    }

    /// The priest, voting and hypnotist phases of an attack.
    fn attack_opening(
        &mut self,
        attacker: Player,
        defender: Player,
        state: &AttackState,
        actor: Player,
        c: Command,
    ) -> (r: Result<TurnState, CommandError>)
        requires
            game_wf(old(self)@),
            has_player(old(self)@.players, attacker),
            has_player(old(self)@.players, defender),
            has_player(old(self)@.players, actor),
            attacker != defender,
            attack_wf(old(self)@.players, attacker, defender, state@),
            state is WaitingForPriest || state is PayingPriest || state is DeclaringSupport || state is WaitingForHypnotizer,
        ensures
            outcome(r, final(self)@) == step_attack(
                old(self)@,
                attacker,
                defender,
                state@,
                actor,
                c,
            ),
            r is Err ==> final(self)@ == old(self)@,
            game_wf(final(self)@),
            same_seats(old(self)@.players, final(self)@.players),
            r matches Ok(t) ==> wf(StateView { game: final(self)@, turn: t@ }),
    {
        proof {
            lemma_same_seats(old(self)@.players, old(self)@.players);
            lemma_next_has(old(self)@.players, attacker);
        }
        match state {
            AttackState::WaitingForPriest { passed } => match c {
                Command::UsePriest { priest: true } => {
                    if names(passed, actor) {
                        return Err(CommandError::YouHaveAlreadyPassed);
                    }
                    if !can_use(self.state(actor), Job::Priest) {
                        return Err(CommandError::JobError);
                    }
                    self.spend_job(actor);
                    proof {
                        lemma_same_seats(old(self)@.players, self@.players);
                    }
                    Ok(
                        TurnState::Attacking {
                            attacker,
                            defender,
                            state: AttackState::PayingPriest { priest: actor },
                        },
                    )
                },
                Command::UsePriest { priest: false } => {
                    let mut p2 = copy_players(passed);
                    if !names(passed, actor) {
                        p2.push(actor);
                    }
                    let next_state = if p2.len() == self.p.len() {
                        let sup = self.p.attack_supporters(attacker, defender);
                        if sup.len() == 0 {
                            AttackState::WaitingForHypnotizer(Vec::new())
                        } else {
                            let v0: Vec<(Player, AttackSupport)> = Vec::new();
                            assert(voters(v0@) =~= sup@.subrange(0, 0));
                            AttackState::DeclaringSupport(v0)
                        }
                    } else {
                        AttackState::WaitingForPriest { passed: p2 }
                    };
                    Ok(TurnState::Attacking { attacker, defender, state: next_state })
                },
                _ => Err(CommandError::InvalidCommandInThisContext),
            },
            AttackState::PayingPriest { priest } => {
                if actor != attacker {
                    return Err(CommandError::NotYourTurn);
                }
                match c {
                    Command::PayPriest { item } => {
                        if !holds(&self.state(attacker).items, item) {
                            return Err(CommandError::InvalidItemError(item));
                        }
                        self.move_item(attacker, *priest, item);
                        proof {
                            lemma_same_seats(old(self)@.players, self@.players);
                        }
                        Ok(self.after_receiving(*priest, attacker))
                    },
                    _ => Err(CommandError::InvalidCommandInThisContext),
                }
            },
            AttackState::DeclaringSupport(votes) => {
                let sup = self.p.attack_supporters(attacker, defender);
                if actor != sup[votes.len()] {
                    return Err(CommandError::NotYourTurn);
                }
                match c {
                    Command::DeclareSupport { support } => {
                        let mut v2 = crate::model::copy_vec(votes);
                        v2.push((actor, support));
                        proof {
                            lemma_supporters_distinct(old(self)@.players, attacker, defender);
                            assert(voters(v2@) =~= sup@.subrange(0, v2@.len() as int));
                            if v2@.len() == sup@.len() {
                                assert(sup@.subrange(0, v2@.len() as int) =~= sup@);
                            }
                        }
                        if v2.len() == sup.len() {
                            Ok(
                                TurnState::Attacking {
                                    attacker,
                                    defender,
                                    state: AttackState::WaitingForHypnotizer(v2),
                                },
                            )
                        } else {
                            Ok(
                                TurnState::Attacking {
                                    attacker,
                                    defender,
                                    state: AttackState::DeclaringSupport(v2),
                                },
                            )
                        }
                    },
                    _ => Err(CommandError::InvalidCommandInThisContext),
                }
            },
            AttackState::WaitingForHypnotizer(votes) => {
                if actor != attacker {
                    return Err(CommandError::NotYourTurn);
                }
                match c {
                    Command::Hypnotize { target: None } => Ok(
                        TurnState::Attacking {
                            attacker,
                            defender,
                            state: AttackState::ItemsOrJobs {
                                votes: crate::model::copy_vec(votes),
                                passed: Vec::new(),
                                buffs: Vec::new(),
                            },
                        },
                    ),
                    Command::Hypnotize { target: Some(x) } => match vote_index(votes, x) {
                        None => Err(CommandError::InvalidTargetPlayer),
                        Some(i) => {
                            if !can_use(self.state(actor), Job::Hypnotist) {
                                return Err(CommandError::JobError);
                            }
                            self.spend_job(actor);
                            proof {
                                lemma_same_seats(old(self)@.players, self@.players);
                            }
                            let mut v2 = crate::model::copy_vec(votes);
                            v2.set(i, (x, AttackSupport::Abstain));
                            proof {
                                votes@.map_values(|e: (Player, AttackSupport)| e.0).index_of_first_ensures(x);
                                assert(voters(v2@) =~= voters(votes@));
                            }
                            Ok(
                                TurnState::Attacking {
                                    attacker,
                                    defender,
                                    state: AttackState::ItemsOrJobs {
                                        votes: v2,
                                        passed: Vec::new(),
                                        buffs: Vec::new(),
                                    },
                                },
                            )
                        },
                    },
                    _ => Err(CommandError::InvalidCommandInThisContext),
                }
            },
            _ => Err(CommandError::InvalidCommandInThisContext),
        }
    }

    /// The phase in which participants play items and jobs, or pass.
    fn attack_items(
        &mut self,
        attacker: Player,
        defender: Player,
        state: &AttackState,
        actor: Player,
        c: Command,
    ) -> (r: Result<TurnState, CommandError>)
        requires
            game_wf(old(self)@),
            has_player(old(self)@.players, attacker),
            has_player(old(self)@.players, defender),
            has_player(old(self)@.players, actor),
            attacker != defender,
            attack_wf(old(self)@.players, attacker, defender, state@),
            state is ItemsOrJobs,
        ensures
            outcome(r, final(self)@) == step_attack(
                old(self)@,
                attacker,
                defender,
                state@,
                actor,
                c,
            ),
            r is Err ==> final(self)@ == old(self)@,
            game_wf(final(self)@),
            same_seats(old(self)@.players, final(self)@.players),
            r matches Ok(t) ==> wf(StateView { game: final(self)@, turn: t@ }),
    {
        proof {
            lemma_same_seats(old(self)@.players, old(self)@.players);
            lemma_next_has(old(self)@.players, attacker);
        }
        match state {
            AttackState::ItemsOrJobs { votes, passed, buffs } => {
                if names(passed, actor) {
                    return Err(CommandError::YouHaveAlreadyPassed);
                }
                match c {
                    Command::ItemOrJob { buff: None, target: _ } => {
                        let mut p2 = copy_players(passed);
                        p2.push(actor);
                        if p2.len() == self.p.len() {
                            let total = score(votes, buffs);
                            if total == 0 {
                                Ok(self.tie(attacker))
                            } else {
                                let winner = if total > 0 {
                                    AttackWinner::Attacker
                                } else {
                                    AttackWinner::Defender
                                };
                                Ok(
                                    TurnState::Attacking {
                                        attacker,
                                        defender,
                                        state: AttackState::Resolving { winner },
                                    },
                                )
                            }
                        } else {
                            Ok(
                                TurnState::Attacking {
                                    attacker,
                                    defender,
                                    state: AttackState::ItemsOrJobs {
                                        votes: crate::model::copy_vec(votes),
                                        passed: p2,
                                        buffs: crate::model::copy_vec(buffs),
                                    },
                                },
                            )
                        }
                    },
                    Command::ItemOrJob { buff: Some(b), target } => self.buff_step(
                        attacker,
                        defender,
                        votes,
                        buffs,
                        actor,
                        b,
                        target,
                    ),
                    _ => Err(CommandError::InvalidCommandInThisContext),
                }
            },
            _ => Err(CommandError::InvalidCommandInThisContext),
        }
    }

    /// The winner claims and collects the reward.
    fn attack_resolution(
        &mut self,
        attacker: Player,
        defender: Player,
        state: &AttackState,
        actor: Player,
        c: Command,
    ) -> (r: Result<TurnState, CommandError>)
        requires
            game_wf(old(self)@),
            has_player(old(self)@.players, attacker),
            has_player(old(self)@.players, defender),
            has_player(old(self)@.players, actor),
            attacker != defender,
            attack_wf(old(self)@.players, attacker, defender, state@),
            state is Resolving || state is FinishResolving,
        ensures
            outcome(r, final(self)@) == step_attack(
                old(self)@,
                attacker,
                defender,
                state@,
                actor,
                c,
            ),
            r is Err ==> final(self)@ == old(self)@,
            game_wf(final(self)@),
            same_seats(old(self)@.players, final(self)@.players),
            r matches Ok(t) ==> wf(StateView { game: final(self)@, turn: t@ }),
    {
        proof {
            lemma_same_seats(old(self)@.players, old(self)@.players);
            lemma_next_has(old(self)@.players, attacker);
        }
        match state {
            AttackState::Resolving { winner } => {
                if actor != winner_of(attacker, defender, *winner) {
                    return Err(CommandError::NotYourTurn);
                }
                match c {
                    Command::ClaimReward { steal_items } => Ok(
                        TurnState::Attacking {
                            attacker,
                            defender,
                            state: AttackState::FinishResolving { winner: *winner, steal_items },
                        },
                    ),
                    _ => Err(CommandError::InvalidCommandInThisContext),
                }
            },
            AttackState::FinishResolving { winner, steal_items } => {
                let w = winner_of(attacker, defender, *winner);
                let l = winner_of(defender, attacker, *winner);
                if actor != w {
                    return Err(CommandError::NotYourTurn);
                }
                match c {
                    Command::DoneLookingAtThings => {
                        if !*steal_items {
                            Ok(TurnState::WaitingForQuickblink(self.next(attacker)))
                        } else {
                            Err(CommandError::InvalidCommandInThisContext)
                        }
                    },
                    Command::StealItem { item, give_back } => {
                        if !*steal_items {
                            return Err(CommandError::InvalidCommandInThisContext);
                        }
                        self.steal(attacker, w, l, item, give_back)
                    },
                    _ => Err(CommandError::InvalidCommandInThisContext),
                }
            },
            _ => Err(CommandError::InvalidCommandInThisContext),
        }
    }

    /// The winner `w` takes `item` from the loser `l`, handing back `give_back`.
    #[verifier::rlimit(40)]
    fn steal(&mut self, attacker: Player, w: Player, l: Player, item: Item, give_back: Option<Item>) -> (r:
        Result<TurnState, CommandError>)
        requires
            game_wf(old(self)@),
            has_player(old(self)@.players, attacker),
            has_player(old(self)@.players, w),
            has_player(old(self)@.players, l),
            w != l,
        ensures
            ({
                let t = old(self)@.players;
                outcome(r, final(self)@) == if (give_back is Some) != (items_of(t, l).len() == 1) {
                    Err(CommandError::InvalidStealCommand)
                } else if !items_of(t, l).contains(item) {
                    Err(CommandError::InvalidStealCommand)
                } else if give_back matches Some(gb) && !items_of(t, w).push(item).contains(gb) {
                    Err(CommandError::InvalidStealCommand)
                } else {
                    let t2 = steal_table(t, w, l, item, give_back);
                    Ok(after_receiving(GameView { players: t2, ..old(self)@ }, w, attacker))
                }
            }),
            r is Err ==> final(self)@ == old(self)@,
            game_wf(final(self)@),
            same_seats(old(self)@.players, final(self)@.players),
            r matches Ok(t) ==> wf(StateView { game: final(self)@, turn: t@ }),
    {
        proof {
            lemma_same_seats(old(self)@.players, old(self)@.players);
        }
        let ghost t = old(self)@.players;
        let lcount = self.state(l).items.len();
        if give_back.is_some() != (lcount == 1) {
            return Err(CommandError::InvalidStealCommand);
        }
        if !holds(&self.state(l).items, item) {
            return Err(CommandError::InvalidStealCommand);
        }
        let ghost w0 = items_of(t, w);
        let ghost l0 = items_of(t, l);
        let mut wi = crate::model::copy_vec(&self.state(w).items);
        wi.push(item);
        assert(wi@ == w0.push(item));
        let mut li = crate::model::copy_vec(&self.state(l).items);
        let li_idx = position_of(&li, item).unwrap();
        li.remove(li_idx);
        assert(li@ == l0.remove_value(item));
        if let Some(gb) = give_back {
            match position_of(&wi, gb) {
                Some(gi) => {
                    wi.remove(gi);
                    assert(wi@ == w0.push(item).remove_value(gb));
                },
                None => {
                    return Err(CommandError::InvalidStealCommand);
                },
            }
            li.push(gb);
        }
        proof {
            assert((wi@, li@) == steal_result(w0, l0, item, give_back));
        }
        let mut ws = self.state(w).duplicate();
        ws.items = wi;
        self.set_state(w, ws);
        let ghost t1 = self@.players;
        proof {
            lemma_with_state(t, w, ws@);
        }
        let mut ls = self.state(l).duplicate();
        ls.items = li;
        self.set_state(l, ls);
        proof {
            lemma_with_state(t1, l, ls@);
            lemma_same_seats(t, t1);
            lemma_same_seats(t1, self@.players);
        }
        Ok(self.after_receiving(w, attacker))
    }
}

impl State {
    /// Applies `c`, sent by `actor`, to the game. On error nothing changes.
    pub fn apply_command(&mut self, actor: Player, c: Command) -> (r: Result<(), CommandError>)
        requires
            wf(old(self)@),
        ensures
            match r {
                Ok(()) => step(old(self)@, actor, c) == Ok::<StateView, CommandError>(final(self)@),
                Err(e) => step(old(self)@, actor, c) == Err::<StateView, CommandError>(e),
            },
            r is Err ==> final(self)@ == old(self)@,
            r is Ok ==> wf(final(self)@),
    {
        let res = match &self.turn {
            TurnState::GameOver { .. } => Err(CommandError::GameOver),
            TurnState::WaitingForQuickblink(p) => {
                if self.game.p.index_of(actor).is_none() {
                    Err(CommandError::NotYourTurn)
                } else {
                    self.game.turn_start(*p, actor, c)
                }
            },
            TurnState::TradePending { offerer, target, item } => {
                if self.game.p.index_of(actor).is_none() {
                    Err(CommandError::NotYourTurn)
                } else {
                    self.game.trade_pending(*offerer, *target, *item, actor, c)
                }
            },
            TurnState::ResolvingTradeTrigger { offerer, target, next_item, trigger } => {
                if self.game.p.index_of(actor).is_none() {
                    Err(CommandError::NotYourTurn)
                } else {
                    self.game.trigger_step(*offerer, *target, *next_item, trigger, actor, c)
                }
            },
            TurnState::Attacking { attacker, defender, state } => {
                if self.game.p.index_of(actor).is_none() {
                    Err(CommandError::NotYourTurn)
                } else {
                    self.game.attack_step(*attacker, *defender, state, actor, c)
                }
            },
            TurnState::DonatingItem { donor, followup } => {
                if self.game.p.index_of(actor).is_none() {
                    Err(CommandError::NotYourTurn)
                } else {
                    self.game.donating(*donor, *followup, actor, c)
                }
            },
        };
        match res {
            Ok(t) => {
                self.turn = t;
                Ok(())
            },
            Err(e) => Err(e),
        }
    }
}

/// A copy of an attack state.
fn copy_attack_state(s: &AttackState) -> (r: AttackState)
    ensures
        r@ == s@,
{
    match s {
        AttackState::WaitingForPriest { passed } => AttackState::WaitingForPriest {
            passed: copy_players(passed),
        },
        AttackState::PayingPriest { priest } => AttackState::PayingPriest { priest: *priest },
        AttackState::DeclaringSupport(v) => AttackState::DeclaringSupport(crate::model::copy_vec(v)),
        AttackState::WaitingForHypnotizer(v) => AttackState::WaitingForHypnotizer(
            crate::model::copy_vec(v),
        ),
        AttackState::ItemsOrJobs { votes, passed, buffs } => AttackState::ItemsOrJobs {
            votes: crate::model::copy_vec(votes),
            passed: copy_players(passed),
            buffs: crate::model::copy_vec(buffs),
        },
        AttackState::Resolving { winner } => AttackState::Resolving { winner: *winner },
        AttackState::FinishResolving { winner, steal_items } => AttackState::FinishResolving {
            winner: *winner,
            steal_items: *steal_items,
        },
    }
}

impl State {
    /// A game with the given seating, piles and turn. A player listed twice
    /// keeps the first seat and the last state.
    pub fn from_parts(
        players: Vec<(Player, PlayerState)>,
        item_stack: Vec<Item>,
        job_stack: Vec<Job>,
        turn: TurnState,
    ) -> (r: State)
        ensures
            keys_unique(r@.game.players),
            keys_unique(view_entries(players@)) ==> r@.game.players == view_entries(players@),
            r@.game.item_stack == item_stack@,
            r@.game.job_stack == job_stack@,
            r@.turn == turn@,
    {
        State {
            game: GameState { p: GameStatePlayers::from_entries(&players), item_stack, job_stack },
            turn,
        }
    }

    /// The state of player `p`.
    pub fn player(&self, p: Player) -> (r: &PlayerState)
        requires
            keys_unique(self@.game.players),
            has_player(self@.game.players, p),
        ensures
            r@ == state_of(self@.game.players, p),
    {
        self.game.p.player(p)
    }

    /// Replaces the state of player `p`.
    pub fn set_player(&mut self, p: Player, v: PlayerState)
        requires
            keys_unique(old(self)@.game.players),
            has_player(old(self)@.game.players, p),
        ensures
            final(self)@ == (StateView {
                game: GameView {
                    players: with_state(old(self)@.game.players, p, v@),
                    ..old(self)@.game
                },
                ..old(self)@
            }),
    {
        let i = self.game.p.index_of(p).unwrap();
        proof {
            lemma_seat_exists_of(old(self)@.game.players, p);
        }
        self.game.p.set(i, v);
    }

    /// The draw pile, drawn from its end.
    pub fn item_stack(&self) -> (r: &Vec<Item>)
        ensures
            r@ == self@.game.item_stack,
    {
        &self.game.item_stack
    }

    /// The jobs nobody holds.
    pub fn job_stack(&self) -> (r: &Vec<Job>)
        ensures
            r@ == self@.game.job_stack,
    {
        &self.game.job_stack
    }

    /// The players in turn order.
    pub fn players(&self) -> (r: Vec<Player>)
        ensures
            r@ == self@.game.players.map_values(|e: (Player, PlayerView)| e.0),
    {
        let n = self.game.p.len();
        let mut r: Vec<Player> = Vec::new();
        let mut i: usize = 0;
        while i < n
            invariant
                n == self@.game.players.len(),
                i <= n,
                r@ == self@.game.players.subrange(0, i as int).map_values(
                    |e: (Player, PlayerView)| e.0,
                ),
            decreases n - i,
        {
            r.push(self.game.p.key(i));
            i = i + 1;
            assert(r@ =~= self@.game.players.subrange(0, i as int).map_values(
                |e: (Player, PlayerView)| e.0,
            ));
        }
        assert(self@.game.players.subrange(0, n as int) =~= self@.game.players);
        r
    }

    /// What player `viewer` may see of the game.
    pub fn perspective(&self, viewer: Player) -> (r: Perspective)
        requires
            wf(self@),
            has_player(self@.game.players, viewer),
        ensures
            r.you@ == state_of(self@.game.players, viewer),
            r.your_player_index == seat_of(self@.game.players, viewer),
            r.players@ == public_players(self@.game.players),
            r.item_stack == self@.game.item_stack.len(),
            r.turn@ == perspective_turn(self@, viewer),
    {
        let ghost t = self@.game.players;
        let you = self.game.p.player(viewer).duplicate();
        let your_player_index = self.game.p.index_of(viewer).unwrap();
        let n = self.game.p.len();
        let mut players: Vec<PerspectivePlayer> = Vec::new();
        let mut i: usize = 0;
        while i < n
            invariant
                t == self@.game.players,
                n == t.len(),
                i <= n,
                players@ == public_players(t.subrange(0, i as int)),
            decreases n - i,
        {
            let st = self.game.p.get(i);
            let job = if st.job_is_visible {
                Some(st.job)
            } else {
                None
            };
            players.push(
                PerspectivePlayer { player: self.game.p.key(i), job, item_count: st.items.len() },
            );
            i = i + 1;
            assert(players@ =~= public_players(t.subrange(0, i as int)));
        }
        assert(t.subrange(0, n as int) =~= t);
        let turn = self.perspective_turn(viewer);
        Perspective {
            you,
            your_player_index,
            players,
            item_stack: self.game.item_stack.len(),
            turn,
        }
    }

    fn perspective_turn(&self, viewer: Player) -> (r: PerspectiveTurnState)
        requires
            wf(self@),
            has_player(self@.game.players, viewer),
        ensures
            r@ == perspective_turn(self@, viewer),
    {
        match &self.turn {
            TurnState::WaitingForQuickblink(p) => PerspectiveTurnState::TurnStart { player: *p },
            TurnState::GameOver { winner } => PerspectiveTurnState::GameOver { winner: *winner },
            TurnState::TradePending { offerer, target, item } => PerspectiveTurnState::TradePending {
                offerer: *offerer,
                target: *target,
                item: if *target == viewer {
                    Some(*item)
                } else {
                    None
                },
            },
            TurnState::ResolvingTradeTrigger { offerer, target, next_item, trigger } => {
                let (relevant, other) = if next_item.is_some() {
                    (*offerer, *target)
                } else {
                    (*target, *offerer)
                };
                let seen = match trigger {
                    TradeTriggerState::Priviledge => PerspectiveTradeTriggerState::Priviledge {
                        items: if relevant == viewer {
                            Some(crate::model::copy_vec(&self.game.p.player(other).items))
                        } else {
                            None
                        },
                    },
                    TradeTriggerState::Monocle => PerspectiveTradeTriggerState::Monocle {
                        faction: if relevant == viewer {
                            Some(self.game.p.player(other).faction)
                        } else {
                            None
                        },
                    },
                    TradeTriggerState::Coat => PerspectiveTradeTriggerState::Coat {
                        available_jobs: if relevant == viewer {
                            Some(crate::model::copy_vec(&self.game.job_stack))
                        } else {
                            None
                        },
                    },
                    TradeTriggerState::Sextant { item_selections, is_forward } => {
                        let seat = self.game.p.index_of(viewer).unwrap();
                        let mut own: Vec<Option<Item>> = Vec::new();
                        let mut k: usize = 0;
                        while k < item_selections.len()
                            invariant
                                k <= item_selections@.len(),
                                own@ == own_selection(item_selections@, seat as int).subrange(
                                    0,
                                    k as int,
                                ),
                            decreases item_selections@.len() - k,
                        {
                            if k == seat {
                                own.push(item_selections[k]);
                            } else {
                                own.push(None);
                            }
                            k = k + 1;
                            assert(own@ =~= own_selection(item_selections@, seat as int).subrange(
                                0,
                                k as int,
                            ));
                        }
                        assert(own@ =~= own_selection(item_selections@, seat as int));
                        PerspectiveTradeTriggerState::Sextant {
                            item_selections: own,
                            is_forward: *is_forward,
                        }
                    },
                };
                PerspectiveTurnState::ResolvingTradeTrigger {
                    offerer: *offerer,
                    target: *target,
                    is_first_item: next_item.is_some(),
                    trigger: seen,
                }
            },
            TurnState::Attacking { attacker, defender, state } => {
                let seen = match state {
                    AttackState::FinishResolving { winner, steal_items } => {
                        if viewer == winner_of(*attacker, *defender, *winner) {
                            let victim = self.game.p.player(winner_of(*defender, *attacker, *winner));
                            if *steal_items {
                                PerspectiveAttackState::FinishResolvingItems {
                                    target_items: crate::model::copy_vec(&victim.items),
                                }
                            } else {
                                PerspectiveAttackState::FinishResolvingCredentials {
                                    target_faction: victim.faction,
                                    target_job: victim.job,
                                }
                            }
                        } else {
                            PerspectiveAttackState::Normal(copy_attack_state(state))
                        }
                    },
                    _ => PerspectiveAttackState::Normal(copy_attack_state(state)),
                };
                PerspectiveTurnState::Attacking { attacker: *attacker, defender: *defender, state: seen }
            },
            TurnState::DonatingItem { donor, .. } => PerspectiveTurnState::DonatingItem {
                donor: *donor,
            },
        }
    }
}

proof fn lemma_seat_exists_of(t: Table, p: Player)
    requires
        has_player(t, p),
    ensures
        0 <= seat_of(t, p) < t.len(),
        t[seat_of(t, p)].0 == p,
{
}

} // verus!
