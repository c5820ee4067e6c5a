//! General properties of the rules, proved over the transition function.
use vstd::multiset::Multiset;
use vstd::prelude::*;

use crate::model::{opponent_of, Item, Player, PlayerView};
use crate::perspective::{perspective_turn, trigger_parties};
use crate::protocol::{
    AttackView, Command, CommandError, PTriggerView, PTurnView, TriggerView, TurnView,
};
use crate::roster::{
    has_player, items_of, keys_unique, lemma_same_seats, lemma_seat, lemma_with_state, next_of,
    same_seats, seat_of, state_of, with_state, Table,
};
use crate::rules::{
    at, attack_score, continue_trade, draw, may_act, move_item, ring_pass, ring_source,
    second_trigger, steal_result, steal_table, step, swap_items, team_wins, trade_trigger, wf,
    with_items, GameView, StateView,
};

verus! {

/// The state after `k` passes, each by the player whose turn it is.
pub open spec fn passes(s: StateView, k: nat) -> StateView
    decreases k,
{
    if k == 0 {
        s
    } else {
        let s1 = passes(s, (k - 1) as nat);
        match s1.turn {
            TurnView::WaitingForQuickblink(p) => match step(s1, p, Command::Pass) {
                Ok(s2) => s2,
                Err(_) => s1,
            },
            _ => s1,
        }
    }
}

/// Passing moves the turn through the seats in their fixed order, forever:
/// after `k` passes from seat `i` the turn is at seat `(i + k) mod n`, and
/// nothing else has changed.
pub proof fn law_pass_cycles(s: StateView, i: int, k: nat)
    requires
        wf(s),
        0 <= i < s.game.players.len(),
        s.turn == TurnView::WaitingForQuickblink(s.game.players[i].0),
    ensures
        passes(s, k) == at(
            s.game,
            TurnView::WaitingForQuickblink(
                s.game.players[(i + k) % (s.game.players.len() as int)].0,
            ),
        ),
    decreases k,
{
    let t = s.game.players;
    let n = t.len() as int;
    if k == 0 {
        vstd::arithmetic::div_mod::lemma_small_mod(i as nat, n as nat);
    } else {
        law_pass_cycles(s, i, (k - 1) as nat);
        let j = (i + k - 1) % n;
        assert(0 <= j < n) by {
            vstd::arithmetic::div_mod::lemma_mod_bound(i + k - 1, n);
        };
        let p = t[j].0;
        lemma_seat(t, p, j);
        assert((j + 1) % n == (i + k) % n) by {
            vstd::arithmetic::div_mod::lemma_add_mod_noop(i + k - 1, 1, n);
            vstd::arithmetic::div_mod::lemma_small_mod(1, n as nat);
        };
    }
}

/// A player who may not act in the current state is refused with "not your
/// turn" (and `apply_command` then leaves the game unchanged).
pub proof fn law_wrong_actor(s: StateView, actor: Player, c: Command)
    requires
        wf(s),
        !(s.turn is GameOver),
        !may_act(s, actor),
    ensures
        step(s, actor, c) == Err::<StateView, CommandError>(CommandError::NotYourTurn),
{
}

/// Announcing victory ends the game: won by the actor's faction when the
/// team holds, lost to the other faction otherwise.
pub proof fn law_victory(s: StateView, actor: Player, teammates: Vec<Player>)
    requires
        wf(s),
        s.turn == TurnView::WaitingForQuickblink(actor),
        !items_of(s.game.players, actor).contains(Item::BlackPearl),
        forall|i: int| 0 <= i < teammates@.len() ==> has_player(s.game.players, #[trigger] teammates@[i]),
    ensures
        step(s, actor, Command::AnnounceVictory { teammates }) == Ok::<StateView, CommandError>(
            at(
                s.game,
                TurnView::GameOver {
                    winner: if team_wins(s.game, actor, teammates@) {
                        state_of(s.game.players, actor).faction
                    } else {
                        opponent_of(state_of(s.game.players, actor).faction)
                    },
                },
            ),
        ),
{
}

/// While a credential-viewing trigger is pending, only the entitled player
/// sees the other party's inventory or faction; everybody else sees nothing.
pub proof fn law_trigger_privacy(
    s: StateView,
    offerer: Player,
    target: Player,
    next_item: Option<Item>,
    trigger: TriggerView,
    viewer: Player,
)
    requires
        wf(s),
        s.turn == (TurnView::ResolvingTradeTrigger { offerer, target, next_item, trigger }),
        trigger is Priviledge || trigger is Monocle,
    ensures
        ({
            let relevant = trigger_parties(offerer, target, next_item).0;
            match perspective_turn(s, viewer) {
                PTurnView::ResolvingTradeTrigger { trigger, .. } => match trigger {
                    PTriggerView::Priviledge { items } => (items is Some <==> viewer == relevant),
                    PTriggerView::Monocle { faction } => (faction is Some <==> viewer == relevant),
                    _ => false,
                },
                _ => false,
            }
        }),
{
}

/// When the last participant passes and the score is exactly zero, nobody
/// wins: the attacker's turn ends, after a draw from the pile and, if that
/// overfills the attacker's hand, a donation.
pub proof fn law_tie_has_no_winner(
    s: StateView,
    attacker: Player,
    defender: Player,
    votes: Seq<(Player, crate::protocol::AttackSupport)>,
    passed: Seq<Player>,
    buffs: Seq<crate::protocol::Buff>,
    actor: Player,
)
    requires
        wf(s),
        has_player(s.game.players, actor),
        s.turn == (TurnView::Attacking {
            attacker,
            defender,
            state: AttackView::ItemsOrJobs { votes, passed, buffs },
        }),
        !passed.contains(actor),
        passed.len() + 1 == s.game.players.len(),
        attack_score(votes, buffs) == 0,
    ensures
        ({
            let next = next_of(s.game.players, attacker);
            match step(s, actor, Command::ItemOrJob { buff: None, target: None }) {
                Ok(s2) => s2.turn == TurnView::WaitingForQuickblink(next) || s2.turn
                    == TurnView::DonatingItem {
                    donor: attacker,
                    followup: crate::protocol::ItemDonationFollowup::NextPlayer(next),
                },
                Err(_) => false,
            }
        }),
{
    let t = s.game.players;
    if s.game.item_stack.len() > 0 {
        let v = with_items(state_of(t, attacker), items_of(t, attacker).push(s.game.item_stack.last()));
        lemma_with_state(t, attacker, v);
    }
}

} // verus!

verus! {

/// All items in the players' hands.
pub open spec fn hand_items(t: Table) -> Multiset<Item>
    decreases t.len(),
{
    if t.len() == 0 {
        Multiset::empty()
    } else {
        hand_items(t.drop_last()).add(t.last().1.items.to_multiset())
    }
}

/// All items of the game: hands and draw pile.
pub open spec fn all_items(g: GameView) -> Multiset<Item> {
    hand_items(g.players).add(g.item_stack.to_multiset())
}

proof fn lemma_hand_update(t: Table, i: int, e: (Player, PlayerView))
    requires
        0 <= i < t.len(),
    ensures
        hand_items(t.update(i, e)).add(t[i].1.items.to_multiset()) =~= hand_items(t).add(
            e.1.items.to_multiset(),
        ),
    decreases t.len(),
{
    broadcast use vstd::multiset::group_multiset_axioms;

    let u = t.update(i, e);
    assert(hand_items(u) == hand_items(u.drop_last()).add(u.last().1.items.to_multiset()));
    assert(hand_items(t) == hand_items(t.drop_last()).add(t.last().1.items.to_multiset()));
    let old_m = t[i].1.items.to_multiset();
    let new_m = e.1.items.to_multiset();
    if i == t.len() - 1 {
        assert(u.drop_last() =~= t.drop_last());
        assert(u.last().1.items.to_multiset() == new_m);
    } else {
        let d = t.drop_last();
        assert(u.drop_last() =~= d.update(i, e));
        assert(u.last() == t.last());
        assert(d[i] == t[i]);
        lemma_hand_update(d, i, e);
        let lm = t.last().1.items.to_multiset();
        assert forall|y: Item|
            hand_items(u).add(old_m).count(y) == hand_items(t).add(new_m).count(y) by {
            assert(hand_items(d.update(i, e)).add(old_m).count(y) == hand_items(d).add(new_m).count(
                y,
            ));
        }
    }
}

/// Replacing a hand changes the total by exactly the two hands' difference.
proof fn lemma_hand_with_state(t: Table, p: Player, v: PlayerView)
    requires
        keys_unique(t),
        has_player(t, p),
    ensures
        hand_items(with_state(t, p, v)).add(items_of(t, p).to_multiset()) =~= hand_items(t).add(
            v.items.to_multiset(),
        ),
{
    lemma_hand_update(t, seat_of(t, p), (p, v));
}

/// Handing over an item neither creates nor destroys one (donations, paying the priest).
pub proof fn law_handover_conserves(t: Table, p: Player, q: Player, item: Item)
    requires
        keys_unique(t),
        has_player(t, p),
        has_player(t, q),
        items_of(t, p).contains(item),
    ensures
        hand_items(move_item(t, p, q, item)) == hand_items(t),
        items_of(move_item(t, p, q, item), q).last() == item,
{
    broadcast use vstd::multiset::group_multiset_axioms, vstd::seq_lib::group_to_multiset_ensures;

    let a = items_of(t, p);
    let v1 = with_items(state_of(t, p), a.remove_value(item));
    let t1 = with_state(t, p, v1);
    lemma_hand_with_state(t, p, v1);
    lemma_with_state(t, p, v1);
    let b = items_of(t1, q);
    let v2 = with_items(state_of(t1, q), b.push(item));
    lemma_hand_with_state(t1, q, v2);
    lemma_with_state(t1, q, v2);
    a.index_of_first_ensures(item);
    let k = a.index_of_first(item).unwrap();
    a.to_multiset_ensures();
    b.to_multiset_ensures();
    assert(a.remove_value(item).to_multiset() =~= a.to_multiset().remove(item));
    assert(b.push(item).to_multiset() =~= b.to_multiset().insert(item));
    let h = hand_items(t);
    let h1 = hand_items(t1);
    let h2 = hand_items(move_item(t, p, q, item));
    assert(a.to_multiset().count(item) > 0);
    assert forall|y: Item| h2.count(y) == h.count(y) by {
        assert(h1.add(a.to_multiset()).count(y) == h.add(a.remove_value(item).to_multiset()).count(
            y,
        ));
        assert(h2.add(b.to_multiset()).count(y) == h1.add(b.push(item).to_multiset()).count(y));
    }
    assert(h2 =~= h);
}

/// Accepting a trade swaps the two items by position: each takes the other's
/// first place, and the total of all hands is unchanged.
pub proof fn law_trade_swaps(t: Table, offerer: Player, target: Player, item: Item, item2: Item)
    requires
        keys_unique(t),
        has_player(t, offerer),
        has_player(t, target),
        offerer != target,
        items_of(t, offerer).contains(item),
        items_of(t, target).contains(item2),
    ensures
        ({
            let t2 = swap_items(t, offerer, target, item, item2);
            let a = items_of(t, offerer);
            let b = items_of(t, target);
            &&& items_of(t2, offerer) == a.update(a.index_of_first(item).unwrap(), item2)
            &&& items_of(t2, target) == b.update(b.index_of_first(item2).unwrap(), item)
            &&& hand_items(t2) == hand_items(t)
        }),
{
    broadcast use vstd::multiset::group_multiset_axioms, vstd::seq_lib::group_to_multiset_ensures;

    let a = items_of(t, offerer);
    let io = a.index_of_first(item).unwrap();
    a.index_of_first_ensures(item);
    let v1 = with_items(state_of(t, offerer), a.update(io, item2));
    let t1 = with_state(t, offerer, v1);
    lemma_with_state(t, offerer, v1);
    lemma_hand_with_state(t, offerer, v1);
    let b = items_of(t1, target);
    assert(b == items_of(t, target));
    let it = b.index_of_first(item2).unwrap();
    b.index_of_first_ensures(item2);
    let v2 = with_items(state_of(t1, target), b.update(it, item));
    lemma_with_state(t1, target, v2);
    lemma_hand_with_state(t1, target, v2);
    a.to_multiset_ensures();
    b.to_multiset_ensures();
    assert(a.update(io, item2).to_multiset() =~= a.to_multiset().remove(item).insert(item2));
    assert(b.update(it, item).to_multiset() =~= b.to_multiset().remove(item2).insert(item));
    let t2 = swap_items(t, offerer, target, item, item2);
    let h = hand_items(t);
    let h1 = hand_items(t1);
    let h2 = hand_items(t2);
    assert(a.to_multiset().count(item) > 0);
    assert(b.to_multiset().count(item2) > 0);
    assert forall|y: Item| h2.count(y) == h.count(y) by {
        assert(h1.add(a.to_multiset()).count(y) == h.add(a.update(io, item2).to_multiset()).count(
            y,
        ));
        assert(h2.add(b.to_multiset()).count(y) == h1.add(b.update(it, item).to_multiset()).count(
            y,
        ));
    }
    assert(h2 =~= h);
}

} // verus!

verus! {

proof fn lemma_hand_exchange(t1: Table, t2: Table, out: Seq<Item>, inn: Seq<Item>)
    requires
        t1.len() == t2.len(),
        out.len() == t1.len(),
        inn.len() == t1.len(),
        forall|i: int|
            0 <= i < t1.len() ==> (#[trigger] t2[i]).1.items.to_multiset().insert(out[i])
                == t1[i].1.items.to_multiset().insert(inn[i]),
    ensures
        hand_items(t2).add(out.to_multiset()) =~= hand_items(t1).add(inn.to_multiset()),
    decreases t1.len(),
{
    broadcast use vstd::multiset::group_multiset_axioms, vstd::seq_lib::group_to_multiset_ensures;

    if t1.len() > 0 {
        let k = t1.len() - 1;
        assert forall|i: int| 0 <= i < k implies (#[trigger] t2.drop_last()[i]).1.items.to_multiset().insert(
            out.drop_last()[i],
        ) == t1.drop_last()[i].1.items.to_multiset().insert(inn.drop_last()[i]) by {
            assert(t2.drop_last()[i] == t2[i]);
        }
        lemma_hand_exchange(t1.drop_last(), t2.drop_last(), out.drop_last(), inn.drop_last());
        assert(out.drop_last().push(out.last()) =~= out);
        assert(inn.drop_last().push(inn.last()) =~= inn);
        assert(t2[k] == t2.last());
        let h1 = hand_items(t1.drop_last());
        let h2 = hand_items(t2.drop_last());
        assert forall|y: Item|
            hand_items(t2).add(out.to_multiset()).count(y) == hand_items(t1).add(
                inn.to_multiset(),
            ).count(y) by {
            assert(h2.add(out.drop_last().to_multiset()).count(y) == h1.add(
                inn.drop_last().to_multiset(),
            ).count(y));
            assert(t2[k].1.items.to_multiset().insert(out[k]).count(y) == t1[k].1.items.to_multiset().insert(
                inn[k],
            ).count(y));
        }
    }
}

/// The selections as items, seat by seat.
pub open spec fn selected_items(sel: Seq<Option<Item>>) -> Seq<Item> {
    sel.map_values(|o: Option<Item>| o.unwrap())
}

/// The sextant's ring pass moves every selected item exactly one seat in the
/// chosen direction, all at once: each seat loses its own selection, gains
/// its neighbour's, and no item is created or lost.
pub proof fn law_ring_pass(t: Table, sel: Seq<Option<Item>>, forward: bool)
    requires
        t.len() > 0,
        sel.len() == t.len(),
        forall|i: int| 0 <= i < sel.len() ==> (#[trigger] sel[i]) is Some,
        forall|i: int| 0 <= i < t.len() ==> t[i].1.items.contains((#[trigger] sel[i]).unwrap()),
    ensures
        ring_pass(t, sel, forward).len() == t.len(),
        forall|i: int|
            0 <= i < t.len() ==> {
                &&& (#[trigger] ring_pass(t, sel, forward)[i]).0 == t[i].0
                &&& ring_pass(t, sel, forward)[i].1.items.drop_last() == t[i].1.items.remove_value(
                    sel[i].unwrap(),
                )
                &&& ring_pass(t, sel, forward)[i].1.items.last() == sel[ring_source(
                    t.len() as int,
                    i,
                    forward,
                )].unwrap()
            },
        hand_items(ring_pass(t, sel, forward)) == hand_items(t),
{
    broadcast use vstd::multiset::group_multiset_axioms, vstd::seq_lib::group_to_multiset_ensures;

    let n = t.len() as int;
    let r = ring_pass(t, sel, forward);
    let out = selected_items(sel);
    let inn = Seq::new(t.len(), |i: int| sel[ring_source(n, i, forward)].unwrap());
    assert forall|i: int| 0 <= i < n implies 0 <= #[trigger] ring_source(n, i, forward) < n by {
        if forward {
            vstd::arithmetic::div_mod::lemma_mod_bound(i + n - 1, n);
        } else {
            vstd::arithmetic::div_mod::lemma_mod_bound(i + 1, n);
        }
    }
    assert forall|i: int| 0 <= i < n implies (#[trigger] r[i]).1.items.to_multiset().insert(out[i])
        == t[i].1.items.to_multiset().insert(inn[i]) by {
        let a = t[i].1.items;
        let x = sel[i].unwrap();
        a.index_of_first_ensures(x);
        assert(a.remove_value(x).to_multiset() =~= a.to_multiset().remove(x));
        assert(r[i].1.items.to_multiset() =~= a.to_multiset().remove(x).insert(inn[i]));
        assert(a.to_multiset().count(x) > 0);
        assert(r[i].1.items.to_multiset().insert(out[i]) =~= a.to_multiset().insert(inn[i]));
    }
    assert forall|i: int| 0 <= i < n implies (#[trigger] r[i]).1.items.drop_last()
        == t[i].1.items.remove_value(sel[i].unwrap()) by {
        assert(r[i].1.items.drop_last() =~= t[i].1.items.remove_value(sel[i].unwrap()));
    }
    lemma_hand_exchange(t, r, out, inn);
    // the incoming items are the outgoing ones, rotated by one seat
    if forward {
        let front = out.subrange(0, n - 1);
        let back = out.subrange(n - 1, n);
        assert(out =~= front + back);
        assert forall|i: int| 1 <= i < n implies #[trigger] ring_source(n, i, true) == i - 1 by {
            vstd::arithmetic::div_mod::lemma_fundamental_div_mod_converse(i + n - 1, n, 1, i - 1);
        }
        vstd::arithmetic::div_mod::lemma_fundamental_div_mod_converse(n - 1, n, 0, n - 1);
        assert(inn =~= back + front);
        vstd::seq_lib::lemma_multiset_commutative(front, back);
        vstd::seq_lib::lemma_multiset_commutative(back, front);
    } else {
        let front = out.subrange(0, 1);
        let back = out.subrange(1, n);
        assert(out =~= front + back);
        assert forall|i: int| 0 <= i < n - 1 implies #[trigger] ring_source(n, i, false) == i + 1 by {
            vstd::arithmetic::div_mod::lemma_fundamental_div_mod_converse(i + 1, n, 0, i + 1);
        }
        vstd::arithmetic::div_mod::lemma_fundamental_div_mod_converse(n, n, 1, 0);
        assert(inn =~= back + front);
        vstd::seq_lib::lemma_multiset_commutative(front, back);
        vstd::seq_lib::lemma_multiset_commutative(back, front);
    }
    assert(inn.to_multiset() =~= out.to_multiset());
    assert forall|y: Item| hand_items(r).count(y) == hand_items(t).count(y) by {
        assert(hand_items(r).add(out.to_multiset()).count(y) == hand_items(t).add(
            inn.to_multiset(),
        ).count(y));
    }
    assert(hand_items(r) =~= hand_items(t));
}

} // verus!

verus! {

/// A theft after a won attack moves items between winner and loser only:
/// no item is created or lost.
pub proof fn law_steal_conserves(t: Table, w: Player, l: Player, item: Item, give_back: Option<Item>)
    requires
        keys_unique(t),
        has_player(t, w),
        has_player(t, l),
        w != l,
        items_of(t, l).contains(item),
        give_back matches Some(gb) ==> items_of(t, w).push(item).contains(gb),
    ensures
        hand_items(steal_table(t, w, l, item, give_back)) == hand_items(t),
{
    broadcast use vstd::multiset::group_multiset_axioms, vstd::seq_lib::group_to_multiset_ensures;

    let a = items_of(t, w);
    let b = items_of(t, l);
    let (wi, li) = steal_result(a, b, item, give_back);
    let v1 = with_items(state_of(t, w), wi);
    let t1 = with_state(t, w, v1);
    lemma_with_state(t, w, v1);
    lemma_hand_with_state(t, w, v1);
    assert(items_of(t1, l) == b);
    let v2 = with_items(state_of(t1, l), li);
    lemma_hand_with_state(t1, l, v2);
    let t2 = steal_table(t, w, l, item, give_back);
    b.index_of_first_ensures(item);
    assert(b.remove_value(item).to_multiset() =~= b.to_multiset().remove(item));
    assert(b.to_multiset().count(item) > 0);
    match give_back {
        Some(gb) => {
            let ap = a.push(item);
            ap.index_of_first_ensures(gb);
            assert(ap.remove_value(gb).to_multiset() =~= ap.to_multiset().remove(gb));
            assert(ap.to_multiset().count(gb) > 0);
        },
        None => {},
    }
    let h = hand_items(t);
    let h1 = hand_items(t1);
    let h2 = hand_items(t2);
    assert forall|y: Item| h2.count(y) == h.count(y) by {
        assert(h1.add(a.to_multiset()).count(y) == h.add(wi.to_multiset()).count(y));
        assert(h2.add(b.to_multiset()).count(y) == h1.add(li.to_multiset()).count(y));
    }
    assert(h2 =~= h);
}

} // verus!

verus! {

/// A change of job leaves the hands as they were.
proof fn lemma_same_hand(t: Table, p: Player, v: PlayerView)
    requires
        keys_unique(t),
        has_player(t, p),
        v.items == items_of(t, p),
    ensures
        hand_items(with_state(t, p, v)) == hand_items(t),
{
    broadcast use vstd::multiset::group_multiset_axioms;

    lemma_hand_with_state(t, p, v);
    let h = hand_items(t);
    let h2 = hand_items(with_state(t, p, v));
    let m = v.items.to_multiset();
    assert forall|y: Item| h2.count(y) == h.count(y) by {
        assert(h2.add(m).count(y) == h.add(m).count(y));
    }
    assert(h2 =~= h);
}

proof fn lemma_draw_conserves(g: GameView, p: Player)
    requires
        keys_unique(g.players),
        has_player(g.players, p),
    ensures
        all_items(draw(g, p)) == all_items(g),
        same_seats(g.players, draw(g, p).players),
{
    broadcast use vstd::multiset::group_multiset_axioms, vstd::seq_lib::group_to_multiset_ensures;

    lemma_same_seats(g.players, g.players);
    if g.item_stack.len() > 0 {
        let t = g.players;
        let x = g.item_stack.last();
        let a = items_of(t, p);
        let v = with_items(state_of(t, p), a.push(x));
        lemma_hand_with_state(t, p, v);
        lemma_with_state(t, p, v);
        let st = g.item_stack;
        assert(st.drop_last().push(x) =~= st);
        let h = hand_items(t);
        let h2 = hand_items(with_state(t, p, v));
        assert forall|y: Item| all_items(draw(g, p)).count(y) == all_items(g).count(y) by {
            assert(h2.add(a.to_multiset()).count(y) == h.add(a.push(x).to_multiset()).count(y));
            assert(st.drop_last().push(x).to_multiset().count(y) == st.to_multiset().count(y));
        }
        assert(all_items(draw(g, p)) =~= all_items(g));
    }
}

proof fn lemma_trigger_conserves(item: Item, g: GameView, giver: Player, receiver: Player)
    requires
        keys_unique(g.players),
        has_player(g.players, giver),
        has_player(g.players, receiver),
        giver != receiver,
    ensures
        all_items(trade_trigger(item, g, giver, receiver).0) == all_items(g),
        same_seats(g.players, trade_trigger(item, g, giver, receiver).0.players),
        trade_trigger(item, g, giver, receiver).0.job_stack.to_multiset() == g.job_stack.to_multiset(),
{
    lemma_same_seats(g.players, g.players);
    match item {
        Item::BagKey | Item::BagGoblet => {
            lemma_draw_conserves(g, receiver);
        },
        Item::Tome => {
            let t = g.players;
            let gv = state_of(t, giver);
            let rv = state_of(t, receiver);
            let v1 = PlayerView { job: rv.job, job_is_visible: false, ..gv };
            let t1 = with_state(t, giver, v1);
            lemma_same_hand(t, giver, v1);
            lemma_with_state(t, giver, v1);
            let v2 = PlayerView { job: gv.job, job_is_visible: false, ..rv };
            lemma_same_hand(t1, receiver, v2);
            lemma_with_state(t1, receiver, v2);
            lemma_same_seats(t, t1);
            lemma_same_seats(t1, with_state(t1, receiver, v2));
        },
        _ => {},
    }
}

proof fn lemma_second_trigger_conserves(g: GameView, offerer: Player, target: Player, item: Item)
    requires
        keys_unique(g.players),
        has_player(g.players, offerer),
        has_player(g.players, target),
        offerer != target,
    ensures
        all_items(second_trigger(g, offerer, target, item).game) == all_items(g),
{
    lemma_trigger_conserves(item, g, target, offerer);
}

proof fn lemma_continue_conserves(g: GameView, offerer: Player, target: Player, next_item: Option<Item>)
    requires
        keys_unique(g.players),
        has_player(g.players, offerer),
        has_player(g.players, target),
        offerer != target,
    ensures
        all_items(continue_trade(g, offerer, target, next_item).game) == all_items(g),
{
    if let Some(ni) = next_item {
        lemma_second_trigger_conserves(g, offerer, target, ni);
    }
}

proof fn lemma_hands_conserve(g: GameView, t2: Table)
    requires
        hand_items(t2) == hand_items(g.players),
    ensures
        all_items(GameView { players: t2, ..g }) == all_items(g),
{
}

/// No command creates or destroys an item: every accepted command leaves the
/// items in all hands and on the draw pile the same multiset.
pub proof fn law_items_conserved(s: StateView, actor: Player, c: Command)
    requires
        wf(s),
        step(s, actor, c) is Ok,
    ensures
        all_items(step(s, actor, c).unwrap().game) == all_items(s.game),
{
    match s.turn {
        TurnView::TradePending { offerer, target, item } => {
            lemma_pending_conserves(s, offerer, target, item, actor, c);
        },
        TurnView::ResolvingTradeTrigger { offerer, target, next_item, trigger } => {
            lemma_trigger_step_conserves(s, offerer, target, next_item, trigger, actor, c);
        },
        TurnView::DonatingItem { donor, followup } => {
            lemma_donating_conserves(s, donor, followup, actor, c);
        },
        TurnView::Attacking { attacker, defender, state } => {
            match state {
                AttackView::PayingPriest { priest } => {
                    lemma_paying_conserves(s, attacker, defender, priest, actor, c);
                },
                AttackView::ItemsOrJobs { votes, passed, buffs } => {
                    lemma_items_phase_conserves(s, attacker, defender, votes, passed, buffs, actor, c);
                },
                AttackView::FinishResolving { winner, steal_items } => {
                    lemma_finish_conserves(s, attacker, defender, winner, steal_items, actor, c);
                },
                _ => {
                    lemma_other_attack_conserves(s, attacker, defender, state, actor, c);
                },
            }
        },
        _ => {},
    }
}

#[verifier::rlimit(100)]
proof fn lemma_pending_conserves(
    s: StateView,
    offerer: Player,
    target: Player,
    item: Item,
    actor: Player,
    c: Command,
)
    requires
        wf(s),
        s.turn == (TurnView::TradePending { offerer, target, item }),
        step(s, actor, c) is Ok,
    ensures
        all_items(step(s, actor, c).unwrap().game) == all_items(s.game),
{
    let g = s.game;
    let t = g.players;
    lemma_same_seats(t, t);
    if let Command::AcceptTrade { item: item2 } = c {
        let t2 = swap_items(t, offerer, target, item, item2);
        law_trade_swaps(t, offerer, target, item, item2);
        let g1 = GameView { players: t2, ..g };
        lemma_hands_conserve(g, t2);
        let ov = state_of(t, offerer);
        let v1 = with_items(ov, ov.items.update(ov.items.index_of_first(item).unwrap(), item2));
        lemma_with_state(t, offerer, v1);
        let t1 = with_state(t, offerer, v1);
        let tv = state_of(t1, target);
        let v2 = with_items(tv, tv.items.update(tv.items.index_of_first(item2).unwrap(), item));
        lemma_with_state(t1, target, v2);
        lemma_same_seats(t, t1);
        lemma_same_seats(t1, t2);
        if !(item == Item::BrokenMirror || item2 == Item::BrokenMirror) {
            lemma_trigger_conserves(item, g1, offerer, target);
            let g2 = trade_trigger(item, g1, offerer, target).0;
            lemma_same_seats(t2, g2.players);
            lemma_second_trigger_conserves(g2, offerer, target, item2);
        }
    }
}

#[verifier::rlimit(100)]
proof fn lemma_trigger_step_conserves(
    s: StateView,
    offerer: Player,
    target: Player,
    next_item: Option<Item>,
    trigger: TriggerView,
    actor: Player,
    c: Command,
)
    requires
        wf(s),
        s.turn == (TurnView::ResolvingTradeTrigger { offerer, target, next_item, trigger }),
        step(s, actor, c) is Ok,
    ensures
        all_items(step(s, actor, c).unwrap().game) == all_items(s.game),
{
    let g = s.game;
    let t = g.players;
    lemma_same_seats(t, t);
    match trigger {
        TriggerView::Coat => {
            if let Command::PickNewJob { job } = c {
                let av = state_of(t, actor);
                let v = PlayerView { job, ..av };
                lemma_same_hand(t, actor, v);
                lemma_with_state(t, actor, v);
                let g1 = GameView {
                    players: with_state(t, actor, v),
                    job_stack: g.job_stack.update(g.job_stack.index_of_first(job).unwrap(), av.job),
                    ..g
                };
                lemma_continue_conserves(g1, offerer, target, next_item);
            }
        },
        TriggerView::Sextant { item_selections, is_forward: Some(forward) } => {
            if let Command::SelectSextantItem { item } = c {
                let seat = seat_of(t, actor);
                let sel = item_selections.update(seat, Some(item));
                if crate::rules::all_selected(sel) {
                    assert forall|i: int| 0 <= i < t.len() implies t[i].1.items.contains(
                        (#[trigger] sel[i]).unwrap(),
                    ) by {
                        if i != seat {
                            assert(item_selections[i] is Some);
                        }
                    }
                    law_ring_pass(t, sel, forward);
                    let t2 = ring_pass(t, sel, forward);
                    assert(same_seats(t, t2));
                    lemma_same_seats(t, t2);
                    lemma_continue_conserves(GameView { players: t2, ..g }, offerer, target, next_item);
                }
            }
        },
        _ => {
            lemma_continue_conserves(g, offerer, target, next_item);
        },
    }
}

#[verifier::rlimit(100)]
proof fn lemma_donating_conserves(
    s: StateView,
    donor: Player,
    followup: crate::protocol::ItemDonationFollowup,
    actor: Player,
    c: Command,
)
    requires
        wf(s),
        s.turn == (TurnView::DonatingItem { donor, followup }),
        step(s, actor, c) is Ok,
    ensures
        all_items(step(s, actor, c).unwrap().game) == all_items(s.game),
{
    let g = s.game;
    let t = g.players;
    if let Command::DonateItem { target, item } = c {
        law_handover_conserves(t, donor, target, item);
        let t2 = move_item(t, donor, target, item);
        lemma_move_seats(t, donor, target, item);
        if let crate::protocol::ItemDonationFollowup::TradeTriggers { offerer, target: tt, item: it } = followup {
            lemma_second_trigger_conserves(GameView { players: t2, ..g }, offerer, tt, it);
        }
    }
}

#[verifier::rlimit(100)]
proof fn lemma_paying_conserves(
    s: StateView,
    attacker: Player,
    defender: Player,
    priest: Player,
    actor: Player,
    c: Command,
)
    requires
        wf(s),
        s.turn == (TurnView::Attacking { attacker, defender, state: AttackView::PayingPriest { priest } }),
        step(s, actor, c) is Ok,
    ensures
        all_items(step(s, actor, c).unwrap().game) == all_items(s.game),
{
    let t = s.game.players;
    if let Command::PayPriest { item } = c {
        law_handover_conserves(t, attacker, priest, item);
        lemma_move_seats(t, attacker, priest, item);
    }
}

#[verifier::rlimit(100)]
proof fn lemma_items_phase_conserves(
    s: StateView,
    attacker: Player,
    defender: Player,
    votes: Seq<(Player, crate::protocol::AttackSupport)>,
    passed: Seq<Player>,
    buffs: Seq<crate::protocol::Buff>,
    actor: Player,
    c: Command,
)
    requires
        wf(s),
        s.turn == (TurnView::Attacking {
            attacker,
            defender,
            state: AttackView::ItemsOrJobs { votes, passed, buffs },
        }),
        step(s, actor, c) is Ok,
    ensures
        all_items(step(s, actor, c).unwrap().game) == all_items(s.game),
{
    let g = s.game;
    let t = g.players;
    lemma_same_seats(t, t);
    lemma_draw_conserves(g, attacker);
    if has_player(t, actor) {
        let used = crate::model::used_job(state_of(t, actor));
        lemma_same_hand(t, actor, used);
    }
}

#[verifier::rlimit(100)]
proof fn lemma_finish_conserves(
    s: StateView,
    attacker: Player,
    defender: Player,
    winner: crate::protocol::AttackWinner,
    steal_items: bool,
    actor: Player,
    c: Command,
)
    requires
        wf(s),
        s.turn == (TurnView::Attacking {
            attacker,
            defender,
            state: AttackView::FinishResolving { winner, steal_items },
        }),
        step(s, actor, c) is Ok,
    ensures
        all_items(step(s, actor, c).unwrap().game) == all_items(s.game),
{
    let t = s.game.players;
    if let Command::StealItem { item, give_back } = c {
        let w = crate::rules::winner_player(attacker, defender, winner);
        let l = crate::rules::loser_player(attacker, defender, winner);
        law_steal_conserves(t, w, l, item, give_back);
    }
}

#[verifier::rlimit(100)]
proof fn lemma_other_attack_conserves(
    s: StateView,
    attacker: Player,
    defender: Player,
    state: AttackView,
    actor: Player,
    c: Command,
)
    requires
        wf(s),
        s.turn == (TurnView::Attacking { attacker, defender, state }),
        !(state is PayingPriest),
        !(state is ItemsOrJobs),
        !(state is FinishResolving),
        step(s, actor, c) is Ok,
    ensures
        all_items(step(s, actor, c).unwrap().game) == all_items(s.game),
{
    let t = s.game.players;
    if has_player(t, actor) {
        let used = crate::model::used_job(state_of(t, actor));
        lemma_same_hand(t, actor, used);
    }
}

proof fn lemma_move_seats(t: Table, p: Player, q: Player, item: Item)
    requires
        keys_unique(t),
        has_player(t, p),
        has_player(t, q),
    ensures
        crate::roster::same_seats(t, move_item(t, p, q, item)),
        keys_unique(move_item(t, p, q, item)),
        forall|x: Player| has_player(t, x) ==> has_player(move_item(t, p, q, item), x),
{
    let v1 = with_items(state_of(t, p), items_of(t, p).remove_value(item));
    lemma_with_state(t, p, v1);
    let t1 = with_state(t, p, v1);
    let v2 = with_items(state_of(t1, q), items_of(t1, q).push(item));
    lemma_with_state(t1, q, v2);
    lemma_same_seats(t, t1);
    lemma_same_seats(t1, move_item(t, p, q, item));
}

} // verus!

verus! {

/// When the last seat chooses its sextant item, every selection moves one
/// seat in the chosen direction at once, and the trade continues with the
/// second item's trigger if one is due; with none due, the offerer's turn ends.
pub proof fn law_sextant_completes(
    s: StateView,
    offerer: Player,
    target: Player,
    next_item: Option<Item>,
    sel: Seq<Option<Item>>,
    forward: bool,
    actor: Player,
    item: Item,
)
    requires
        wf(s),
        s.turn == (TurnView::ResolvingTradeTrigger {
            offerer,
            target,
            next_item,
            trigger: TriggerView::Sextant { item_selections: sel, is_forward: Some(forward) },
        }),
        has_player(s.game.players, actor),
        sel[seat_of(s.game.players, actor)] is None,
        items_of(s.game.players, actor).contains(item),
        crate::rules::all_selected(sel.update(seat_of(s.game.players, actor), Some(item))),
    ensures
        ({
            let t = s.game.players;
            let t2 = ring_pass(t, sel.update(seat_of(t, actor), Some(item)), forward);
            &&& step(s, actor, Command::SelectSextantItem { item }) == Ok::<StateView, CommandError>(
                continue_trade(GameView { players: t2, ..s.game }, offerer, target, next_item),
            )
            &&& next_item is None ==> step(s, actor, Command::SelectSextantItem { item }) == Ok::<
                StateView,
                CommandError,
            >(at(GameView { players: t2, ..s.game }, TurnView::WaitingForQuickblink(next_of(t, offerer))))
            &&& hand_items(t2) == hand_items(t)
        }),
{
    let t = s.game.players;
    let seat = seat_of(t, actor);
    let sel2 = sel.update(seat, Some(item));
    assert forall|i: int| 0 <= i < t.len() implies t[i].1.items.contains((#[trigger] sel2[i]).unwrap()) by {
        if i != seat {
            assert(sel[i] is Some);
        }
    }
    law_ring_pass(t, sel2, forward);
    let t2 = ring_pass(t, sel2, forward);
    assert(same_seats(t, t2));
    lemma_same_seats(t, t2);
}

} // verus!
