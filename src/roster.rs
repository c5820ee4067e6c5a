//! The seating order: every player's state, kept in an insertion-ordered map
//! whose order is the turn order.
use indexmap::IndexMap;
use vstd::prelude::*;

use crate::model::{Item, Player, PlayerState, PlayerView};

verus! {

#[verifier::external_type_specification]
#[verifier::external_body]
#[verifier::reject_recursive_types(K)]
#[verifier::reject_recursive_types(V)]
#[verifier::reject_recursive_types(S)]
pub struct ExIndexMap<K, V, S>(IndexMap<K, V, S>);

/// The entries of a seating map, in insertion order.
pub uninterp spec fn entries_of(m: IndexMap<Player, PlayerState>) -> Seq<(Player, PlayerState)>;

/// Relies on `IndexMap::new`: a new map has no entries.
#[verifier::external_body]
fn map_new() -> (r: IndexMap<Player, PlayerState>)
    ensures
        entries_of(r) == Seq::<(Player, PlayerState)>::empty(),
{
    IndexMap::new()
}

/// Relies on `IndexMap::insert`: an equal key keeps its place and gets the
/// new value; a new key is appended last.
#[verifier::external_body]
fn map_insert(m: &mut IndexMap<Player, PlayerState>, k: Player, v: PlayerState) -> (r: Option<
    PlayerState,
>)
    ensures
        (forall|i: int| 0 <= i < entries_of(*old(m)).len() ==> entries_of(*old(m))[i].0 != k)
            ==> r is None && entries_of(*final(m)) == entries_of(*old(m)).push((k, v)),
        forall|i: int|
            0 <= i < entries_of(*old(m)).len() && entries_of(*old(m))[i].0 == k ==> r == Some(
                entries_of(*old(m))[i].1,
            ) && entries_of(*final(m)) == entries_of(*old(m)).update(i, (k, v)),
{
    m.insert(k, v)
}

/// Relies on `IndexMap::len`: the number of entries.
#[verifier::external_body]
fn map_len(m: &IndexMap<Player, PlayerState>) -> (r: usize)
    ensures
        r == entries_of(*m).len(),
{
    m.len()
}

/// Relies on `IndexMap::get_index_of`: the position of the key, if present.
#[verifier::external_body]
fn map_index_of(m: &IndexMap<Player, PlayerState>, k: Player) -> (r: Option<usize>)
    ensures
        r matches Some(i) ==> i < entries_of(*m).len() && entries_of(*m)[i as int].0 == k,
        r is None ==> forall|i: int| 0 <= i < entries_of(*m).len() ==> entries_of(*m)[i].0 != k,
{
    m.get_index_of(&k)
}

/// Relies on `IndexMap::get_index`: the key at a position.
#[verifier::external_body]
fn map_key(m: &IndexMap<Player, PlayerState>, i: usize) -> (r: Player)
    requires
        i < entries_of(*m).len(),
    ensures
        r == entries_of(*m)[i as int].0,
{
    *m.get_index(i).unwrap().0
}

/// Relies on `Index<usize>` of `IndexMap`: the value at a position.
#[verifier::external_body]
fn map_value(m: &IndexMap<Player, PlayerState>, i: usize) -> (r: &PlayerState)
    requires
        i < entries_of(*m).len(),
    ensures
        *r == entries_of(*m)[i as int].1,
{
    &m[i]
}

/// Relies on `IndexMut<usize>` of `IndexMap`: replaces the value at a position.
#[verifier::external_body]
fn map_set(m: &mut IndexMap<Player, PlayerState>, i: usize, v: PlayerState)
    requires
        i < entries_of(*old(m)).len(),
    ensures
        entries_of(*final(m)) == entries_of(*old(m)).update(
            i as int,
            (entries_of(*old(m))[i as int].0, v),
        ),
{
    m[i] = v;
}

/// A table: seats in turn order, each with its player's state.
pub type Table = Seq<(Player, PlayerView)>;

pub open spec fn view_entries(s: Seq<(Player, PlayerState)>) -> Table {
    s.map_values(|e: (Player, PlayerState)| (e.0, e.1@))
}

/// No player sits twice.
pub open spec fn keys_unique(t: Table) -> bool {
    forall|i: int, j: int| 0 <= i < j < t.len() ==> t[i].0 != t[j].0
}

pub open spec fn has_player(t: Table, p: Player) -> bool {
    exists|i: int| 0 <= i < t.len() && t[i].0 == p
}

/// The seat of `p`.
pub open spec fn seat_of(t: Table, p: Player) -> int {
    choose|i: int| 0 <= i < t.len() && t[i].0 == p
}

pub open spec fn state_of(t: Table, p: Player) -> PlayerView {
    t[seat_of(t, p)].1
}

pub open spec fn items_of(t: Table, p: Player) -> Seq<Item> {
    state_of(t, p).items
}

/// The table after `p`'s state became `v`.
pub open spec fn with_state(t: Table, p: Player, v: PlayerView) -> Table {
    t.update(seat_of(t, p), (p, v))
}

/// The player after `p` in turn order, wrapping around.
pub open spec fn next_of(t: Table, p: Player) -> Player {
    t[(seat_of(t, p) + 1) % (t.len() as int)].0
}

/// The supporters at the seats `1..=j` after seat `a`, skipping `d`.
pub open spec fn supporters_upto(t: Table, a: int, d: Player, j: nat) -> Seq<Player>
    decreases j,
{
    if j == 0 {
        Seq::empty()
    } else {
        let prev = supporters_upto(t, a, d, (j - 1) as nat);
        let p = t[(a + j) % (t.len() as int)].0;
        if p == d {
            prev
        } else {
            prev.push(p)
        }
    }
}

/// Everybody but attacker and defender, starting right after the attacker and wrapping around.
pub open spec fn supporters(t: Table, attacker: Player, defender: Player) -> Seq<Player> {
    supporters_upto(t, seat_of(t, attacker), defender, (t.len() - 1) as nat)
}

pub proof fn lemma_seat(t: Table, p: Player, i: int)
    requires
        keys_unique(t),
        0 <= i < t.len(),
        t[i].0 == p,
    ensures
        has_player(t, p),
        seat_of(t, p) == i,
{
    assert(has_player(t, p));
}

/// All players' states, in turn order.
#[derive(Debug)]
pub struct GameStatePlayers {
    players: IndexMap<Player, PlayerState>,
}

impl View for GameStatePlayers {
    type V = Table;

    closed spec fn view(&self) -> Table {
        view_entries(entries_of(self.players))
    }
}

impl GameStatePlayers {
    /// Seats the players in the given order; a player listed twice keeps the first seat and
    /// the last state.
    pub fn from_entries(entries: &Vec<(Player, PlayerState)>) -> (r: GameStatePlayers)
        ensures
            keys_unique(r@),
            keys_unique(view_entries(entries@)) ==> r@ == view_entries(entries@),
    {
        let mut m = map_new();
        let mut k: usize = 0;
        proof {
            assert(view_entries(entries_of(m)) =~= view_entries(entries@.subrange(0, 0)));
        }
        while k < entries.len()
            invariant
                k <= entries@.len(),
                keys_unique(view_entries(entries_of(m))),
                keys_unique(view_entries(entries@)) ==> view_entries(entries_of(m))
                    == view_entries(entries@.subrange(0, k as int)),
            decreases entries@.len() - k,
        {
            let key = entries[k].0;
            let v = entries[k].1.duplicate();
            let ghost before = entries_of(m);
            let _ = map_insert(&mut m, key, v);
            proof {
                let ve = view_entries(entries@);
                let vb = view_entries(before);
                if exists|i: int| 0 <= i < before.len() && before[i].0 == key {
                    let i = choose|i: int| 0 <= i < before.len() && before[i].0 == key;
                    assert(entries_of(m) == before.update(i, (key, v)));
                    if keys_unique(ve) {
                        assert(vb[i].0 == key);
                        assert(vb == view_entries(entries@.subrange(0, k as int)));
                        assert(vb[i] == ve[i]);
                        assert(ve[k as int].0 == key);
                        assert(false);
                    }
                    assert(view_entries(entries_of(m)) =~= vb.update(i, (key, v@)));
                } else {
                    assert(entries_of(m) == before.push((key, v)));
                    assert(view_entries(entries_of(m)) =~= vb.push((key, v@)));
                    assert forall|x: int| 0 <= x < vb.len() implies vb[x].0 != key by {
                        assert(before[x].0 != key);
                    }
                    if keys_unique(ve) {
                        assert(view_entries(entries@.subrange(0, k + 1)) =~= view_entries(
                            entries@.subrange(0, k as int),
                        ).push((key, v@)));
                    }
                }
            }
            k = k + 1;
        }
        proof {
            assert(entries@.subrange(0, k as int) =~= entries@);
        }
        GameStatePlayers { players: m }
    }

    pub fn len(&self) -> (r: usize)
        ensures
            r == self@.len(),
    {
        map_len(&self.players)
    }

    /// The seat of `p`, if `p` plays.
    pub fn index_of(&self, p: Player) -> (r: Option<usize>)
        requires
            keys_unique(self@),
        ensures
            r matches Some(i) ==> has_player(self@, p) && i == seat_of(self@, p),
            r is None ==> !has_player(self@, p),
    {
        let r = map_index_of(&self.players, p);
        proof {
            if let Some(i) = r {
                assert(self@[i as int].0 == p);
                lemma_seat(self@, p, i as int);
            } else {
                if has_player(self@, p) {
                    let i = choose|i: int| 0 <= i < self@.len() && self@[i].0 == p;
                    assert(entries_of(self.players)[i].0 == p);
                }
            }
        }
        r
    }

    /// The player at seat `i`.
    pub fn key(&self, i: usize) -> (r: Player)
        requires
            i < self@.len(),
        ensures
            r == self@[i as int].0,
    {
        map_key(&self.players, i)
    }

    /// The state of the player at seat `i`.
    pub fn get(&self, i: usize) -> (r: &PlayerState)
        requires
            i < self@.len(),
        ensures
            r@ == self@[i as int].1,
    {
        map_value(&self.players, i)
    }

    /// Replaces the state of the player at seat `i`.
    pub fn set(&mut self, i: usize, v: PlayerState)
        requires
            i < old(self)@.len(),
        ensures
            final(self)@ == old(self)@.update(i as int, (old(self)@[i as int].0, v@)),
    {
        map_set(&mut self.players, i, v);
        proof {
            assert(final(self)@ =~= old(self)@.update(i as int, (old(self)@[i as int].0, v@)));
        }
    }

    /// The state of player `p`.
    pub fn player(&self, p: Player) -> (r: &PlayerState)
        requires
            keys_unique(self@),
            has_player(self@, p),
        ensures
            r@ == state_of(self@, p),
    {
        let i = self.index_of(p).unwrap();
        self.get(i)
    }

    /// The player after `p` in turn order.
    pub fn next_player(&self, p: Player) -> (r: Player)
        requires
            keys_unique(self@),
            has_player(self@, p),
        ensures
            r == next_of(self@, p),
    {
        let i = self.index_of(p).unwrap();
        let n = self.len();
        proof {
            if i + 1 == n {
                vstd::arithmetic::div_mod::lemma_fundamental_div_mod_converse(
                    i + 1,
                    n as int,
                    1,
                    0,
                );
            } else {
                vstd::arithmetic::div_mod::lemma_fundamental_div_mod_converse(
                    i + 1,
                    n as int,
                    0,
                    i + 1,
                );
            }
        }
        if i + 1 == n {
            self.key(0)
        } else {
            self.key(i + 1)
        }
    }

    /// The players who vote on an attack, in voting order: everybody but
    /// attacker and defender, starting after the attacker and wrapping around.
    pub fn attack_supporters(&self, attacker: Player, defender: Player) -> (r: Vec<Player>)
        requires
            keys_unique(self@),
            has_player(self@, attacker),
        ensures
            r@ == supporters(self@, attacker, defender),
    {
        let a = self.index_of(attacker).unwrap();
        let n = self.len();
        let mut r: Vec<Player> = Vec::new();
        let mut j: usize = 1;
        while j < n
            invariant
                1 <= j <= n,
                a < n,
                n == self@.len(),
                r@ == supporters_upto(self@, a as int, defender, (j - 1) as nat),
            decreases n - j,
        {
            let k = if j < n - a {
                a + j
            } else {
                j - (n - a)
            };
            assert(k as int == (a + j) % (n as int)) by {
                if j < n - a {
                    vstd::arithmetic::div_mod::lemma_fundamental_div_mod_converse(
                        a + j,
                        n as int,
                        0,
                        a + j,
                    );
                } else {
                    vstd::arithmetic::div_mod::lemma_fundamental_div_mod_converse(
                        a + j,
                        n as int,
                        1,
                        a + j - n,
                    );
                }
            };
            let p = self.key(k);
            if p != defender {
                r.push(p);
            }
            j = j + 1;
        }
        r
    }
}

} // verus!

verus! {

/// Two tables with the same players in the same seats.
pub open spec fn same_seats(t1: Table, t2: Table) -> bool {
    t1.len() == t2.len() && forall|i: int| 0 <= i < t1.len() ==> t1[i].0 == t2[i].0
}

proof fn lemma_same_supporters(t1: Table, t2: Table, a: int, d: Player, j: nat)
    requires
        same_seats(t1, t2),
        t1.len() > 0,
    ensures
        supporters_upto(t1, a, d, j) == supporters_upto(t2, a, d, j),
    decreases j,
{
    if j > 0 {
        lemma_same_supporters(t1, t2, a, d, (j - 1) as nat);
        let n = t1.len() as int;
        assert(0 <= (a + j) % n < n) by {
            vstd::arithmetic::div_mod::lemma_mod_bound(a + j, n);
        };
    }
}

/// Tables with the same seating agree on everything that depends only on seats.
pub proof fn lemma_same_seats(t1: Table, t2: Table)
    requires
        same_seats(t1, t2),
        keys_unique(t1),
    ensures
        keys_unique(t2),
        forall|p: Player| has_player(t1, p) == has_player(t2, p),
        forall|p: Player| has_player(t1, p) ==> seat_of(t1, p) == seat_of(t2, p),
        forall|p: Player| has_player(t1, p) ==> next_of(t1, p) == next_of(t2, p),
        forall|a: Player, d: Player|
            has_player(t1, a) ==> supporters(t1, a, d) == supporters(t2, a, d),
{
    assert forall|p: Player| has_player(t1, p) == has_player(t2, p) by {
        if has_player(t1, p) {
            let i = choose|i: int| 0 <= i < t1.len() && t1[i].0 == p;
            assert(t2[i].0 == p);
        }
        if has_player(t2, p) {
            let i = choose|i: int| 0 <= i < t2.len() && t2[i].0 == p;
            assert(t1[i].0 == p);
        }
    }
    assert forall|p: Player| has_player(t1, p) implies seat_of(t1, p) == seat_of(t2, p)
        && next_of(t1, p) == next_of(t2, p) by {
        let i = seat_of(t1, p);
        lemma_seat(t2, p, i);
        let n = t1.len() as int;
        assert(0 <= (i + 1) % n < n) by {
            vstd::arithmetic::div_mod::lemma_mod_bound(i + 1, n);
        };
    }
    assert forall|a: Player, d: Player| has_player(t1, a) implies supporters(t1, a, d)
        == supporters(t2, a, d) by {
        lemma_same_supporters(t1, t2, seat_of(t1, a), d, (t1.len() - 1) as nat);
    }
}

/// Replacing a player's state keeps the seating and changes only that seat.
pub proof fn lemma_with_state(t: Table, p: Player, v: PlayerView)
    requires
        keys_unique(t),
        has_player(t, p),
    ensures
        same_seats(t, with_state(t, p, v)),
        keys_unique(with_state(t, p, v)),
        has_player(with_state(t, p, v), p),
        seat_of(with_state(t, p, v), p) == seat_of(t, p),
        state_of(with_state(t, p, v), p) == v,
        forall|q: Player|
            q != p && has_player(t, q) ==> state_of(with_state(t, p, v), q) == state_of(t, q),
        forall|q: Player| has_player(t, q) == has_player(with_state(t, p, v), q),
        forall|q: Player| has_player(t, q) ==> seat_of(t, q) == seat_of(with_state(t, p, v), q),
        forall|q: Player| has_player(t, q) ==> next_of(t, q) == next_of(with_state(t, p, v), q),
        forall|a: Player, d: Player|
            has_player(t, a) ==> supporters(t, a, d) == supporters(with_state(t, p, v), a, d),
{
    let t2 = with_state(t, p, v);
    lemma_same_seats(t, t2);
    assert forall|q: Player| q != p && has_player(t, q) implies state_of(t2, q) == state_of(
        t,
        q,
    ) by {
        assert(seat_of(t2, q) == seat_of(t, q));
    }
}

} // verus!

verus! {

/// The next player sits at the table too.
pub proof fn lemma_next_has(t: Table, p: Player)
    requires
        has_player(t, p),
    ensures
        has_player(t, #[trigger] next_of(t, p)),
{
    let n = t.len() as int;
    let i = (seat_of(t, p) + 1) % n;
    assert(0 <= i < n) by {
        vstd::arithmetic::div_mod::lemma_mod_bound(seat_of(t, p) + 1, n);
    };
    assert(t[i].0 == next_of(t, p));
}

/// Seats `a + x` and `a + y` (mod `n`) differ when `x` and `y` do.
proof fn lemma_rotation(a: int, x: int, n: int)
    requires
        0 <= a < n,
        0 <= x < n,
    ensures
        (a + x) % n == if a + x < n {
            a + x
        } else {
            a + x - n
        },
{
    if a + x < n {
        vstd::arithmetic::div_mod::lemma_fundamental_div_mod_converse(a + x, n, 0, a + x);
    } else {
        vstd::arithmetic::div_mod::lemma_fundamental_div_mod_converse(a + x, n, 1, a + x - n);
    }
}

proof fn lemma_supporters_upto_distinct(t: Table, a: int, d: Player, j: nat)
    requires
        keys_unique(t),
        0 <= a < t.len(),
        j < t.len(),
    ensures
        supporters_upto(t, a, d, j).no_duplicates(),
        forall|k: int|
            #![trigger supporters_upto(t, a, d, j)[k]]
            0 <= k < supporters_upto(t, a, d, j).len() ==> exists|x: int|
                1 <= x <= j && supporters_upto(t, a, d, j)[k] == (#[trigger] t[(a + x) % (
                t.len() as int)]).0,
    decreases j,
{
    let n = t.len() as int;
    if j > 0 {
        lemma_supporters_upto_distinct(t, a, d, (j - 1) as nat);
        let prev = supporters_upto(t, a, d, (j - 1) as nat);
        let p = t[(a + j) % n].0;
        lemma_rotation(a, j as int, n);
        if p != d {
            assert forall|k: int| 0 <= k < prev.len() implies prev[k] != p by {
                let x = choose|x: int| 1 <= x <= j - 1 && prev[k] == (#[trigger] t[(a + x) % n]).0;
                lemma_rotation(a, x, n);
            }
            let cur = prev.push(p);
            assert forall|k: int| 0 <= k < cur.len() implies exists|x: int|
                1 <= x <= j && #[trigger] cur[k] == (#[trigger] t[(a + x) % n]).0 by {
                if k < prev.len() {
                    let x = choose|x: int| 1 <= x <= j - 1 && prev[k] == (#[trigger] t[(a + x) % n]).0;
                    assert(cur[k] == t[(a + x) % n].0);
                } else {
                    assert(cur[k] == t[(a + j) % n].0);
                }
            }
        }
    }
}

/// No supporter is listed twice.
pub proof fn lemma_supporters_distinct(t: Table, attacker: Player, defender: Player)
    requires
        keys_unique(t),
        has_player(t, attacker),
    ensures
        supporters(t, attacker, defender).no_duplicates(),
{
    lemma_supporters_upto_distinct(t, seat_of(t, attacker), defender, (t.len() - 1) as nat);
}

} // verus!
