//! Setting up a game: shuffling and dealing items, jobs and factions.
use rand::rngs::StdRng;
use rand::seq::SliceRandom;
use vstd::prelude::*;
use vstd::set_lib::lemma_len_subset;

use crate::engine::State;
use crate::model::{Faction, Item, Job, Player, PlayerState, PlayerView};
use crate::protocol::{TurnState, TurnView};
use crate::roster::{keys_unique, view_entries, Table};
use crate::rules::wf;

verus! {

#[verifier::external_type_specification]
#[verifier::external_body]
pub struct ExStdRng(StdRng);

/// Relies on `SliceRandom::shuffle`: the elements are permuted.
#[verifier::external_body]
fn shuffle<T>(v: &mut Vec<T>, rng: &mut StdRng)
    ensures
        final(v)@.to_multiset() == old(v)@.to_multiset(),
{
    v.shuffle(rng);
}

/// Relies on `SliceRandom::partial_shuffle`: the first part holds `amount`
/// elements (all of them if there are fewer), the second the rest.
#[verifier::external_body]
fn partial_shuffle<T: Copy>(v: Vec<T>, amount: usize, rng: &mut StdRng) -> (r: (Vec<T>, Vec<T>))
    ensures
        r.0@.len() == if amount < v@.len() {
            amount as int
        } else {
            v@.len() as int
        },
        (r.0@ + r.1@).to_multiset() == v@.to_multiset(),
{
    let mut v = v;
    let (chosen, rest) = v.partial_shuffle(rng, amount);
    (chosen.to_vec(), rest.to_vec())
}

/// The items that are dealt to the players' hands or put on the draw pile.
pub open spec fn full_items() -> Seq<Item> {
    seq![
        Item::BagGoblet,
        Item::BagKey,
        Item::Key,
        Item::Key,
        Item::Key,
        Item::Goblet,
        Item::Goblet,
        Item::Goblet,
        Item::BlackPearl,
        Item::Dagger,
        Item::Gloves,
        Item::PoisonRing,
        Item::CastingKnives,
        Item::Whip,
        Item::Priviledge,
        Item::Monocle,
        Item::BrokenMirror,
        Item::Sextant,
        Item::Coat,
        Item::Tome,
        Item::CoatOfArmorOfTheLoge,
    ]
}

pub open spec fn all_jobs() -> Seq<Job> {
    seq![
        Job::Thug,
        Job::GrandMaster,
        Job::Bodyguard,
        Job::Duelist,
        Job::PoisonMixer,
        Job::Doctor,
        Job::Priest,
        Job::Hypnotist,
        Job::Diplomat,
        Job::Clairvoyant,
    ]
}

pub open spec fn seated(t: Table) -> Seq<Player> {
    t.map_values(|e: (Player, PlayerView)| e.0)
}

/// The first item of each hand, in seating order.
pub open spec fn dealt_items(t: Table) -> Seq<Item> {
    t.map_values(|e: (Player, PlayerView)| e.1.items[0])
}

pub open spec fn dealt_jobs(t: Table) -> Seq<Job> {
    t.map_values(|e: (Player, PlayerView)| e.1.job)
}

pub open spec fn dealt_factions(t: Table) -> Seq<Faction> {
    t.map_values(|e: (Player, PlayerView)| e.1.faction)
}

/// The factions that the seats are drawn from: half the table, rounded up, of each.
pub open spec fn faction_pool(n: nat) -> Seq<Faction> {
    Seq::new((n + 1) / 2, |i: int| Faction::Order) + Seq::new((n + 1) / 2, |i: int| Faction::Brotherhood)
}

/// The table dealt from the shuffled seats, hands, factions and jobs: seat `i`
/// gets the `i`-th of each, with its job hidden.
pub open spec fn dealt_table(
    seats: Seq<Player>,
    hands: Seq<Item>,
    factions: Seq<Faction>,
    jobs: Seq<Job>,
) -> Table {
    Seq::new(
        seats.len(),
        |i: int|
            (
                seats[i],
                PlayerView {
                    faction: factions[i],
                    job: jobs[i],
                    job_is_visible: false,
                    items: seq![hands[i]],
                },
            ),
    )
}

/// No more than four distinct characters exist.
proof fn lemma_at_most_four(s: Seq<Player>)
    requires
        s.no_duplicates(),
    ensures
        s.len() <= 4,
{
    let all = set![Player::Gundla, Player::Sarah, Player::Marie, Player::Zacharias];
    s.unique_seq_to_set();
    assert(s.to_set().subset_of(all)) by {
        assert forall|p: Player| s.to_set().contains(p) implies all.contains(p) by {
            match p {
                Player::Gundla => {},
                Player::Sarah => {},
                Player::Marie => {},
                Player::Zacharias => {},
            }
        }
    }
    assert(all.len() == 4);
    lemma_len_subset(s.to_set(), all);
}

fn append<T: Copy>(v: &mut Vec<T>, w: &Vec<T>)
    ensures
        final(v)@ == old(v)@ + w@,
{
    let mut k: usize = 0;
    while k < w.len()
        invariant
            k <= w@.len(),
            v@ == old(v)@ + w@.subrange(0, k as int),
        decreases w@.len() - k,
    {
        v.push(w[k]);
        k = k + 1;
        assert(v@ =~= old(v)@ + w@.subrange(0, k as int));
    }
    assert(w@.subrange(0, k as int) =~= w@);
}

impl State {
    /// Seats the players in the given order, each with the item, faction and
    /// job at their position, and gives the turn to the first seat.
    pub fn deal(
        seats: &Vec<Player>,
        hands: &Vec<Item>,
        factions: &Vec<Faction>,
        jobs: &Vec<Job>,
        item_stack: Vec<Item>,
        job_stack: Vec<Job>,
    ) -> (r: State)
        requires
            seats@.len() >= 3,
            seats@.no_duplicates(),
            hands@.len() == seats@.len(),
            factions@.len() == seats@.len(),
            jobs@.len() == seats@.len(),
        ensures
            wf(r@),
            r@.game.players == dealt_table(seats@, hands@, factions@, jobs@),
            r@.game.item_stack == item_stack@,
            r@.game.job_stack == job_stack@,
            r@.turn == TurnView::WaitingForQuickblink(seats@[0]),
    {
        let n = seats.len();
        let ghost goal = dealt_table(seats@, hands@, factions@, jobs@);
        let mut entries: Vec<(Player, PlayerState)> = Vec::new();
        let mut i: usize = 0;
        while i < n
            invariant
                i <= n,
                n == seats@.len(),
                hands@.len() == n,
                factions@.len() == n,
                jobs@.len() == n,
                goal == dealt_table(seats@, hands@, factions@, jobs@),
                view_entries(entries@) == goal.subrange(0, i as int),
            decreases n - i,
        {
            let items = vec![hands[i]];
            assert(items@ =~= seq![hands@[i as int]]);
            let st = PlayerState { faction: factions[i], job: jobs[i], job_is_visible: false, items };
            assert(st@ == goal[i as int].1);
            let ghost before = entries@;
            entries.push((seats[i], st));
            assert(entries@ == before.push((seats@[i as int], st)));
            assert(view_entries(entries@) =~= view_entries(before).push(goal[i as int]));
            i = i + 1;
            assert(view_entries(entries@) =~= goal.subrange(0, i as int));
        }
        proof {
            assert(goal.subrange(0, n as int) =~= goal);
            assert(keys_unique(goal)) by {
                assert forall|a: int, b: int| 0 <= a < b < goal.len() implies goal[a].0 != goal[b].0 by {
                    assert(seats@[a] != seats@[b]);
                }
            }
        }
        let first = seats[0];
        let r = State::from_parts(entries, item_stack, job_stack, TurnState::WaitingForQuickblink(first));
        proof {
            crate::roster::lemma_seat(goal, first, 0);
        }
        r
    }

    /// Deals a new game to the given players, whose seating order is shuffled.
    /// Each player gets one item (both bags among them), a job and a faction;
    /// the remaining items form the draw pile and the remaining jobs the pool.
    pub fn new(players: Vec<Player>, rng: &mut StdRng) -> (r: State)
        requires
            players@.len() >= 3,
            players@.no_duplicates(),
        ensures
            wf(r@),
            r@.turn == TurnView::WaitingForQuickblink(r@.game.players[0].0),
            seated(r@.game.players).to_multiset() == players@.to_multiset(),
            forall|i: int|
                0 <= i < r@.game.players.len() ==> (#[trigger] r@.game.players[i]).1.items.len()
                    == 1 && !r@.game.players[i].1.job_is_visible,
            (dealt_items(r@.game.players) + r@.game.item_stack).to_multiset()
                == full_items().to_multiset(),
            (dealt_jobs(r@.game.players) + r@.game.job_stack).to_multiset()
                == all_jobs().to_multiset(),
            dealt_items(r@.game.players).contains(Item::BagKey),
            dealt_items(r@.game.players).contains(Item::BagGoblet),
            dealt_factions(r@.game.players).to_multiset().subset_of(
                faction_pool(players@.len()).to_multiset(),
            ),
    {
        let n = players.len();
        proof {
            lemma_at_most_four(players@);
        }
        let start_items = vec![
            Item::Key,
            Item::Key,
            Item::Key,
            Item::Goblet,
            Item::Goblet,
            Item::Goblet,
            Item::BlackPearl,
            Item::Dagger,
            Item::Gloves,
            Item::PoisonRing,
            Item::CastingKnives,
            Item::Whip,
            Item::Priviledge,
            Item::Monocle,
        ];
        let other_items = vec![
            Item::BrokenMirror,
            Item::Sextant,
            Item::Coat,
            Item::Tome,
            Item::CoatOfArmorOfTheLoge,
        ];
        let jobs = vec![
            Job::Thug,
            Job::GrandMaster,
            Job::Bodyguard,
            Job::Duelist,
            Job::PoisonMixer,
            Job::Doctor,
            Job::Priest,
            Job::Hypnotist,
            Job::Diplomat,
            Job::Clairvoyant,
        ];
        let ghost start0 = start_items@;
        let ghost other0 = other_items@;
        let ghost jobs0 = jobs@;
        let per_faction = (n + 1) / 2;
        let mut factions: Vec<Faction> = Vec::new();
        let mut k: usize = 0;
        while k < per_faction
            invariant
                k <= per_faction,
                factions@ == Seq::new(k as nat, |i: int| Faction::Order),
            decreases per_faction - k,
        {
            factions.push(Faction::Order);
            k = k + 1;
            assert(factions@ =~= Seq::new(k as nat, |i: int| Faction::Order));
        }
        let mut k: usize = 0;
        while k < per_faction
            invariant
                k <= per_faction,
                factions@ == Seq::new(per_faction as nat, |i: int| Faction::Order) + Seq::new(
                    k as nat,
                    |i: int| Faction::Brotherhood,
                ),
            decreases per_faction - k,
        {
            factions.push(Faction::Brotherhood);
            k = k + 1;
            assert(factions@ =~= Seq::new(per_faction as nat, |i: int| Faction::Order) + Seq::new(
                k as nat,
                |i: int| Faction::Brotherhood,
            ));
        }
        let ghost factions0 = factions@;
        let (chosen, rest) = partial_shuffle(start_items, n - 2, rng);
        let mut dealt = vec![Item::BagGoblet, Item::BagKey];
        append(&mut dealt, &chosen);
        let ghost dealt0 = dealt@;
        shuffle(&mut dealt, rng);
        let mut seats = crate::model::copy_vec(&players);
        shuffle(&mut seats, rng);
        let mut pile = other_items;
        append(&mut pile, &rest);
        let ghost pile0 = pile@;
        shuffle(&mut pile, rng);
        let (hand_factions, spare_factions) = partial_shuffle(factions, n, rng);
        let (hand_jobs, job_stack) = partial_shuffle(jobs, n, rng);
        assert(dealt@.len() == n) by {
            dealt@.to_multiset_ensures();
            dealt0.to_multiset_ensures();
        };
        assert(seats@.len() == n) by {
            seats@.to_multiset_ensures();
            players@.to_multiset_ensures();
        };
        proof {
            // the seating is a permutation of the players, so nobody sits twice
            players@.lemma_multiset_has_no_duplicates();
            assert forall|x: Player| seats@.to_multiset().contains(x) implies seats@.to_multiset().count(
                x,
            ) == 1 by {}
            seats@.lemma_multiset_has_no_duplicates_conv();
        }
        let r = State::deal(&seats, &dealt, &hand_factions, &hand_jobs, pile, job_stack);
        proof {
            let t = r@.game.players;
            assert(seated(t) =~= seats@);
            assert(dealt_items(t) =~= dealt@);
            assert(dealt_jobs(t) =~= hand_jobs@);
            assert(dealt_factions(t) =~= hand_factions@);
            assert(factions0 =~= faction_pool(n as nat));
            vstd::seq_lib::lemma_multiset_commutative(hand_factions@, spare_factions@);
            assert(hand_factions@.to_multiset().subset_of(factions0.to_multiset())) by {
                broadcast use vstd::multiset::group_multiset_axioms;

            };
            vstd::seq_lib::lemma_multiset_commutative(dealt@, pile@);
            vstd::seq_lib::lemma_multiset_commutative(dealt0, pile0);
            vstd::seq_lib::lemma_multiset_commutative(seq![Item::BagGoblet, Item::BagKey], chosen@);
            vstd::seq_lib::lemma_multiset_commutative(other0, rest@);
            vstd::seq_lib::lemma_multiset_commutative(chosen@, rest@);
            let bags = seq![Item::BagGoblet, Item::BagKey];
            vstd::seq_lib::lemma_multiset_commutative(bags, start0);
            vstd::seq_lib::lemma_multiset_commutative(bags + start0, other0);
            assert(full_items() =~= bags + start0 + other0);
            assert(dealt0 == bags + chosen@);
            assert(pile0 == other0 + rest@);
            assert((dealt@ + pile@).to_multiset() =~= full_items().to_multiset());
            vstd::seq_lib::lemma_multiset_commutative(hand_jobs@, job_stack@);
            assert(all_jobs() =~= jobs0);
            assert(dealt0[0] == Item::BagGoblet);
            assert(dealt0[1] == Item::BagKey);
            dealt0.to_multiset_ensures();
            dealt@.to_multiset_ensures();
            assert(dealt0.contains(Item::BagKey));
            assert(dealt0.contains(Item::BagGoblet));
            assert(dealt@.to_multiset().count(Item::BagKey) > 0);
            assert(dealt@.to_multiset().count(Item::BagGoblet) > 0);
            assert(dealt@.contains(Item::BagKey));
            assert(dealt@.contains(Item::BagGoblet));
            assert(dealt_items(r@.game.players) == dealt@);
        }
        r
    }
}

} // verus!
