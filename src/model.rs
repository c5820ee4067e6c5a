//! The game's vocabulary: who plays, what they hold, and the fixed tables of
//! the rules (which jobs are single-use, how strong each buff is, how many
//! items a player may keep).
use vstd::prelude::*;

verus! {

/// A seat at the table. The set of characters is closed.
#[derive(Clone, Copy, PartialEq, Eq, Structural, Debug, Hash)]
pub enum Player {
    Gundla,
    Sarah,
    Marie,
    Zacharias,
}

impl Player {
    /// Every character, in declaration order.
    pub fn all() -> (r: Vec<Player>)
        ensures
            r@ == seq![Player::Gundla, Player::Sarah, Player::Marie, Player::Zacharias],
    {
        vec![Player::Gundla, Player::Sarah, Player::Marie, Player::Zacharias]
    }
}

#[derive(Clone, Copy, PartialEq, Eq, Structural, Debug, Hash)]
pub enum Item {
    Key,
    Goblet,
    BagKey,
    BagGoblet,
    BlackPearl,
    Dagger,
    Gloves,
    PoisonRing,
    CastingKnives,
    Whip,
    Priviledge,
    Monocle,
    BrokenMirror,
    Sextant,
    Coat,
    Tome,
    CoatOfArmorOfTheLoge,
}

#[derive(Clone, Copy, PartialEq, Eq, Structural, Debug, Hash)]
pub enum Job {
    Thug,
    GrandMaster,
    Bodyguard,
    Duelist,
    PoisonMixer,
    Doctor,
    Priest,
    Hypnotist,
    Diplomat,
    Clairvoyant,
}

#[derive(Clone, Copy, PartialEq, Eq, Structural, Debug, Hash)]
pub enum Faction {
    Order,
    Brotherhood,
}

/// The faction that wins when `f` loses.
pub open spec fn opponent_of(f: Faction) -> Faction {
    match f {
        Faction::Order => Faction::Brotherhood,
        Faction::Brotherhood => Faction::Order,
    }
}

/// Error of `PlayerState::use_job`: the job is not held, or its single use is spent.
#[derive(Clone, Copy, PartialEq, Eq, Structural, Debug)]
pub struct JobUseError;

/// What one player holds: a faction, a job (possibly revealed) and an ordered inventory.
#[derive(Clone, Debug, PartialEq)]
pub struct PlayerState {
    pub faction: Faction,
    pub job: Job,
    pub job_is_visible: bool,
    pub items: Vec<Item>,
}

/// The mathematical content of a `PlayerState`.
pub ghost struct PlayerView {
    pub faction: Faction,
    pub job: Job,
    pub job_is_visible: bool,
    pub items: Seq<Item>,
}

impl View for PlayerState {
    type V = PlayerView;

    open spec fn view(&self) -> PlayerView {
        PlayerView {
            faction: self.faction,
            job: self.job,
            job_is_visible: self.job_is_visible,
            items: self.items@,
        }
    }
}

impl Job {
    /// Whether the job can be used only once per game.
    pub open spec fn spec_once(self) -> bool {
        match self {
            Job::Clairvoyant | Job::Diplomat | Job::Doctor | Job::Duelist | Job::PoisonMixer
            | Job::Priest => true,
            _ => false,
        }
    }

    pub fn once(&self) -> (r: bool)
        ensures
            r == self.spec_once(),
    {
        match self {
            Job::Clairvoyant | Job::Diplomat | Job::Doctor | Job::Duelist | Job::PoisonMixer
            | Job::Priest => true,
            _ => false,
        }
    }
}

/// A player may use `job` when it is theirs and, for a single-use job, not yet revealed.
pub open spec fn can_use_job(p: PlayerView, job: Job) -> bool {
    p.job == job && !(p.job_is_visible && job.spec_once())
}

/// Using a job reveals it.
pub open spec fn used_job(p: PlayerView) -> PlayerView {
    PlayerView { job_is_visible: true, ..p }
}

pub fn can_use(p: &PlayerState, job: Job) -> (r: bool)
    ensures
        r == can_use_job(p@, job),
{
    p.job == job && !(p.job_is_visible && job.once())
}

/// A copy of `v`, element by element.
pub fn copy_vec<T: Copy>(v: &Vec<T>) -> (r: Vec<T>)
    ensures
        r@ == v@,
{
    let mut r: Vec<T> = Vec::new();
    let mut k: usize = 0;
    while k < v.len()
        invariant
            k <= v@.len(),
            r@ == v@.subrange(0, k as int),
        decreases v@.len() - k,
    {
        r.push(v[k]);
        k = k + 1;
        assert(r@ =~= v@.subrange(0, k as int));
    }
    assert(v@.subrange(0, k as int) =~= v@);
    r
}

impl PlayerState {
    /// A copy with the same faction, job and inventory.
    pub fn duplicate(&self) -> (r: PlayerState)
        ensures
            r@ == self@,
    {
        PlayerState {
            faction: self.faction,
            job: self.job,
            job_is_visible: self.job_is_visible,
            items: copy_vec(&self.items),
        }
    }

    pub fn use_job(&mut self, job: Job) -> (r: Result<(), JobUseError>)
        ensures
            r is Ok <==> can_use_job(old(self)@, job),
            final(self)@ == (if r is Ok { used_job(old(self)@) } else { old(self)@ }),
    {
        if can_use(self, job) {
            self.job_is_visible = true;
            Ok(())
        } else {
            Err(JobUseError)
        }
    }
}

/// The most items a player may keep at a table of `n` players.
pub open spec fn spec_inventory_limit(n: nat) -> nat {
    if n == 3 {
        8
    } else if n == 4 {
        6
    } else {
        5
    }
}

pub fn inventory_limit(players: usize) -> (r: usize)
    requires
        players >= 3,
    ensures
        r == spec_inventory_limit(players as nat),
{
    if players == 3 {
        8
    } else if players == 4 {
        6
    } else {
        5
    }
}

/// Items whose owner must accept any trade offering them.
pub open spec fn must_accept(i: Item) -> bool {
    i == Item::BlackPearl || i == Item::BrokenMirror
}

pub fn is_must_accept(i: Item) -> (r: bool)
    ensures
        r == must_accept(i),
{
    i == Item::BlackPearl || i == Item::BrokenMirror
}

/// Whether `i` counts towards the victory of faction `f`. The bag of the
/// faction counts only once the draw pile is empty.
pub open spec fn is_victory_item(i: Item, f: Faction, pile_empty: bool) -> bool {
    match f {
        Faction::Order => i == Item::Key || (pile_empty && i == Item::BagKey),
        Faction::Brotherhood => i == Item::Goblet || (pile_empty && i == Item::BagGoblet),
    }
}

pub fn victory_item(i: Item, f: Faction, pile_empty: bool) -> (r: bool)
    ensures
        r == is_victory_item(i, f, pile_empty),
{
    match f {
        Faction::Order => i == Item::Key || (pile_empty && i == Item::BagKey),
        Faction::Brotherhood => i == Item::Goblet || (pile_empty && i == Item::BagGoblet),
    }
}

/// How many items of `s` count towards the victory of `f`.
pub open spec fn count_victory(s: Seq<Item>, f: Faction, pile_empty: bool) -> nat
    decreases s.len(),
{
    if s.len() == 0 {
        0
    } else {
        count_victory(s.drop_last(), f, pile_empty) + (if is_victory_item(
            s.last(),
            f,
            pile_empty,
        ) {
            1nat
        } else {
            0nat
        })
    }
}

pub fn count_victory_items(s: &Vec<Item>, f: Faction, pile_empty: bool) -> (r: usize)
    ensures
        r == count_victory(s@, f, pile_empty),
{
    let mut k: usize = 0;
    let mut c: usize = 0;
    while k < s.len()
        invariant
            k <= s@.len(),
            c == count_victory(s@.subrange(0, k as int), f, pile_empty),
            c <= k,
        decreases s@.len() - k,
    {
        assert(s@.subrange(0, k as int + 1).drop_last() =~= s@.subrange(0, k as int));
        if victory_item(s[k], f, pile_empty) {
            c = c + 1;
        }
        k = k + 1;
    }
    assert(s@.subrange(0, k as int) =~= s@);
    c
}

/// The first position of `x` in `s`, if any (exec counterpart of `index_of_first`).
pub fn position_of(s: &Vec<Item>, x: Item) -> (r: Option<usize>)
    ensures
        match r {
            Some(i) => s@.index_of_first(x) == Some(i as int) && i < s@.len() && s@[i as int] == x,
            None => s@.index_of_first(x) is None && !s@.contains(x),
        },
{
    let mut k: usize = 0;
    while k < s.len()
        invariant
            k <= s@.len(),
            forall|j: int| 0 <= j < k ==> s@[j] != x,
        decreases s@.len() - k,
    {
        if s[k] == x {
            proof {
                s@.index_of_first_ensures(x);
            }
            return Some(k);
        }
        k = k + 1;
    }
    proof {
        s@.index_of_first_ensures(x);
    }
    None
}

/// The first position of job `x` in `s`, if any.
pub fn position_of_job(s: &Vec<Job>, x: Job) -> (r: Option<usize>)
    ensures
        match r {
            Some(i) => s@.index_of_first(x) == Some(i as int) && i < s@.len() && s@[i as int] == x,
            None => s@.index_of_first(x) is None && !s@.contains(x),
        },
{
    let mut k: usize = 0;
    while k < s.len()
        invariant
            k <= s@.len(),
            forall|j: int| 0 <= j < k ==> s@[j] != x,
        decreases s@.len() - k,
    {
        if s[k] == x {
            proof {
                s@.index_of_first_ensures(x);
            }
            return Some(k);
        }
        k = k + 1;
    }
    proof {
        s@.index_of_first_ensures(x);
    }
    None
}

} // verus!
