//! The states of a game, the commands players send, and the errors they get
//! back, each with the mathematical value it stands for.
use vstd::prelude::*;

use crate::model::{Faction, Item, Job, JobUseError, Player, PlayerState};

verus! {

/// A signed contribution to an attack. Twice the strength; 1 breaks ties.
pub type BuffScore = i8;

#[derive(Clone, Copy, PartialEq, Eq, Structural, Debug)]
pub enum AttackSupport {
    Attack,
    Defend,
    Abstain,
}

impl AttackSupport {
    pub open spec fn spec_vote_value(self) -> int {
        match self {
            AttackSupport::Attack => 1,
            AttackSupport::Defend => -1,
            AttackSupport::Abstain => 0,
        }
    }

    pub fn vote_value(&self) -> (r: BuffScore)
        ensures
            r as int == self.spec_vote_value(),
    {
        match self {
            AttackSupport::Attack => 1,
            AttackSupport::Defend => -1,
            AttackSupport::Abstain => 0,
        }
    }
}

#[derive(Clone, Copy, PartialEq, Eq, Structural, Debug)]
pub enum AttackWinner {
    Attacker,
    Defender,
}

#[derive(Clone, Copy, PartialEq, Eq, Structural, Debug)]
pub enum BuffSource {
    Item(Item),
    Job(Job),
}

#[derive(Clone, Copy, PartialEq, Eq, Structural, Debug)]
pub enum AttackRole {
    Attacker,
    Defender,
    AttackSupport(AttackSupport),
}

impl BuffSource {
    /// The raw score of this buff when played in `role`, or `None` where the
    /// role may not play it.
    pub open spec fn spec_raw_score(self, role: AttackRole) -> Option<int> {
        match (self, role) {
            (BuffSource::Item(Item::Dagger), AttackRole::Attacker) => Some(2),
            (BuffSource::Job(Job::Thug), AttackRole::Attacker) => Some(2),
            (BuffSource::Item(Item::Gloves), AttackRole::Defender) => Some(-2),
            (BuffSource::Job(Job::GrandMaster), AttackRole::Defender) => Some(-2),
            (BuffSource::Item(Item::PoisonRing), AttackRole::Defender) => Some(-1),
            (BuffSource::Item(Item::PoisonRing), AttackRole::Attacker) => Some(1),
            (BuffSource::Job(Job::Duelist), AttackRole::Attacker) => Some(2),
            (BuffSource::Job(Job::Duelist), AttackRole::Defender) => Some(-2),
            (
                BuffSource::Item(Item::CastingKnives),
                AttackRole::AttackSupport(AttackSupport::Attack),
            ) => Some(2),
            (BuffSource::Item(Item::Whip), AttackRole::AttackSupport(AttackSupport::Defend)) => Some(
                -2,
            ),
            (BuffSource::Job(Job::Bodyguard), AttackRole::AttackSupport(AttackSupport::Attack)) => Some(
                2,
            ),
            (BuffSource::Job(Job::Bodyguard), AttackRole::AttackSupport(AttackSupport::Defend)) => Some(
                -2,
            ),
            _ => None,
        }
    }

    pub fn raw_score(&self, user_type: AttackRole) -> (r: Option<BuffScore>)
        ensures
            r matches Some(v) ==> self.spec_raw_score(user_type) == Some(v as int),
            r is None ==> self.spec_raw_score(user_type) is None,
    {
        match (self, user_type) {
            (BuffSource::Item(Item::Dagger), AttackRole::Attacker) => Some(2),
            (BuffSource::Job(Job::Thug), AttackRole::Attacker) => Some(2),
            (BuffSource::Item(Item::Gloves), AttackRole::Defender) => Some(-2),
            (BuffSource::Job(Job::GrandMaster), AttackRole::Defender) => Some(-2),
            (BuffSource::Item(Item::PoisonRing), AttackRole::Defender) => Some(-1),
            (BuffSource::Item(Item::PoisonRing), AttackRole::Attacker) => Some(1),
            (BuffSource::Job(Job::Duelist), AttackRole::Attacker) => Some(2),
            (BuffSource::Job(Job::Duelist), AttackRole::Defender) => Some(-2),
            (
                BuffSource::Item(Item::CastingKnives),
                AttackRole::AttackSupport(AttackSupport::Attack),
            ) => Some(2),
            (BuffSource::Item(Item::Whip), AttackRole::AttackSupport(AttackSupport::Defend)) => Some(
                -2,
            ),
            (BuffSource::Job(Job::Bodyguard), AttackRole::AttackSupport(AttackSupport::Attack)) => Some(
                2,
            ),
            (BuffSource::Job(Job::Bodyguard), AttackRole::AttackSupport(AttackSupport::Defend)) => Some(
                -2,
            ),
            _ => None,
        }
    }
}

/// A buff played during an attack, with the score it was played for.
#[derive(Clone, Copy, PartialEq, Eq, Structural, Debug)]
pub struct Buff {
    pub user: Player,
    pub source: BuffSource,
    pub raw_score: BuffScore,
}

/// Where an attack stands. `votes` lists each supporter's stance in voting
/// order; `passed` lists the players who declined to act.
#[derive(Clone, Debug, PartialEq, Eq)]
pub enum AttackState {
    WaitingForPriest { passed: Vec<Player> },
    PayingPriest { priest: Player },
    DeclaringSupport(Vec<(Player, AttackSupport)>),
    WaitingForHypnotizer(Vec<(Player, AttackSupport)>),
    ItemsOrJobs { votes: Vec<(Player, AttackSupport)>, passed: Vec<Player>, buffs: Vec<Buff> },
    Resolving { winner: AttackWinner },
    FinishResolving { winner: AttackWinner, steal_items: bool },
}

pub ghost enum AttackView {
    WaitingForPriest { passed: Seq<Player> },
    PayingPriest { priest: Player },
    DeclaringSupport(Seq<(Player, AttackSupport)>),
    WaitingForHypnotizer(Seq<(Player, AttackSupport)>),
    ItemsOrJobs { votes: Seq<(Player, AttackSupport)>, passed: Seq<Player>, buffs: Seq<Buff> },
    Resolving { winner: AttackWinner },
    FinishResolving { winner: AttackWinner, steal_items: bool },
}

impl View for AttackState {
    type V = AttackView;

    open spec fn view(&self) -> AttackView {
        match self {
            AttackState::WaitingForPriest { passed } => AttackView::WaitingForPriest {
                passed: passed@,
            },
            AttackState::PayingPriest { priest } => AttackView::PayingPriest { priest: *priest },
            AttackState::DeclaringSupport(v) => AttackView::DeclaringSupport(v@),
            AttackState::WaitingForHypnotizer(v) => AttackView::WaitingForHypnotizer(v@),
            AttackState::ItemsOrJobs { votes, passed, buffs } => AttackView::ItemsOrJobs {
                votes: votes@,
                passed: passed@,
                buffs: buffs@,
            },
            AttackState::Resolving { winner } => AttackView::Resolving { winner: *winner },
            AttackState::FinishResolving { winner, steal_items } => AttackView::FinishResolving {
                winner: *winner,
                steal_items: *steal_items,
            },
        }
    }
}

/// A trade trigger waiting to be resolved. For the sextant, `item_selections`
/// holds one entry per seat, in seating order.
#[derive(Clone, Debug, PartialEq, Eq)]
pub enum TradeTriggerState {
    Priviledge,
    Monocle,
    Coat,
    Sextant { item_selections: Vec<Option<Item>>, is_forward: Option<bool> },
}

pub ghost enum TriggerView {
    Priviledge,
    Monocle,
    Coat,
    Sextant { item_selections: Seq<Option<Item>>, is_forward: Option<bool> },
}

impl View for TradeTriggerState {
    type V = TriggerView;

    open spec fn view(&self) -> TriggerView {
        match self {
            TradeTriggerState::Priviledge => TriggerView::Priviledge,
            TradeTriggerState::Monocle => TriggerView::Monocle,
            TradeTriggerState::Coat => TriggerView::Coat,
            TradeTriggerState::Sextant { item_selections, is_forward } => TriggerView::Sextant {
                item_selections: item_selections@,
                is_forward: *is_forward,
            },
        }
    }
}

/// What happens once a forced donation is made.
#[derive(Clone, Copy, PartialEq, Eq, Structural, Debug)]
pub enum ItemDonationFollowup {
    NextPlayer(Player),
    TradeTriggers { offerer: Player, target: Player, item: Item },
}

/// The outer position of the game: it alone decides who may act and how.
#[derive(Clone, Debug, PartialEq, Eq)]
pub enum TurnState {
    WaitingForQuickblink(Player),
    GameOver { winner: Faction },
    TradePending { offerer: Player, target: Player, item: Item },
    ResolvingTradeTrigger {
        offerer: Player,
        target: Player,
        next_item: Option<Item>,
        trigger: TradeTriggerState,
    },
    Attacking { attacker: Player, defender: Player, state: AttackState },
    DonatingItem { donor: Player, followup: ItemDonationFollowup },
}

pub ghost enum TurnView {
    WaitingForQuickblink(Player),
    GameOver { winner: Faction },
    TradePending { offerer: Player, target: Player, item: Item },
    ResolvingTradeTrigger {
        offerer: Player,
        target: Player,
        next_item: Option<Item>,
        trigger: TriggerView,
    },
    Attacking { attacker: Player, defender: Player, state: AttackView },
    DonatingItem { donor: Player, followup: ItemDonationFollowup },
}

impl View for TurnState {
    type V = TurnView;

    open spec fn view(&self) -> TurnView {
        match self {
            TurnState::WaitingForQuickblink(p) => TurnView::WaitingForQuickblink(*p),
            TurnState::GameOver { winner } => TurnView::GameOver { winner: *winner },
            TurnState::TradePending { offerer, target, item } => TurnView::TradePending {
                offerer: *offerer,
                target: *target,
                item: *item,
            },
            TurnState::ResolvingTradeTrigger { offerer, target, next_item, trigger } =>
                TurnView::ResolvingTradeTrigger {
                offerer: *offerer,
                target: *target,
                next_item: *next_item,
                trigger: trigger@,
            },
            TurnState::Attacking { attacker, defender, state } => TurnView::Attacking {
                attacker: *attacker,
                defender: *defender,
                state: state@,
            },
            TurnState::DonatingItem { donor, followup } => TurnView::DonatingItem {
                donor: *donor,
                followup: *followup,
            },
        }
    }
}

/// Everything a player can ask of the game.
#[derive(Clone, Debug, PartialEq)]
pub enum Command {
    Pass,
    AnnounceVictory { teammates: Vec<Player> },
    OfferTrade { target: Player, item: Item },
    RejectTrade,
    AcceptTrade { item: Item },
    PickNewJob { job: Job },
    SelectSextantItem { item: Item },
    SetSextantDirection { forward: bool },
    InitiateAttack { player: Player },
    UsePriest { priest: bool },
    PayPriest { item: Item },
    DeclareSupport { support: AttackSupport },
    Hypnotize { target: Option<Player> },
    ItemOrJob { buff: Option<BuffSource>, target: Option<Player> },
    ClaimReward { steal_items: bool },
    StealItem { item: Item, give_back: Option<Item> },
    DonateItem { target: Player, item: Item },
    DoneLookingAtThings,
}

/// Why a command was refused.
#[derive(Clone, Copy, PartialEq, Eq, Structural, Debug)]
pub enum CommandError {
    NotYourTurn,
    InvalidCommandInThisContext,
    InvalidTargetPlayer,
    YouHaveAlreadyPassed,
    YouAbstained,
    InvalidStealCommand,
    JobError,
    InvalidItemError(Item),
    GameOver,
    InvalidJobError(Job),
    BlackPearl,
    DuplicateBuffUsage,
    MustAccept,
}

impl From<JobUseError> for CommandError {
    fn from(_e: JobUseError) -> CommandError {
        CommandError::JobError
    }
}

impl vstd::std_specs::convert::FromSpecImpl<JobUseError> for CommandError {
    open spec fn obeys_from_spec() -> bool {
        true
    }

    open spec fn from_spec(v: JobUseError) -> CommandError {
        CommandError::JobError
    }
}

/// A perspective is the part of the game one player is allowed to see.
#[derive(Clone, Debug, PartialEq)]
pub struct Perspective {
    pub you: PlayerState,
    pub your_player_index: usize,
    pub players: Vec<PerspectivePlayer>,
    pub item_stack: usize,
    pub turn: PerspectiveTurnState,
}

/// What everybody sees of a player.
#[derive(Clone, Copy, PartialEq, Eq, Structural, Debug)]
pub struct PerspectivePlayer {
    pub player: Player,
    pub job: Option<Job>,
    pub item_count: usize,
}

#[derive(Clone, Debug, PartialEq)]
pub enum PerspectiveTurnState {
    TurnStart { player: Player },
    GameOver { winner: Faction },
    TradePending { offerer: Player, target: Player, item: Option<Item> },
    ResolvingTradeTrigger {
        offerer: Player,
        target: Player,
        is_first_item: bool,
        trigger: PerspectiveTradeTriggerState,
    },
    Attacking { attacker: Player, defender: Player, state: PerspectiveAttackState },
    DonatingItem { donor: Player },
}

#[derive(Clone, Debug, PartialEq)]
pub enum PerspectiveAttackState {
    Normal(AttackState),
    FinishResolvingCredentials { target_faction: Faction, target_job: Job },
    FinishResolvingItems { target_items: Vec<Item> },
}

#[derive(Clone, Debug, PartialEq, Eq)]
pub enum PerspectiveTradeTriggerState {
    Priviledge { items: Option<Vec<Item>> },
    Monocle { faction: Option<Faction> },
    Coat { available_jobs: Option<Vec<Job>> },
    Sextant { item_selections: Vec<Option<Item>>, is_forward: Option<bool> },
}

pub ghost enum PTriggerView {
    Priviledge { items: Option<Seq<Item>> },
    Monocle { faction: Option<Faction> },
    Coat { available_jobs: Option<Seq<Job>> },
    Sextant { item_selections: Seq<Option<Item>>, is_forward: Option<bool> },
}

pub ghost enum PAttackView {
    Normal(AttackView),
    FinishResolvingCredentials { target_faction: Faction, target_job: Job },
    FinishResolvingItems { target_items: Seq<Item> },
}

pub ghost enum PTurnView {
    TurnStart { player: Player },
    GameOver { winner: Faction },
    TradePending { offerer: Player, target: Player, item: Option<Item> },
    ResolvingTradeTrigger {
        offerer: Player,
        target: Player,
        is_first_item: bool,
        trigger: PTriggerView,
    },
    Attacking { attacker: Player, defender: Player, state: PAttackView },
    DonatingItem { donor: Player },
}

impl View for PerspectiveTradeTriggerState {
    type V = PTriggerView;

    open spec fn view(&self) -> PTriggerView {
        match self {
            PerspectiveTradeTriggerState::Priviledge { items } => PTriggerView::Priviledge {
                items: match items {
                    Some(v) => Some(v@),
                    None => None,
                },
            },
            PerspectiveTradeTriggerState::Monocle { faction } => PTriggerView::Monocle {
                faction: *faction,
            },
            PerspectiveTradeTriggerState::Coat { available_jobs } => PTriggerView::Coat {
                available_jobs: match available_jobs {
                    Some(v) => Some(v@),
                    None => None,
                },
            },
            PerspectiveTradeTriggerState::Sextant { item_selections, is_forward } =>
                PTriggerView::Sextant { item_selections: item_selections@, is_forward: *is_forward },
        }
    }
}

impl View for PerspectiveAttackState {
    type V = PAttackView;

    open spec fn view(&self) -> PAttackView {
        match self {
            PerspectiveAttackState::Normal(s) => PAttackView::Normal(s@),
            PerspectiveAttackState::FinishResolvingCredentials { target_faction, target_job } =>
                PAttackView::FinishResolvingCredentials {
                target_faction: *target_faction,
                target_job: *target_job,
            },
            PerspectiveAttackState::FinishResolvingItems { target_items } =>
                PAttackView::FinishResolvingItems { target_items: target_items@ },
        }
    }
}

impl View for PerspectiveTurnState {
    type V = PTurnView;

    open spec fn view(&self) -> PTurnView {
        match self {
            PerspectiveTurnState::TurnStart { player } => PTurnView::TurnStart { player: *player },
            PerspectiveTurnState::GameOver { winner } => PTurnView::GameOver { winner: *winner },
            PerspectiveTurnState::TradePending { offerer, target, item } =>
                PTurnView::TradePending { offerer: *offerer, target: *target, item: *item },
            PerspectiveTurnState::ResolvingTradeTrigger {
                offerer,
                target,
                is_first_item,
                trigger,
            } => PTurnView::ResolvingTradeTrigger {
                offerer: *offerer,
                target: *target,
                is_first_item: *is_first_item,
                trigger: trigger@,
            },
            PerspectiveTurnState::Attacking { attacker, defender, state } => PTurnView::Attacking {
                attacker: *attacker,
                defender: *defender,
                state: state@,
            },
            PerspectiveTurnState::DonatingItem { donor } => PTurnView::DonatingItem {
                donor: *donor,
            },
        }
    }
}

/// What a client learns about itself when it connects.
#[derive(Clone, Debug, PartialEq)]
pub enum MyState {
    LoggedIn { my_games: Vec<String> },
    LoggedOut,
}

/// What a client sees of one game: the lobby, or its perspective once started.
#[derive(Clone, Debug, PartialEq)]
pub enum GameInfo {
    WaitingForPlayers { players: Vec<Player>, you: Option<Player> },
    Game(Perspective),
}

/// A request about one game: joining the lobby, leaving it, starting the game, or playing.
#[derive(Clone, Debug, PartialEq)]
pub enum GameCommand {
    JoinGame(Player),
    LeaveGame,
    StartGame,
    Command(Command),
}

} // verus!
