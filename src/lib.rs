//! Rules engine of a hidden-role trading and fighting game for three or more
//! players: the state machine that validates and applies each player's
//! command, the dealer, and the per-player redacted view of the table.
pub mod model;
pub mod protocol;
pub mod roster;
pub mod rules;
pub mod engine;
pub mod perspective;
pub mod deal;
pub mod laws;
pub mod session;

pub use engine::{GameState, State};
pub use model::{inventory_limit, Faction, Item, Job, JobUseError, Player, PlayerState};
pub use protocol::{
    AttackRole, AttackState, AttackSupport, AttackWinner, Buff, BuffScore, BuffSource, Command,
    CommandError, GameCommand, GameInfo, ItemDonationFollowup, MyState, Perspective,
    PerspectiveAttackState, PerspectivePlayer, PerspectiveTradeTriggerState, PerspectiveTurnState,
    TradeTriggerState, TurnState,
};
pub use roster::GameStatePlayers;
pub use session::{logged_in, logout, me_loggedout, LoggedIn, SessionUpdate};
