//! The bots that put the server under load, and what their runs show.
pub mod allocate;
pub mod connect;
pub mod echo;
pub mod fickle;
pub mod integrity;
pub mod random;
pub mod ratio;
pub mod report;
pub mod scenario;

pub use self::allocate::allocate;
pub use self::connect::SERVER_ADDR;
pub use self::echo::BOT_RECV_TIMEOUT_SECS;
pub use self::integrity::{check_vote_integrity, tally_votes, FickleResult, VoteIntegrityResult};
pub use self::ratio::{BotType, RatioSpec};
pub use self::report::{RttCounter, ScenarioReport};
pub use self::scenario::GHOST_HOLD_SECS;
