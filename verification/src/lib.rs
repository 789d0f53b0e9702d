//! Core of the League account manager: account records, their ordering,
//! filtering and import, the parsing of OP.GG profile pages, and the keyboard
//! state machines of the desktop front end. The front end itself (windows,
//! files, the credential store and the network) lives in the application.

pub mod models;
pub mod text;
pub mod utils;
pub mod rank_fetcher;
pub mod credentials;
pub mod account_manager;
pub mod shortcuts;
pub mod session;
pub mod auto_type;

pub use account_manager::AccountManager;
pub use models::{Account, RankInfo};
pub use rank_fetcher::{RankFetcher, RankProvider};
