//! A cache of Google calendars and tasks, the service that keeps it, and the protocol in which
//! clients ask for it.
pub mod agenda;
pub mod asked;
pub mod browser;
pub mod bytes;
pub mod cli;
pub mod conduct;
pub mod database;
pub mod entries;
pub mod error;
pub mod flow;
pub mod google;
pub mod handed;
pub mod http;
pub mod integrity;
pub mod json;
pub mod kept;
pub mod link;
pub mod listed;
pub mod normalize;
pub mod oauth;
pub mod order;
pub mod outcomes;
pub mod promises;
pub mod protocol;
pub mod records;
pub mod rounds;
pub mod secrets;
pub mod service;
pub mod spoken;
pub mod state;
pub mod table;
pub mod tables;
pub mod taken;
pub mod text;
pub mod time;
pub mod told;
pub mod transitions;

pub use database::Database;
pub use entries::{AuthResult, CalendarEntry, TaskListEntry};
pub use error::{CalendarError, Result};
pub use json::{Json, JsonObject};
pub use oauth::{OAuthAttempt, OAuthPhase};
pub use protocol::default_paths;
pub use secrets::SecretStore;
pub use service::CalendarService;

use vstd::prelude::*;

verus! {

/// The longest request or response line that the daemon accepts, in bytes.
pub const MAX_MESSAGE_BYTES: usize = 1048576;

} // verus!
