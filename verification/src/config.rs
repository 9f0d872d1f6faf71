//! Bot-wide configuration, constructed once at startup from the
//! environment by the runtime around the library and threaded explicitly
//! into every component that needs it.

use vstd::prelude::*;

verus! {

/// Filesystem locations the bot works with.
pub struct Paths {
    /// Directory beatmap files are cached in.
    pub maps: String,
}

/// Credentials for the platform and the scoring API.
pub struct Tokens {
    pub discord: String,
    pub osu_client_id: u64,
    pub osu_client_secret: String,
    pub osu_session: String,
}

/// The bot's startup configuration.
pub struct BotConfig {
    pub tokens: Tokens,
    pub paths: Paths,
    /// Global fallback prefixes, used until a guild configures its own.
    pub prefixes: Vec<String>,
}

} // verus!
