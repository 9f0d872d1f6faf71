//! Command-dispatch and interactive-response core of a chat-platform bot.
//!
//! The crate models and verifies the coordination logic of the bot: the
//! stream tokenizer for prefix commands, the immutable command registry,
//! the token-bucket rate limiter and exponential-backoff retry policy of
//! the outbound client, the leaderboard multi-fetch merge, the dispatcher
//! policy checks, the reaction-driven pagination state machine, and the
//! guild configuration cache. Network, database and platform collaborators
//! stay outside; they hand the library plain values and take plain values
//! back.

mod backoff;
mod commands;
mod config;
mod configs;
mod custom_client;
mod datetime;
mod dispatch;
mod embeds;
mod emote;
mod error;
mod help;
mod lev;
mod matcher;
mod osu;
mod pagination;
mod parse;
mod registry;
mod ratelimit;
mod retry;
mod scores;
mod stream;
mod text;

pub use backoff::ExponentialBackoff;
pub use commands::{EnableDisable, GameModeOption, GradeOption, Leaderboard, LeaderboardArgs, MinMaxAvg, ModsResult, Nlb, ScoreOrder, ShowHideOption, ThreadChannel};
pub use config::{BotConfig, Paths, Tokens};
pub use configs::{apply_prefix_update, GuildConfig, GuildConfigs, PrefixAction};
pub use datetime::HowLongAgoDynamic;
pub use embeds::{GradeEmotes, LeaderboardEmbed, LeaderboardPagination, MapInfo, RankStatus, RowData};
pub use emote::{Emote, Emotes};
pub use custom_client::{is_transient_status, leaderboard_url, looks_like_html, map_file_url, merge_leaderboard_results, plan_leaderboard, status_is_error, LeaderboardPlan, RateLimitedClient, Site};
pub use error::{CustomClientError, ErrorKind};
pub use retry::{RetryState, RetryStep};
pub use dispatch::{check_policy, decide_interaction, decide_message, find_prefix, InteractionAction, MessageAction, PolicyCheck, PolicyError};
pub use help::{current_prefixes, help_suggestions};
pub use lev::levenshtein_distance;
pub use matcher::{get_mods, get_osu_map_id, get_osu_mapset_id, is_custom_emote};
pub use osu::{flag_url_svg, EmbedInfo, GameMode, Grade, MapIdType, MessageInfo, ModSelection, Mods};
pub use scores::{merge_batch, ScoreEntry};
pub use stream::Stream;
pub use text::{u64_to_dec, with_comma_u64};
pub use registry::{CommandFlags, CommandHandler, PrefixCommand, PrefixCommandGroup, PrefixCommands, SlashCommand, SlashCommands};
pub use parse::{parse_invoke, Invoke};
pub use pagination::{PageChange, Pages, PaginationSession, SessionAction, SessionEvent};
pub use ratelimit::TokenBucket;
