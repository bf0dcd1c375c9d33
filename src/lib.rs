//! A per-chat growth-and-ranking ledger: users grow a signed "length" in each
//! chat, duel for it, win a daily bonus, and are ranked on each chat's
//! leaderboard.

mod chat;
mod config;
mod database;
mod dicks;
mod laws;
mod metrics;
mod model;
mod users;

pub use chat::ChatIdKind;
pub use config::FeatureToggles;
pub use database::{binding_index, handles_unique, resolve_spec, ChatBinding, Database, LedgerError};
pub use dicks::{
    duel_stats, entry_at_rank, growth_result_spec, is_top_page, Dick, Dicks, GrowthResult, PvpOutcome,
};
pub use laws::{
    all_fit, duel_fits, grow_all, lemma_duel_conserves, lemma_first_growth_tops_empty_chat,
    lemma_no_lost_updates, lemma_pages_concatenate, lemma_two_duels_conserve, sum,
};
pub use metrics::{init, BothModesCounters, ComplexCommandCounters, Counter, Metrics};
pub use model::{
    chat_size, count_above, fits_i32, grow_fits, grow_stats, has_stat, holds_rank, length_of,
    position, rank_taken, ranks_above, stat_index, stats_unique, StatRecord,
};
pub use users::{has_user, name_of, user_index, users_unique, User, Users};
