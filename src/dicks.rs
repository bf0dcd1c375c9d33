//! The chat-scoped stat ledger: growth, the daily winner's bonus, duels, and
//! pages of a chat's leaderboard.

use vstd::prelude::*;

use crate::chat::ChatIdKind;
use crate::config::FeatureToggles;
use crate::database::{resolve_spec, Database, LedgerError};
use crate::model::{
    grow_fits, grow_stats, has_stat, holds_rank, length_of, lemma_count_above_lt, lemma_grow_length,
    lemma_stat_index, position, rank_taken, stat_index, StatRecord,
};
use crate::users::{has_user, lemma_user_index, name_of};

verus! {

/// One line of a chat's leaderboard.
#[derive(Debug)]
pub struct Dick {
    pub owner_uid: u64,
    pub owner_name: String,
    pub length: i32,
}

/// What a growth leaves: the new length and, where computed, the grower's place.
#[derive(Clone, Copy, Debug, PartialEq, Eq, Structural)]
pub struct GrowthResult {
    pub new_length: i32,
    pub pos_in_top: Option<u64>,
}

/// What a duel leaves: who won and both resulting lengths.
#[derive(Clone, Copy, Debug, PartialEq, Eq, Structural)]
pub struct PvpOutcome {
    pub winner_uid: u64,
    pub winner_length: i32,
    pub loser_length: i32,
}

/// `e` is the line of the leaderboard of `chat_id` with exactly `k` records above it.
pub open spec fn entry_at_rank(
    s: Seq<StatRecord>,
    u: Seq<crate::users::User>,
    chat_id: i64,
    k: int,
    e: Dick,
) -> bool {
    exists|j: int|
        holds_rank(s, chat_id, j, k) && e.owner_uid == #[trigger] s[j].uid && e.length
            == s[j].length && e.owner_name@ == name_of(u, s[j].uid)
}

/// `page` is the part of the leaderboard of `chat_id` that starts at place
/// `offset` (0-based) and holds at most `limit` lines: shorter only where the
/// leaderboard ends.
pub open spec fn is_top_page(
    s: Seq<StatRecord>,
    u: Seq<crate::users::User>,
    chat_id: i64,
    offset: int,
    limit: int,
    page: Seq<Dick>,
) -> bool {
    &&& page.len() <= limit
    &&& forall|i: int|
        0 <= i < page.len() ==> entry_at_rank(s, u, chat_id, offset + i, #[trigger] page[i])
    &&& page.len() < limit ==> !rank_taken(s, chat_id, offset + page.len())
}

/// The result of a growth of `uid` in `chat_id` that leaves the table `s`.
pub open spec fn growth_result_spec(
    top_unlimited: bool,
    s: Seq<StatRecord>,
    uid: u64,
    chat_id: i64,
) -> GrowthResult {
    GrowthResult {
        new_length: length_of(s, uid, chat_id) as i32,
        pos_in_top: if top_unlimited {
            Some(position(s, chat_id, uid) as u64)
        } else {
            None
        },
    }
}

/// The table after a duel in `chat_id` in which `stake` moves from `loser` to `winner`.
pub open spec fn duel_stats(
    s: Seq<StatRecord>,
    chat_id: i64,
    winner: u64,
    loser: u64,
    stake: int,
) -> Seq<StatRecord> {
    grow_stats(grow_stats(s, winner, chat_id, stake), loser, chat_id, -stake)
}

/// The ledger's operations under one set of feature toggles.
pub struct Dicks {
    pub features: FeatureToggles,
}

impl Dicks {
    pub fn new(features: FeatureToggles) -> (r: Dicks)
        ensures
            r.features == features,
    {
        Dicks { features }
    }

    /// Adds `delta` to (`uid`, `chat_id`) and reports the new length and, where
    /// the toggle asks for it, the place in the chat.
    fn apply_growth(
        &self,
        db: &mut Database,
        uid: u64,
        chat_id: i64,
        delta: i64,
    ) -> (r: Result<GrowthResult, LedgerError>)
        requires
            old(db).wf(),
            has_user(old(db).users(), uid),
            -0x1_0000_0000 <= delta <= 0x1_0000_0000,
        ensures
            final(db).wf(),
            final(db).users() == old(db).users(),
            final(db).chats() == old(db).chats(),
            grow_fits(old(db).stats(), uid, chat_id, delta as int) ==> {
                &&& final(db).stats() == grow_stats(old(db).stats(), uid, chat_id, delta as int)
                &&& r == Ok::<GrowthResult, LedgerError>(
                    growth_result_spec(self.features.top_unlimited, final(db).stats(), uid, chat_id),
                )
                &&& length_of(final(db).stats(), uid, chat_id) == length_of(old(db).stats(), uid, chat_id)
                    + delta
            },
            !grow_fits(old(db).stats(), uid, chat_id, delta as int) ==> {
                &&& r == Err::<GrowthResult, LedgerError>(LedgerError::LengthOverflow)
                &&& *final(db) == *old(db)
            },
    {
        let new_length = match db.grow(uid, chat_id, delta) {
            Ok(v) => v,
            Err(e) => {
                return Err(e);
            },
        };
        proof {
            lemma_grow_length(old(db).stats(), uid, chat_id, delta as int);
        }
        if !self.features.top_unlimited {
            return Ok(GrowthResult { new_length, pos_in_top: None });
        }
        let ghost s = db.stats();
        let c = db.count_above_exec(chat_id, new_length, uid);
        proof {
            lemma_stat_index(s, uid, chat_id);
            lemma_count_above_lt(s, chat_id, new_length as int, uid, stat_index(s, uid, chat_id));
        }
        Ok(GrowthResult { new_length, pos_in_top: Some(c as u64 + 1) })
    }

    /// Adds `increment` to the length of `uid` in `chat`, creating the record
    /// with that length where there is none.
    pub fn create_or_grow(
        &self,
        db: &mut Database,
        uid: u64,
        chat: &ChatIdKind,
        increment: i32,
    ) -> (r: Result<GrowthResult, LedgerError>)
        requires
            old(db).wf(),
        ensures
            final(db).wf(),
            final(db).users() == old(db).users(),
            final(db).chats() == old(db).chats(),
            match resolve_spec(old(db).chats(), *chat) {
                Err(e) => r == Err::<GrowthResult, LedgerError>(e) && *final(db) == *old(db),
                Ok(c) => if !has_user(old(db).users(), uid) {
                    r == Err::<GrowthResult, LedgerError>(LedgerError::UnknownUser)
                        && *final(db) == *old(db)
                } else if !grow_fits(old(db).stats(), uid, c, increment as int) {
                    r == Err::<GrowthResult, LedgerError>(LedgerError::LengthOverflow)
                        && *final(db) == *old(db)
                } else {
                    &&& final(db).stats() == grow_stats(old(db).stats(), uid, c, increment as int)
                    &&& r == Ok::<GrowthResult, LedgerError>(
                        growth_result_spec(self.features.top_unlimited, final(db).stats(), uid, c),
                    )
                    &&& length_of(final(db).stats(), uid, c) == length_of(old(db).stats(), uid, c)
                        + increment
                },
            },
    {
        let chat_id = match db.resolve_chat(chat) {
            Ok(c) => c,
            Err(e) => {
                return Err(e);
            },
        };
        if db.find_user(uid).is_none() {
            return Err(LedgerError::UnknownUser);
        }
        self.apply_growth(db, uid, chat_id, increment as i64)
    }

    /// Adds the daily winner's `bonus` to `uid` in `chat`, but only where the
    /// user already has a record there: otherwise nothing is written.
    pub fn set_dod_winner(
        &self,
        db: &mut Database,
        chat: &ChatIdKind,
        uid: u64,
        bonus: u32,
    ) -> (r: Result<Option<GrowthResult>, LedgerError>)
        requires
            old(db).wf(),
        ensures
            final(db).wf(),
            final(db).users() == old(db).users(),
            final(db).chats() == old(db).chats(),
            match resolve_spec(old(db).chats(), *chat) {
                Err(e) => r == Err::<Option<GrowthResult>, LedgerError>(e) && *final(db) == *old(db),
                Ok(c) => if !has_stat(old(db).stats(), uid, c) {
                    r == Ok::<Option<GrowthResult>, LedgerError>(None) && *final(db) == *old(db)
                } else if !grow_fits(old(db).stats(), uid, c, bonus as int) {
                    r == Err::<Option<GrowthResult>, LedgerError>(LedgerError::LengthOverflow)
                        && *final(db) == *old(db)
                } else {
                    &&& final(db).stats() == grow_stats(old(db).stats(), uid, c, bonus as int)
                    &&& r == Ok::<Option<GrowthResult>, LedgerError>(
                        Some(growth_result_spec(self.features.top_unlimited, final(db).stats(), uid, c)),
                    )
                    &&& length_of(final(db).stats(), uid, c) == length_of(old(db).stats(), uid, c)
                        + bonus
                },
            },
    {
        let chat_id = match db.resolve_chat(chat) {
            Ok(c) => c,
            Err(e) => {
                return Err(e);
            },
        };
        match db.find_stat(uid, chat_id) {
            None => Ok(None),
            Some(i) => {
                proof {
                    lemma_stat_index(db.stats(), uid, chat_id);
                    assert(has_user(db.users(), db.stats()[i as int].uid));
                }
                match self.apply_growth(db, uid, chat_id, bonus as i64) {
                    Ok(g) => Ok(Some(g)),
                    Err(e) => Err(e),
                }
            },
        }
    }

    /// The part of the leaderboard of `chat` that starts at place `offset`
    /// (0-based) and holds at most `limit` lines, longest first and, on equal
    /// lengths, the smaller user id first.
    pub fn get_top(
        &self,
        db: &Database,
        chat: &ChatIdKind,
        offset: u64,
        limit: u64,
    ) -> (r: Result<Vec<Dick>, LedgerError>)
        requires
            db.wf(),
        ensures
            limit == 0 ==> r == Err::<Vec<Dick>, LedgerError>(LedgerError::InvalidLimit),
            limit > 0 ==> match resolve_spec(db.chats(), *chat) {
                Err(e) => r == Err::<Vec<Dick>, LedgerError>(e),
                Ok(c) => r is Ok && is_top_page(
                    db.stats(),
                    db.users(),
                    c,
                    offset as int,
                    limit as int,
                    r.unwrap()@,
                ),
            },
    {
        if limit == 0 {
            return Err(LedgerError::InvalidLimit);
        }
        let chat_id = match db.resolve_chat(chat) {
            Ok(c) => c,
            Err(e) => {
                return Err(e);
            },
        };
        let ghost s = db.stats();
        let ghost u = db.users();
        let n = db.row_count();
        let mut page: Vec<Dick> = Vec::new();
        let mut k: u64 = offset;
        while (page.len() as u64) < limit
            invariant
                db.wf(),
                s == db.stats(),
                u == db.users(),
                n == s.len(),
                resolve_spec(db.chats(), *chat) == Ok::<i64, LedgerError>(chat_id),
                k == offset + page@.len(),
                page@.len() <= limit,
                forall|i: int| 0 <= i < page@.len() ==> entry_at_rank(s, u, chat_id, offset + i, #[trigger] page@[i]),
            decreases limit - page@.len(),
        {
            match db.find_rank(chat_id, k) {
                None => {
                    return Ok(page);
                },
                Some(j) => {
                    let rec = db.record(j);
                    proof {
                        lemma_count_above_lt(s, chat_id, rec.length as int, rec.uid, j as int);
                    }
                    let owner_name = db.user_name(rec.uid);
                    let ghost e = Dick { owner_uid: rec.uid, owner_name, length: rec.length };
                    page.push(Dick { owner_uid: rec.uid, owner_name, length: rec.length });
                    proof {
                        assert(entry_at_rank(s, u, chat_id, k as int, page@.last()));
                    }
                    k = k + 1;
                },
            }
        }
        Ok(page)
    }

    /// A duel in `chat` between `attacker` and `defender`: `stake` moves from
    /// the loser to the winner, both rows at once. Who wins is decided by the
    /// caller (`attacker_wins`).
    pub fn pvp_transfer(
        &self,
        db: &mut Database,
        chat: &ChatIdKind,
        attacker: u64,
        defender: u64,
        stake: u32,
        attacker_wins: bool,
    ) -> (r: Result<PvpOutcome, LedgerError>)
        requires
            old(db).wf(),
        ensures
            final(db).wf(),
            final(db).users() == old(db).users(),
            final(db).chats() == old(db).chats(),
            match resolve_spec(old(db).chats(), *chat) {
                Err(e) => r == Err::<PvpOutcome, LedgerError>(e) && *final(db) == *old(db),
                Ok(c) => {
                    let winner = if attacker_wins { attacker } else { defender };
                    let loser = if attacker_wins { defender } else { attacker };
                    let s = old(db).stats();
                    if attacker == defender {
                        r == Err::<PvpOutcome, LedgerError>(LedgerError::SamePlayer) && *final(db) == *old(db)
                    } else if !has_stat(s, attacker, c) || !has_stat(s, defender, c) {
                        r == Err::<PvpOutcome, LedgerError>(LedgerError::NoRecord) && *final(db) == *old(db)
                    } else if !grow_fits(s, winner, c, stake as int) || !grow_fits(s, loser, c, -stake) {
                        r == Err::<PvpOutcome, LedgerError>(LedgerError::LengthOverflow) && *final(db) == *old(db)
                    } else {
                        &&& final(db).stats() == duel_stats(s, c, winner, loser, stake as int)
                        &&& length_of(final(db).stats(), winner, c) == length_of(s, winner, c) + stake
                        &&& length_of(final(db).stats(), loser, c) == length_of(s, loser, c) - stake
                        &&& r == Ok::<PvpOutcome, LedgerError>(PvpOutcome {
                            winner_uid: winner,
                            winner_length: length_of(final(db).stats(), winner, c) as i32,
                            loser_length: length_of(final(db).stats(), loser, c) as i32,
                        })
                    }
                },
            },
    {
        let chat_id = match db.resolve_chat(chat) {
            Ok(c) => c,
            Err(e) => {
                return Err(e);
            },
        };
        if attacker == defender {
            return Err(LedgerError::SamePlayer);
        }
        let (winner, loser) = if attacker_wins {
            (attacker, defender)
        } else {
            (defender, attacker)
        };
        let (winner_len, loser_len) = match (db.stat(winner, chat_id), db.stat(loser, chat_id)) {
            (Some(w), Some(l)) => (w, l),
            _ => {
                return Err(LedgerError::NoRecord);
            },
        };
        let winner_total: i64 = winner_len as i64 + stake as i64;
        let loser_total: i64 = loser_len as i64 - stake as i64;
        if winner_total > i32::MAX as i64 || loser_total < i32::MIN as i64 {
            return Err(LedgerError::LengthOverflow);
        }
        let ghost s = db.stats();
        proof {
            lemma_stat_index(s, winner, chat_id);
            lemma_stat_index(s, loser, chat_id);
            assert(has_user(db.users(), s[stat_index(s, winner, chat_id)].uid));
            assert(has_user(db.users(), s[stat_index(s, loser, chat_id)].uid));
            lemma_grow_length(s, winner, chat_id, stake as int);
        }
        let w = db.grow(winner, chat_id, stake as i64);
        let ghost g = db.stats();
        proof {
            lemma_grow_length(g, loser, chat_id, -stake);
        }
        let l = db.grow(loser, chat_id, -(stake as i64));
        match (w, l) {
            (Ok(winner_length), Ok(loser_length)) => Ok(
                PvpOutcome { winner_uid: winner, winner_length, loser_length },
            ),
            _ => Err(LedgerError::LengthOverflow),
        }
    }
}

} // verus!
