//! Properties of the ledger that relate several operations.

use vstd::prelude::*;

use crate::dicks::{duel_stats, is_top_page, Dick};
use crate::model::{
    chat_size, count_above, fits_i32, grow_fits, grow_stats, has_stat, holds_rank, length_of,
    lemma_grow_length, lemma_rank_taken_below, lemma_stat_index, position, rank_taken, stat_index,
    stats_unique, StatRecord,
};
use crate::users::User;

verus! {

/// The table after growing (`uid`, `chat_id`) by each of `deltas` in turn.
pub open spec fn grow_all(s: Seq<StatRecord>, uid: u64, chat_id: i64, deltas: Seq<int>) -> Seq<
    StatRecord,
>
    decreases deltas.len(),
{
    if deltas.len() == 0 {
        s
    } else {
        grow_stats(grow_all(s, uid, chat_id, deltas.drop_last()), uid, chat_id, deltas.last())
    }
}

/// Every growth of the run fits where it is applied.
pub open spec fn all_fit(s: Seq<StatRecord>, uid: u64, chat_id: i64, deltas: Seq<int>) -> bool
    decreases deltas.len(),
{
    deltas.len() == 0 || (all_fit(s, uid, chat_id, deltas.drop_last()) && grow_fits(
        grow_all(s, uid, chat_id, deltas.drop_last()),
        uid,
        chat_id,
        deltas.last(),
    ))
}

pub open spec fn sum(deltas: Seq<int>) -> int
    decreases deltas.len(),
{
    if deltas.len() == 0 {
        0
    } else {
        sum(deltas.drop_last()) + deltas.last()
    }
}

/// No growth is lost: after a run of growths of one (user, chat), its length
/// is the length before (zero where it had no record) plus the sum of the
/// deltas, and records of other users and chats are as they were.
pub proof fn lemma_no_lost_updates(s: Seq<StatRecord>, uid: u64, chat_id: i64, deltas: Seq<int>)
    requires
        stats_unique(s),
        all_fit(s, uid, chat_id, deltas),
    ensures
        stats_unique(grow_all(s, uid, chat_id, deltas)),
        length_of(grow_all(s, uid, chat_id, deltas), uid, chat_id) == length_of(s, uid, chat_id)
            + sum(deltas),
        forall|u: u64, c: i64|
            !(u == uid && c == chat_id) ==> #[trigger] length_of(grow_all(s, uid, chat_id, deltas), u, c)
                == length_of(s, u, c),
    decreases deltas.len(),
{
    if deltas.len() > 0 {
        lemma_no_lost_updates(s, uid, chat_id, deltas.drop_last());
        lemma_grow_length(grow_all(s, uid, chat_id, deltas.drop_last()), uid, chat_id, deltas.last());
    }
}

/// Pages read one after the other join up: the page of `n` lines from the top
/// followed by the page of `m` lines from place `n` is the page of `n + m`
/// lines from the top, and the two share no user.
pub proof fn lemma_pages_concatenate(
    s: Seq<StatRecord>,
    u: Seq<User>,
    chat_id: i64,
    n: nat,
    m: nat,
    first: Seq<Dick>,
    second: Seq<Dick>,
)
    requires
        stats_unique(s),
        is_top_page(s, u, chat_id, 0, n as int, first),
        is_top_page(s, u, chat_id, n as int, m as int, second),
    ensures
        is_top_page(s, u, chat_id, 0, (n + m) as int, first + second),
        forall|i: int, i2: int|
            0 <= i < first.len() && 0 <= i2 < second.len() ==> #[trigger] first[i].owner_uid
                != #[trigger] second[i2].owner_uid,
{
    let all = first + second;
    if first.len() < n && second.len() > 0 {
        assert(crate::dicks::entry_at_rank(s, u, chat_id, n as int + 0, second[0]));
        let j = choose|j: int|
            holds_rank(s, chat_id, j, n as int) && second[0].owner_uid == #[trigger] s[j].uid
                && second[0].length == s[j].length && second[0].owner_name@ == crate::users::name_of(u, s[j].uid);
        assert(rank_taken(s, chat_id, n as int));
        lemma_rank_taken_below(s, chat_id, n as int, first.len() as int);
        assert(rank_taken(s, chat_id, first.len() as int));
        assert(false);
    }
    assert forall|i: int| 0 <= i < all.len() implies crate::dicks::entry_at_rank(s, u, chat_id, 0 + i, #[trigger] all[i]) by {
        if i < first.len() {
            assert(all[i] == first[i]);
        } else {
            assert(all[i] == second[i - first.len()]);
            assert(crate::dicks::entry_at_rank(s, u, chat_id, n as int + (i - first.len()), second[i - first.len()]));
        }
    }
    assert forall|i: int, i2: int|
        0 <= i < first.len() && 0 <= i2 < second.len() implies #[trigger] first[i].owner_uid
            != #[trigger] second[i2].owner_uid by {
        assert(crate::dicks::entry_at_rank(s, u, chat_id, 0 + i, first[i]));
        assert(crate::dicks::entry_at_rank(s, u, chat_id, n as int + i2, second[i2]));
        let j1 = choose|j: int|
            holds_rank(s, chat_id, j, 0 + i) && first[i].owner_uid == #[trigger] s[j].uid
                && first[i].length == s[j].length && first[i].owner_name@ == crate::users::name_of(u, s[j].uid);
        let j2 = choose|j: int|
            holds_rank(s, chat_id, j, n as int + i2) && second[i2].owner_uid == #[trigger] s[j].uid
                && second[i2].length == s[j].length && second[i2].owner_name@ == crate::users::name_of(u, s[j].uid);
        if j1 < j2 {
            assert(s[j1].uid != s[j2].uid || s[j1].chat_id != s[j2].chat_id);
        } else {
            assert(s[j2].uid != s[j1].uid || s[j2].chat_id != s[j1].chat_id);
        }
    }
}

/// No record of `chat_id` stands above anything where the chat has no records.
proof fn lemma_empty_chat(s: Seq<StatRecord>, chat_id: i64, len: int, uid: u64)
    requires
        chat_size(s, chat_id) == 0,
    ensures
        count_above(s, chat_id, len, uid) == 0,
        forall|j: int| 0 <= j < s.len() ==> #[trigger] s[j].chat_id != chat_id,
    decreases s.len(),
{
    if s.len() > 0 {
        lemma_empty_chat(s.drop_last(), chat_id, len, uid);
        assert forall|j: int| 0 <= j < s.len() - 1 implies s[j] == s.drop_last()[j] by {}
    }
}

/// The first growth in a chat with no records puts the grower first.
pub proof fn lemma_first_growth_tops_empty_chat(s: Seq<StatRecord>, uid: u64, chat_id: i64, delta: int)
    requires
        stats_unique(s),
        chat_size(s, chat_id) == 0,
        fits_i32(delta),
    ensures
        position(grow_stats(s, uid, chat_id, delta), chat_id, uid) == 1,
{
    lemma_empty_chat(s, chat_id, delta, uid);
    lemma_stat_index(s, uid, chat_id);
    let g = grow_stats(s, uid, chat_id, delta);
    assert(g.drop_last() =~= s);
    assert(stat_index(g, uid, chat_id) == s.len());
}

/// The duel's growths both fit where they are applied.
pub open spec fn duel_fits(s: Seq<StatRecord>, chat_id: i64, winner: u64, loser: u64, stake: int) -> bool {
    grow_fits(s, winner, chat_id, stake) && grow_fits(grow_stats(s, winner, chat_id, stake), loser, chat_id, -stake)
}

/// A duel keeps the total of the two duellists' lengths, and their records.
pub proof fn lemma_duel_conserves(s: Seq<StatRecord>, chat_id: i64, winner: u64, loser: u64, stake: int)
    requires
        stats_unique(s),
        winner != loser,
        duel_fits(s, chat_id, winner, loser, stake),
    ensures
        stats_unique(duel_stats(s, chat_id, winner, loser, stake)),
        has_stat(duel_stats(s, chat_id, winner, loser, stake), winner, chat_id),
        has_stat(duel_stats(s, chat_id, winner, loser, stake), loser, chat_id),
        length_of(duel_stats(s, chat_id, winner, loser, stake), winner, chat_id) + length_of(
            duel_stats(s, chat_id, winner, loser, stake),
            loser,
            chat_id,
        ) == length_of(s, winner, chat_id) + length_of(s, loser, chat_id),
{
    let g = grow_stats(s, winner, chat_id, stake);
    lemma_grow_length(s, winner, chat_id, stake);
    lemma_grow_length(g, loser, chat_id, -stake);
    assert(stat_index(grow_stats(g, loser, chat_id, -stake), winner, chat_id) == stat_index(g, winner, chat_id));
}

/// Two duels between the same pair, in either roles and with any stakes,
/// keep the total of the pair's lengths.
pub proof fn lemma_two_duels_conserve(
    s: Seq<StatRecord>,
    chat_id: i64,
    a: u64,
    b: u64,
    first_won_by_a: bool,
    first_stake: int,
    second_won_by_a: bool,
    second_stake: int,
)
    requires
        stats_unique(s),
        a != b,
        duel_fits(
            s,
            chat_id,
            if first_won_by_a { a } else { b },
            if first_won_by_a { b } else { a },
            first_stake,
        ),
        duel_fits(
            duel_stats(
                s,
                chat_id,
                if first_won_by_a { a } else { b },
                if first_won_by_a { b } else { a },
                first_stake,
            ),
            chat_id,
            if second_won_by_a { a } else { b },
            if second_won_by_a { b } else { a },
            second_stake,
        ),
    ensures
        ({
            let mid = duel_stats(
                s,
                chat_id,
                if first_won_by_a { a } else { b },
                if first_won_by_a { b } else { a },
                first_stake,
            );
            let fin = duel_stats(
                mid,
                chat_id,
                if second_won_by_a { a } else { b },
                if second_won_by_a { b } else { a },
                second_stake,
            );
            length_of(fin, a, chat_id) + length_of(fin, b, chat_id) == length_of(s, a, chat_id)
                + length_of(s, b, chat_id)
        }),
{
    let (w1, l1) = if first_won_by_a { (a, b) } else { (b, a) };
    let (w2, l2) = if second_won_by_a { (a, b) } else { (b, a) };
    lemma_duel_conserves(s, chat_id, w1, l1, first_stake);
    lemma_duel_conserves(duel_stats(s, chat_id, w1, l1, first_stake), chat_id, w2, l2, second_stake);
}

} // verus!
