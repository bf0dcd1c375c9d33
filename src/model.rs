//! The mathematical model of the ledger's tables and of a chat's leaderboard.

use vstd::prelude::*;

verus! {

/// One row of the stat table: the length that `uid` has in chat `chat_id`.
#[derive(Clone, Copy, Debug, PartialEq, Eq, Structural)]
pub struct StatRecord {
    pub uid: u64,
    pub chat_id: i64,
    pub length: i32,
}

/// Whether `v` can be stored as a length.
pub open spec fn fits_i32(v: int) -> bool {
    i32::MIN <= v <= i32::MAX
}

/// A record with length `a_len` of user `a_uid` stands above one with `b_len`
/// of `b_uid`: the longer first, and on equal lengths the smaller user id.
pub open spec fn ranks_above(a_len: int, a_uid: u64, b_len: int, b_uid: u64) -> bool {
    a_len > b_len || (a_len == b_len && a_uid < b_uid)
}

/// Index of the record of (`uid`, `chat_id`) in `s`, or -1 where there is none.
pub open spec fn stat_index(s: Seq<StatRecord>, uid: u64, chat_id: i64) -> int
    decreases s.len(),
{
    if s.len() == 0 {
        -1
    } else if s.last().uid == uid && s.last().chat_id == chat_id {
        s.len() - 1
    } else {
        stat_index(s.drop_last(), uid, chat_id)
    }
}

pub open spec fn has_stat(s: Seq<StatRecord>, uid: u64, chat_id: i64) -> bool {
    stat_index(s, uid, chat_id) >= 0
}

/// The length of (`uid`, `chat_id`); zero where no record exists yet.
pub open spec fn length_of(s: Seq<StatRecord>, uid: u64, chat_id: i64) -> int {
    if has_stat(s, uid, chat_id) {
        s[stat_index(s, uid, chat_id)].length as int
    } else {
        0
    }
}

/// One record per (user, chat).
pub open spec fn stats_unique(s: Seq<StatRecord>) -> bool {
    forall|i: int, j: int|
        0 <= i < j < s.len() ==> !(#[trigger] s[i].uid == #[trigger] s[j].uid && s[i].chat_id
            == s[j].chat_id)
}

/// Number of records of `chat_id` that stand above a record of length `len` and user `uid`.
pub open spec fn count_above(s: Seq<StatRecord>, chat_id: i64, len: int, uid: u64) -> nat
    decreases s.len(),
{
    if s.len() == 0 {
        0
    } else {
        let r = s.last();
        count_above(s.drop_last(), chat_id, len, uid) + if r.chat_id == chat_id && ranks_above(
            r.length as int,
            r.uid,
            len,
            uid,
        ) {
            1nat
        } else {
            0nat
        }
    }
}

/// Number of records of `chat_id`.
pub open spec fn chat_size(s: Seq<StatRecord>, chat_id: i64) -> nat
    decreases s.len(),
{
    if s.len() == 0 {
        0
    } else {
        chat_size(s.drop_last(), chat_id) + if s.last().chat_id == chat_id {
            1nat
        } else {
            0nat
        }
    }
}

/// The 1-based place of `uid` on the leaderboard of `chat_id`.
pub open spec fn position(s: Seq<StatRecord>, chat_id: i64, uid: u64) -> nat {
    count_above(s, chat_id, length_of(s, uid, chat_id), uid) + 1
}

/// The record at index `j` is of `chat_id` and has exactly `k` records of the chat above it.
pub open spec fn holds_rank(s: Seq<StatRecord>, chat_id: i64, j: int, k: int) -> bool {
    0 <= j < s.len() && s[j].chat_id == chat_id && count_above(
        s,
        chat_id,
        s[j].length as int,
        s[j].uid,
    ) == k
}

/// Some record of `chat_id` has exactly `k` records of the chat above it.
pub open spec fn rank_taken(s: Seq<StatRecord>, chat_id: i64, k: int) -> bool {
    exists|j: int| holds_rank(s, chat_id, j, k)
}

/// Whether adding `delta` to the length of (`uid`, `chat_id`) keeps it storable.
pub open spec fn grow_fits(s: Seq<StatRecord>, uid: u64, chat_id: i64, delta: int) -> bool {
    fits_i32(length_of(s, uid, chat_id) + delta)
}

/// The table after adding `delta` to (`uid`, `chat_id`): the record is
/// created with length `delta` where it did not exist.
pub open spec fn grow_stats(s: Seq<StatRecord>, uid: u64, chat_id: i64, delta: int) -> Seq<
    StatRecord,
> {
    let i = stat_index(s, uid, chat_id);
    if i >= 0 {
        s.update(
            i,
            StatRecord { uid, chat_id, length: (s[i].length + delta) as i32 },
        )
    } else {
        s.push(StatRecord { uid, chat_id, length: delta as i32 })
    }
}

/// The place of the index found for (`uid`, `chat_id`).
pub proof fn lemma_stat_index(s: Seq<StatRecord>, uid: u64, chat_id: i64)
    ensures
        -1 <= stat_index(s, uid, chat_id) < s.len(),
        stat_index(s, uid, chat_id) >= 0 ==> s[stat_index(s, uid, chat_id)].uid == uid
            && s[stat_index(s, uid, chat_id)].chat_id == chat_id,
        stat_index(s, uid, chat_id) < 0 ==> forall|j: int|
            0 <= j < s.len() ==> !(#[trigger] s[j].uid == uid && s[j].chat_id == chat_id),
    decreases s.len(),
{
    if s.len() > 0 {
        lemma_stat_index(s.drop_last(), uid, chat_id);
        if !(s.last().uid == uid && s.last().chat_id == chat_id) {
            assert forall|j: int| 0 <= j < s.len() - 1 implies s[j] == s.drop_last()[j] by {}
        }
    }
}

/// In a table with one record per (user, chat), any record of (`uid`, `chat_id`) is the one found.
pub proof fn lemma_stat_index_unique(s: Seq<StatRecord>, uid: u64, chat_id: i64, j: int)
    requires
        stats_unique(s),
        0 <= j < s.len(),
        s[j].uid == uid,
        s[j].chat_id == chat_id,
    ensures
        stat_index(s, uid, chat_id) == j,
{
    lemma_stat_index(s, uid, chat_id);
    let i = stat_index(s, uid, chat_id);
    if i != j {
        if i < j {
            assert(s[i].uid == s[j].uid);
        } else {
            assert(s[j].uid == s[i].uid);
        }
    }
}

/// Tables whose keys agree at every index find the same index for every key.
pub proof fn lemma_stat_index_same_keys(a: Seq<StatRecord>, b: Seq<StatRecord>, uid: u64, chat_id: i64)
    requires
        a.len() == b.len(),
        forall|j: int|
            0 <= j < a.len() ==> #[trigger] a[j].uid == b[j].uid && a[j].chat_id == b[j].chat_id,
    ensures
        stat_index(a, uid, chat_id) == stat_index(b, uid, chat_id),
    decreases a.len(),
{
    if a.len() > 0 {
        lemma_stat_index_same_keys(a.drop_last(), b.drop_last(), uid, chat_id);
    }
}

/// A record that does not stand above (`len`, `uid`) keeps the count below the table's size.
pub proof fn lemma_count_above_lt(s: Seq<StatRecord>, chat_id: i64, len: int, uid: u64, j: int)
    requires
        0 <= j < s.len(),
        !(s[j].chat_id == chat_id && ranks_above(s[j].length as int, s[j].uid, len, uid)),
    ensures
        count_above(s, chat_id, len, uid) < s.len(),
    decreases s.len(),
{
    lemma_count_above_le(s.drop_last(), chat_id, len, uid);
    if j < s.len() - 1 {
        assert(s.drop_last()[j] == s[j]);
        lemma_count_above_lt(s.drop_last(), chat_id, len, uid, j);
    }
}

/// The count never exceeds the table's size.
pub proof fn lemma_count_above_le(s: Seq<StatRecord>, chat_id: i64, len: int, uid: u64)
    ensures
        count_above(s, chat_id, len, uid) <= s.len(),
    decreases s.len(),
{
    if s.len() > 0 {
        lemma_count_above_le(s.drop_last(), chat_id, len, uid);
    }
}

/// After a growth that fits, the record exists with the added length, and
/// every other (user, chat) keeps its record and length.
pub proof fn lemma_grow_length(s: Seq<StatRecord>, uid: u64, chat_id: i64, delta: int)
    requires
        stats_unique(s),
        grow_fits(s, uid, chat_id, delta),
    ensures
        stats_unique(grow_stats(s, uid, chat_id, delta)),
        has_stat(grow_stats(s, uid, chat_id, delta), uid, chat_id),
        length_of(grow_stats(s, uid, chat_id, delta), uid, chat_id) == length_of(s, uid, chat_id)
            + delta,
        forall|u: u64, c: i64|
            !(u == uid && c == chat_id) ==> #[trigger] stat_index(grow_stats(s, uid, chat_id, delta), u, c)
                == stat_index(s, u, c),
        forall|u: u64, c: i64|
            !(u == uid && c == chat_id) ==> #[trigger] length_of(grow_stats(s, uid, chat_id, delta), u, c)
                == length_of(s, u, c),
{
    let g = grow_stats(s, uid, chat_id, delta);
    lemma_stat_index(s, uid, chat_id);
    let i = stat_index(s, uid, chat_id);
    if i >= 0 {
        assert forall|u: u64, c: i64| #[trigger] stat_index(g, u, c) == stat_index(s, u, c) by {
            lemma_stat_index_same_keys(s, g, u, c);
        }
        assert forall|u: u64, c: i64| !(u == uid && c == chat_id) implies #[trigger] length_of(g, u, c)
            == length_of(s, u, c) by {
            lemma_stat_index(s, u, c);
        }
    } else {
        assert(g.drop_last() =~= s);
        assert forall|u: u64, c: i64| !(u == uid && c == chat_id) implies #[trigger] length_of(g, u, c)
            == length_of(s, u, c) by {
            lemma_stat_index(s, u, c);
        }
    }
}

/// A record of `chat_id` above (`len`, `uid`) makes the count positive.
pub proof fn lemma_count_above_member(s: Seq<StatRecord>, chat_id: i64, len: int, uid: u64, i: int)
    requires
        0 <= i < s.len(),
        s[i].chat_id == chat_id,
        ranks_above(s[i].length as int, s[i].uid, len, uid),
    ensures
        count_above(s, chat_id, len, uid) > 0,
    decreases s.len(),
{
    if i < s.len() - 1 {
        assert(s.drop_last()[i] == s[i]);
        lemma_count_above_member(s.drop_last(), chat_id, len, uid, i);
    }
}

/// Where some record of `chat_id` stands above (`len`, `uid`), one of them
/// stands above no other of them.
pub proof fn lemma_lowest_above(s: Seq<StatRecord>, chat_id: i64, len: int, uid: u64) -> (m: int)
    requires
        count_above(s, chat_id, len, uid) > 0,
    ensures
        0 <= m < s.len(),
        s[m].chat_id == chat_id,
        ranks_above(s[m].length as int, s[m].uid, len, uid),
        forall|i: int|
            0 <= i < s.len() && s[i].chat_id == chat_id && ranks_above(
                s[i].length as int,
                s[i].uid,
                len,
                uid,
            ) ==> !ranks_above(s[m].length as int, s[m].uid, #[trigger] s[i].length as int, s[i].uid),
    decreases s.len(),
{
    let t = s.drop_last();
    let last = s.len() - 1;
    let in_last = s[last].chat_id == chat_id && ranks_above(s[last].length as int, s[last].uid, len, uid);
    if count_above(t, chat_id, len, uid) > 0 {
        let m0 = lemma_lowest_above(t, chat_id, len, uid);
        assert(s[m0] == t[m0]);
        assert forall|i: int| 0 <= i < last implies s[i] == t[i] by {}
        if in_last && ranks_above(s[m0].length as int, s[m0].uid, s[last].length as int, s[last].uid) {
            last
        } else {
            m0
        }
    } else {
        assert forall|i: int|
            0 <= i < last && s[i].chat_id == chat_id && ranks_above(s[i].length as int, s[i].uid, len, uid)
            implies false by {
            assert(s[i] == t[i]);
            lemma_count_above_member(t, chat_id, len, uid, i);
        }
        last
    }
}

/// Where every record of `chat_id` stands above (`xl`, `xu`) exactly when it
/// stands above (`yl`, `yu`) or is the record of `yu`, the counts differ by
/// that one record.
pub proof fn lemma_count_step(s: Seq<StatRecord>, chat_id: i64, xl: int, xu: u64, yl: int, yu: u64)
    requires
        stats_unique(s),
        forall|i: int|
            0 <= i < s.len() && #[trigger] s[i].chat_id == chat_id ==> (ranks_above(
                s[i].length as int,
                s[i].uid,
                xl,
                xu,
            ) <==> (ranks_above(s[i].length as int, s[i].uid, yl, yu) || s[i].uid == yu)),
        forall|i: int|
            0 <= i < s.len() && #[trigger] s[i].chat_id == chat_id && s[i].uid == yu ==> s[i].length == yl,
    ensures
        count_above(s, chat_id, xl, xu) == count_above(s, chat_id, yl, yu) + if has_stat(s, yu, chat_id) {
            1int
        } else {
            0int
        },
    decreases s.len(),
{
    if s.len() > 0 {
        let t = s.drop_last();
        let last = s.len() - 1;
        assert forall|i: int| 0 <= i < t.len() implies t[i] == s[i] by {}
        lemma_count_step(t, chat_id, xl, xu, yl, yu);
        if s[last].chat_id == chat_id && s[last].uid == yu {
            lemma_stat_index(t, yu, chat_id);
            if stat_index(t, yu, chat_id) >= 0 {
                let k = stat_index(t, yu, chat_id);
                assert(s[k].uid == s[last].uid);
            }
        }
    }
}

/// The places taken on a leaderboard run without a gap from the top.
pub proof fn lemma_rank_taken_below(s: Seq<StatRecord>, chat_id: i64, k: int, k2: int)
    requires
        stats_unique(s),
        rank_taken(s, chat_id, k),
        0 <= k2 <= k,
    ensures
        rank_taken(s, chat_id, k2),
    decreases k - k2,
{
    if k2 < k {
        let j = choose|j: int| holds_rank(s, chat_id, j, k);
        let xl = s[j].length as int;
        let xu = s[j].uid;
        let m = lemma_lowest_above(s, chat_id, xl, xu);
        let yl = s[m].length as int;
        let yu = s[m].uid;
        assert forall|i: int| 0 <= i < s.len() && #[trigger] s[i].chat_id == chat_id implies (
        ranks_above(s[i].length as int, s[i].uid, xl, xu) <==> (ranks_above(
            s[i].length as int,
            s[i].uid,
            yl,
            yu,
        ) || s[i].uid == yu)) by {
            if s[i].uid == yu && i != m {
                if i < m {
                    assert(s[i].uid == s[m].uid);
                } else {
                    assert(s[m].uid == s[i].uid);
                }
            }
        }
        assert forall|i: int| 0 <= i < s.len() && #[trigger] s[i].chat_id == chat_id && s[i].uid == yu
            implies s[i].length == yl by {
            if i != m {
                if i < m {
                    assert(s[i].uid == s[m].uid);
                } else {
                    assert(s[m].uid == s[i].uid);
                }
            }
        }
        lemma_count_step(s, chat_id, xl, xu, yl, yu);
        lemma_stat_index_unique(s, yu, chat_id, m);
        assert(holds_rank(s, chat_id, m, k - 1));
        lemma_rank_taken_below(s, chat_id, k - 1, k2);
    }
}

} // verus!
