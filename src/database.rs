//! The ledger's store: users, chat handle bindings and stat records, with the
//! invariants that the relational schema enforces.

use vstd::prelude::*;

use crate::chat::ChatIdKind;
use crate::model::{
    grow_stats, has_stat, length_of, lemma_stat_index, stats_unique, StatRecord, stat_index,
    count_above, holds_rank, rank_taken, grow_fits, lemma_stat_index_unique,
};
use crate::users::{has_user, lemma_user_index, name_of, user_index, users_unique, User};

verus! {

/// A symbolic chat handle bound to a numeric chat id.
#[derive(Debug)]
pub struct ChatBinding {
    pub handle: String,
    pub chat_id: i64,
}

/// Why a ledger operation was refused.
#[derive(Clone, Copy, Debug, PartialEq, Eq, Structural)]
pub enum LedgerError {
    /// The chat reference is malformed (an empty handle).
    InvalidChat,
    /// The chat handle is bound to no chat id.
    UnresolvedChat,
    /// A page of the leaderboard was asked for with limit zero.
    InvalidLimit,
    /// The user is not in the identity store.
    UnknownUser,
    /// The resulting length does not fit the stored integer.
    LengthOverflow,
    /// A duel of a user against themselves.
    SamePlayer,
    /// A duellist has no record in the chat.
    NoRecord,
}

/// Index of the binding of `h` in `b`, or -1 where there is none.
pub open spec fn binding_index(b: Seq<ChatBinding>, h: Seq<char>) -> int
    decreases b.len(),
{
    if b.len() == 0 {
        -1
    } else if b.last().handle@ == h {
        b.len() - 1
    } else {
        binding_index(b.drop_last(), h)
    }
}

/// The numeric chat id that `c` stands for under the bindings `b`.
pub open spec fn resolve_spec(b: Seq<ChatBinding>, c: ChatIdKind) -> Result<i64, LedgerError> {
    match c {
        ChatIdKind::ID(id) => Ok(id),
        ChatIdKind::Instance(h) => {
            if h@.len() == 0 {
                Err(LedgerError::InvalidChat)
            } else if binding_index(b, h@) >= 0 {
                Ok(b[binding_index(b, h@)].chat_id)
            } else {
                Err(LedgerError::UnresolvedChat)
            }
        },
    }
}

/// Handles are bound once each.
pub open spec fn handles_unique(b: Seq<ChatBinding>) -> bool {
    forall|i: int, j: int|
        0 <= i < j < b.len() ==> #[trigger] b[i].handle@ != #[trigger] b[j].handle@
}

/// The place of the index found for `h`.
pub proof fn lemma_binding_index(b: Seq<ChatBinding>, h: Seq<char>)
    ensures
        -1 <= binding_index(b, h) < b.len(),
        binding_index(b, h) >= 0 ==> b[binding_index(b, h)].handle@ == h,
        binding_index(b, h) < 0 ==> forall|j: int|
            0 <= j < b.len() ==> #[trigger] b[j].handle@ != h,
    decreases b.len(),
{
    if b.len() > 0 {
        lemma_binding_index(b.drop_last(), h);
        if b.last().handle@ != h {
            assert forall|j: int| 0 <= j < b.len() - 1 implies b[j] == b.drop_last()[j] by {}
        }
    }
}

/// The store of the ledger.
pub struct Database {
    pub(crate) users: Vec<User>,
    pub(crate) chats: Vec<ChatBinding>,
    pub(crate) stats: Vec<StatRecord>,
}

impl Database {
    /// The user table.
    pub closed spec fn users(&self) -> Seq<User> {
        self.users@
    }

    /// The chat handle bindings.
    pub closed spec fn chats(&self) -> Seq<ChatBinding> {
        self.chats@
    }

    /// The stat table.
    pub closed spec fn stats(&self) -> Seq<StatRecord> {
        self.stats@
    }

    /// Keys are unique in each table, and every record belongs to a known user.
    pub open spec fn wf(&self) -> bool {
        &&& users_unique(self.users())
        &&& handles_unique(self.chats())
        &&& stats_unique(self.stats())
        &&& forall|j: int|
            0 <= j < self.stats().len() ==> has_user(self.users(), #[trigger] self.stats()[j].uid)
    }

    /// An empty store.
    pub fn new() -> (r: Database)
        ensures
            r.wf(),
            r.users().len() == 0,
            r.chats().len() == 0,
            r.stats().len() == 0,
    {
        Database { users: Vec::new(), chats: Vec::new(), stats: Vec::new() }
    }

    /// Number of stat records, over all chats.
    pub fn row_count(&self) -> (r: usize)
        ensures
            r == self.stats().len(),
    {
        self.stats.len()
    }

    /// The length of (`uid`, `chat_id`), where a record exists.
    pub fn stat(&self, uid: u64, chat_id: i64) -> (r: Option<i32>)
        ensures
            r.is_some() == has_stat(self.stats(), uid, chat_id),
            r.is_some() ==> r.unwrap() == length_of(self.stats(), uid, chat_id),
    {
        match self.find_stat(uid, chat_id) {
            Some(i) => Some(self.stats[i].length),
            None => None,
        }
    }

    /// The numeric chat id that `c` stands for.
    pub fn resolve_chat(&self, c: &ChatIdKind) -> (r: Result<i64, LedgerError>)
        ensures
            r == resolve_spec(self.chats(), *c),
    {
        match c {
            ChatIdKind::ID(id) => Ok(*id),
            ChatIdKind::Instance(h) => {
                if h.as_str().is_empty() {
                    return Err(LedgerError::InvalidChat);
                }
                match self.find_binding(h) {
                    Some(i) => Ok(self.chats[i].chat_id),
                    None => Err(LedgerError::UnresolvedChat),
                }
            },
        }
    }

    fn find_binding(&self, h: &String) -> (r: Option<usize>)
        ensures
            r.is_some() == (binding_index(self.chats(), h@) >= 0),
            r.is_some() ==> r.unwrap() == binding_index(self.chats(), h@) && r.unwrap() < self.chats().len(),
    {
        let mut i: usize = self.chats.len();
        assert(self.chats@.subrange(0, i as int) =~= self.chats@);
        while i > 0
            invariant
                i <= self.chats@.len(),
                binding_index(self.chats@, h@) == binding_index(self.chats@.subrange(0, i as int), h@),
            decreases i,
        {
            let ghost pre = self.chats@.subrange(0, i as int);
            assert(pre.drop_last() =~= self.chats@.subrange(0, i - 1));
            if self.chats[i - 1].handle == *h {
                return Some(i - 1);
            }
            i = i - 1;
        }
        None
    }

    /// Binds the handle `handle` to the chat `chat_id`, replacing an earlier binding.
    pub fn bind_chat(&mut self, handle: String, chat_id: i64) -> (r: Result<(), LedgerError>)
        requires
            old(self).wf(),
        ensures
            final(self).wf(),
            handle@.len() == 0 ==> r == Err::<(), LedgerError>(LedgerError::InvalidChat)
                && *final(self) == *old(self),
            handle@.len() > 0 ==> r is Ok && resolve_spec(
                final(self).chats(),
                ChatIdKind::Instance(handle),
            ) == Ok::<i64, LedgerError>(chat_id),
            forall|c: ChatIdKind|
                !(c is Instance && c->Instance_0@ == handle@) ==> #[trigger] resolve_spec(
                    final(self).chats(),
                    c,
                ) == resolve_spec(old(self).chats(), c),
            final(self).users() == old(self).users(),
            final(self).stats() == old(self).stats(),
    {
        if handle.as_str().is_empty() {
            return Err(LedgerError::InvalidChat);
        }
        let ghost h = handle@;
        proof {
            lemma_binding_index(self.chats@, h);
        }
        match self.find_binding(&handle) {
            Some(i) => {
                let old_handle = self.chats[i].handle.clone();
                self.chats.set(i, ChatBinding { handle: old_handle, chat_id });
                proof {
                    assert forall|h2: Seq<char>| #[trigger] binding_index(self.chats@, h2) == binding_index(old(self).chats@, h2) by {
                        lemma_binding_index_same_handles(old(self).chats@, self.chats@, h2);
                    }
                    assert forall|c: ChatIdKind| !(c is Instance && c->Instance_0@ == h) implies #[trigger] resolve_spec(self.chats@, c) == resolve_spec(old(self).chats@, c) by {
                        if let ChatIdKind::Instance(h2) = c {
                            lemma_binding_index(old(self).chats@, h2@);
                        }
                    }
                }
            },
            None => {
                self.chats.push(ChatBinding { handle, chat_id });
                proof {
                    assert(self.chats@.drop_last() =~= old(self).chats@);
                    assert forall|c: ChatIdKind| !(c is Instance && c->Instance_0@ == h) implies #[trigger] resolve_spec(self.chats@, c) == resolve_spec(old(self).chats@, c) by {
                        if let ChatIdKind::Instance(h2) = c {
                            lemma_binding_index(old(self).chats@, h2@);
                        }
                    }
                }
            },
        }
        Ok(())
    }
}

impl Database {
    pub(crate) fn find_user(&self, uid: u64) -> (r: Option<usize>)
        ensures
            r.is_some() == has_user(self.users(), uid),
            r.is_some() ==> r.unwrap() == user_index(self.users(), uid) && r.unwrap() < self.users().len(),
    {
        let mut i: usize = self.users.len();
        assert(self.users@.subrange(0, i as int) =~= self.users@);
        while i > 0
            invariant
                i <= self.users@.len(),
                user_index(self.users@, uid) == user_index(self.users@.subrange(0, i as int), uid),
            decreases i,
        {
            assert(self.users@.subrange(0, i as int).drop_last() =~= self.users@.subrange(0, i - 1));
            if self.users[i - 1].uid == uid {
                return Some(i - 1);
            }
            i = i - 1;
        }
        None
    }

    /// Inserts the user `uid` named `name`, or renames them.
    pub(crate) fn upsert_user(&mut self, uid: u64, name: &str)
        requires
            old(self).wf(),
        ensures
            final(self).wf(),
            has_user(final(self).users(), uid),
            name_of(final(self).users(), uid) == name@,
            forall|v: u64|
                v != uid ==> #[trigger] has_user(final(self).users(), v) == has_user(
                    old(self).users(),
                    v,
                ),
            forall|v: u64|
                v != uid && has_user(old(self).users(), v) ==> #[trigger] name_of(
                    final(self).users(),
                    v,
                ) == name_of(old(self).users(), v),
            final(self).stats() == old(self).stats(),
            final(self).chats() == old(self).chats(),
    {
        proof {
            lemma_user_index(self.users@, uid);
        }
        match self.find_user(uid) {
            Some(i) => {
                self.users.set(i, User { uid, name: name.to_owned() });
                proof {
                    assert forall|v: u64| #[trigger] user_index(self.users@, v) == user_index(old(self).users@, v) by {
                        lemma_user_index_same_uids(old(self).users@, self.users@, v);
                    }
                    assert forall|v: u64| v != uid && has_user(old(self).users@, v) implies #[trigger] name_of(self.users@, v) == name_of(old(self).users@, v) by {
                        lemma_user_index(old(self).users@, v);
                    }
                    assert forall|j: int| 0 <= j < self.stats@.len() implies has_user(self.users@, #[trigger] self.stats@[j].uid) by {
                        lemma_user_index_same_uids(old(self).users@, self.users@, self.stats@[j].uid);
                    }
                }
            },
            None => {
                self.users.push(User { uid, name: name.to_owned() });
                proof {
                    assert(self.users@.drop_last() =~= old(self).users@);
                    assert forall|v: u64| v != uid implies #[trigger] user_index(self.users@, v) == user_index(old(self).users@, v) by {}
                    assert forall|v: u64| v != uid && has_user(old(self).users@, v) implies #[trigger] name_of(self.users@, v) == name_of(old(self).users@, v) by {
                        lemma_user_index(old(self).users@, v);
                    }
                    assert forall|j: int| 0 <= j < self.stats@.len() implies has_user(self.users@, #[trigger] self.stats@[j].uid) by {
                        let v = self.stats@[j].uid;
                        if v == uid {
                            assert(has_user(old(self).users@, v));
                            assert(false);
                        }
                    }
                }
            },
        }
    }

    pub(crate) fn find_stat(&self, uid: u64, chat_id: i64) -> (r: Option<usize>)
        ensures
            r.is_some() == has_stat(self.stats(), uid, chat_id),
            r.is_some() ==> r.unwrap() == stat_index(self.stats(), uid, chat_id) && r.unwrap() < self.stats().len(),
    {
        let mut i: usize = self.stats.len();
        assert(self.stats@.subrange(0, i as int) =~= self.stats@);
        while i > 0
            invariant
                i <= self.stats@.len(),
                stat_index(self.stats@, uid, chat_id) == stat_index(self.stats@.subrange(0, i as int), uid, chat_id),
            decreases i,
        {
            assert(self.stats@.subrange(0, i as int).drop_last() =~= self.stats@.subrange(0, i - 1));
            if self.stats[i - 1].uid == uid && self.stats[i - 1].chat_id == chat_id {
                return Some(i - 1);
            }
            i = i - 1;
        }
        None
    }

    /// Adds `delta` to the length of (`uid`, `chat_id`), creating the record
    /// where it does not exist; refused, with nothing written, where the
    /// result does not fit.
    pub(crate) fn grow(&mut self, uid: u64, chat_id: i64, delta: i64) -> (r: Result<
        i32,
        LedgerError,
    >)
        requires
            old(self).wf(),
            has_user(old(self).users(), uid),
            -0x1_0000_0000 <= delta <= 0x1_0000_0000,
        ensures
            final(self).wf(),
            final(self).users() == old(self).users(),
            final(self).chats() == old(self).chats(),
            grow_fits(old(self).stats(), uid, chat_id, delta as int) ==> r is Ok
                && final(self).stats() == grow_stats(old(self).stats(), uid, chat_id, delta as int)
                && r.unwrap() == length_of(old(self).stats(), uid, chat_id) + delta,
            !grow_fits(old(self).stats(), uid, chat_id, delta as int) ==> r == Err::<i32, LedgerError>(
                LedgerError::LengthOverflow,
            ) && *final(self) == *old(self),
    {
        proof {
            lemma_stat_index(self.stats@, uid, chat_id);
        }
        match self.find_stat(uid, chat_id) {
            Some(i) => {
                let total: i64 = self.stats[i].length as i64 + delta;
                if total < i32::MIN as i64 || total > i32::MAX as i64 {
                    return Err(LedgerError::LengthOverflow);
                }
                self.stats.set(i, StatRecord { uid, chat_id, length: total as i32 });
                assert(self.stats@ == grow_stats(old(self).stats@, uid, chat_id, delta as int));
                Ok(total as i32)
            },
            None => {
                if delta < i32::MIN as i64 || delta > i32::MAX as i64 {
                    return Err(LedgerError::LengthOverflow);
                }
                self.stats.push(StatRecord { uid, chat_id, length: delta as i32 });
                assert(self.stats@ == grow_stats(old(self).stats@, uid, chat_id, delta as int));
                Ok(delta as i32)
            },
        }
    }

    pub(crate) fn record(&self, j: usize) -> (r: StatRecord)
        requires
            j < self.stats().len(),
        ensures
            r == self.stats()[j as int],
    {
        self.stats[j]
    }

    /// A copy of the display name of a known user.
    pub(crate) fn user_name(&self, uid: u64) -> (r: String)
        requires
            has_user(self.users(), uid),
        ensures
            r@ == name_of(self.users(), uid),
    {
        proof {
            lemma_user_index(self.users@, uid);
        }
        match self.find_user(uid) {
            Some(i) => self.users[i].name.clone(),
            None => String::new(),
        }
    }

    /// Number of records of `chat_id` above a record of length `len` of `uid`.
    pub(crate) fn count_above_exec(&self, chat_id: i64, len: i32, uid: u64) -> (r: usize)
        ensures
            r == count_above(self.stats(), chat_id, len as int, uid),
            self.stats().len() <= usize::MAX,
    {
        let mut c: usize = 0;
        let mut i: usize = 0;
        while i < self.stats.len()
            invariant
                i <= self.stats@.len(),
                c <= i,
                c == count_above(self.stats@.subrange(0, i as int), chat_id, len as int, uid),
            decreases self.stats@.len() - i,
        {
            assert(self.stats@.subrange(0, i + 1).drop_last() =~= self.stats@.subrange(0, i as int));
            let r = self.stats[i];
            if r.chat_id == chat_id && (r.length > len || (r.length == len && r.uid < uid)) {
                c = c + 1;
            }
            i = i + 1;
        }
        assert(self.stats@.subrange(0, i as int) =~= self.stats@);
        c
    }

    /// The index of the record of `chat_id` with exactly `k` records of the chat above it.
    pub(crate) fn find_rank(&self, chat_id: i64, k: u64) -> (r: Option<usize>)
        ensures
            r.is_some() ==> holds_rank(self.stats(), chat_id, r.unwrap() as int, k as int),
            r.is_none() ==> !rank_taken(self.stats(), chat_id, k as int),
    {
        let mut j: usize = 0;
        while j < self.stats.len()
            invariant
                j <= self.stats@.len(),
                forall|jj: int| 0 <= jj < j ==> !holds_rank(self.stats@, chat_id, jj, k as int),
            decreases self.stats@.len() - j,
        {
            let r = self.stats[j];
            if r.chat_id == chat_id {
                let c = self.count_above_exec(chat_id, r.length, r.uid);
                if c as u64 == k {
                    return Some(j);
                }
            }
            j = j + 1;
        }
        None
    }
}

/// Tables whose user ids agree at every index find the same index for `uid`.
proof fn lemma_user_index_same_uids(a: Seq<User>, b: Seq<User>, uid: u64)
    requires
        a.len() == b.len(),
        forall|j: int| 0 <= j < a.len() ==> #[trigger] a[j].uid == b[j].uid,
    ensures
        user_index(a, uid) == user_index(b, uid),
    decreases a.len(),
{
    if a.len() > 0 {
        lemma_user_index_same_uids(a.drop_last(), b.drop_last(), uid);
    }
}

/// Tables whose handles agree at every index find the same index for `h`.
proof fn lemma_binding_index_same_handles(a: Seq<ChatBinding>, b: Seq<ChatBinding>, h: Seq<char>)
    requires
        a.len() == b.len(),
        forall|j: int| 0 <= j < a.len() ==> #[trigger] a[j].handle@ == b[j].handle@,
    ensures
        binding_index(a, h) == binding_index(b, h),
    decreases a.len(),
{
    if a.len() > 0 {
        lemma_binding_index_same_handles(a.drop_last(), b.drop_last(), h);
    }
}

} // verus!
