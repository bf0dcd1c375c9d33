//! The identity store: users keyed by their external id, with a display name.

use vstd::prelude::*;

use crate::database::Database;

verus! {

/// A user as the ledger knows them.
#[derive(Debug)]
pub struct User {
    pub uid: u64,
    pub name: String,
}

/// Index of the user `uid` in `u`, or -1 where there is none.
pub open spec fn user_index(u: Seq<User>, uid: u64) -> int
    decreases u.len(),
{
    if u.len() == 0 {
        -1
    } else if u.last().uid == uid {
        u.len() - 1
    } else {
        user_index(u.drop_last(), uid)
    }
}

pub open spec fn has_user(u: Seq<User>, uid: u64) -> bool {
    user_index(u, uid) >= 0
}

/// The display name of `uid`.
pub open spec fn name_of(u: Seq<User>, uid: u64) -> Seq<char> {
    u[user_index(u, uid)].name@
}

/// One row per user id.
pub open spec fn users_unique(u: Seq<User>) -> bool {
    forall|i: int, j: int| 0 <= i < j < u.len() ==> #[trigger] u[i].uid != #[trigger] u[j].uid
}

/// The place of the index found for `uid`.
pub proof fn lemma_user_index(u: Seq<User>, uid: u64)
    ensures
        -1 <= user_index(u, uid) < u.len(),
        user_index(u, uid) >= 0 ==> u[user_index(u, uid)].uid == uid,
        user_index(u, uid) < 0 ==> forall|j: int| 0 <= j < u.len() ==> #[trigger] u[j].uid != uid,
    decreases u.len(),
{
    if u.len() > 0 {
        lemma_user_index(u.drop_last(), uid);
        if u.last().uid != uid {
            assert forall|j: int| 0 <= j < u.len() - 1 implies u[j] == u.drop_last()[j] by {}
        }
    }
}

/// The identity store's operations.
pub struct Users {}

impl Users {
    pub fn new() -> (r: Users) {
        Users {  }
    }

    /// Inserts the user `uid` named `name`, or renames the existing one.
    pub fn create_or_update(&self, db: &mut Database, uid: u64, name: &str) -> (r: User)
        requires
            old(db).wf(),
        ensures
            final(db).wf(),
            r.uid == uid,
            r.name@ == name@,
            has_user(final(db).users(), uid),
            name_of(final(db).users(), uid) == name@,
            forall|v: u64|
                v != uid ==> #[trigger] has_user(final(db).users(), v) == has_user(
                    old(db).users(),
                    v,
                ),
            forall|v: u64|
                v != uid && has_user(old(db).users(), v) ==> #[trigger] name_of(
                    final(db).users(),
                    v,
                ) == name_of(old(db).users(), v),
            final(db).stats() == old(db).stats(),
            final(db).chats() == old(db).chats(),
    {
        db.upsert_user(uid, name);
        User { uid, name: name.to_owned() }
    }
}

} // verus!
