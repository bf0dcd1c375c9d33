use dick_grower_bot::{
    init, ChatIdKind, Counter, Database, Dicks, FeatureToggles, LedgerError, PvpOutcome, Users,
};

const CHAT: i64 = -1001;

fn db_with_users(uids: &[u64]) -> Database {
    let mut db = Database::new();
    let users = Users::new();
    for uid in uids {
        users.create_or_update(&mut db, *uid, &format!("user {uid}"));
    }
    db
}

#[test]
fn growths_are_never_lost() {
    let mut db = db_with_users(&[1]);
    let dicks = Dicks::new(FeatureToggles::default());
    let chat = ChatIdKind::ID(CHAT);
    let deltas = [3, -7, 0, 12, 5, -1];
    for d in deltas {
        dicks.create_or_grow(&mut db, 1, &chat, d).unwrap();
    }
    assert_eq!(db.stat(1, CHAT), Some(deltas.iter().sum::<i32>()));
    assert_eq!(db.row_count(), 1);
}

#[test]
fn growth_may_go_negative() {
    let mut db = db_with_users(&[1]);
    let dicks = Dicks::new(FeatureToggles::default());
    let g = dicks.create_or_grow(&mut db, 1, &ChatIdKind::ID(CHAT), -4).unwrap();
    assert_eq!(g.new_length, -4);
    assert_eq!(g.pos_in_top, Some(1));
}

#[test]
fn consecutive_pages_join_up() {
    let mut db = db_with_users(&[1, 2, 3, 4, 5]);
    let dicks = Dicks::new(FeatureToggles::default());
    let chat = ChatIdKind::ID(CHAT);
    for (uid, d) in [(1u64, 10), (2, 30), (3, 20), (4, 30), (5, -2)] {
        dicks.create_or_grow(&mut db, uid, &chat, d).unwrap();
    }
    let first = dicks.get_top(&db, &chat, 0, 2).unwrap();
    let second = dicks.get_top(&db, &chat, 2, 2).unwrap();
    let whole = dicks.get_top(&db, &chat, 0, 4).unwrap();
    let joined: Vec<u64> = first.iter().chain(second.iter()).map(|d| d.owner_uid).collect();
    let expected: Vec<u64> = whole.iter().map(|d| d.owner_uid).collect();
    assert_eq!(joined, expected);
    assert_eq!(expected, vec![2, 4, 3, 1]);
    let rest = dicks.get_top(&db, &chat, 4, 10).unwrap();
    assert_eq!(rest.len(), 1);
    assert_eq!(rest[0].owner_uid, 5);
    assert_eq!(rest[0].length, -2);
    assert_eq!(dicks.get_top(&db, &chat, 5, 10).unwrap().len(), 0);
}

#[test]
fn equal_lengths_rank_smaller_user_first() {
    let mut db = db_with_users(&[9, 4]);
    let dicks = Dicks::new(FeatureToggles::default());
    let chat = ChatIdKind::ID(CHAT);
    let g9 = dicks.create_or_grow(&mut db, 9, &chat, 7).unwrap();
    assert_eq!(g9.pos_in_top, Some(1));
    let g4 = dicks.create_or_grow(&mut db, 4, &chat, 7).unwrap();
    assert_eq!(g4.pos_in_top, Some(1));
    let top = dicks.get_top(&db, &chat, 0, 5).unwrap();
    assert_eq!(top.iter().map(|d| d.owner_uid).collect::<Vec<_>>(), vec![4, 9]);
    assert_eq!(top[1].owner_name, "user 9");
}

#[test]
fn chats_are_isolated() {
    let mut db = db_with_users(&[1, 2]);
    let dicks = Dicks::new(FeatureToggles::default());
    dicks.create_or_grow(&mut db, 1, &ChatIdKind::ID(1), 50).unwrap();
    let g = dicks.create_or_grow(&mut db, 2, &ChatIdKind::ID(2), 1).unwrap();
    assert_eq!(g.pos_in_top, Some(1));
    assert_eq!(dicks.get_top(&db, &ChatIdKind::ID(2), 0, 10).unwrap().len(), 1);
}

#[test]
fn daily_winner_without_record_writes_nothing() {
    let mut db = db_with_users(&[1, 2]);
    let dicks = Dicks::new(FeatureToggles::default());
    let chat = ChatIdKind::ID(CHAT);
    dicks.create_or_grow(&mut db, 1, &chat, 3).unwrap();
    let rows = db.row_count();
    assert_eq!(dicks.set_dod_winner(&mut db, &chat, 2, 10), Ok(None));
    assert_eq!(db.row_count(), rows);
    assert_eq!(db.stat(2, CHAT), None);
}

#[test]
fn toggle_off_never_reports_a_place() {
    let mut db = db_with_users(&[1, 2]);
    let dicks = Dicks::new(FeatureToggles { top_unlimited: false });
    let chat = ChatIdKind::ID(CHAT);
    assert_eq!(dicks.create_or_grow(&mut db, 1, &chat, 3).unwrap().pos_in_top, None);
    assert_eq!(dicks.create_or_grow(&mut db, 2, &chat, 1).unwrap().pos_in_top, None);
    assert_eq!(dicks.create_or_grow(&mut db, 2, &chat, 1).unwrap().new_length, 2);
}

#[test]
fn growth_reports_the_new_place() {
    let mut db = db_with_users(&[1, 2, 3]);
    let dicks = Dicks::new(FeatureToggles::default());
    let chat = ChatIdKind::ID(CHAT);
    dicks.create_or_grow(&mut db, 1, &chat, 10).unwrap();
    dicks.create_or_grow(&mut db, 2, &chat, 20).unwrap();
    assert_eq!(dicks.create_or_grow(&mut db, 3, &chat, 15).unwrap().pos_in_top, Some(2));
    assert_eq!(dicks.create_or_grow(&mut db, 1, &chat, 11).unwrap().pos_in_top, Some(1));
}

#[test]
fn opposite_duels_keep_the_total() {
    let mut db = db_with_users(&[1, 2]);
    let dicks = Dicks::new(FeatureToggles::default());
    let chat = ChatIdKind::ID(CHAT);
    dicks.create_or_grow(&mut db, 1, &chat, 10).unwrap();
    dicks.create_or_grow(&mut db, 2, &chat, 4).unwrap();
    let first = dicks.pvp_transfer(&mut db, &chat, 1, 2, 6, true).unwrap();
    assert_eq!(first, PvpOutcome { winner_uid: 1, winner_length: 16, loser_length: -2 });
    let second = dicks.pvp_transfer(&mut db, &chat, 2, 1, 3, true).unwrap();
    assert_eq!(second, PvpOutcome { winner_uid: 2, winner_length: 1, loser_length: 13 });
    assert_eq!(db.stat(1, CHAT).unwrap() + db.stat(2, CHAT).unwrap(), 14);
    let third = dicks.pvp_transfer(&mut db, &chat, 1, 2, 5, false).unwrap();
    assert_eq!(third.winner_uid, 2);
    assert_eq!(db.stat(1, CHAT), Some(8));
    assert_eq!(db.stat(2, CHAT), Some(6));
}

#[test]
fn duel_errors() {
    let mut db = db_with_users(&[1, 2, 3]);
    let dicks = Dicks::new(FeatureToggles::default());
    let chat = ChatIdKind::ID(CHAT);
    dicks.create_or_grow(&mut db, 1, &chat, 10).unwrap();
    dicks.create_or_grow(&mut db, 2, &chat, i32::MAX).unwrap();
    assert_eq!(dicks.pvp_transfer(&mut db, &chat, 1, 1, 1, true), Err(LedgerError::SamePlayer));
    assert_eq!(dicks.pvp_transfer(&mut db, &chat, 1, 3, 1, true), Err(LedgerError::NoRecord));
    assert_eq!(dicks.pvp_transfer(&mut db, &chat, 1, 2, 1, false), Err(LedgerError::LengthOverflow));
    assert_eq!(db.stat(1, CHAT), Some(10));
    assert_eq!(db.stat(2, CHAT), Some(i32::MAX));
}

#[test]
fn growth_errors() {
    let mut db = db_with_users(&[1]);
    let dicks = Dicks::new(FeatureToggles::default());
    let chat = ChatIdKind::ID(CHAT);
    assert_eq!(dicks.create_or_grow(&mut db, 2, &chat, 1), Err(LedgerError::UnknownUser));
    dicks.create_or_grow(&mut db, 1, &chat, i32::MAX - 1).unwrap();
    assert_eq!(dicks.create_or_grow(&mut db, 1, &chat, 2), Err(LedgerError::LengthOverflow));
    assert_eq!(dicks.set_dod_winner(&mut db, &chat, 1, 2), Err(LedgerError::LengthOverflow));
    assert_eq!(db.stat(1, CHAT), Some(i32::MAX - 1));
    assert_eq!(dicks.get_top(&db, &chat, 0, 0).unwrap_err(), LedgerError::InvalidLimit);
}

#[test]
fn chat_handles_resolve_through_bindings() {
    let mut db = db_with_users(&[1]);
    let dicks = Dicks::new(FeatureToggles::default());
    let handle = ChatIdKind::Instance("inline-42".to_string());
    assert_eq!(dicks.create_or_grow(&mut db, 1, &handle, 1), Err(LedgerError::UnresolvedChat));
    assert_eq!(
        dicks.create_or_grow(&mut db, 1, &ChatIdKind::Instance(String::new()), 1),
        Err(LedgerError::InvalidChat)
    );
    assert_eq!(db.bind_chat(String::new(), 5), Err(LedgerError::InvalidChat));
    assert_eq!(db.bind_chat("inline-42".to_string(), CHAT), Ok(()));
    assert_eq!(db.resolve_chat(&handle), Ok(CHAT));
    dicks.create_or_grow(&mut db, 1, &handle, 4).unwrap();
    assert_eq!(db.stat(1, CHAT), Some(4));
    let top = dicks.get_top(&db, &ChatIdKind::ID(CHAT), 0, 1).unwrap();
    assert_eq!(top[0].length, 4);
    assert_eq!(db.bind_chat("inline-42".to_string(), 7), Ok(()));
    assert_eq!(db.resolve_chat(&handle), Ok(7));
    assert_eq!(dicks.get_top(&db, &handle, 0, 1).unwrap().len(), 0);
}

#[test]
fn renaming_a_user_shows_on_the_leaderboard() {
    let mut db = db_with_users(&[1]);
    let dicks = Dicks::new(FeatureToggles::default());
    let chat = ChatIdKind::ID(CHAT);
    dicks.create_or_grow(&mut db, 1, &chat, 1).unwrap();
    let u = Users::new().create_or_update(&mut db, 1, "renamed");
    assert_eq!(u.name, "renamed");
    assert_eq!(dicks.get_top(&db, &chat, 0, 1).unwrap()[0].owner_name, "renamed");
}

#[test]
fn counters_count() {
    let mut m = init();
    assert_eq!(m.cmd_grow.chat.get(), 0);
    assert_eq!(m.cmd_grow.chat.name(), "command_grow (chat)");
    m.cmd_grow.chat.inc();
    m.cmd_grow.chat.inc();
    assert_eq!(m.cmd_grow.chat.get(), 2);
    assert_eq!(m.cmd_grow.inline.get(), 0);
    m.cmd_import.invoked();
    assert_eq!(m.cmd_import.invoked_count(), 1);
    assert_eq!(m.cmd_import.finished_count(), 0);
    m.cmd_import.finished();
    assert_eq!(m.cmd_import.finished_count(), 1);
    let mut c = Counter::new("x");
    c.inc();
    assert_eq!(c.get(), 1);
}
