use dick_grower_bot::{ChatIdKind, Database, Dicks, FeatureToggles, Users};

const UID: u64 = 12345;
const CHAT_ID: i64 = 67890;
const NAME: &str = "Test User";

fn create_user(db: &mut Database) {
    let users = Users::new();
    let user = users.create_or_update(db, UID, NAME);
    assert_eq!(user.uid, UID);
}

fn create_dick(db: &mut Database) {
    let dicks = Dicks::new(Default::default());
    dicks
        .create_or_grow(db, UID, &ChatIdKind::ID(CHAT_ID), 0)
        .expect("couldn't create a dick");
}

fn check_dick(db: &Database, length: u32) {
    let dicks = Dicks::new(Default::default());
    let top = dicks
        .get_top(db, &ChatIdKind::ID(CHAT_ID), 0, 2)
        .expect("couldn't fetch the top");
    assert_eq!(top.len(), 1);
    assert_eq!(top[0].length, length as i32);
    assert_eq!(top[0].owner_name, NAME);
}

fn check_top(dicks: &Dicks, db: &Database, chat_id: &ChatIdKind, length: i32) {
    let d = dicks.get_top(db, chat_id, 0, 1).expect("couldn't fetch the top again");
    assert_eq!(d.len(), 1);
    assert_eq!(d[0].length, length);
    assert_eq!(d[0].owner_name, NAME);
}

#[test]
fn test_all() {
    let mut db = Database::new();
    let dicks = Dicks::new(Default::default());
    create_user(&mut db);

    let user_id = UID;
    let chat_id = ChatIdKind::ID(CHAT_ID);
    let d = dicks.get_top(&db, &chat_id, 0, 1).expect("couldn't fetch the empty top");
    assert_eq!(d.len(), 0);

    let increment = 5;
    let growth = dicks
        .create_or_grow(&mut db, user_id, &chat_id, increment)
        .expect("couldn't grow a dick");
    assert_eq!(growth.pos_in_top, Some(1));
    assert_eq!(growth.new_length, increment);
    check_top(&dicks, &db, &chat_id, increment);

    let growth = dicks
        .set_dod_winner(&mut db, &chat_id, user_id, increment as u32)
        .expect("couldn't elect a winner")
        .expect("the winner hasn't a dick");
    assert_eq!(growth.pos_in_top, Some(1));
    let new_length = 2 * increment;
    assert_eq!(growth.new_length, new_length);
    check_top(&dicks, &db, &chat_id, new_length);
}

#[test]
fn test_all_with_top_pagination_disabled() {
    let mut db = Database::new();
    let dicks = {
        let mut features = FeatureToggles::default();
        features.top_unlimited = false;
        Dicks::new(features)
    };
    create_user(&mut db);

    let user_id = UID;
    let chat_id = ChatIdKind::ID(CHAT_ID);
    let d = dicks.get_top(&db, &chat_id, 0, 1).expect("couldn't fetch the empty top");
    assert_eq!(d.len(), 0);

    let increment = 5;
    let growth = dicks
        .create_or_grow(&mut db, user_id, &chat_id, increment)
        .expect("couldn't grow a dick");
    assert_eq!(growth.pos_in_top, None);
    assert_eq!(growth.new_length, increment);
    check_top(&dicks, &db, &chat_id, increment);

    let growth = dicks
        .set_dod_winner(&mut db, &chat_id, user_id, increment as u32)
        .expect("couldn't elect a winner")
        .expect("the winner hasn't a dick");
    assert_eq!(growth.pos_in_top, None);
    let new_length = 2 * increment;
    assert_eq!(growth.new_length, new_length);
    check_top(&dicks, &db, &chat_id, new_length);
}

#[test]
fn test_top_page() {
    let mut db = Database::new();
    let dicks = Dicks::new(Default::default());
    let chat_id = ChatIdKind::ID(CHAT_ID);
    let user2_name = format!("{NAME} 2");

    // create user and dick #1
    create_user(&mut db);
    create_dick(&mut db);
    check_dick(&db, 0);
    // create user and dick #2
    {
        let users = Users::new();
        let uid2 = UID + 1;
        users.create_or_update(&mut db, uid2, &user2_name);
        dicks
            .create_or_grow(&mut db, uid2, &chat_id, 1)
            .expect("couldn't create a dick");
    }

    let top_with_user2_only = dicks.get_top(&db, &chat_id, 0, 1).expect("couldn't fetch the top");
    assert_eq!(top_with_user2_only.len(), 1);
    assert_eq!(top_with_user2_only[0].owner_name, user2_name);
    assert_eq!(top_with_user2_only[0].length, 1);

    let top_with_user1_only = dicks.get_top(&db, &chat_id, 1, 1).expect("couldn't fetch the top");
    assert_eq!(top_with_user1_only.len(), 1);
    assert_eq!(top_with_user1_only[0].owner_name, NAME);
    assert_eq!(top_with_user1_only[0].length, 0);
}
