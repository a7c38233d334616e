use feoblog::ids::{Signature, Timestamp, UserID};
use feoblog::item::{FollowEntry, ItemData, ItemRow, ItemTypeData, PostData, ProfileData, QuotaDenyReason};
use feoblog::store::{SaveOutcome, Store, StoreError, CURRENT_SCHEMA_VERSION};

fn uid(tag: u8) -> UserID {
    UserID::from_vec(vec![tag; 32]).unwrap()
}

fn sig(tag: u8) -> Signature {
    Signature::from_vec(vec![tag; 64]).unwrap()
}

fn post_payload(ts: i64, title: &str, body: &str) -> ItemData {
    ItemData {
        timestamp_ms_utc: ts,
        utc_offset_minutes: 0,
        item_type: Some(ItemTypeData::Post(PostData {
            title: title.to_string(),
            body: body.to_string(),
        })),
    }
}

fn profile_payload(ts: i64, name: &str, follows: Vec<(u8, &str)>) -> ItemData {
    ItemData {
        timestamp_ms_utc: ts,
        utc_offset_minutes: 0,
        item_type: Some(ItemTypeData::Profile(ProfileData {
            display_name: name.to_string(),
            about: String::new(),
            follows: follows
                .into_iter()
                .map(|(tag, alias)| FollowEntry { user: uid(tag), display_name: alias.to_string() })
                .collect(),
        })),
    }
}

fn row(user_tag: u8, sig_tag: u8, ts: i64, bytes: &[u8]) -> ItemRow {
    ItemRow {
        user: uid(user_tag),
        signature: sig(sig_tag),
        timestamp: Timestamp { unix_utc_ms: ts },
        received: Timestamp { unix_utc_ms: ts + 1000 },
        item_bytes: bytes.to_vec(),
    }
}

fn save(store: &mut Store, user_tag: u8, sig_tag: u8, payload: &ItemData) -> SaveOutcome {
    let r = row(user_tag, sig_tag, payload.timestamp_ms_utc, &[sig_tag, user_tag, 7]);
    store.save_item(&r, payload)
}

#[test]
fn save_then_item_exists_and_get_item() {
    let mut store = Store::new();
    store.open_schema().unwrap();
    let payload = post_payload(100, "hi", "first post");
    let r = row(1, 10, 100, b"payload-bytes");
    assert_eq!(store.save_item(&r, &payload), SaveOutcome::Inserted);
    assert!(store.item_exists(&uid(1), &sig(10)));
    let got = store.get_item(&uid(1), &sig(10)).expect("stored item must be readable");
    assert_eq!(got.item_bytes, b"payload-bytes".to_vec());
    assert_eq!(got.timestamp.unix_utc_ms, 100);
    assert_eq!(got.received.unix_utc_ms, 1100);
    assert!(got.user.matches(&uid(1)));
    assert!(got.signature.matches(&sig(10)));
}

#[test]
fn missing_item_is_absent() {
    let mut store = Store::new();
    store.open_schema().unwrap();
    assert!(!store.item_exists(&uid(1), &sig(10)));
    assert!(store.get_item(&uid(1), &sig(10)).is_none());
}

#[test]
fn resubmission_is_distinguished_and_changes_nothing() {
    let mut store = Store::new();
    store.open_schema().unwrap();
    let payload = post_payload(100, "hi", "original");
    let original = row(1, 10, 100, b"original-bytes");
    assert_eq!(store.save_item(&original, &payload), SaveOutcome::Inserted);

    // Same (user, signature) pair again, even with different bytes: not an
    // error, and the stored bytes stay what they were.
    let duplicate = row(1, 10, 100, b"different-bytes");
    assert_eq!(store.save_item(&duplicate, &payload), SaveOutcome::AlreadyExists);
    let got = store.get_item(&uid(1), &sig(10)).unwrap();
    assert_eq!(got.item_bytes, b"original-bytes".to_vec());
}

#[test]
fn stale_profile_does_not_replace_newer_one() {
    let mut store = Store::new();
    store.open_schema().unwrap();
    let profile_a = profile_payload(100, "Newer Name", vec![]);
    assert_eq!(save(&mut store, 1, 10, &profile_a), SaveOutcome::Inserted);

    // Profile B arrives later but carries an older embedded timestamp.
    let profile_b = profile_payload(50, "Stale Name", vec![]);
    assert_eq!(save(&mut store, 1, 11, &profile_b), SaveOutcome::Inserted);

    // The stale item is stored, but the materialized profile is still A's.
    assert!(store.item_exists(&uid(1), &sig(11)));
    let materialized = store.get_profile(&uid(1)).unwrap();
    assert!(materialized.signature.matches(&sig(10)));
    assert_eq!(materialized.timestamp.unix_utc_ms, 100);
}

#[test]
fn equal_timestamp_profile_does_not_replace() {
    let mut store = Store::new();
    store.open_schema().unwrap();
    let profile_a = profile_payload(100, "First", vec![]);
    let profile_b = profile_payload(100, "Second", vec![]);
    save(&mut store, 1, 10, &profile_a);
    save(&mut store, 1, 11, &profile_b);
    let materialized = store.get_profile(&uid(1)).unwrap();
    assert!(materialized.signature.matches(&sig(10)));
}

#[test]
fn newer_profile_replaces_follow_list_wholly() {
    let mut store = Store::new();
    store.open_schema().unwrap();
    // Profile A follows X (2) and Y (3); profile B, newer, follows Y and Z (4).
    let profile_a = profile_payload(100, "Ann", vec![(2, "X"), (3, "Y")]);
    let profile_b = profile_payload(200, "Ann", vec![(3, "Y"), (4, "Z")]);
    save(&mut store, 1, 10, &profile_a);
    save(&mut store, 1, 11, &profile_b);

    // Observe the follow set through the following feed: items by X must be
    // absent, items by Y and Z present, plus the user's own.
    save(&mut store, 2, 20, &post_payload(300, "by X", ""));
    save(&mut store, 3, 30, &post_payload(301, "by Y", ""));
    save(&mut store, 4, 40, &post_payload(302, "by Z", ""));
    let feed = store.list_user_feed_items(&uid(1), Timestamp { unix_utc_ms: 1000 }, 10);
    let authors: Vec<Vec<u8>> =
        feed.iter().map(|d| d.item.user.bytes().to_vec()).collect();
    assert!(authors.contains(&vec![3u8; 32]));
    assert!(authors.contains(&vec![4u8; 32]));
    assert!(!authors.contains(&vec![2u8; 32]));
}

#[test]
fn duplicate_follow_in_one_profile_keeps_last_alias() {
    let mut store = Store::new();
    store.open_schema().unwrap();
    // The same followed user is declared twice; the last alias wins.
    let profile = profile_payload(100, "Ann", vec![(3, "First Alias"), (3, "Bob")]);
    save(&mut store, 1, 10, &profile);
    save(&mut store, 3, 30, &post_payload(200, "by V", ""));
    let feed = store.list_user_feed_items(&uid(1), Timestamp { unix_utc_ms: 1000 }, 10);
    let v_row = feed
        .iter()
        .find(|d| d.item.timestamp.unix_utc_ms == 200)
        .expect("the followed user's post must be in the feed");
    assert_eq!(v_row.display_name.as_deref(), Some("Bob"));
}

#[test]
fn schema_versioning_lifecycle() {
    let mut store = Store::new();
    assert_eq!(store.version_marker(), None);
    // Empty store: creates the schema and stamps the current version.
    assert!(store.open_schema().is_ok());
    assert_eq!(store.version_marker(), Some(3));
    assert_eq!(CURRENT_SCHEMA_VERSION, 3);
    // Reopening at the current version is a no-op.
    assert!(store.open_schema().is_ok());
    assert_eq!(store.version_marker(), Some(3));
    // A store stamped by a future engine is refused.
    store.set_version_marker(99);
    assert_eq!(store.open_schema(), Err(StoreError::VersionTooNew));
    assert_eq!(store.version_marker(), Some(99));
    // An older store without a migration path is refused too.
    store.set_version_marker(2);
    assert_eq!(store.open_schema(), Err(StoreError::MigrationNeeded));
}

#[test]
fn quota_allows_server_users_and_their_follows_only() {
    let mut store = Store::new();
    store.open_schema().unwrap();
    let admitted = feoblog::item::ServerUser {
        user: uid(1),
        notes: "operator".to_string(),
        on_homepage: true,
        max_bytes: 0,
    };
    store.add_server_user(&admitted).unwrap();
    // The server user follows user 2.
    save(&mut store, 1, 10, &profile_payload(100, "Op", vec![(2, "")]));

    let bytes: Vec<u8> = vec![0u8];
    let payload = post_payload(1, "", "");
    // Registered: allowed.
    assert_eq!(store.quota_check(&uid(1), &bytes, &payload), None);
    // Followed by a registered user: allowed.
    assert_eq!(store.quota_check(&uid(2), &bytes, &payload), None);
    // A complete stranger: denied.
    assert_eq!(
        store.quota_check(&uid(9), &bytes, &payload),
        Some(QuotaDenyReason::UnknownUser)
    );
    assert!(store.is_user_known(&uid(2)));
    assert!(!store.is_user_known(&uid(9)));
}

#[test]
fn add_server_user_rejects_duplicates() {
    let mut store = Store::new();
    store.open_schema().unwrap();
    let su = feoblog::item::ServerUser {
        user: uid(1),
        notes: String::new(),
        on_homepage: false,
        max_bytes: 0,
    };
    assert!(store.add_server_user(&su).is_ok());
    assert_eq!(store.add_server_user(&su), Err(StoreError::DuplicateServerUser));
    let got = store.get_server_user(&uid(1)).unwrap();
    assert_eq!(got.on_homepage, false);
    assert!(store.get_server_user(&uid(2)).is_none());
}

#[test]
fn server_users_listed_grouped_and_ordered() {
    let mut store = Store::new();
    store.open_schema().unwrap();
    for (tag, on_homepage) in [(5u8, true), (2u8, false), (9u8, true), (4u8, false)] {
        let su = feoblog::item::ServerUser {
            user: uid(tag),
            notes: String::new(),
            on_homepage,
            max_bytes: 0,
        };
        store.add_server_user(&su).unwrap();
    }
    let listed = store.list_server_users();
    let order: Vec<(bool, u8)> =
        listed.iter().map(|su| (su.on_homepage, su.user.bytes()[0])).collect();
    assert_eq!(order, vec![(false, 2), (false, 4), (true, 5), (true, 9)]);
}

#[test]
fn items_with_equal_timestamps_all_listed() {
    let mut store = Store::new();
    store.open_schema().unwrap();
    save(&mut store, 1, 10, &post_payload(50, "a", ""));
    save(&mut store, 1, 11, &post_payload(50, "b", ""));
    save(&mut store, 1, 12, &post_payload(40, "c", ""));
    let rows = store.list_user_items(&uid(1), Timestamp { unix_utc_ms: 100 }, 10);
    let stamps: Vec<i64> = rows.iter().map(|r| r.timestamp.unix_utc_ms).collect();
    assert_eq!(stamps, vec![50, 50, 40]);
}

#[test]
fn zero_limit_returns_nothing() {
    let mut store = Store::new();
    store.open_schema().unwrap();
    save(&mut store, 1, 10, &post_payload(50, "a", ""));
    assert!(store.list_user_items(&uid(1), Timestamp { unix_utc_ms: 100 }, 0).is_empty());
    assert!(store.list_homepage_items(Timestamp { unix_utc_ms: 100 }, 0).is_empty());
    assert!(store.list_user_feed_items(&uid(1), Timestamp { unix_utc_ms: 100 }, 0).is_empty());
}

#[test]
fn profile_update_leaves_other_users_follows_alone() {
    let mut store = Store::new();
    store.open_schema().unwrap();
    // Users 1 and 2 each follow user 3 under their own alias.
    save(&mut store, 1, 10, &profile_payload(100, "Ann", vec![(3, "Ann's pal")]));
    save(&mut store, 2, 20, &profile_payload(100, "Ben", vec![(3, "Ben's pal")]));
    // User 1 publishes a newer profile dropping the follow.
    save(&mut store, 1, 11, &profile_payload(200, "Ann", vec![]));

    save(&mut store, 3, 30, &post_payload(300, "by 3", ""));
    // User 2's feed still carries their alias for user 3.
    let feed = store.list_user_feed_items(&uid(2), Timestamp { unix_utc_ms: 1000 }, 10);
    let row = feed.iter().find(|d| d.item.timestamp.unix_utc_ms == 300).unwrap();
    assert_eq!(row.display_name.as_deref(), Some("Ben's pal"));
    // User 1's feed no longer contains user 3's post.
    let feed1 = store.list_user_feed_items(&uid(1), Timestamp { unix_utc_ms: 1000 }, 10);
    assert!(feed1.iter().all(|d| d.item.timestamp.unix_utc_ms != 300));
}
