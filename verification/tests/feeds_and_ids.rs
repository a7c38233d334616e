use feoblog::ids::{IdError, Signature, Timestamp, UserID};
use feoblog::item::{
    display_by_default, FollowEntry, ItemData, ItemDisplayRow, ItemRow, ItemTypeData, PostData,
    ProfileData, ServerUser,
};
use feoblog::page::{IndexPageItem, UserPageItem};
use feoblog::store::{SaveOutcome, Store};

fn uid(tag: u8) -> UserID {
    UserID::from_vec(vec![tag; 32]).unwrap()
}

fn sig(tag: u8) -> Signature {
    Signature::from_vec(vec![tag; 64]).unwrap()
}

fn post_payload(ts: i64, title: &str) -> ItemData {
    ItemData {
        timestamp_ms_utc: ts,
        utc_offset_minutes: 0,
        item_type: Some(ItemTypeData::Post(PostData {
            title: title.to_string(),
            body: String::new(),
        })),
    }
}

fn profile_payload(ts: i64, name: &str, follows: Vec<(u8, &str)>) -> ItemData {
    ItemData {
        timestamp_ms_utc: ts,
        utc_offset_minutes: 0,
        item_type: Some(ItemTypeData::Profile(ProfileData {
            display_name: name.to_string(),
            about: String::new(),
            follows: follows
                .into_iter()
                .map(|(tag, alias)| FollowEntry { user: uid(tag), display_name: alias.to_string() })
                .collect(),
        })),
    }
}

fn save(store: &mut Store, user_tag: u8, sig_tag: u8, payload: &ItemData) {
    let r = ItemRow {
        user: uid(user_tag),
        signature: sig(sig_tag),
        timestamp: Timestamp { unix_utc_ms: payload.timestamp_ms_utc },
        received: Timestamp { unix_utc_ms: payload.timestamp_ms_utc + 1 },
        item_bytes: vec![user_tag, sig_tag],
    };
    assert_eq!(store.save_item(&r, payload), SaveOutcome::Inserted);
}

fn register(store: &mut Store, tag: u8, on_homepage: bool) {
    let su = ServerUser {
        user: uid(tag),
        notes: String::new(),
        on_homepage,
        max_bytes: 0,
    };
    store.add_server_user(&su).unwrap();
}

#[test]
fn homepage_filters_orders_and_bounds() {
    let mut store = Store::new();
    store.open_schema().unwrap();
    register(&mut store, 1, true);
    register(&mut store, 2, false);
    // Homepage user posts at 10 and 30, a registered-but-off-homepage user
    // at 20, a stranger at 15.
    save(&mut store, 1, 10, &post_payload(10, "a"));
    save(&mut store, 1, 11, &post_payload(30, "b"));
    save(&mut store, 2, 20, &post_payload(20, "c"));
    save(&mut store, 9, 90, &post_payload(15, "d"));

    let rows = store.list_homepage_items(Timestamp { unix_utc_ms: 25 }, 10);
    // Only the homepage user's items strictly below the cursor, newest first.
    assert_eq!(rows.len(), 1);
    assert_eq!(rows[0].item.timestamp.unix_utc_ms, 10);
    assert!(rows[0].item.user.matches(&uid(1)));

    let all = store.list_homepage_items(Timestamp { unix_utc_ms: 100 }, 10);
    let stamps: Vec<i64> = all.iter().map(|d| d.item.timestamp.unix_utc_ms).collect();
    assert_eq!(stamps, vec![30, 10]);
}

#[test]
fn homepage_enriches_with_profile_name_without_filtering() {
    let mut store = Store::new();
    store.open_schema().unwrap();
    register(&mut store, 1, true);
    register(&mut store, 2, true);
    save(&mut store, 1, 10, &profile_payload(5, "Ann", vec![]));
    save(&mut store, 1, 11, &post_payload(10, "a"));
    save(&mut store, 2, 20, &post_payload(20, "b"));

    let rows = store.list_homepage_items(Timestamp { unix_utc_ms: 100 }, 10);
    // Both posts appear, newest first; the profile item itself is also a
    // stored item of a homepage user, so it appears too.  A missing profile
    // never filters a row, it only leaves the name absent.
    let names: Vec<Option<String>> = rows
        .iter()
        .filter(|d| matches!(d.item.timestamp.unix_utc_ms, 10 | 20))
        .map(|d| d.display_name.clone())
        .collect();
    assert_eq!(names, vec![None, Some("Ann".to_string())]);
}

#[test]
fn homepage_respects_limit() {
    let mut store = Store::new();
    store.open_schema().unwrap();
    register(&mut store, 1, true);
    for k in 0..5u8 {
        save(&mut store, 1, 10 + k, &post_payload(10 + k as i64, "t"));
    }
    let rows = store.list_homepage_items(Timestamp { unix_utc_ms: 100 }, 2);
    let stamps: Vec<i64> = rows.iter().map(|d| d.item.timestamp.unix_utc_ms).collect();
    assert_eq!(stamps, vec![14, 13]);
}

#[test]
fn user_timeline_is_scoped_and_ordered() {
    let mut store = Store::new();
    store.open_schema().unwrap();
    save(&mut store, 1, 10, &post_payload(10, "a"));
    save(&mut store, 1, 11, &post_payload(30, "b"));
    save(&mut store, 2, 20, &post_payload(20, "c"));
    let rows = store.list_user_items(&uid(1), Timestamp { unix_utc_ms: 100 }, 10);
    let stamps: Vec<i64> = rows.iter().map(|r| r.timestamp.unix_utc_ms).collect();
    assert_eq!(stamps, vec![30, 10]);
    let bounded = store.list_user_items(&uid(1), Timestamp { unix_utc_ms: 30 }, 10);
    assert_eq!(bounded.len(), 1);
    assert_eq!(bounded[0].timestamp.unix_utc_ms, 10);
}

#[test]
fn feed_includes_own_and_followed_items_only() {
    let mut store = Store::new();
    store.open_schema().unwrap();
    register(&mut store, 9, true);
    // Viewer 1 follows 2; user 9 is on the homepage but not followed.
    save(&mut store, 1, 10, &profile_payload(5, "Viewer", vec![(2, "")]));
    save(&mut store, 1, 11, &post_payload(10, "own"));
    save(&mut store, 2, 20, &post_payload(20, "followed"));
    save(&mut store, 9, 90, &post_payload(30, "homepage stranger"));

    let rows = store.list_user_feed_items(&uid(1), Timestamp { unix_utc_ms: 100 }, 10);
    let stamps: Vec<i64> = rows.iter().map(|d| d.item.timestamp.unix_utc_ms).collect();
    // Newest first: the followed user's post, the viewer's own post and
    // profile item; the unfollowed homepage user is absent.
    assert_eq!(stamps, vec![20, 10, 5]);
}

#[test]
fn feed_display_name_prefers_viewer_alias() {
    let mut store = Store::new();
    store.open_schema().unwrap();
    // V (2) declares "Victor"; viewer U (1) aliases V as "Bob".
    save(&mut store, 2, 20, &profile_payload(5, "Victor", vec![]));
    save(&mut store, 1, 10, &profile_payload(6, "U", vec![(2, "Bob")]));
    save(&mut store, 2, 21, &post_payload(50, "post by V"));

    let rows = store.list_user_feed_items(&uid(1), Timestamp { unix_utc_ms: 100 }, 10);
    let v_row = rows.iter().find(|d| d.item.user.matches(&uid(2)) && d.item.timestamp.unix_utc_ms == 50).unwrap();
    assert_eq!(v_row.display_name.as_deref(), Some("Bob"));
}

#[test]
fn feed_display_name_falls_back_to_profile_name() {
    let mut store = Store::new();
    store.open_schema().unwrap();
    save(&mut store, 2, 20, &profile_payload(5, "Victor", vec![]));
    // The alias is whitespace only: unusable.
    save(&mut store, 1, 10, &profile_payload(6, "U", vec![(2, "   ")]));
    save(&mut store, 2, 21, &post_payload(50, "post by V"));

    let rows = store.list_user_feed_items(&uid(1), Timestamp { unix_utc_ms: 100 }, 10);
    let v_row = rows.iter().find(|d| d.item.user.matches(&uid(2)) && d.item.timestamp.unix_utc_ms == 50).unwrap();
    assert_eq!(v_row.display_name.as_deref(), Some("Victor"));
}

#[test]
fn feed_display_name_absent_when_both_blank() {
    let mut store = Store::new();
    store.open_schema().unwrap();
    save(&mut store, 2, 20, &profile_payload(5, " ", vec![]));
    save(&mut store, 1, 10, &profile_payload(6, "U", vec![(2, "")]));
    save(&mut store, 2, 21, &post_payload(50, "post by V"));

    let rows = store.list_user_feed_items(&uid(1), Timestamp { unix_utc_ms: 100 }, 10);
    let v_row = rows.iter().find(|d| d.item.user.matches(&uid(2)) && d.item.timestamp.unix_utc_ms == 50).unwrap();
    assert_eq!(v_row.display_name, None);
}

#[test]
fn get_profile_returns_full_item_via_item_path() {
    let mut store = Store::new();
    store.open_schema().unwrap();
    assert!(store.get_profile(&uid(1)).is_none());
    save(&mut store, 1, 10, &profile_payload(5, "Ann", vec![]));
    let item = store.get_profile(&uid(1)).unwrap();
    assert_eq!(item.item_bytes, vec![1u8, 10u8]);
    assert_eq!(item.timestamp.unix_utc_ms, 5);
}

#[test]
fn base58_rendering_of_known_key() {
    // A 32-byte zero key renders as 32 leading-zero digits.
    let zero = UserID::from_vec(vec![0u8; 32]).unwrap();
    assert_eq!(zero.to_base58(), "1".repeat(32));
    let back = UserID::from_base58(&"1".repeat(32)).unwrap();
    assert!(back.matches(&zero));
    // A trailing byte of value one renders as a final digit '2'.
    let mut bytes = vec![0u8; 32];
    bytes[31] = 1;
    let one = UserID::from_vec(bytes).unwrap();
    assert_eq!(one.to_base58(), format!("{}2", "1".repeat(31)));
}

#[test]
fn base58_round_trip_and_rejection() {
    let user = uid(7);
    let rendered = user.to_base58();
    let back = UserID::from_base58(&rendered).unwrap();
    assert!(back.matches(&user));
    // '0', 'O', 'I' and 'l' are not base58 digits.
    assert_eq!(UserID::from_base58("0OIl").err(), Some(IdError::NotBase58));
    // A valid digit string of the wrong decoded length is refused.
    assert_eq!(UserID::from_base58("12").err(), Some(IdError::WrongLength));
    let s = sig(7);
    let back_sig = Signature::from_base58(&s.to_base58()).unwrap();
    assert!(back_sig.matches(&s));
}

#[test]
fn id_lengths_are_enforced() {
    assert_eq!(UserID::from_vec(vec![0u8; 31]).err(), Some(IdError::WrongLength));
    assert!(UserID::from_vec(vec![0u8; 32]).is_ok());
    assert_eq!(Signature::from_vec(vec![0u8; 63]).err(), Some(IdError::WrongLength));
    assert!(Signature::from_vec(vec![0u8; 64]).is_ok());
}

#[test]
fn display_by_default_only_for_posts() {
    assert!(display_by_default(&post_payload(1, "t")));
    assert!(!display_by_default(&profile_payload(1, "n", vec![])));
    let unknown = ItemData { timestamp_ms_utc: 1, utc_offset_minutes: 0, item_type: None };
    assert!(!display_by_default(&unknown));
}

#[test]
fn index_page_display_name_falls_back_to_base58() {
    let item_row = ItemRow {
        user: UserID::from_vec(vec![0u8; 32]).unwrap(),
        signature: sig(1),
        timestamp: Timestamp { unix_utc_ms: 1 },
        received: Timestamp { unix_utc_ms: 2 },
        item_bytes: vec![],
    };
    let named = IndexPageItem {
        row: ItemDisplayRow { item: item_row.clone(), display_name: Some("Ann".to_string()) },
        item: post_payload(1, "t"),
    };
    assert_eq!(named.display_name(), "Ann");

    // A usable name is shown trimmed.
    let padded = IndexPageItem {
        row: ItemDisplayRow {
            item: item_row.clone(),
            display_name: Some("  Ann Example 	".to_string()),
        },
        item: post_payload(1, "t"),
    };
    assert_eq!(padded.display_name(), "Ann Example");
    assert_eq!(named.item().timestamp_ms_utc, 1);
    assert_eq!(named.row().item.timestamp.unix_utc_ms, 1);

    let blank = IndexPageItem {
        row: ItemDisplayRow { item: item_row.clone(), display_name: Some("  ".to_string()) },
        item: post_payload(1, "t"),
    };
    assert_eq!(blank.display_name(), "1".repeat(32));

    let unnamed = IndexPageItem {
        row: ItemDisplayRow { item: item_row.clone(), display_name: None },
        item: post_payload(1, "t"),
    };
    assert_eq!(unnamed.display_name(), "1".repeat(32));

    let user_page = UserPageItem { row: item_row, item: post_payload(1, "t") };
    assert_eq!(user_page.row().timestamp.unix_utc_ms, 1);
    assert_eq!(user_page.item().timestamp_ms_utc, 1);
}
