use file_registry::api::{delete_by_path, file_by_path, share_by_path, ApiError};
use file_registry::model::{CreateFileRequest, FileRecord, FileResponse, ShareFileRequest, UserResponse};
use file_registry::stats::DAY_MICROS;
use file_registry::store::{Store, StoreError};

const NOON: i64 = 1_700_000_000_000_000 - (1_700_000_000_000_000 % 86_400_000_000) + 43_200_000_000;

fn request(owner: &str, name: &str, size: i64, file_type: &str) -> CreateFileRequest {
    CreateFileRequest {
        name: name.to_string(),
        size,
        file_type: file_type.to_string(),
        tx_id: format!("tx-{}", name),
        owner: owner.to_string(),
        is_public: None,
        encryption_key: None,
        tags: None,
    }
}

fn share_request(recipient: &str, expires_at: Option<i64>) -> ShareFileRequest {
    ShareFileRequest { recipient_address: recipient.to_string(), access_level: None, expires_at }
}

fn add(store: &mut Store, owner: &str, name: &str, size: i64, file_type: &str, id: u128, at: i64) -> FileRecord {
    store.create_file_at(request(owner, name, size, file_type), id, at).unwrap()
}

#[test]
fn created_file_round_trips_through_owner_listing() {
    let mut store = Store::new();
    let mut req = request("alice", "a.txt", 42, "text");
    req.is_public = Some(true);
    req.encryption_key = Some("k1".to_string());
    req.tags = Some(vec!["z".to_string(), "a".to_string(), "m".to_string()]);
    let f = store.create_file_at(req, 7, 1000).unwrap();
    let g = store.create_file(request("alice", "b.txt", 1, "text")).unwrap();
    assert_ne!(f.id, g.id);
    let listed = store.get_user_files("alice");
    assert_eq!(listed.len(), 2);
    let found = listed.iter().find(|x| x.id == 7).unwrap();
    assert_eq!(found.name, "a.txt");
    assert_eq!(found.size, 42);
    assert_eq!(found.file_type, "text");
    assert_eq!(found.tx_id, "tx-a.txt");
    assert_eq!(found.uploaded_at, 1000);
    assert_eq!(found.owner, "alice");
    assert!(found.is_public);
    assert_eq!(found.encryption_key, Some("k1".to_string()));
    assert_eq!(found.tags, vec!["z".to_string(), "a".to_string(), "m".to_string()]);
}

#[test]
fn absent_optional_fields_take_defaults() {
    let mut store = Store::new();
    let f = store.create_file_at(request("bob", "x", 5, "bin"), 1, 10).unwrap();
    assert!(!f.is_public);
    assert!(f.tags.is_empty());
    assert_eq!(f.encryption_key, None);
}

#[test]
fn two_uploads_credit_the_new_owner() {
    let mut store = Store::new();
    add(&mut store, "carol", "one", 100, "doc", 1, 10);
    add(&mut store, "carol", "two", 250, "doc", 2, 20);
    let u = store.get_user("carol").unwrap();
    assert_eq!(u.total_files, 2);
    assert_eq!(u.total_storage, 350);
    assert_eq!(u.created_at, 10);
    assert_eq!(u.last_activity, 20);
}

#[test]
fn delete_then_lookup_and_delete_again() {
    let mut store = Store::new();
    add(&mut store, "dave", "f", 3, "t", 9, 10);
    assert!(store.delete_file(9));
    assert!(store.get_file_by_id(9).is_none());
    assert!(!store.delete_file(9));
    let u = store.get_user("dave").unwrap();
    assert_eq!(u.total_files, 1);
    assert_eq!(u.total_storage, 3);
}

#[test]
fn expired_share_is_not_listed() {
    let mut store = Store::new();
    add(&mut store, "erin", "f", 3, "t", 1, 10);
    store.share_file_at(1, share_request("frank", Some(50)), 100, 40).unwrap();
    assert!(store.get_shared_files_at("frank", 60).is_empty());
    assert!(store.get_shared_files_at("frank", 50).is_empty());
    assert_eq!(store.get_shared_files_at("frank", 49).len(), 1);
}

#[test]
fn share_without_expiry_stays_listed() {
    let mut store = Store::new();
    add(&mut store, "erin", "f", 3, "t", 1, 10);
    store.share_file_at(1, share_request("frank", None), 100, 40).unwrap();
    assert_eq!(store.get_shared_files_at("frank", i64::MAX).len(), 1);
    assert_eq!(store.get_shared_files("frank").len(), 1);
    assert!(store.get_shared_files_at("gina", 41).is_empty());
}

#[test]
fn shares_list_newest_first_with_multiplicity() {
    let mut store = Store::new();
    add(&mut store, "erin", "old", 3, "t", 1, 10);
    add(&mut store, "erin", "new", 3, "t", 2, 11);
    store.share_file_at(1, share_request("frank", None), 100, 40).unwrap();
    store.share_file_at(2, share_request("frank", None), 101, 50).unwrap();
    store.share_file_at(1, share_request("frank", None), 102, 45).unwrap();
    let listed: Vec<u128> = store.get_shared_files_at("frank", 60).iter().map(|f| f.id).collect();
    assert_eq!(listed, vec![2, 1, 1]);
}

#[test]
fn share_copies_owner_and_defaults_access() {
    let mut store = Store::new();
    add(&mut store, "erin", "f", 3, "t", 1, 10);
    let sh = store.share_file_at(1, share_request("frank", Some(99)), 100, 40).unwrap();
    assert_eq!(sh.owner_id, "erin");
    assert_eq!(sh.recipient_id, "frank");
    assert_eq!(sh.access_level, "read");
    assert_eq!(sh.expires_at, Some(99));
    assert_eq!(sh.shared_at, 40);
    assert!(sh.is_active);
    let mut req = share_request("frank", None);
    req.access_level = Some("write".to_string());
    let sh2 = store.share_file_at(1, req, 101, 41).unwrap();
    assert_eq!(sh2.access_level, "write");
}

#[test]
fn sharing_missing_file_is_not_found() {
    let mut store = Store::new();
    assert_eq!(store.share_file_at(5, share_request("x", None), 1, 1).err(), Some(StoreError::NotFound));
    assert_eq!(store.share_file(5, share_request("x", None)).err(), Some(StoreError::NotFound));
    assert!(store.get_shared_files_at("x", 0).is_empty());
}

#[test]
fn stats_split_today_from_earlier_days() {
    let mut store = Store::new();
    add(&mut store, "hank", "a", 10, "t", 1, NOON - 1000);
    add(&mut store, "hank", "b", 20, "t", 2, NOON - 2000);
    add(&mut store, "hank", "c", 30, "t", 3, NOON);
    add(&mut store, "hank", "d", 999, "t", 4, NOON - DAY_MICROS);
    let st = store.get_user_stats_at("hank", NOON + 5).unwrap();
    assert_eq!(st.files_uploaded_today, 3);
    assert_eq!(st.storage_used_today, 60);
    assert_eq!(st.total_files, 4);
    assert_eq!(st.total_storage, 1059);
}

#[test]
fn stats_leave_out_later_days() {
    let mut store = Store::new();
    add(&mut store, "uma", "a", 10, "t", 1, NOON);
    add(&mut store, "uma", "b", 5000, "t", 2, NOON + DAY_MICROS);
    let st = store.get_user_stats_at("uma", NOON + 5).unwrap();
    assert_eq!(st.files_uploaded_today, 1);
    assert_eq!(st.storage_used_today, 10);
    assert_eq!(st.total_files, 2);
}

#[test]
fn stats_day_starts_at_midnight_utc() {
    let mut store = Store::new();
    let midnight = NOON - DAY_MICROS / 2;
    add(&mut store, "ivy", "a", 1, "t", 1, midnight);
    add(&mut store, "ivy", "b", 2, "t", 2, midnight - 1);
    let st = store.get_user_stats_at("ivy", midnight + DAY_MICROS - 1).unwrap();
    assert_eq!(st.files_uploaded_today, 1);
    assert_eq!(st.storage_used_today, 1);
    let before_epoch = store.get_user_stats_at("ivy", -1).unwrap();
    assert_eq!(before_epoch.files_uploaded_today, 0);
    assert_eq!(before_epoch.storage_used_today, 0);
    let day_before = store.get_user_stats_at("ivy", midnight - 1).unwrap();
    assert_eq!(day_before.files_uploaded_today, 1);
    assert_eq!(day_before.storage_used_today, 2);
}

#[test]
fn stats_need_an_account() {
    let store = Store::new();
    assert_eq!(store.get_user_stats_at("nobody", 0).err(), Some(StoreError::NotFound));
    assert_eq!(store.get_user_stats("nobody").err(), Some(StoreError::NotFound));
}

#[test]
fn file_types_ranked_by_count() {
    let mut store = Store::new();
    let mut id: u128 = 0;
    for (t, n, size) in [("A", 5, 1), ("B", 3, 10), ("C", 9, 100)] {
        for _ in 0..n {
            id += 1;
            add(&mut store, "jo", "f", size, t, id, id as i64);
        }
    }
    let st = store.get_user_stats_at("jo", 0).unwrap();
    let r = &st.most_used_file_types;
    assert_eq!(r.len(), 3);
    assert_eq!((r[0].file_type.as_str(), r[0].count, r[0].total_size), ("C", 9, 900));
    assert_eq!((r[1].file_type.as_str(), r[1].count, r[1].total_size), ("A", 5, 5));
    assert_eq!((r[2].file_type.as_str(), r[2].count, r[2].total_size), ("B", 3, 30));
}

#[test]
fn ranking_keeps_ten_types() {
    let mut store = Store::new();
    let mut id: u128 = 0;
    for k in 0..12 {
        for _ in 0..(k + 1) {
            id += 1;
            add(&mut store, "kim", "f", 1, &format!("type{}", k), id, 1);
        }
    }
    let st = store.get_user_stats_at("kim", 1).unwrap();
    let r = &st.most_used_file_types;
    assert_eq!(r.len(), 10);
    assert_eq!(r[0].file_type, "type11");
    assert_eq!(r[0].count, 12);
    assert_eq!(r[9].file_type, "type2");
    assert_eq!(r[9].count, 3);
}

#[test]
fn owner_listing_is_newest_first() {
    let mut store = Store::new();
    add(&mut store, "lee", "mid", 1, "t", 1, 20);
    add(&mut store, "lee", "old", 1, "t", 2, 10);
    add(&mut store, "other", "x", 1, "t", 3, 25);
    add(&mut store, "lee", "new", 1, "t", 4, 30);
    let names: Vec<String> = store.get_user_files("lee").into_iter().map(|f| f.name).collect();
    assert_eq!(names, vec!["new".to_string(), "mid".to_string(), "old".to_string()]);
    assert!(store.get_user_files("nobody").is_empty());
}

#[test]
fn create_refusals() {
    let mut store = Store::new();
    assert_eq!(store.create_file_at(request("m", "n", -1, "t"), 1, 1).err(), Some(StoreError::InvalidSize));
    add(&mut store, "m", "n", 1, "t", 1, 1);
    assert_eq!(store.create_file_at(request("m", "n", 1, "t"), 1, 2).err(), Some(StoreError::DuplicateId));
    assert_eq!(store.create_file_at(request("m", "n", i64::MAX, "t"), 2, 2).err(), Some(StoreError::Overflow));
    let u = store.get_user("m").unwrap();
    assert_eq!(u.total_files, 1);
    assert_eq!(store.get_user_files("m").len(), 1);
}

#[test]
fn create_user_returns_existing_account() {
    let mut store = Store::new();
    let u = store.create_user_at("nia".to_string(), 5);
    assert_eq!((u.total_files, u.total_storage, u.created_at, u.last_activity), (0, 0, 5, 5));
    add(&mut store, "nia", "f", 7, "t", 1, 9);
    let again = store.create_user_at("nia".to_string(), 100);
    assert_eq!((again.total_files, again.total_storage, again.created_at), (1, 7, 5));
    assert!(store.get_user("absent").is_none());
    let fresh = store.create_user("olu".to_string());
    assert_eq!(fresh.total_files, 0);
    let resp = UserResponse::from_user(again);
    assert_eq!(resp.wallet_address, "nia");
}

#[test]
fn response_writes_hyphenated_id_and_hides_key() {
    let mut store = Store::new();
    let id: u128 = 0x67e5504410b1426f9247bb680e5fe0c8;
    let mut req = request("pat", "f", 1, "t");
    req.encryption_key = Some("secret".to_string());
    let f = store.create_file_at(req, id, 1).unwrap();
    let resp = FileResponse::from_record(f);
    assert_eq!(resp.id, "67e55044-10b1-426f-9247-bb680e5fe0c8");
    assert_eq!(resp.owner, "pat");
}

#[test]
fn path_requests_map_outcomes() {
    let mut store = Store::new();
    let id: u128 = 0x67e5504410b1426f9247bb680e5fe0c8;
    add(&mut store, "quin", "f", 1, "t", id, 1);
    assert_eq!(file_by_path(&store, "not-an-id").err(), Some(ApiError::BadRequest));
    assert_eq!(ApiError::BadRequest.status(), 400);
    let found = file_by_path(&store, "67e55044-10b1-426f-9247-bb680e5fe0c8").unwrap();
    assert_eq!(found.name, "f");
    let sh = share_by_path(&mut store, "67e55044-10b1-426f-9247-bb680e5fe0c8", share_request("ray", None)).unwrap();
    assert_eq!(sh.file_id, "67e55044-10b1-426f-9247-bb680e5fe0c8");
    assert_eq!(sh.id.len(), 36);
    assert_eq!(
        share_by_path(&mut store, "00000000-0000-0000-0000-000000000001", share_request("ray", None)).err(),
        Some(ApiError::NotFound)
    );
    assert_eq!(delete_by_path(&mut store, "67e55044-10b1-426f-9247-bb680e5fe0c8"), Ok(()));
    let again = delete_by_path(&mut store, "67e55044-10b1-426f-9247-bb680e5fe0c8").err();
    assert_eq!(again, Some(ApiError::NotFound));
    assert_eq!(again.unwrap().status(), 404);
    assert_eq!(ApiError::from_store(StoreError::Overflow).status(), 500);
}
