use real_estate_allocation::archive::{extract, make_tgz};
use real_estate_allocation::entry_order::sort_for_hash;
use real_estate_allocation::error::DomainError;
use real_estate_allocation::sync::{
    check_download, data_entry_name, empty_hash, hash, is_dirty, missing_remote, missing_secret, object_path,
    pick_host, plan_pull, plan_push, remote_error, restore_target, short, snapshot_object, sort_entries, sqlite_error,
    status_verdict, sync_configured, to_hex,
    Manifest, Marker, PullPlan, PushPlan, RestoreTarget, Verdict, DATA_PREFIX, DB_ENTRY, LAYOUT_ENTRY,
};

fn manifest(version: u64, state_hash: &str) -> Manifest {
    Manifest { version, state_hash: state_hash.to_string(), created_at: 0, created_by: "host".to_string() }
}

fn marker(version: u64, state_hash: &str) -> Marker {
    Marker { version, state_hash: state_hash.to_string() }
}

// The data-loss invariant: archiving a state and extracting it must preserve the
// content hash.
#[test]
fn tgz_roundtrip_preserves_hash() {
    let entries = vec![
        (DB_ENTRY.to_string(), b"sqlite-bytes".to_vec()),
        (format!("{DATA_PREFIX}a/1.jpg"), vec![0u8, 1, 2, 3]),
        (LAYOUT_ENTRY.to_string(), b"{}".to_vec()),
    ];
    let before = hash(&entries);
    let round = extract(&make_tgz(&entries).unwrap()).unwrap();
    assert_eq!(before, hash(&round), "hash must survive a tar/gzip round-trip");
}

#[test]
fn extract_orders_entries_by_name() {
    let entries = vec![
        ("b".to_string(), vec![2u8]),
        ("a".to_string(), vec![1u8]),
        ("c".to_string(), vec![3u8]),
    ];
    let round = extract(&make_tgz(&entries).unwrap()).unwrap();
    let names: Vec<&str> = round.iter().map(|e| e.0.as_str()).collect();
    assert_eq!(names, vec!["a", "b", "c"]);
    assert_eq!(round[0].1, vec![1u8]);
    assert_eq!(round[2].1, vec![3u8]);
}

#[test]
fn extract_refuses_bytes_that_are_not_an_archive() {
    match extract(b"definitely not gzip") {
        Err(DomainError::Repository(m)) => assert!(m.starts_with("io: "), "{m}"),
        other => panic!("expected a storage error, got {other:?}"),
    }
}

#[test]
fn empty_snapshot_hash_is_sha256_of_nothing() {
    assert_eq!(empty_hash(), "e3b0c44298fc1c149afbf4c8996fb92427ae41e4649b934ca495991b7852b855");
}

#[test]
fn hash_frames_names_and_lengths() {
    // Moving a byte between the name and the content changes the identity.
    let a = vec![("ab".to_string(), b"c".to_vec())];
    let b = vec![("a".to_string(), b"bc".to_vec())];
    assert_ne!(hash(&a), hash(&b));
    assert_eq!(hash(&a).len(), 64);
    assert!(hash(&a).chars().all(|c| c.is_ascii_hexdigit() && !c.is_ascii_uppercase()));
}

#[test]
fn to_hex_is_lowercase_two_digits_per_byte() {
    assert_eq!(to_hex(&[0x00, 0x0f, 0xa0, 0xff]), "000fa0ff");
    assert_eq!(to_hex(&[]), "");
}

#[test]
fn sorting_makes_the_hash_order_independent() {
    let a = vec![("x".to_string(), vec![1u8]), ("y".to_string(), vec![2u8])];
    let b = vec![("y".to_string(), vec![2u8]), ("x".to_string(), vec![1u8])];
    assert_eq!(hash(&sort_entries(a)), hash(&sort_entries(b)));
}

#[test]
fn sort_entries_is_stable_on_equal_names() {
    let es = vec![("k".to_string(), vec![1u8]), ("a".to_string(), vec![0u8]), ("k".to_string(), vec![2u8])];
    let sorted = sort_entries(es);
    assert_eq!(sorted[0].0, "a");
    assert_eq!(sorted[1].1, vec![1u8]);
    assert_eq!(sorted[2].1, vec![2u8]);
}

#[test]
fn short_keeps_eight_characters() {
    assert_eq!(short("0123456789abcdef"), "01234567");
    assert_eq!(short("abc"), "abc");
    assert_eq!(short(""), "");
}

#[test]
fn never_synced_data_is_dirty_unless_empty() {
    assert!(!is_dirty(None, &empty_hash()));
    assert!(is_dirty(None, "feed"));
    assert!(!is_dirty(Some(&marker(3, "feed")), "feed"));
    assert!(is_dirty(Some(&marker(3, "feed")), "beef"));
}

#[test]
fn status_names_each_state() {
    let e = empty_hash();
    assert_eq!(status_verdict(&e, None, None), Verdict::Empty);
    assert_eq!(status_verdict("h1", None, None), Verdict::LocalOnly);
    assert_eq!(status_verdict("h1", Some(&marker(2, "h1")), Some(&manifest(2, "h1"))), Verdict::InSync);
    assert_eq!(status_verdict("h2", Some(&marker(2, "h1")), Some(&manifest(2, "h1"))), Verdict::LocalAhead);
    assert_eq!(status_verdict("h1", Some(&marker(2, "h1")), Some(&manifest(3, "h3"))), Verdict::RemoteAhead);
    assert_eq!(status_verdict("h2", Some(&marker(2, "h1")), Some(&manifest(3, "h3"))), Verdict::Diverged);
    assert_eq!(Verdict::InSync.text(), "in sync");
    assert_eq!(Verdict::RemoteAhead.text(), "remote ahead — `db pull`");
}

#[test]
fn push_uploads_the_next_version() {
    assert_eq!(plan_push("h", None, None, false).unwrap(), PushPlan::Upload { version: 1 });
    assert_eq!(
        plan_push("h2", Some(&manifest(4, "h1")), Some(&marker(4, "h1")), false).unwrap(),
        PushPlan::Upload { version: 5 }
    );
    assert_eq!(
        plan_push("h1", Some(&manifest(4, "h1")), None, false).unwrap(),
        PushPlan::AlreadyInSync { version: 4 }
    );
}

#[test]
fn push_refuses_to_clobber_a_remote_that_moved_on() {
    match plan_push("h2", Some(&manifest(5, "h5")), Some(&marker(3, "h1")), false) {
        Err(DomainError::Conflict(m)) => {
            assert_eq!(m, "remote is at v5 but your last sync was v3 — `db pull` first, or --force to overwrite")
        },
        other => panic!("expected a conflict, got {other:?}"),
    }
    assert_eq!(
        plan_push("h2", Some(&manifest(5, "h5")), Some(&marker(3, "h1")), true).unwrap(),
        PushPlan::Upload { version: 6 }
    );
}

#[test]
fn pull_adopts_downloads_or_refuses() {
    assert_eq!(plan_pull("h1", &manifest(2, "h1"), None, false).unwrap(), PullPlan::AdoptRemote);
    assert_eq!(plan_pull("h1", &manifest(3, "h3"), Some(&marker(2, "h1")), false).unwrap(), PullPlan::Download {
        version: 3,
    });
    match plan_pull("h9", &manifest(3, "h3"), Some(&marker(2, "h1")), false) {
        Err(DomainError::Conflict(m)) => {
            assert_eq!(m, "local has unpushed changes — `db push` first, or --force to discard them")
        },
        other => panic!("expected a conflict, got {other:?}"),
    }
    assert_eq!(plan_pull("h9", &manifest(3, "h3"), Some(&marker(2, "h1")), true).unwrap(), PullPlan::Download {
        version: 3,
    });
}

#[test]
fn after_a_push_status_is_in_sync() {
    let current = "h7";
    let plan = plan_push(current, Some(&manifest(6, "h6")), Some(&marker(6, "h6")), false).unwrap();
    let version = match plan {
        PushPlan::Upload { version } => version,
        PushPlan::AlreadyInSync { version } => version,
    };
    assert_eq!(status_verdict(current, Some(&marker(version, current)), Some(&manifest(version, current))), Verdict::InSync);
}

#[test]
fn a_corrupt_download_is_refused() {
    assert!(check_download("abcdef0123", "abcdef0123").is_ok());
    match check_download("aaaaaaaa11", "bbbbbbbb22") {
        Err(DomainError::Repository(m)) => assert_eq!(m, "downloaded snapshot hash aaaaaaaa != manifest bbbbbbbb — corrupt"),
        other => panic!("expected a storage error, got {other:?}"),
    }
}

#[test]
fn missing_remote_is_not_found() {
    match missing_remote("rea/prod") {
        DomainError::NotFound { entity, id } => {
            assert_eq!(entity, "remote snapshot");
            assert_eq!(id, "rea/prod");
        },
        other => panic!("expected not-found, got {other:?}"),
    }
}

#[test]
fn archive_entries_route_back_to_their_paths() {
    assert!(matches!(restore_target(DB_ENTRY).unwrap(), RestoreTarget::Db));
    assert!(matches!(restore_target(LAYOUT_ENTRY).unwrap(), RestoreTarget::Layout));
    match restore_target("properties/a/b.jpg").unwrap() {
        RestoreTarget::Data(rest) => assert_eq!(rest, "a/b.jpg"),
        other => panic!("expected a data path, got {other:?}"),
    }
    match restore_target("etc/passwd") {
        Err(DomainError::Repository(m)) => assert_eq!(m, "unknown archive entry: etc/passwd"),
        other => panic!("expected a storage error, got {other:?}"),
    }
}

#[test]
fn data_entries_use_forward_slashes() {
    assert_eq!(data_entry_name("a\\b\\c.jpg"), "properties/a/b/c.jpg");
    assert_eq!(data_entry_name("x.png"), "properties/x.png");
    assert_eq!(object_path("rea", "latest.json"), "rea/latest.json");
}

#[test]
fn sync_needs_bucket_and_endpoint() {
    assert!(sync_configured("b", "https://r2").is_ok());
    match sync_configured("", "https://r2") {
        Err(DomainError::Validation(m)) => assert_eq!(m, "sync not configured: set sync_bucket and sync_endpoint"),
        other => panic!("expected a validation error, got {other:?}"),
    }
    assert!(sync_configured("b", "").is_err());
    match missing_secret("R2_ACCESS_KEY_ID") {
        DomainError::Validation(m) => assert_eq!(m, "R2_ACCESS_KEY_ID not set in env"),
        other => panic!("expected a validation error, got {other:?}"),
    }
}

#[test]
fn host_label_prefers_the_variable_then_the_file() {
    assert_eq!(pick_host(Some("box".into()), Some("other".into())), "box");
    assert_eq!(pick_host(Some("".into()), Some("  file-host \n".into())), "file-host");
    assert_eq!(pick_host(None, Some("   ".into())), "unknown");
    assert_eq!(pick_host(None, None), "unknown");
}

#[test]
fn snapshot_objects_and_store_errors() {
    assert_eq!(snapshot_object(12), "data-12.tgz");
    assert_eq!(snapshot_object(0), "data-0.tgz");
    assert!(matches!(remote_error("timeout"), DomainError::Repository(m) if m == "r2: timeout"));
    assert!(matches!(sqlite_error("locked"), DomainError::Repository(m) if m == "sqlite: locked"));
}

#[test]
fn any_listing_order_hashes_alike() {
    let a = vec![
        ("c".to_string(), vec![3u8]),
        ("a".to_string(), vec![1u8]),
        ("b".to_string(), vec![2u8]),
    ];
    let b = vec![
        ("b".to_string(), vec![2u8]),
        ("c".to_string(), vec![3u8]),
        ("a".to_string(), vec![1u8]),
    ];
    assert_eq!(hash(&a), hash(&b));
    let changed = vec![("a".to_string(), vec![1u8]), ("b".to_string(), vec![2u8]), ("c".to_string(), vec![4u8])];
    assert_ne!(hash(&a), hash(&changed));
}

#[test]
fn make_tgz_refuses_names_tar_cannot_hold() {
    for bad in ["../escape", "", "/etc/passwd", "a/../b"] {
        match make_tgz(&[(bad.to_string(), vec![1u8])]) {
            Err(DomainError::Repository(m)) => assert!(m.starts_with("io: "), "{bad}: {m}"),
            other => panic!("{bad}: expected a storage error, got {other:?}"),
        }
    }
}

#[test]
fn long_names_survive_the_round_trip() {
    let long = format!("{DATA_PREFIX}{}/{}.jpg", "b".repeat(80), "p".repeat(60));
    assert!(long.len() > 100);
    let entries = vec![(long.clone(), vec![7u8; 3000]), ("z".to_string(), Vec::new())];
    let round = extract(&make_tgz(&entries).unwrap()).unwrap();
    assert_eq!(round, entries);
    assert_eq!(hash(&round), hash(&entries));
}

#[test]
fn hashes_are_sixty_four_lowercase_hex_digits() {
    for h in [empty_hash(), hash(&[("a".to_string(), vec![1u8, 2])])] {
        assert_eq!(h.len(), 64);
        assert!(h.chars().all(|c| c.is_ascii_digit() || ('a'..='f').contains(&c)), "{h}");
    }
}

#[test]
fn push_at_the_last_version_still_reports_conflict_or_sync() {
    match plan_push("h2", Some(&manifest(u64::MAX, "h9")), Some(&marker(3, "h1")), false) {
        Err(DomainError::Conflict(m)) => assert!(m.starts_with("remote is at v18446744073709551615 "), "{m}"),
        other => panic!("expected a conflict, got {other:?}"),
    }
    assert_eq!(
        plan_push("h9", Some(&manifest(u64::MAX, "h9")), None, false).unwrap(),
        PushPlan::AlreadyInSync { version: u64::MAX }
    );
}

#[test]
fn entries_sharing_a_name_hash_alike_in_any_order() {
    let a = vec![("k".to_string(), vec![2u8]), ("a".to_string(), vec![0u8]), ("k".to_string(), vec![1u8, 9])];
    let b = vec![("k".to_string(), vec![1u8, 9]), ("k".to_string(), vec![2u8]), ("a".to_string(), vec![0u8])];
    assert_eq!(hash(&a), hash(&b));
    // The same pairs, but one of them twice, is another snapshot.
    let c = vec![("k".to_string(), vec![2u8]), ("a".to_string(), vec![0u8]), ("k".to_string(), vec![2u8])];
    assert_ne!(hash(&a), hash(&c));
}

#[test]
fn sort_for_hash_orders_by_name_then_bytes() {
    let es = vec![
        ("k".to_string(), vec![2u8]),
        ("a".to_string(), vec![5u8]),
        ("k".to_string(), vec![1u8, 9]),
        ("k".to_string(), vec![1u8]),
    ];
    let sorted = sort_for_hash(es);
    let got: Vec<(&str, &[u8])> = sorted.iter().map(|e| (e.0.as_str(), e.1.as_slice())).collect();
    assert_eq!(got, vec![("a", &[5u8][..]), ("k", &[1u8][..]), ("k", &[1u8, 9][..]), ("k", &[2u8][..])]);
}

#[test]
fn a_lone_dot_and_repeated_names_survive_the_round_trip() {
    let entries = vec![
        (".".to_string(), b"dot".to_vec()),
        ("k".to_string(), vec![2u8]),
        ("k".to_string(), vec![1u8]),
    ];
    let round = extract(&make_tgz(&entries).unwrap()).unwrap();
    // Ordered by name; entries of one name keep the order they were packed in.
    assert_eq!(round, entries);
    assert_eq!(hash(&round), hash(&entries));
}
