use real_estate_allocation::domain::{parse_building_id, Building, ConstructionStatus, GooglePlace, ResearchUrl};
use real_estate_allocation::error::DomainError;
use real_estate_allocation::i18n::Locale;
use real_estate_allocation::places::{
    blocked_after, plan_pin, retry_after, CachedPin, PinPlan, PlaceOutcome, CACHE_TTL_SECS,
};
use real_estate_allocation::series::{series_anchor, series_weeks, yoy_pair, WEEK, YEAR};
use real_estate_allocation::storage::{
    cache_fetched_at, db_error, developer_check, file_not_found, legacy_file_path, legacy_import_needed,
};
use real_estate_allocation::translations::{reasoning, terms, Sidecar, SidecarEntry};
use real_estate_allocation::domain::{BuildingId, FileId, FileKind, PropertyFile};

/// A real seeded id, so the sidecar has an entry for it.
const MELODY: &str = "9a5a7d3b-cd42-4d65-a426-5b705a3d0cc9";
const MELODY_TERMS_EN: &str =
    "Handed over early 2024 (topped out 2021, completed Dec 2023). 4-star seafront tourism-apartment standard.";
const MELODY_TERMS_RU: &str =
    "Передан в начале 2024 года (верх 2021, завершён в декабре 2023). Стандарт 4-звёздочных апартаментов у моря.";

fn sidecar() -> Sidecar {
    let mut s = Sidecar::new();
    s.insert(SidecarEntry {
        building: MELODY.into(),
        locale: "ru".into(),
        field: "terms".into(),
        en: MELODY_TERMS_EN.into(),
        t: MELODY_TERMS_RU.into(),
    });
    s
}

fn building(id: &str, terms: Option<&str>) -> Building {
    Building {
        id: parse_building_id(id).unwrap(),
        name: "x".into(),
        place: GooglePlace::parse("place".into()).unwrap(),
        construction: ConstructionStatus::Completed,
        developer: None,
        research_url: ResearchUrl::parse("https://x.test".into()).unwrap(),
        terms: terms.map(str::to_owned),
        additional_reasoning: None,
        apartments: Vec::new(),
    }
}

/// The English the sidecar was written against, read back out of it.
fn seeded_en(field: &str) -> String {
    sidecar().get(MELODY, "ru", field).unwrap().0.to_string()
}

#[test]
fn english_is_the_source_not_a_translation_of_itself() {
    let en = seeded_en("terms");
    let b = building(MELODY, Some(&en));
    assert_eq!(terms(&sidecar(), &b, Locale::En), Some(en));
}

#[test]
fn a_matching_record_is_translated() {
    let en = seeded_en("terms");
    let b = building(MELODY, Some(&en));
    let got = terms(&sidecar(), &b, Locale::Ru).unwrap();
    assert_ne!(got, en, "the Russian terms should not be the English ones");
    assert_eq!(got, sidecar().get(MELODY, "ru", "terms").unwrap().1);
}

/// The entry records the English it was written against, so an edit to the
/// seed withdraws its own stale translations.
#[test]
fn a_moved_english_source_refuses_its_translation() {
    let b = building(MELODY, Some("Handed over early 2024, but this sentence was since rewritten."));
    assert_eq!(terms(&sidecar(), &b, Locale::Ru), b.terms.clone());
}

#[test]
fn an_unknown_building_falls_back_to_english() {
    let b = building("00000000-0000-4000-8000-000000000000", Some("Something in English."));
    assert_eq!(terms(&sidecar(), &b, Locale::Ru), Some("Something in English.".to_string()));
}

#[test]
fn an_absent_field_stays_absent() {
    let b = building(MELODY, None);
    assert_eq!(terms(&sidecar(), &b, Locale::Ru), None);
    assert_eq!(reasoning(&sidecar(), &b, Locale::Ru), None);
}

#[test]
fn a_missing_locale_or_field_falls_back_to_english() {
    let mut b = building(MELODY, Some(MELODY_TERMS_EN));
    assert_eq!(terms(&sidecar(), &b, Locale::Fr), Some(MELODY_TERMS_EN.to_string()));
    b.additional_reasoning = Some("Why.".into());
    assert_eq!(reasoning(&sidecar(), &b, Locale::Ru), Some("Why.".to_string()));
}

#[test]
fn a_later_entry_replaces_an_earlier_one() {
    let mut s = sidecar();
    s.insert(SidecarEntry {
        building: MELODY.into(),
        locale: "ru".into(),
        field: "terms".into(),
        en: MELODY_TERMS_EN.into(),
        t: "Новый перевод.".into(),
    });
    let b = building(MELODY, Some(MELODY_TERMS_EN));
    assert_eq!(terms(&s, &b, Locale::Ru), Some("Новый перевод.".to_string()));
}

#[test]
fn ids_format_as_hyphenated_lowercase() {
    assert_eq!(BuildingId { raw: 0 }.text(), "00000000-0000-0000-0000-000000000000");
    assert_eq!(BuildingId { raw: u128::MAX }.text(), "ffffffff-ffff-ffff-ffff-ffffffffffff");
    assert_eq!(FileId { raw: 0x0123456789abcdef0123456789abcdef }.text(), "01234567-89ab-cdef-0123-456789abcdef");
}

#[test]
fn a_series_keeps_seeded_weeks_up_to_now() {
    let anchor: i64 = 1_700_000_000;
    let far_future = anchor + 100 * WEEK;
    let seed = 5u64;
    let weeks = series_weeks(seed, anchor, far_future);
    let expected: Vec<(usize, i64)> = (0..31usize)
        .filter(|i| (seed as usize).wrapping_add(i * 7) % 8 != 0)
        .map(|i| (i, anchor - 8 * WEEK + i as i64 * WEEK))
        .collect();
    assert_eq!(weeks, expected);
    assert!(weeks.len() < 31 && weeks.len() >= 27);
    // Nothing after now is drawn.
    let now = anchor;
    let clipped = series_weeks(seed, anchor, now);
    assert!(clipped.iter().all(|(_, t)| *t <= now));
    assert_eq!(clipped.len(), expected.iter().filter(|(_, t)| *t <= now).count());
}

#[test]
fn a_lot_we_do_not_own_anchors_to_a_trailing_window() {
    assert_eq!(series_anchor(Some(123), 1_800_000_000), 123);
    assert_eq!(series_anchor(None, 1_800_000_000), 1_800_000_000 - 30 * WEEK);
}

#[test]
fn year_over_year_needs_a_year_of_weeks() {
    assert_eq!(yoy_pair(&vec![]), None);
    assert_eq!(yoy_pair(&vec![0, WEEK, 2 * WEEK]), None);
    let weeks: Vec<i64> = (0..60).map(|w| w * WEEK).collect();
    let (ago, last) = yoy_pair(&weeks).unwrap();
    assert_eq!(last, 59);
    let target = weeks[59] - YEAR;
    let best = weeks.iter().map(|t| (t - target).abs()).min().unwrap();
    assert_eq!((weeks[ago] - target).abs(), best);
    assert_eq!(ago, 7);
}

#[test]
fn pins_come_from_cache_backoff_or_the_api() {
    let cached = CachedPin { place_id: "P".into(), fetched_at: 1_000 };
    assert_eq!(plan_pin(Some(&cached), "P", 1_000 + CACHE_TTL_SECS - 1, 0), PinPlan::Cached);
    assert_eq!(plan_pin(Some(&cached), "P", 1_000 + CACHE_TTL_SECS, 0), PinPlan::Fetch);
    assert_eq!(plan_pin(Some(&cached), "Q", 1_001, 0), PinPlan::Fetch);
    assert_eq!(plan_pin(None, "P", 500, 600), PinPlan::Skip);
    assert_eq!(plan_pin(Some(&cached), "P", 1_001, 5_000), PinPlan::Cached);
}

#[test]
fn a_rate_limit_backs_off_for_its_wait() {
    assert_eq!(retry_after(Some("120")), 120);
    assert_eq!(retry_after(Some("soon")), 60);
    assert_eq!(retry_after(None), 60);
    let blocked = blocked_after(PlaceOutcome::RateLimited(retry_after(Some("120"))), 1_000, 0);
    assert_eq!(blocked, 1_120);
    assert_eq!(plan_pin(None, "P", 1_119, blocked), PinPlan::Skip);
    assert_eq!(plan_pin(None, "P", 1_120, blocked), PinPlan::Fetch);
    assert_eq!(blocked_after(PlaceOutcome::Failed, 1_000, 77), 77);
    assert_eq!(blocked_after(PlaceOutcome::Found, 1_000, 77), 77);
}

#[test]
fn storage_rules() {
    assert!(developer_check(&Some("Armo".into()), true).is_ok());
    assert!(developer_check(&None, false).is_ok());
    match developer_check(&Some("Nobody".into()), false) {
        Err(DomainError::Validation(m)) => assert_eq!(m, "unknown developer: Nobody"),
        other => panic!("expected a validation error, got {other:?}"),
    }
    match file_not_found(FileId { raw: 1 }) {
        DomainError::NotFound { entity, id } => {
            assert_eq!(entity, "file");
            assert_eq!(id, "00000000-0000-0000-0000-000000000001");
        },
        other => panic!("expected not-found, got {other:?}"),
    }
    assert!(matches!(db_error(true, "x".into()), DomainError::Conflict(m) if m == "duplicate primary key"));
    assert!(matches!(db_error(false, "x".into()), DomainError::Repository(m) if m == "x"));
}

#[test]
fn legacy_blobs_live_under_building_and_lot() {
    let f = PropertyFile {
        id: FileId { raw: 2 },
        building_id: BuildingId { raw: 1 },
        apt: Some(12),
        kind: FileKind::Pic,
        filename: "a.jpg".into(),
        content_type: "image/jpeg".into(),
    };
    assert_eq!(
        legacy_file_path(&f),
        "00000000-0000-0000-0000-000000000001/apt/12/00000000-0000-0000-0000-000000000002__a.jpg"
    );
    let g = PropertyFile { apt: None, ..f };
    assert_eq!(
        legacy_file_path(&g),
        "00000000-0000-0000-0000-000000000001/00000000-0000-0000-0000-000000000002__a.jpg"
    );
    assert_eq!(legacy_import_needed(true, 3, "/d").unwrap(), true);
    assert_eq!(legacy_import_needed(false, 0, "/d").unwrap(), false);
    match legacy_import_needed(false, 3, "/data/properties") {
        Err(DomainError::Repository(m)) => assert_eq!(
            m,
            "3 property_files rows have no content and the legacy data dir /data/properties is gone — restore it and reboot"
        ),
        other => panic!("expected a storage error, got {other:?}"),
    }
}

#[test]
fn cached_fetch_times_parse_or_mark_the_row_corrupt() {
    assert_eq!(cache_fetched_at("2024-01-01T00:00:00Z").unwrap(), 1_704_067_200);
    match cache_fetched_at("yesterday") {
        Err(DomainError::Repository(m)) => {
            assert!(m.starts_with("corrupt property row: repository error: place_cache fetched_at: "), "{m}")
        },
        other => panic!("expected a corrupt row, got {other:?}"),
    }
}
