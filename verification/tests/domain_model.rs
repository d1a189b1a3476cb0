use real_estate_allocation::domain::{
    parse_building_id, parse_file_id, Apartment, ApartmentStatus, Building, BuildingId, ConstructionStatus, FileKind,
    FileRow, GooglePlace, InState, PropertyFile, PropertyState, PropertyStateKind, ResearchUrl,
};
use real_estate_allocation::error::{corrupt_row, io_err, DomainError};

fn building(raw: u128, apartments: Vec<Apartment>) -> Building {
    Building {
        id: BuildingId { raw },
        name: "x".into(),
        place: GooglePlace::parse("place".into()).unwrap(),
        construction: ConstructionStatus::Completed,
        developer: None,
        research_url: ResearchUrl::parse("https://x.test".into()).unwrap(),
        terms: None,
        additional_reasoning: None,
        apartments,
    }
}

fn apt(number: u32, status: ApartmentStatus) -> Apartment {
    Apartment { number, status }
}

#[test]
fn building_ids_parse_from_uuid_text() {
    let id = parse_building_id("9a5a7d3b-cd42-4d65-a426-5b705a3d0cc9").unwrap();
    assert_eq!(id.raw, 0x9a5a7d3b_cd42_4d65_a426_5b705a3d0cc9);
    assert_eq!(id.text(), "9a5a7d3b-cd42-4d65-a426-5b705a3d0cc9");
    match parse_building_id("not-a-uuid") {
        Err(DomainError::Validation(m)) => assert!(m.starts_with("invalid building id: "), "{m}"),
        other => panic!("expected a validation error, got {other:?}"),
    }
    match parse_file_id("") {
        Err(DomainError::Validation(m)) => assert!(m.starts_with("invalid file id: "), "{m}"),
        other => panic!("expected a validation error, got {other:?}"),
    }
}

#[test]
fn google_place_is_trimmed_and_non_empty() {
    assert_eq!(GooglePlace::parse("  ChIJabc \n".into()).unwrap().as_str(), "ChIJabc");
    match GooglePlace::parse(" \t ".into()) {
        Err(DomainError::Validation(m)) => assert_eq!(m, "google place id must not be empty"),
        other => panic!("expected a validation error, got {other:?}"),
    }
}

#[test]
fn research_url_must_be_web() {
    assert_eq!(ResearchUrl::parse(" https://q1-tower.vn/ ".into()).unwrap().as_str(), "https://q1-tower.vn/");
    assert_eq!(ResearchUrl::parse("http://x.test".into()).unwrap().as_str(), "http://x.test");
    match ResearchUrl::parse("ftp://x.test".into()) {
        Err(DomainError::Validation(m)) => assert_eq!(m, "research url must be http(s)"),
        other => panic!("expected a validation error, got {other:?}"),
    }
    match ResearchUrl::parse("   ".into()) {
        Err(DomainError::Validation(m)) => assert_eq!(m, "research url must not be empty"),
        other => panic!("expected a validation error, got {other:?}"),
    }
}

#[test]
fn kinds_and_statuses_round_trip_their_names() {
    for k in [PropertyStateKind::Purchased, PropertyStateKind::Interesting, PropertyStateKind::Purchasing] {
        assert_eq!(PropertyStateKind::parse(k.as_str()), Some(k));
    }
    assert_eq!(PropertyStateKind::parse("purchased"), None);
    assert_eq!(ConstructionStatus::UnderConstruction.as_str(), "Under Construction");
    assert_eq!(ConstructionStatus::parse("Completed"), Some(ConstructionStatus::Completed));
    assert_eq!(ConstructionStatus::parse("Under Construction"), Some(ConstructionStatus::UnderConstruction));
    assert_eq!(ConstructionStatus::parse("UnderConstruction"), None);
    assert_eq!(FileKind::PitchDeck.as_str(), "pitch_deck");
    assert_eq!(FileKind::parse("pic"), Some(FileKind::Pic));
    assert_eq!(FileKind::parse("Pic"), None);
    assert_eq!(PropertyState::Purchased(5).kind(), PropertyStateKind::Purchased);
    assert_eq!(ApartmentStatus::Sold.portfolio_kind(), None);
    assert_eq!(ApartmentStatus::Purchased(1).portfolio_kind(), Some(PropertyStateKind::Purchased));
}

#[test]
fn lot_counts_partition_the_roster() {
    let b = building(
        1,
        vec![
            apt(1, ApartmentStatus::Purchased(0)),
            apt(2, ApartmentStatus::Available),
            apt(3, ApartmentStatus::Interesting),
            apt(4, ApartmentStatus::Sold),
            apt(5, ApartmentStatus::Purchasing),
        ],
    );
    assert_eq!(b.lots_total(), 5);
    assert_eq!(b.lots_available(), 2);
    assert_eq!(b.lots_sold(), 3);
    assert_eq!(b.lots_ours(), 2);
    assert_eq!(b.lots_sold() + b.lots_available(), b.lots_total());
    assert_eq!(b.id(), BuildingId { raw: 1 });
}

#[test]
fn state_kinds_are_distinct_in_first_appearance_order() {
    let b = building(
        2,
        vec![
            apt(1, ApartmentStatus::Sold),
            apt(2, ApartmentStatus::Purchasing),
            apt(3, ApartmentStatus::Purchased(9)),
            apt(4, ApartmentStatus::Purchasing),
        ],
    );
    assert_eq!(b.state_kinds(), vec![PropertyStateKind::Purchasing, PropertyStateKind::Purchased]);
    assert!(InState(PropertyStateKind::Purchased).holds(&b));
    assert!(!InState(PropertyStateKind::Interesting).holds(&b));
    assert!(building(3, vec![apt(1, ApartmentStatus::Sold)]).state_kinds().is_empty());
}

#[test]
fn stored_rows_revalidate() {
    let row = FileRow {
        id: "00000000-0000-4000-8000-000000000001".into(),
        property_id: "00000000-0000-4000-8000-000000000002".into(),
        apt: Some(7),
        kind: "pitch_deck".into(),
        filename: "deck.pdf".into(),
        content_type: "application/pdf".into(),
    };
    let f: PropertyFile = PropertyFile::try_from_row(row).unwrap();
    assert_eq!(f.id.raw, 0x00000000_0000_4000_8000_000000000001);
    assert_eq!(f.building_id.raw, 0x00000000_0000_4000_8000_000000000002);
    assert_eq!(f.apt, Some(7));
    assert_eq!(f.kind, FileKind::PitchDeck);
    assert_eq!(f.filename, "deck.pdf");

    let bad_kind = FileRow {
        id: "00000000-0000-4000-8000-000000000001".into(),
        property_id: "00000000-0000-4000-8000-000000000002".into(),
        apt: None,
        kind: "video".into(),
        filename: "v".into(),
        content_type: "video/mp4".into(),
    };
    match PropertyFile::try_from_row(bad_kind) {
        Err(DomainError::Repository(m)) => {
            assert_eq!(m, "corrupt property row: repository error: unknown file kind: Matching variant not found")
        },
        other => panic!("expected a corrupt row, got {other:?}"),
    }

    let bad_id = FileRow {
        id: "nope".into(),
        property_id: "also nope".into(),
        apt: None,
        kind: "pic".into(),
        filename: "p".into(),
        content_type: "image/png".into(),
    };
    match PropertyFile::try_from_row(bad_id) {
        Err(DomainError::Repository(m)) => {
            assert!(m.starts_with("corrupt property row: validation error: invalid file id: "), "{m}")
        },
        other => panic!("expected a corrupt row, got {other:?}"),
    }
}

#[test]
fn errors_describe_themselves() {
    assert_eq!(DomainError::Validation("v".into()).describe(), "validation error: v");
    assert_eq!(DomainError::Conflict("c".into()).describe(), "conflict: c");
    assert_eq!(
        DomainError::NotFound { entity: "file".into(), id: "42".into() }.describe(),
        "file not found: 42"
    );
    match corrupt_row(DomainError::Repository("bad".into())) {
        DomainError::Repository(m) => assert_eq!(m, "corrupt property row: repository error: bad"),
        other => panic!("expected a storage error, got {other:?}"),
    }
    let e = std::io::Error::new(std::io::ErrorKind::Other, "disk on fire");
    match io_err(e) {
        DomainError::Repository(m) => assert_eq!(m, "io: disk on fire"),
        other => panic!("expected a storage error, got {other:?}"),
    }
}
