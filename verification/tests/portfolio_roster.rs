use real_estate_allocation::domain::{
    Apartment, ApartmentStatus, Building, BuildingId, ConstructionStatus, FileId, FileKind, GooglePlace, PropertyFile,
    PropertyState, PropertyStateKind, ResearchUrl,
};
use real_estate_allocation::error::DomainError;
use real_estate_allocation::portfolio::{
    change_permille, in_any_state, is_prospect, is_selected, list_buildings, list_files, lot_seed_exec,
    partition_prospects, validate_appt,
};
use real_estate_allocation::roster::{mix_exec, mock_apartments, price_jitter, root_of};
use real_estate_allocation::seed::{seeded_building, should_seed};
use real_estate_allocation::ui::provisional;

const MELODY: &str = "9a5a7d3b-cd42-4d65-a426-5b705a3d0cc9";
const BOUGHT: i64 = 1_704_067_200; // 2024-01-01T00:00:00Z

fn apt(number: u32, status: ApartmentStatus) -> Apartment {
    Apartment { number, status }
}

fn building(seed: u64, name: &str, apartments: Vec<Apartment>) -> Building {
    Building {
        id: BuildingId { raw: (seed as u128) << 64 },
        name: name.into(),
        place: GooglePlace::parse("place".into()).unwrap(),
        construction: ConstructionStatus::Completed,
        developer: None,
        research_url: ResearchUrl::parse("https://x.test".into()).unwrap(),
        terms: None,
        additional_reasoning: None,
        apartments,
    }
}

fn book() -> Vec<Building> {
    vec![
        building(
            250,
            "Melody",
            vec![
                apt(1, ApartmentStatus::Purchased(BOUGHT)),
                apt(2, ApartmentStatus::Purchased(BOUGHT)),
                apt(3, ApartmentStatus::Sold),
                apt(4, ApartmentStatus::Available),
            ],
        ),
        building(700, "Vina2", vec![apt(1, ApartmentStatus::Purchased(BOUGHT)), apt(2, ApartmentStatus::Sold)]),
        building(900, "Q1", vec![apt(1, ApartmentStatus::Purchasing), apt(2, ApartmentStatus::Available)]),
    ]
}

fn file(raw: u128, apt: Option<u32>) -> PropertyFile {
    PropertyFile {
        id: FileId { raw },
        building_id: BuildingId { raw: 1 },
        apt,
        kind: FileKind::Pic,
        filename: format!("f{raw}.jpg"),
        content_type: "image/jpeg".into(),
    }
}

// A building with no owned (`Purchased`) lot in the active filter is a
// prospect: its tile is drawn provisional (dimmed + hatched), an owned one is
// solid.
#[test]
fn prospect_buildings_drawn_provisional() {
    let states = vec![PropertyStateKind::Purchased, PropertyStateKind::Purchasing];
    let included: Vec<Building> = book().into_iter().filter(|b| in_any_state(b, &states)).collect();
    let prospect = |name: &str| is_prospect(included.iter().find(|b| b.name == name).unwrap(), &states);
    assert!(prospect("Q1"), "Q1 (purchasing only) is a prospect");
    assert!(!prospect("Melody"), "Melody (owned lots) is not a prospect");

    let (dim, stripes) = provisional(prospect("Q1"));
    assert!(stripes.contains("repeating-linear-gradient"), "prospect tile must be hatched");
    assert!(dim.contains("opacity-50"), "prospect tile must be dimmed");
    assert_eq!(provisional(false), ("", ""));
}

#[test]
fn owned_buildings_take_the_left_slab() {
    let (owned, prospects) = partition_prospects(&book(), &vec![PropertyStateKind::Purchased, PropertyStateKind::Purchasing]);
    assert_eq!(owned, vec![0, 1]);
    assert_eq!(prospects, vec![2]);
}

#[test]
fn a_listing_defaults_to_purchased_holdings() {
    let names = |bs: Vec<Building>| bs.into_iter().map(|b| b.name).collect::<Vec<_>>();
    assert_eq!(names(list_buildings(book(), None)), vec!["Melody", "Vina2"]);
    assert_eq!(names(list_buildings(book(), Some(vec![PropertyStateKind::Purchasing]))), vec!["Q1"]);
    assert!(list_buildings(book(), Some(vec![PropertyStateKind::Interesting])).is_empty());
    assert!(list_buildings(book(), Some(vec![])).is_empty());
}

#[test]
fn each_level_lists_only_its_own_files() {
    let files = vec![file(1, None), file(2, Some(3)), file(3, None), file(4, Some(4))];
    let ids = |fs: Vec<PropertyFile>| fs.into_iter().map(|f| f.id.raw).collect::<Vec<_>>();
    assert_eq!(ids(list_files(files, None)), vec![1, 3]);
    let files = vec![file(1, None), file(2, Some(3)), file(3, None), file(4, Some(4))];
    assert_eq!(ids(list_files(files, Some(3))), vec![2]);
}

#[test]
fn a_lot_selects_when_ours_in_an_active_kind() {
    assert!(is_selected(&apt(1, ApartmentStatus::Purchased(0)), &vec![PropertyStateKind::Purchased]));
    assert!(!is_selected(&apt(1, ApartmentStatus::Purchasing), &vec![PropertyStateKind::Purchased]));
    assert!(!is_selected(&apt(1, ApartmentStatus::Sold), &vec![PropertyStateKind::Purchased, PropertyStateKind::Purchasing, PropertyStateKind::Interesting]));
}

#[test]
fn a_stale_lot_number_drops_to_the_building() {
    let b = &book()[0];
    assert_eq!(validate_appt(b, Some(3)), Some(3));
    assert_eq!(validate_appt(b, Some(9)), None);
    assert_eq!(validate_appt(b, None), None);
}

#[test]
fn lot_seeds_mix_the_id_with_the_number() {
    let id = BuildingId { raw: 250u128 << 64 };
    assert_eq!(lot_seed_exec(id, 1), 11400714819323198703);
    assert_eq!(lot_seed_exec(id, 2), 4354685564936845520);
    assert_eq!(change_permille(id, 1), 703);
    assert_eq!(root_of(id), 250);
}

#[test]
fn rosters_are_stable_per_building() {
    let id = BuildingId { raw: 0x9a5a7d3b_cd42_4d65_a426_5b705a3d0cc9 };
    let lots = mock_apartments(id, PropertyState::Purchased(BOUGHT));
    assert_eq!(lots.len(), 25);
    let code: String = lots
        .iter()
        .map(|a| match a.status {
            ApartmentStatus::Purchased(t) if t == BOUGHT => 'O',
            ApartmentStatus::Sold => 'S',
            ApartmentStatus::Available => 'A',
            _ => '?',
        })
        .collect();
    assert_eq!(code, "OOOOSSASAAAAAAAAAAAASASAS");
    assert!(lots.iter().enumerate().all(|(i, a)| a.number == i as u32 + 1));
    assert_eq!(mock_apartments(id, PropertyState::Purchased(BOUGHT)), lots);
    assert_eq!(price_jitter(id, 1), 22);
    assert_eq!(price_jitter(id, 2), 8);
    let _ = mix_exec(0, 0);
}

#[test]
fn a_seeded_building_shows_one_kind() {
    for seed in [1u64, 250, 700, 900, 123456789] {
        let lots = mock_apartments(BuildingId { raw: (seed as u128) << 64 }, PropertyState::Purchasing);
        let b = building(seed, "b", lots);
        assert!((20..=40).contains(&b.lots_total()));
        assert_eq!(b.state_kinds(), vec![PropertyStateKind::Purchasing]);
        assert!((1..=5).contains(&b.lots_ours()));
    }
}

#[test]
fn seeding_only_fills_an_empty_store() {
    assert!(should_seed(0));
    assert!(!should_seed(7));
}

#[test]
fn a_seed_record_becomes_a_building() {
    let b = seeded_building(
        MELODY,
        "Quy Nhơn Melody",
        " ChIJOYTnE0ZtbzERRZnbRLfEIU8 ",
        PropertyState::Purchased(BOUGHT),
        ConstructionStatus::Completed,
        "Hưng Thịnh",
        "https://www.hungthinhland.com/",
        "Handed over early 2024.",
        "Beachfront.",
    )
    .unwrap();
    assert_eq!(b.id.text(), MELODY);
    assert_eq!(b.place.as_str(), "ChIJOYTnE0ZtbzERRZnbRLfEIU8");
    assert_eq!(b.developer.as_deref(), Some("Hưng Thịnh"));
    assert_eq!(b.terms.as_deref(), Some("Handed over early 2024."));
    assert_eq!(b.apartments.len(), 25);
    assert_eq!(b.state_kinds(), vec![PropertyStateKind::Purchased]);
}

#[test]
fn a_bad_seed_record_names_its_first_fault() {
    let attempt = |id: &str, place: &str, url: &str| {
        seeded_building(
            id,
            "n",
            place,
            PropertyState::Interesting,
            ConstructionStatus::UnderConstruction,
            "d",
            url,
            "t",
            "r",
        )
    };
    match attempt("x", "", "ftp://") {
        Err(DomainError::Validation(m)) => assert!(m.starts_with("invalid building id: "), "{m}"),
        other => panic!("expected a validation error, got {other:?}"),
    }
    match attempt(MELODY, "  ", "ftp://") {
        Err(DomainError::Validation(m)) => assert_eq!(m, "google place id must not be empty"),
        other => panic!("expected a validation error, got {other:?}"),
    }
    match attempt(MELODY, "p", "ftp://x") {
        Err(DomainError::Validation(m)) => assert_eq!(m, "research url must be http(s)"),
        other => panic!("expected a validation error, got {other:?}"),
    }
}
