use real_estate_allocation::domain::{
    Apartment, ApartmentStatus, Building, BuildingId, ConstructionStatus, FileId, FileKind, GooglePlace, ResearchUrl,
};
use real_estate_allocation::i18n::{locale_from_cookies, status_key, Catalogues, Locale};
use real_estate_allocation::ui::{
    accent_segments, am_i_admin, b64, build_rev, build_tag_label, commit_url, data_url, kind_for, lot_at, maps_src, rea_origin,
    status_label, status_variant, upload_file, BadgeVariant,
};

fn building(apartments: Vec<Apartment>) -> Building {
    Building {
        id: BuildingId { raw: 7 },
        name: "x".into(),
        place: GooglePlace::parse("place".into()).unwrap(),
        construction: ConstructionStatus::Completed,
        developer: None,
        research_url: ResearchUrl::parse("https://x.test".into()).unwrap(),
        terms: None,
        additional_reasoning: None,
        apartments,
    }
}

#[test]
fn statuses_have_one_key_label_and_badge() {
    assert_eq!(status_key(ApartmentStatus::Purchased(3)), "status.purchased");
    assert_eq!(status_key(ApartmentStatus::Available), "status.available");
    assert_eq!(status_label(ApartmentStatus::Interesting), "Interesting");
    assert_eq!(status_label(ApartmentStatus::Sold), "Sold");
    assert_eq!(status_variant(ApartmentStatus::Purchased(0)), BadgeVariant::Success);
    assert_eq!(status_variant(ApartmentStatus::Purchasing), BadgeVariant::Secondary);
    assert_eq!(status_variant(ApartmentStatus::Interesting), BadgeVariant::Outline);
    assert_eq!(status_variant(ApartmentStatus::Available), BadgeVariant::Outline);
}

#[test]
fn build_rev_prefers_a_non_empty_handed_revision() {
    assert_eq!(build_rev(Some("abc123"), "deadbeef"), "abc123");
    assert_eq!(build_rev(Some(""), "deadbeef"), "deadbeef");
    assert_eq!(build_rev(None, "deadbeef"), "deadbeef");
    assert_eq!(commit_url("abc"), "https://github.com/ev-invest/real_estate_allocation/commit/abc");
    assert_eq!(build_tag_label(Some("xl"), "0.1.0", "abc"), "xl·v0.1.0·abc");
    assert_eq!(build_tag_label(None, "0.1.0", "abc"), "v0.1.0·abc");
}

#[test]
fn uploads_are_filed_by_kind() {
    assert_eq!(kind_for("image/png", "deck.png"), FileKind::Pic);
    assert_eq!(kind_for("application/pdf", "Investor-DECK.pdf"), FileKind::PitchDeck);
    assert_eq!(kind_for("application/vnd.ms-powerpoint.presentation", "q1.pptx"), FileKind::PitchDeck);
    assert_eq!(kind_for("application/pdf", "contract.pdf"), FileKind::Document);
    assert_eq!(kind_for("Image/png", "x"), FileKind::Document);
}

#[test]
fn base64_matches_the_standard_alphabet_with_padding() {
    assert_eq!(b64(b""), "");
    assert_eq!(b64(b"f"), "Zg==");
    assert_eq!(b64(b"fo"), "Zm8=");
    assert_eq!(b64(b"foo"), "Zm9v");
    assert_eq!(b64(b"foob"), "Zm9vYg==");
    assert_eq!(b64(b"fooba"), "Zm9vYmE=");
    assert_eq!(b64(b"foobar"), "Zm9vYmFy");
    assert_eq!(b64(&[0xff, 0xfe, 0xfd]), "//79");
    assert_eq!(data_url("image/png", &[0, 1, 2]), "data:image/png;base64,AAEC");
}

#[test]
fn only_the_admin_token_administers() {
    assert!(am_i_admin("s3cret", "s3cret"));
    assert!(!am_i_admin("guess", "s3cret"));
    assert!(!am_i_admin("", ""));
    let ok = upload_file(
        FileId { raw: 9 },
        BuildingId { raw: 1 },
        Some(2),
        FileKind::Document,
        "a.pdf".into(),
        "application/pdf".into(),
        "t",
        "t",
    )
    .unwrap();
    assert_eq!(ok.id, FileId { raw: 9 });
    assert_eq!(ok.apt, Some(2));
    assert_eq!(ok.filename, "a.pdf");
    let refused = upload_file(
        FileId { raw: 9 },
        BuildingId { raw: 1 },
        None,
        FileKind::Pic,
        "a.png".into(),
        "image/png".into(),
        "nope",
        "t",
    );
    assert_eq!(refused.unwrap_err(), "not authorized to upload");
}

#[test]
fn the_header_finds_the_selected_lot() {
    let b = building(vec![
        Apartment { number: 4, status: ApartmentStatus::Sold },
        Apartment { number: 5, status: ApartmentStatus::Purchasing },
    ]);
    assert_eq!(lot_at(&b, Some(5)).map(|a| a.status), Some(ApartmentStatus::Purchasing));
    assert_eq!(lot_at(&b, Some(6)), None);
    assert_eq!(lot_at(&b, None), None);
}

#[test]
fn origins_and_map_loader() {
    assert_eq!(rea_origin(Some("https://rea.example".into()), "https://bundle".into()), "https://rea.example");
    assert_eq!(rea_origin(Some("".into()), "https://bundle".into()), "https://bundle");
    assert_eq!(rea_origin(None, "https://bundle".into()), "https://bundle");
    assert_eq!(maps_src(""), None);
    assert_eq!(
        maps_src("K").unwrap(),
        "https://maps.googleapis.com/maps/api/js?key=K&libraries=places&v=weekly&callback=__reaMapsReady"
    );
}

#[test]
fn locales_round_trip_their_codes() {
    for l in [Locale::En, Locale::Ru, Locale::Vi, Locale::Fr, Locale::De] {
        assert_eq!(Locale::parse(l.code()), Some(l));
    }
    assert_eq!(Locale::parse("vn"), None);
    assert_eq!(Locale::parse("RU"), None);
}

#[test]
fn the_locale_cookie_selects_the_locale() {
    assert_eq!(locale_from_cookies("a=1; ev_locale=ru; b=2"), Locale::Ru);
    assert_eq!(locale_from_cookies("ev_locale = fr "), Locale::Fr);
    assert_eq!(locale_from_cookies("x=1;ev_locale=de"), Locale::De);
    // The first locale cookie decides, even when it names no locale.
    assert_eq!(locale_from_cookies("ev_locale=xx; ev_locale=ru"), Locale::En);
    assert_eq!(locale_from_cookies("ev_localex=ru"), Locale::En);
    assert_eq!(locale_from_cookies("ev_locale"), Locale::En);
    assert_eq!(locale_from_cookies(""), Locale::En);
    assert_eq!(locale_from_cookies("ev_locale=vi=1"), Locale::En);
    assert_eq!(locale_from_cookies("junk; ev_locale=vi"), Locale::Vi);
}

#[test]
fn english_defines_the_key_count() {
    let cats = Catalogues {
        en: r#"{"panel.map":"Map","status.purchased":"Purchased","status.sold":"Sold"}"#,
        ru: r#"{"panel.map":{"en":"Map","t":"Карта"}}"#,
        vi: "{}",
        fr: "{}",
        de: "{}",
    };
    assert_eq!(cats.key_count(), 3);
    assert_eq!(cats.checked_key_count(), Some(3));
    assert_eq!(cats.raw_for(Locale::En), None);
    assert_eq!(cats.raw_for(Locale::Ru), Some(r#"{"panel.map":{"en":"Map","t":"Карта"}}"#));
    let keys: Vec<String> = cats.source().into_iter().map(|(k, _)| k).collect();
    assert_eq!(keys, vec!["panel.map", "status.purchased", "status.sold"]);
    let broken = Catalogues { en: "[1,2]", ..cats };
    assert_eq!(broken.checked_key_count(), None);
}

#[test]
fn accent_markers_split_the_label() {
    let segs = accent_segments("Premium Asset *Portfolio*");
    assert_eq!(
        segs,
        vec![("Premium Asset ".to_string(), false), ("Portfolio".to_string(), true), ("".to_string(), false)]
    );
    assert_eq!(accent_segments("plain"), vec![("plain".to_string(), false)]);
    assert_eq!(accent_segments(""), vec![("".to_string(), false)]);
    let moved = accent_segments("*Портфель* премиальных активов");
    assert_eq!(moved[1], ("Портфель".to_string(), true));
    assert_eq!(moved[2], (" премиальных активов".to_string(), false));
}
