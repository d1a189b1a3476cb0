use real_estate_allocation::domain::{BuildingId, PropertyStateKind};
use real_estate_allocation::layout::{band_action, parse_layout, parse_seeds, seed_key, BandAction, Breakpoint, Seeds};
use real_estate_allocation::nav::{
    cycle_appt, parse_i64, parse_selection, parse_u32, selection_csv, toggle_state, DeepLink,
};
use serde_json::Value;

fn json(text: &str) -> Value {
    serde_json::from_str(text).unwrap()
}

// A pre-seeds file (one bare arrangement) is adopted as `default`, a seeds map
// resolves per band group (xl/lg, md, sm/xs) falling back to `default`, legacy
// per-band keys fold into their group, and any other shape is rejected.
#[test]
fn seed_resolution() {
    let resolve = |file: &str, bp: Breakpoint| parse_seeds(file).unwrap().for_breakpoint(bp);
    assert_eq!(resolve(r#"{"version":1,"grid":{}}"#, Breakpoint::Md), Some(json(r#"{"version":1,"grid":{}}"#)));
    assert_eq!(resolve(r#"{"default":1,"md":2}"#, Breakpoint::Md), Some(json("2")));
    assert_eq!(resolve(r#"{"default":1,"md":2}"#, Breakpoint::Xl), Some(json("1")));
    assert_eq!(resolve(r#"{"md":2}"#, Breakpoint::Xl), None);
    assert_eq!(resolve(r#"{"xl":1}"#, Breakpoint::Lg), Some(json("1")));
    assert_eq!(resolve(r#"{"sm":1}"#, Breakpoint::Xs), Some(json("1")));
    assert_eq!(resolve(r#"{"lg":2}"#, Breakpoint::Xl), Some(json("2")));
    assert_eq!(resolve(r#"{"xl":1,"lg":2,"xs":3}"#, Breakpoint::Lg), Some(json("1")));
    assert!(parse_seeds(r#"{"bogus":1}"#).is_err());
    assert!(parse_seeds("[]").is_err());
    // The committed default layout (assets/dashboard_layout.json) does not
    // ship with this crate, so that its seeds carry a `default` entry is not
    // checked here.
}

#[test]
fn seed_errors_name_the_problem() {
    assert_eq!(parse_seeds("[]").unwrap_err(), "layout file: expected an object");
    assert_eq!(parse_seeds(r#"{"zz":1,"bogus":2}"#).unwrap_err(), "layout file: unknown seed key `bogus`");
    assert!(parse_seeds("{").unwrap_err().starts_with("layout file: "));
    assert!(parse_layout("not json").unwrap_err().starts_with("layout not json: "));
    assert_eq!(parse_layout(r#"{"a":[1,2]}"#).unwrap(), json(r#"{"a":[1,2]}"#));
}

#[test]
fn band_groups_share_seeds() {
    assert_eq!(seed_key(Breakpoint::Xl), "xl");
    assert_eq!(seed_key(Breakpoint::Lg), "xl");
    assert_eq!(seed_key(Breakpoint::Md), "md");
    assert_eq!(seed_key(Breakpoint::Sm), "sm");
    assert_eq!(seed_key(Breakpoint::Xs), "sm");
}

#[test]
fn a_saved_seed_is_what_its_group_loads() {
    let mut seeds = Seeds::new();
    seeds.record(Breakpoint::Md, json(r#"{"m":1}"#));
    assert_eq!(seeds.for_breakpoint(Breakpoint::Md), Some(json(r#"{"m":1}"#)));
    assert_eq!(seeds.for_breakpoint(Breakpoint::Xl), None);
    seeds.record(Breakpoint::Lg, json(r#"{"x":1}"#));
    // An xl-group save also becomes the default every ungrouped band opens onto.
    assert_eq!(seeds.for_breakpoint(Breakpoint::Xl), Some(json(r#"{"x":1}"#)));
    assert_eq!(seeds.for_breakpoint(Breakpoint::Sm), Some(json(r#"{"x":1}"#)));
    assert_eq!(seeds.for_breakpoint(Breakpoint::Md), Some(json(r#"{"m":1}"#)));
}

#[test]
fn lot_navigation_wraps_around() {
    let nums = vec![3u32, 5, 9];
    assert_eq!(cycle_appt(&nums, Some(5), 1), Some(9));
    assert_eq!(cycle_appt(&nums, Some(9), 1), Some(3));
    assert_eq!(cycle_appt(&nums, Some(3), -1), Some(9));
    assert_eq!(cycle_appt(&nums, None, 1), Some(5));
    assert_eq!(cycle_appt(&nums, Some(42), -1), Some(9));
    assert_eq!(cycle_appt(&vec![], Some(1), 1), None);
    // Long steps wrap as many times as they need.
    assert_eq!(cycle_appt(&nums, Some(5), i32::MIN), Some(9));
    assert_eq!(cycle_appt(&nums, Some(3), i32::MAX), Some(5));
    assert_eq!(cycle_appt(&nums, Some(3), 3_000_000), Some(3));
    // One step forward then one back returns to the same lot.
    let there = cycle_appt(&nums, Some(5), 1);
    assert_eq!(cycle_appt(&nums, there, -1), Some(5));
}

#[test]
fn toggling_a_state_flips_it() {
    assert_eq!(toggle_state(vec![PropertyStateKind::Purchased], PropertyStateKind::Purchasing), vec![PropertyStateKind::Purchased, PropertyStateKind::Purchasing]);
    assert_eq!(toggle_state(vec![PropertyStateKind::Purchased, PropertyStateKind::Purchasing], PropertyStateKind::Purchased), vec![PropertyStateKind::Purchasing]);
    assert_eq!(toggle_state(toggle_state(vec![PropertyStateKind::Interesting], PropertyStateKind::Purchased), PropertyStateKind::Purchased), vec![PropertyStateKind::Interesting]);
}

#[test]
fn numbers_parse_as_std_does() {
    assert_eq!(parse_u32("42"), Some(42));
    assert_eq!(parse_u32("+7"), Some(7));
    assert_eq!(parse_u32("4294967295"), Some(u32::MAX));
    assert_eq!(parse_u32("4294967296"), None);
    assert_eq!(parse_u32(""), None);
    assert_eq!(parse_u32("+"), None);
    assert_eq!(parse_u32("-1"), None);
    assert_eq!(parse_u32(" 1"), None);
    assert_eq!(parse_i64("-9223372036854775808"), Some(i64::MIN));
    assert_eq!(parse_i64("9223372036854775807"), Some(i64::MAX));
    assert_eq!(parse_i64("9223372036854775808"), None);
    assert_eq!(parse_i64("-0"), Some(0));
    assert_eq!(parse_i64("120"), Some(120));
    assert_eq!(parse_i64("1.5"), None);
    for s in ["0", "17", "+3", "-4", "", "-", "x1", "99999999999999999999"] {
        assert_eq!(parse_i64(s), s.parse::<i64>().ok(), "{s}");
        assert_eq!(parse_u32(s), s.parse::<u32>().ok(), "{s}");
    }
}

#[test]
fn a_selection_names_the_filter() {
    assert_eq!(parse_selection("Purchasing, Interesting"), vec![PropertyStateKind::Purchasing, PropertyStateKind::Interesting]);
    assert_eq!(parse_selection("bogus,,Purchased"), vec![PropertyStateKind::Purchased]);
    assert_eq!(parse_selection(""), vec![PropertyStateKind::Purchased]);
    assert_eq!(parse_selection("nothing"), vec![PropertyStateKind::Purchased]);
}

#[test]
fn a_shared_link_restores_its_filter() {
    let filter = vec![PropertyStateKind::Interesting, PropertyStateKind::Purchased, PropertyStateKind::Purchasing];
    let csv = selection_csv(&filter);
    assert_eq!(csv, "Interesting,Purchased,Purchasing");
    assert_eq!(parse_selection(&csv), filter);
    assert_eq!(selection_csv(&vec![]), "");
}

#[test]
fn deep_links_drop_what_names_nothing() {
    let link = DeepLink::from_query("9a5a7d3b-cd42-4d65-a426-5b705a3d0cc9", "12", "Purchasing");
    assert_eq!(link.building, Some(BuildingId { raw: 0x9a5a7d3b_cd42_4d65_a426_5b705a3d0cc9 }));
    assert_eq!(link.appt, Some(12));
    assert_eq!(link.filter, vec![PropertyStateKind::Purchasing]);
    let junk = DeepLink::from_query("zzz", "twelve", "");
    assert_eq!(junk.building, None);
    assert_eq!(junk.appt, None);
    assert_eq!(junk.filter, vec![PropertyStateKind::Purchased]);
}

#[test]
fn band_loads_apply_saved_or_seed_built_in() {
    let saved = r#"{"grid":{}}"#.to_string();
    assert_eq!(band_action(Breakpoint::Md, Breakpoint::Md, Ok(Some(saved.clone()))), BandAction::Apply(saved.clone()));
    assert_eq!(band_action(Breakpoint::Md, Breakpoint::Md, Ok(None)), BandAction::BuiltIn);
    assert_eq!(band_action(Breakpoint::Md, Breakpoint::Md, Err("offline".to_string())), BandAction::BuiltIn);
    assert_eq!(band_action(Breakpoint::Md, Breakpoint::Xl, Ok(Some(saved))), BandAction::Stale);
    assert_eq!(band_action(Breakpoint::Sm, Breakpoint::Xs, Ok(None)), BandAction::Stale);
}
