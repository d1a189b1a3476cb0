//! The seeded portfolio: when seeding happens at all (only into an empty
//! store, so reseeding is idempotent) and how one seed record becomes a
//! stored building with its mock lot roster.
use vstd::prelude::*;
use crate::domain::{
    Building, BuildingId, ConstructionStatus, GooglePlace, PropertyState, ResearchUrl, is_web_url, parse_building_id,
    parsed_uuid,
};
use crate::error::{DomainError, is_validation};
use crate::roster::{id_root, mock_apartments, roster_lot, roster_total};
use crate::text::trimmed;

verus! {

/// Seeding only ever fills an empty store: a store that already holds
/// buildings is left untouched.
pub fn should_seed(existing: i64) -> (r: bool)
    ensures
        r == (existing <= 0),
{
    existing <= 0
}

/// The building a seed record describes, or the first thing wrong with it:
/// the id, then the place, then the research link.
pub open spec fn seed_outcome(
    id: Seq<char>,
    place: Seq<char>,
    research_url: Seq<char>,
    r: Result<Building, DomainError>,
) -> bool {
    match parsed_uuid(id) {
        Err(m) => r matches Err(e) && is_validation(e, "invalid building id: "@ + m),
        Ok(raw) => if trimmed(place).len() == 0 {
            r matches Err(e) && is_validation(e, "google place id must not be empty"@)
        } else if trimmed(research_url).len() == 0 {
            r matches Err(e) && is_validation(e, "research url must not be empty"@)
        } else if !is_web_url(trimmed(research_url)) {
            r matches Err(e) && is_validation(e, "research url must be http(s)"@)
        } else {
            r is Ok
        },
    }
}

/// Turns one seed record into the building to store: its id parsed, its
/// place and research link validated, its developer, terms and reasoning as
/// written, and its mock roster of lots with ours in `state`.
pub fn seeded_building(
    id: &str,
    name: &str,
    place: &str,
    state: PropertyState,
    construction: ConstructionStatus,
    developer: &str,
    research_url: &str,
    terms: &str,
    reasoning: &str,
) -> (r: Result<Building, DomainError>)
    ensures
        seed_outcome(id@, place@, research_url@, r),
        r matches Ok(b) ==> {
            &&& parsed_uuid(id@) == Ok::<u128, Seq<char>>(b.id.raw)
            &&& b.name@ == name@
            &&& b.place@ == trimmed(place@)
            &&& b.construction == construction
            &&& b.developer matches Some(d) && d@ == developer@
            &&& b.research_url@ == trimmed(research_url@)
            &&& b.terms matches Some(t) && t@ == terms@
            &&& b.additional_reasoning matches Some(x) && x@ == reasoning@
            &&& b.apartments@.len() == roster_total(id_root(b.id))
            &&& forall|i: int|
                0 <= i < b.apartments@.len() ==> #[trigger] b.apartments@[i] == roster_lot(id_root(b.id), state, i)
        },
{
    let bid = match parse_building_id(id) {
        Ok(b) => b,
        Err(e) => {
            return Err(e);
        },
    };
    let gp = match GooglePlace::parse(place.to_owned()) {
        Ok(p) => p,
        Err(e) => {
            return Err(e);
        },
    };
    let url = match ResearchUrl::parse(research_url.to_owned()) {
        Ok(u) => u,
        Err(e) => {
            return Err(e);
        },
    };
    let apartments = mock_apartments(bid, state);
    Ok(
        Building {
            id: bid,
            name: name.to_owned(),
            place: gp,
            construction,
            developer: Some(developer.to_owned()),
            research_url: url,
            terms: Some(terms.to_owned()),
            additional_reasoning: Some(reasoning.to_owned()),
            apartments,
        },
    )
}

} // verus!
