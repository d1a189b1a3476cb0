//! The domain model: buildings, their lots, and our relationship to each lot.
use vstd::prelude::*;
use crate::error::{DomainError, is_validation, is_repository, error_text, corrupt_row};
use crate::sync::hex_digit;
use crate::text::{trim, trimmed, starts_with, has_prefix, same_text};

verus! {

/// Marks a file identifier.
pub struct FileTag;

/// Marks a building identifier.
pub struct BuildingTag;

/// A building's identity: the 128-bit value of its UUID.
#[derive(Clone, Copy, Debug, PartialEq, Eq, Structural)]
pub struct BuildingId {
    pub raw: u128,
}

/// A stored file's identity: the 128-bit value of its UUID.
#[derive(Clone, Copy, Debug, PartialEq, Eq, Structural)]
pub struct FileId {
    pub raw: u128,
}

/// Our acquisition lifecycle for a whole listing. `Purchased` carries the
/// instant we bought, in seconds since the Unix epoch.
#[derive(Clone, Copy, Debug, PartialEq, Eq, Structural)]
pub enum PropertyState {
    Purchased(i64),
    Interesting,
    Purchasing,
}

/// The state category, stripped of the purchase instant: what filters,
/// badges and map colours switch on.
#[derive(Clone, Copy, Debug, PartialEq, Eq, Structural)]
pub enum PropertyStateKind {
    Purchased,
    Interesting,
    Purchasing,
}

/// Build progress, independent of our acquisition lifecycle.
#[derive(Clone, Copy, Debug, PartialEq, Eq, Structural)]
pub enum ConstructionStatus {
    UnderConstruction,
    Completed,
}

/// The kind of a state, without the purchase instant.
pub open spec fn spec_state_kind(s: PropertyState) -> PropertyStateKind {
    match s {
        PropertyState::Purchased(_) => PropertyStateKind::Purchased,
        PropertyState::Interesting => PropertyStateKind::Interesting,
        PropertyState::Purchasing => PropertyStateKind::Purchasing,
    }
}

impl PropertyState {
    /// The kind of this state, without the purchase instant.
    pub fn kind(self) -> (r: PropertyStateKind)
        ensures
            r == spec_state_kind(self),
    {
        match self {
            PropertyState::Purchased(_) => PropertyStateKind::Purchased,
            PropertyState::Interesting => PropertyStateKind::Interesting,
            PropertyState::Purchasing => PropertyStateKind::Purchasing,
        }
    }
}

/// The title-case name a state kind is shown and stored under.
pub open spec fn kind_name(k: PropertyStateKind) -> Seq<char> {
    match k {
        PropertyStateKind::Purchased => "Purchased"@,
        PropertyStateKind::Interesting => "Interesting"@,
        PropertyStateKind::Purchasing => "Purchasing"@,
    }
}

/// The state kind whose name is exactly `s`, if any.
pub open spec fn kind_named(s: Seq<char>) -> Option<PropertyStateKind> {
    if s == "Purchased"@ {
        Some(PropertyStateKind::Purchased)
    } else if s == "Interesting"@ {
        Some(PropertyStateKind::Interesting)
    } else if s == "Purchasing"@ {
        Some(PropertyStateKind::Purchasing)
    } else {
        None
    }
}

impl PropertyStateKind {
    /// The title-case name (`Purchased`, `Interesting`, `Purchasing`).
    pub fn as_str(self) -> (r: &'static str)
        ensures
            r@ == kind_name(self),
    {
        match self {
            PropertyStateKind::Purchased => "Purchased",
            PropertyStateKind::Interesting => "Interesting",
            PropertyStateKind::Purchasing => "Purchasing",
        }
    }

    /// Parses the exact name of a kind (case-sensitive).
    pub fn parse(s: &str) -> (r: Option<PropertyStateKind>)
        ensures
            r == kind_named(s@),
    {
        if same_text(s, "Purchased") {
            Some(PropertyStateKind::Purchased)
        } else if same_text(s, "Interesting") {
            Some(PropertyStateKind::Interesting)
        } else if same_text(s, "Purchasing") {
            Some(PropertyStateKind::Purchasing)
        } else {
            None
        }
    }
}

/// The title-case name of a construction status.
pub open spec fn construction_name(c: ConstructionStatus) -> Seq<char> {
    match c {
        ConstructionStatus::UnderConstruction => "Under Construction"@,
        ConstructionStatus::Completed => "Completed"@,
    }
}

/// The construction status whose name is exactly `s`, if any.
pub open spec fn construction_named(s: Seq<char>) -> Option<ConstructionStatus> {
    if s == "Under Construction"@ {
        Some(ConstructionStatus::UnderConstruction)
    } else if s == "Completed"@ {
        Some(ConstructionStatus::Completed)
    } else {
        None
    }
}

impl ConstructionStatus {
    /// The title-case name (`Under Construction`, `Completed`).
    pub fn as_str(self) -> (r: &'static str)
        ensures
            r@ == construction_name(self),
    {
        match self {
            ConstructionStatus::UnderConstruction => "Under Construction",
            ConstructionStatus::Completed => "Completed",
        }
    }

    /// Reads a status from exactly its name.
    pub fn parse(s: &str) -> (r: Option<ConstructionStatus>)
        ensures
            r == construction_named(s@),
    {
        if same_text(s, "Under Construction") {
            Some(ConstructionStatus::UnderConstruction)
        } else if same_text(s, "Completed") {
            Some(ConstructionStatus::Completed)
        } else {
            None
        }
    }
}

/// A developer we know; buildings reference it by `name`.
#[derive(Debug)]
pub struct Developer {
    pub name: String,
    pub note: String,
    /// The developer's own homepage.
    pub page: Option<String>,
}

/// A Google Place ID: a non-empty string with no surrounding whitespace.
#[derive(Debug)]
pub struct GooglePlace {
    id: String,
}

impl View for GooglePlace {
    type V = Seq<char>;

    closed spec fn view(&self) -> Seq<char> {
        self.id@
    }
}

impl GooglePlace {
    #[verifier::type_invariant]
    spec fn well_formed(self) -> bool {
        self.id@.len() > 0 && trimmed(self.id@) == self.id@
    }

    /// Accepts `raw` with surrounding whitespace removed; refuses it when
    /// nothing but whitespace is left.
    pub fn parse(raw: String) -> (r: Result<GooglePlace, DomainError>)
        ensures
            match r {
                Ok(p) => trimmed(raw@).len() > 0 && p@ == trimmed(raw@),
                Err(e) => trimmed(raw@).len() == 0
                    && is_validation(e, "google place id must not be empty"@),
            },
    {
        let t = trim(raw.as_str());
        if t.unicode_len() == 0 {
            return Err(DomainError::Validation("google place id must not be empty".to_owned()));
        }
        proof {
            crate::text::lemma_trimmed_idempotent(raw@);
        }
        Ok(GooglePlace { id: t.to_owned() })
    }

    /// The place text, which is never empty and carries no surrounding whitespace.
    pub fn as_str(&self) -> (r: &str)
        ensures
            r@ == self@,
            r@.len() > 0,
            trimmed(r@) == r@,
    {
        proof {
            use_type_invariant(self);
        }
        self.id.as_str()
    }
}

/// The link to the research behind a listing: a trimmed http(s) URL.
#[derive(Debug)]
pub struct ResearchUrl {
    url: String,
}

impl View for ResearchUrl {
    type V = Seq<char>;

    closed spec fn view(&self) -> Seq<char> {
        self.url@
    }
}

/// A research URL must use one of the two web schemes.
pub open spec fn is_web_url(s: Seq<char>) -> bool {
    has_prefix(s, "http://"@) || has_prefix(s, "https://"@)
}

impl ResearchUrl {
    #[verifier::type_invariant]
    spec fn well_formed(self) -> bool {
        self.url@.len() > 0 && trimmed(self.url@) == self.url@ && is_web_url(self.url@)
    }

    /// Accepts `raw`, trimmed, when it is a non-empty http(s) URL.
    pub fn parse(raw: String) -> (r: Result<ResearchUrl, DomainError>)
        ensures
            match r {
                Ok(u) => trimmed(raw@).len() > 0 && is_web_url(trimmed(raw@)) && u@ == trimmed(raw@),
                Err(e) => if trimmed(raw@).len() == 0 {
                    is_validation(e, "research url must not be empty"@)
                } else {
                    !is_web_url(trimmed(raw@)) && is_validation(e, "research url must be http(s)"@)
                },
            },
    {
        let t = trim(raw.as_str());
        if t.unicode_len() == 0 {
            return Err(DomainError::Validation("research url must not be empty".to_owned()));
        }
        if !(starts_with(t, "http://") || starts_with(t, "https://")) {
            return Err(DomainError::Validation("research url must be http(s)".to_owned()));
        }
        proof {
            crate::text::lemma_trimmed_idempotent(raw@);
        }
        Ok(ResearchUrl { url: t.to_owned() })
    }

    /// The URL text, which is never empty, is trimmed, and is http(s).
    pub fn as_str(&self) -> (r: &str)
        ensures
            r@ == self@,
            r@.len() > 0,
            trimmed(r@) == r@,
            is_web_url(r@),
    {
        proof {
            use_type_invariant(self);
        }
        self.url.as_str()
    }
}


/// A lot's market status fused with our relationship to it. `Available` and
/// `Sold` are not ours; the rest project onto a [`PropertyStateKind`].
#[derive(Clone, Copy, Debug, PartialEq, Eq, Structural)]
pub enum ApartmentStatus {
    Available,
    /// Sold to someone else.
    Sold,
    /// Ours, acquisition in progress.
    Purchasing,
    /// Ours, closed; carries the purchase instant in Unix seconds.
    Purchased(i64),
    /// Ours, watching an otherwise-available lot.
    Interesting,
}

/// The portfolio kind a lot's status projects onto, if the lot is ours.
pub open spec fn status_kind(s: ApartmentStatus) -> Option<PropertyStateKind> {
    match s {
        ApartmentStatus::Purchased(_) => Some(PropertyStateKind::Purchased),
        ApartmentStatus::Purchasing => Some(PropertyStateKind::Purchasing),
        ApartmentStatus::Interesting => Some(PropertyStateKind::Interesting),
        ApartmentStatus::Available | ApartmentStatus::Sold => None,
    }
}

impl ApartmentStatus {
    /// Our portfolio relationship to this lot, or `None` when it is not ours.
    pub fn portfolio_kind(self) -> (r: Option<PropertyStateKind>)
        ensures
            r == status_kind(self),
    {
        match self {
            ApartmentStatus::Purchased(_) => Some(PropertyStateKind::Purchased),
            ApartmentStatus::Purchasing => Some(PropertyStateKind::Purchasing),
            ApartmentStatus::Interesting => Some(PropertyStateKind::Interesting),
            ApartmentStatus::Available | ApartmentStatus::Sold => None,
        }
    }
}

/// One lot inside a building. `number` is 1-based and stable within a building.
#[derive(Clone, Copy, Debug, PartialEq, Eq, Structural)]
pub struct Apartment {
    pub number: u32,
    pub status: ApartmentStatus,
}

/// A building and the lots inside it.
#[derive(Debug)]
pub struct Building {
    pub id: BuildingId,
    pub name: String,
    pub place: GooglePlace,
    pub construction: ConstructionStatus,
    /// Developer name; must resolve to a known developer when set.
    pub developer: Option<String>,
    pub research_url: ResearchUrl,
    pub terms: Option<String>,
    pub additional_reasoning: Option<String>,
    pub apartments: Vec<Apartment>,
}

/// The distinct portfolio kinds present across `aps`, in order of first appearance.
pub open spec fn kinds_of(aps: Seq<Apartment>) -> Seq<PropertyStateKind>
    decreases aps.len(),
{
    if aps.len() == 0 {
        Seq::empty()
    } else {
        let prev = kinds_of(aps.drop_last());
        match status_kind(aps.last().status) {
            Some(k) => if prev.contains(k) {
                prev
            } else {
                prev.push(k)
            },
            None => prev,
        }
    }
}

/// A lot still on the market: `Available`, or `Interesting` (watched by us,
/// not taken).
pub open spec fn on_market(s: ApartmentStatus) -> bool {
    s matches ApartmentStatus::Available || s matches ApartmentStatus::Interesting
}

/// A lot that is ours: `Purchasing` or `Purchased`.
pub open spec fn is_ours(s: ApartmentStatus) -> bool {
    s matches ApartmentStatus::Purchasing || s matches ApartmentStatus::Purchased(_)
}

/// How many lots are still on the market.
pub open spec fn count_on_market(aps: Seq<Apartment>) -> nat
    decreases aps.len(),
{
    if aps.len() == 0 {
        0
    } else {
        count_on_market(aps.drop_last()) + if on_market(aps.last().status) { 1nat } else { 0nat }
    }
}

/// How many lots we hold or are buying.
pub open spec fn count_ours(aps: Seq<Apartment>) -> nat
    decreases aps.len(),
{
    if aps.len() == 0 {
        0
    } else {
        count_ours(aps.drop_last()) + if is_ours(aps.last().status) { 1nat } else { 0nat }
    }
}

/// A roster's lots on the market and its lots that are ours are disjoint
/// parts of it: neither count, nor their sum, exceeds the number of lots.
pub proof fn lemma_counts_bounded(aps: Seq<Apartment>)
    ensures
        count_on_market(aps) <= aps.len(),
        count_ours(aps) <= aps.len(),
        count_on_market(aps) + count_ours(aps) <= aps.len(),
    decreases aps.len(),
{
    if aps.len() > 0 {
        lemma_counts_bounded(aps.drop_last());
    }
}

proof fn lemma_kinds_step(aps: Seq<Apartment>, i: int)
    requires
        0 <= i < aps.len(),
    ensures
        kinds_of(aps.subrange(0, i + 1)) == match status_kind(aps[i].status) {
            Some(k) => if kinds_of(aps.subrange(0, i)).contains(k) {
                kinds_of(aps.subrange(0, i))
            } else {
                kinds_of(aps.subrange(0, i)).push(k)
            },
            None => kinds_of(aps.subrange(0, i)),
        },
{
    assert(aps.subrange(0, i + 1).drop_last() =~= aps.subrange(0, i));
}

proof fn lemma_counts_step(aps: Seq<Apartment>, i: int)
    requires
        0 <= i < aps.len(),
    ensures
        count_on_market(aps.subrange(0, i + 1)) == count_on_market(aps.subrange(0, i))
            + if on_market(aps[i].status) { 1nat } else { 0nat },
        count_ours(aps.subrange(0, i + 1)) == count_ours(aps.subrange(0, i))
            + if is_ours(aps[i].status) { 1nat } else { 0nat },
{
    assert(aps.subrange(0, i + 1).drop_last() =~= aps.subrange(0, i));
}

/// No kind occurs twice in the list of a building's kinds, and a kind is
/// listed exactly when some lot is ours in that kind.
pub proof fn lemma_kinds_of_exact(aps: Seq<Apartment>)
    ensures
        kinds_of(aps).no_duplicates(),
        forall|k: PropertyStateKind|
            kinds_of(aps).contains(k) <==> exists|i: int| 0 <= i < aps.len() && #[trigger] status_kind(aps[i].status) == Some(k),
    decreases aps.len(),
{
    if aps.len() > 0 {
        let rest = aps.drop_last();
        let last = aps.len() - 1;
        lemma_kinds_of_exact(rest);
        let prev = kinds_of(rest);
        assert forall|k: PropertyStateKind|
            kinds_of(aps).contains(k) <==> exists|i: int| 0 <= i < aps.len() && #[trigger] status_kind(aps[i].status) == Some(k)
        by {
            if prev.contains(k) {
                let i = choose|i: int| 0 <= i < rest.len() && #[trigger] status_kind(rest[i].status) == Some(k);
                assert(aps[i] == rest[i]);
                assert(exists|i: int| 0 <= i < aps.len() && #[trigger] status_kind(aps[i].status) == Some(k));
                match status_kind(aps[last].status) {
                    Some(k2) => {
                        if !prev.contains(k2) {
                            assert(prev.push(k2)[prev.index_of(k)] == k);
                        }
                    },
                    None => {},
                }
                assert(kinds_of(aps).contains(k));
            } else {
                if status_kind(aps[last].status) == Some(k) {
                    assert(kinds_of(aps) == prev.push(k));
                    assert(prev.push(k)[prev.len() as int] == k);
                    assert(kinds_of(aps).contains(k));
                } else {
                    match status_kind(aps[last].status) {
                        Some(k2) => {
                            if !prev.contains(k2) {
                                assert(kinds_of(aps) == prev.push(k2));
                                if kinds_of(aps).contains(k) {
                                    let j = kinds_of(aps).index_of(k);
                                    if j < prev.len() {
                                        assert(prev[j] == k);
                                    }
                                }
                            }
                        },
                        None => {},
                    }
                    assert(!kinds_of(aps).contains(k));
                    assert forall|i: int| 0 <= i < aps.len() implies #[trigger] status_kind(aps[i].status) != Some(k) by {
                        if i < last {
                            assert(rest[i] == aps[i]);
                        }
                    }
                }
            }
        }
        match status_kind(aps[last].status) {
            Some(k2) => {
                if !prev.contains(k2) {
                    assert(kinds_of(aps) == prev.push(k2));
                    assert forall|a: int, b: int| 0 <= a < b < prev.push(k2).len() implies prev.push(k2)[a] != prev.push(k2)[b] by {
                        if b == prev.len() {
                            assert(prev[a] == prev.push(k2)[a]);
                        }
                    }
                }
            },
            None => {},
        }
    }
}

fn contains_kind(v: &Vec<PropertyStateKind>, k: PropertyStateKind) -> (r: bool)
    ensures
        r == v@.contains(k),
{
    let mut i: usize = 0;
    while i < v.len()
        invariant
            i <= v@.len(),
            forall|j: int| 0 <= j < i ==> v@[j] != k,
        decreases v@.len() - i,
    {
        if v[i] == k {
            return true;
        }
        i = i + 1;
    }
    false
}

impl Building {
    /// The building's id.
    pub fn id(&self) -> (r: BuildingId)
        ensures
            r == self.id,
    {
        self.id
    }

    /// The distinct portfolio kinds present across our lots, in order of
    /// first appearance: what map pins and the state filter switch on.
    /// Empty when we own nothing here.
    pub fn state_kinds(&self) -> (r: Vec<PropertyStateKind>)
        ensures
            r@ == kinds_of(self.apartments@),
            r@.no_duplicates(),
            forall|k: PropertyStateKind|
                r@.contains(k) <==> exists|i: int|
                    0 <= i < self.apartments@.len() && #[trigger] status_kind(self.apartments@[i].status) == Some(k),
    {
        let mut kinds: Vec<PropertyStateKind> = Vec::new();
        let mut i: usize = 0;
        proof {
            assert(self.apartments@.subrange(0, 0) =~= Seq::<Apartment>::empty());
        }
        while i < self.apartments.len()
            invariant
                i <= self.apartments@.len(),
                kinds@ == kinds_of(self.apartments@.subrange(0, i as int)),
            decreases self.apartments@.len() - i,
        {
            proof {
                lemma_kinds_step(self.apartments@, i as int);
            }
            let k = self.apartments[i].status.portfolio_kind();
            match k {
                Some(k) => {
                    if !contains_kind(&kinds, k) {
                        kinds.push(k);
                    }
                },
                None => {},
            }
            i = i + 1;
        }
        proof {
            assert(self.apartments@.subrange(0, self.apartments@.len() as int) =~= self.apartments@);
            lemma_kinds_of_exact(self.apartments@);
        }
        kinds
    }

    /// How many lots the building has.
    pub fn lots_total(&self) -> (r: usize)
        ensures
            r == self.apartments@.len(),
    {
        self.apartments.len()
    }

    /// Lots still on the market: `Available` or `Interesting`.
    pub fn lots_available(&self) -> (r: usize)
        ensures
            r == count_on_market(self.apartments@),
            r <= self.apartments@.len(),
    {
        let mut n: usize = 0;
        let mut i: usize = 0;
        while i < self.apartments.len()
            invariant
                i <= self.apartments@.len(),
                n == count_on_market(self.apartments@.subrange(0, i as int)),
                n <= i,
            decreases self.apartments@.len() - i,
        {
            proof {
                lemma_counts_step(self.apartments@, i as int);
            }
            match self.apartments[i].status {
                ApartmentStatus::Available | ApartmentStatus::Interesting => {
                    n = n + 1;
                },
                _ => {},
            }
            i = i + 1;
        }
        proof {
            assert(self.apartments@.subrange(0, self.apartments@.len() as int) =~= self.apartments@);
        }
        n
    }

    /// Lots off the market: everything not `Available` and not `Interesting`.
    pub fn lots_sold(&self) -> (r: usize)
        ensures
            r == self.apartments@.len() - count_on_market(self.apartments@),
            r + self.lots_available_spec() == self.apartments@.len(),
    {
        let total = self.lots_total();
        let available = self.lots_available();
        total - available
    }

    /// How many lots are still on the market.
    pub open spec fn lots_available_spec(&self) -> nat {
        count_on_market(self.apartments@)
    }

    /// Lots that are ours: `Purchasing` or `Purchased`. Their share of
    /// `lots_total` is the building's "your share".
    pub fn lots_ours(&self) -> (r: usize)
        ensures
            r == count_ours(self.apartments@),
            r <= self.apartments@.len(),
    {
        let mut n: usize = 0;
        let mut i: usize = 0;
        while i < self.apartments.len()
            invariant
                i <= self.apartments@.len(),
                n == count_ours(self.apartments@.subrange(0, i as int)),
                n <= i,
            decreases self.apartments@.len() - i,
        {
            proof {
                lemma_counts_step(self.apartments@, i as int);
            }
            match self.apartments[i].status {
                ApartmentStatus::Purchasing | ApartmentStatus::Purchased(_) => {
                    n = n + 1;
                },
                _ => {},
            }
            i = i + 1;
        }
        proof {
            assert(self.apartments@.subrange(0, self.apartments@.len() as int) =~= self.apartments@);
        }
        n
    }
}

/// Filter over a building's portfolio relationship: a building holds for
/// `InState(k)` when any of its lots is ours in kind `k`.
pub struct InState(pub PropertyStateKind);

impl InState {
    /// Whether any lot of `candidate` is ours in this kind.
    pub fn holds(&self, candidate: &Building) -> (r: bool)
        ensures
            r == kinds_of(candidate.apartments@).contains(self.0),
            r == exists|i: int|
                0 <= i < candidate.apartments@.len() && #[trigger] status_kind(candidate.apartments@[i].status) == Some(self.0),
    {
        let kinds = candidate.state_kinds();
        contains_kind(&kinds, self.0)
    }
}

/// What `uuid::Uuid::parse_str` gives for `text`: the UUID's 128-bit value,
/// or the text of its error.
pub uninterp spec fn parsed_uuid(text: Seq<char>) -> Result<u128, Seq<char>>;

/// Parses a UUID in any of the forms `uuid::Uuid::parse_str` accepts.
#[verifier::external_body]
fn uuid_parse(raw: &str) -> (r: Result<u128, String>)
    ensures
        match r {
            Ok(v) => parsed_uuid(raw@) == Ok::<u128, Seq<char>>(v),
            Err(m) => parsed_uuid(raw@) == Err::<u128, Seq<char>>(m@),
        },
{
    match uuid::Uuid::parse_str(raw) {
        Ok(u) => Ok(u.as_u128()),
        Err(e) => Err(e.to_string()),
    }
}

/// Hex digit `i` of a 128-bit value, the most significant first.
pub open spec fn nibble(raw: u128, i: int) -> nat {
    ((raw >> ((124 - 4 * i) as u128)) & 15u128) as nat
}

/// The 32 lowercase hex digits of a 128-bit value, most significant first.
pub open spec fn uuid_hex(raw: u128) -> Seq<char> {
    Seq::new(32, |i: int| hex_digit(nibble(raw, i)))
}

/// The hyphenated lowercase form of a UUID: 8-4-4-4-12 hex digits.
pub open spec fn uuid_text(raw: u128) -> Seq<char> {
    let h = uuid_hex(raw);
    h.subrange(0, 8) + "-"@ + h.subrange(8, 12) + "-"@ + h.subrange(12, 16) + "-"@ + h.subrange(16, 20) + "-"@
        + h.subrange(20, 32)
}

/// Formats a UUID's value as `uuid::Uuid::from_u128(raw).to_string()` does:
/// the value's bytes, most significant first, as hyphenated lowercase hex.
#[verifier::external_body]
fn uuid_string(raw: u128) -> (r: String)
    ensures
        r@ == uuid_text(raw),
{
    uuid::Uuid::from_u128(raw).to_string()
}

impl BuildingId {
    /// The id's hyphenated lowercase UUID text.
    pub fn text(&self) -> (r: String)
        ensures
            r@ == uuid_text(self.raw),
    {
        uuid_string(self.raw)
    }
}

impl FileId {
    /// The id's hyphenated lowercase UUID text.
    pub fn text(&self) -> (r: String)
        ensures
            r@ == uuid_text(self.raw),
    {
        uuid_string(self.raw)
    }
}

/// Turns a parsed UUID into a building id; a parse error becomes a
/// validation error naming the cause.
pub fn building_id_from_parsed(parsed: Result<u128, String>) -> (r: Result<BuildingId, DomainError>)
    ensures
        match parsed {
            Ok(v) => r == Ok::<BuildingId, DomainError>(BuildingId { raw: v }),
            Err(m) => r matches Err(e) && is_validation(e, "invalid building id: "@ + m@),
        },
{
    match parsed {
        Ok(v) => Ok(BuildingId { raw: v }),
        Err(m) => Err(DomainError::Validation("invalid building id: ".to_owned().concat(m.as_str()))),
    }
}

/// Turns a parsed UUID into a file id; a parse error becomes a validation
/// error naming the cause.
pub fn file_id_from_parsed(parsed: Result<u128, String>) -> (r: Result<FileId, DomainError>)
    ensures
        match parsed {
            Ok(v) => r == Ok::<FileId, DomainError>(FileId { raw: v }),
            Err(m) => r matches Err(e) && is_validation(e, "invalid file id: "@ + m@),
        },
{
    match parsed {
        Ok(v) => Ok(FileId { raw: v }),
        Err(m) => Err(DomainError::Validation("invalid file id: ".to_owned().concat(m.as_str()))),
    }
}

/// Parses a building id from its UUID text.
pub fn parse_building_id(raw: &str) -> (r: Result<BuildingId, DomainError>)
    ensures
        match parsed_uuid(raw@) {
            Ok(v) => r == Ok::<BuildingId, DomainError>(BuildingId { raw: v }),
            Err(m) => r matches Err(e) && is_validation(e, "invalid building id: "@ + m),
        },
{
    building_id_from_parsed(uuid_parse(raw))
}

/// Parses a file id from its UUID text.
pub fn parse_file_id(raw: &str) -> (r: Result<FileId, DomainError>)
    ensures
        match parsed_uuid(raw@) {
            Ok(v) => r == Ok::<FileId, DomainError>(FileId { raw: v }),
            Err(m) => r matches Err(e) && is_validation(e, "invalid file id: "@ + m),
        },
{
    file_id_from_parsed(uuid_parse(raw))
}

/// What kind of document a stored file is.
#[derive(Clone, Copy, Debug, PartialEq, Eq, Structural)]
pub enum FileKind {
    Pic,
    PitchDeck,
    Document,
}

/// The snake-case name a file kind is stored under.
pub open spec fn file_kind_name(k: FileKind) -> Seq<char> {
    match k {
        FileKind::Pic => "pic"@,
        FileKind::PitchDeck => "pitch_deck"@,
        FileKind::Document => "document"@,
    }
}

/// The file kind whose stored name is exactly `s`, if any.
pub open spec fn file_kind_named(s: Seq<char>) -> Option<FileKind> {
    if s == "pic"@ {
        Some(FileKind::Pic)
    } else if s == "pitch_deck"@ {
        Some(FileKind::PitchDeck)
    } else if s == "document"@ {
        Some(FileKind::Document)
    } else {
        None
    }
}

impl FileKind {
    /// The snake-case name the kind is stored under.
    pub fn as_str(self) -> (r: &'static str)
        ensures
            r@ == file_kind_name(self),
    {
        match self {
            FileKind::Pic => "pic",
            FileKind::PitchDeck => "pitch_deck",
            FileKind::Document => "document",
        }
    }

    /// Reads a kind from exactly its stored name.
    pub fn parse(s: &str) -> (r: Option<FileKind>)
        ensures
            r == file_kind_named(s@),
    {
        if same_text(s, "pic") {
            Some(FileKind::Pic)
        } else if same_text(s, "pitch_deck") {
            Some(FileKind::PitchDeck)
        } else if same_text(s, "document") {
            Some(FileKind::Document)
        } else {
            None
        }
    }
}

/// A file attached to a building, or to one of its lots.
#[derive(Debug)]
pub struct PropertyFile {
    pub id: FileId,
    pub building_id: BuildingId,
    /// The owning lot, or `None` for a building-level file.
    pub apt: Option<u32>,
    pub kind: FileKind,
    pub filename: String,
    pub content_type: String,
}

/// A `property_files` row as the database returns it.
#[derive(Debug)]
pub struct FileRow {
    pub id: String,
    pub property_id: String,
    pub apt: Option<i64>,
    pub kind: String,
    pub filename: String,
    pub content_type: String,
}

/// The lot number a stored `apt` column denotes: its low 32 bits.
pub open spec fn stored_apt(apt: Option<i64>) -> Option<u32> {
    match apt {
        Some(n) => Some(n as u32),
        None => None,
    }
}

/// The text of the error a bad row yields, given the inner error's text.
pub open spec fn corrupt_text(inner: Seq<char>) -> Seq<char> {
    "corrupt property row: "@ + inner
}

impl PropertyFile {
    /// Re-validates a stored row. A bad id, a bad building id or an unknown
    /// kind (checked in that order) is reported as a corrupt row.
    pub fn try_from_row(row: FileRow) -> (r: Result<PropertyFile, DomainError>)
        ensures
            match (parsed_uuid(row.id@), parsed_uuid(row.property_id@), file_kind_named(row.kind@)) {
                (Ok(id), Ok(bid), Some(kind)) => r matches Ok(f) && f.id == FileId { raw: id }
                    && f.building_id == BuildingId { raw: bid } && f.apt == stored_apt(row.apt)
                    && f.kind == kind && f.filename@ == row.filename@ && f.content_type@ == row.content_type@,
                (Err(m), _, _) => r matches Err(e) && is_repository(
                    e,
                    corrupt_text("validation error: "@ + ("invalid file id: "@ + m)),
                ),
                (Ok(_), Err(m), _) => r matches Err(e) && is_repository(
                    e,
                    corrupt_text("validation error: "@ + ("invalid building id: "@ + m)),
                ),
                (Ok(_), Ok(_), None) => r matches Err(e) && is_repository(
                    e,
                    corrupt_text("repository error: "@ + "unknown file kind: Matching variant not found"@),
                ),
            },
    {
        let id = match parse_file_id(row.id.as_str()) {
            Ok(id) => id,
            Err(e) => {
                return Err(corrupt_row(e));
            },
        };
        let building_id = match parse_building_id(row.property_id.as_str()) {
            Ok(b) => b,
            Err(e) => {
                return Err(corrupt_row(e));
            },
        };
        let apt = match row.apt {
            Some(n) => Some(#[verifier::truncate] (n as u32)),
            None => None,
        };
        let kind = match FileKind::parse(row.kind.as_str()) {
            Some(k) => k,
            None => {
                return Err(
                    corrupt_row(
                        DomainError::Repository(
                            "unknown file kind: Matching variant not found".to_owned(),
                        ),
                    ),
                );
            },
        };
        Ok(PropertyFile { id, building_id, apt, kind, filename: row.filename, content_type: row.content_type })
    }
}

} // verus!
