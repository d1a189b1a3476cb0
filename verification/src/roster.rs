//! The synthesised lot roster of a building. No real per-lot source exists
//! yet, so each building's lots are derived deterministically from its id:
//! a handful take our relationship, the rest split Sold/Available, and each
//! carries a stable price jitter.
use vstd::prelude::*;
use crate::domain::{
    Apartment, ApartmentStatus, BuildingId, PropertyState, PropertyStateKind, kinds_of, spec_state_kind,
    status_kind,
};

verus! {

/// The golden-ratio increment of the SplitMix64 sequence.
pub const GOLDEN: u64 = 0x9e3779b97f4a7c15;

/// The high 64 bits of an id: the seed every per-building stream starts from.
pub open spec fn id_root(id: BuildingId) -> u64 {
    (id.raw >> 64u128) as u64
}

/// The SplitMix64 finaliser applied to `root + i * GOLDEN` (all wrapping).
pub open spec fn mix(root: u64, i: u64) -> u64 {
    let z0 = root.wrapping_add(i.wrapping_mul(GOLDEN));
    let z1 = (z0 ^ (z0 >> 30u64)).wrapping_mul(0xbf58476d1ce4e5b9u64);
    let z2 = (z1 ^ (z1 >> 27u64)).wrapping_mul(0x94d049bb133111ebu64);
    z2 ^ (z2 >> 31u64)
}

/// The high 64 bits of a building's id.
pub fn root_of(id: BuildingId) -> (r: u64)
    ensures
        r == id_root(id),
{
    (id.raw >> 64u128) as u64
}

/// Element `i` of the SplitMix64 stream that starts at `root`.
pub fn mix_exec(root: u64, i: u64) -> (r: u64)
    ensures
        r == mix(root, i),
{
    let z0 = root.wrapping_add(i.wrapping_mul(GOLDEN));
    let z1 = (z0 ^ (z0 >> 30u64)).wrapping_mul(0xbf58476d1ce4e5b9u64);
    let z2 = (z1 ^ (z1 >> 27u64)).wrapping_mul(0x94d049bb133111ebu64);
    z2 ^ (z2 >> 31u64)
}

/// How many lots a building has: 20 to 40.
pub open spec fn roster_total(root: u64) -> u32 {
    (20 + mix(root, 0) % 21) as u32
}

/// How many of them are ours: 1 to 5.
pub open spec fn roster_ours(root: u64) -> u32 {
    (1 + mix(root, 1) % 5) as u32
}

/// A lot's status for our relationship `state`, on a lot that is ours.
pub open spec fn ours_status(state: PropertyState) -> ApartmentStatus {
    match state {
        PropertyState::Purchased(ts) => ApartmentStatus::Purchased(ts),
        PropertyState::Purchasing => ApartmentStatus::Purchasing,
        PropertyState::Interesting => ApartmentStatus::Interesting,
    }
}

/// The status of lot `n` (1-based).
pub open spec fn lot_status(root: u64, state: PropertyState, n: u32) -> ApartmentStatus {
    if n <= roster_ours(root) {
        ours_status(state)
    } else if mix(root, (n as u64 * 3) as u64) % 100 < 55 {
        ApartmentStatus::Sold
    } else {
        ApartmentStatus::Available
    }
}

/// The `i`-th lot (0-based) of a roster: lot number `i + 1`.
pub open spec fn roster_lot(root: u64, state: PropertyState, i: int) -> Apartment {
    Apartment { number: (i + 1) as u32, status: lot_status(root, state, (i + 1) as u32) }
}

/// The price jitter of lot `n`, in percent above 82% of the listing's
/// representative price (0 to 36, so the factor spans 0.82 to 1.18).
pub open spec fn lot_jitter(root: u64, n: u32) -> u64 {
    mix(root, (n as u64 * 7) as u64) % 37
}

/// The lot roster of building `id` when our relationship to the listing is
/// `state`: lots numbered 1..=total, the first `ours` of them ours.
pub fn mock_apartments(id: BuildingId, state: PropertyState) -> (r: Vec<Apartment>)
    ensures
        r@.len() == roster_total(id_root(id)),
        forall|i: int|
            0 <= i < r@.len() ==> #[trigger] r@[i] == roster_lot(id_root(id), state, i),
{
    let root = root_of(id);
    let total: u32 = 20 + (mix_exec(root, 0) % 21) as u32;
    let ours: u32 = 1 + (mix_exec(root, 1) % 5) as u32;
    let mine = match state {
        PropertyState::Purchased(ts) => ApartmentStatus::Purchased(ts),
        PropertyState::Purchasing => ApartmentStatus::Purchasing,
        PropertyState::Interesting => ApartmentStatus::Interesting,
    };
    let mut out: Vec<Apartment> = Vec::new();
    let mut n: u32 = 1;
    while n <= total
        invariant
            total == roster_total(root),
            ours == roster_ours(root),
            root == id_root(id),
            mine == ours_status(state),
            20 <= total <= 40,
            1 <= n <= total + 1,
            out@.len() == n - 1,
            forall|i: int|
                0 <= i < out@.len() ==> #[trigger] out@[i] == roster_lot(root, state, i),
        decreases total + 1 - n,
    {
        let status = if n <= ours {
            mine
        } else if mix_exec(root, n as u64 * 3) % 100 < 55 {
            ApartmentStatus::Sold
        } else {
            ApartmentStatus::Available
        };
        out.push(Apartment { number: n, status });
        n = n + 1;
    }
    out
}

/// The price jitter of lot `number` of building `id` (see [`lot_jitter`]).
pub fn price_jitter(id: BuildingId, number: u32) -> (r: u64)
    ensures
        r == lot_jitter(id_root(id), number),
        r <= 36,
{
    mix_exec(root_of(id), number as u64 * 7) % 37
}

/// A roster has 20 to 40 lots, of which 1 to 5 are ours.
pub proof fn lemma_roster_sizes(root: u64)
    ensures
        20 <= roster_total(root) <= 40,
        1 <= roster_ours(root) <= 5,
        roster_ours(root) < roster_total(root),
{
}

/// The lots we hold in a roster carry exactly the relationship the listing
/// was seeded with: a lot's portfolio kind is the state's kind.
pub proof fn lemma_ours_status_kind(state: PropertyState)
    ensures
        status_kind(ours_status(state)) == Some(spec_state_kind(state)),
{
}

/// A seeded building shows exactly one portfolio kind: the kind of the
/// relationship it was seeded with.
pub proof fn lemma_roster_kinds(root: u64, state: PropertyState, aps: Seq<Apartment>)
    requires
        aps.len() == roster_total(root),
        forall|i: int|
            0 <= i < aps.len() ==> #[trigger] aps[i] == roster_lot(root, state, i),
    ensures
        kinds_of(aps) == seq![spec_state_kind(state)],
{
    lemma_roster_sizes(root);
    lemma_roster_kinds_prefix(root, state, aps, aps.len() as int);
    assert(aps.subrange(0, aps.len() as int) =~= aps);
}

proof fn lemma_roster_kinds_prefix(root: u64, state: PropertyState, aps: Seq<Apartment>, k: int)
    requires
        aps.len() == roster_total(root),
        forall|i: int|
            0 <= i < aps.len() ==> #[trigger] aps[i] == roster_lot(root, state, i),
        1 <= k <= aps.len(),
        aps.len() <= 40,
    ensures
        kinds_of(aps.subrange(0, k)) == seq![spec_state_kind(state)],
    decreases k,
{
    let pre = aps.subrange(0, k);
    assert(pre.drop_last() =~= aps.subrange(0, k - 1));
    assert(pre.last() == aps[k - 1]);
    if k == 1 {
        assert(aps.subrange(0, 0) =~= Seq::<Apartment>::empty());
        assert(aps[0].status == ours_status(state));
        assert(kinds_of(aps.subrange(0, 0)) == Seq::<PropertyStateKind>::empty());
        assert(seq![spec_state_kind(state)] =~= Seq::<PropertyStateKind>::empty().push(spec_state_kind(state)));
    } else {
        lemma_roster_kinds_prefix(root, state, aps, k - 1);
        let st = aps[k - 1].status;
        match status_kind(st) {
            Some(kk) => {
                assert(st == ours_status(state));
                assert(kk == spec_state_kind(state));
                assert(seq![spec_state_kind(state)][0] == kk);
            },
            None => {},
        }
    }
}

} // verus!
