//! Which buildings, lots and files a view shows: the state filter shared by
//! the map and the heatmap, the heatmap's owned/prospect split, lot
//! navigation, and the access checks in front of the file store.
use vstd::prelude::*;
use crate::domain::{
    Apartment, ApartmentStatus, Building, BuildingId, PropertyFile, PropertyStateKind, InState, kinds_of,
    status_kind,
};
use crate::roster::{GOLDEN, id_root, root_of};
use crate::text::same_text;

verus! {

/// A building is listed when any of its lots is ours in one of `states`.
pub open spec fn matches_states(b: Building, states: Seq<PropertyStateKind>) -> bool {
    exists|s: int| 0 <= s < states.len() && kinds_of(b.apartments@).contains(#[trigger] states[s])
}

/// The filter a listing applies when none is given: our purchased holdings.
pub open spec fn effective_filter(filter: Option<Seq<PropertyStateKind>>) -> Seq<PropertyStateKind> {
    match filter {
        Some(f) => f,
        None => seq![PropertyStateKind::Purchased],
    }
}

/// `bs` without the buildings that do not match `states`, order kept.
pub open spec fn keep_matching(bs: Seq<Building>, states: Seq<PropertyStateKind>) -> Seq<Building>
    decreases bs.len(),
{
    if bs.len() == 0 {
        bs
    } else {
        let rest = keep_matching(bs.drop_last(), states);
        if matches_states(bs.last(), states) {
            rest.push(bs.last())
        } else {
            rest
        }
    }
}

/// Whether `b` is in the filter `states`.
pub fn in_any_state(b: &Building, states: &Vec<PropertyStateKind>) -> (r: bool)
    ensures
        r == matches_states(*b, states@),
{
    let mut i: usize = 0;
    while i < states.len()
        invariant
            i <= states@.len(),
            forall|s: int| 0 <= s < i ==> !kinds_of(b.apartments@).contains(#[trigger] states@[s]),
        decreases states@.len() - i,
    {
        if InState(states[i]).holds(b) {
            return true;
        }
        i = i + 1;
    }
    false
}

/// The buildings a listing shows for `filter` (our purchased holdings when
/// no filter is given), in stored order.
pub fn list_buildings(buildings: Vec<Building>, filter: Option<Vec<PropertyStateKind>>) -> (r: Vec<Building>)
    ensures
        r@ == keep_matching(
            buildings@,
            effective_filter(
                match filter {
                    Some(f) => Some(f@),
                    None => None,
                },
            ),
        ),
{
    let states = match filter {
        Some(f) => f,
        None => {
            let mut v = Vec::new();
            v.push(PropertyStateKind::Purchased);
            v
        },
    };
    proof {
        assert(states@ == effective_filter(
            match filter {
                Some(f) => Some(f@),
                None => None,
            },
        ));
    }
    let ghost orig = buildings@;
    let n = buildings.len();
    let mut rest = buildings;
    // Walk from the back so each building moves out of the input exactly once.
    let mut pool: Vec<Building> = Vec::new();
    while rest.len() > 0
        invariant
            rest@.len() <= n,
            n == orig.len(),
            rest@ == orig.subrange(0, rest@.len() as int),
            pool@.len() == n - rest@.len(),
            forall|q: int| 0 <= q < pool@.len() ==> #[trigger] pool@[q] == orig[n - 1 - q],
        decreases rest@.len(),
    {
        let ghost k = rest@.len();
        let b = rest.pop().unwrap();
        proof {
            assert(rest@ =~= orig.subrange(0, k - 1));
        }
        pool.push(b);
    }
    let mut out: Vec<Building> = Vec::new();
    proof {
        assert(orig.subrange(0, 0) =~= Seq::<Building>::empty());
    }
    let mut j: usize = 0;
    while pool.len() > 0
        invariant
            j + pool@.len() == n,
            n == orig.len(),
            forall|q: int| 0 <= q < pool@.len() ==> #[trigger] pool@[q] == orig[n - 1 - q],
            out@ == keep_matching(orig.subrange(0, j as int), states@),
        decreases pool@.len(),
    {
        let b = pool.pop().unwrap();
        proof {
            assert(b == orig[j as int]);
            let pre = orig.subrange(0, j + 1);
            assert(pre.drop_last() =~= orig.subrange(0, j as int));
        }
        if in_any_state(&b, &states) {
            out.push(b);
        }
        j = j + 1;
    }
    proof {
        assert(orig.subrange(0, n as int) =~= orig);
    }
    out
}


/// `fs` without the files that do not belong to `appt`'s level, order kept.
pub open spec fn files_at(fs: Seq<PropertyFile>, appt: Option<u32>) -> Seq<PropertyFile>
    decreases fs.len(),
{
    if fs.len() == 0 {
        fs
    } else {
        let rest = files_at(fs.drop_last(), appt);
        if fs.last().apt == appt {
            rest.push(fs.last())
        } else {
            rest
        }
    }
}

/// The files shown at one level: a building's own files at building level
/// (`appt` = `None`), a lot's own files at lot level.
pub fn list_files(files: Vec<PropertyFile>, appt: Option<u32>) -> (r: Vec<PropertyFile>)
    ensures
        r@ == files_at(files@, appt),
{
    let ghost orig = files@;
    let n = files.len();
    let mut rest = files;
    let mut pool: Vec<PropertyFile> = Vec::new();
    while rest.len() > 0
        invariant
            rest@.len() <= n,
            n == orig.len(),
            rest@ == orig.subrange(0, rest@.len() as int),
            pool@.len() == n - rest@.len(),
            forall|q: int| 0 <= q < pool@.len() ==> #[trigger] pool@[q] == orig[n - 1 - q],
        decreases rest@.len(),
    {
        let ghost k = rest@.len();
        let f = rest.pop().unwrap();
        proof {
            assert(rest@ =~= orig.subrange(0, k - 1));
        }
        pool.push(f);
    }
    let mut out: Vec<PropertyFile> = Vec::new();
    proof {
        assert(orig.subrange(0, 0) =~= Seq::<PropertyFile>::empty());
    }
    let mut j: usize = 0;
    while pool.len() > 0
        invariant
            j + pool@.len() == n,
            n == orig.len(),
            forall|q: int| 0 <= q < pool@.len() ==> #[trigger] pool@[q] == orig[n - 1 - q],
            out@ == files_at(orig.subrange(0, j as int), appt),
        decreases pool@.len(),
    {
        let f = pool.pop().unwrap();
        proof {
            assert(f == orig[j as int]);
            let pre = orig.subrange(0, j + 1);
            assert(pre.drop_last() =~= orig.subrange(0, j as int));
        }
        if f.apt == appt {
            out.push(f);
        }
        j = j + 1;
    }
    proof {
        assert(orig.subrange(0, n as int) =~= orig);
    }
    out
}

/// A lot "made the selection": it is ours in one of the active kinds.
pub open spec fn lot_selected(a: Apartment, states: Seq<PropertyStateKind>) -> bool {
    match status_kind(a.status) {
        Some(k) => states.contains(k),
        None => false,
    }
}

fn contains_state(states: &Vec<PropertyStateKind>, k: PropertyStateKind) -> (r: bool)
    ensures
        r == states@.contains(k),
{
    let mut i: usize = 0;
    while i < states.len()
        invariant
            i <= states@.len(),
            forall|j: int| 0 <= j < i ==> states@[j] != k,
        decreases states@.len() - i,
    {
        if states[i] == k {
            return true;
        }
        i = i + 1;
    }
    false
}

/// Whether a lot made the selection: it is ours in one of `states`.
pub fn is_selected(a: &Apartment, states: &Vec<PropertyStateKind>) -> (r: bool)
    ensures
        r == lot_selected(*a, states@),
{
    match a.status.portfolio_kind() {
        Some(k) => contains_state(states, k),
        None => false,
    }
}

/// A building is a prospect when none of its selected lots is actually
/// owned (`Purchased`): a not-yet-ours holding, drawn provisional.
pub open spec fn prospect(b: Building, states: Seq<PropertyStateKind>) -> bool {
    !exists|i: int|
        0 <= i < b.apartments@.len() && lot_selected(#[trigger] b.apartments@[i], states)
            && b.apartments@[i].status matches ApartmentStatus::Purchased(_)
}

/// Whether a building is a prospect under the selection `states`.
pub fn is_prospect(b: &Building, states: &Vec<PropertyStateKind>) -> (r: bool)
    ensures
        r == prospect(*b, states@),
{
    let mut i: usize = 0;
    while i < b.apartments.len()
        invariant
            i <= b.apartments@.len(),
            forall|j: int|
                0 <= j < i ==> !(lot_selected(#[trigger] b.apartments@[j], states@)
                    && b.apartments@[j].status matches ApartmentStatus::Purchased(_)),
        decreases b.apartments@.len() - i,
    {
        let a = &b.apartments[i];
        if is_selected(a, states) {
            if let ApartmentStatus::Purchased(_) = a.status {
                return false;
            }
        }
        i = i + 1;
    }
    true
}

/// The indices of `bs` that are owned (`!prospect`), then those that are
/// prospects, each in input order. Owned buildings take the heatmap's left
/// slab and prospects the right one, never intermixed.
pub open spec fn split_indices(bs: Seq<Building>, states: Seq<PropertyStateKind>, want_prospect: bool) -> Seq<usize>
    decreases bs.len(),
{
    if bs.len() == 0 {
        Seq::empty()
    } else {
        let rest = split_indices(bs.drop_last(), states, want_prospect);
        if prospect(bs.last(), states) == want_prospect {
            rest.push((bs.len() - 1) as usize)
        } else {
            rest
        }
    }
}

/// The heatmap's split of `buildings` under `states`: the indices of owned
/// buildings, then of prospects, each in order. Owned buildings take the
/// left slab and prospects the right, never intermixed by size.
pub fn partition_prospects(buildings: &Vec<Building>, states: &Vec<PropertyStateKind>) -> (r: (
    Vec<usize>,
    Vec<usize>,
))
    ensures
        r.0@ == split_indices(buildings@, states@, false),
        r.1@ == split_indices(buildings@, states@, true),
{
    let mut owned: Vec<usize> = Vec::new();
    let mut prospects: Vec<usize> = Vec::new();
    let mut i: usize = 0;
    proof {
        assert(buildings@.subrange(0, 0) =~= Seq::<Building>::empty());
    }
    while i < buildings.len()
        invariant
            i <= buildings@.len(),
            owned@ == split_indices(buildings@.subrange(0, i as int), states@, false),
            prospects@ == split_indices(buildings@.subrange(0, i as int), states@, true),
        decreases buildings@.len() - i,
    {
        proof {
            let pre = buildings@.subrange(0, i + 1);
            assert(pre.drop_last() =~= buildings@.subrange(0, i as int));
        }
        if is_prospect(&buildings[i], states) {
            prospects.push(i);
        } else {
            owned.push(i);
        }
        i = i + 1;
    }
    proof {
        assert(buildings@.subrange(0, buildings@.len() as int) =~= buildings@);
    }
    (owned, prospects)
}

/// `b` has a lot we have actually purchased.
pub open spec fn has_purchased_lot(b: Building) -> bool {
    exists|i: int| 0 <= i < b.apartments@.len() && #[trigger] b.apartments@[i].status matches ApartmentStatus::Purchased(_)
}

/// A building is a prospect exactly when the selection does not show one of
/// its purchased lots: with `Purchased` among the active kinds, a building
/// holding a purchased lot is owned, whatever else it holds; every other
/// building is a prospect.
pub proof fn lemma_prospect_exact(b: Building, states: Seq<PropertyStateKind>)
    ensures
        prospect(b, states) <==> !(states.contains(PropertyStateKind::Purchased) && has_purchased_lot(b)),
{
    if states.contains(PropertyStateKind::Purchased) && has_purchased_lot(b) {
        let i = choose|i: int|
            0 <= i < b.apartments@.len() && #[trigger] b.apartments@[i].status matches ApartmentStatus::Purchased(_);
        assert(lot_selected(b.apartments@[i], states));
    }
    if !prospect(b, states) {
        let i = choose|i: int|
            0 <= i < b.apartments@.len() && lot_selected(#[trigger] b.apartments@[i], states)
                && b.apartments@[i].status matches ApartmentStatus::Purchased(_);
        assert(status_kind(b.apartments@[i].status) == Some(PropertyStateKind::Purchased));
        assert(has_purchased_lot(b));
    }
}

proof fn lemma_split_indices(bs: Seq<Building>, states: Seq<PropertyStateKind>, want: bool)
    requires
        bs.len() <= usize::MAX,
    ensures
        forall|k: usize|
            #[trigger] split_indices(bs, states, want).contains(k) <==> (k < bs.len() && prospect(bs[k as int], states)
                == want),
        forall|p: int, q: int|
            0 <= p < q < split_indices(bs, states, want).len() ==> #[trigger] split_indices(bs, states, want)[p]
                < #[trigger] split_indices(bs, states, want)[q],
        forall|p: int|
            0 <= p < split_indices(bs, states, want).len() ==> #[trigger] split_indices(bs, states, want)[p]
                < bs.len(),
    decreases bs.len(),
{
    if bs.len() > 0 {
        let init = bs.drop_last();
        lemma_split_indices(init, states, want);
        let r = split_indices(init, states, want);
        let last = (bs.len() - 1) as usize;
        assert forall|k: usize| #[trigger] split_indices(bs, states, want).contains(k) <==> (k < bs.len() && prospect(
            bs[k as int],
            states,
        ) == want) by {
            if k < init.len() {
                assert(bs[k as int] == init[k as int]);
            }
            if prospect(bs.last(), states) == want {
                let out = r.push(last);
                if out.contains(k) {
                    let j = choose|j: int| 0 <= j < out.len() && out[j] == k;
                    if j < r.len() {
                        assert(r[j] == k);
                        assert(r.contains(k));
                    }
                }
                if k < bs.len() && prospect(bs[k as int], states) == want {
                    if k < init.len() {
                        assert(r.contains(k));
                        let j = choose|j: int| 0 <= j < r.len() && r[j] == k;
                        assert(out[j] == k);
                    } else {
                        assert(out[r.len() as int] == k);
                    }
                }
            } else {
                if r.contains(k) {
                    let j = choose|j: int| 0 <= j < r.len() && r[j] == k;
                    assert(r[j] < init.len());
                }
            }
        }
    }
}

/// The heatmap's split puts every building on exactly one side, each side
/// in input order: a building is owned (left slab) exactly when `Purchased`
/// is selected and it holds a purchased lot, and a prospect (right slab)
/// otherwise.
pub proof fn lemma_partition_exact(bs: Seq<Building>, states: Seq<PropertyStateKind>)
    requires
        bs.len() <= usize::MAX,
    ensures
        forall|k: usize|
            #[trigger] split_indices(bs, states, false).contains(k) <==> (k < bs.len() && states.contains(
                PropertyStateKind::Purchased,
            ) && has_purchased_lot(bs[k as int])),
        forall|k: usize|
            #[trigger] split_indices(bs, states, true).contains(k) <==> (k < bs.len() && !(states.contains(
                PropertyStateKind::Purchased,
            ) && has_purchased_lot(bs[k as int]))),
        forall|p: int, q: int|
            0 <= p < q < split_indices(bs, states, false).len() ==> #[trigger] split_indices(bs, states, false)[p]
                < #[trigger] split_indices(bs, states, false)[q],
        forall|p: int, q: int|
            0 <= p < q < split_indices(bs, states, true).len() ==> #[trigger] split_indices(bs, states, true)[p]
                < #[trigger] split_indices(bs, states, true)[q],
{
    lemma_split_indices(bs, states, false);
    lemma_split_indices(bs, states, true);
    assert forall|k: usize| k < bs.len() implies prospect(#[trigger] bs[k as int], states) <==> !(states.contains(
        PropertyStateKind::Purchased,
    ) && has_purchased_lot(bs[k as int])) by {
        lemma_prospect_exact(bs[k as int], states);
    }
}

/// `b` has a lot that is ours in one of `states`.
pub open spec fn has_lot_in(b: Building, states: Seq<PropertyStateKind>) -> bool {
    exists|s: int, i: int|
        0 <= s < states.len() && 0 <= i < b.apartments@.len() && #[trigger] status_kind(b.apartments@[i].status)
            == Some(#[trigger] states[s])
}

proof fn lemma_matches_has_lot(b: Building, states: Seq<PropertyStateKind>)
    ensures
        matches_states(b, states) <==> has_lot_in(b, states),
{
    crate::domain::lemma_kinds_of_exact(b.apartments@);
    if matches_states(b, states) {
        let s = choose|s: int| 0 <= s < states.len() && kinds_of(b.apartments@).contains(#[trigger] states[s]);
        let i = choose|i: int|
            0 <= i < b.apartments@.len() && #[trigger] status_kind(b.apartments@[i].status) == Some(states[s]);
        assert(status_kind(b.apartments@[i].status) == Some(states[s]));
    }
    if has_lot_in(b, states) {
        let (s, i) = choose|s: int, i: int|
            0 <= s < states.len() && 0 <= i < b.apartments@.len() && #[trigger] status_kind(b.apartments@[i].status)
                == Some(#[trigger] states[s]);
        assert(kinds_of(b.apartments@).contains(states[s]));
    }
}

proof fn lemma_keep_matching_filter(
    bs: Seq<Building>,
    states: Seq<PropertyStateKind>,
    pred: spec_fn(Building) -> bool,
)
    requires
        forall|b: Building| #[trigger] pred(b) == has_lot_in(b, states),
    ensures
        keep_matching(bs, states) == bs.filter(pred),
    decreases bs.len(),
{
    reveal(Seq::filter);
    if bs.len() > 0 {
        lemma_keep_matching_filter(bs.drop_last(), states, pred);
        lemma_matches_has_lot(bs.last(), states);
        assert(pred(bs.last()) == has_lot_in(bs.last(), states));
    }
}

/// A listing shows exactly the buildings, in stored order, that have a lot
/// ours in one of the requested kinds, every requested kind counting; with
/// no filter given, exactly those with a lot we have purchased.
pub proof fn lemma_listing_applies_filter(bs: Seq<Building>, f: Seq<PropertyStateKind>)
    ensures
        keep_matching(bs, effective_filter(Some(f))) == bs.filter(|b: Building| has_lot_in(b, f)),
        keep_matching(bs, effective_filter(None)) == bs.filter(|b: Building| has_purchased_lot(b)),
{
    lemma_keep_matching_filter(bs, f, |b: Building| has_lot_in(b, f));
    let purchased = seq![PropertyStateKind::Purchased];
    assert forall|b: Building| has_lot_in(b, purchased) == has_purchased_lot(b) by {
        if has_lot_in(b, purchased) {
            let (s, i) = choose|s: int, i: int|
                0 <= s < purchased.len() && 0 <= i < b.apartments@.len() && #[trigger] status_kind(
                    b.apartments@[i].status,
                ) == Some(#[trigger] purchased[s]);
            assert(b.apartments@[i].status matches ApartmentStatus::Purchased(_));
        }
        if has_purchased_lot(b) {
            let i = choose|i: int|
                0 <= i < b.apartments@.len() && #[trigger] b.apartments@[i].status matches ApartmentStatus::Purchased(_);
            assert(status_kind(b.apartments@[i].status) == Some(purchased[0]));
        }
    }
    lemma_keep_matching_filter(bs, purchased, |b: Building| has_purchased_lot(b));
}

/// The stable per-lot seed behind the mocked price series and the heatmap's
/// colour: the building id's high 64 bits mixed with the lot number.
pub open spec fn lot_seed(id: BuildingId, number: u32) -> u64 {
    id_root(id) ^ (number as u64).wrapping_mul(GOLDEN)
}

/// The stable seed of lot `number` of building `id` (see [`lot_seed`]).
pub fn lot_seed_exec(id: BuildingId, number: u32) -> (r: u64)
    ensures
        r == lot_seed(id, number),
{
    root_of(id) ^ (number as u64).wrapping_mul(GOLDEN)
}

/// A lot's stable pseudo-change, in thousandths of the colour range: the
/// heatmap paints `permille / 1000 * 10 - 4` percent.
pub fn change_permille(id: BuildingId, number: u32) -> (r: u64)
    ensures
        r == lot_seed(id, number) % 1000,
        r < 1000,
{
    lot_seed_exec(id, number) % 1000
}

/// The lot numbers of `b`, in roster order.
pub open spec fn lot_numbers(b: Building) -> Seq<u32> {
    b.apartments@.map_values(|a: Apartment| a.number)
}

/// A deep-linked or stale lot number that names no lot drops to the
/// building view.
pub fn validate_appt(b: &Building, appt: Option<u32>) -> (r: Option<u32>)
    ensures
        r == (if appt is Some && lot_numbers(*b).contains(appt->0) {
            appt
        } else {
            None
        }),
{
    let n = match appt {
        Some(n) => n,
        None => {
            return None;
        },
    };
    let mut i: usize = 0;
    while i < b.apartments.len()
        invariant
            i <= b.apartments@.len(),
            appt == Some(n),
            forall|j: int| 0 <= j < i ==> (#[trigger] b.apartments@[j]).number != n,
        decreases b.apartments@.len() - i,
    {
        if b.apartments[i].number == n {
            proof {
                assert(lot_numbers(*b).len() == b.apartments@.len());
                assert(lot_numbers(*b)[i as int] == n);
                assert(lot_numbers(*b).contains(n));
            }
            return Some(n);
        }
        i = i + 1;
    }
    proof {
        assert(lot_numbers(*b).len() == b.apartments@.len());
        if lot_numbers(*b).contains(n) {
            let j = choose|j: int| 0 <= j < lot_numbers(*b).len() && lot_numbers(*b)[j] == n;
            assert(lot_numbers(*b)[j] == b.apartments@[j].number);
            assert(b.apartments@[j].number == n);
        }
    }
    None
}

} // verus!
