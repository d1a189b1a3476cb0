//! The order a snapshot's entries are hashed in: by name, and entries of one
//! name by their bytes. It is a total order on `(name, bytes)` pairs, so the
//! sorted listing, and with it the snapshot's identity, depends only on
//! which pairs a snapshot holds and how often, never on how they were listed.
use vstd::prelude::*;
use vstd::relations::{sorted_by, total_ordering};
use crate::sync::{entries_view, pair_view, snapshot_hash};
use crate::text::{lemma_text_lt_irreflexive, lemma_text_lt_total, lemma_text_lt_trans, same_text, text_less, text_lt};

verus! {

broadcast use vstd::seq_lib::group_to_multiset_ensures, vstd::multiset::group_multiset_axioms;

/// Lexicographic order on byte strings, the order Rust gives `[u8]`.
pub open spec fn bytes_lt(a: Seq<u8>, b: Seq<u8>) -> bool
    decreases a.len(),
{
    if a.len() == 0 {
        b.len() > 0
    } else if b.len() == 0 {
        false
    } else if a[0] != b[0] {
        a[0] < b[0]
    } else {
        bytes_lt(a.drop_first(), b.drop_first())
    }
}

/// The order on bytes is transitive.
pub proof fn lemma_bytes_lt_trans(a: Seq<u8>, b: Seq<u8>, c: Seq<u8>)
    requires
        bytes_lt(a, b),
        bytes_lt(b, c),
    ensures
        bytes_lt(a, c),
    decreases a.len(),
{
    if a.len() > 0 && b.len() > 0 && c.len() > 0 && a[0] == b[0] && b[0] == c[0] {
        lemma_bytes_lt_trans(a.drop_first(), b.drop_first(), c.drop_first());
    }
}

/// The order on bytes is irreflexive.
pub proof fn lemma_bytes_lt_irreflexive(a: Seq<u8>)
    ensures
        !bytes_lt(a, a),
    decreases a.len(),
{
    if a.len() > 0 {
        lemma_bytes_lt_irreflexive(a.drop_first());
    }
}

/// Any two distinct byte strings are ordered one way or the other.
pub proof fn lemma_bytes_lt_total(a: Seq<u8>, b: Seq<u8>)
    requires
        a != b,
    ensures
        bytes_lt(a, b) || bytes_lt(b, a),
    decreases a.len(),
{
    if a.len() > 0 && b.len() > 0 && a[0] == b[0] {
        if a.drop_first() == b.drop_first() {
            assert(a =~= seq![a[0]] + a.drop_first());
            assert(b =~= seq![b[0]] + b.drop_first());
        }
        lemma_bytes_lt_total(a.drop_first(), b.drop_first());
    } else if a.len() == 0 && b.len() == 0 {
        assert(a =~= b);
    }
}

/// `a` sorts strictly before `b`.
pub fn bytes_less(a: &[u8], b: &[u8]) -> (r: bool)
    ensures
        r == bytes_lt(a@, b@),
{
    let n = a.len();
    let m = b.len();
    let mut k: usize = 0;
    proof {
        assert(a@.skip(0) =~= a@);
        assert(b@.skip(0) =~= b@);
    }
    while k < n && k < m
        invariant
            n == a@.len(),
            m == b@.len(),
            k <= n,
            k <= m,
            bytes_lt(a@, b@) == bytes_lt(a@.skip(k as int), b@.skip(k as int)),
        decreases n - k,
    {
        let x = a[k];
        let y = b[k];
        if x != y {
            proof {
                assert(a@.skip(k as int)[0] == x);
                assert(b@.skip(k as int)[0] == y);
            }
            return x < y;
        }
        proof {
            assert(a@.skip(k as int).drop_first() =~= a@.skip(k + 1));
            assert(b@.skip(k as int).drop_first() =~= b@.skip(k + 1));
        }
        k = k + 1;
    }
    k < m
}

/// `a` sorts no later than `b`: by name, and for one name by bytes.
pub open spec fn entry_le(a: (Seq<char>, Seq<u8>), b: (Seq<char>, Seq<u8>)) -> bool {
    text_lt(a.0, b.0) || (a.0 == b.0 && !bytes_lt(b.1, a.1))
}

/// [`entry_le`] as a relation.
pub open spec fn entry_order() -> spec_fn((Seq<char>, Seq<u8>), (Seq<char>, Seq<u8>)) -> bool {
    |a: (Seq<char>, Seq<u8>), b: (Seq<char>, Seq<u8>)| entry_le(a, b)
}

/// A snapshot's entries in the order they are hashed.
pub open spec fn hash_order(es: Seq<(Seq<char>, Seq<u8>)>) -> Seq<(Seq<char>, Seq<u8>)> {
    es.sort_by(entry_order())
}

proof fn lemma_entry_le_facts(x: (Seq<char>, Seq<u8>), y: (Seq<char>, Seq<u8>), z: (Seq<char>, Seq<u8>))
    ensures
        entry_le(x, x),
        entry_le(x, y) && entry_le(y, x) ==> x == y,
        entry_le(x, y) && entry_le(y, z) ==> entry_le(x, z),
        entry_le(x, y) || entry_le(y, x),
{
    lemma_bytes_lt_irreflexive(x.1);
    lemma_text_lt_irreflexive(x.0);
    lemma_text_lt_irreflexive(y.0);
    if x.0 != y.0 {
        lemma_text_lt_total(x.0, y.0);
    } else if x.1 != y.1 {
        lemma_bytes_lt_total(x.1, y.1);
    }
    if bytes_lt(x.1, y.1) && bytes_lt(y.1, x.1) {
        lemma_bytes_lt_trans(x.1, y.1, x.1);
    }
    if text_lt(x.0, y.0) && text_lt(y.0, x.0) {
        lemma_text_lt_trans(x.0, y.0, x.0);
    }
    if entry_le(x, y) && entry_le(y, z) {
        if text_lt(x.0, y.0) && text_lt(y.0, z.0) {
            lemma_text_lt_trans(x.0, y.0, z.0);
        }
        if x.0 == y.0 && y.0 == z.0 {
            if bytes_lt(z.1, x.1) {
                if x.1 != y.1 {
                    lemma_bytes_lt_total(x.1, y.1);
                }
                if y.1 != z.1 {
                    lemma_bytes_lt_total(y.1, z.1);
                }
                if x.1 != y.1 && y.1 != z.1 {
                    lemma_bytes_lt_trans(x.1, y.1, z.1);
                    lemma_bytes_lt_trans(z.1, x.1, z.1);
                    lemma_bytes_lt_irreflexive(z.1);
                }
            }
        }
    }
}

/// Entries are totally ordered: by name, then by bytes.
pub proof fn lemma_entry_order_total()
    ensures
        total_ordering(entry_order()),
{
    let r = entry_order();
    assert forall|x: (Seq<char>, Seq<u8>)| #[trigger] r(x, x) by {
        lemma_entry_le_facts(x, x, x);
    }
    assert forall|x: (Seq<char>, Seq<u8>), y: (Seq<char>, Seq<u8>)| #[trigger] r(x, y) && #[trigger] r(y, x) implies x
        == y by {
        lemma_entry_le_facts(x, y, x);
    }
    assert forall|x: (Seq<char>, Seq<u8>), y: (Seq<char>, Seq<u8>), z: (Seq<char>, Seq<u8>)| #[trigger] r(
        x,
        y,
    ) && #[trigger] r(y, z) implies r(x, z) by {
        lemma_entry_le_facts(x, y, z);
    }
    assert forall|x: (Seq<char>, Seq<u8>), y: (Seq<char>, Seq<u8>)| #[trigger] r(x, y) || #[trigger] r(y, x) by {
        lemma_entry_le_facts(x, y, x);
    }
}

/// Putting `x` back where it was taken out restores the multiset.
pub proof fn lemma_insert_to_multiset<A>(s: Seq<A>, p: int, x: A)
    requires
        0 <= p <= s.len(),
    ensures
        s.insert(p, x).to_multiset() =~= s.to_multiset().insert(x),
{
    let t = s.insert(p, x);
    assert(t.remove(p) =~= s);
    vstd::seq_lib::to_multiset_remove(t, p);
    assert(t[p] == x);
    assert(t.contains(x));
    assert(t.to_multiset().count(x) > 0);
}

/// A listing is its first entry added to the rest.
pub proof fn lemma_first_to_multiset<A>(s: Seq<A>)
    requires
        s.len() > 0,
    ensures
        s.to_multiset() =~= s.drop_first().to_multiset().insert(s[0]),
{
    lemma_insert_to_multiset(s.drop_first(), 0, s[0]);
    assert(s.drop_first().insert(0, s[0]) =~= s);
}

/// Sorting for the hash keeps every entry, as often as it occurs, and puts
/// them in order.
pub proof fn lemma_hash_order_facts(es: Seq<(Seq<char>, Seq<u8>)>)
    ensures
        hash_order(es).to_multiset() == es.to_multiset(),
        hash_order(es).len() == es.len(),
        sorted_by(hash_order(es), entry_order()),
{
    lemma_entry_order_total();
    es.lemma_sort_by_ensures(entry_order());
    assert(hash_order(es).len() == hash_order(es).to_multiset().len());
}

/// A snapshot's identity does not depend on the order its entries are
/// listed in: any two listings of the same `(name, bytes)` entries, each
/// occurring as often in one as in the other, hash alike.
pub proof fn lemma_hash_order_independent(a: Seq<(Seq<char>, Seq<u8>)>, b: Seq<(Seq<char>, Seq<u8>)>)
    requires
        a.to_multiset() == b.to_multiset(),
    ensures
        hash_order(a) == hash_order(b),
        snapshot_hash(hash_order(a)) == snapshot_hash(hash_order(b)),
{
    lemma_entry_order_total();
    lemma_hash_order_facts(a);
    lemma_hash_order_facts(b);
    vstd::seq_lib::lemma_sorted_unique(hash_order(a), hash_order(b), entry_order());
}

/// Sorting for the hash a second time changes nothing.
pub proof fn lemma_hash_order_idempotent(es: Seq<(Seq<char>, Seq<u8>)>)
    ensures
        hash_order(hash_order(es)) == hash_order(es),
{
    lemma_hash_order_facts(es);
    lemma_hash_order_independent(hash_order(es), es);
}

fn entry_le_exec(a: &(String, Vec<u8>), b: &(String, Vec<u8>)) -> (r: bool)
    ensures
        r == entry_le(pair_view(*a), pair_view(*b)),
{
    text_less(a.0.as_str(), b.0.as_str()) || (same_text(a.0.as_str(), b.0.as_str()) && !bytes_less(
        b.1.as_slice(),
        a.1.as_slice(),
    ))
}

/// Orders entries by name, and entries of one name by their bytes, as a
/// snapshot is hashed.
pub fn sort_for_hash(entries: Vec<(String, Vec<u8>)>) -> (r: Vec<(String, Vec<u8>)>)
    ensures
        entries_view(r@) == hash_order(entries_view(entries@)),
{
    let ghost orig = entries_view(entries@);
    let ghost ord = entry_order();
    proof {
        lemma_entry_order_total();
    }
    let mut rest = entries;
    let mut out: Vec<(String, Vec<u8>)> = Vec::new();
    proof {
        assert(entries_view(out@) =~= Seq::<(Seq<char>, Seq<u8>)>::empty());
        assert(entries_view(out@).to_multiset() =~= vstd::multiset::Multiset::empty());
    }
    while rest.len() > 0
        invariant
            ord == entry_order(),
            total_ordering(ord),
            entries_view(out@).to_multiset().add(entries_view(rest@).to_multiset()) == orig.to_multiset(),
            sorted_by(entries_view(out@), ord),
        decreases rest@.len(),
    {
        let ghost before_rest = rest@;
        let e = rest.pop().unwrap();
        proof {
            assert(entries_view(before_rest) =~= entries_view(rest@).push(pair_view(e)));
        }
        let ghost ov = entries_view(out@);
        let ghost x = pair_view(e);
        let mut p: usize = 0;
        while p < out.len() && !entry_le_exec(&e, &out[p])
            invariant
                p <= out@.len(),
                ov == entries_view(out@),
                x == pair_view(e),
                ord == entry_order(),
                total_ordering(ord),
                forall|k: int| 0 <= k < p ==> #[trigger] ord(ov[k], x),
            decreases out@.len() - p,
        {
            proof {
                assert(ov[p as int] == pair_view(out@[p as int]));
                assert(ord(x, ov[p as int]) || ord(ov[p as int], x));
            }
            p = p + 1;
        }
        proof {
            if p < out@.len() {
                assert(ov[p as int] == pair_view(out@[p as int]));
                assert(ord(x, ov[p as int]));
            }
        }
        out.insert(p, e);
        proof {
            let nv = ov.insert(p as int, x);
            assert(entries_view(out@) =~= nv);
            lemma_insert_to_multiset(ov, p as int, x);
            assert forall|i: int, j: int| 0 <= i < j < nv.len() implies #[trigger] ord(nv[i], nv[j]) by {
                if j < p {
                    assert(nv[i] == ov[i] && nv[j] == ov[j]);
                } else if j == p {
                    assert(nv[i] == ov[i] && nv[j] == x);
                } else if i < p {
                    assert(nv[i] == ov[i] && nv[j] == ov[j - 1]);
                } else if i == p {
                    assert(nv[i] == x && nv[j] == ov[j - 1]);
                    if j - 1 > p {
                        assert(ord(ov[p as int], ov[j - 1]));
                    }
                } else {
                    assert(nv[i] == ov[i - 1] && nv[j] == ov[j - 1]);
                }
            }
            assert(entries_view(out@).to_multiset().add(entries_view(rest@).to_multiset()) =~= orig.to_multiset());
        }
    }
    proof {
        assert(entries_view(rest@) =~= Seq::<(Seq<char>, Seq<u8>)>::empty());
        assert(entries_view(out@).to_multiset() =~= orig.to_multiset());
        lemma_hash_order_facts(orig);
        vstd::seq_lib::lemma_sorted_unique(entries_view(out@), hash_order(orig), ord);
    }
    out
}

} // verus!
