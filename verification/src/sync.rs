//! Snapshot identity and the single-writer sync rules. A snapshot is the
//! sorted set of (archive name, bytes) entries; its identity is a SHA-256
//! over a length-delimited encoding of that set. Pushing refuses to overwrite
//! a remote that advanced past the last sync, pulling refuses to clobber
//! unpushed local changes, and the status verdict names the state.
use vstd::prelude::*;
use crate::error::{DomainError, is_conflict, is_repository};
use crate::text::{
    push_char, text_lt, text_less, decimal, decimal_string, same_text, has_prefix, starts_with, lemma_text_lt_total,
    lemma_text_lt_trans, lemma_text_lt_irreflexive,
};
use vstd::string::StringSliceAdditionalSpecFns;
use crate::entry_order::{hash_order, lemma_first_to_multiset, lemma_hash_order_facts, lemma_insert_to_multiset, sort_for_hash};

verus! {

/// Archive name of the database file.
pub const DB_ENTRY: &'static str = "app.db";
/// Archive name of the saved dashboard layout.
pub const LAYOUT_ENTRY: &'static str = "dashboard_layout.json";
/// Archive prefix of every property file.
pub const DATA_PREFIX: &'static str = "properties/";

/// The SHA-256 digest of `data`, as `sha2::Sha256` computes it.
pub uninterp spec fn sha256_digest(data: Seq<u8>) -> Seq<u8>;

/// SHA-256 of `data` (`sha2::Sha256::digest`): a 32-byte digest.
#[verifier::external_body]
fn sha256(data: &[u8]) -> (r: Vec<u8>)
    ensures
        r@ == sha256_digest(data@),
        r@.len() == 32,
{
    <sha2::Sha256 as sha2::Digest>::digest(data).to_vec()
}

/// The 8 little-endian bytes of `n`.
pub open spec fn le_bytes(n: u64) -> Seq<u8> {
    Seq::new(8, |k: int| ((n >> (8 * k) as u64) & 0xff) as u8)
}

/// The length-delimited encoding of a snapshot's entries, in order: for
/// each entry, the name's byte length, the name's UTF-8 bytes, the content's
/// byte length, the content.
pub open spec fn frame(entries: Seq<(Seq<char>, Seq<u8>)>) -> Seq<u8>
    decreases entries.len(),
{
    if entries.len() == 0 {
        Seq::empty()
    } else {
        let e = entries.last();
        frame(entries.drop_last()) + le_bytes(vstd::utf8::encode_utf8(e.0).len() as u64) + vstd::utf8::encode_utf8(e.0)
            + le_bytes(e.1.len() as u64) + e.1
    }
}

/// An entry as a name and its bytes.
pub open spec fn pair_view(e: (String, Vec<u8>)) -> (Seq<char>, Seq<u8>) {
    (e.0@, e.1@)
}

/// Entries as names and bytes.
pub open spec fn entries_view(es: Seq<(String, Vec<u8>)>) -> Seq<(Seq<char>, Seq<u8>)> {
    es.map_values(|e: (String, Vec<u8>)| pair_view(e))
}

/// The lowercase two-digit hex rendering of each byte, concatenated.
pub open spec fn hex_lower(bytes: Seq<u8>) -> Seq<char>
    decreases bytes.len(),
{
    if bytes.len() == 0 {
        Seq::empty()
    } else {
        hex_lower(bytes.drop_last()) + seq![
            hex_digit((bytes.last() / 16) as nat),
            hex_digit((bytes.last() % 16) as nat),
        ]
    }
}

/// The lowercase hex digit for `d` (0..=15).
pub open spec fn hex_digit(d: nat) -> char {
    if d < 10 {
        crate::text::digit_char(d)
    } else if d == 10 {
        'a'
    } else if d == 11 {
        'b'
    } else if d == 12 {
        'c'
    } else if d == 13 {
        'd'
    } else if d == 14 {
        'e'
    } else {
        'f'
    }
}

/// A lowercase hexadecimal digit.
pub open spec fn is_hex_lower(c: char) -> bool {
    ('0' <= c && c <= '9') || ('a' <= c && c <= 'f')
}

/// Two characters per byte, each a lowercase hex digit.
pub proof fn lemma_hex_lower_shape(bytes: Seq<u8>)
    ensures
        hex_lower(bytes).len() == 2 * bytes.len(),
        forall|i: int| 0 <= i < hex_lower(bytes).len() ==> is_hex_lower(#[trigger] hex_lower(bytes)[i]),
    decreases bytes.len(),
{
    if bytes.len() > 0 {
        lemma_hex_lower_shape(bytes.drop_last());
        let hi = (bytes.last() / 16) as nat;
        let lo = (bytes.last() % 16) as nat;
        assert(is_hex_lower(hex_digit(hi)));
        assert(is_hex_lower(hex_digit(lo)));
        let prev = hex_lower(bytes.drop_last());
        assert forall|i: int| 0 <= i < hex_lower(bytes).len() implies is_hex_lower(
            #[trigger] hex_lower(bytes)[i],
        ) by {
            if i < prev.len() {
                assert(hex_lower(bytes)[i] == prev[i]);
            }
        }
    }
}

/// The identity of a snapshot whose entries are `entries`, in this order.
pub open spec fn snapshot_hash(entries: Seq<(Seq<char>, Seq<u8>)>) -> Seq<char> {
    hex_lower(sha256_digest(frame(entries)))
}

fn push_le_bytes(out: &mut Vec<u8>, n: u64)
    ensures
        final(out)@ == old(out)@ + le_bytes(n),
{
    let ghost start = out@;
    let mut k: u64 = 0;
    while k < 8
        invariant
            k <= 8,
            out@.len() == start.len() + k,
            out@.subrange(0, start.len() as int) == start,
            forall|q: int| 0 <= q < k ==> out@[start.len() + q] == le_bytes(n)[q],
        decreases 8 - k,
    {
        let b = ((n >> (8 * k)) & 0xff) as u8;
        out.push(b);
        k = k + 1;
    }
    proof {
        assert(out@ =~= start + le_bytes(n));
    }
}

fn hex_char(d: u8) -> (c: char)
    requires
        d < 16,
    ensures
        c == hex_digit(d as nat),
{
    if d < 10 {
        if d == 0 { '0' } else if d == 1 { '1' } else if d == 2 { '2' } else if d == 3 { '3' }
        else if d == 4 { '4' } else if d == 5 { '5' } else if d == 6 { '6' } else if d == 7 { '7' }
        else if d == 8 { '8' } else { '9' }
    } else if d == 10 {
        'a'
    } else if d == 11 {
        'b'
    } else if d == 12 {
        'c'
    } else if d == 13 {
        'd'
    } else if d == 14 {
        'e'
    } else {
        'f'
    }
}

/// Lowercase hex of `bytes`, two digits per byte (`format!("{b:02x}")`).
pub fn to_hex(bytes: &[u8]) -> (r: String)
    ensures
        r@ == hex_lower(bytes@),
{
    let mut s = String::new();
    let mut i: usize = 0;
    proof {
        assert(bytes@.subrange(0, 0) =~= Seq::<u8>::empty());
    }
    while i < bytes.len()
        invariant
            i <= bytes@.len(),
            s@ == hex_lower(bytes@.subrange(0, i as int)),
        decreases bytes@.len() - i,
    {
        let b = bytes[i];
        push_char(&mut s, hex_char(b / 16));
        push_char(&mut s, hex_char(b % 16));
        proof {
            let pre = bytes@.subrange(0, i + 1);
            assert(pre.drop_last() =~= bytes@.subrange(0, i as int));
            assert(pre.last() == b);
        }
        i = i + 1;
    }
    proof {
        assert(bytes@.subrange(0, bytes@.len() as int) =~= bytes@);
    }
    s
}

/// The length-delimited encoding of `entries` (see [`frame`]).
pub fn encode_entries(entries: &[(String, Vec<u8>)]) -> (r: Vec<u8>)
    ensures
        r@ == frame(entries_view(entries@)),
{
    let mut out: Vec<u8> = Vec::new();
    let mut i: usize = 0;
    proof {
        assert(entries@.subrange(0, 0) =~= Seq::<(String, Vec<u8>)>::empty());
    }
    while i < entries.len()
        invariant
            i <= entries@.len(),
            out@ == frame(entries_view(entries@.subrange(0, i as int))),
        decreases entries@.len() - i,
    {
        let name = entries[i].0.as_str();
        let bytes = &entries[i].1;
        let name_bytes = name.as_bytes();
        push_le_bytes(&mut out, name_bytes.len() as u64);
        let mut j: usize = 0;
        let ghost mid = out@;
        while j < name_bytes.len()
            invariant
                j <= name_bytes@.len(),
                out@ == mid + name_bytes@.subrange(0, j as int),
            decreases name_bytes@.len() - j,
        {
            out.push(name_bytes[j]);
            proof {
                assert(name_bytes@.subrange(0, j + 1) =~= name_bytes@.subrange(0, j as int).push(name_bytes@[j as int]));
            }
            j = j + 1;
        }
        proof {
            assert(name_bytes@.subrange(0, name_bytes@.len() as int) =~= name_bytes@);
        }
        push_le_bytes(&mut out, bytes.len() as u64);
        let ghost mid2 = out@;
        let mut j: usize = 0;
        while j < bytes.len()
            invariant
                j <= bytes@.len(),
                out@ == mid2 + bytes@.subrange(0, j as int),
            decreases bytes@.len() - j,
        {
            out.push(bytes[j]);
            proof {
                assert(bytes@.subrange(0, j + 1) =~= bytes@.subrange(0, j as int).push(bytes@[j as int]));
            }
            j = j + 1;
        }
        proof {
            assert(bytes@.subrange(0, bytes@.len() as int) =~= bytes@);
            let pre = entries@.subrange(0, i + 1);
            assert(pre.drop_last() =~= entries@.subrange(0, i as int));
            assert(pre.last() == entries@[i as int]);
            assert(entries_view(pre).drop_last() =~= entries_view(entries@.subrange(0, i as int)));
        }
        i = i + 1;
    }
    proof {
        assert(entries@.subrange(0, entries@.len() as int) =~= entries@);
    }
    out
}

/// A copy of the entries, equal to them.
fn copy_entries(entries: &[(String, Vec<u8>)]) -> (r: Vec<(String, Vec<u8>)>)
    ensures
        entries_view(r@) == entries_view(entries@),
{
    let mut out: Vec<(String, Vec<u8>)> = Vec::new();
    let mut i: usize = 0;
    while i < entries.len()
        invariant
            i <= entries@.len(),
            entries_view(out@) == entries_view(entries@.subrange(0, i as int)),
        decreases entries@.len() - i,
    {
        let name = entries[i].0.clone();
        let bytes = entries[i].1.clone();
        proof {
            assert(bytes@ =~= entries@[i as int].1@);
        }
        let ghost before = out@;
        out.push((name, bytes));
        proof {
            assert(entries_view(out@) =~= entries_view(before).push(pair_view(entries@[i as int])));
            assert(entries_view(entries@.subrange(0, i + 1)) =~= entries_view(entries@.subrange(0, i as int)).push(
                pair_view(entries@[i as int]),
            ));
        }
        i = i + 1;
    }
    proof {
        assert(entries@.subrange(0, entries@.len() as int) =~= entries@);
    }
    out
}

/// A snapshot's identity: the hex SHA-256 of its entries, sorted by name
/// (entries of one name by their bytes) and length-delimited. The order the
/// entries come in does not matter (see
/// [`crate::entry_order::lemma_hash_order_independent`]).
pub fn hash(entries: &[(String, Vec<u8>)]) -> (r: String)
    ensures
        r@ == snapshot_hash(hash_order(entries_view(entries@))),
        r@.len() == 64,
        forall|i: int| 0 <= i < r@.len() ==> is_hex_lower(#[trigger] r@[i]),
{
    let copy = copy_entries(entries);
    let sorted = sort_for_hash(copy);
    let encoded = encode_entries(sorted.as_slice());
    let digest = sha256(encoded.as_slice());
    proof {
        lemma_hex_lower_shape(digest@);
    }
    to_hex(digest.as_slice())
}

/// The identity of the empty snapshot.
pub fn empty_hash() -> (r: String)
    ensures
        r@ == snapshot_hash(Seq::empty()),
        r@.len() == 64,
        forall|i: int| 0 <= i < r@.len() ==> is_hex_lower(#[trigger] r@[i]),
{
    let none: Vec<(String, Vec<u8>)> = Vec::new();
    proof {
        assert(entries_view(none@) =~= Seq::<(Seq<char>, Seq<u8>)>::empty());
        lemma_hash_order_facts(Seq::<(Seq<char>, Seq<u8>)>::empty());
        assert(hash_order(Seq::<(Seq<char>, Seq<u8>)>::empty()) =~= Seq::<(Seq<char>, Seq<u8>)>::empty());
    }
    hash(none.as_slice())
}

/// The first eight bytes of a hash, for display (the whole of a shorter one).
pub fn short(hash: &str) -> (r: &str)
    requires
        vstd::utf8::is_char_boundary(
            hash.spec_bytes(),
            if hash.spec_bytes().len() < 8 { hash.spec_bytes().len() as int } else { 8 },
        ),
    ensures
        r.spec_bytes() == hash.spec_bytes().subrange(
            0,
            if hash.spec_bytes().len() < 8 { hash.spec_bytes().len() as int } else { 8 },
        ),
        r@ == short_text(hash@),
{
    let n = hash.as_bytes().len();
    let cut = if n < 8 { n } else { 8 };
    let r = hash.split_at(cut).0;
    proof {
        vstd::utf8::encode_utf8_decode_utf8(r@);
    }
    r
}

/// The characters of the first eight UTF-8 bytes of `h` (all of a shorter one).
pub open spec fn short_text(h: Seq<char>) -> Seq<char> {
    let b = vstd::utf8::encode_utf8(h);
    vstd::utf8::decode_utf8(b.subrange(0, if b.len() < 8 { b.len() as int } else { 8 }))
}

/// Where `name` goes in `sorted`: before the first entry whose name does
/// not sort below it.
pub open spec fn insert_pos(sorted: Seq<(String, Vec<u8>)>, name: Seq<char>) -> nat
    decreases sorted.len(),
{
    if sorted.len() == 0 {
        0
    } else if !text_lt(sorted[0].0@, name) {
        0
    } else {
        1 + insert_pos(sorted.drop_first(), name)
    }
}

/// `entries` in stable ascending order of their names.
pub open spec fn sort_by_name(entries: Seq<(String, Vec<u8>)>) -> Seq<(String, Vec<u8>)>
    decreases entries.len(),
{
    if entries.len() == 0 {
        entries
    } else {
        let rest = sort_by_name(entries.drop_first());
        rest.insert(insert_pos(rest, entries[0].0@) as int, entries[0])
    }
}

/// An insertion point lies within the list.
pub proof fn lemma_insert_pos_bounded(sorted: Seq<(String, Vec<u8>)>, name: Seq<char>)
    ensures
        insert_pos(sorted, name) <= sorted.len(),
    decreases sorted.len(),
{
    if sorted.len() > 0 && text_lt(sorted[0].0@, name) {
        lemma_insert_pos_bounded(sorted.drop_first(), name);
    }
}

/// Sorting keeps every entry: the sorted list is as long as the input.
pub proof fn lemma_sort_len(entries: Seq<(String, Vec<u8>)>)
    ensures
        sort_by_name(entries).len() == entries.len(),
    decreases entries.len(),
{
    if entries.len() > 0 {
        lemma_sort_len(entries.drop_first());
        lemma_insert_pos_bounded(sort_by_name(entries.drop_first()), entries[0].0@);
    }
}

fn find_insert_pos(sorted: &Vec<(String, Vec<u8>)>, name: &str) -> (r: usize)
    ensures
        r == insert_pos(sorted@, name@),
{
    let mut i: usize = 0;
    proof {
        assert(sorted@.skip(0) =~= sorted@);
    }
    while i < sorted.len() && text_less(sorted[i].0.as_str(), name)
        invariant
            i <= sorted@.len(),
            insert_pos(sorted@, name@) == i + insert_pos(sorted@.skip(i as int), name@),
        decreases sorted@.len() - i,
    {
        proof {
            assert(sorted@.skip(i as int).drop_first() =~= sorted@.skip(i + 1));
        }
        i = i + 1;
    }
    i
}

/// Orders entries by name, stably, as a snapshot is hashed and archived.
pub fn sort_entries(entries: Vec<(String, Vec<u8>)>) -> (r: Vec<(String, Vec<u8>)>)
    ensures
        r@ == sort_by_name(entries@),
{
    let ghost orig = entries@;
    let n = entries.len();
    let mut rest = entries;
    let mut out: Vec<(String, Vec<u8>)> = Vec::new();
    proof {
        assert(orig.subrange(n as int, n as int) =~= Seq::<(String, Vec<u8>)>::empty());
        assert(orig.subrange(0, n as int) =~= orig);
    }
    while rest.len() > 0
        invariant
            rest@.len() <= n,
            n == orig.len(),
            rest@ == orig.subrange(0, rest@.len() as int),
            out@ == sort_by_name(orig.subrange(rest@.len() as int, n as int)),
        decreases rest@.len(),
    {
        let ghost k = rest@.len();
        let e = rest.pop().unwrap();
        proof {
            assert(rest@ =~= orig.subrange(0, k - 1));
            let tail = orig.subrange(k - 1, n as int);
            assert(tail.drop_first() =~= orig.subrange(k as int, n as int));
            assert(tail[0] == e);
            lemma_insert_pos_bounded(out@, e.0@);
        }
        let p = find_insert_pos(&out, e.0.as_str());
        out.insert(p, e);
    }
    proof {
        assert(orig.subrange(0, n as int) =~= orig);
    }
    out
}


/// Where `name` goes among entries: before the first whose name does not
/// sort below it.
pub open spec fn insert_pos_named(sorted: Seq<(Seq<char>, Seq<u8>)>, name: Seq<char>) -> nat
    decreases sorted.len(),
{
    if sorted.len() == 0 {
        0
    } else if !text_lt(sorted[0].0, name) {
        0
    } else {
        1 + insert_pos_named(sorted.drop_first(), name)
    }
}

/// Entries in stable ascending order of their names.
pub open spec fn sort_named(es: Seq<(Seq<char>, Seq<u8>)>) -> Seq<(Seq<char>, Seq<u8>)>
    decreases es.len(),
{
    if es.len() == 0 {
        es
    } else {
        let rest = sort_named(es.drop_first());
        rest.insert(insert_pos_named(rest, es[0].0) as int, es[0])
    }
}

proof fn lemma_insert_pos_view(sorted: Seq<(String, Vec<u8>)>, name: Seq<char>)
    ensures
        insert_pos(sorted, name) == insert_pos_named(entries_view(sorted), name),
    decreases sorted.len(),
{
    if sorted.len() > 0 {
        assert(entries_view(sorted.drop_first()) =~= entries_view(sorted).drop_first());
        lemma_insert_pos_view(sorted.drop_first(), name);
    }
}

/// Sorting entries and then reading their names and bytes is reading them
/// and then sorting.
pub proof fn lemma_sort_view(es: Seq<(String, Vec<u8>)>)
    ensures
        entries_view(sort_by_name(es)) == sort_named(entries_view(es)),
    decreases es.len(),
{
    if es.len() > 0 {
        let rest = sort_by_name(es.drop_first());
        assert(entries_view(es.drop_first()) =~= entries_view(es).drop_first());
        lemma_sort_view(es.drop_first());
        lemma_insert_pos_view(rest, es[0].0@);
        lemma_insert_pos_bounded(rest, es[0].0@);
        let p = insert_pos(rest, es[0].0@) as int;
        assert(entries_view(rest.insert(p, es[0])) =~= entries_view(rest).insert(p, pair_view(es[0])));
    }
}

/// Names never decrease along `s`.
pub open spec fn names_sorted(s: Seq<(Seq<char>, Seq<u8>)>) -> bool {
    forall|i: int, j: int| 0 <= i < j < s.len() ==> !text_lt(#[trigger] s[j].0, #[trigger] s[i].0)
}

proof fn lemma_le_trans(a: Seq<char>, b: Seq<char>, c: Seq<char>)
    requires
        !text_lt(b, a),
        !text_lt(c, b),
    ensures
        !text_lt(c, a),
{
    if text_lt(c, a) {
        if a == b {
        } else {
            lemma_text_lt_total(a, b);
            lemma_text_lt_trans(c, a, b);
        }
    }
}

proof fn lemma_insert_pos_named(rest: Seq<(Seq<char>, Seq<u8>)>, name: Seq<char>)
    ensures
        insert_pos_named(rest, name) <= rest.len(),
        forall|i: int| 0 <= i < insert_pos_named(rest, name) ==> text_lt(#[trigger] rest[i].0, name),
        insert_pos_named(rest, name) < rest.len() ==> !text_lt(rest[insert_pos_named(rest, name) as int].0, name),
    decreases rest.len(),
{
    if rest.len() > 0 && text_lt(rest[0].0, name) {
        lemma_insert_pos_named(rest.drop_first(), name);
        assert forall|i: int| 0 <= i < insert_pos_named(rest, name) implies text_lt(#[trigger] rest[i].0, name) by {
            if i > 0 {
                assert(rest[i] == rest.drop_first()[i - 1]);
            }
        }
    }
}

/// Ordering by name keeps every entry, as often as it occurs, and leaves
/// the names in ascending order.
pub proof fn lemma_sort_named_facts(es: Seq<(Seq<char>, Seq<u8>)>)
    ensures
        sort_named(es).len() == es.len(),
        sort_named(es).to_multiset() == es.to_multiset(),
        names_sorted(sort_named(es)),
    decreases es.len(),
{
    if es.len() > 0 {
        let e = es[0];
        let tail = es.drop_first();
        let rest = sort_named(tail);
        lemma_sort_named_facts(tail);
        lemma_insert_pos_named(rest, e.0);
        let p = insert_pos_named(rest, e.0) as int;
        let out = rest.insert(p, e);
        assert(out == sort_named(es));
        lemma_insert_to_multiset(rest, p, e);
        lemma_first_to_multiset(es);
        assert forall|i: int, j: int| 0 <= i < j < out.len() implies !text_lt(#[trigger] out[j].0, #[trigger] out[i].0) by {
            if j < p {
                assert(out[i] == rest[i] && out[j] == rest[j]);
            } else if j == p {
                assert(out[i] == rest[i]);
                assert(text_lt(rest[i].0, e.0));
                if text_lt(e.0, rest[i].0) {
                    lemma_text_lt_trans(e.0, rest[i].0, e.0);
                    lemma_text_lt_irreflexive(e.0);
                }
            } else if i < p {
                assert(out[i] == rest[i] && out[j] == rest[j - 1]);
                assert(text_lt(rest[i].0, e.0));
                assert(!text_lt(rest[p].0, e.0));
                if p < j - 1 {
                    assert(!text_lt(rest[j - 1].0, rest[p].0));
                    lemma_le_trans(e.0, rest[p].0, rest[j - 1].0);
                }
                if text_lt(rest[j - 1].0, rest[i].0) {
                    lemma_text_lt_trans(rest[j - 1].0, rest[i].0, e.0);
                }
            } else if i == p {
                assert(out[j] == rest[j - 1]);
                assert(!text_lt(rest[p].0, e.0));
                if p < j - 1 {
                    assert(!text_lt(rest[j - 1].0, rest[p].0));
                    lemma_le_trans(e.0, rest[p].0, rest[j - 1].0);
                }
            } else {
                assert(out[i] == rest[i - 1] && out[j] == rest[j - 1]);
            }
        }
    }
}

/// The pointer a remote keeps to its latest snapshot.
#[derive(Debug)]
pub struct Manifest {
    pub version: u64,
    pub state_hash: String,
    pub created_at: i64,
    pub created_by: String,
}

/// What this machine last synced: a version and that snapshot's identity.
#[derive(Debug)]
pub struct Marker {
    pub version: u64,
    pub state_hash: String,
}

impl View for Manifest {
    type V = (u64, Seq<char>);

    open spec fn view(&self) -> (u64, Seq<char>) {
        (self.version, self.state_hash@)
    }
}

impl View for Marker {
    type V = (u64, Seq<char>);

    open spec fn view(&self) -> (u64, Seq<char>) {
        (self.version, self.state_hash@)
    }
}

/// The (version, identity) a remote or a marker records, if any.
pub open spec fn manifest_model(m: Option<&Manifest>) -> Option<(u64, Seq<char>)> {
    match m {
        Some(m) => Some(m@),
        None => None,
    }
}

/// The (version, identity) a marker records, if any.
pub open spec fn marker_model(m: Option<&Marker>) -> Option<(u64, Seq<char>)> {
    match m {
        Some(m) => Some(m@),
        None => None,
    }
}

/// Local data changed since the last sync here, or has data but was never synced.
pub open spec fn spec_dirty(marker: Option<(u64, Seq<char>)>, current: Seq<char>) -> bool {
    match marker {
        Some(m) => m.1 != current,
        None => current != snapshot_hash(Seq::empty()),
    }
}

/// The version last synced here, 0 when never.
pub open spec fn base_version(marker: Option<(u64, Seq<char>)>) -> u64 {
    match marker {
        Some(m) => m.0,
        None => 0,
    }
}

/// Whether local data changed since the last sync here (or has data but
/// was never synced).
pub fn is_dirty(marker: Option<&Marker>, current_hash: &str) -> (r: bool)
    ensures
        r == spec_dirty(marker_model(marker), current_hash@),
{
    match marker {
        Some(m) => !same_text(m.state_hash.as_str(), current_hash),
        None => {
            let e = empty_hash();
            !same_text(current_hash, e.as_str())
        },
    }
}

/// The state a `db status` names.
#[derive(Clone, Copy, Debug, PartialEq, Eq, Structural)]
pub enum Verdict {
    Empty,
    LocalOnly,
    InSync,
    LocalAhead,
    RemoteAhead,
    Diverged,
}

/// The state `db status` names: with no remote, empty or local-only; else by
/// whether local changed since the last sync and whether the remote moved
/// past it.
pub open spec fn spec_verdict(
    current: Seq<char>,
    local: Option<(u64, Seq<char>)>,
    remote: Option<(u64, Seq<char>)>,
) -> Verdict {
    match remote {
        None => if current == snapshot_hash(Seq::empty()) {
            Verdict::Empty
        } else {
            Verdict::LocalOnly
        },
        Some(r) => {
            let dirty = spec_dirty(local, current);
            let remote_ahead = r.0 > base_version(local);
            if !dirty && !remote_ahead {
                Verdict::InSync
            } else if dirty && !remote_ahead {
                Verdict::LocalAhead
            } else if !dirty && remote_ahead {
                Verdict::RemoteAhead
            } else {
                Verdict::Diverged
            }
        },
    }
}

/// What `db status` prints for a verdict.
pub open spec fn verdict_text(v: Verdict) -> Seq<char> {
    match v {
        Verdict::Empty => "empty — nothing to sync"@,
        Verdict::LocalOnly => "local only — `db push` to publish"@,
        Verdict::InSync => "in sync"@,
        Verdict::LocalAhead => "local ahead — `db push`"@,
        Verdict::RemoteAhead => "remote ahead — `db pull`"@,
        Verdict::Diverged => "DIVERGED — local and remote both changed; reconcile manually (--force picks a side)"@,
    }
}

impl Verdict {
/// What `db status` prints for this verdict.
    pub fn text(self) -> (r: &'static str)
        ensures
            r@ == verdict_text(self),
    {
        match self {
            Verdict::Empty => "empty — nothing to sync",
            Verdict::LocalOnly => "local only — `db push` to publish",
            Verdict::InSync => "in sync",
            Verdict::LocalAhead => "local ahead — `db push`",
            Verdict::RemoteAhead => "remote ahead — `db pull`",
            Verdict::Diverged => "DIVERGED — local and remote both changed; reconcile manually (--force picks a side)",
        }
    }
}

/// Names the sync state from the local identity, the local marker and the
/// remote manifest.
pub fn status_verdict(current_hash: &str, local: Option<&Marker>, remote: Option<&Manifest>) -> (r: Verdict)
    ensures
        r == spec_verdict(current_hash@, marker_model(local), manifest_model(remote)),
{
    match remote {
        None => {
            let e = empty_hash();
            if same_text(current_hash, e.as_str()) {
                Verdict::Empty
            } else {
                Verdict::LocalOnly
            }
        },
        Some(r) => {
            let dirty = is_dirty(local, current_hash);
            let base = match local {
                Some(m) => m.version,
                None => 0,
            };
            let remote_ahead = r.version > base;
            if !dirty && !remote_ahead {
                Verdict::InSync
            } else if dirty && !remote_ahead {
                Verdict::LocalAhead
            } else if !dirty && remote_ahead {
                Verdict::RemoteAhead
            } else {
                Verdict::Diverged
            }
        },
    }
}

/// What a push does.
#[derive(Clone, Copy, Debug, PartialEq, Eq, Structural)]
pub enum PushPlan {
    /// The remote already holds this snapshot; nothing is written.
    AlreadyInSync { version: u64 },
    /// Upload the snapshot as this version, then record it as synced.
    Upload { version: u64 },
}

/// The refusal of a push over a remote that moved past the last sync.
pub open spec fn push_conflict_text(remote_version: u64, base: u64) -> Seq<char> {
    "remote is at v"@ + decimal(remote_version as nat) + " but your last sync was v"@ + decimal(base as nat)
        + " — `db pull` first, or --force to overwrite"@
}

/// What a push does: nothing when the remote already holds this snapshot;
/// refuse when the remote moved past the last sync here and the push is not
/// forced; else upload the version after the remote's (the first when there
/// is none).
pub open spec fn spec_push(
    current: Seq<char>,
    remote: Option<(u64, Seq<char>)>,
    local: Option<(u64, Seq<char>)>,
    force: bool,
) -> Option<PushPlan> {
    match remote {
        Some(r) => if r.1 == current {
            Some(PushPlan::AlreadyInSync { version: r.0 })
        } else if r.0 > base_version(local) && !force {
            None
        } else {
            Some(PushPlan::Upload { version: (r.0 + 1) as u64 })
        },
        None => Some(PushPlan::Upload { version: 1 }),
    }
}

/// Decides a push. A remote that advanced past the version last synced here
/// is never overwritten unless `force` is set: that is a conflict.
pub fn plan_push(current_hash: &str, remote: Option<&Manifest>, local: Option<&Marker>, force: bool) -> (r: Result<
    PushPlan,
    DomainError,
>)
    requires
        remote matches Some(m) ==> (m.state_hash@ != current_hash@ && !(m.version > base_version(
            marker_model(local),
        ) && !force) ==> m.version < u64::MAX),
    ensures
        match spec_push(current_hash@, manifest_model(remote), marker_model(local), force) {
            Some(p) => r == Ok::<PushPlan, DomainError>(p),
            None => r matches Err(e) && remote matches Some(m) && is_conflict(
                e,
                push_conflict_text(m.version, base_version(marker_model(local))),
            ),
        },
{
    let base = match local {
        Some(m) => m.version,
        None => 0,
    };
    match remote {
        Some(r) => {
            if same_text(r.state_hash.as_str(), current_hash) {
                return Ok(PushPlan::AlreadyInSync { version: r.version });
            }
            if r.version > base && !force {
                let msg = "remote is at v".to_owned().concat(decimal_string(r.version).as_str()).concat(
                    " but your last sync was v",
                ).concat(decimal_string(base).as_str()).concat(" — `db pull` first, or --force to overwrite");
                return Err(DomainError::Conflict(msg));
            }
            Ok(PushPlan::Upload { version: r.version + 1 })
        },
        None => Ok(PushPlan::Upload { version: 1 }),
    }
}

/// What a pull does.
#[derive(Clone, Copy, Debug, PartialEq, Eq, Structural)]
pub enum PullPlan {
    /// Local already holds the remote snapshot: adopt its version only.
    AdoptRemote,
    /// Download this version, verify it, and restore it.
    Download { version: u64 },
}

/// What a pull does: adopt the remote's version when local already holds its
/// snapshot; refuse when local has unpushed changes and the pull is not
/// forced; else download the remote's version.
pub open spec fn spec_pull(
    current: Seq<char>,
    remote: (u64, Seq<char>),
    local: Option<(u64, Seq<char>)>,
    force: bool,
) -> Option<PullPlan> {
    if remote.1 == current {
        Some(PullPlan::AdoptRemote)
    } else if spec_dirty(local, current) && !force {
        None
    } else {
        Some(PullPlan::Download { version: remote.0 })
    }
}

/// Decides a pull. Unpushed local changes are never discarded unless
/// `force` is set: that is a conflict.
pub fn plan_pull(current_hash: &str, remote: &Manifest, local: Option<&Marker>, force: bool) -> (r: Result<
    PullPlan,
    DomainError,
>)
    ensures
        match spec_pull(current_hash@, remote@, marker_model(local), force) {
            Some(p) => r == Ok::<PullPlan, DomainError>(p),
            None => r matches Err(e) && is_conflict(
                e,
                "local has unpushed changes — `db push` first, or --force to discard them"@,
            ),
        },
{
    if same_text(remote.state_hash.as_str(), current_hash) {
        return Ok(PullPlan::AdoptRemote);
    }
    if is_dirty(local, current_hash) && !force {
        return Err(
            DomainError::Conflict(
                "local has unpushed changes — `db push` first, or --force to discard them".to_owned(),
            ),
        );
    }
    Ok(PullPlan::Download { version: remote.version })
}

/// The error a pull reports when the remote has no snapshot under `prefix`.
pub fn missing_remote(prefix: &str) -> (r: DomainError)
    ensures
        r matches DomainError::NotFound { entity, id } && entity@ == "remote snapshot"@ && id@ == prefix@,
{
    DomainError::NotFound { entity: "remote snapshot".to_owned(), id: prefix.to_owned() }
}

/// The refusal of a download whose identity is not the promised one.
pub open spec fn corrupt_download_text(got: Seq<char>, expected: Seq<char>) -> Seq<char> {
    "downloaded snapshot hash "@ + short_text(got) + " != manifest "@ + short_text(expected) + " — corrupt"@
}

/// `s` can be cut after its first eight bytes (or is shorter than that).
pub open spec fn cuttable(s: &str) -> bool {
    vstd::utf8::is_char_boundary(
        s.spec_bytes(),
        if s.spec_bytes().len() < 8 { s.spec_bytes().len() as int } else { 8 },
    )
}

/// Accepts a downloaded snapshot only when its identity is the one the
/// manifest promised.
pub fn check_download(got: &str, expected: &str) -> (r: Result<(), DomainError>)
    requires
        got@ != expected@ ==> cuttable(got) && cuttable(expected),
    ensures
        got@ == expected@ ==> r is Ok,
        got@ != expected@ ==> (r matches Err(e) && is_repository(e, corrupt_download_text(got@, expected@))),
{
    if same_text(got, expected) {
        return Ok(());
    }
    let msg = "downloaded snapshot hash ".to_owned().concat(short(got)).concat(" != manifest ").concat(
        short(expected),
    ).concat(" — corrupt");
    Err(DomainError::Repository(msg))
}

/// After a push uploads, the marker and the remote both record the new
/// version and this snapshot: `db status` then says the two are in sync.
pub proof fn lemma_push_then_in_sync(
    current: Seq<char>,
    remote: Option<(u64, Seq<char>)>,
    local: Option<(u64, Seq<char>)>,
    force: bool,
    version: u64,
)
    requires
        spec_push(current, remote, local, force) == Some(PushPlan::Upload { version }),
    ensures
        spec_verdict(current, Some((version, current)), Some((version, current))) == Verdict::InSync,
{
}

/// A push that was not forced never overwrites a remote that advanced past
/// the last sync here, and only uploads a snapshot the remote lacks.
pub proof fn lemma_push_never_clobbers(
    current: Seq<char>,
    remote: Option<(u64, Seq<char>)>,
    local: Option<(u64, Seq<char>)>,
    version: u64,
)
    requires
        spec_push(current, remote, local, false) == Some(PushPlan::Upload { version }),
        remote matches Some(r) ==> r.0 < u64::MAX,
    ensures
        remote matches Some(r) ==> (r.0 <= base_version(local) && r.1 != current && version == r.0 + 1),
        remote is None ==> version == 1,
{
}

/// After a pull (adopting or downloading), local holds the remote snapshot
/// and the marker records it: `db status` says in sync.
pub proof fn lemma_pull_then_in_sync(
    current: Seq<char>,
    remote: (u64, Seq<char>),
    local: Option<(u64, Seq<char>)>,
    force: bool,
)
    requires
        spec_pull(current, remote, local, force) is Some,
    ensures
        spec_verdict(remote.1, Some(remote), Some(remote)) == Verdict::InSync,
{
}

/// A pull that was not forced never discards unpushed local changes.
pub proof fn lemma_pull_never_discards(
    current: Seq<char>,
    remote: (u64, Seq<char>),
    local: Option<(u64, Seq<char>)>,
    version: u64,
)
    requires
        spec_pull(current, remote, local, false) == Some(PullPlan::Download { version }),
    ensures
        !spec_dirty(local, current),
        version == remote.0,
{
}


/// A machine that never synced has synced version 0: an unforced push over
/// any remote at a later version holding another snapshot is refused.
pub proof fn lemma_never_synced_push_conflicts(current: Seq<char>, version: u64, remote_hash: Seq<char>)
    requires
        version > 0,
        remote_hash != current,
    ensures
        spec_push(current, Some((version, remote_hash)), None, false) is None,
{
}

/// An unforced push is refused exactly when the remote holds another
/// snapshot at a version past the one this machine last synced (0 when it
/// never did); otherwise it uploads the version after the remote's, or
/// reports the remote already in sync.
pub proof fn lemma_push_decision(
    current: Seq<char>,
    version: u64,
    remote_hash: Seq<char>,
    local: Option<(u64, Seq<char>)>,
)
    ensures
        ({
            let last = match local {
                Some(m) => m.0 as int,
                None => 0int,
            };
            let plan = spec_push(current, Some((version, remote_hash)), local, false);
            &&& remote_hash == current ==> plan == Some(PushPlan::AlreadyInSync { version })
            &&& remote_hash != current && version > last ==> plan is None
            &&& remote_hash != current && version <= last && version < u64::MAX ==> plan == Some(
                PushPlan::Upload { version: (version + 1) as u64 },
            )
        }),
{
}

/// `db status` against a remote, from what changed: local data changed when
/// it differs from the snapshot last synced here (from the empty snapshot
/// when this machine never synced), and the remote moved when its version
/// is past the one last synced here (0 when never). Both is a divergence.
pub proof fn lemma_verdict_table(
    current: Seq<char>,
    local: Option<(u64, Seq<char>)>,
    version: u64,
    remote_hash: Seq<char>,
)
    ensures
        ({
            let changed = match local {
                Some(m) => m.1 != current,
                None => current != snapshot_hash(Seq::empty()),
            };
            let moved = match local {
                Some(m) => version > m.0,
                None => version > 0,
            };
            spec_verdict(current, local, Some((version, remote_hash))) == if changed && moved {
                Verdict::Diverged
            } else if changed {
                Verdict::LocalAhead
            } else if moved {
                Verdict::RemoteAhead
            } else {
                Verdict::InSync
            }
        }),
{
}

/// An unforced pull is refused only when local data changed since the last
/// sync here (or, never synced, is not the empty snapshot): local data that
/// is clean is replaced by the remote's snapshot.
pub proof fn lemma_clean_pull_downloads(current: Seq<char>, remote: (u64, Seq<char>), local: Option<(u64, Seq<char>)>)
    requires
        remote.1 != current,
        local matches Some(m) ==> m.1 == current,
        local is None ==> current == snapshot_hash(Seq::empty()),
    ensures
        spec_pull(current, remote, local, false) == Some(PullPlan::Download { version: remote.0 }),
{
}

/// A refused pull always protects changed local data.
pub proof fn lemma_refused_pull_protects_changes(
    current: Seq<char>,
    remote: (u64, Seq<char>),
    local: Option<(u64, Seq<char>)>,
)
    requires
        spec_pull(current, remote, local, false) is None,
    ensures
        remote.1 != current,
        local matches Some(m) ==> m.1 != current,
        local is None ==> current != snapshot_hash(Seq::empty()),
{
}

/// One entry of the encoding: name length, name, content length, content.
spec fn frame_entry(e: (Seq<char>, Seq<u8>)) -> Seq<u8> {
    le_bytes(vstd::utf8::encode_utf8(e.0).len() as u64) + vstd::utf8::encode_utf8(e.0) + le_bytes(e.1.len() as u64)
        + e.1
}

proof fn lemma_frame_front(es: Seq<(Seq<char>, Seq<u8>)>)
    requires
        es.len() > 0,
    ensures
        frame(es) == frame_entry(es[0]) + frame(es.drop_first()),
    decreases es.len(),
{
    if es.len() == 1 {
        assert(es.drop_last() =~= Seq::<(Seq<char>, Seq<u8>)>::empty());
        assert(es.drop_first() =~= Seq::<(Seq<char>, Seq<u8>)>::empty());
        assert(es.last() == es[0]);
        assert(frame(es.drop_last()) =~= Seq::<u8>::empty());
        assert(frame(es) =~= frame_entry(es[0]));
        assert(frame_entry(es[0]) + frame(es.drop_first()) =~= frame_entry(es[0]));
    } else {
        let init = es.drop_last();
        lemma_frame_front(init);
        assert(init.drop_first() =~= es.drop_first().drop_last());
        assert(es.drop_first().last() == es.last());
        assert(init[0] == es[0]);
        assert(frame(es) =~= frame_entry(es[0]) + frame(es.drop_first()));
    }
}

proof fn lemma_le_bytes_injective(n: u64, m: u64)
    requires
        le_bytes(n) == le_bytes(m),
    ensures
        n == m,
{
    assert(le_bytes(n)[0] == ((n >> 0u64) & 0xff) as u8);
    assert(le_bytes(m)[0] == ((m >> 0u64) & 0xff) as u8);
    assert(le_bytes(n)[0] == le_bytes(m)[0]);
    assert(le_bytes(n)[1] == ((n >> 8u64) & 0xff) as u8);
    assert(le_bytes(m)[1] == ((m >> 8u64) & 0xff) as u8);
    assert(le_bytes(n)[1] == le_bytes(m)[1]);
    assert(le_bytes(n)[2] == ((n >> 16u64) & 0xff) as u8);
    assert(le_bytes(m)[2] == ((m >> 16u64) & 0xff) as u8);
    assert(le_bytes(n)[2] == le_bytes(m)[2]);
    assert(le_bytes(n)[3] == ((n >> 24u64) & 0xff) as u8);
    assert(le_bytes(m)[3] == ((m >> 24u64) & 0xff) as u8);
    assert(le_bytes(n)[3] == le_bytes(m)[3]);
    assert(le_bytes(n)[4] == ((n >> 32u64) & 0xff) as u8);
    assert(le_bytes(m)[4] == ((m >> 32u64) & 0xff) as u8);
    assert(le_bytes(n)[4] == le_bytes(m)[4]);
    assert(le_bytes(n)[5] == ((n >> 40u64) & 0xff) as u8);
    assert(le_bytes(m)[5] == ((m >> 40u64) & 0xff) as u8);
    assert(le_bytes(n)[5] == le_bytes(m)[5]);
    assert(le_bytes(n)[6] == ((n >> 48u64) & 0xff) as u8);
    assert(le_bytes(m)[6] == ((m >> 48u64) & 0xff) as u8);
    assert(le_bytes(n)[6] == le_bytes(m)[6]);
    assert(le_bytes(n)[7] == ((n >> 56u64) & 0xff) as u8);
    assert(le_bytes(m)[7] == ((m >> 56u64) & 0xff) as u8);
    assert(le_bytes(n)[7] == le_bytes(m)[7]);
    assert(n == m) by (bit_vector)
        requires
            ((n >> 0u64) & 0xff) as u8 == ((m >> 0u64) & 0xff) as u8,
            ((n >> 8u64) & 0xff) as u8 == ((m >> 8u64) & 0xff) as u8,
            ((n >> 16u64) & 0xff) as u8 == ((m >> 16u64) & 0xff) as u8,
            ((n >> 24u64) & 0xff) as u8 == ((m >> 24u64) & 0xff) as u8,
            ((n >> 32u64) & 0xff) as u8 == ((m >> 32u64) & 0xff) as u8,
            ((n >> 40u64) & 0xff) as u8 == ((m >> 40u64) & 0xff) as u8,
            ((n >> 48u64) & 0xff) as u8 == ((m >> 48u64) & 0xff) as u8,
            ((n >> 56u64) & 0xff) as u8 == ((m >> 56u64) & 0xff) as u8,
    ;
}

/// Every name and content of `es` is shorter than 2^64 bytes, as any held
/// in memory is.
pub open spec fn lengths_fit(es: Seq<(Seq<char>, Seq<u8>)>) -> bool {
    forall|i: int|
        0 <= i < es.len() ==> vstd::utf8::encode_utf8(#[trigger] es[i].0).len() <= u64::MAX && es[i].1.len()
            <= u64::MAX
}

/// The encoding a snapshot's identity is taken over loses nothing: two
/// listings encode alike only when they are the same `(name, bytes)` entries
/// in the same order. Names count as much as contents, so renaming or moving
/// a file gives another encoding.
pub proof fn lemma_frame_injective(a: Seq<(Seq<char>, Seq<u8>)>, b: Seq<(Seq<char>, Seq<u8>)>)
    requires
        lengths_fit(a),
        lengths_fit(b),
        frame(a) == frame(b),
    ensures
        a == b,
    decreases a.len(),
{
    if a.len() == 0 || b.len() == 0 {
        if a.len() > 0 {
            lemma_frame_front(a);
            assert(frame(a).len() >= 16);
            assert(frame(b).len() == 0);
        }
        if b.len() > 0 {
            lemma_frame_front(b);
            assert(frame(b).len() >= 16);
            assert(frame(a).len() == 0);
        }
        assert(a =~= b);
    } else {
        lemma_frame_front(a);
        lemma_frame_front(b);
        let x = frame(a);
        let (a0, b0) = (a[0], b[0]);
        let na = vstd::utf8::encode_utf8(a0.0);
        let nb = vstd::utf8::encode_utf8(b0.0);
        assert(lengths_fit(a) ==> na.len() <= u64::MAX);
        assert(lengths_fit(b) ==> nb.len() <= u64::MAX);
        assert(a0.1.len() <= u64::MAX && b0.1.len() <= u64::MAX);
        assert(x.subrange(0, 8) =~= le_bytes(na.len() as u64));
        assert(x.subrange(0, 8) =~= le_bytes(nb.len() as u64));
        lemma_le_bytes_injective(na.len() as u64, nb.len() as u64);
        let l = na.len() as int;
        assert(x.subrange(8, 8 + l) =~= na);
        assert(x.subrange(8, 8 + l) =~= nb);
        vstd::utf8::encode_utf8_decode_utf8(a0.0);
        vstd::utf8::encode_utf8_decode_utf8(b0.0);
        assert(x.subrange(8 + l, 16 + l) =~= le_bytes(a0.1.len() as u64));
        assert(x.subrange(8 + l, 16 + l) =~= le_bytes(b0.1.len() as u64));
        lemma_le_bytes_injective(a0.1.len() as u64, b0.1.len() as u64);
        let c = a0.1.len() as int;
        assert(x.subrange(16 + l, 16 + l + c) =~= a0.1);
        assert(x.subrange(16 + l, 16 + l + c) =~= b0.1);
        assert(a0 == b0);
        let k = frame_entry(a0).len() as int;
        assert(frame(a.drop_first()) =~= x.subrange(k, x.len() as int));
        assert(frame(b.drop_first()) =~= x.subrange(k, x.len() as int));
        assert(lengths_fit(a.drop_first())) by {
            assert forall|i: int| 0 <= i < a.drop_first().len() implies vstd::utf8::encode_utf8(
                #[trigger] a.drop_first()[i].0,
            ).len() <= u64::MAX && a.drop_first()[i].1.len() <= u64::MAX by {
                assert(a.drop_first()[i] == a[i + 1]);
            }
        }
        assert(lengths_fit(b.drop_first())) by {
            assert forall|i: int| 0 <= i < b.drop_first().len() implies vstd::utf8::encode_utf8(
                #[trigger] b.drop_first()[i].0,
            ).len() <= u64::MAX && b.drop_first()[i].1.len() <= u64::MAX by {
                assert(b.drop_first()[i] == b[i + 1]);
            }
        }
        lemma_frame_injective(a.drop_first(), b.drop_first());
        assert(a =~= seq![a0] + a.drop_first());
        assert(b =~= seq![b0] + b.drop_first());
    }
}

/// Where an archive entry is restored to.
#[derive(Debug)]
pub enum RestoreTarget {
    /// The configured database path.
    Db,
    /// The configured layout path.
    Layout,
    /// This path under the configured data directory.
    Data(String),
}

/// The refusal of an archive entry that names no configured path.
pub open spec fn unknown_entry_text(name: Seq<char>) -> Seq<char> {
    "unknown archive entry: "@ + name
}

/// Routes an archive entry back to the configured path it was captured from.
pub fn restore_target(name: &str) -> (r: Result<RestoreTarget, DomainError>)
    ensures
        name@ == DB_ENTRY@ ==> r matches Ok(RestoreTarget::Db),
        name@ != DB_ENTRY@ && name@ == LAYOUT_ENTRY@ ==> r matches Ok(RestoreTarget::Layout),
        name@ != DB_ENTRY@ && name@ != LAYOUT_ENTRY@ && has_prefix(name@, DATA_PREFIX@) ==> (r matches Ok(
            RestoreTarget::Data(rest),
        ) && rest@ == name@.skip(DATA_PREFIX@.len() as int)),
        name@ != DB_ENTRY@ && name@ != LAYOUT_ENTRY@ && !has_prefix(name@, DATA_PREFIX@) ==> (r matches Err(
            e,
        ) && is_repository(e, unknown_entry_text(name@))),
{
    if same_text(name, DB_ENTRY) {
        return Ok(RestoreTarget::Db);
    }
    if same_text(name, LAYOUT_ENTRY) {
        return Ok(RestoreTarget::Layout);
    }
    if starts_with(name, DATA_PREFIX) {
        let n = name.unicode_len();
        let k = DATA_PREFIX.unicode_len();
        return Ok(RestoreTarget::Data(name.substring_char(k, n).to_owned()));
    }
    Err(DomainError::Repository("unknown archive entry: ".to_owned().concat(name)))
}

/// `rel` with every backslash turned into a forward slash.
pub open spec fn forward_slashes(rel: Seq<char>) -> Seq<char> {
    rel.map_values(|c: char| if c == '\\' { '/' } else { c })
}

/// The archive name of a data-directory file at relative path `rel`.
pub fn data_entry_name(rel: &str) -> (r: String)
    ensures
        r@ == DATA_PREFIX@ + forward_slashes(rel@),
{
    let mut out = DATA_PREFIX.to_owned();
    let n = rel.unicode_len();
    let mut i: usize = 0;
    while i < n
        invariant
            n == rel@.len(),
            i <= n,
            out@ == DATA_PREFIX@ + forward_slashes(rel@.subrange(0, i as int)),
        decreases n - i,
    {
        let c = rel.get_char(i);
        push_char(&mut out, if c == '\\' { '/' } else { c });
        proof {
            assert(forward_slashes(rel@.subrange(0, i + 1)) =~= forward_slashes(rel@.subrange(0, i as int)).push(
                if c == '\\' { '/' } else { c },
            ));
        }
        i = i + 1;
    }
    proof {
        assert(rel@.subrange(0, n as int) =~= rel@);
    }
    out
}

/// The object key of `name` under the remote prefix.
pub fn object_path(prefix: &str, name: &str) -> (r: String)
    ensures
        r@ == prefix@ + "/"@ + name@,
{
    prefix.to_owned().concat("/").concat(name)
}

/// The object name a snapshot version is uploaded under.
pub fn snapshot_object(version: u64) -> (r: String)
    ensures
        r@ == "data-"@ + decimal(version as nat) + ".tgz"@,
{
    let v = decimal_string(version);
    "data-".to_owned().concat(v.as_str()).concat(".tgz")
}

/// A failure of the remote object store, as a storage error.
pub fn remote_error(text: &str) -> (r: DomainError)
    ensures
        is_repository(r, "r2: "@ + text@),
{
    DomainError::Repository("r2: ".to_owned().concat(text))
}

/// A failure of the local database, as a storage error.
pub fn sqlite_error(text: &str) -> (r: DomainError)
    ensures
        is_repository(r, "sqlite: "@ + text@),
{
    DomainError::Repository("sqlite: ".to_owned().concat(text))
}

/// Sync needs both a bucket and an endpoint.
pub fn sync_configured(bucket: &str, endpoint: &str) -> (r: Result<(), DomainError>)
    ensures
        (bucket@.len() > 0 && endpoint@.len() > 0) ==> r is Ok,
        !(bucket@.len() > 0 && endpoint@.len() > 0) ==> (r matches Err(e) && is_validation_text(
            e,
            "sync not configured: set sync_bucket and sync_endpoint"@,
        )),
{
    if bucket.unicode_len() == 0 || endpoint.unicode_len() == 0 {
        return Err(DomainError::Validation("sync not configured: set sync_bucket and sync_endpoint".to_owned()));
    }
    Ok(())
}

/// `e` is a validation error carrying exactly `msg`.
pub open spec fn is_validation_text(e: DomainError, msg: Seq<char>) -> bool {
    crate::error::is_validation(e, msg)
}

/// The error for a credential missing from the environment.
pub fn missing_secret(var: &str) -> (r: DomainError)
    ensures
        is_validation_text(r, var@ + " not set in env"@),
{
    DomainError::Validation(var.to_owned().concat(" not set in env"))
}

/// The provenance label a manifest records: the `HOSTNAME` variable when set
/// and non-empty, else the trimmed host-name file when non-empty, else
/// `unknown`.
pub fn pick_host(env_var: Option<String>, host_file: Option<String>) -> (r: String)
    ensures
        r@ == match env_var {
            Some(v) if v@.len() > 0 => v@,
            _ => match host_file {
                Some(f) if crate::text::trimmed(f@).len() > 0 => crate::text::trimmed(f@),
                _ => "unknown"@,
            },
        },
{
    if let Some(v) = env_var {
        if v.unicode_len() > 0 {
            return v;
        }
    }
    if let Some(f) = host_file {
        let t = crate::text::trim(f.as_str());
        if t.unicode_len() > 0 {
            return t.to_owned();
        }
    }
    "unknown".to_owned()
}

} // verus!
