//! Presentation rules the panels share: how a lot's status is labelled and
//! badged, how provisional data is marked, which kind an upload is filed
//! under, how file bytes ride in a `data:` URL, and who may administer.
use vstd::prelude::*;
use crate::domain::{
    Apartment, ApartmentStatus, Building, BuildingId, FileId, FileKind, PropertyFile, PropertyStateKind, status_kind,
};
use crate::text::{
    ascii_lower, chars_text, contains, has_infix, has_prefix, lemma_split_on_nonempty, push_char, same_text,
    split_on, starts_with, to_ascii_lowercase,
};

verus! {

/// The English label of a lot's status.
pub open spec fn status_label_text(s: ApartmentStatus) -> Seq<char> {
    match s {
        ApartmentStatus::Available => "Available"@,
        ApartmentStatus::Sold => "Sold"@,
        ApartmentStatus::Purchasing => "Purchasing"@,
        ApartmentStatus::Purchased(_) => "Purchased"@,
        ApartmentStatus::Interesting => "Interesting"@,
    }
}

/// The header's label for a lot's status.
pub fn status_label(status: ApartmentStatus) -> (r: &'static str)
    ensures
        r@ == status_label_text(status),
{
    match status {
        ApartmentStatus::Available => "Available",
        ApartmentStatus::Sold => "Sold",
        ApartmentStatus::Purchasing => "Purchasing",
        ApartmentStatus::Purchased(_) => "Purchased",
        ApartmentStatus::Interesting => "Interesting",
    }
}

/// The badge styles the header uses.
#[derive(Clone, Copy, Debug, PartialEq, Eq, Structural)]
pub enum BadgeVariant {
    Success,
    Secondary,
    Outline,
}

/// Owned lots read as success, lots being bought as secondary, the rest as
/// an outline.
pub open spec fn spec_status_variant(s: ApartmentStatus) -> BadgeVariant {
    match status_kind(s) {
        Some(PropertyStateKind::Purchased) => BadgeVariant::Success,
        Some(PropertyStateKind::Purchasing) => BadgeVariant::Secondary,
        Some(PropertyStateKind::Interesting) => BadgeVariant::Outline,
        None => BadgeVariant::Outline,
    }
}

/// The badge style of a lot's status.
pub fn status_variant(status: ApartmentStatus) -> (r: BadgeVariant)
    ensures
        r == spec_status_variant(status),
{
    match status.portfolio_kind() {
        Some(PropertyStateKind::Purchased) => BadgeVariant::Success,
        Some(PropertyStateKind::Purchasing) => BadgeVariant::Secondary,
        Some(PropertyStateKind::Interesting) => BadgeVariant::Outline,
        None => BadgeVariant::Outline,
    }
}

/// `(class, style fragment)` marking a tile or bar as provisional (data from
/// a source that is not yet real): dimmed and hatched, so an unconfirmed
/// value never reads as a confirmed one. Both are empty when `active` is
/// false; the fragment is appended to an existing `style` attribute.
pub fn provisional(active: bool) -> (r: (&'static str, &'static str))
    ensures
        active ==> r.0@ == "opacity-50"@ && r.1@
            == ";background-image:repeating-linear-gradient(45deg,rgba(230,225,211,0.22) 0 5px,transparent 5px 12px)"@,
        !active ==> r.0@ == ""@ && r.1@ == ""@,
{
    if active {
        (
            "opacity-50",
            ";background-image:repeating-linear-gradient(45deg,rgba(230,225,211,0.22) 0 5px,transparent 5px 12px)",
        )
    } else {
        ("", "")
    }
}

/// The deployed revision: the revision the build was handed, unless it is
/// absent or empty, else the commit hash the build recorded.
pub fn build_rev(flake_rev: Option<&'static str>, git_hash: &'static str) -> (r: &'static str)
    ensures
        r@ == (if flake_rev is Some && flake_rev.unwrap()@.len() > 0 {
            flake_rev.unwrap()@
        } else {
            git_hash@
        }),
{
    match flake_rev {
        Some(rev) => {
            if rev.unicode_len() > 0 {
                rev
            } else {
                git_hash
            }
        },
        None => git_hash,
    }
}

/// The kind an upload is filed under: images are pictures; a file named like
/// a deck, or served as a presentation, is a pitch deck; anything else is a
/// document.
pub open spec fn spec_kind_for(content_type: Seq<char>, filename: Seq<char>) -> FileKind {
    if has_prefix(content_type, "image/"@) {
        FileKind::Pic
    } else if has_infix(ascii_lower(filename), "deck"@) || has_infix(content_type, "presentation"@) {
        FileKind::PitchDeck
    } else {
        FileKind::Document
    }
}

/// Chooses the kind an uploaded file is filed under.
pub fn kind_for(content_type: &str, filename: &str) -> (r: FileKind)
    ensures
        r == spec_kind_for(content_type@, filename@),
{
    if starts_with(content_type, "image/") {
        FileKind::Pic
    } else {
        let lower = to_ascii_lowercase(filename);
        if contains(lower.as_str(), "deck") || contains(content_type, "presentation") {
            FileKind::PitchDeck
        } else {
            FileKind::Document
        }
    }
}

/// The standard base64 alphabet.
pub open spec fn b64_alphabet() -> Seq<char> {
    "ABCDEFGHIJKLMNOPQRSTUVWXYZabcdefghijklmnopqrstuvwxyz0123456789+/"@
}

/// The base64 character for the six-bit value `v`.
pub open spec fn b64_char(v: int) -> char {
    b64_alphabet()[v]
}

/// The four characters three bytes encode to.
pub open spec fn b64_quad(b0: u8, b1: u8, b2: u8) -> Seq<char> {
    seq![
        b64_char(b0 as int / 4),
        b64_char((b0 as int % 4) * 16 + b1 as int / 16),
        b64_char((b1 as int % 16) * 4 + b2 as int / 64),
        b64_char(b2 as int % 64),
    ]
}

/// The encoding of the first `k` whole groups of three bytes.
pub open spec fn b64_groups(s: Seq<u8>, k: nat) -> Seq<char>
    decreases k,
{
    if k == 0 {
        Seq::empty()
    } else {
        b64_groups(s, (k - 1) as nat) + b64_quad(s[3 * k - 3], s[3 * k - 2], s[3 * k - 1])
    }
}

/// The padded encoding of the last one or two bytes (nothing for none).
pub open spec fn b64_tail(s: Seq<u8>) -> Seq<char> {
    if s.len() == 1 {
        seq![b64_char(s[0] as int / 4), b64_char((s[0] as int % 4) * 16), '=', '=']
    } else if s.len() == 2 {
        seq![
            b64_char(s[0] as int / 4),
            b64_char((s[0] as int % 4) * 16 + s[1] as int / 16),
            b64_char((s[1] as int % 16) * 4),
            '=',
        ]
    } else {
        Seq::empty()
    }
}

/// Standard padded base64 of `s`.
pub open spec fn base64(s: Seq<u8>) -> Seq<char> {
    let k = s.len() / 3;
    b64_groups(s, k) + b64_tail(s.subrange(3 * k as int, s.len() as int))
}

/// Standard-alphabet, padded base64, so file bytes can ride in a `data:` URL.
pub fn b64(input: &[u8]) -> (r: String)
    ensures
        r@ == base64(input@),
{
    let alphabet = "ABCDEFGHIJKLMNOPQRSTUVWXYZabcdefghijklmnopqrstuvwxyz0123456789+/";
    proof {
        reveal_strlit("ABCDEFGHIJKLMNOPQRSTUVWXYZabcdefghijklmnopqrstuvwxyz0123456789+/");
    }
    let n = input.len();
    let mut out = String::new();
    let mut i: usize = 0;
    let ghost mut k: nat = 0;
    while n - i >= 3
        invariant
            n == input@.len(),
            i <= n,
            i == 3 * k,
            alphabet@ == b64_alphabet(),
            b64_alphabet().len() == 64,
            out@ == b64_groups(input@, k),
        decreases n - i,
    {
        let b0 = input[i];
        let b1 = input[i + 1];
        let b2 = input[i + 2];
        push_char(&mut out, alphabet.get_char((b0 / 4) as usize));
        push_char(&mut out, alphabet.get_char(((b0 % 4) * 16 + b1 / 16) as usize));
        push_char(&mut out, alphabet.get_char(((b1 % 16) * 4 + b2 / 64) as usize));
        push_char(&mut out, alphabet.get_char((b2 % 64) as usize));
        proof {
            k = k + 1;
            assert(out@ =~= b64_groups(input@, k));
        }
        i = i + 3;
    }
    proof {
        assert(k == input@.len() / 3);
    }
    let rest = n - i;
    if rest == 1 {
        let b0 = input[i];
        push_char(&mut out, alphabet.get_char((b0 / 4) as usize));
        push_char(&mut out, alphabet.get_char(((b0 % 4) * 16) as usize));
        push_char(&mut out, '=');
        push_char(&mut out, '=');
    } else if rest == 2 {
        let b0 = input[i];
        let b1 = input[i + 1];
        push_char(&mut out, alphabet.get_char((b0 / 4) as usize));
        push_char(&mut out, alphabet.get_char(((b0 % 4) * 16 + b1 / 16) as usize));
        push_char(&mut out, alphabet.get_char(((b1 % 16) * 4) as usize));
        push_char(&mut out, '=');
    }
    proof {
        let t = input@.subrange(i as int, n as int);
        assert(out@ =~= b64_groups(input@, k) + b64_tail(t));
    }
    out
}

/// A `data:` URL carrying `bytes` as `content_type`.
pub fn data_url(content_type: &str, bytes: &[u8]) -> (r: String)
    ensures
        r@ == "data:"@ + content_type@ + ";base64,"@ + base64(bytes@),
{
    let encoded = b64(bytes);
    "data:".to_owned().concat(content_type).concat(";base64,").concat(encoded.as_str())
}

/// Whether `token` is the administrator's: it must be non-empty and match.
pub fn am_i_admin(token: &str, admin_token: &str) -> (r: bool)
    ensures
        r == (token@.len() > 0 && token@ == admin_token@),
{
    token.unicode_len() > 0 && same_text(token, admin_token)
}

/// The record an accepted upload is filed under, or the refusal when `token`
/// is not the administrator's. The id is the fresh one the caller drew.
pub fn upload_file(
    file_id: FileId,
    building_id: BuildingId,
    appt: Option<u32>,
    kind: FileKind,
    filename: String,
    content_type: String,
    token: &str,
    admin_token: &str,
) -> (r: Result<PropertyFile, String>)
    ensures
        token@ != admin_token@ ==> (r matches Err(m) && m@ == "not authorized to upload"@),
        token@ == admin_token@ ==> (r matches Ok(f) && f.id == file_id && f.building_id == building_id
            && f.apt == appt && f.kind == kind && f.filename == filename && f.content_type == content_type),
{
    if !same_text(token, admin_token) {
        return Err("not authorized to upload".to_owned());
    }
    Ok(PropertyFile { id: file_id, building_id, apt: appt, kind, filename, content_type })
}

/// The selected lot of a building, for the header to describe: the first
/// lot with that number, or none when nothing is selected or no lot has it.
pub fn lot_at(building: &Building, appt: Option<u32>) -> (r: Option<Apartment>)
    ensures
        match appt {
            Some(n) => match r {
                Some(a) => exists|i: int|
                    0 <= i < building.apartments@.len() && building.apartments@[i] == a && a.number == n && forall|j: int|
                        0 <= j < i ==> building.apartments@[j].number != n,
                None => forall|i: int| 0 <= i < building.apartments@.len() ==> building.apartments@[i].number != n,
            },
            None => r is None,
        },
{
    let n = match appt {
        Some(n) => n,
        None => {
            return None;
        },
    };
    let mut i: usize = 0;
    while i < building.apartments.len()
        invariant
            appt == Some(n),
            i <= building.apartments@.len(),
            forall|j: int| 0 <= j < i ==> building.apartments@[j].number != n,
        decreases building.apartments@.len() - i,
    {
        if building.apartments[i].number == n {
            let a = building.apartments[i];
            proof {
                assert(building.apartments@[i as int] == a);
            }
            return Some(a);
        }
        i = i + 1;
    }
    None
}

/// The backend origin the embed fetches from: what the host page
/// advertises, unless that is absent or empty, else the bundle's own origin.
pub fn rea_origin(advertised: Option<String>, bundle_origin: String) -> (r: String)
    ensures
        r@ == (if advertised is Some && advertised.unwrap()@.len() > 0 {
            advertised.unwrap()@
        } else {
            bundle_origin@
        }),
{
    match advertised {
        Some(a) => {
            if a.unicode_len() > 0 {
                a
            } else {
                bundle_origin
            }
        },
        None => bundle_origin,
    }
}

/// The Maps JavaScript loader URL for a key; none for an empty key, in which
/// case the map does not load.
pub fn maps_src(key: &str) -> (r: Option<String>)
    ensures
        key@.len() == 0 ==> r is None,
        key@.len() > 0 ==> (r matches Some(u) && u@ == "https://maps.googleapis.com/maps/api/js?key="@ + key@
            + "&libraries=places&v=weekly&callback=__reaMapsReady"@),
{
    if key.unicode_len() == 0 {
        return None;
    }
    Some(
        "https://maps.googleapis.com/maps/api/js?key=".to_owned().concat(key).concat(
            "&libraries=places&v=weekly&callback=__reaMapsReady",
        ),
    )
}

/// Where the build tag links: the deployed commit.
pub fn commit_url(rev: &str) -> (r: String)
    ensures
        r@ == "https://github.com/ev-invest/real_estate_allocation/commit/"@ + rev@,
{
    "https://github.com/ev-invest/real_estate_allocation/commit/".to_owned().concat(rev)
}

/// The build tag's text: the seed group the dock is on, when known, then the
/// package version and the revision.
pub fn build_tag_label(seed_group: Option<&str>, version: &str, rev: &str) -> (r: String)
    ensures
        r@ == match seed_group {
            Some(g) => g@ + "·"@ + "v"@ + version@ + "·"@ + rev@,
            None => "v"@ + version@ + "·"@ + rev@,
        },
{
    let tail = "v".to_owned().concat(version).concat("·").concat(rev);
    match seed_group {
        Some(g) => g.to_owned().concat("·").concat(tail.as_str()),
        None => tail,
    }
}

/// The segments of a label whose accent word is marked `*like this*`: the
/// text split at each `*`, every odd-numbered segment accented. One key with
/// an inline marker lets a translation move the accent word where its
/// grammar puts it.
pub open spec fn accent_spec(text: Seq<char>) -> Seq<(Seq<char>, bool)> {
    let fields = split_on(text, '*');
    Seq::new(fields.len(), |i: int| (fields[i], i % 2 == 1))
}

/// Segments as plain text and accent flags.
pub open spec fn segments_view(r: Seq<(String, bool)>) -> Seq<(Seq<char>, bool)> {
    r.map_values(|p: (String, bool)| (p.0@, p.1))
}

/// Splits a marked label into its plain and accented segments, in order.
pub fn accent_segments(text: &str) -> (r: Vec<(String, bool)>)
    ensures
        segments_view(r@) == accent_spec(text@),
{
    let n = text.unicode_len();
    let mut out: Vec<(String, bool)> = Vec::new();
    let mut field: Vec<char> = Vec::new();
    let mut i: usize = 0;
    proof {
        assert(text@.subrange(0, 0) =~= Seq::<char>::empty());
        lemma_split_on_nonempty(text@.subrange(0, 0), '*');
    }
    while i < n
        invariant
            n == text@.len(),
            i <= n,
            split_on(text@.subrange(0, i as int), '*').len() >= 1,
            field@ == split_on(text@.subrange(0, i as int), '*').last(),
            out@.len() == split_on(text@.subrange(0, i as int), '*').len() - 1,
            segments_view(out@) =~= accent_spec(text@.subrange(0, i as int)).drop_last(),
        decreases n - i,
    {
        let c = text.get_char(i);
        let ghost before = split_on(text@.subrange(0, i as int), '*');
        proof {
            let pre = text@.subrange(0, i + 1);
            assert(pre.drop_last() =~= text@.subrange(0, i as int));
            assert(pre.last() == c);
            lemma_split_on_nonempty(pre, '*');
        }
        if c == '*' {
            let odd = out.len() % 2 == 1;
            let seg = chars_text(&field, 0, field.len());
            proof {
                assert(field@.subrange(0, field@.len() as int) =~= field@);
            }
            let ghost prev_out = out@;
            out.push((seg, odd));
            field = Vec::new();
            proof {
                let after = before.push(Seq::<char>::empty());
                assert(split_on(text@.subrange(0, i + 1), '*') == after);
                assert(field@ =~= after.last());
                assert(segments_view(out@) =~= segments_view(prev_out).push((before.last(), odd)));
                assert(segments_view(out@) =~= accent_spec(text@.subrange(0, i + 1)).drop_last());
            }
        } else {
            field.push(c);
            proof {
                let after = before.update(before.len() - 1, before.last().push(c));
                assert(split_on(text@.subrange(0, i + 1), '*') == after);
                assert(field@ =~= after.last());
                assert(segments_view(out@) =~= accent_spec(text@.subrange(0, i + 1)).drop_last());
            }
        }
        i = i + 1;
    }
    proof {
        assert(text@.subrange(0, n as int) =~= text@);
    }
    let odd = out.len() % 2 == 1;
    let seg = chars_text(&field, 0, field.len());
    let ghost prev_out = out@;
    out.push((seg, odd));
    proof {
        assert(field@.subrange(0, field@.len() as int) =~= field@);
        assert(segments_view(out@) =~= segments_view(prev_out).push((field@, odd)));
        assert(segments_view(out@) =~= accent_spec(text@));
    }
    out
}

} // verus!
