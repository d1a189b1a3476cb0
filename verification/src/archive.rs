//! The snapshot archive: the sorted `(name, bytes)` entries of a snapshot as
//! a gzip-compressed tar, and back. The archive format is tar's and gzip's;
//! what goes in, in what order, and how a failure reads, is decided here.
use vstd::prelude::*;
use crate::error::{DomainError, has_prefix_chars, io_err};
use crate::entry_order::{hash_order, lemma_hash_order_independent};
use crate::sync::{entries_view, lemma_sort_named_facts, lemma_sort_view, snapshot_hash, sort_entries, sort_named};
use crate::text::split_on;

verus! {

/// A tar archive being built in memory: a `tar::Builder` over a `Vec<u8>`.
/// Held opaquely, since the builder's type is generic over `std::io::Write`,
/// which Verus does not take as a bound; [`tar_contents`] names what it holds.
#[verifier::external_body]
pub struct TarArchive {
    builder: tar::Builder<Vec<u8>>,
}

/// The files an archive being built holds, in the order they were appended,
/// each as its path and its bytes.
pub uninterp spec fn tar_contents(ar: TarArchive) -> Seq<(Seq<char>, Seq<u8>)>;

/// The bytes `tar::Builder` writes for these files, each appended as a
/// regular file of mode 0644 with a GNU header, followed by the archive's
/// end marker.
pub uninterp spec fn tar_bytes(files: Seq<(Seq<char>, Seq<u8>)>) -> Seq<u8>;

/// A name tar stores and reads back unchanged: a lone `.`, or a name with
/// no NUL character whose every component, split at `/`, is non-empty and
/// neither `.` nor `..` (so the name is relative, has no empty, current or
/// parent component, and no trailing slash).
pub open spec fn tar_name_ok(name: Seq<char>) -> bool {
    ||| name == "."@
    ||| {
        &&& forall|i: int| 0 <= i < name.len() ==> name[i] != '\0'
        &&& forall|i: int|
            0 <= i < split_on(name, '/').len() ==> {
                let c = #[trigger] split_on(name, '/')[i];
                c.len() > 0 && c != "."@ && c != ".."@
            }
    }
}

/// Every file of a listing has a name tar reads back unchanged.
pub open spec fn tar_names_ok(files: Seq<(Seq<char>, Seq<u8>)>) -> bool {
    forall|i: int| 0 <= i < files.len() ==> tar_name_ok(#[trigger] files[i].0)
}

/// An empty archive (`tar::Builder::new(Vec::new())`).
#[verifier::external_body]
fn tar_builder() -> (r: TarArchive)
    ensures
        tar_contents(r) == Seq::<(Seq<char>, Seq<u8>)>::empty(),
{
    TarArchive { builder: tar::Builder::new(Vec::new()) }
}

/// Appends one regular file, mode 0644, of `bytes.len()` bytes under `name`
/// (`tar::Builder::append_data` with a GNU header, and a GNU long-name entry
/// when the name does not fit); when it succeeds the archive holds that
/// file after the ones before it. Writing into memory cannot fail, so the
/// append fails only on a name tar refuses; a name [`tar_name_ok`] accepts
/// is never refused. What the archive holds after a failure is not stated.
#[verifier::external_body]
fn tar_append(ar: &mut TarArchive, name: &str, bytes: &[u8]) -> (r: Result<(), std::io::Error>)
    ensures
        tar_name_ok(name@) ==> r is Ok,
        r is Ok ==> tar_contents(*final(ar)) == tar_contents(*old(ar)).push((name@, bytes@)),
{
    let mut header = tar::Header::new_gnu();
    header.set_size(bytes.len() as u64);
    header.set_mode(0o644);
    header.set_cksum();
    ar.builder.append_data(&mut header, name, bytes)
}

/// Finishes the archive and hands back its bytes (`tar::Builder::into_inner`,
/// which only appends the end marker in memory, so it succeeds): the tar of
/// the files it holds. Read back through gzip (`tar::Archive` over a
/// `flate2::read::GzDecoder`), those bytes list exactly those files, in
/// order, when every name is one tar reads back unchanged.
#[verifier::external_body]
fn tar_finish(ar: TarArchive) -> (r: Result<Vec<u8>, std::io::Error>)
    ensures
        r is Ok,
        r matches Ok(b) ==> b@ == tar_bytes(tar_contents(ar)),
        r matches Ok(b) ==> (tar_names_ok(tar_contents(ar)) ==> (gzipped(b@) matches Some(z) ==> tgz_listing(z)
            == Some(tar_contents(ar)))),
{
    ar.builder.into_inner()
}

/// What gzip at the default level makes of `data`
/// (`flate2::write::GzEncoder`), or `None` when it fails.
pub uninterp spec fn gzipped(data: Seq<u8>) -> Option<Seq<u8>>;

/// Compresses `data` with gzip at the default level
/// (`flate2::write::GzEncoder` into memory, which cannot fail).
#[verifier::external_body]
fn gzip(data: &[u8]) -> (r: Result<Vec<u8>, std::io::Error>)
    ensures
        r is Ok,
        match r {
            Ok(b) => gzipped(data@) == Some(b@),
            Err(_) => gzipped(data@) is None,
        },
{
    let mut enc = flate2::write::GzEncoder::new(Vec::new(), flate2::Compression::default());
    std::io::Write::write_all(&mut enc, data)?;
    enc.finish()
}

/// The entries of a gzip-compressed tar (`tar::Archive` over a
/// `flate2::read::GzDecoder`), each path as text with its bytes, in archive
/// order; `None` when reading fails.
pub uninterp spec fn tgz_listing(tgz: Seq<u8>) -> Option<Seq<(Seq<char>, Seq<u8>)>>;

/// Reads every entry of a gzip-compressed tar, in archive order.
#[verifier::external_body]
fn untar_gz(tgz: &[u8]) -> (r: Result<Vec<(String, Vec<u8>)>, std::io::Error>)
    ensures
        match r {
            Ok(es) => tgz_listing(tgz@) == Some(entries_view(es@)),
            Err(_) => tgz_listing(tgz@) is None,
        },
{
    let mut ar = tar::Archive::new(flate2::read::GzDecoder::new(tgz));
    let mut out = Vec::new();
    for entry in ar.entries()? {
        let mut e = entry?;
        let name = e.path()?.to_string_lossy().into_owned();
        let mut bytes = Vec::new();
        std::io::Read::read_to_end(&mut e, &mut bytes)?;
        out.push((name, bytes));
    }
    Ok(out)
}

/// Packs the entries, in the order given, into a gzip-compressed tar: the
/// gzip of the tar of exactly these entries, each a regular file under its
/// name. It succeeds whenever every name is one tar reads back unchanged,
/// and then the archive reads back as exactly these entries; a refused name
/// becomes a storage error.
pub fn make_tgz(entries: &[(String, Vec<u8>)]) -> (r: Result<Vec<u8>, DomainError>)
    ensures
        tar_names_ok(entries_view(entries@)) ==> r is Ok,
        r matches Ok(b) ==> gzipped(tar_bytes(entries_view(entries@))) == Some(b@),
        r matches Ok(b) ==> (tar_names_ok(entries_view(entries@)) ==> tgz_listing(b@) == Some(
            entries_view(entries@),
        )),
        r matches Err(e) ==> (e matches DomainError::Repository(m) && has_prefix_chars(m@, "io: "@)),
{
    let mut ar = tar_builder();
    let mut i: usize = 0;
    proof {
        if tar_names_ok(entries_view(entries@)) {
            assert forall|k: int| 0 <= k < entries@.len() implies tar_name_ok(#[trigger] entries@[k].0@) by {
                assert(entries_view(entries@)[k].0 == entries@[k].0@);
            }
        }
        assert(entries@.subrange(0, 0) =~= Seq::<(String, Vec<u8>)>::empty());
    }
    while i < entries.len()
        invariant
            i <= entries@.len(),
            tar_contents(ar) == entries_view(entries@.subrange(0, i as int)),
            tar_names_ok(entries_view(entries@)) ==> forall|k: int|
                0 <= k < entries@.len() ==> tar_name_ok(#[trigger] entries@[k].0@),
        decreases entries@.len() - i,
    {
        let ghost before = tar_contents(ar);
        proof {
            if tar_names_ok(entries_view(entries@)) {
                assert(tar_name_ok(entries_view(entries@)[i as int].0));
            }
        }
        match tar_append(&mut ar, entries[i].0.as_str(), entries[i].1.as_slice()) {
            Ok(()) => {},
            Err(e) => {
                return Err(io_err(e));
            },
        }
        proof {
            assert(entries_view(entries@.subrange(0, i + 1)) =~= before.push(
                (entries@[i as int].0@, entries@[i as int].1@),
            ));
        }
        i = i + 1;
    }
    proof {
        assert(entries@.subrange(0, entries@.len() as int) =~= entries@);
    }
    let tar_bytes = match tar_finish(ar) {
        Ok(b) => b,
        Err(e) => {
            return Err(io_err(e));
        },
    };
    match gzip(tar_bytes.as_slice()) {
        Ok(b) => Ok(b),
        Err(e) => Err(io_err(e)),
    }
}

/// The entries of a snapshot archive, ordered by name as a snapshot is
/// hashed; a read failure becomes a storage error.
pub fn extract(tgz: &[u8]) -> (r: Result<Vec<(String, Vec<u8>)>, DomainError>)
    ensures
        match tgz_listing(tgz@) {
            Some(es) => r matches Ok(v) && entries_view(v@) == sort_named(es),
            None => r matches Err(e) && (e matches DomainError::Repository(m) && has_prefix_chars(m@, "io: "@)),
        },
{
    match untar_gz(tgz) {
        Ok(es) => {
            let sorted = sort_entries(es);
            proof {
                lemma_sort_view(es@);
            }
            Ok(sorted)
        },
        Err(e) => Err(io_err(e)),
    }
}

/// Unpacking gives back what was packed: when [`make_tgz`] packed entries
/// whose names tar reads back unchanged (its archive then lists exactly
/// them), [`extract`] of that archive gives the packed entries ordered by
/// name, every one of them as often as it was packed, and they hash as the
/// packed ones do.
pub proof fn lemma_pack_unpack_round_trip(
    packed: Seq<(String, Vec<u8>)>,
    archive: Seq<u8>,
    unpacked: Seq<(String, Vec<u8>)>,
)
    requires
        tgz_listing(archive) == Some(entries_view(packed)),
        match tgz_listing(archive) {
            Some(es) => entries_view(unpacked) == sort_named(es),
            None => false,
        },
    ensures
        entries_view(unpacked) == sort_named(entries_view(packed)),
        entries_view(unpacked).to_multiset() == entries_view(packed).to_multiset(),
        snapshot_hash(hash_order(entries_view(unpacked))) == snapshot_hash(hash_order(entries_view(packed))),
{
    lemma_sort_named_facts(entries_view(packed));
    lemma_hash_order_independent(entries_view(unpacked), entries_view(packed));
}

} // verus!
