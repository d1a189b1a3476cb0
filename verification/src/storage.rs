//! The rules the repository applies around its queries: a building may only
//! name a known developer, a missing file is `NotFound`, a duplicate key is a
//! conflict and every other database failure a storage error, where a blob
//! of the file-per-directory era lives, and when that era's import must stop.
use vstd::prelude::*;
use crate::domain::{FileId, PropertyFile, uuid_text};
use crate::error::{DomainError, corrupt_row, is_conflict, is_repository, is_validation};
use crate::series::{TS_MAX, TS_MIN};
use crate::text::{decimal, decimal_string};

verus! {

/// A building may name a developer only when the developer is known;
/// `known` is whether the developers table has it.
pub fn developer_check(developer: &Option<String>, known: bool) -> (r: Result<(), DomainError>)
    ensures
        match developer {
            Some(d) => if known {
                r is Ok
            } else {
                r matches Err(e) && is_validation(e, "unknown developer: "@ + d@)
            },
            None => r is Ok,
        },
{
    match developer {
        Some(d) => {
            if known {
                Ok(())
            } else {
                Err(DomainError::Validation("unknown developer: ".to_owned().concat(d.as_str())))
            }
        },
        None => Ok(()),
    }
}

/// The error for a file id the store does not hold.
pub fn file_not_found(id: FileId) -> (r: DomainError)
    ensures
        r matches DomainError::NotFound { entity, id: t } && entity@ == "file"@ && t@ == uuid_text(id.raw),
{
    DomainError::NotFound { entity: "file".to_owned(), id: id.text() }
}

/// A database failure as the domain reports it: a unique-key violation is an
/// honest conflict; anything else is a storage error carrying the
/// database's text. Never a validation error.
pub fn db_error(unique_violation: bool, text: String) -> (r: DomainError)
    ensures
        unique_violation ==> is_conflict(r, "duplicate primary key"@),
        !unique_violation ==> is_repository(r, text@),
{
    if unique_violation {
        DomainError::Conflict("duplicate primary key".to_owned())
    } else {
        DomainError::Repository(text)
    }
}

/// Where a file's bytes lived in the file-per-directory era, relative to the
/// legacy data directory: the building's UUID, `apt/<n>` for a lot's file,
/// then the file's UUID and name joined by `__`.
pub open spec fn legacy_rel_path(f: PropertyFile) -> Seq<char> {
    uuid_text(f.building_id.raw) + "/"@ + match f.apt {
        Some(n) => "apt/"@ + decimal(n as nat) + "/"@,
        None => Seq::empty(),
    } + uuid_text(f.id.raw) + "__"@ + f.filename@
}

/// The legacy location of a file's bytes, relative to the data directory.
pub fn legacy_file_path(f: &PropertyFile) -> (r: String)
    ensures
        r@ == legacy_rel_path(*f),
{
    let mut p = f.building_id.text().concat("/");
    match f.apt {
        Some(n) => {
            let num = decimal_string(n as u64);
            p = p.concat("apt/").concat(num.as_str()).concat("/");
        },
        None => {},
    }
    let file = f.id.text();
    let r = p.concat(file.as_str()).concat("__").concat(f.filename.as_str());
    proof {
        match f.apt {
            Some(n) => {
                assert(r@ =~= legacy_rel_path(*f));
            },
            None => {
                assert(r@ =~= legacy_rel_path(*f));
            },
        }
    }
    r
}

/// The refusal when blob rows still wait for bytes whose legacy directory is
/// gone: those bytes are lost until the directory is restored.
pub open spec fn legacy_gone_text(pending: nat, data_dir: Seq<char>) -> Seq<char> {
    decimal(pending) + " property_files rows have no content and the legacy data dir "@ + data_dir
        + " is gone — restore it and reboot"@
}

/// Whether the legacy import has work to do: when neither the legacy data
/// directory nor the legacy layout file exists, there is nothing to import,
/// unless rows still wait for their bytes, which is an error.
pub fn legacy_import_needed(legacy_present: bool, pending: usize, data_dir: &str) -> (r: Result<bool, DomainError>)
    ensures
        legacy_present ==> r == Ok::<bool, DomainError>(true),
        !legacy_present && pending == 0 ==> r == Ok::<bool, DomainError>(false),
        !legacy_present && pending > 0 ==> (r matches Err(e) && is_repository(
            e,
            legacy_gone_text(pending as nat, data_dir@),
        )),
{
    if legacy_present {
        return Ok(true);
    }
    if pending == 0 {
        return Ok(false);
    }
    let n = decimal_string(pending as u64);
    Err(
        DomainError::Repository(
            n.concat(" property_files rows have no content and the legacy data dir ").concat(data_dir).concat(
                " is gone — restore it and reboot",
            ),
        ),
    )
}

/// What `str::parse::<jiff::Timestamp>` makes of `text`, as whole Unix
/// seconds, or the error's text.
pub uninterp spec fn parsed_timestamp(text: Seq<char>) -> Result<i64, Seq<char>>;

/// Parses an RFC 3339 instant (`jiff::Timestamp`'s `FromStr`) to its whole
/// Unix seconds (`as_second`), which lie in the range a timestamp holds.
#[verifier::external_body]
fn parse_timestamp(text: &str) -> (r: Result<i64, String>)
    ensures
        match r {
            Ok(s) => parsed_timestamp(text@) == Ok::<i64, Seq<char>>(s) && TS_MIN <= s <= TS_MAX,
            Err(m) => parsed_timestamp(text@) == Err::<i64, Seq<char>>(m@),
        },
{
    match text.parse::<jiff::Timestamp>() {
        Ok(t) => Ok(t.as_second()),
        Err(e) => Err(e.to_string()),
    }
}

/// Reads the instant a cached place was fetched at, as stored; text that is
/// not an instant means the row is corrupt.
pub fn cache_fetched_at(text: &str) -> (r: Result<i64, DomainError>)
    ensures
        match parsed_timestamp(text@) {
            Ok(s) => r == Ok::<i64, DomainError>(s),
            Err(m) => r matches Err(e) && is_repository(
                e,
                "corrupt property row: "@ + "repository error: "@ + "place_cache fetched_at: "@ + m,
            ),
        },
{
    match parse_timestamp(text) {
        Ok(s) => Ok(s),
        Err(m) => {
            let inner = DomainError::Repository("place_cache fetched_at: ".to_owned().concat(m.as_str()));
            let e = corrupt_row(inner);
            proof {
                assert("corrupt property row: "@ + ("repository error: "@ + ("place_cache fetched_at: "@ + m@))
                    =~= "corrupt property row: "@ + "repository error: "@ + "place_cache fetched_at: "@ + m@);
            }
            Err(e)
        },
    }
}

} // verus!
