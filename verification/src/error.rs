use vstd::prelude::*;

verus! {

/// Every failure the library reports.
#[derive(Debug)]
pub enum DomainError {
    /// The input broke a domain invariant.
    Validation(String),
    /// A referenced entity does not exist.
    NotFound { entity: String, id: String },
    /// Two writers disagree (a duplicate key, a diverged snapshot).
    Conflict(String),
    /// Storage failed or holds bad data.
    Repository(String),
}

/// The human-readable text of an error.
pub open spec fn error_text(e: DomainError) -> Seq<char> {
    match e {
        DomainError::Validation(m) => "validation error: "@ + m@,
        DomainError::NotFound { entity, id } => entity@ + " not found: "@ + id@,
        DomainError::Conflict(m) => "conflict: "@ + m@,
        DomainError::Repository(m) => "repository error: "@ + m@,
    }
}

/// `e` is a `Validation` error carrying exactly `msg`.
pub open spec fn is_validation(e: DomainError, msg: Seq<char>) -> bool {
    e matches DomainError::Validation(m) && m@ == msg
}

/// `e` is a `Repository` error carrying exactly `msg`.
pub open spec fn is_repository(e: DomainError, msg: Seq<char>) -> bool {
    e matches DomainError::Repository(m) && m@ == msg
}

/// `e` is a `Conflict` error carrying exactly `msg`.
pub open spec fn is_conflict(e: DomainError, msg: Seq<char>) -> bool {
    e matches DomainError::Conflict(m) && m@ == msg
}

impl DomainError {
    /// The text shown to a user or written to a log.
    pub fn describe(&self) -> (r: String)
        ensures
            r@ == error_text(*self),
    {
        match self {
            DomainError::Validation(m) => "validation error: ".to_owned().concat(m.as_str()),
            DomainError::NotFound { entity, id } => entity.clone().concat(" not found: ").concat(id.as_str()),
            DomainError::Conflict(m) => "conflict: ".to_owned().concat(m.as_str()),
            DomainError::Repository(m) => "repository error: ".to_owned().concat(m.as_str()),
        }
    }
}

/// A persisted row failed re-validation: the database holds bad data.
pub fn corrupt_row(err: DomainError) -> (r: DomainError)
    ensures
        is_repository(r, "corrupt property row: "@ + error_text(err)),
{
    let text = err.describe();
    DomainError::Repository("corrupt property row: ".to_owned().concat(text.as_str()))
}

#[verifier::external_type_specification]
#[verifier::external_body]
pub struct ExIoError(std::io::Error);

/// The `Display` text of an I/O error (`std::io::Error::to_string`). What the
/// text says depends on the operating system's message and is not stated here.
#[verifier::external_body]
fn io_error_text(e: &std::io::Error) -> String {
    e.to_string()
}

/// An I/O failure, reported as a storage error whose text starts `io: `.
pub fn io_err(e: std::io::Error) -> (r: DomainError)
    ensures
        r matches DomainError::Repository(m) && has_prefix_chars(m@, "io: "@),
{
    let text = io_error_text(&e);
    let r = "io: ".to_owned().concat(text.as_str());
    proof {
        reveal_strlit("io: ");
        assert(r@.subrange(0, 4) =~= "io: "@);
    }
    DomainError::Repository(r)
}

/// `p` is a prefix of `s`.
pub open spec fn has_prefix_chars(s: Seq<char>, p: Seq<char>) -> bool {
    p.len() <= s.len() && s.subrange(0, p.len() as int) == p
}

} // verus!
