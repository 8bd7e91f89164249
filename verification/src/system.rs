//! The clock and file-system paths, as the standard library provides them.
use std::path::PathBuf;
use std::time::Instant;
use vstd::prelude::*;

verus! {

/// A point in time of the monotonic clock.
#[verifier::external_type_specification]
#[verifier::external_body]
pub struct ExInstant(Instant);

/// An owned file-system path.
#[verifier::external_type_specification]
#[verifier::external_body]
pub struct ExPathBuf(PathBuf);

/// The current time. Trusted: `Instant::now` reads the monotonic clock; nothing is
/// promised about the value.
#[verifier::external_body]
pub(crate) fn now() -> Instant {
    Instant::now()
}

/// Nanoseconds since `start`. Trusted: `Instant::elapsed` followed by
/// `Duration::as_nanos`; the value depends on the clock, so nothing is promised about it.
#[verifier::external_body]
pub(crate) fn nanos_since(start: &Instant) -> u128 {
    start.elapsed().as_nanos()
}

/// The platform's path separator. Trusted: `std::path::MAIN_SEPARATOR`, which depends on
/// the target platform, so nothing is promised about it.
#[verifier::external_body]
pub(crate) fn main_separator() -> char {
    std::path::MAIN_SEPARATOR
}

/// The path made of the given text, as `PathBuf::from` builds it; it depends on the
/// text alone.
pub uninterp spec fn path_of(text: Seq<char>) -> PathBuf;

/// A path made of the given text. Trusted: `PathBuf::from` returns the path named
/// [`path_of`] of the text; what that path holds is not stated here.
#[verifier::external_body]
pub(crate) fn path_from(s: String) -> (r: PathBuf)
    ensures
        r == path_of(s@),
{
    PathBuf::from(s)
}

/// The path `root` extended by the relative path `rel`, as `Path::join` builds it; it
/// depends on the two paths alone.
pub uninterp spec fn joined_path(root: PathBuf, rel: Seq<char>) -> PathBuf;

/// `root` extended by `rel`. Trusted: `Path::join` returns the path named
/// [`joined_path`] of the two arguments; what that path holds is not stated here.
#[verifier::external_body]
pub(crate) fn path_join(root: &PathBuf, rel: &str) -> (r: PathBuf)
    ensures
        r == joined_path(*root, rel@),
{
    root.join(rel)
}

/// A copy of a path. Trusted: `PathBuf::clone` returns an equal path.
pub assume_specification[ <PathBuf as Clone>::clone ](p: &PathBuf) -> (r: PathBuf)
    ensures
        r == *p,
;

/// The text a path is shown as, as `Path::display` renders it; it depends on the path
/// alone.
pub uninterp spec fn path_shown(p: PathBuf) -> Seq<char>;

/// How a path is shown to the user. Trusted: `Path::display` rendered to a `String`
/// gives the text named [`path_shown`] of the path; what that text is is not stated here.
#[verifier::external_body]
pub(crate) fn path_text(p: &PathBuf) -> (r: String)
    ensures
        r@ == path_shown(*p),
{
    p.display().to_string()
}

} // verus!
