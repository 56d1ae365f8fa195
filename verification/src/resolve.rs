//! Resolution of link and image references to URLs.

use vstd::prelude::*;

verus! {

/// What resolving `reference` against `base_dir` yields: the reference
/// parsed as a URL if it is one; otherwise the reference joined onto
/// `base_dir` as a `file://` URL; otherwise nothing.  The result is a
/// function of the two strings alone.
pub uninterp spec fn resolved_reference(base_dir: Seq<char>, reference: Seq<char>) -> Option<
    Seq<char>,
>;

/// Relies on `url::Url::parse` and `url::Url::from_file_path`: parses the
/// reference as a URL, falling back to a `file://` URL for the reference
/// joined onto the base directory, and renders the parsed URL back to a
/// string.
#[verifier::external_body]
pub fn resolve_reference(base_dir: &str, reference: &str) -> (r: Option<String>)
    ensures
        r matches Some(url) ==> resolved_reference(base_dir@, reference@) == Some(url@),
        r is None ==> resolved_reference(base_dir@, reference@) is None,
{
    let parsed = url::Url::parse(reference)
        .or_else(|_| url::Url::from_file_path(std::path::Path::new(base_dir).join(reference)))
        .ok()?;
    Some(String::from(parsed))
}

} // verus!
