use vstd::prelude::*;

verus! {

/// Whether the path `p` ends with the path `t`, compared component by
/// component (`/x/ADev` does not end with `Dev`; `/x/a/Dev` does).
pub uninterp spec fn ends_with_components(p: Seq<char>, t: Seq<char>) -> bool;

/// Whether the paths `a` and `b` are equal, compared component by component.
pub uninterp spec fn path_equal(a: Seq<char>, b: Seq<char>) -> bool;

/// Relies on `std::path::Path::ends_with`: its answer depends on the two
/// paths alone.
#[verifier::external_body]
pub(crate) fn path_ends_with(p: &str, t: &str) -> (r: bool)
    ensures
        r == ends_with_components(p@, t@),
{
    std::path::Path::new(p).ends_with(t)
}

/// Relies on `PartialEq` for `std::path::Path`: its answer depends on the two
/// paths alone.
#[verifier::external_body]
pub(crate) fn same_path(a: &str, b: &str) -> (r: bool)
    ensures
        r == path_equal(a@, b@),
{
    std::path::Path::new(a) == std::path::Path::new(b)
}

} // verus!
