//! The parts of `std::path` the library reads paths with. Paths are held as
//! strings; each function below hands one to `std::path::Path` and takes the
//! answer back as a string.
use vstd::prelude::*;

verus! {

/// The result of `Path::extension` on a path, for the target platform.
pub uninterp spec fn path_extension(p: Seq<char>) -> Option<Seq<char>>;

/// The result of `Path::file_stem` on a path, for the target platform.
pub uninterp spec fn path_file_stem(p: Seq<char>) -> Option<Seq<char>>;

/// The result of `Path::parent` on a path, for the target platform.
pub uninterp spec fn path_parent(p: Seq<char>) -> Option<Seq<char>>;

/// The result of `Path::file_name` on a path, for the target platform.
pub uninterp spec fn path_file_name(p: Seq<char>) -> Option<Seq<char>>;

/// The result of `Path::join` of two paths, for the target platform.
pub uninterp spec fn path_join(base: Seq<char>, child: Seq<char>) -> Seq<char>;

pub open spec fn opt_view(o: Option<String>) -> Option<Seq<char>> {
    match o {
        Some(s) => Some(s@),
        None => None,
    }
}

/// `Path::extension`: the part of the file name after its last `.`. The
/// contract names the result and claims nothing of how it is computed.
#[verifier::external_body]
pub(crate) fn extension(p: &str) -> (r: Option<String>)
    ensures
        opt_view(r) == path_extension(p@),
{
    std::path::Path::new(p).extension().map(|e| e.to_string_lossy().into_owned())
}

/// `Path::file_stem`: the file name without its extension. The contract
/// names the result and claims nothing of how it is computed.
#[verifier::external_body]
pub(crate) fn file_stem(p: &str) -> (r: Option<String>)
    ensures
        opt_view(r) == path_file_stem(p@),
{
    std::path::Path::new(p).file_stem().map(|e| e.to_string_lossy().into_owned())
}

/// `Path::parent`: the path without its final component. The contract names
/// the result and claims nothing of how it is computed.
#[verifier::external_body]
pub(crate) fn parent(p: &str) -> (r: Option<String>)
    ensures
        opt_view(r) == path_parent(p@),
{
    std::path::Path::new(p).parent().map(|e| e.to_string_lossy().into_owned())
}

/// `Path::file_name`: the final component of the path, if it names a
/// file. The contract names the result and claims nothing of how it is
/// computed.
#[verifier::external_body]
pub(crate) fn file_name(p: &str) -> (r: Option<String>)
    ensures
        opt_view(r) == path_file_name(p@),
{
    std::path::Path::new(p).file_name().map(|e| e.to_string_lossy().into_owned())
}

/// `Path::join`: `child` appended to `base` with a separator. The contract
/// names the result and claims nothing of how it is computed.
#[verifier::external_body]
pub(crate) fn join(base: &str, child: &str) -> (r: String)
    ensures
        r@ == path_join(base@, child@),
{
    std::path::Path::new(base).join(child).to_string_lossy().into_owned()
}

/// Whether one path comes at or before another in the order of
/// `std::path::Path` (component by component), for the target platform.
pub uninterp spec fn path_le(a: Seq<char>, b: Seq<char>) -> bool;

/// `Path <= Path`: the paths compared component by component. The contract
/// names the result and claims nothing of how it is computed.
#[verifier::external_body]
pub(crate) fn path_le_exec(a: &str, b: &str) -> (r: bool)
    ensures
        r == path_le(a@, b@),
{
    std::path::Path::new(a) <= std::path::Path::new(b)
}

/// The result of `==` on two `std::path::Path` values (component by
/// component), for the target platform.
pub uninterp spec fn std_path_eq(a: Seq<char>, b: Seq<char>) -> bool;

/// Whether two paths are equal as paths: the same text always is, and
/// otherwise `Path`'s `==` decides.
pub open spec fn path_equal(a: Seq<char>, b: Seq<char>) -> bool {
    a == b || std_path_eq(a, b)
}

/// `Path == Path`: the paths compared component by component. The contract
/// names the result, and states that a path equals itself (`Path`'s `==`
/// is an equivalence: `Path` implements `Eq`).
#[verifier::external_body]
pub(crate) fn path_eq_exec(a: &str, b: &str) -> (r: bool)
    ensures
        r == std_path_eq(a@, b@),
        a@ == b@ ==> r,
{
    std::path::Path::new(a) == std::path::Path::new(b)
}

} // verus!
