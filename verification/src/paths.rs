//! Paths as text.
use crate::copying::opt_text;
use crate::split::split_on;
use crate::text::{chars_of, string_of};
use vstd::prelude::*;

verus! {

/// The last component of a path.
pub uninterp spec fn path_file_name(path: Seq<char>) -> Option<Seq<char>>;

/// A path without its last component.
pub uninterp spec fn path_parent(path: Seq<char>) -> Option<Seq<char>>;

/// A path that is written without doubled or final slashes and without `.` components:
/// its pieces between slashes are its components, but for the empty one before the root.
pub open spec fn plainly_written(path: Seq<char>) -> bool {
    let parts = split_on(path, '/');
    &&& path.len() > 0
    &&& forall|i: int| 1 <= i < parts.len() ==> (#[trigger] parts[i]).len() > 0
    &&& forall|i: int| 0 <= i < parts.len() ==> #[trigger] parts[i] != seq!['.']
}

/// The last component of a plainly written path, if it names something.
pub open spec fn plain_file_name(path: Seq<char>) -> Option<Seq<char>> {
    let last = split_on(path, '/').last();
    if last == seq!['.', '.'] {
        None
    } else {
        Some(last)
    }
}

/// A plainly written path without its last component: nothing is left of a relative path
/// of one component, and the root of an absolute one.
pub open spec fn plain_parent(path: Seq<char>) -> Seq<char> {
    let parts = split_on(path, '/');
    if parts.len() == 1 {
        Seq::empty()
    } else if parts.len() == 2 && parts[0].len() == 0 {
        seq!['/']
    } else {
        path.take(path.len() - parts.last().len() - 1)
    }
}

/// `std::path::Path::file_name` on Unix: the final component of the path, and none where
/// it ends in `..`, for the root, and for the empty path. It depends on the path's text
/// alone. How paths that are not plainly written are taken apart is left unsaid.
#[verifier::external_body]
pub(crate) fn file_name_of(path: &str) -> (r: Option<String>)
    ensures
        opt_text(r) == path_file_name(path@),
        plainly_written(path@) ==> opt_text(r) == plain_file_name(path@),
        path@.len() == 0 || path@ == seq!['/'] ==> r is None,
{
    std::path::Path::new(path).file_name().map(|n| n.to_string_lossy().into_owned())
}

/// `std::path::Path::parent` on Unix: the path without its final component, and none for
/// the root and the empty path. It depends on the path's text alone. What is left of
/// paths that are not plainly written is left unsaid.
#[verifier::external_body]
pub(crate) fn parent_of(path: &str) -> (r: Option<String>)
    ensures
        opt_text(r) == path_parent(path@),
        plainly_written(path@) ==> opt_text(r) == Some(plain_parent(path@)),
        path@.len() == 0 || path@ == seq!['/'] ==> r is None,
{
    std::path::Path::new(path).parent().map(|p| p.to_string_lossy().into_owned())
}

/// The relative path `name` below `dir`.
pub open spec fn joined(dir: Seq<char>, name: Seq<char>) -> Seq<char> {
    if dir.len() == 0 || dir.last() == '/' {
        dir + name
    } else {
        dir.push('/') + name
    }
}

/// The relative path `name` below `dir`.
pub fn join(dir: &str, name: &str) -> (r: String)
    ensures
        r@ == joined(dir@, name@),
{
    let mut out = chars_of(dir);
    if out.len() > 0 && out[out.len() - 1] != '/' {
        out.push('/');
    }
    out.append(&mut chars_of(name));
    proof { assert(out@ =~= joined(dir@, name@)); }
    string_of(&out)
}

/// Whether a path starts at the root.
pub open spec fn path_is_absolute(path: Seq<char>) -> bool {
    path.len() > 0 && path[0] == '/'
}

/// Whether a path starts at the root.
pub fn absolute(path: &str) -> (r: bool)
    ensures
        r == path_is_absolute(path@),
{
    let chars = chars_of(path);
    chars.len() > 0 && chars[0] == '/'
}

} // verus!
