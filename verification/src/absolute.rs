//! Operations on absolute paths as texts, as `camino` and `path-absolutize`
//! give them on Unix, which the crate is built for. What joining two paths
//! gives is stated; the parent of a path and the absolute form of a path
//! are named, not restated.

use vstd::prelude::*;
use camino::Utf8Path;
use camino::Utf8PathBuf;
use path_absolutize::Absolutize;
use crate::text::optional_text;

verus! {

/// What `camino::Utf8Path::parent` returns for a path: the path without its
/// last component, or nothing where it ends in a root or is empty.
pub uninterp spec fn parent_of(path: Seq<char>) -> Option<Seq<char>>;

/// What `path_absolutize::Absolutize::absolutize_from` returns for a path
/// and the directory from which it is read: the path made absolute and
/// freed of `.` and `..`, without a look at the file system. It is `Err`,
/// with the invalid parts replaced, where the outcome is not valid UTF-8.
pub uninterp spec fn absolutized(path: Seq<char>, dir: Seq<char>) -> Result<Seq<char>, Seq<char>>;

/// A directory and a path read from it as one path, on Unix: the path
/// itself where it starts at the root; else the directory, a `/` unless the
/// directory is empty or ends in one, and the path.
pub open spec fn joined_path(dir: Seq<char>, path: Seq<char>) -> Seq<char> {
    if path.len() > 0 && path[0] == '/' {
        path
    } else if dir.len() > 0 && dir.last() != '/' {
        dir + seq!['/'] + path
    } else {
        dir + path
    }
}

/// The view of a text, or of what stands in its place where it is not valid.
pub open spec fn text_or_lossy(r: Result<String, String>) -> Result<Seq<char>, Seq<char>> {
    match r {
        Ok(text) => Ok(text@),
        Err(lossy) => Err(lossy@),
    }
}

/// `camino::Utf8Path::parent`: a function of the path's text alone.
#[verifier::external_body]
pub(crate) fn path_parent(path: &str) -> (r: Option<String>)
    ensures
        parent_of(path@) == optional_text(r),
{
    match Utf8Path::new(path).parent() {
        Some(dir) => Some(dir.as_str().to_owned()),
        None => None,
    }
}

/// `path_absolutize::Absolutize::absolutize_from`, on a path and a directory
/// given as texts: a function of the two texts alone, which reads neither the
/// working directory nor the file system. The outcome is turned into text with
/// `camino::Utf8PathBuf::try_from`, which refuses what is not valid UTF-8.
#[verifier::external_body]
pub(crate) fn absolutize_from(path: &str, dir: &str) -> (r: Result<String, String>)
    ensures
        absolutized(path@, dir@) == text_or_lossy(r),
{
    let absolute = Utf8Path::new(path).as_std_path().absolutize_from(
        Utf8Path::new(dir).as_std_path(),
    );
    match Utf8PathBuf::try_from(absolute.into_owned()) {
        Ok(absolute) => Ok(absolute.into_string()),
        Err(e) => Err(e.as_path().to_string_lossy().into_owned()),
    }
}

/// `camino::Utf8Path::join`, which is `std::path::Path::join` on the two
/// texts: on Unix an absolute path replaces the directory, and a relative
/// one is put behind it, with a separator where the directory lacks one.
#[verifier::external_body]
pub(crate) fn path_join(dir: &str, path: &str) -> (r: String)
    ensures
        r@ == joined_path(dir@, path@),
{
    Utf8Path::new(dir).join(path).into_string()
}

} // verus!
