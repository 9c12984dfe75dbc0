//! Paths as requests name them: which are acceptable, and how a path on
//! disk is shown to a client.

use vstd::prelude::*;
use crate::text::{has_prefix, starts_with, joined};

verus! {

/// The kinds of component a path is made of.
#[derive(Clone, Copy, Debug, PartialEq, Eq, Structural)]
pub enum PathPart {
    /// A drive or share prefix.
    Prefix,
    /// The root directory.
    RootDir,
    /// A reference to the current directory, `.`.
    CurDir,
    /// A reference to the parent directory, `..`.
    ParentDir,
    /// An ordinary name.
    Normal,
}

/// Why a request is turned down.
#[derive(Clone, Copy, Debug, PartialEq, Eq, Structural)]
pub enum RequestError {
    /// The request itself is not acceptable.
    BadRequest,
    /// What the request names does not exist.
    NotFound,
    /// The server could not do its part.
    Internal,
}

impl RequestError {
    /// The HTTP status code that reports the error.
    pub fn status(&self) -> (code: u16)
        ensures
            code == match *self {
                RequestError::BadRequest => 400u16,
                RequestError::NotFound => 404u16,
                RequestError::Internal => 500u16,
            },
    {
        match self {
            RequestError::BadRequest => 400,
            RequestError::NotFound => 404,
            RequestError::Internal => 500,
        }
    }
}

/// The kinds of the components of a path, in order, as the path library
/// splits the text on the platform the library is built for.
pub uninterp spec fn parts_of(p: Seq<char>) -> Seq<PathPart>;

/// What is left of `path` once the leading `base` is taken off, as the
/// path library does it; `None` where `path` does not start with the
/// components of `base`.
pub uninterp spec fn stripped(path: Seq<char>, base: Seq<char>) -> Option<Seq<char>>;

/// Whether the path library takes `path` for an absolute path.
pub uninterp spec fn absolute(path: Seq<char>) -> bool;

/// The last component of `path` where that is an ordinary name, as the
/// path library finds it.
pub uninterp spec fn last_name(path: Seq<char>) -> Option<Seq<char>>;

/// The view of an optional text.
pub open spec fn text_of(s: Option<String>) -> Option<Seq<char>> {
    match s {
        Some(t) => Some(t@),
        None => None,
    }
}

/// Calls `camino::Utf8Path::components`: the kinds of the components of
/// `p`, in order. They depend on the characters of `p` alone.
#[verifier::external_body]
pub(crate) fn path_parts(p: &str) -> (parts: Vec<PathPart>)
    ensures
        parts@ == parts_of(p@),
{
    camino::Utf8Path::new(p).components().map(
        |c|
            match c {
                camino::Utf8Component::Prefix(_) => PathPart::Prefix,
                camino::Utf8Component::RootDir => PathPart::RootDir,
                camino::Utf8Component::CurDir => PathPart::CurDir,
                camino::Utf8Component::ParentDir => PathPart::ParentDir,
                camino::Utf8Component::Normal(_) => PathPart::Normal,
            },
    ).collect()
}

/// Calls `camino::Utf8Path::strip_prefix`: `path` without the leading
/// `base`, or `None` where `path` does not start with the components of
/// `base`. The result depends on the characters of the two texts alone.
#[verifier::external_body]
pub(crate) fn strip_base(path: &str, base: &str) -> (r: Option<String>)
    ensures
        text_of(r) == stripped(path@, base@),
{
    camino::Utf8Path::new(path).strip_prefix(base).ok().map(|rest| rest.to_string())
}

/// Calls `camino::Utf8Path::is_absolute`: whether `path` is absolute, which
/// depends on the characters of `path` alone.
#[verifier::external_body]
pub(crate) fn is_absolute(path: &str) -> (r: bool)
    ensures
        r == absolute(path@),
{
    camino::Utf8Path::new(path).is_absolute()
}

/// Calls `camino::Utf8Path::file_name`: the last component of `path`, where
/// it is an ordinary name. It depends on the characters of `path` alone.
#[verifier::external_body]
pub(crate) fn file_name(path: &str) -> (r: Option<String>)
    ensures
        text_of(r) == last_name(path@),
{
    camino::Utf8Path::new(path).file_name().map(|name| name.to_owned())
}

/// Every component is an ordinary name.
pub open spec fn all_normal(parts: Seq<PathPart>) -> bool {
    forall|i: int| 0 <= i < parts.len() ==> parts[i] == PathPart::Normal
}

/// Accepts a path made of ordinary names only: a path with a prefix, a
/// root, `.` or `..` among its components is a bad request.
pub fn check_components(parts: &Vec<PathPart>) -> (r: Result<(), RequestError>)
    ensures
        all_normal(parts@) ==> r == Ok::<(), RequestError>(()),
        !all_normal(parts@) ==> r == Err::<(), RequestError>(RequestError::BadRequest),
{
    let mut i: usize = 0;
    while i < parts.len()
        invariant
            i <= parts.len(),
            forall|j: int| 0 <= j < i ==> parts@[j] == PathPart::Normal,
        decreases parts.len() - i,
    {
        match parts[i] {
            PathPart::Normal => {},
            _ => {
                return Err(RequestError::BadRequest);
            },
        }
        i += 1;
    }
    Ok(())
}

/// Accepts the path of a request where all its components are ordinary
/// names; any other path is a bad request.
pub fn check_path(p: &str) -> (r: Result<(), RequestError>)
    ensures
        all_normal(parts_of(p@)) ==> r == Ok::<(), RequestError>(()),
        !all_normal(parts_of(p@)) ==> r == Err::<(), RequestError>(RequestError::BadRequest),
{
    let parts = path_parts(p);
    check_components(&parts)
}

/// Whether an image is named by a web address.
pub open spec fn is_web_address(s: Seq<char>) -> bool {
    has_prefix(s, "http://"@) || has_prefix(s, "https://"@)
}

/// Where files of the recipe directory are served.
pub open spec fn static_root() -> Seq<char> {
    "/api/static/"@
}

/// The address under which a client finds the title image `image`. A web
/// address stands for itself. A file is served under the static root: by
/// its path relative to the recipe directory where it lies in it
/// (`relative`), by its path as given where that is not absolute, and else
/// by its file name, if it has one.
pub open spec fn image_address(
    image: Seq<char>,
    relative: Option<Seq<char>>,
    absolute: bool,
    name: Option<Seq<char>>,
) -> Option<Seq<char>> {
    if is_web_address(image) {
        Some(image)
    } else {
        match relative {
            Some(rest) => Some(static_root() + rest),
            None => if !absolute {
                Some(static_root() + image)
            } else {
                match name {
                    Some(n) => Some(static_root() + n),
                    None => None,
                }
            },
        }
    }
}

/// Whether two optional texts agree.
pub open spec fn same_text(r: Option<String>, m: Option<Seq<char>>) -> bool {
    match (r, m) {
        (Some(s), Some(t)) => s@ == t,
        (None, None) => true,
        _ => false,
    }
}

/// The address under which a client finds the title image `image`, given
/// what the path library says of it: its path relative to the recipe
/// directory, whether it is absolute, and its file name.
pub fn image_address_from(
    image: &str,
    relative: Option<String>,
    absolute: bool,
    name: Option<String>,
) -> (r: Option<String>)
    ensures
        same_text(r, image_address(image@, text_of(relative), absolute, text_of(name))),
{
    if starts_with(image, "http://") || starts_with(image, "https://") {
        return Some(image.to_owned());
    }
    match relative {
        Some(rest) => Some(joined("/api/static/", rest.as_str())),
        None => {
            if !absolute {
                Some(joined("/api/static/", image))
            } else {
                match name {
                    Some(n) => Some(joined("/api/static/", n.as_str())),
                    None => None,
                }
            }
        },
    }
}

/// The address under which a client finds the title image `image` of a
/// recipe in the directory `base`.
pub fn image_url(image: &str, base: &str) -> (r: Option<String>)
    ensures
        same_text(
            r,
            image_address(image@, stripped(image@, base@), absolute(image@), last_name(image@)),
        ),
{
    let relative = strip_base(image, base);
    let absolute = is_absolute(image);
    let name = file_name(image);
    image_address_from(image, relative, absolute, name)
}

/// The path shown for a recipe found at `path`: the path relative to the
/// recipe directory where there is one, else the path as it is.
pub fn shown_path_from(path: &str, relative: Option<String>) -> (r: String)
    ensures
        r@ == match relative {
            Some(rest) => rest@,
            None => path@,
        },
{
    match relative {
        Some(rest) => rest,
        None => path.to_owned(),
    }
}

/// The path shown for a recipe found at `path` in the directory `base`.
pub fn shown_path(path: &str, base: &str) -> (r: String)
    ensures
        r@ == match stripped(path@, base@) {
            Some(rest) => rest,
            None => path@,
        },
{
    let relative = strip_base(path, base);
    shown_path_from(path, relative)
}

/// The aisle file to use: the one of the recipe directory where it exists,
/// else the one of the user's configuration where that exists.
pub fn choose_aisle_file(local: String, local_exists: bool, global: Option<String>, global_exists: bool)
    -> (r: Option<String>)
    ensures
        r == if local_exists {
            Some(local)
        } else if global_exists {
            global
        } else {
            None
        },
{
    if local_exists {
        Some(local)
    } else if global_exists {
        global
    } else {
        None
    }
}

} // verus!
