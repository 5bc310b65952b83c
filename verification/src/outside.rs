//! Calls into the `url` crate and into `std::path`. What is claimed of them is
//! believed, not proved.

use crate::location::is_http;
use vstd::prelude::*;

verus! {

/// What parsing a text as an absolute URL gives: the serialization of the URL,
/// or the message of the parse error.
pub uninterp spec fn parsed_url(text: Seq<char>) -> Result<Seq<char>, Seq<char>>;

/// What resolving a reference against a base URL, given by its serialization,
/// gives: the serialization of the URL, or the message of the parse error.
pub uninterp spec fn joined_url(base: Seq<char>, reference: Seq<char>) -> Result<
    Seq<char>,
    Seq<char>,
>;

/// A path without its last component, where it has one.
pub uninterp spec fn parent_of(path: Seq<char>) -> Option<Seq<char>>;

/// A path extended by another one.
pub uninterp spec fn joined_path(base: Seq<char>, path: Seq<char>) -> Seq<char>;

/// The last component of a path, where that is the name of a file or a directory.
pub uninterp spec fn file_name_of(path: Seq<char>) -> Option<Seq<char>>;

/// A path whose last component is replaced by a name.
pub uninterp spec fn renamed_path(path: Seq<char>, name: Seq<char>) -> Seq<char>;

/// Whether a character has a meaning of its own in the paths of some platform.
pub open spec fn separates(c: char) -> bool {
    c == '/' || c == '\\' || c == ':'
}

/// Whether a text is a file name on every platform: it is neither empty nor one of
/// the two names that stand for directories, and no character separates its parts.
pub open spec fn is_ordinary(name: Seq<char>) -> bool {
    &&& name.len() > 0
    &&& name != "."@
    &&& name != ".."@
    &&& forall|k: int| 0 <= k < name.len() ==> !separates(#[trigger] name[k])
}

/// The value of a fallible text in contracts.
pub open spec fn text_outcome(outcome: Result<String, String>) -> Result<Seq<char>, Seq<char>> {
    match outcome {
        Ok(text) => Ok(text@),
        Err(message) => Err(message@),
    }
}

/// The value of an optional text in contracts.
pub open spec fn text_view(text: Option<String>) -> Option<Seq<char>> {
    match text {
        Some(text) => Some(text@),
        None => None,
    }
}

/// Calls `url::Url::parse`. Claims that the serialization of the URL, or the
/// message of the error, is a function of the text.
#[verifier::external_body]
pub(crate) fn parse_url(text: &str) -> (parsed: Result<String, String>)
    ensures
        text_outcome(parsed) == parsed_url(text@),
{
    match url::Url::parse(text) {
        Ok(url) => Ok(String::from(url)),
        Err(error) => Err(error.to_string()),
    }
}

/// Calls `url::Url::join` on the URL that `base` is the serialization of. Claims
/// that the serialization of the result, or the message of the error, is a
/// function of the two texts, and that an HTTP or HTTPS URL with its two slashes
/// gives what [`parse_url`] gives, whatever the base. The `Url` of the base is
/// parsed from its serialization again; a base that is no URL fails there.
#[verifier::external_body]
pub(crate) fn join_url(base: &str, reference: &str) -> (joined: Result<String, String>)
    ensures
        text_outcome(joined) == joined_url(base@, reference@),
        parsed_url(base@) is Ok && is_http(reference@) ==> text_outcome(joined) == parsed_url(
            reference@,
        ),
{
    match url::Url::parse(base) {
        Ok(base) => match base.join(reference) {
            Ok(url) => Ok(String::from(url)),
            Err(error) => Err(error.to_string()),
        },
        Err(error) => Err(error.to_string()),
    }
}

/// Calls `std::path::Path::parent`. Claims that the result is a function of the
/// path, by the path syntax of the platform that the crate is built for.
#[verifier::external_body]
pub(crate) fn path_parent(path: &str) -> (parent: Option<String>)
    ensures
        text_view(parent) == parent_of(path@),
{
    match std::path::Path::new(path).parent() {
        Some(parent) => Some(parent.to_string_lossy().into_owned()),
        None => None,
    }
}

/// Calls `std::path::Path::join`. Claims that the result is a function of the two
/// paths, by the path syntax of the platform that the crate is built for.
#[verifier::external_body]
pub(crate) fn path_join(base: &str, path: &str) -> (joined: String)
    ensures
        joined@ == joined_path(base@, path@),
{
    std::path::Path::new(base).join(path).to_string_lossy().into_owned()
}

/// Calls `std::path::Path::file_name`. Claims that the result is a function of
/// the path, by the path syntax of the platform that the crate is built for.
#[verifier::external_body]
pub(crate) fn path_file_name(path: &str) -> (name: Option<String>)
    ensures
        text_view(name) == file_name_of(path@),
{
    match std::path::Path::new(path).file_name() {
        Some(name) => Some(name.to_string_lossy().into_owned()),
        None => None,
    }
}

/// Calls `std::path::PathBuf::set_file_name`. Claims that the path after the call
/// is a function of the path before it and the name, by the path syntax of the
/// platform that the crate is built for. Of a name that is a file name by itself,
/// or an ordinary one, it claims that it is the file name of the path afterwards, and
/// that a path that had a file name keeps its parent.
#[verifier::external_body]
pub(crate) fn path_set_file_name(path: &str, name: &str) -> (renamed: String)
    ensures
        renamed@ == renamed_path(path@, name@),
        is_ordinary(name@) || file_name_of(name@) == Some(name@) ==> {
            &&& file_name_of(renamed@) == Some(name@)
            &&& file_name_of(path@) is Some ==> parent_of(renamed@) == parent_of(path@)
        },
{
    let mut renamed = std::path::PathBuf::from(path);
    renamed.set_file_name(name);
    renamed.to_string_lossy().into_owned()
}

} // verus!
