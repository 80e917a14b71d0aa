//! Names of files and directories.
//!
//! The name of a path is its final component as `std::path` finds it. What
//! parts one component from the next depends on the platform, so the library
//! takes the name as it comes and only refuses what can name nothing.

use std::path::Path;
use vstd::prelude::*;

verus! {

/// Whether `name` can name a file or a directory: it is not empty, and it is
/// neither `.` nor `..`, which stand for a directory and its parent.
pub open spec fn is_plain_name(name: Seq<char>) -> bool {
    name.len() > 0 && name != "."@ && name != ".."@
}

/// The marker that the name of a mod file ends in.
pub open spec fn mod_extension() -> Seq<char> {
    seq!['.', 'j', 'a', 'r']
}

/// Whether `name` ends in the marker of a mod file.
pub open spec fn has_mod_extension(name: Seq<char>) -> bool {
    name.len() >= 4 && name.subrange(name.len() - 4, name.len() as int) == mod_extension()
}

/// What was found as a name, where it can name a file or a directory, and
/// nothing where it cannot.
pub open spec fn plain(found: Option<String>) -> Option<String> {
    match found {
        Some(name) if is_plain_name(name@) => found,
        _ => None,
    }
}

/// `Path::file_name`, with the component given as text: the final component
/// of `path`, and nothing where the path has none. Which characters part the
/// components depends on the platform, so nothing is claimed of the result.
#[verifier::external_body]
fn final_component(path: &str) -> (found: Option<String>) {
    match Path::new(path).file_name() {
        Some(component) => match component.to_str() {
            Some(text) => Some(text.to_owned()),
            None => None,
        },
        None => None,
    }
}

/// Keeps a name that can name a file or a directory, and refuses any other.
pub fn plain_name(found: Option<String>) -> (name: Option<String>)
    ensures
        name == plain(found),
{
    match found {
        Some(text) => {
            if text.as_str().is_empty() || text == ".".to_owned() || text == "..".to_owned() {
                None
            } else {
                Some(text)
            }
        },
        None => None,
    }
}

/// The name of a directory or file: the final component of its path, as the
/// platform's rules for paths give it. `None` where the path has no final
/// component, as the empty path, a root, and a path that ends in `..`.
pub fn get_name_of_dir_or_file(path: &str) -> (name: Option<String>)
    ensures
        name is Some ==> is_plain_name(name.unwrap()@),
{
    plain_name(final_component(path))
}

/// Whether `name` is the name of a mod file: whether it ends in `.jar`.
pub fn is_mod_file_name(name: &str) -> (is_mod: bool)
    ensures
        is_mod == has_mod_extension(name@),
{
    let len: usize = name.unicode_len();
    if len < 4 {
        return false;
    }
    let is_mod = name.get_char(len - 4) == '.' && name.get_char(len - 3) == 'j' && name.get_char(
        len - 2,
    ) == 'a' && name.get_char(len - 1) == 'r';
    proof {
        let tail = name@.subrange(len - 4, len as int);
        if is_mod {
            assert(tail =~= mod_extension());
        } else {
            assert(tail[0] == name@[len - 4]);
            assert(tail[1] == name@[len - 3]);
            assert(tail[2] == name@[len - 2]);
            assert(tail[3] == name@[len - 1]);
        }
    }
    is_mod
}

} // verus!
