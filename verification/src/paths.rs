//! What the platform finds in a path.
//!
//! Which characters separate the parts of a path, and what its root is, depends on the
//! platform. Of a path that all platforms read alike it is said what is found; of another
//! only what they find alike in it is said, and the functions that decide on a path take what was found of it as
//! arguments and hold for every value of it.

use crate::text;
use vstd::prelude::*;

verus! {

/// Does `/`, and nothing else, separate the parts of this path on every platform? A
/// backslash, a drive at the start or two slashes there mean something on some of them.
pub open spec fn portable(p: Seq<char>) -> bool {
    &&& forall|i: int| 0 <= i < p.len() ==> #[trigger] p[i] != '\\'
    &&& p.len() > 1 ==> p[1] != ':'
    &&& !text::begins(p, "//"@)
}

/// The parts among the first `n` pieces of a path that count: empty pieces do not, nor
/// does a `.`, unless the path starts with it.
pub open spec fn parts_first(pieces: Seq<Seq<char>>, n: nat) -> Seq<Seq<char>>
    decreases n,
{
    if n == 0 {
        Seq::empty()
    } else {
        let before = parts_first(pieces, (n - 1) as nat);
        let piece = pieces[n - 1];
        if piece.len() == 0 || (piece == "."@ && n > 1) {
            before
        } else {
            before.push(piece)
        }
    }
}

/// The parts of a path: `/` where it starts at the root, and the names between its slashes.
pub open spec fn parts(p: Seq<char>) -> Seq<Seq<char>> {
    let pieces = text::split_of(p, '/');
    let named = parts_first(pieces, pieces.len());
    if text::begins(p, "/"@) {
        seq!["/"@] + named
    } else {
        named
    }
}

/// The name at the end of a path, where its last part is one.
pub open spec fn name_in(p: Seq<char>) -> Option<Seq<char>> {
    let all = parts(p);
    if all.len() == 0 || all.last() == "/"@ || all.last() == "."@ || all.last() == ".."@ {
        None
    } else {
        Some(all.last())
    }
}

/// What follows the last dot.
pub open spec fn after_dot(s: Seq<char>) -> Option<Seq<char>>
    decreases s.len(),
{
    if s.len() == 0 {
        None
    } else if s.last() == '.' {
        Some(Seq::empty())
    } else {
        match after_dot(s.drop_last()) {
            Some(e) => Some(e.push(s.last())),
            None => None,
        }
    }
}

/// The extension of the name at the end of a path: what follows its last dot, unless the
/// name starts there.
pub open spec fn extension_in(p: Seq<char>) -> Option<Seq<char>> {
    match name_in(p) {
        Some(name) => match after_dot(name) {
            Some(e) => if e.len() + 1 < name.len() {
                Some(e)
            } else {
                None
            },
            None => None,
        },
        None => None,
    }
}

/// Does the path lie under `base`, by whole parts?
pub open spec fn lies_under(p: Seq<char>, base: Seq<char>) -> bool {
    let n = parts(base).len() as int;
    n <= parts(p).len() && parts(p).take(n) == parts(base)
}

/// Is every part of the path a name or `..`, with one `/` between any two of them?
pub open spec fn tidy(p: Seq<char>) -> bool {
    let pieces = text::split_of(p, '/');
    portable(p) && p.len() > 0 && forall|i: int|
        0 <= i < pieces.len() ==> #[trigger] pieces[i] != "."@ && (i == 0 && p[0] == '/'
            || pieces[i].len() > 0)
}

/// What is left of a tidy path without the tidy directory that it lies under.
pub open spec fn below(p: Seq<char>, base: Seq<char>) -> Option<Seq<char>> {
    if p == base {
        Some(Seq::empty())
    } else if text::begins(p, base.push('/')) {
        Some(p.skip(base.len() as int + 1))
    } else {
        None
    }
}

/// A path without one slash at its end.
pub open spec fn without_slash(p: Seq<char>) -> Seq<char> {
    if p.len() > 0 && p.last() == '/' {
        p.drop_last()
    } else {
        p
    }
}

/// Does `c` separate the parts of a path on some platform?
pub open spec fn separator(c: char) -> bool {
    c == '/' || c == '\\'
}

/// Can the path start at a root or with a drive, on some platform?
pub open spec fn anchored(p: Seq<char>) -> bool {
    ||| (p.len() > 0 && separator(p[0]))
    ||| (p.len() > 1 && p[1] == ':')
}

/// Can a platform find `rest` left of `p` without `base`? Nothing is left of a path without
/// an anchor where `base` has one. Of portable paths something is left where `p` lies under
/// `base`, and its parts are those of `p` behind those of `base`. Of tidy paths it is the text
/// of `p` behind that of `base`.
pub open spec fn rest_found(p: Seq<char>, base: Seq<char>, rest: Option<Seq<char>>) -> bool {
    &&& anchored(base) && !anchored(p) ==> rest is None
    &&& portable(p) && portable(base) ==> {
        &&& rest is Some <==> lies_under(p, base)
        &&& rest matches Some(r) ==> parts(r) == parts(p).skip(parts(base).len() as int)
        &&& tidy(p) && tidy(without_slash(base)) ==> rest == below(p, without_slash(base))
    }
}

/// Can a platform find `name` at the end of `p`?
pub open spec fn name_found(p: Seq<char>, name: Option<Seq<char>>) -> bool {
    portable(p) ==> name == name_in(p)
}

/// What stands behind the last slash of either kind.
pub open spec fn last_piece(p: Seq<char>) -> Seq<char>
    decreases p.len(),
{
    if p.len() == 0 || separator(p.last()) {
        Seq::empty()
    } else {
        last_piece(p.drop_last()).push(p.last())
    }
}

/// Can the path start with a drive, a share or a device, on some platform?
pub open spec fn prefixed(p: Seq<char>) -> bool {
    p.len() > 1 && (p[1] == ':' || (separator(p[0]) && separator(p[1])))
}

/// The extension that every platform finds in the path, where its last piece shows one.
pub open spec fn plain_extension(p: Seq<char>) -> Option<Seq<char>> {
    let piece = last_piece(p);
    match after_dot(piece) {
        Some(e) => if e.len() + 1 < piece.len() && piece != ".."@ && !prefixed(p) {
            Some(e)
        } else {
            None
        },
        None => None,
    }
}

/// Can a platform find `extension` at the end of `p`?
pub open spec fn extension_found(p: Seq<char>, extension: Option<Seq<char>>) -> bool {
    &&& plain_extension(p) is Some ==> extension == plain_extension(p)
    &&& portable(p) ==> extension == extension_in(p)
}

/// `std::path::Path::strip_prefix`: what is left of a path without the directory that it
/// lies under. It goes by whole parts of the paths, of which repeated slashes, slashes at
/// the end and a `.` behind the start are none; a path that starts at no root and with no
/// drive does not lie under one that does. How many slashes stand in what is left of
/// a path that is not tidy is not said.
#[verifier::external_body]
pub(crate) fn path_below(path: &str, base: &str) -> (rest: Option<String>)
    ensures
        rest_found(path@, base@, text::opt_view(rest)),
{
    match std::path::Path::new(path).strip_prefix(base) {
        Ok(rest) => Some(rest.to_string_lossy().to_string()),
        Err(_) => None,
    }
}

/// `std::path::Path::file_name`: the name at the end of a path, which is its last part
/// unless that is the root, `.` or `..`.
#[verifier::external_body]
pub(crate) fn path_file_name(path: &str) -> (name: Option<String>)
    ensures
        name_found(path@, text::opt_view(name)),
{
    match std::path::Path::new(path).file_name() {
        Some(name) => name.to_str().map(String::from),
        None => None,
    }
}

/// `std::path::Path::extension`: what follows the last dot of the name at the end of a
/// path, unless the name starts with that dot or is `..`.
#[verifier::external_body]
pub(crate) fn path_extension(path: &str) -> (extension: Option<String>)
    ensures
        extension_found(path@, text::opt_view(extension)),
{
    match std::path::Path::new(path).extension() {
        Some(extension) => extension.to_str().map(String::from),
        None => None,
    }
}

} // verus!
