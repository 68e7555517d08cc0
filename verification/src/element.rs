//! The SVG `path` element that carries finished path data.

use svg::node::element::Path;
use vstd::prelude::*;

verus! {

/// The `path` element of the `svg` crate. Its fields are private to that
/// crate, so a value of it is only carried through.
#[verifier::external_type_specification]
#[verifier::external_body]
pub struct ExPath(Path);

/// The attributes that a `path` element holds, each name with its value.
pub uninterp spec fn path_attributes(path: Path) -> Map<Seq<char>, Seq<char>>;

/// Calls `svg::node::element::Path::new`, which makes an element with an
/// empty attribute table.
#[verifier::external_body]
pub(crate) fn new_path() -> (result: Path)
    ensures
        (path_attributes(result) == Map::<Seq<char>, Seq<char>>::empty()),
{
    Path::new()
}

/// Calls `svg::node::element::Path::set`, which inserts the value into the
/// element's attribute table under the given name, replacing a value that
/// was there under that name, and leaves the other attributes as they were.
#[verifier::external_body]
pub(crate) fn set_attribute(path: Path, name: &str, value: String) -> (result: Path)
    ensures
        path_attributes(result) == path_attributes(path).insert(name@, value@),
{
    path.set(name, value)
}

/// The attributes of a filled path: its data under `d`, and black under
/// `fill`.
pub open spec fn filled_path_attributes(d: Seq<char>) -> Map<Seq<char>, Seq<char>> {
    Map::<Seq<char>, Seq<char>>::empty().insert("d"@, d).insert("fill"@, "#000"@)
}

/// Wraps path data into a `path` element that is filled with black.
pub fn filled_path(d: String) -> (path: Path)
    ensures
        path_attributes(path) == filled_path_attributes(d@),
{
    let path = new_path();
    let path = set_attribute(path, "d", d);
    set_attribute(path, "fill", "#000".to_string())
}

} // verus!
