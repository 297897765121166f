//! The parts of a type declaration that decide what is generated for it.
use vstd::prelude::*;

use crate::bytes;

verus! {

/// A path such as `serde::Serialize`, as the identifiers of its segments.
#[derive(Debug)]
pub struct PathShape {
    pub segments: Vec<String>,
}

impl View for PathShape {
    type V = Seq<Seq<char>>;

    open spec fn view(&self) -> Seq<Seq<char>> {
        self.segments@.map_values(|segment: String| segment@)
    }
}

/// Whether a path ends in an identifier.
pub open spec fn ends_in(path: Seq<Seq<char>>, name: Seq<char>) -> bool {
    path.len() > 0 && path.last() == name
}

impl PathShape {
    /// Whether the path ends in an identifier.
    pub fn ends_with(&self, name: &str) -> (ends: bool)
        ensures
            ends == ends_in(self@, name@),
    {
        let count = self.segments.len();
        if count == 0 {
            return false;
        }
        assert(self@.last() == self.segments@[count - 1]@);
        bytes::text_equal(self.segments[count - 1].as_str(), name)
    }
}

/// What each path of a list is.
pub open spec fn path_views(paths: Seq<PathShape>) -> Seq<Seq<Seq<char>>> {
    paths.map_values(|path: PathShape| path@)
}

/// Whether one of the paths ends in an identifier.
pub open spec fn any_ends_in(paths: Seq<Seq<Seq<char>>>, name: Seq<char>) -> bool {
    exists|i: int| 0 <= i < paths.len() && ends_in(#[trigger] paths[i], name)
}

/// Whether one of the paths ends in an identifier.
fn any_ends_with(paths: &Vec<PathShape>, name: &str) -> (found: bool)
    ensures
        found == any_ends_in(path_views(paths@), name@),
{
    let ghost views = path_views(paths@);
    let mut index: usize = 0;
    while index < paths.len()
        invariant
            index <= paths@.len(),
            views == path_views(paths@),
            forall|i: int| 0 <= i < index ==> !ends_in(#[trigger] views[i], name@),
        decreases paths@.len() - index,
    {
        assert(views[index as int] == paths@[index as int]@);
        if paths[index].ends_with(name) {
            return true;
        }
        index = index + 1;
    }
    false
}

/// Whether a derive of the same name as `required` stands among the existing
/// ones: the last segments decide.
pub fn has_derive(existing: &Vec<PathShape>, required: &PathShape) -> (found: bool)
    ensures
        found == (required@.len() > 0 && any_ends_in(path_views(existing@), required@.last())),
{
    let count = required.segments.len();
    if count == 0 {
        return false;
    }
    assert(required@.last() == required.segments@[count - 1]@);
    any_ends_with(existing, required.segments[count - 1].as_str())
}

/// The type of a field.
#[derive(Debug)]
pub enum TypeShape {
    /// A path such as `Vec2`.
    Path(PathShape),
    /// A reference, a tuple, an array and so on.
    Other,
}

/// What a [`TypeShape`] is.
#[verifier::ext_equal]
pub enum TypeView {
    Path(Seq<Seq<char>>),
    Other,
}

impl View for TypeShape {
    type V = TypeView;

    open spec fn view(&self) -> TypeView {
        match *self {
            TypeShape::Path(path) => TypeView::Path(path@),
            TypeShape::Other => TypeView::Other,
        }
    }
}

/// The fields of a struct.
#[derive(Debug)]
pub enum FieldsShape {
    Named,
    /// Fields without names, with their types.
    Unnamed(Vec<TypeShape>),
    Unit,
}

/// What a [`FieldsShape`] is.
#[verifier::ext_equal]
pub enum FieldsView {
    Named,
    Unnamed(Seq<TypeView>),
    Unit,
}

impl View for FieldsShape {
    type V = FieldsView;

    open spec fn view(&self) -> FieldsView {
        match *self {
            FieldsShape::Named => FieldsView::Named,
            FieldsShape::Unnamed(types) => FieldsView::Unnamed(
                types@.map_values(|field: TypeShape| field@),
            ),
            FieldsShape::Unit => FieldsView::Unit,
        }
    }
}

/// What a type is declared as.
#[derive(Debug)]
pub enum DataShape {
    Struct(FieldsShape),
    /// An enum or a union.
    Other,
}

/// Whether a type is a vector in the plane.
pub open spec fn is_vec2(ty: TypeView) -> bool {
    match ty {
        TypeView::Path(path) => ends_in(path, "Vec2"@),
        TypeView::Other => false,
    }
}

/// Whether fields are those of a tuple struct around one vector in the plane.
pub open spec fn is_vec2_tuple(fields: FieldsView) -> bool {
    match fields {
        FieldsView::Unnamed(types) => types.len() == 1 && is_vec2(types[0]),
        _ => false,
    }
}

/// Whether a type is a vector in the plane.
pub fn is_vec2_type(ty: &TypeShape) -> (yes: bool)
    ensures
        yes == is_vec2(ty@),
{
    match ty {
        TypeShape::Path(path) => path.ends_with("Vec2"),
        TypeShape::Other => false,
    }
}

/// Whether fields are those of a tuple struct around one vector in the plane.
pub fn is_vec2_tuple_struct(fields: &FieldsShape) -> (yes: bool)
    ensures
        yes == is_vec2_tuple(fields@),
{
    match fields {
        FieldsShape::Unnamed(types) => types.len() == 1 && is_vec2_type(&types[0]),
        _ => false,
    }
}

/// A path ends in its last identifier, and a list of paths has a path that ends
/// in an identifier where one of them does.
pub proof fn law_paths_end_in_their_last_identifier(
    path: Seq<Seq<char>>,
    paths: Seq<Seq<Seq<char>>>,
    name: Seq<char>,
)
    ensures
        !ends_in(Seq::empty(), name),
        path.len() > 0 ==> ends_in(path, name) == (path[path.len() - 1] == name),
        any_ends_in(paths, name) <==> exists|i: int|
            0 <= i < paths.len() && (#[trigger] paths[i]).len() > 0 && paths[i][paths[i].len() - 1]
                == name,
{
    if any_ends_in(paths, name) {
        let i = choose|i: int| 0 <= i < paths.len() && ends_in(#[trigger] paths[i], name);
        assert(paths[i].len() > 0 && paths[i][paths[i].len() - 1] == name);
    }
    if exists|i: int|
        0 <= i < paths.len() && (#[trigger] paths[i]).len() > 0 && paths[i][paths[i].len() - 1]
            == name {
        let i = choose|i: int|
            0 <= i < paths.len() && (#[trigger] paths[i]).len() > 0 && paths[i][paths[i].len() - 1]
                == name;
        assert(ends_in(paths[i], name));
    }
}

/// A type holds a position where it is a tuple struct with one field whose type
/// is a path that ends in `Vec2`.
pub proof fn law_positions_are_tuples_around_one_vec2(types: Seq<TypeView>, path: Seq<Seq<char>>)
    ensures
        is_vec2(TypeView::Path(path)) == (path.len() > 0 && path[path.len() - 1] == "Vec2"@),
        !is_vec2(TypeView::Other),
        !is_vec2_tuple(FieldsView::Named),
        !is_vec2_tuple(FieldsView::Unit),
        is_vec2_tuple(FieldsView::Unnamed(types)) == (types.len() == 1 && is_vec2(types[0])),
{
}

/// Paths, types and fields say what they hold.
pub proof fn law_shapes_say_what_they_hold(
    paths: Seq<PathShape>,
    path: PathShape,
    field: TypeShape,
    fields: FieldsShape,
)
    ensures
        path@.len() == path.segments@.len(),
        forall|i: int|
            0 <= i < path.segments@.len() ==> #[trigger] path@[i] == path.segments@[i]@,
        path_views(paths).len() == paths.len(),
        forall|i: int| 0 <= i < paths.len() ==> #[trigger] path_views(paths)[i] == paths[i]@,
        match field {
            TypeShape::Path(inner) => field@ == TypeView::Path(inner@),
            TypeShape::Other => field@ == TypeView::Other,
        },
        match fields {
            FieldsShape::Named => fields@ == FieldsView::Named,
            FieldsShape::Unnamed(types) => {
                &&& fields@ is Unnamed
                &&& fields@->Unnamed_0.len() == types@.len()
                &&& forall|i: int|
                    0 <= i < types@.len() ==> #[trigger] fields@->Unnamed_0[i] == types@[i]@
            },
            FieldsShape::Unit => fields@ == FieldsView::Unit,
        },
{
}

} // verus!
