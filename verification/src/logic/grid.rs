//! The board's cells live in a two-dimensional `ndarray` array. This file is
//! the whole of what the library takes on trust about that crate.

use ndarray::Array2;
use vstd::prelude::*;

verus! {

/// A two-dimensional `ndarray` array of cells. Verus does not look inside:
/// all it knows of a grid is what the functions below state of `cells`.
#[verifier::external_body]
#[derive(Debug)]
pub struct Grid {
    array: Array2<Option<i32>>,
}

/// What a grid holds: `cells(g)[x][y]` is the element of the array at index
/// `[x, y]`, and the lengths are those of the array's two axes.
pub uninterp spec fn cells(g: Grid) -> Seq<Seq<Option<i32>>>;

/// `Array2::from_elem`: an array of the given shape, every element of which is
/// a copy of `elem`. The product of the axis lengths that are not zero stays
/// within `isize`.
#[verifier::external_body]
pub(crate) fn filled(width: usize, height: usize, elem: Option<i32>) -> (a: Grid)
    requires
        width <= isize::MAX,
        height <= isize::MAX,
        width * height <= isize::MAX,
    ensures
        cells(a).len() == width,
        forall|x: int| 0 <= x < width ==> (#[trigger] cells(a)[x]).len() == height,
        forall|x: int, y: int| 0 <= x < width && 0 <= y < height ==> cells(a)[x][y] == elem,
{
    Grid { array: Array2::from_elem((width, height), elem) }
}

/// Indexing an `Array2` by `[x, y]`: the element there. The index must lie
/// within both axes.
#[verifier::external_body]
pub(crate) fn cell(a: &Grid, x: usize, y: usize) -> (id: Option<i32>)
    requires
        x < cells(*a).len(),
        y < cells(*a)[x as int].len(),
    ensures
        id == cells(*a)[x as int][y as int],
{
    a.array[[x, y]]
}

/// Assigning through an `Array2` index: the element at `[x, y]` becomes `id`
/// and every other element, and the shape, stay as they were.
#[verifier::external_body]
pub(crate) fn put(a: &mut Grid, x: usize, y: usize, id: Option<i32>)
    requires
        x < cells(*old(a)).len(),
        y < cells(*old(a))[x as int].len(),
    ensures
        cells(*final(a)) == cells(*old(a)).update(
            x as int,
            cells(*old(a))[x as int].update(y as int, id),
        ),
{
    a.array[[x, y]] = id;
}

/// `ArrayBase::indexed_iter`: every index with its element, in the logical
/// order of the array, in which the last index varies fastest. The array has
/// a column, so that `cells` tells the length of both axes.
#[verifier::external_body]
pub(crate) fn entries(a: &Grid) -> (all: Vec<(usize, usize, Option<i32>)>)
    requires
        cells(*a).len() > 0,
    ensures
        all@.len() == cells(*a).len() * cells(*a)[0].len(),
        forall|k: int|
            0 <= k < all@.len() ==> {
                &&& (#[trigger] all@[k]).0 == k / cells(*a)[0].len() as int
                &&& all@[k].1 == k % cells(*a)[0].len() as int
                &&& all@[k].2 == cells(*a)[k / cells(*a)[0].len() as int][k % cells(
                    *a,
                )[0].len() as int]
            },
{
    a.array.indexed_iter().map(|((x, y), id)| (x, y, *id)).collect()
}

/// `==` on two arrays: true when the shapes agree and all elements are equal.
/// Both arrays have a column, so that `cells` tells their shapes.
#[verifier::external_body]
pub(crate) fn alike(a: &Grid, b: &Grid) -> (same: bool)
    requires
        cells(*a).len() > 0,
        cells(*b).len() > 0,
    ensures
        same == (cells(*a) == cells(*b)),
{
    a.array == b.array
}

} // verus!
