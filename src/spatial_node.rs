//! The per-cell id lists of the spatial grid, held in `smallvec::SmallVec`.
use vstd::prelude::*;

use smallvec::SmallVec;

use crate::spatial::MAX_ENTITIES;

verus! {

/// One grid cell's list of entity indices. The list lives in a
/// `smallvec::SmallVec` with room for sixteen ids before it spills to the
/// heap; proofs see it only through `cell_ids` and the functions below.
#[verifier::external_body]
pub struct SpatialDbNode {
    objects: SmallVec<[usize; 16]>,
}

/// The ids held by one grid cell's list, in storage order.
pub uninterp spec fn cell_ids(v: SpatialDbNode) -> Seq<usize>;

/// Relies on `SmallVec::new`: the new list is empty.
#[verifier::external_body]
pub(crate) fn empty_cell() -> (r: SpatialDbNode)
    ensures
        cell_ids(r) == Seq::<usize>::empty(),
{
    SpatialDbNode { objects: SmallVec::new() }
}

/// Relies on `SmallVec::push`: the value is appended at the end. Growing
/// the storage fails only once the list's bytes would pass `isize::MAX`,
/// far above `MAX_ENTITIES` ids.
#[verifier::external_body]
pub(crate) fn cell_push(v: &mut SpatialDbNode, id: usize)
    requires
        cell_ids(*old(v)).len() < MAX_ENTITIES,
    ensures
        cell_ids(*final(v)) == cell_ids(*old(v)).push(id),
{
    v.objects.push(id)
}

/// Relies on `SmallVec::swap_remove`: the item at `index` is returned and
/// the last item takes its place.
#[verifier::external_body]
pub(crate) fn cell_swap_remove(v: &mut SpatialDbNode, index: usize) -> (r: usize)
    requires
        index < cell_ids(*old(v)).len(),
    ensures
        r == cell_ids(*old(v))[index as int],
        cell_ids(*final(v)) == cell_ids(*old(v)).update(index as int, cell_ids(*old(v)).last()).drop_last(),
{
    v.objects.swap_remove(index)
}

/// Relies on `SmallVec::as_slice`: a view of all items in storage order.
#[verifier::external_body]
pub(crate) fn cell_slice(v: &SpatialDbNode) -> (r: &[usize])
    ensures
        r@ == cell_ids(*v),
{
    v.objects.as_slice()
}

} // verus!
