//! Mesh segments: which run of the index stream belongs to which object.

use crate::model::geometry::Mesh;
use vstd::prelude::*;

verus! {

/// `v` reduced to 32 bits.
pub open spec fn wrap(v: int) -> u32 {
    (v % 0x1_0000_0000) as u32
}

/// The sum, over the meshes, of each mesh's `offset + len`.
pub open spec fn extent_sum(meshes: Seq<Mesh>) -> nat
    decreases meshes.len(),
{
    if meshes.len() == 0 {
        0
    } else {
        extent_sum(meshes.drop_last()) + meshes.last().offset as nat + meshes.last().len as nat
    }
}

/// The offset given to the mesh that is closed next: the sum over every
/// mesh closed so far of that mesh's `offset + len`, in 32-bit arithmetic.
///
/// After one mesh this is where that mesh ends. From the third mesh on the
/// sum counts the offsets of earlier meshes more than once, and so runs
/// ahead of the number of indices emitted; consumers rely on the values as
/// they are.
pub open spec fn mesh_offset(meshes: Seq<Mesh>) -> u32 {
    wrap(extent_sum(meshes) as int)
}

/// The mesh that is closed when the index stream holds `count` entries:
/// it starts at [`mesh_offset`] and its length is what remains of `count`
/// beyond that offset, in 32-bit arithmetic.
pub open spec fn closing_mesh(meshes: Seq<Mesh>, count: nat) -> Mesh {
    Mesh { offset: mesh_offset(meshes), len: wrap(count - mesh_offset(meshes)) }
}

/// Computes [`mesh_offset`].
pub fn calc_mesh_offset(meshes: &Vec<Mesh>) -> (offset: u32)
    ensures
        offset == mesh_offset(meshes@),
{
    let mut offset: u32 = 0;
    let mut i: usize = 0;
    proof {
        assert(meshes@.take(0) =~= Seq::<Mesh>::empty());
    }
    while i < meshes.len()
        invariant
            i <= meshes@.len(),
            offset == mesh_offset(meshes@.take(i as int)),
        decreases meshes@.len() - i,
    {
        proof {
            assert(meshes@.take(i + 1).drop_last() =~= meshes@.take(i as int));
            assert(meshes@.take(i + 1).last() == meshes@[i as int]);
        }
        offset = offset.wrapping_add(meshes[i].offset).wrapping_add(meshes[i].len);
        i += 1;
    }
    proof {
        assert(meshes@.take(i as int) =~= meshes@);
    }
    offset
}

/// Closes a mesh at an index stream of `count` entries; see
/// [`closing_mesh`].
pub fn close_mesh(meshes: &mut Vec<Mesh>, count: usize)
    ensures
        final(meshes)@ == old(meshes)@.push(closing_mesh(old(meshes)@, count as nat)),
{
    let offset = calc_mesh_offset(meshes);
    let low: u32 = (count as u64 % 0x1_0000_0000) as u32;
    meshes.push(Mesh { offset, len: low.wrapping_sub(offset) });
}

/// Whether every mesh starts at the offset that the meshes before it
/// give; see [`mesh_offset`].
pub open spec fn offsets_follow(meshes: Seq<Mesh>) -> bool {
    forall|j: int|
        0 <= j < meshes.len() ==> (#[trigger] meshes[j]).offset == mesh_offset(meshes.take(j))
}

/// Closing a mesh keeps the offsets in line.
pub proof fn lemma_close_keeps_offsets(meshes: Seq<Mesh>, count: nat)
    requires
        offsets_follow(meshes),
    ensures
        offsets_follow(meshes.push(closing_mesh(meshes, count))),
{
    let closed = meshes.push(closing_mesh(meshes, count));
    assert forall|j: int| 0 <= j < closed.len() implies (#[trigger] closed[j]).offset
        == mesh_offset(closed.take(j)) by {
        assert(closed.take(j) =~= meshes.take(j));
        if j == meshes.len() {
            assert(meshes.take(j) =~= meshes);
        }
    }
}

/// The first mesh starts at zero, and the second mesh starts where the
/// first one ends.
pub proof fn lemma_first_two_offsets(meshes: Seq<Mesh>)
    requires
        offsets_follow(meshes),
    ensures
        meshes.len() >= 1 ==> meshes[0].offset == 0,
        meshes.len() >= 2 ==> meshes[1].offset == meshes[0].offset + meshes[0].len,
{
    if meshes.len() >= 1 {
        assert(meshes.take(0) =~= Seq::<Mesh>::empty());
        assert(meshes[0].offset == mesh_offset(meshes.take(0)));
    }
    if meshes.len() >= 2 {
        assert(meshes[1].offset == mesh_offset(meshes.take(1)));
        assert(meshes.take(1).drop_last() =~= Seq::<Mesh>::empty());
        assert(meshes.take(1).last() == meshes[0]);
        assert(extent_sum(meshes.take(1).drop_last()) == 0);
    }
}

} // verus!
