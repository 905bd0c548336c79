//! Boundary extraction: marching cell edges into corner points, chaining them
//! into polylines, and simplifying those; and the bookkeeping of the collider
//! handles a consumer made from them.
use vstd::prelude::*;

use crate::collider::gen_colliders::{chunk_colliders, chunk_geometry, geometry_view};
use crate::collider::utils::COORD_LIMIT;
use crate::particle::CollisionType;
use crate::sandbox::{Sandbox, SANDBOX_X_CHUNKS, SANDBOX_Y_CHUNKS};

pub mod gen_colliders;
pub mod utils;

verus! {

/// The collider handles a consumer made for each tile, by tile index.
pub struct ColliderStorage {
    pub colliders: Vec<Option<Vec<u64>>>,
}

impl ColliderStorage {
    /// Storage for `count` tiles, none holding handles.
    pub fn new(count: usize) -> (r: Self)
        ensures
            r.colliders@.len() == count,
            forall|i: int| 0 <= i < count ==> (#[trigger] r.colliders@[i]) is None,
    {
        let mut colliders: Vec<Option<Vec<u64>>> = Vec::new();
        let mut i: usize = 0;
        while i < count
            invariant
                i <= count,
                colliders@.len() == i,
                forall|k: int| 0 <= k < i ==> (#[trigger] colliders@[k]) is None,
            decreases count - i,
        {
            colliders.push(None);
            i = i + 1;
        }
        Self { colliders }
    }
}

impl Default for ColliderStorage {
    /// Storage for the default grid's tiles.
    fn default() -> (r: Self)
        ensures
            r.colliders@.len() == SANDBOX_X_CHUNKS * SANDBOX_Y_CHUNKS,
            forall|i: int| 0 <= i < r.colliders@.len() ==> (#[trigger] r.colliders@[i]) is None,
    {
        Self::new(SANDBOX_X_CHUNKS * SANDBOX_Y_CHUNKS)
    }
}

/// The handles held for a slot, none for an empty one.
pub open spec fn held_handles(slot: Option<Vec<u64>>) -> Seq<u64> {
    match slot {
        Some(v) => v@,
        None => seq![],
    }
}

/// Empties slot `i` and hands back the handles it held, which the consumer must
/// release before the slot is filled again.
pub fn despawn_old_colliders(storage: &mut ColliderStorage, i: usize) -> (retired: Vec<u64>)
    requires
        i < old(storage).colliders@.len(),
    ensures
        retired@ == held_handles(old(storage).colliders@[i as int]),
        final(storage).colliders@ == old(storage).colliders@.update(i as int, None),
{
    let mut old_slot: Option<Vec<u64>> = None;
    std::mem::swap(&mut storage.colliders[i], &mut old_slot);
    match old_slot {
        Some(v) => v,
        None => Vec::new(),
    }
}

/// Fills slot `i`, which must have been emptied first, with new handles.
pub fn store_colliders(storage: &mut ColliderStorage, i: usize, handles: Vec<u64>)
    requires
        i < old(storage).colliders@.len(),
        old(storage).colliders@[i as int] is None,
    ensures
        final(storage).colliders@.len() == old(storage).colliders@.len(),
        final(storage).colliders@[i as int] is Some,
        final(storage).colliders@[i as int].unwrap()@ == handles@,
        forall|k: int|
            0 <= k < old(storage).colliders@.len() && k != i ==> #[trigger] final(storage).colliders@[k]
                == old(storage).colliders@[k],
{
    storage.colliders.set(i, Some(handles));
}

/// The new geometry of one strongly active tile, with the handles of the
/// geometry it replaces.
pub struct ChunkColliders {
    pub index: usize,
    pub retired: Vec<u64>,
    pub polylines: Vec<(CollisionType, Vec<(i64, i64)>)>,
}

/// For every strongly active tile, in order: retires the handles stored for it
/// and derives its new polylines. Other tiles and their handles stay as they were.
pub fn generate_sandbox_colliders(sandbox: &Sandbox, storage: &mut ColliderStorage) -> (r: Vec<
    ChunkColliders,
>)
    requires
        sandbox.wf(),
        old(storage).colliders@.len() == sandbox.chunk_seq().len(),
        sandbox.spec_width() < COORD_LIMIT,
        sandbox.spec_height() < COORD_LIMIT,
    ensures
        final(storage).colliders@.len() == old(storage).colliders@.len(),
        forall|k: int|
            0 <= k < sandbox.chunk_seq().len() ==> if (#[trigger] sandbox.chunk_seq()[k]).strong()
                > 0 {
                final(storage).colliders@[k] is None
            } else {
                final(storage).colliders@[k] == old(storage).colliders@[k]
            },
        forall|j: int|
            0 <= j < r@.len() ==> {
                let c = #[trigger] r@[j];
                &&& c.index < sandbox.chunk_seq().len()
                &&& sandbox.chunk_seq()[c.index as int].strong() > 0
                &&& c.retired@ == held_handles(old(storage).colliders@[c.index as int])
                &&& geometry_view(c.polylines@) == chunk_geometry(sandbox, c.index as int)
            },
        forall|j1: int, j2: int|
            0 <= j1 < j2 < r@.len() ==> (#[trigger] r@[j1]).index < (#[trigger] r@[j2]).index,
        forall|k: int|
            0 <= k < sandbox.chunk_seq().len() && (#[trigger] sandbox.chunk_seq()[k]).strong() > 0
                ==> exists|j: int| 0 <= j < r@.len() && (#[trigger] r@[j]).index == k,
{
    let chunks = sandbox.get_all_chunks();
    let mut out: Vec<ChunkColliders> = Vec::new();
    let mut i: usize = 0;
    while i < chunks.len()
        invariant
            i <= chunks@.len(),
            chunks@ == sandbox.chunk_seq(),
            sandbox.wf(),
            sandbox.spec_width() < COORD_LIMIT,
            sandbox.spec_height() < COORD_LIMIT,
            storage.colliders@.len() == old(storage).colliders@.len(),
            old(storage).colliders@.len() == sandbox.chunk_seq().len(),
            forall|k: int|
                0 <= k < sandbox.chunk_seq().len() ==> if k < i && (
                #[trigger] sandbox.chunk_seq()[k]).strong() > 0 {
                    storage.colliders@[k] is None
                } else {
                    storage.colliders@[k] == old(storage).colliders@[k]
                },
            forall|j: int|
                0 <= j < out@.len() ==> {
                    let c = #[trigger] out@[j];
                    &&& c.index < i
                    &&& sandbox.chunk_seq()[c.index as int].strong() > 0
                    &&& c.retired@ == held_handles(old(storage).colliders@[c.index as int])
                    &&& geometry_view(c.polylines@) == chunk_geometry(sandbox, c.index as int)
                },
            forall|j1: int, j2: int|
                0 <= j1 < j2 < out@.len() ==> (#[trigger] out@[j1]).index < (#[trigger] out@[j2]).index,
            forall|k: int|
                0 <= k < i && (#[trigger] sandbox.chunk_seq()[k]).strong() > 0 ==> exists|j: int|
                    0 <= j < out@.len() && (#[trigger] out@[j]).index == k,
        decreases chunks@.len() - i,
    {
        let ghost slots = storage.colliders@;
        let ticked = chunks[i].is_strong_ticked();
        if ticked {
            let retired = despawn_old_colliders(storage, i);
            let polylines = chunk_colliders(sandbox, i);
            let ghost before = out@;
            out.push(ChunkColliders { index: i, retired, polylines });
            proof {
                assert forall|k: int|
                    0 <= k < i + 1 && (#[trigger] sandbox.chunk_seq()[k]).strong() > 0 implies exists|
                    j: int,
                | 0 <= j < out@.len() && (#[trigger] out@[j]).index == k by {
                    if k == i {
                        assert(out@[before.len() as int].index == k);
                    } else {
                        let j = choose|j: int| 0 <= j < before.len() && (#[trigger] before[j]).index == k;
                        assert(out@[j].index == k);
                    }
                }
            }
        }
        proof {
            assert forall|k: int| 0 <= k < sandbox.chunk_seq().len() implies if k < i + 1 && (
            #[trigger] sandbox.chunk_seq()[k]).strong() > 0 {
                storage.colliders@[k] is None
            } else {
                storage.colliders@[k] == old(storage).colliders@[k]
            } by {
                if k != i {
                    assert(storage.colliders@[k] == slots[k]);
                }
            }
        }
        i = i + 1;
    }
    out
}

} // verus!
