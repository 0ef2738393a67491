//! The arena of inodes, held by the `generational_arena` crate.
use crate::inode::{Inode, InodeVal};
use generational_arena::{Arena, Index};
use vstd::prelude::*;

verus! {

/// `generational_arena::Arena`, of which nothing is known but what the
/// contracts below say.
#[verifier::external_type_specification]
#[verifier::external_body]
#[verifier::reject_recursive_types(T)]
pub struct ExArena<T>(Arena<T>);

/// The inodes that an arena holds, each under the index it was given.
pub uninterp spec fn arena_contents(arena: Arena<InodeVal>) -> Map<Inode, InodeVal>;

/// The generation that an arena is in: how many values have left it.
pub uninterp spec fn arena_generation(arena: Arena<InodeVal>) -> u64;

/// Calls `Arena::new`: an arena that holds nothing, in its first generation.
#[verifier::external_body]
pub(crate) fn arena_new() -> (arena: Arena<InodeVal>)
    ensures
        arena_contents(arena).dom() == Set::<Inode>::empty(),
        arena_generation(arena) == 0,
{
    Arena::new()
}

/// Calls `Arena::insert`: the value is held under an index of the arena's generation
/// that was not in use; everything else stays as it was. Which free slot is taken is
/// not said.
#[verifier::external_body]
pub(crate) fn arena_insert(arena: &mut Arena<InodeVal>, value: InodeVal) -> (inode: Inode)
    ensures
        !arena_contents(*old(arena)).contains_key(inode),
        inode.generation == arena_generation(*old(arena)),
        arena_contents(*final(arena)) == arena_contents(*old(arena)).insert(inode, value),
        arena_generation(*final(arena)) == arena_generation(*old(arena)),
{
    let (index, generation) = arena.insert(value).into_raw_parts();
    Inode { index, generation }
}

/// Calls `Index::index` of the arena, which panics where the index is not in
/// use: the value held under the index.
#[verifier::external_body]
pub(crate) fn arena_index(arena: &Arena<InodeVal>, inode: Inode) -> (value: &InodeVal)
    requires
        arena_contents(*arena).contains_key(inode),
    ensures
        *value == arena_contents(*arena)[inode],
{
    &arena[Index::from_raw_parts(inode.index, inode.generation)]
}

/// Calls `IndexMut::index_mut` of the arena, which panics where the index is not
/// in use: the value held under the index, for writing. What is written through
/// the reference is what the arena then holds there; the rest stays.
#[verifier::external_body]
pub(crate) fn arena_index_mut(arena: &mut Arena<InodeVal>, inode: Inode) -> (value: &mut InodeVal)
    requires
        arena_contents(*old(arena)).contains_key(inode),
    ensures
        *value == arena_contents(*old(arena))[inode],
        arena_contents(*final(arena)) == arena_contents(*old(arena)).insert(inode, *final(value)),
        arena_generation(*final(arena)) == arena_generation(*old(arena)),
{
    &mut arena[Index::from_raw_parts(inode.index, inode.generation)]
}

/// Calls `Arena::remove`: the value held under the index, if it is in use, leaves
/// the arena and is returned, and the arena enters its next generation. There has to
/// be one.
#[verifier::external_body]
pub(crate) fn arena_remove(arena: &mut Arena<InodeVal>, inode: Inode) -> (value: Option<InodeVal>)
    requires
        arena_contents(*old(arena)).contains_key(inode) ==> arena_generation(*old(arena))
            < u64::MAX,
    ensures
        arena_generation(*final(arena)) == (if value is Some {
            arena_generation(*old(arena)) + 1
        } else {
            arena_generation(*old(arena)) as int
        }),
        arena_contents(*final(arena)) == arena_contents(*old(arena)).remove(inode),
        match value {
            Some(v) => arena_contents(*old(arena)).contains_key(inode) && v == arena_contents(
                *old(arena),
            )[inode],
            None => !arena_contents(*old(arena)).contains_key(inode),
        },
{
    arena.remove(Index::from_raw_parts(inode.index, inode.generation))
}

} // verus!
