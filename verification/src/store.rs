//! The entity arena: access to two slots at once, collision, movement and
//! picking up.

use vstd::prelude::*;
use crate::color::{copper, dark_green};
use crate::map::{on_grid, GridView, TileGrid};
use crate::messages::{message, LogView, MessageLog};
use crate::object::{all_wf, arena, Object, ObjectView};
use crate::text::join3;

verus! {

/// The slot of the player.
pub const PLAYER: usize = 0;

/// Number of items the inventory holds at most.
pub const INVENTORY_CAPACITY: usize = 26;

/// Two slots were asked for at once under one index.
#[derive(Clone, Copy, Debug, PartialEq, Eq, Structural)]
pub struct InvalidIndices;

/// Mutable access to two different slots of `items` at once. The same index
/// twice is an error and leaves `items` alone.
pub fn mut_two<T>(first_index: usize, second_index: usize, items: &mut [T]) -> (r: Result<
    (&mut T, &mut T),
    InvalidIndices,
>)
    requires
        first_index != second_index ==> first_index < old(items)@.len() && second_index < old(
            items,
        )@.len(),
    ensures
        r.is_err() <==> first_index == second_index,
        match r {
            Ok((a, b)) => {
                &&& *a == old(items)@[first_index as int]
                &&& *b == old(items)@[second_index as int]
                &&& final(items)@ == old(items)@.update(first_index as int, *final(a)).update(
                    second_index as int,
                    *final(b),
                )
            },
            Err(_) => final(items)@ == old(items)@,
        },
{
    if first_index == second_index {
        return Err(InvalidIndices);
    }
    let split_at_index: usize = if first_index < second_index {
        second_index
    } else {
        first_index
    };
    let (first_slice, second_slice) = items.split_at_mut(split_at_index);
    if first_index < second_index {
        Ok((&mut first_slice[first_index], &mut second_slice[0]))
    } else {
        Ok((&mut second_slice[0], &mut first_slice[second_index]))
    }
}

/// Some entity of `objects` that blocks movement stands on `(x, y)`.
pub open spec fn occupied(objects: Seq<ObjectView>, x: int, y: int) -> bool {
    exists|i: int| 0 <= i < objects.len() && #[trigger] blocker(objects[i], x, y)
}

/// `o` blocks movement and stands on `(x, y)`.
pub open spec fn blocker(o: ObjectView, x: int, y: int) -> bool {
    o.blocks && o.x == x && o.y == y
}

/// Nothing can step on `(x, y)`: it lies off the grid, its tile is blocked,
/// or a blocking entity stands there.
pub open spec fn blocked(grid: GridView, objects: Seq<ObjectView>, x: int, y: int) -> bool {
    !on_grid(grid, x, y) || grid[x][y].blocked || occupied(objects, x, y)
}

/// Whether nothing can step on `(x, y)`.
pub fn is_blocked(x: i32, y: i32, map: &TileGrid, objects: &[Object]) -> (r: bool)
    requires
        map.wf(),
    ensures
        r == blocked(map@, arena(objects@), x as int, y as int),
{
    if !map.contains(x, y) {
        return true;
    }
    if map.get(x, y).blocked {
        return true;
    }
    let mut i: usize = 0;
    while i < objects.len()
        invariant
            i <= objects@.len(),
            forall|k: int| 0 <= k < i ==> !blocker(#[trigger] arena(objects@)[k], x as int, y as int),
        decreases objects@.len() - i,
    {
        if objects[i].blocks && objects[i].x == x && objects[i].y == y {
            assert(blocker(arena(objects@)[i as int], x as int, y as int));
            return true;
        }
        i = i + 1;
    }
    false
}

/// The arena after the entity in slot `id` has tried to step by
/// `(dx, dy)`: it moves unless the destination is blocked.
pub open spec fn moved_by(objects: Seq<ObjectView>, id: int, dx: int, dy: int, grid: GridView) -> Seq<
    ObjectView,
> {
    let o = objects[id];
    if blocked(grid, objects, o.x + dx, o.y + dy) {
        objects
    } else {
        objects.update(id, ObjectView { x: (o.x + dx) as i32, y: (o.y + dy) as i32, ..o })
    }
}

/// Moves the entity in slot `id` by `(dx, dy)` unless the destination is
/// blocked.
pub fn move_by(id: usize, dx: i32, dy: i32, map: &TileGrid, objects: &mut [Object])
    requires
        id < old(objects)@.len(),
        map.wf(),
    ensures
        arena(final(objects)@) == moved_by(arena(old(objects)@), id as int, dx as int, dy as int, map@),
        final(objects)@.len() == old(objects)@.len(),
{
    let (x, y) = objects[id].pos();
    let nx: i64 = x as i64 + dx as i64;
    let ny: i64 = y as i64 + dy as i64;
    if nx < 0 || nx > i32::MAX as i64 || ny < 0 || ny > i32::MAX as i64 {
        return ;
    }
    if !is_blocked(nx as i32, ny as i32, map, objects) {
        objects[id].set_pos(nx as i32, ny as i32);
        assert(arena(objects@) =~= moved_by(
            arena(old(objects)@),
            id as int,
            dx as int,
            dy as int,
            map@,
        ));
    }
}

/// `s` without the entry in slot `id`, whose place the last entry takes.
pub open spec fn swap_removed(s: Seq<ObjectView>, id: int) -> Seq<ObjectView> {
    s.update(id, s.last()).drop_last()
}

/// What picking up leaves behind: the arena, the inventory and the log.
pub struct Picked {
    pub objects: Seq<ObjectView>,
    pub inventory: Seq<ObjectView>,
    pub log: LogView,
}

/// Picking up the entity in slot `id`. A full inventory takes nothing, and
/// the log says so. Otherwise the entity leaves the arena, where the last
/// entity takes its slot, and becomes the last entry of the inventory.
pub open spec fn picked_up(objects: Seq<ObjectView>, inventory: Seq<ObjectView>, log: LogView, id: int) -> Picked {
    if inventory.len() >= INVENTORY_CAPACITY {
        Picked {
            objects,
            inventory,
            log: log.logged(
                "Inventario cheio. Nao pode pegar "@ + objects[id].name + "."@,
                copper(),
            ),
        }
    } else {
        Picked {
            objects: swap_removed(objects, id),
            inventory: inventory.push(objects[id]),
            log: log.logged("Voce pegou "@ + objects[id].name + "!"@, dark_green()),
        }
    }
}

/// Moves the entity in slot `object_id` from the arena to the inventory,
/// if the inventory has room.
pub fn pick_item_up(
    object_id: usize,
    objects: &mut Vec<Object>,
    inventory: &mut Vec<Object>,
    messages: &mut MessageLog,
)
    requires
        object_id < old(objects)@.len(),
        old(messages).wf(),
    ensures
        (Picked {
            objects: arena(final(objects)@),
            inventory: arena(final(inventory)@),
            log: final(messages)@,
        }) == picked_up(
            arena(old(objects)@),
            arena(old(inventory)@),
            old(messages)@,
            object_id as int,
        ),
        final(messages).wf(),
        all_wf(old(objects)@) ==> all_wf(final(objects)@),
        object_id != PLAYER ==> final(objects)@.len() >= 1 && final(objects)@[PLAYER as int]
            == old(objects)@[PLAYER as int],
{
    if inventory.len() >= INVENTORY_CAPACITY {
        message(
            messages,
            join3("Inventario cheio. Nao pode pegar ", objects[object_id].name.as_str(), "."),
            copper(),
        );
    } else {
        let item = objects.swap_remove(object_id);
        message(messages, join3("Voce pegou ", item.name.as_str(), "!"), dark_green());
        inventory.push(item);
        assert(arena(objects@) =~= swap_removed(arena(old(objects)@), object_id as int));
        assert(arena(inventory@) =~= arena(old(inventory)@).push(arena(old(objects)@)[object_id as int]));
        assert(all_wf(old(objects)@) ==> all_wf(objects@)) by {
            if all_wf(old(objects)@) {
                assert forall|i: int| 0 <= i < objects@.len() implies (#[trigger] objects@[i]).wf() by {
                    if i == object_id {
                        assert(old(objects)@[old(objects)@.len() - 1].wf());
                    } else {
                        assert(old(objects)@[i].wf());
                    }
                }
            }
        }
    }
}

} // verus!
