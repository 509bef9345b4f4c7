//! The server's authoritative world: one record per entity, holding the
//! replicated components it carries, and the world-generation routines.

use vstd::prelude::*;
use crate::components::{
    CombatState, CoolDowns, Dummy, EntityType, Health, LeftClick, OpenState, Player, Slime,
    SpawnEvent, Target, Wall,
};
use crate::tile::{Direction, Tile};

verus! {

/// What a wandering mob is currently doing.
#[derive(Clone, Copy, Debug)]
pub enum MobState {
    Wonder(Direction),
    Combat(u64),
}

/// The rectangle a mob is allowed to wander in; `top_left` is the
/// component-wise minimum corner, `bottom_right` the maximum.
#[derive(Clone, Copy, Debug)]
pub struct MobRange {
    pub top_left: Tile,
    pub bottom_right: Tile,
}

/// The closed-range membership test of `MobRange::check`.
pub open spec fn mob_range_check(r: MobRange, pos: Tile) -> bool {
    pos.cell.0 >= r.top_left.cell.0 && pos.cell.0 <= r.bottom_right.cell.0 && pos.cell.2
        >= r.top_left.cell.2 && pos.cell.2 <= r.bottom_right.cell.2
}

impl MobRange {
    /// Is `pos` inside the wander rectangle (boundary included)?
    pub fn check(&self, pos: &Tile) -> (r: bool)
        ensures
            r == mob_range_check(*self, *pos),
    {
        let x = pos.cell.0;
        let z = pos.cell.2;

        let tl_x = self.top_left.cell.0;
        let tl_z = self.top_left.cell.2;

        let br_x = self.bottom_right.cell.0;
        let br_z = self.bottom_right.cell.2;

        x >= tl_x && x <= br_x && z >= tl_z && z <= br_z
    }
}

/// One authoritative entity: its id, kind, position and whichever
/// components it carries.
#[derive(Clone, Copy, Debug)]
pub struct WorldEntity {
    pub id: u64,
    pub entity_type: EntityType,
    pub tile: Tile,
    pub player: Option<Player>,
    pub health: Option<Health>,
    pub target: Option<Target>,
    pub combat_state: Option<CombatState>,
    pub open_state: Option<OpenState>,
    pub cooldowns: Option<CoolDowns>,
    pub mob_state: Option<MobState>,
    pub mob_range: Option<MobRange>,
    pub left_click: Option<LeftClick>,
}

/// A bare entity of the given kind at the given tile, as a value.
pub open spec fn spec_bare_entity(id: u64, entity_type: EntityType, tile: Tile) -> WorldEntity {
    WorldEntity {
        id,
        entity_type,
        tile,
        player: None,
        health: None,
        target: None,
        combat_state: None,
        open_state: None,
        cooldowns: None,
        mob_state: None,
        mob_range: None,
        left_click: None,
    }
}

impl WorldEntity {
    /// A bare entity of the given kind at the given tile.
    pub fn bare(id: u64, entity_type: EntityType, tile: Tile) -> (e: WorldEntity)
        ensures
            e == spec_bare_entity(id, entity_type, tile),
    {
        WorldEntity {
            id,
            entity_type,
            tile,
            player: None,
            health: None,
            target: None,
            combat_state: None,
            open_state: None,
            cooldowns: None,
            mob_state: None,
            mob_range: None,
            left_click: None,
        }
    }
}

/// Side length of one floor chunk.
pub const CHUNK_SIZE: u32 = 10;

/// Side length of the walled room.
pub const ROOM_SIZE: u32 = 14;

/// Append one `CHUNK_SIZE`-square chunk of floor tiles starting at
/// `start`, with sequential fresh ids; tile `k` of the chunk sits at
/// `(start.0 + k / CHUNK_SIZE, start.1, start.2 + k % CHUNK_SIZE)`.
pub fn spawn_chunk(world: &mut Vec<WorldEntity>, next_id: &mut u64, start: (u32, u32, u32))
    requires
        start.0 <= u32::MAX - CHUNK_SIZE,
        start.2 <= u32::MAX - CHUNK_SIZE,
        *old(next_id) <= u64::MAX - (CHUNK_SIZE * CHUNK_SIZE) as u64,
    ensures
        *final(next_id) == *old(next_id) + (CHUNK_SIZE * CHUNK_SIZE) as u64,
        final(world)@.len() == old(world)@.len() + (CHUNK_SIZE * CHUNK_SIZE) as int,
        forall|i: int| 0 <= i < old(world)@.len() ==> final(world)@[i] == old(world)@[i],
        forall|i: int|
            old(world)@.len() <= i < final(world)@.len() ==> #[trigger] final(world)@[i]
                == spec_bare_entity(
                (*old(next_id) + (i - old(world)@.len())) as u64,
                EntityType::Tile,
                Tile {
                    cell: (
                        (start.0 + (i - old(world)@.len()) / (CHUNK_SIZE as int)) as u32,
                        start.1,
                        (start.2 + (i - old(world)@.len()) % (CHUNK_SIZE as int)) as u32,
                    ),
                },
            ),
{
    let total: usize = (CHUNK_SIZE * CHUNK_SIZE) as usize;
    let mut k: usize = 0;
    while k < total
        invariant
            k <= total,
            total == (CHUNK_SIZE * CHUNK_SIZE) as int,
            start.0 <= u32::MAX - CHUNK_SIZE,
            start.2 <= u32::MAX - CHUNK_SIZE,
            *old(next_id) <= u64::MAX - (CHUNK_SIZE * CHUNK_SIZE) as u64,
            *next_id == *old(next_id) + k,
            world@.len() == old(world)@.len() + k,
            world@.len() >= old(world)@.len(),
            forall|i: int| 0 <= i < old(world)@.len() ==> #[trigger] world@[i] == old(world)@[i],
            forall|i: int|
                old(world)@.len() <= i < world@.len() ==> #[trigger] world@[i]
                    == spec_bare_entity(
                    (*old(next_id) + (i - old(world)@.len())) as u64,
                    EntityType::Tile,
                    Tile {
                        cell: (
                            (start.0 + (i - old(world)@.len()) / (CHUNK_SIZE as int)) as u32,
                            start.1,
                            (start.2 + (i - old(world)@.len()) % (CHUNK_SIZE as int)) as u32,
                        ),
                    },
                ),
        decreases total - k,
    {
        let x = start.0 + (k as u32) / CHUNK_SIZE;
        let z = start.2 + (k as u32) % CHUNK_SIZE;
        proof {
            assert((k as u32) / CHUNK_SIZE < CHUNK_SIZE) by (nonlinear_arith)
                requires
                    k < (CHUNK_SIZE * CHUNK_SIZE) as int,
                    CHUNK_SIZE > 0,
            ;
            assert((k as u32) % CHUNK_SIZE < CHUNK_SIZE);
            assert((k as u32) / CHUNK_SIZE == k as int / (CHUNK_SIZE as int));
            assert((k as u32) % CHUNK_SIZE == k as int % (CHUNK_SIZE as int));
        }
        let id = *next_id;
        world.push(WorldEntity::bare(id, EntityType::Tile, Tile { cell: (x, start.1, z) }));
        *next_id = *next_id + 1;
        k = k + 1;
    }
}

/// The entity the walled room appends at offset `k`: one full wall side,
/// one side with an archway and a closed door at `z == 6`, one full side,
/// and one side with an archway and a door at `x == 6`; the two gapped
/// sides skip two segments each.
pub open spec fn room_entity(first_id: u64, k: int) -> WorldEntity {
    let id = (first_id + k) as u64;
    if k < 14 {
        spec_bare_entity(id, EntityType::Wall(Wall::Horizontal), Tile { cell: (0, 0, k as u32) })
    } else if k < 20 {
        spec_bare_entity(
            id,
            EntityType::Wall(Wall::Horizontal),
            Tile { cell: (13, 0, (k - 14) as u32) },
        )
    } else if k == 20 {
        spec_bare_entity(
            id,
            EntityType::Arch(crate::components::Arch::Horizontal),
            Tile { cell: (13, 0, 6) },
        )
    } else if k == 21 {
        WorldEntity {
            id,
            entity_type: EntityType::Door(crate::components::Door::Horizontal),
            tile: Tile { cell: (13, 0, 6) },
            player: None,
            health: None,
            target: None,
            combat_state: None,
            open_state: Some(OpenState::Closed),
            cooldowns: None,
            mob_state: None,
            mob_range: None,
            left_click: None,
        }
    } else if k < 27 {
        spec_bare_entity(
            id,
            EntityType::Wall(Wall::Horizontal),
            Tile { cell: (13, 0, (k - 13) as u32) },
        )
    } else if k < 41 {
        spec_bare_entity(
            id,
            EntityType::Wall(Wall::Horizontal),
            Tile { cell: ((k - 27) as u32, 0, 0) },
        )
    } else if k < 47 {
        spec_bare_entity(
            id,
            EntityType::Wall(Wall::Horizontal),
            Tile { cell: ((k - 41) as u32, 0, 13) },
        )
    } else if k == 47 {
        spec_bare_entity(
            id,
            EntityType::Arch(crate::components::Arch::Vertical),
            Tile { cell: (6, 0, 13) },
        )
    } else if k == 48 {
        spec_bare_entity(
            id,
            EntityType::Door(crate::components::Door::Vertical),
            Tile { cell: (6, 0, 13) },
        )
    } else {
        spec_bare_entity(
            id,
            EntityType::Wall(Wall::Horizontal),
            Tile { cell: ((k - 40) as u32, 0, 13) },
        )
    }
}

/// Append the walled room: wall segments around the border with a door and
/// archway gap on two sides, with sequential fresh ids — exactly 54
/// entities, entity `k` being `room_entity(k)`.
pub fn spawn_room(world: &mut Vec<WorldEntity>, next_id: &mut u64)
    requires
        *old(next_id) <= u64::MAX - 8 * (ROOM_SIZE as u64),
    ensures
        *final(next_id) == *old(next_id) + 54,
        final(world)@.len() == old(world)@.len() + 54,
        forall|i: int| 0 <= i < old(world)@.len() ==> final(world)@[i] == old(world)@[i],
        forall|i: int|
            old(world)@.len() <= i < final(world)@.len() ==> #[trigger] final(world)@[i]
                == room_entity(*old(next_id), i - old(world)@.len()),
{
    let ghost len0 = world@.len() as int;
    let ghost first = *old(next_id);
    let mut z: u32 = 0;
    while z < ROOM_SIZE
        invariant
            z <= ROOM_SIZE,
            len0 == old(world)@.len(),
            first == *old(next_id),
            first <= u64::MAX - 8 * (ROOM_SIZE as u64),
            *next_id == first + z,
            world@.len() == len0 + z,
            forall|i: int| 0 <= i < len0 ==> #[trigger] world@[i] == old(world)@[i],
            forall|i: int|
                len0 <= i < world@.len() ==> #[trigger] world@[i] == room_entity(first, i - len0),
        decreases ROOM_SIZE - z,
    {
        let id = *next_id;
        world.push(
            WorldEntity::bare(id, EntityType::Wall(Wall::Horizontal), Tile { cell: (0, 0, z) }),
        );
        *next_id = *next_id + 1;
        z = z + 1;
    }
    let mut z: u32 = 0;
    while z < ROOM_SIZE
        invariant
            z <= ROOM_SIZE,
            len0 == old(world)@.len(),
            first == *old(next_id),
            first <= u64::MAX - 8 * (ROOM_SIZE as u64),
            world@.len() == len0 + 14 + (if z <= 6 {
                z as int
            } else if z <= 9 {
                8
            } else {
                z - 1
            }),
            *next_id == first + (world@.len() - len0),
            forall|i: int| 0 <= i < len0 ==> #[trigger] world@[i] == old(world)@[i],
            forall|i: int|
                len0 <= i < world@.len() ==> #[trigger] world@[i] == room_entity(first, i - len0),
        decreases ROOM_SIZE - z,
    {
        if !(z >= 7 && z <= 8) {
            if z == 6 {
                let id = *next_id;
                world.push(
                    WorldEntity::bare(
                        id,
                        EntityType::Arch(crate::components::Arch::Horizontal),
                        Tile { cell: (ROOM_SIZE - 1, 0, z) },
                    ),
                );
                *next_id = *next_id + 1;
                let mut door = WorldEntity::bare(
                    *next_id,
                    EntityType::Door(crate::components::Door::Horizontal),
                    Tile { cell: (ROOM_SIZE - 1, 0, z) },
                );
                door.open_state = Some(OpenState::Closed);
                world.push(door);
                *next_id = *next_id + 1;
            } else {
                let id = *next_id;
                world.push(
                    WorldEntity::bare(
                        id,
                        EntityType::Wall(Wall::Horizontal),
                        Tile { cell: (ROOM_SIZE - 1, 0, z) },
                    ),
                );
                *next_id = *next_id + 1;
            }
        }
        z = z + 1;
    }
    let mut x: u32 = 0;
    while x < ROOM_SIZE
        invariant
            x <= ROOM_SIZE,
            len0 == old(world)@.len(),
            first == *old(next_id),
            first <= u64::MAX - 8 * (ROOM_SIZE as u64),
            world@.len() == len0 + 27 + x,
            *next_id == first + (world@.len() - len0),
            forall|i: int| 0 <= i < len0 ==> #[trigger] world@[i] == old(world)@[i],
            forall|i: int|
                len0 <= i < world@.len() ==> #[trigger] world@[i] == room_entity(first, i - len0),
        decreases ROOM_SIZE - x,
    {
        let id = *next_id;
        world.push(
            WorldEntity::bare(id, EntityType::Wall(Wall::Horizontal), Tile { cell: (x, 0, 0) }),
        );
        *next_id = *next_id + 1;
        x = x + 1;
    }
    let mut x: u32 = 0;
    while x < ROOM_SIZE
        invariant
            x <= ROOM_SIZE,
            len0 == old(world)@.len(),
            first == *old(next_id),
            first <= u64::MAX - 8 * (ROOM_SIZE as u64),
            world@.len() == len0 + 41 + (if x <= 6 {
                x as int
            } else if x <= 9 {
                8
            } else {
                x - 1
            }),
            *next_id == first + (world@.len() - len0),
            forall|i: int| 0 <= i < len0 ==> #[trigger] world@[i] == old(world)@[i],
            forall|i: int|
                len0 <= i < world@.len() ==> #[trigger] world@[i] == room_entity(first, i - len0),
        decreases ROOM_SIZE - x,
    {
        if !(x >= 7 && x <= 8) {
            if x == 6 {
                let id = *next_id;
                world.push(
                    WorldEntity::bare(
                        id,
                        EntityType::Arch(crate::components::Arch::Vertical),
                        Tile { cell: (x, 0, ROOM_SIZE - 1) },
                    ),
                );
                *next_id = *next_id + 1;
                let id = *next_id;
                world.push(
                    WorldEntity::bare(
                        id,
                        EntityType::Door(crate::components::Door::Vertical),
                        Tile { cell: (x, 0, ROOM_SIZE - 1) },
                    ),
                );
                *next_id = *next_id + 1;
            } else {
                let id = *next_id;
                world.push(
                    WorldEntity::bare(
                        id,
                        EntityType::Wall(Wall::Horizontal),
                        Tile { cell: (x, 0, ROOM_SIZE - 1) },
                    ),
                );
                *next_id = *next_id + 1;
            }
        }
        x = x + 1;
    }
}

/// The entity the starting floor appends at offset `k`: four chunks of
/// 100 floor tiles forming a 20-by-20 field, then the six segments of the
/// dividing wall at `x == 4`, `z` from 4 to 9.
pub open spec fn create_tiles_entity(first_id: u64, k: int) -> WorldEntity {
    if k < 400 {
        let sx: u32 = if k < 200 {
            0
        } else {
            10
        };
        let sz: u32 = if k % 200 < 100 {
            0
        } else {
            10
        };
        let off = k % 100;
        spec_bare_entity(
            (first_id + k) as u64,
            EntityType::Tile,
            Tile { cell: ((sx + off / 10) as u32, 0, (sz + off % 10) as u32) },
        )
    } else {
        spec_bare_entity(
            (first_id + k) as u64,
            EntityType::Wall(Wall::Vertical),
            Tile { cell: (4, 0, (4 + (k - 400)) as u32) },
        )
    }
}

/// Append the starting floor (four chunks forming a 20-by-20 field) and
/// the dividing wall at `x == 4`, `z` from 4 to 9: exactly 406 entities
/// with sequential fresh ids, entity `k` being `create_tiles_entity(k)`.
pub fn create_tiles(world: &mut Vec<WorldEntity>, next_id: &mut u64)
    requires
        *old(next_id) <= u64::MAX - 1000,
    ensures
        *final(next_id) == *old(next_id) + 406,
        final(world)@.len() == old(world)@.len() + 406,
        forall|i: int| 0 <= i < old(world)@.len() ==> final(world)@[i] == old(world)@[i],
        forall|i: int|
            old(world)@.len() <= i < final(world)@.len() ==> #[trigger] final(world)@[i]
                == create_tiles_entity(*old(next_id), i - old(world)@.len()),
{
    let ghost len0 = world@.len() as int;
    let ghost first = *old(next_id);
    spawn_chunk(world, next_id, (0, 0, 0));
    let ghost w1 = world@;
    spawn_chunk(world, next_id, (0, 0, 10));
    let ghost w2 = world@;
    spawn_chunk(world, next_id, (10, 0, 0));
    let ghost w3 = world@;
    spawn_chunk(world, next_id, (10, 0, 10));
    let ghost w4 = world@;
    proof {
        assert forall|i: int| len0 <= i < len0 + 400 implies #[trigger] w4[i]
            == create_tiles_entity(first, i - len0) by {
            let k = i - len0;
            if k < 100 {
                assert(w4[i] == w3[i] && w3[i] == w2[i] && w2[i] == w1[i]);
                assert(k % 200 == k && k % 100 == k);
            } else if k < 200 {
                assert(w4[i] == w3[i] && w3[i] == w2[i]);
                assert(k % 200 == k && k % 100 == k - 100);
                assert((i - w1.len()) == k - 100);
            } else if k < 300 {
                assert(w4[i] == w3[i]);
                assert(k % 200 == k - 200 && k % 100 == k - 200);
                assert((i - w2.len()) == k - 200);
            } else {
                assert(k % 200 == k - 200 && k % 100 == k - 300);
                assert((i - w3.len()) == k - 300);
            }
        }
    }
    let mut z: u32 = 4;
    while z < 10
        invariant
            4 <= z <= 10,
            first <= u64::MAX - 1000,
            len0 == old(world)@.len(),
            first == *old(next_id),
            *next_id == first + 400 + (z - 4),
            world@.len() == len0 + 400 + (z - 4),
            forall|i: int| 0 <= i < len0 ==> #[trigger] world@[i] == old(world)@[i],
            forall|i: int| len0 <= i < len0 + 400 ==> #[trigger] world@[i] == w4[i],
            forall|i: int|
                len0 + 400 <= i < world@.len() ==> #[trigger] world@[i] == create_tiles_entity(
                    first,
                    i - len0,
                ),
        decreases 10 - z,
    {
        let id = *next_id;
        world.push(
            WorldEntity::bare(id, EntityType::Wall(Wall::Vertical), Tile { cell: (4, 0, z) }),
        );
        *next_id = *next_id + 1;
        proof {
            let i = world@.len() - 1;
            assert(world@[i] == spec_bare_entity(id, EntityType::Wall(Wall::Vertical), Tile {
                cell: (4, 0, z),
            }));
            assert(z == 4 + ((i - len0) - 400));
        }
        z = z + 1;
    }
}

/// Append the wandering slime: 99 hit points, standing at `(4, 0, 4)`,
/// wandering east within `(1,0,1)..(10,0,10)`, attackable by click.
pub fn spawn_slime(world: &mut Vec<WorldEntity>, next_id: &mut u64) -> (event: SpawnEvent)
    requires
        *old(next_id) < u64::MAX,
    ensures
        *final(next_id) == *old(next_id) + 1,
        final(world)@.len() == old(world)@.len() + 1,
        forall|i: int| 0 <= i < old(world)@.len() ==> final(world)@[i] == old(world)@[i],
        ({
            let e = final(world)@[old(world)@.len() as int];
            &&& e.id == *old(next_id)
            &&& e.entity_type == EntityType::Slime(Slime)
            &&& e.tile == (Tile { cell: (4, 0, 4) })
            &&& e.health == Some(Health { hp: 99 })
            &&& e.mob_state matches Some(MobState::Wonder(Direction::East))
            &&& e.mob_range matches Some(r) && r.top_left == (Tile { cell: (1, 0, 1) })
                && r.bottom_right == (Tile { cell: (10, 0, 10) })
            &&& e.left_click == Some(LeftClick::Attack(*old(next_id)))
        }),
        event == (SpawnEvent {
            entity: *old(next_id),
            entity_type: EntityType::Slime(Slime),
            tile: Tile { cell: (4, 0, 4) },
        }),
{
    let id = *next_id;
    let mut slime = WorldEntity::bare(id, EntityType::Slime(Slime), Tile { cell: (4, 0, 4) });
    slime.health = Some(Health::new(99));
    slime.mob_state = Some(MobState::Wonder(Direction::East));
    slime.mob_range = Some(
        MobRange { top_left: Tile { cell: (1, 0, 1) }, bottom_right: Tile { cell: (10, 0, 10) } },
    );
    slime.left_click = Some(LeftClick::Attack(id));
    world.push(slime);
    *next_id = *next_id + 1;
    SpawnEvent::new(id, EntityType::Slime(Slime), Tile::new((4, 0, 4)))
}

/// Append the target dummy: 99 hit points, standing at `(1, 0, 1)`.
pub fn spawn_dummy(world: &mut Vec<WorldEntity>, next_id: &mut u64) -> (event: SpawnEvent)
    requires
        *old(next_id) < u64::MAX,
    ensures
        *final(next_id) == *old(next_id) + 1,
        final(world)@.len() == old(world)@.len() + 1,
        forall|i: int| 0 <= i < old(world)@.len() ==> final(world)@[i] == old(world)@[i],
        ({
            let e = final(world)@[old(world)@.len() as int];
            &&& e.id == *old(next_id)
            &&& e.entity_type == EntityType::Dummy(Dummy)
            &&& e.tile == (Tile { cell: (1, 0, 1) })
            &&& e.health == Some(Health { hp: 99 })
        }),
        event == (SpawnEvent {
            entity: *old(next_id),
            entity_type: EntityType::Dummy(Dummy),
            tile: Tile { cell: (1, 0, 1) },
        }),
{
    let id = *next_id;
    let mut dummy = WorldEntity::bare(id, EntityType::Dummy(Dummy), Tile { cell: (1, 0, 1) });
    dummy.health = Some(Health::new(99));
    world.push(dummy);
    *next_id = *next_id + 1;
    SpawnEvent::new(id, EntityType::Dummy(Dummy), Tile::new((1, 0, 1)))
}

} // verus!
