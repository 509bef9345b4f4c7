//! The replicated data model: entity kinds, replicated component kinds,
//! click actions, commands and the replication message shapes.
//!
//! Entity identifiers are plain `u64` values. A message always carries ids
//! of the sender's namespace: server ids going to clients, and server ids
//! again coming back, since clients translate before sending.

use vstd::prelude::*;
use crate::tile::{Direction, Tile};

verus! {

/// The logical simulation step counter, authoritative on the server and
/// mirrored on clients; a logical clock, not wall-clock time.
#[derive(Clone, Copy, Debug, PartialEq, Eq, Structural, Hash)]
pub struct Tick {
    pub tick: u64,
}

/// Marker for an entity whose tile can be walked on by the planner.
#[derive(Clone, Copy, Debug)]
pub struct FloorTile;

/// Marker for a tile the planner must not cross.
#[derive(Clone, Copy, Debug)]
pub struct Untraversable;

/// Marker for the entity this client controls.
#[derive(Clone, Copy, Debug)]
pub struct ControlledEntity;

/// Marker for the root entity of a loaded world instance.
#[derive(Clone, Copy, Debug)]
pub struct Instance;

/// Replicated running flag.
#[derive(Clone, Copy, Debug, PartialEq, Eq, Structural)]
pub struct Running;

/// Player identity: the stable connection id that controls the entity.
#[derive(Clone, Copy, Debug, PartialEq, Eq, Structural)]
pub struct Player {
    pub id: u64,
}

/// A carryable sword.
#[derive(Clone, Copy, Debug, PartialEq, Eq, Structural)]
pub struct Sword;

/// Wall segments, by orientation.
#[derive(Clone, Copy, Debug, PartialEq, Eq, Structural)]
pub enum Wall {
    Horizontal,
    Vertical,
}

/// Door segments, by orientation.
#[derive(Clone, Copy, Debug, PartialEq, Eq, Structural)]
pub enum Door {
    Horizontal,
    Vertical,
}

/// Archway segments, by orientation.
#[derive(Clone, Copy, Debug, PartialEq, Eq, Structural)]
pub enum Arch {
    Horizontal,
    Vertical,
}

/// A pullable lever.
#[derive(Clone, Copy, Debug, PartialEq, Eq, Structural)]
pub struct Lever;

/// A target practice dummy.
#[derive(Clone, Copy, Debug, PartialEq, Eq, Structural)]
pub struct Dummy;

/// A wandering slime mob.
#[derive(Clone, Copy, Debug, PartialEq, Eq, Structural)]
pub struct Slime;

/// Replicated hit points.
#[derive(Clone, Copy, Debug, PartialEq, Eq, Structural)]
pub struct Health {
    pub hp: u16,
}

impl Health {
    /// A health component with `hp` hit points.
    pub fn new(hp: u16) -> (h: Health)
        ensures
            h.hp == hp,
    {
        Health { hp }
    }
}

/// Replicated combat target: the server id of the entity under attack,
/// if any.
#[derive(Clone, Copy, Debug, PartialEq, Eq)]
pub struct Target(pub Option<u64>);

/// Replicated combat state; `Punching` carries the tick the swing ends.
#[derive(Clone, Copy, Debug, PartialEq, Eq, Structural)]
pub enum CombatState {
    Idle,
    Punching(u64),
}

/// Replicated open/closed state of a door.
#[derive(Clone, Copy, Debug, PartialEq, Eq, Structural)]
pub enum OpenState {
    Open,
    Closed,
}

/// Bindable player abilities.
#[derive(Clone, Copy, Debug, PartialEq, Eq, Structural, Hash)]
pub enum Action {
    AutoAttack,
}

/// Per-entity ability cooldowns, as the tick at which the ability is
/// available again.
#[derive(Clone, Copy, Debug, PartialEq, Eq, Structural)]
pub struct CoolDowns {
    pub auto_attack: u64,
}

impl CoolDowns {
    /// Try to spend the auto-attack cooldown at `tick`. Succeeds exactly
    /// when the cooldown has expired, and then re-arms it 24 ticks ahead.
    pub fn cd_auto_attack(&mut self, tick: &Tick) -> (ready: bool)
        requires
            tick.tick + 24 <= u64::MAX,
        ensures
            ready == (old(self).auto_attack <= tick.tick),
            ready ==> final(self).auto_attack == tick.tick + 24,
            !ready ==> *final(self) == *old(self),
    {
        if self.auto_attack <= tick.tick {
            self.auto_attack = tick.tick + 24;
            true
        } else {
            false
        }
    }
}

/// What kind of game object an entity is, carrying just enough payload for
/// a receiver to construct a local representation. Used only at spawn time.
#[derive(Clone, Copy, Debug, PartialEq, Eq)]
pub enum EntityType {
    Tile,
    Player(Player),
    Sword(Sword),
    Wall(Wall),
    Door(Door),
    Lever(Lever),
    Dummy(Dummy),
    Slime(Slime),
    Arch(Arch),
}

/// The action performed on arrival at a clicked tile. Targets are entity
/// ids in the namespace of whoever holds the value.
#[derive(Clone, Copy, Debug, PartialEq, Eq)]
pub enum LeftClick {
    Walk,
    Attack(u64),
    Pickup(Option<u64>),
    Pull,
    Open(u64),
}

/// The replicated subset of component values. Each update event names
/// exactly one variant.
#[derive(Clone, Copy, Debug, PartialEq, Eq)]
pub enum ComponentType {
    Tile(Tile),
    Player(Player),
    Health(Health),
    Running(Running),
    Target(Target),
    CombatState(CombatState),
    OpenState(OpenState),
}

/// A client-to-server movement or interaction command.
#[derive(Clone, Copy, Debug, PartialEq, Eq)]
pub enum PlayerCommand {
    LeftClick(LeftClick, Tile),
    AutoAttack,
}

/// Connection lifecycle notices, broadcast on the reliable channel.
#[derive(Clone, Copy, Debug, PartialEq, Eq, Structural)]
pub enum ServerMessages {
    PlayerConnected { id: u64 },
    PlayerDisconnected { id: u64 },
}

/// Tells a client to materialize an entity: id, kind and position.
#[derive(Clone, Copy, Debug, PartialEq, Eq)]
pub struct SpawnEvent {
    pub entity: u64,
    pub entity_type: EntityType,
    pub tile: Tile,
}

impl SpawnEvent {
    /// Build a spawn event from its parts.
    pub fn new(entity: u64, entity_type: EntityType, tile: Tile) -> (e: SpawnEvent)
        ensures
            e.entity == entity,
            e.entity_type == entity_type,
            e.tile == tile,
    {
        SpawnEvent { entity, entity_type, tile }
    }
}

/// Tells a client to remove an entity.
#[derive(Clone, Copy, Debug, PartialEq, Eq, Structural)]
pub struct DespawnEvent(pub u64);

/// Tells a client one replicated component of an entity changed.
#[derive(Clone, Copy, Debug, PartialEq, Eq)]
pub struct UpdateEvent {
    pub entity: u64,
    pub component: ComponentType,
}

/// Tells a client one replicated component of an entity was removed.
#[derive(Clone, Copy, Debug, PartialEq, Eq)]
pub struct RemoveEvent {
    pub entity: u64,
    pub component: ComponentType,
}

/// A tick broadcast, mirroring the server clock.
#[derive(Clone, Copy, Debug, PartialEq, Eq, Structural)]
pub struct TickEvent(pub Tick);

/// A replication event addressed to one client, queued between the
/// detection stages and the send stage of a server tick.
#[derive(Clone, Copy, Debug, PartialEq, Eq)]
pub enum SyncEvent {
    Spawn(u64, SpawnEvent),
    Despawn(u64, DespawnEvent),
    Update(u64, UpdateEvent),
    Remove(u64, RemoveEvent),
}

/// A destination click as produced by the input layer: the clicked entity,
/// the action its kind implies, and the tile to walk to.
#[derive(Clone, Copy, Debug, PartialEq, Eq)]
pub struct ClickEvent {
    pub target: u64,
    pub left_click: LeftClick,
    pub destination: Tile,
}

impl ClickEvent {
    /// Build a click event from its parts.
    pub fn new(target: u64, left_click: LeftClick, destination: Tile) -> (e: ClickEvent)
        ensures
            e.target == target,
            e.left_click == left_click,
            e.destination == destination,
    {
        ClickEvent { target, left_click, destination }
    }
}

/// A door-opened notice, forwarded to clients that have the door in scope.
#[derive(Clone, Copy, Debug, PartialEq, Eq, Structural)]
pub struct OpenEvent {
    pub entity: u64,
}

/// Scoped server events forwarded on their own reliable channel.
#[derive(Clone, Copy, Debug, PartialEq, Eq, Structural)]
pub enum ServerEvents {
    OpenEvent(OpenEvent),
}

/// One entity's planned route: where it is coming from, where the click
/// sent it, and the action to perform on arrival.
#[derive(Clone, Copy, Debug, PartialEq, Eq)]
pub struct Path {
    pub destination: Tile,
    pub origin: Tile,
    pub left_click: LeftClick,
}

/// One `u32` axis moved a single cell toward `b`.
pub open spec fn step_toward(a: u32, b: u32) -> u32 {
    if a < b {
        (a + 1) as u32
    } else if a > b {
        (a - 1) as u32
    } else {
        a
    }
}

impl Path {
    /// Move `origin` one cell toward `destination`: each ground axis steps
    /// by one where it differs, and the `y` band is untouched.
    pub fn step(&mut self)
        ensures
            final(self).destination == old(self).destination,
            final(self).left_click == old(self).left_click,
            final(self).origin.cell.0 == step_toward(
                old(self).origin.cell.0,
                old(self).destination.cell.0,
            ),
            final(self).origin.cell.1 == old(self).origin.cell.1,
            final(self).origin.cell.2 == step_toward(
                old(self).origin.cell.2,
                old(self).destination.cell.2,
            ),
    {
        let mut direction = Direction::Bad;
        if self.origin.cell.0 < self.destination.cell.0
            && self.origin.cell.2 == self.destination.cell.2 {
            direction = Direction::North;
        }

        if self.origin.cell.0 > self.destination.cell.0
            && self.origin.cell.2 == self.destination.cell.2 {
            direction = Direction::South;
        }

        if self.origin.cell.0 == self.destination.cell.0
            && self.origin.cell.2 > self.destination.cell.2 {
            direction = Direction::West;
        }
        if self.origin.cell.0 == self.destination.cell.0
            && self.origin.cell.2 < self.destination.cell.2 {
            direction = Direction::East;
        }

        if self.origin.cell.0 < self.destination.cell.0
            && self.origin.cell.2 < self.destination.cell.2 {
            direction = Direction::NorthEast;
        }

        if self.origin.cell.0 < self.destination.cell.0
            && self.origin.cell.2 > self.destination.cell.2 {
            direction = Direction::NorthWest;
        }

        if self.origin.cell.0 > self.destination.cell.0
            && self.origin.cell.2 > self.destination.cell.2 {
            direction = Direction::SouthWest;
        }

        if self.origin.cell.0 > self.destination.cell.0
            && self.origin.cell.2 < self.destination.cell.2 {
            direction = Direction::SouthEast;
        }
        match direction {
            Direction::North => self.origin.cell.0 = self.origin.cell.0 + 1,
            Direction::East => self.origin.cell.2 = self.origin.cell.2 + 1,
            Direction::South => self.origin.cell.0 = self.origin.cell.0 - 1,
            Direction::West => self.origin.cell.2 = self.origin.cell.2 - 1,
            Direction::NorthEast => {
                self.origin.cell.0 = self.origin.cell.0 + 1;
                self.origin.cell.2 = self.origin.cell.2 + 1;
            },
            Direction::SouthEast => {
                self.origin.cell.0 = self.origin.cell.0 - 1;
                self.origin.cell.2 = self.origin.cell.2 + 1;
            },
            Direction::SouthWest => {
                self.origin.cell.0 = self.origin.cell.0 - 1;
                self.origin.cell.2 = self.origin.cell.2 - 1;
            },
            Direction::NorthWest => {
                self.origin.cell.0 = self.origin.cell.0 + 1;
                self.origin.cell.2 = self.origin.cell.2 - 1;
            },
            Direction::Bad => {},
        }
    }
}

} // verus!
