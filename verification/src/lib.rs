//! Simulation core of a turn-based dungeon crawl: a procedural level
//! generator and an entity, combat, item and behaviour engine that advances
//! the world one turn at a time.
//!
//! The core draws nothing and reads no keys. It is handed the player's
//! intent and the cells that the player sees, and it hands back the grid,
//! the entities, the log and the frame to draw.
//!
//! Every function carries a contract that Verus proves. Contracts speak of
//! views: a grid is a sequence of columns of tiles, an entity is itself
//! with its name as a sequence of characters, the log is its lines and its
//! bound. What a function does to the world is given as a function of the
//! world before it, so the same world, dice and intent always give the
//! same world after it.
//!
//! Three calls leave the library, each behind a wrapper whose contract is
//! believed and not proved: the draw of a random number in `dice`, the
//! points of a straight line in `mapgen`, and the string of one character
//! in `text`.
//!
//! - `color`, `enums`, `rect`, `text`: the small types and helpers.
//! - `dice`: the seedable source of randomness.
//! - `map`, `fov`, `messages`: the tile grid, the visibility grid, the log.
//! - `object`: entities, their components, combat and merging.
//! - `store`: the arena of entities: two slots at once, collision,
//!   movement, picking up.
//! - `mapgen`: the level generator.
//! - `ai`: the behaviour state machine.
//! - `items`: targeting and the effect of each kind of item.
//! - `view`, `frame`, `menu`: what the presentation layer reads.
//! - `game`: one whole turn.

pub mod color;
pub mod enums;
pub mod text;
pub mod messages;
pub mod dice;
pub mod rect;
pub mod map;
pub mod object;
pub mod fov;
pub mod store;
pub mod mapgen;
pub mod ai;
pub mod items;
pub mod view;
pub mod menu;
pub mod game;
pub mod frame;
