//! The simulation core of two small 2D games: an arena in which a player
//! collects stars and keeps clear of roaming enemies, and a paddle game.
//!
//! The core owns the entities, moves them frame by frame, keeps them inside
//! the play-field, finds the contacts between them and brings new entities
//! when its timers fire. It draws nothing and plays nothing: each frame takes
//! the elapsed time, the field's extents and the player's intent, and hands
//! back a list of events for the host to act on.
//!
//! All arithmetic is on whole numbers. Lengths are thousandths of a pixel,
//! direction components are millionths, durations are nanoseconds.

pub mod arena;
pub mod collision;
pub mod contact;
pub mod event;
pub mod field;
pub mod frame;
pub mod motion;
pub mod pass;
pub mod pong;
pub mod random;
pub mod spawn;
pub mod store;
pub mod timer;
pub mod vector;
