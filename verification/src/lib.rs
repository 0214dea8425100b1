//! The discrete core of a paddle-and-ball brick breaker.
//!
//! The library decides; it does not move anything. It reads a level from
//! its text grid (`level`), keeps the blocks of a level in play and picks
//! what a ball strikes first (`collision`, `playfield`), and leads the game
//! through its scenes, with score and balls in reserve (`game`). All its
//! quantities are integers.
//!
//! The continuous side is the caller's: it moves paddle and balls, finds on
//! each flight of a ball the times at which the ball would touch each
//! obstacle, and hands them in as candidates. A time travels as a key that
//! keeps the order of the times; the library compares keys and never reads
//! a time. What the library answers (the contact that counts, the block
//! that fell, the scene that follows) the caller turns back into motion.

pub mod collision;
pub mod game;
pub mod level;
pub mod playfield;
