//! Deterministic simulation core of a grid-based, multiplayer Snake game.
//!
//! The library owns the grid, the snakes' bodies, the food cell, and the
//! tick-driven pipeline that steers, moves, feeds and grows the snakes and
//! decides when the game is over. Rendering, input devices and timers are left
//! to the caller, which hands the core one optional direction per player and
//! reads back positions and the game state.
pub mod components;
pub mod grid;
pub mod snake;
pub mod food;
pub mod game;
