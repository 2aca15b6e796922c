//! A match-three puzzle board and the turn-based battle that it drives.
//!
//! The board is a fixed grid of tiles, each holding at most one gem. A player
//! drags one gem across the grid, the board finds and clears runs of equal
//! gems, lets the remaining gems fall and refills the columns, and hands the
//! cleared groups to the battle, which turns them into damage and healing.

pub mod animation;
pub mod battle;
pub mod board;
pub mod cards;
pub mod chance;
pub mod despawn;
pub mod element;
pub mod fall;
pub mod grid;
pub mod id_set;
pub mod main_state;
pub mod matching;
pub mod player;
pub mod pointer;
pub mod timing;
pub mod tween;
