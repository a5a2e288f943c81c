//! Room, vote and login logic of a planning-poker board.

pub mod user;
pub mod text;
pub mod message;
pub mod rooms;
pub mod board;
pub mod table;
pub mod cards;
