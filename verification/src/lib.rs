//! The logic of a terminal adventure game: its world model, the player,
//! quests, battles and the command interpreter.
pub mod text;
pub mod structs;
pub mod player;
pub mod quest;
pub mod battle;
pub mod world;
pub mod game;
pub mod commands;
pub mod actions;
pub mod laws;
