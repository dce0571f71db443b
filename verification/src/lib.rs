//! The rules of a launcher: which items it lists and in which order, what keys and presses do
//! to the list, what is chosen and run, how a page of controls is laid out and answers, and
//! what a client and the daemon say to each other. Windows, files, fonts and sockets are left
//! to the program around it, which hands in plain values and carries out what comes back.

pub mod catalog;
pub mod daemon;
pub mod desktop;
pub mod filter;
pub mod fuzzel;
pub mod geometry;
pub mod history;
pub mod json_events;
pub mod json_layout;
pub mod json_paint;
pub mod keys;
pub mod launcher;
pub mod number;
pub mod options;
pub mod order;
pub mod protocol;
pub mod report;
pub mod session;
pub mod sizing;
pub mod split;
pub mod stdin_state;
pub mod text;
