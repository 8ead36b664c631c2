//! Detection of processes that still map files which a package upgrade has
//! replaced, together with the command lines of a small pacman front end.
pub mod text;
pub mod order;
pub mod args;
pub mod ps;
pub mod report;
pub mod command;
pub mod utils;
pub mod cmds;
pub mod pacman;
pub mod pacrs;
pub mod files;
pub mod temp_db;
pub mod cli;
pub mod dispatch;
pub mod clean;
pub mod walk;
