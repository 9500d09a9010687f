//! A diff viewer with persistent annotations.
//!
//! The library decides what the viewer shows and does. Texts of files, rows of
//! the database, keys and other events come in as plain values; what is to be
//! drawn, and what is to be done outside, goes out as plain values. [`state`]
//! holds the application, [`input`] takes keys, and [`action`] says what is asked
//! for.
pub mod action;
pub mod ai;
pub mod annotate;
pub mod args;
pub mod beside;
pub mod commands;
pub mod compose;
pub mod config;
pub mod diff;
pub mod display;
pub mod expand;
pub mod export;
pub mod help;
pub mod input;
pub mod intraline;
pub mod keys;
pub mod list;
pub mod names;
pub mod navigate;
pub mod number;
pub mod outside;
pub mod palette;
pub mod panes;
pub mod paths;
pub mod reading;
pub mod render;
pub mod schedule;
pub mod screen;
pub mod search;
pub mod spans;
pub mod stage;
pub mod state;
pub mod steps;
pub mod storage;
pub mod stream;
pub mod style;
pub mod syntax;
pub mod tables;
pub mod text;
pub mod views;
pub mod visible;
pub mod watch;
