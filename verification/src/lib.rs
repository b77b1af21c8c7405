//! The logic of a read-only viewer for the changes in a workspace: scanning and
//! comparing files, reading what Git says, keeping the plugin's state, and a terminal
//! viewer that answers to results, keys and the mouse.
pub mod app;
pub mod cache;
pub mod cli;
pub mod context;
pub mod diff;
pub mod diffview;
pub mod error;
pub mod git;
pub mod keys;
pub mod layout;
pub mod model;
pub mod navigation;
pub mod path;
pub mod pointer;
pub mod project;
pub mod queue;
pub mod requests;
pub mod scene;
pub mod schedule;
pub mod scrollbar;
pub mod selection;
pub mod seqs;
pub mod sets;
pub mod sidebar;
pub mod snapshot;
pub mod sort;
pub mod source;
pub mod state;
pub mod style;
pub mod text;
pub mod viewer;
pub mod width;
pub mod worker;
