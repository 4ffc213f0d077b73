//! View model of a terminal browser over a working copy's file hierarchy.
//!
//! The core is the path tree (`file_tree`): it is built from a flat list of
//! paths, flattened into the rows that are visible, and navigated by a
//! selection. `model` holds the tree as a mathematical value and says what
//! each operation computes; `laws` states what holds of them whatever the
//! paths and the state, with the proofs in `order`, `insertion`, `content`,
//! `rows` and `lookup`. `path` and `text` work on paths and lines of text.
//!
//! Around the core stand the state of the application (`app`), the meaning of
//! keys (`keys`), and what the screen shows as text (`ui`, `helper`). Reading
//! the repository and drawing are left to the program that uses the library.

pub mod app;
pub mod content;
pub mod file_tree;
pub mod helper;
pub mod insertion;
pub mod keys;
pub mod laws;
pub mod lookup;
pub mod model;
pub mod order;
pub mod path;
pub mod rows;
pub mod text;
pub mod ui;
