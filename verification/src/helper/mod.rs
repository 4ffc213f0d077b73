//! Helpers of the user interface: what a file status shows, and where a
//! dialog stands.

pub mod helpers;
