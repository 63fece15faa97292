//! An interactive explorer for a locally installed software-package database.
//!
//! The crate builds an immutable package index together with the derived
//! dependant graph, and drives a three-pane navigator (dependants, all
//! packages, dependencies) through user intents: moving the selection,
//! switching the active pane, toggling sort order and the explicit-only
//! filter, promoting a side-pane entry to the center, and circular search.

pub mod index;
pub mod navigator;
pub mod packages;
pub mod pane;
pub mod strutil;
