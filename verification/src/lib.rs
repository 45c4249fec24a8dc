//! The core of a package manager for game add-ons.
//!
//! The library keeps a catalog of entries, finds entries in it, resolves
//! what an entry requires and plans what an install has to fetch. It never
//! touches the network or the disk itself: it is told what came in and
//! says what to do next, so that everything it decides can be stated and
//! proved.
//!
//! - [`curse`] holds the catalog's data model and the lookups by id, by
//!   slug and by reference, [`name_search`] the lookups by name.
//! - [`dep_resolver`] resolves required dependencies against the metadata
//!   service, one answer at a time, into a [`resolved_set`];
//!   [`remote_graph`] states what such a resolution comes to.
//!   [`local_deps`] resolves against the catalog alone.
//! - [`local_db`] turns the remote feed into the local snapshot and decides
//!   how the snapshot is loaded.
//! - [`install`] plans the downloads of an install and judges its outcome,
//!   with [`progress`] counting the bytes.
//! - [`manifest`], [`mc_instance`], [`fancy_log`], [`utils`] and [`text`]
//!   serve the commands around these.

pub mod curse;
pub mod dep_resolver;
pub mod error;
pub mod fancy_log;
pub mod install;
pub mod local_db;
pub mod local_deps;
pub mod manifest;
pub mod mc_instance;
pub mod name_search;
pub mod progress;
pub mod remote_graph;
pub mod resolved_set;
pub mod text;
pub mod utils;
