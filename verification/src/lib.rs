//! Discovery of build-system packages in a workspace tree.
//!
//! The library holds the rules and leaves every filesystem access to its
//! caller: the caller looks at the disk and hands over plain facts, the
//! library decides what they mean and what to look at next.
//!
//! - [`normalize`] brings the paths that a user named into one form.
//! - [`ignore`], [`manifest`] and [`scan`] classify a single directory.
//! - [`walk`] searches below one root and [`collect`] below all of them;
//!   [`tree`] and [`search`] say what these searches come to on a given
//!   directory tree, and [`disk`] what the whole discovery comes to on one
//!   state of the disk.
//! - [`aggregate`] and [`listing`] turn what was found into the lines of a
//!   listing, in the order that [`order`] defines.
//! - [`symlink`] and [`provision`] link compile-command databases into
//!   the source directories of the packages that were found.

pub mod aggregate;
pub mod collect;
pub mod dedup;
pub mod disk;
pub mod ignore;
pub mod listing;
pub mod manifest;
pub mod normalize;
pub mod order;
pub mod package;
pub mod path;
pub mod provision;
pub mod scan;
pub mod search;
pub mod symlink;
pub mod text;
pub mod tree;
pub mod walk;
