//! A reflector for the data files that game servers publish.
//!
//! It serves the files from memory, from disk or from upstream ([`live`]), and keeps every
//! distinct version of each in an [`archive`], from which they can be served as they were at an
//! earlier time ([`snapshot`]). The points in time at which all files can be shown make up the
//! [`timeline`] of a server ([`history`]). Requests come in through [`serve`] and [`history`].
//!
//! The library decides and computes. Files, sockets and clocks are the caller's: what takes work
//! outside is a sequence of steps, each of which asks for one piece of it and is answered by its
//! method.

pub mod archive;
pub mod cache;
pub mod external;
pub mod hash;
pub mod history;
pub mod laws;
pub mod listing;
pub mod live;
pub mod order;
pub mod request;
pub mod rows;
pub mod serve;
pub mod snapshot;
pub mod sort;
pub mod state;
pub mod text;
pub mod timeline;
pub mod version;
