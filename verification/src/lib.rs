//! Synchronisation engine that mirrors a local directory tree onto a remote
//! storage zone: discovery of the remote tree, diffing into a plan, content
//! based change detection, bookkeeping for concurrent execution and the remote
//! session lock.
//!
//! The engine performs no input or output itself. It builds the requests that
//! a transport has to send and decides what follows from each answer.
//!
//! - `session`: the set-up of a session and the order of its steps.
//! - `lock`: taking and releasing the remote lock.
//! - `crawl`: discovery of the remote tree, directory by directory.
//! - `api`: the requests to the store, and the tree that a listing describes.
//! - `planning`: the plan, and the resolution of its entries.
//! - `execute`: what is sent for an entry, and the count of the results.
//! - `checksum`, `pathmap`, `text`: digests, trees and paths.
//! - `cli`, `error`: the parameters of a session and its failures.

pub mod api;
pub mod checksum;
pub mod cli;
pub mod crawl;
pub mod error;
pub mod execute;
pub mod lock;
pub mod pathmap;
pub mod planning;
pub mod session;
pub mod text;
