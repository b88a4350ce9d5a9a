//! The verified logic of a small coding agent.
use vstd::prelude::*;

pub mod answers;
pub mod api;
pub mod autostart;
pub mod catalog;
pub mod changes;
pub mod clock;
pub mod conversation;
pub mod cron;
pub mod daemon;
pub mod diagnostics;
pub mod events;
pub mod exchange;
pub mod execution;
pub mod hash;
pub mod hierarchy;
pub mod ids;
pub mod json;
pub mod keys;
pub mod lists;
pub mod live;
pub mod merge;
pub mod message;
pub mod numbers;
pub mod overview;
pub mod paths;
pub mod payload;
pub mod project;
pub mod provider;
pub mod registry;
pub mod removal;
pub mod schedule;
pub mod schema;
pub mod screen;
pub mod session;
pub mod settings;
pub mod shell;
pub mod shutdown;
pub mod skills;
pub mod sort;
pub mod sse;
pub mod store;
pub mod stream;
pub mod table;
pub mod terminal;
pub mod text;
pub mod tls;
pub mod toolbox;
pub mod tools;
pub mod transcription;
pub mod upload;
pub mod workspace;

verus! {

} // verus!
