//! The rules of the benilla client's data and host layer, with their contracts proved: the patch
//! chain's mount law and name resolution, the browser build's chain and read cache, the local web
//! host's request rules and WebSocket routes, and the client's probes and instruments.
use vstd::prelude::*;

pub mod text;
pub mod read_cache;
pub mod order;
pub mod chain;
pub mod listing;
pub mod addons;
pub mod data;
pub mod ws;
pub mod sysprof;
pub mod cvars;
pub mod journal;
pub mod char_create;
pub mod web_chain;
pub mod probe_bg;
pub mod census;
pub mod hover;
