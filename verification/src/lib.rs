//! The core of a feeder that bridges the Tribler network into a gateway.
//!
//! What a Tribler core finds becomes records ([`item`], [`classify`],
//! [`infohash`], [`url`]), a stream of search events ([`events`], [`feed`],
//! [`search`], [`stream`], [`expand`]) and, once resolved, content ids
//! ([`resolve`], [`metainfo`], [`hash`], [`ipfs`]). TMDB answers what is popular
//! ([`discovery`]) and enriches records ([`enrich`], [`title`], [`tmdb`]) within
//! a budget of requests ([`tmdb_budget`]).
//!
//! Requests, the clock, the cache and the event loop stay outside: the functions
//! here take what came in and tell what is to be done.
pub mod base32;
pub mod classify;
pub mod consts;
pub mod discovery;
pub mod enrich;
pub mod events;
pub mod expand;
pub mod feed;
pub mod hash;
pub mod infohash;
pub mod ipfs;
pub mod item;
pub mod json;
pub mod keymap;
pub mod metainfo;
pub mod number;
pub mod plugin;
pub mod rank;
pub mod record;
pub mod resolve;
pub mod search;
pub mod stream;
pub mod text;
pub mod title;
pub mod tmdb;
pub mod tmdb_budget;
pub mod url;
pub mod varint;
