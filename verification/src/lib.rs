//! Aurora TV core domain logic: playlist, guide and scheduling rules, verified.

pub mod events;
pub mod m3u;
pub mod markers;
pub mod model;
pub mod neterr;
pub mod parental;
pub mod pattern;
pub mod pin;
pub mod providers;
pub mod recommend;
pub mod rules;
pub mod scheduler;
pub mod series;
pub mod sources;
pub mod catchup;
pub mod civil;
pub mod classify;
pub mod dvr;
pub mod epg_match;
pub mod error;
pub mod failover;
pub mod fsname;
pub mod lang;
pub mod text;
pub mod timeshift;
pub mod title;
pub mod tmdb;
pub mod updates;
pub mod version;
pub mod window;
pub mod words;
pub mod xmltv;
pub mod xtream;
