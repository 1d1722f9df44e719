//! Small robots, read from the posts that announce them and stored once.
//!
//! A post announces one or more numbered robots with names that end in
//! "bot". [`parse`] reads them from the text of a post, [`robot`] gives each
//! its identity, and [`scribe`] says how to store them so that no robot is
//! stored twice. [`fetch`] cuts the ids of posts into requests and
//! [`timeline`] walks the pages of a user's timeline. None of these talks
//! to a service: they take what a service answered and say what to do next.
//!
//! What the `regex` and `unidecode` crates and parts of the standard library
//! compute is used through a few functions in [`pattern`], [`robot`],
//! [`text`] and [`fetch`] whose contracts are stated and not proved;
//! everything else is proved against them.

pub mod config;
pub mod fetch;
pub mod images;
pub mod model;
pub mod names;
pub mod nlpewee;
pub mod numbers;
pub mod parse;
pub mod pattern;
pub mod plural;
pub mod post;
pub mod robot;
pub mod sbb_data;
pub mod scribe;
pub mod services;
pub mod tagger;
pub mod text;
pub mod timeline;
pub mod timestamp;
pub mod tweet;
pub mod twitter;
