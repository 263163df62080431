//! Workspace names that carry the icons of the applications running on them.
//!
//! A window manager tells which workspace got the focus and which lost it,
//! each with its tree of windows. From a workspace's tree come the
//! identifiers of its applications ([`nodes`]); the configuration gives each
//! identifier an icon ([`config`]); the icons are sorted, freed of duplicates
//! and joined ([`iconset`]); a template turns the workspace's number and the
//! icons into its new name ([`format`]); and the event loop decides which
//! rename commands to submit and when to stop ([`events`]). [`text`] holds
//! the work on characters that the others share.
//!
//! Contracts are stated over sequences of characters, the view of `String`.
pub mod config;
pub mod events;
pub mod format;
pub mod iconset;
pub mod nodes;
pub mod text;
