//! Release notes from version-control history and tracker stories.
//!
//! For each configured repository the commits that are reachable from the
//! next branch and not yet released are found ([`git`]), linked to the
//! stories that their messages name ([`shortcut`]), and the stories and their
//! epics are fetched in two rounds ([`shortcut::release`]). What comes out is
//! the content of a release ([`release`]), which a template renders with the
//! help of a few filters ([`template`]).
//!
//! The library decides and computes; it reads no repository and calls no
//! tracker. Where the outside world has to be asked, a function hands back
//! what is to be asked next and takes the answer in its next call.

pub mod config;
pub mod git;
pub mod pattern;
pub mod release;
pub mod repo_commits;
pub mod shortcut;
pub mod template;
pub mod types;

pub use crate::release::Release;
