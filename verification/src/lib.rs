//! Core of a polling synchronization loop that watches an object store for
//! newly-arrived file pairs, groups them by a shared identifier prefix, plans
//! local staging and format normalization, and decides when a pair is ready to
//! hand to an external processor.
//!
//! The store client, the image codec and the external processor are outside
//! collaborators: this crate holds the decision logic between them — diffing
//! listings, deriving unit keys, grouping, and planning each unit's staging
//! and invocation — all of it verified.

pub mod detect;
pub mod grouping;
pub mod ids;
pub mod invoke;
pub mod staging;
pub mod tick;
