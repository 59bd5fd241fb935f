//! Issue-tracking domain logic: entity lifecycles, automation templates,
//! claims, sync merges, search helpers and integrity checks.

pub mod text;
pub mod models;
pub mod store;
pub mod domain;
pub mod automation;
pub mod claim;
pub mod display;
pub mod embeddings;
pub mod search;
pub mod validate;
pub mod formats;
pub mod merge;
pub mod fetch;
pub mod resolve;
pub mod context;
pub mod rank;
pub mod status;
pub mod eventlog;
pub mod conflicts;
pub mod contention;
pub mod insights;
pub mod timeline;
pub mod parsing;
pub mod doctor;
pub mod creation;
pub mod dashboard;
pub mod github;
pub mod reply;
pub mod listing;
pub mod milestones;
pub mod changes;
pub mod board;
pub mod tree;
pub mod overlaps;
pub mod workflow;
pub mod create;
pub mod findings;
