//! Turns a log of job executions into a profile for a timeline viewer.
//!
//! Every record of the log (repository, job type, platform, job group and
//! duration) becomes a stack of four frames on a single thread, held for the
//! job's duration on a clock that adds the durations up. The job-type frame is
//! tagged with a category, which an ordered table of rules assigns to the
//! tokens of the job-type name.
//!
//! - `tokens`: splitting a job-type name into tokens.
//! - `categories`: category descriptors and the rule table.
//! - `registry`: what a rule table registers with a profile.
//! - `category_matcher`: resolving tokens to a category by the rule table.
//! - `timeline`: the samples that a run of jobs leaves.
//! - `converter`: the trace builder.
//! - `sink`, `cache`: the profile container and the memo of categories, with
//!   what is relied on of each.

pub mod cache;
pub mod categories;
pub mod category_matcher;
pub mod converter;
pub mod registry;
pub mod sink;
pub mod timeline;
pub mod tokens;

pub use categories::{CategoryColor, CategoryOrSubcategory, CategoryRule};
pub use category_matcher::CategoryMatcher;
pub use converter::{Converter, Row};
