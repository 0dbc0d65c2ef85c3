//! An engine for interactive, branching stories.
//!
//! A story is a set of pages. Each page has text, actions that change
//! numeric flags, and links that are offered to the reader while their
//! conditions on those flags hold and their repeat limits allow.
//!
//! The modules, leaves first:
//! - [`error`]: the ways an operation can fail;
//! - [`flags`]: the flag store;
//! - [`story`]: pages, links, actions and conditions, and how a condition
//!   is evaluated;
//! - [`actions`]: how actions change the flag store;
//! - [`counters`]: repeat limits and the counters held against them;
//! - [`resolve`]: which links of a page can be selected;
//! - [`turn`]: what a selection means for the page it is made on;
//! - [`records`]: what is read off the page records when a story is built;
//! - [`alike`]: pages that differ in their counters only;
//! - [`graph`]: the pages of a story by id, built from page records, and
//!   the turns taken on them;
//! - [`engine`]: a graph together with the page the reader is on.

pub mod actions;
pub mod alike;
pub mod counters;
pub mod engine;
pub mod error;
pub mod flags;
pub mod graph;
pub mod records;
pub mod resolve;
pub mod story;
pub mod turn;

pub use engine::Engine;
pub use error::StoryError;
pub use flags::Flags;
pub use graph::StoryGraph;
pub use records::Diagnostic;
pub use resolve::LinkHandle;
pub use story::{
    ActionLink, ChoiceLink, Cond, CondCmp, FlagAction, FlagEffect, Link, Page, PageLink,
};
