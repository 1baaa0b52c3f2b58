//! What the operations are for, stated of their results.

pub mod answering;
pub mod arranging;
pub mod bundling;
pub mod commanding;
pub mod harvesting;
pub mod judging;
pub mod listing;
pub mod noticing;
pub mod reporting;
pub mod running;
pub mod settling;
pub mod texts;
pub mod walking;
pub mod writing;
