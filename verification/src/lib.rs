//! Tracks which weekly reservation slots are believed bookable and detects
//! when slots newly open up or are taken by someone else.
//!
//! The engine decodes a weekly status grid into slots, keeps the set of slots
//! currently believed available, prunes slots whose date has passed, and
//! builds the notification text whenever the set changed.

pub mod availability;
pub mod checker;
pub mod date;
pub mod login_info;
pub mod notifier;
pub mod slot;
pub mod text;
