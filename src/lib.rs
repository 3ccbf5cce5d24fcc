//! Reconciliation of per-member voice channels and roles on a community
//! platform with the roster of a membership-tracking service.

pub mod apply;
pub mod diff;
pub mod entity;
pub mod error;
pub mod member;
pub mod pass;
pub mod position;
pub mod schedule;
pub mod setup;
pub mod stats;
pub mod text;
