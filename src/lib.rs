//! Decision engine of an attention-control daemon: categories of online
//! resources, rules that block them on a daily schedule, permits that unblock
//! them for a while, and the tabs and processes that are closed or killed
//! when a category is effectively blocked.

pub mod activity;
pub mod bits;
pub mod config;
pub mod dbus;
pub mod engine;
pub mod filters;
pub mod interval;
pub mod lookups;
pub mod permits;
pub mod processes;
pub mod rules;
pub mod tabs;
pub mod time;
pub mod webext;
