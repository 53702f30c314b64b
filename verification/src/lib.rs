//! Verified core of the rift window manager: command-line splitting for
//! startup commands, pixel geometry, and the decisions behind layout
//! animation (which windows animate, jump or move directly, how frames are
//! batched per application, and when windows are resized).

pub mod actor;
pub mod common;
pub mod sys;
