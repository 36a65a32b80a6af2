//! Bootstrap launcher logic for the WhatSon application: finding the project
//! root, choosing a prebuilt executable, and deciding the build-and-run steps.
//!
//! Filesystem existence checks are handed in as closures, so every decision
//! here is a function of explicit inputs; spawning processes is left to the
//! caller.
use vstd::prelude::*;

pub mod paths;
pub mod search;
pub mod locator;
pub mod dispatch;

verus! {

} // verus!
