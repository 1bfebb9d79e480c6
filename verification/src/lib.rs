//! Xybrid: execution events and their listener, bundle packaging, the model
//! catalog and pipeline plans, with their behaviour stated and proved.
use vstd::prelude::*;

pub mod catalog;
pub mod listener;
pub mod pack;
pub mod plan;
pub mod sorted;
pub mod text;

verus! {

} // verus!
