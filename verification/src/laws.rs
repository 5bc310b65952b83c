//! What the operations are for: relations between what goes in and what comes out,
//! said of the inputs and the results themselves.

pub mod boxes;
pub mod collecting;
pub mod fidelity;
pub mod fragments;
pub mod output;
pub mod prefetching;
pub mod ranges;
pub mod reading;
pub mod samples;
pub mod tracks;
pub mod values;
