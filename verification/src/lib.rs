//! Elementary cellular automata rendered as scrolling pixel frames.
//!
//! The crate holds the bit-level automaton state ([`image_manip::bitmap::BitMap`]),
//! the transition rule, and the sliding-window frame builder that turns
//! successive generations into fixed-size pixel frames.

pub mod cli;
pub mod image_manip;
pub mod prog;
