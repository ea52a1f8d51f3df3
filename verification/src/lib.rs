use vstd::prelude::*;

pub mod text;
pub mod suggest;
pub mod units;
pub mod spinner;
pub mod cli;
pub mod config;
pub mod style;
pub mod errors;
pub mod template;
pub mod curl;
pub mod highlight;
pub mod listing;
pub mod response;

verus! {
}
