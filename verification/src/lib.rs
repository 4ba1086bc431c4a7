use vstd::prelude::*;

pub mod discovery;
pub mod load;
pub mod order;
pub mod parceyaml;
pub mod state;
pub mod structs;
pub mod text;
pub mod webserver;

verus! {
}
