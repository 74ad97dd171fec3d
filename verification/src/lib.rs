use vstd::prelude::*;

pub mod apply;
pub mod cli;
pub mod cmd;
pub mod config;
pub mod db;
pub mod github;
pub mod ids;
pub mod laws;
pub mod order;
pub mod output;
pub mod proposal;
pub mod text;

verus! {
}
