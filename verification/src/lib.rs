use vstd::prelude::*;

pub mod config;
pub mod engine;
pub mod github;
pub mod readme;
pub mod system;
pub mod text;
