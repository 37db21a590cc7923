use vstd::prelude::*;

pub mod arch;
pub mod config;
pub mod cpu_profile;
pub mod cuda;
pub mod dispatch;
pub mod dtype;
pub mod error;
pub mod fabric;
pub mod file;
pub mod json;
pub mod kernels;
pub mod lfm2;
pub mod meta;
pub mod output;
pub mod paging;
pub mod plan;
pub mod quant;
pub mod reader;
pub mod ring;
pub mod run;
pub mod scheduler;
pub mod shape;
pub mod swap;
pub mod text;
pub mod tools;

verus! {

} // verus!
