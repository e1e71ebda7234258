//! Prime filtering over large integer ranges, split into work units that an
//! accelerator checks in parallel, with a bounded divisor cache, a bounded
//! pool of submission slots and a pull-based result stream.

pub mod bench;
pub mod config;
pub mod divisor_cache;
pub mod executor;
pub mod filter;
pub mod partition;
pub mod primality;
pub mod profiled;
pub mod slots;
pub mod stream;
