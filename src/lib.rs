//! Best-fit selection of free blocks: four interchangeable strategies with
//! exact contracts, a packed workload generator driven by a seedable
//! generator, and the bookkeeping a benchmark driver needs around them.

pub mod location;
pub mod selection;
pub mod rng;
pub mod workload;
pub mod driver;
pub mod profiler;
