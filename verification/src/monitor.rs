pub mod buring_threads_monitor;
pub mod cond_pair;
pub mod rcpu;
