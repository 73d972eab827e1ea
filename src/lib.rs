//! Prime search by trial division against the primes already found, with
//! interval-driven progress reporting.

pub mod num_lang;
pub mod primality;
pub mod report;
pub mod candidates;
pub mod search;
pub mod timing;
