//! A persistent counter per user, stored at an address derived from the
//! user's identity, with checked single initialization and checked increment.
pub mod address;
pub mod counter;
pub mod laws;
