//! Exchanges with a device that alternate between acting and deciding. Each is a
//! state that says what to do next, and takes in what came of it.
pub mod import;
pub mod pair;
pub mod rsd;
pub mod tunnel;
