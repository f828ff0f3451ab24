//! Interactive credential-exchange library: discovers project identity
//! configurations from an environment snapshot, parses embedded account
//! lists in two textual formats, and drives the selection/authentication
//! session as an explicit state machine.

pub mod accounts;
pub mod catalog;
pub mod session;
pub mod text;
