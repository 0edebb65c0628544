//! The stored configuration, as plain values.
use vstd::prelude::*;

verus! {

/// What is kept between runs: the session cookie.
#[derive(Debug)]
pub struct Conf {
    pub session_id: String,
}

/// The configuration could not be read or written.
#[derive(Debug)]
pub struct ConfError {
    pub msg: String,
}

} // verus!
