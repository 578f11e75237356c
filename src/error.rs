use vstd::prelude::*;

verus! {

/// What can go wrong in choosing and planning the connection commands.
#[derive(Debug)]
pub enum BconnectError {
    /// The alias is not in the device map.
    BadDeviceString(String),
    /// Neither an alias nor the disconnect flag was given, or both were.
    Usage,
}

} // verus!
