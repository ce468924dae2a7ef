//! Configuration commands that are declared but do nothing yet.
use vstd::prelude::*;
use crate::errors::Error;

verus! {

/// Showing the configuration is not available yet.
pub fn command_config_show() -> (r: Result<(), Error>)
    ensures
        r == Err::<(), Error>(Error::NotYetImplemented),
{
    Err(Error::NotYetImplemented)
}

/// Listing the nodes is not available yet.
pub fn command_config_nodes_list() -> (r: Result<(), Error>)
    ensures
        r == Err::<(), Error>(Error::NotYetImplemented),
{
    Err(Error::NotYetImplemented)
}

/// Listing the object entries of a node is not available yet.
pub fn command_config_object_entries_list(node: String) -> (r: Result<(), Error>)
    ensures
        r == Err::<(), Error>(Error::NotYetImplemented),
{
    Err(Error::NotYetImplemented)
}

} // verus!
