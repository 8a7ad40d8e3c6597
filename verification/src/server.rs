//! The decisions of the key-value server's loops.

use vstd::prelude::*;

verus! {

/// How long the server serves connections, in seconds.
pub const SERVE_SECS: u64 = 300;

/// Whether the server shuts down, after `elapsed_secs` whole seconds of
/// serving: once five minutes have passed.
pub fn server_should_stop(elapsed_secs: u64) -> (r: bool)
    ensures
        r == (elapsed_secs >= SERVE_SECS),
{
    elapsed_secs >= SERVE_SECS
}

/// Whether a connection is over, given what a receive on it returned: the
/// peer has closed it when nothing was received.
pub fn connection_closed(received: isize) -> (r: bool)
    ensures
        r == (received == 0),
{
    received == 0
}

} // verus!
