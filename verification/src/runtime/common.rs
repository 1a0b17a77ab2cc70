//! Values of the configuration that are checked when they are made.
use vstd::prelude::*;
use crate::error::ConfigError;

verus! {

/// `num::Integer::is_even` tells whether a number is divisible by two.
#[verifier::external_body]
fn is_even(port: u16) -> (even: bool)
    ensures
        even == (port % 2 == 0),
{
    num::Integer::is_even(&port)
}

/// The UDP port on which a RIST receiver listens for media: an even number
/// between 2 and 65534. Control packets go to the port above it.
#[derive(Debug, PartialEq, Eq)]
pub struct RistListenerPort(u16);

impl RistListenerPort {
    /// Whether `port` can be a listener port.
    pub open spec fn valid(port: u16) -> bool {
        port % 2 == 0 && 2 <= port <= 65534
    }

    /// The port number.
    pub closed spec fn number(&self) -> u16 {
        self.0
    }

    #[verifier::type_invariant]
    spec fn even_and_in_range(&self) -> bool {
        RistListenerPort::valid(self.0)
    }

    /// A listener port, if `port` is even and lies between 2 and 65534.
    pub fn new(port: u16) -> (r: Result<RistListenerPort, ConfigError>)
        ensures
            RistListenerPort::valid(port) ==> r is Ok && r->Ok_0.number() == port,
            !RistListenerPort::valid(port) ==> r is Err && r->Err_0
                == ConfigError::InvalidListenerPort,
    {
        if is_even(port) && 2 <= port && port <= 65534 {
            Ok(RistListenerPort(port))
        } else {
            Err(ConfigError::InvalidListenerPort)
        }
    }

    /// The port for media packets.
    pub fn port(&self) -> (port: u16)
        ensures
            port == self.number(),
            RistListenerPort::valid(port),
    {
        proof {
            use_type_invariant(self);
        }
        self.0
    }

    /// The port for control packets: the one above the media port.
    pub fn rtcp_port(&self) -> (port: u16)
        ensures
            port == self.number() + 1,
    {
        proof {
            use_type_invariant(self);
        }
        self.0 + 1
    }
}

} // verus!
