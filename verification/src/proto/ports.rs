//! The numbers that stand for ports, priorities and routing errors.

use vstd::prelude::*;

verus! {

/// Plain text.
pub const PORT_TEXT_MESSAGE: i32 = 1;

/// Positions.
pub const PORT_POSITION: i32 = 3;

/// Who a node is.
pub const PORT_NODE_INFO: i32 = 4;

/// Messages between routers.
pub const PORT_ROUTING: i32 = 5;

/// The priority of acknowledgements.
pub const PRIORITY_ACK: i32 = 120;

/// Why a packet was not delivered.
#[derive(Debug, Clone, Copy, PartialEq, Eq, Structural)]
pub enum RoutingError {
    /// No error: a plain acknowledgement.
    NoError,
    /// There is no route to the destination.
    NoRoute,
    /// A node on the way refused.
    GotNak,
    /// No answer in time.
    Timeout,
    /// There is no interface to send on.
    NoInterface,
    /// Sent as often as allowed.
    MaxRetransmit,
    /// The channel is not known.
    NoChannel,
    /// The packet is too large.
    TooLarge,
    /// The request was not answered.
    NoResponse,
    /// Sending now would exceed the duty cycle.
    DutyCycleLimit,
    /// The request makes no sense.
    BadRequest,
    /// The sender may not ask that.
    NotAuthorized,
    /// The public key cryptography failed.
    PkiFailed,
    /// The public key is not known.
    PkiUnknownPubkey,
    /// The session key of an administrator is wrong.
    AdminBadSessionKey,
    /// The public key of an administrator is not allowed.
    AdminPublicKeyUnauthorized,
    /// Too many packets.
    RateLimitExceeded,
    /// The public key for sending is missing.
    PkiSendFailPublicKey,
}

impl RoutingError {
    /// The number that stands for the error on the wire.
    pub open spec fn spec_number(self) -> i32 {
        match self {
            RoutingError::NoError => 0,
            RoutingError::NoRoute => 1,
            RoutingError::GotNak => 2,
            RoutingError::Timeout => 3,
            RoutingError::NoInterface => 4,
            RoutingError::MaxRetransmit => 5,
            RoutingError::NoChannel => 6,
            RoutingError::TooLarge => 7,
            RoutingError::NoResponse => 8,
            RoutingError::DutyCycleLimit => 9,
            RoutingError::BadRequest => 32,
            RoutingError::NotAuthorized => 33,
            RoutingError::PkiFailed => 34,
            RoutingError::PkiUnknownPubkey => 35,
            RoutingError::AdminBadSessionKey => 36,
            RoutingError::AdminPublicKeyUnauthorized => 37,
            RoutingError::RateLimitExceeded => 38,
            RoutingError::PkiSendFailPublicKey => 39,
        }
    }

    /// The number that stands for the error on the wire.
    #[verifier::when_used_as_spec(spec_number)]
    pub fn number(self) -> (r: i32)
        ensures
            r == self.spec_number(),
    {
        match self {
            RoutingError::NoError => 0,
            RoutingError::NoRoute => 1,
            RoutingError::GotNak => 2,
            RoutingError::Timeout => 3,
            RoutingError::NoInterface => 4,
            RoutingError::MaxRetransmit => 5,
            RoutingError::NoChannel => 6,
            RoutingError::TooLarge => 7,
            RoutingError::NoResponse => 8,
            RoutingError::DutyCycleLimit => 9,
            RoutingError::BadRequest => 32,
            RoutingError::NotAuthorized => 33,
            RoutingError::PkiFailed => 34,
            RoutingError::PkiUnknownPubkey => 35,
            RoutingError::AdminBadSessionKey => 36,
            RoutingError::AdminPublicKeyUnauthorized => 37,
            RoutingError::RateLimitExceeded => 38,
            RoutingError::PkiSendFailPublicKey => 39,
        }
    }
}

} // verus!
