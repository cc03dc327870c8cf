//! Error types for the MeshCore library
use vstd::prelude::*;

verus! {

/// The main error type for MeshCore operations
#[derive(Debug)]
pub enum Error {
    /// Connection-related errors
    Connection(String),
    /// Protocol errors (malformed packets, unexpected responses)
    Protocol(String),
    /// Timeout waiting for response
    Timeout(String),
    /// Device returned an error
    Device(String),
    /// Invalid parameter provided
    InvalidParameter(String),
    /// Feature is disabled on device
    Disabled(String),
    /// Not connected to a device
    NotConnected,
    /// Channel send error
    Channel(String),
}

impl Error {
    /// Create a connection error
    pub fn connection(msg: String) -> (e: Error)
        ensures
            e == Error::Connection(msg),
    {
        Error::Connection(msg)
    }

    /// Create a protocol error
    pub fn protocol(msg: String) -> (e: Error)
        ensures
            e == Error::Protocol(msg),
    {
        Error::Protocol(msg)
    }

    /// Create a timeout error
    pub fn timeout(msg: String) -> (e: Error)
        ensures
            e == Error::Timeout(msg),
    {
        Error::Timeout(msg)
    }

    /// Create a device error
    pub fn device(msg: String) -> (e: Error)
        ensures
            e == Error::Device(msg),
    {
        Error::Device(msg)
    }

    /// Create an invalid parameter error
    pub fn invalid_param(msg: String) -> (e: Error)
        ensures
            e == Error::InvalidParameter(msg),
    {
        Error::InvalidParameter(msg)
    }

    /// The message a protocol error carries (an empty text for other kinds).
    pub open spec fn protocol_message(self) -> Seq<char> {
        match self {
            Error::Protocol(m) => m@,
            _ => Seq::empty(),
        }
    }

    /// The message an invalid-parameter error carries (an empty text for
    /// other kinds).
    pub open spec fn invalid_param_message(self) -> Seq<char> {
        match self {
            Error::InvalidParameter(m) => m@,
            _ => Seq::empty(),
        }
    }
}

} // verus!
