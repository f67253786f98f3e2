use vstd::prelude::*;

verus! {

/// Why an exchange ended without an upstream response.
#[derive(Clone, Copy, Debug, PartialEq, Eq, Structural)]
pub enum Fault {
    /// The path does not have the shape `/{prefix}/v1...`.
    BadRequest,
    /// No route matches the path.
    NotFound,
    /// The upstream could not be reached (connection, DNS, timeout).
    BadGateway,
    /// A body, inbound or from the upstream, could not be read.
    InternalError,
    /// The inbound method is not a token that can be sent on.
    MethodNotSupported,
}

pub open spec fn status_of(f: Fault) -> u16 {
    match f {
        Fault::BadRequest => 400,
        Fault::NotFound => 404,
        Fault::BadGateway => 502,
        Fault::InternalError => 500,
        Fault::MethodNotSupported => 501,
    }
}

impl Fault {
    /// The HTTP status code surfaced for this fault.
    pub fn status_code(&self) -> (r: u16)
        ensures
            r == status_of(*self),
    {
        match self {
            Fault::BadRequest => 400,
            Fault::NotFound => 404,
            Fault::BadGateway => 502,
            Fault::InternalError => 500,
            Fault::MethodNotSupported => 501,
        }
    }
}

} // verus!
