//! Errors and destination addresses shared by every component.
use vstd::prelude::*;
use vstd::std_specs::iter::IteratorSpec;

verus! {

/// What can go wrong while building or using nets.
#[derive(Clone, Debug, PartialEq, Eq)]
pub enum Error {
    /// The net deliberately does not support the operation.
    NotImplemented,
    /// A referenced net or dependency is absent.
    NotFound(String),
    /// A configuration does not have the shape its kind expects.
    Deserialize(String),
    /// The underlying transport failed.
    IO(String),
    /// An opaque failure of a collaborating protocol layer.
    Other(String),
    /// The dependencies between configurations form a cycle.
    Cycle,
    /// A configuration was set or unset at the wrong time.
    InvalidState(String),
}

/// An IP address, as its integer value.
#[derive(Clone, Copy, Debug, PartialEq, Eq)]
pub enum IpAddress {
    V4(u32),
    V6(u128),
}

/// A destination: a domain name and a port, or a socket address.
#[derive(Clone, Debug, PartialEq, Eq)]
pub enum Address {
    Domain(String, u16),
    SocketAddr(IpAddress, u16),
}

/// The characters of a string slice, in order.
pub fn chars_of(s: &str) -> (r: Vec<char>)
    ensures
        r@ == s@,
{
    broadcast use vstd::string::axiom_spec_iter, vstd::string::next_postcondition;

    let mut it = s.chars();
    let mut r: Vec<char> = Vec::new();
    loop
        invariant
            r@ + it.remaining() == s@,
            it.decrease() is Some,
        decreases it.decrease()->0,
    {
        match it.next() {
            Some(c) => {
                r.push(c);
            },
            None => {
                return r;
            },
        }
    }
}

} // verus!
