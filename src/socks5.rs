//! Framing of SOCKS5 UDP datagrams.
use crate::error::Error;
use vstd::prelude::*;

verus! {

/// The length of the reserved bytes and the fragment number that open a
/// SOCKS5 UDP datagram.
pub const UDP_HEADER_LEN: usize = 3;

/// The position after the datagram header, which must be three zero bytes:
/// fragmented datagrams are not supported. A shorter buffer fails with `IO`
/// as a truncated read would, other header bytes with `Other`.
pub fn check_udp_header(buf: &[u8]) -> (r: Result<usize, Error>)
    ensures
        buf@.len() < 3 ==> r matches Err(Error::IO(_)),
        buf@.len() >= 3 ==> (r is Ok <==> (buf@[0] == 0 && buf@[1] == 0 && buf@[2] == 0)),
        buf@.len() >= 3 && r is Err ==> r matches Err(Error::Other(_)),
        r matches Ok(n) ==> n == UDP_HEADER_LEN,
{
    if buf.len() < UDP_HEADER_LEN {
        return Err(Error::IO("early eof".to_owned()));
    }
    if buf[0] == 0 && buf[1] == 0 && buf[2] == 0 {
        Ok(UDP_HEADER_LEN)
    } else {
        Err(Error::Other("server response wrong RSV or FRAG".to_owned()))
    }
}

/// The header that opens an unfragmented SOCKS5 UDP datagram.
pub fn udp_header() -> (r: Vec<u8>)
    ensures
        r@ == seq![0u8, 0u8, 0u8],
{
    vec![0u8, 0u8, 0u8]
}

} // verus!
