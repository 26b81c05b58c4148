//! Minimal HTTP/1.1 POST assembly for the publish pipeline.
//!
//! One request per reading: fixed target, JSON body, `Connection:
//! keep-alive` so the single connection is reused across publishes. The
//! `Content-Length` header always carries the exact byte length of the body.

use crate::environment_sensor::EnvironmentReading;
use crate::json::{dec_rep, format_body, json_body, push_str_bytes, push_u64_dec};
use vstd::prelude::*;
use vstd::string::StringSliceAdditionalSpecFns;

verus! {

/// Destination of the publish requests, fixed at build time.
pub const SERVER_PORT: u16 = 8080;

/// The four octets of the collector's IPv4 address, fixed at build time.
pub fn server_ip_octets() -> (r: (u8, u8, u8, u8))
    ensures
        r == (192u8, 168u8, 100u8, 14u8),
{
    (192, 168, 100, 14)
}

/// The request line and headers for a body of `body_len` bytes.
pub open spec fn request_head(body_len: int) -> Seq<u8> {
    ("POST /reading HTTP/1.1\r\nHost: local\r\nContent-Type: application/json\r\nContent-Length: ").spec_bytes()
        + dec_rep(body_len) + ("\r\nConnection: keep-alive\r\n\r\n").spec_bytes()
}

/// A publish request ready to go on the wire: header bytes, then body bytes.
pub struct PublishRequest {
    pub head: Vec<u8>,
    pub body: Vec<u8>,
}

impl PublishRequest {
    /// Whether the request is exactly the wire encoding of `reading`: the
    /// body is the reading's serialized form and the header declares the
    /// body's exact byte length.
    pub open spec fn is_for(&self, reading: EnvironmentReading) -> bool {
        &&& self.body@ == json_body(
            reading.temperature_centi as int,
            reading.humidity_centi as int,
        )
        &&& self.head@ == request_head(self.body@.len() as int)
    }
}

/// Build the header for a body of `body_len` bytes. `Content-Length` is the
/// decimal of exactly `body_len`.
pub fn build_request_head(body_len: usize) -> (head: Vec<u8>)
    ensures
        head@ == request_head(body_len as int),
{
    let mut head: Vec<u8> = Vec::new();
    push_str_bytes(
        &mut head,
        "POST /reading HTTP/1.1\r\nHost: local\r\nContent-Type: application/json\r\nContent-Length: ",
    );
    push_u64_dec(&mut head, body_len as u64);
    push_str_bytes(&mut head, "\r\nConnection: keep-alive\r\n\r\n");
    proof {
        assert(head@ =~= request_head(body_len as int));
    }
    head
}

/// Serialize `reading` and wrap it in its request: the returned header and
/// body are consistent — the declared `Content-Length` is the body's exact
/// byte length.
pub fn build_publish_request(reading: &EnvironmentReading) -> (r: PublishRequest)
    ensures
        r.is_for(*reading),
{
    let body = format_body(reading);
    let head = build_request_head(body.len());
    PublishRequest { head, body }
}

} // verus!
