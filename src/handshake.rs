//! The opening handshake: the accept key and the 101 response that switches
//! a connection from HTTP to WebSocket.
use vstd::prelude::*;
use vstd::string::*;
use vstd::utf8::*;

verus! {

/// Fixed GUID that RFC 6455 appends to the client's key before hashing.
pub const WEBSOCKET_GUID: &'static str = "258EAFA5-E914-47DA-95CA-C5AB0DC85B11";

/// Status line and headers of the 101 response, up to the accept key.
pub const SWITCHING_HEAD: &'static str = "HTTP/1.1 101 Switching Protocols\r\nConnection: Upgrade\r\nSec-WebSocket-Accept: ";

/// What follows the accept key in the 101 response.
pub const SWITCHING_TAIL: &'static str = "\r\nUpgrade: websocket\r\n\r\n";

/// The SHA-1 digest of a byte sequence.
pub uninterp spec fn sha1_of(data: Seq<u8>) -> Seq<u8>;

/// The padded, standard-alphabet base64 text of a byte sequence.
pub uninterp spec fn base64_of(data: Seq<u8>) -> Seq<char>;

/// The accept key that answers the client key `key`.
pub open spec fn accept_key_of(key: Seq<char>) -> Seq<char> {
    base64_of(sha1_of(encode_utf8(key + WEBSOCKET_GUID@)))
}

/// The complete 101 response that carries `accept`.
pub open spec fn switching_response(accept: Seq<char>) -> Seq<char> {
    SWITCHING_HEAD@ + accept + SWITCHING_TAIL@
}

/// Relies on sha1::Sha1 through digest::Digest::digest: the 20-byte SHA-1
/// digest of `data`.
#[verifier::external_body]
fn sha1_digest(data: &[u8]) -> (r: Vec<u8>)
    ensures
        r@ == sha1_of(data@),
        r@.len() == 20,
{
    <sha1::Sha1 as sha1::Digest>::digest(data).to_vec()
}

/// Relies on base64::encode: the standard, padded base64 text of `data`,
/// four characters for every started group of three bytes.
#[verifier::external_body]
fn base64_encode(data: &[u8]) -> (r: String)
    ensures
        r@ == base64_of(data@),
        r@.len() == 4 * ((data@.len() + 2) / 3),
{
    base64::encode(data)
}

/// Computes the `Sec-WebSocket-Accept` value for a client key.
pub fn build_ws_accept_key(upgrade_key: &str) -> (r: String)
    ensures
        r@ == accept_key_of(upgrade_key@),
        r@.len() == 28,
{
    let mut appended: String = String::from_str(upgrade_key);
    appended.append(WEBSOCKET_GUID);
    let digest: Vec<u8> = sha1_digest(appended.as_str().as_bytes());
    base64_encode(digest.as_slice())
}

/// Builds the 101 response around an accept key.
pub fn build_response(accept_key: String) -> (r: String)
    ensures
        r@ == switching_response(accept_key@),
{
    let mut response: String = String::from_str(SWITCHING_HEAD);
    response.append(accept_key.as_str());
    response.append(SWITCHING_TAIL);
    response
}

/// Builds the 101 response that accepts the upgrade asked for with
/// `upgrade_key`.
pub fn upgrade_to_websocket(upgrade_key: &String) -> (r: String)
    ensures
        r@ == switching_response(accept_key_of(upgrade_key@)),
        r@.len() == SWITCHING_HEAD@.len() + 28 + SWITCHING_TAIL@.len(),
{
    let accept_key: String = build_ws_accept_key(upgrade_key.as_str());
    build_response(accept_key)
}

} // verus!
