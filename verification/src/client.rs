//! Request building for the JSON/HTTP administrative client. The library
//! decides what a request looks like — method, checked URI, basic-auth
//! header, body — and the host turns the plan into a socket exchange.

use http::uri::Uri;
use vstd::prelude::*;

verus! {

/// Client request timeouts, in seconds.
#[derive(Clone, Copy, Debug, PartialEq, Eq, Structural)]
pub struct TimeOut {
    pub connect: u64,
    pub read: u64,
    pub write: u64,
}

impl TimeOut {
    pub fn new(connect: u64, read: u64, write: u64) -> (t: Self)
        ensures
            t.connect == connect,
            t.read == read,
            t.write == write,
    {
        TimeOut { connect, read, write }
    }
}

impl Default for TimeOut {
    fn default() -> (t: TimeOut)
        ensures
            t.connect == 20,
            t.read == 20,
            t.write == 20,
    {
        TimeOut { connect: 20, read: 20, write: 20 }
    }
}

/// The client's error taxonomy.
#[derive(Clone, Debug)]
pub enum RestError {
    /// A malformed argument, such as an invalid URL.
    Argument { msg: String },
    /// The request could not be made or was answered with failure.
    RequestError { msg: String },
    /// The response could not be understood.
    ResponseError { msg: String },
    Internal { msg: String },
}

/// The HTTP method of a request plan.
#[derive(Clone, Copy, Debug, PartialEq, Eq, Structural)]
pub enum HttpMethod {
    Get,
    Post,
}

/// Which network the node serves; it decides the basic-auth user name.
#[derive(Clone, Copy, Debug, PartialEq, Eq, Structural)]
pub enum Network {
    Mainnet,
    Floonet,
    Other,
}

/// A fully decided request: the host sends it as it stands, with JSON
/// accept and content types and the client's user agent.
#[derive(Debug)]
pub struct RequestSpec {
    pub method: HttpMethod,
    pub uri: String,
    /// The complete authorization header value, when credentials were
    /// given.
    pub authorization: Option<Vec<u8>>,
    pub body: Option<String>,
}

/// Whether http's URI grammar accepts the string; the verdict depends on
/// the characters alone.
pub uninterp spec fn uri_ok(s: Seq<char>) -> bool;

/// Relies on http's `Uri` parser (`FromStr`), which accepts or refuses a
/// string by its characters alone and never panics.
#[verifier::external_body]
fn parse_uri_ok(url: &str) -> (r: bool)
    ensures
        r == uri_ok(url@),
{
    url.parse::<Uri>().is_ok()
}

/// The base64 alphabet, index by index.
pub open spec fn b64_char(x: int) -> u8 {
    if 0 <= x < 26 {
        (65 + x) as u8  // 'A'..'Z'

    } else if 26 <= x < 52 {
        (97 + x - 26) as u8  // 'a'..'z'

    } else if 52 <= x < 62 {
        (48 + x - 52) as u8  // '0'..'9'

    } else if x == 62 {
        43u8  // '+'

    } else {
        47u8  // '/'

    }
}

/// Standard base64 with padding, three input bytes to four output
/// characters.
pub open spec fn base64_of(s: Seq<u8>) -> Seq<u8>
    decreases s.len(),
{
    if s.len() == 0 {
        Seq::empty()
    } else if s.len() == 1 {
        let b0 = s[0] as int;
        seq![b64_char(b0 / 4), b64_char((b0 % 4) * 16), 61u8, 61u8]
    } else if s.len() == 2 {
        let b0 = s[0] as int;
        let b1 = s[1] as int;
        seq![b64_char(b0 / 4), b64_char((b0 % 4) * 16 + b1 / 16), b64_char((b1 % 16) * 4), 61u8]
    } else {
        let b0 = s[0] as int;
        let b1 = s[1] as int;
        let b2 = s[2] as int;
        seq![
            b64_char(b0 / 4),
            b64_char((b0 % 4) * 16 + b1 / 16),
            b64_char((b1 % 16) * 4 + b2 / 64),
            b64_char(b2 % 64),
        ] + base64_of(s.skip(3))
    }
}

/// One base64 alphabet character.
fn b64_char_of(x: u8) -> (r: u8)
    requires
        x < 64,
    ensures
        r == b64_char(x as int),
{
    if x < 26 {
        65 + x
    } else if x < 52 {
        (x - 26) + 97
    } else if x < 62 {
        (x - 52) + 48
    } else if x == 62 {
        43
    } else {
        47
    }
}

/// Base64-encode a byte string.
pub fn base64_encode(input: &Vec<u8>) -> (out: Vec<u8>)
    ensures
        out@ == base64_of(input@),
{
    let ghost s = input@;
    let mut out: Vec<u8> = Vec::new();
    let mut i: usize = 0;
    proof {
        assert(s.skip(0int) =~= s);
    }
    while input.len() >= 3 && i <= input.len() - 3
        invariant
            s == input@,
            0 <= i <= s.len(),
            out@ + base64_of(s.skip(i as int)) == base64_of(s),
        decreases s.len() - i,
    {
        let b0 = input[i];
        let b1 = input[i + 1];
        let b2 = input[i + 2];
        proof {
            assert(s.skip(i as int).len() >= 3);
            assert(s.skip(i as int)[0] == b0);
            assert(s.skip(i as int)[1] == b1);
            assert(s.skip(i as int)[2] == b2);
            assert(s.skip(i as int).skip(3) =~= s.skip(i + 3int));
        }
        out.push(b64_char_of(b0 / 4));
        out.push(b64_char_of((b0 % 4) * 16 + b1 / 16));
        out.push(b64_char_of((b1 % 16) * 4 + b2 / 64));
        out.push(b64_char_of(b2 % 64));
        i = i + 3;
        proof {
            assert(out@ + base64_of(s.skip(i as int)) =~= base64_of(s));
        }
    }
    let rem = input.len() - i;
    if rem == 1 {
        let b0 = input[i];
        proof {
            assert(s.skip(i as int).len() == 1);
            assert(s.skip(i as int)[0] == b0);
        }
        out.push(b64_char_of(b0 / 4));
        out.push(b64_char_of((b0 % 4) * 16));
        out.push(61);
        out.push(61);
        proof {
            assert(out@ =~= base64_of(s));
        }
    } else if rem == 2 {
        let b0 = input[i];
        let b1 = input[i + 1];
        proof {
            assert(s.skip(i as int).len() == 2);
            assert(s.skip(i as int)[0] == b0);
            assert(s.skip(i as int)[1] == b1);
        }
        out.push(b64_char_of(b0 / 4));
        out.push(b64_char_of((b0 % 4) * 16 + b1 / 16));
        out.push(b64_char_of((b1 % 16) * 4));
        out.push(61);
        proof {
            assert(out@ =~= base64_of(s));
        }
    } else {
        proof {
            assert(s.skip(i as int).len() == 0);
            assert(s.skip(i as int) =~= Seq::<u8>::empty());
            assert(out@ =~= base64_of(s));
        }
    }
    out
}

/// The bytes of `"Basic "`, the authorization scheme prefix.
pub open spec fn basic_prefix() -> Seq<u8> {
    seq![66u8, 97u8, 115u8, 105u8, 99u8, 32u8]
}

/// The basic-auth header value for a user name and secret.
pub open spec fn basic_auth_of(key: Seq<u8>, secret: Seq<u8>) -> Seq<u8> {
    basic_prefix() + base64_of(key + seq![58u8] + secret)
}

/// Build a basic-auth header value: the scheme prefix and the encoded
/// `key:secret` pair.
pub fn build_basic_auth(key: &Vec<u8>, secret: &Vec<u8>) -> (out: Vec<u8>)
    ensures
        out@ == basic_auth_of(key@, secret@),
{
    let mut payload: Vec<u8> = Vec::new();
    let mut i: usize = 0;
    while i < key.len()
        invariant
            0 <= i <= key@.len(),
            payload@ == key@.take(i as int),
        decreases key@.len() - i,
    {
        payload.push(key[i]);
        assert(payload@ =~= key@.take(i + 1int));
        i = i + 1;
    }
    assert(payload@ =~= key@);
    payload.push(58);
    let mut j: usize = 0;
    while j < secret.len()
        invariant
            0 <= j <= secret@.len(),
            payload@ == key@ + seq![58u8] + secret@.take(j as int),
        decreases secret@.len() - j,
    {
        payload.push(secret[j]);
        assert(payload@ =~= key@ + seq![58u8] + secret@.take(j + 1int));
        j = j + 1;
    }
    assert(payload@ =~= key@ + seq![58u8] + secret@);
    let encoded = base64_encode(&payload);
    let mut out: Vec<u8> = Vec::new();
    out.push(66);
    out.push(97);
    out.push(115);
    out.push(105);
    out.push(99);
    out.push(32);
    assert(out@ =~= basic_prefix());
    let mut k: usize = 0;
    while k < encoded.len()
        invariant
            0 <= k <= encoded@.len(),
            out@ == basic_prefix() + encoded@.take(k as int),
        decreases encoded@.len() - k,
    {
        out.push(encoded[k]);
        assert(out@ =~= basic_prefix() + encoded@.take(k + 1int));
        k = k + 1;
    }
    assert(out@ =~= basic_prefix() + encoded@);
    out
}

/// The basic-auth user name of a network.
pub open spec fn network_key(n: Network) -> Seq<u8> {
    match n {
        Network::Mainnet => seq![109u8, 119u8, 99u8, 109u8, 97u8, 105u8, 110u8],  // "mwcmain"
        Network::Floonet => seq![109u8, 119u8, 99u8, 102u8, 108u8, 111u8, 111u8],  // "mwcfloo"
        Network::Other => seq![109u8, 119u8, 99u8],  // "mwc"
    }
}

/// The basic-auth user name bytes of a network.
fn network_key_bytes(n: Network) -> (r: Vec<u8>)
    ensures
        r@ == network_key(n),
{
    let mut r: Vec<u8> = Vec::new();
    r.push(109);
    r.push(119);
    r.push(99);
    match n {
        Network::Mainnet => {
            r.push(109);
            r.push(97);
            r.push(105);
            r.push(110);
            assert(r@ =~= network_key(n));
        },
        Network::Floonet => {
            r.push(102);
            r.push(108);
            r.push(111);
            r.push(111);
            assert(r@ =~= network_key(n));
        },
        Network::Other => {
            assert(r@ =~= network_key(n));
        },
    }
    r
}

/// Build a request with an explicit basic-auth user name. The URL must
/// parse; an unparsable one is refused as an argument error. The header
/// is present exactly when both a user name and a secret were given.
pub fn create_request_ex(
    url: &str,
    method: HttpMethod,
    api_secret: Option<Vec<u8>>,
    basic_auth_key: Option<Vec<u8>>,
    body: Option<String>,
) -> (r: Result<RequestSpec, RestError>)
    ensures
        r is Err <==> !uri_ok(url@),
        r is Err ==> r->Err_0 is Argument,
        r is Ok ==> {
            let req = r->Ok_0;
            &&& req.method == method
            &&& req.uri@ == url@
            &&& req.body == body
            &&& match (basic_auth_key, api_secret) {
                (Some(key), Some(secret)) => req.authorization matches Some(auth)
                    && auth@ == basic_auth_of(key@, secret@),
                _ => req.authorization is None,
            }
        },
{
    if !parse_uri_ok(url) {
        return Err(RestError::Argument { msg: String::new() });
    }
    let authorization = match (&basic_auth_key, &api_secret) {
        (Some(key), Some(secret)) => Some(build_basic_auth(key, secret)),
        _ => None,
    };
    Ok(RequestSpec { method, uri: url.to_owned(), authorization, body })
}

/// Build a request authenticated for the given network.
pub fn create_request(
    url: &str,
    method: HttpMethod,
    api_secret: Option<Vec<u8>>,
    body: Option<String>,
    network: Network,
) -> (r: Result<RequestSpec, RestError>)
    ensures
        r is Err <==> !uri_ok(url@),
        r is Err ==> r->Err_0 is Argument,
        r is Ok ==> {
            let req = r->Ok_0;
            &&& req.method == method
            &&& req.uri@ == url@
            &&& req.body == body
            &&& match api_secret {
                Some(secret) => req.authorization matches Some(auth) && auth@ == basic_auth_of(
                    network_key(network),
                    secret@,
                ),
                None => req.authorization is None,
            }
        },
{
    let key = network_key_bytes(network);
    create_request_ex(url, method, api_secret, Some(key), body)
}

/// Build a POST request carrying an already-serialized JSON body.
pub fn create_post_request(
    url: &str,
    api_secret: Option<Vec<u8>>,
    body_json: String,
    network: Network,
) -> (r: Result<RequestSpec, RestError>)
    ensures
        r is Err <==> !uri_ok(url@),
        r is Err ==> r->Err_0 is Argument,
        r is Ok ==> {
            let req = r->Ok_0;
            &&& req.method == HttpMethod::Post
            &&& req.uri@ == url@
            &&& req.body matches Some(b) && b == body_json
        },
{
    create_request(url, HttpMethod::Post, api_secret, Some(body_json), network)
}

/// Build a POST request with an explicit basic-auth user name and an
/// already-serialized JSON body.
pub fn create_post_request_ex(
    url: &str,
    api_secret: Option<Vec<u8>>,
    basic_auth_key: Option<Vec<u8>>,
    body_json: String,
) -> (r: Result<RequestSpec, RestError>)
    ensures
        r is Err <==> !uri_ok(url@),
        r is Err ==> r->Err_0 is Argument,
        r is Ok ==> {
            let req = r->Ok_0;
            &&& req.method == HttpMethod::Post
            &&& req.uri@ == url@
            &&& req.body matches Some(b) && b == body_json
            &&& match (basic_auth_key, api_secret) {
                (Some(key), Some(secret)) => req.authorization matches Some(auth)
                    && auth@ == basic_auth_of(key@, secret@),
                _ => req.authorization is None,
            }
        },
{
    create_request_ex(url, HttpMethod::Post, api_secret, basic_auth_key, Some(body_json))
}

/// Settle one HTTP exchange: a success status hands the body out, any
/// other status is a request error carrying it.
pub fn response_to_result(status: u16, body: String) -> (r: Result<String, RestError>)
    ensures
        200 <= status < 300 ==> (r matches Ok(b) && b == body),
        !(200 <= status < 300) ==> (r matches Err(e) && e is RequestError),
{
    if 200 <= status && status < 300 {
        Ok(body)
    } else {
        Err(RestError::RequestError { msg: body })
    }
}

} // verus!
