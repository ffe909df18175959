use vstd::prelude::*;

verus! {

/// The text that `str::to_lowercase` makes of `s`.
pub uninterp spec fn lower_of(s: Seq<char>) -> Seq<char>;

/// The text that `String::from_utf8_lossy` makes of `b`.
pub uninterp spec fn lossy_of(b: Seq<u8>) -> Seq<char>;

/// Relies on `str::to_lowercase`: the result depends on the characters of
/// `s` alone.
#[verifier::external_body]
fn lowercase(s: &str) -> (r: String)
    ensures
        r@ == lower_of(s@),
{
    s.to_lowercase()
}

/// Relies on `String::from_utf8_lossy`: the result depends on the bytes
/// alone, and valid UTF-8 is decoded as it is.
#[verifier::external_body]
fn lossy_text(b: &[u8]) -> (r: String)
    ensures
        r@ == lossy_of(b@),
        vstd::utf8::valid_utf8(b@) ==> r@ == vstd::utf8::decode_utf8(b@),
{
    String::from_utf8_lossy(b).into_owned()
}

/// Where the settings document is fetched from.
pub const SETTINGS_URL: &'static str = "https://cf-page-3uk.pages.dev/data.json";

/// The header that names a redirect's target, in lower case.
pub const LOCATION: &'static str = "location";

/// The body size assumed where a response declares no content length.
pub const DEFAULT_PAYLOAD_SIZE: usize = 100_000_000;

/// Room kept beyond the declared content length.
pub const PAYLOAD_SLACK: usize = 100;

/// The TLS buffer size of a payload fetch.
pub const PAYLOAD_TLS_BUFFER: usize = 8 * 1024 * 1024;

/// The TLS buffer size of a settings fetch.
pub const SETTINGS_TLS_BUFFER: usize = 16 * 1024;

/// The receive buffer size of a redirect request.
pub const REDIRECT_RX_BUFFER: usize = 16000;

/// The receive buffer size of a settings or payload request's headers.
pub const RESPONSE_RX_BUFFER: usize = 8096;

/// The value of the first header whose name is `location` in any case,
/// decoded as text.
pub open spec fn location_of(headers: Seq<(Seq<char>, Seq<u8>)>) -> Option<Seq<char>>
    decreases headers.len(),
{
    if headers.len() == 0 {
        None
    } else if lower_of(headers[0].0) == LOCATION@ {
        Some(lossy_of(headers[0].1))
    } else {
        location_of(headers.drop_first())
    }
}

/// The view of a list of response headers.
pub open spec fn headers_view(headers: Seq<(String, Vec<u8>)>) -> Seq<(Seq<char>, Seq<u8>)> {
    headers.map_values(|h: (String, Vec<u8>)| (h.0@, h.1@))
}

/// The target of a redirect: the value of its `Location` header, the name
/// compared without regard to case. `None` where the response has none.
pub fn redirect_location(headers: &Vec<(String, Vec<u8>)>) -> (r: Option<String>)
    ensures
        match location_of(headers_view(headers@)) {
            Some(l) => r matches Some(s) && s@ == l,
            None => r is None,
        },
{
    let ghost hv = headers_view(headers@);
    let mut i: usize = 0;
    assert(hv.skip(0) =~= hv);
    while i < headers.len()
        invariant
            i <= headers@.len(),
            hv == headers_view(headers@),
            location_of(hv) == location_of(hv.skip(i as int)),
        decreases headers@.len() - i,
    {
        assert(hv.skip(i as int).drop_first() =~= hv.skip(i + 1));
        let name = lowercase(headers[i].0.as_str());
        if crate::envp::same_text(name.as_str(), LOCATION) {
            return Some(lossy_text(headers[i].1.as_slice()));
        }
        i += 1;
    }
    None
}

/// Whether a settings response with this status is read: a 2xx status.
/// Any other leaves the store as it is this cycle.
pub fn settings_status_accepted(status: u16) -> (r: bool)
    ensures
        r == (200 <= status < 300),
{
    200 <= status && status < 300
}

/// The text of a settings response body: its bytes decoded, invalid
/// sequences replaced.
pub fn body_text(body: &[u8]) -> (r: String)
    ensures
        r@ == lossy_of(body@),
        vstd::utf8::valid_utf8(body@) ==> r@ == vstd::utf8::decode_utf8(body@),
{
    lossy_text(body)
}

/// The size of the buffer that receives a payload: the declared content
/// length, or a large default where none is declared, plus some slack,
/// capped at `usize::MAX`.
pub fn payload_buffer_size(content_length: Option<usize>) -> (r: usize)
    ensures
        r == vstd::math::min(
            match content_length {
                Some(n) => n as int,
                None => DEFAULT_PAYLOAD_SIZE as int,
            } + PAYLOAD_SLACK,
            usize::MAX as int,
        ),
{
    let n = match content_length {
        Some(n) => n,
        None => DEFAULT_PAYLOAD_SIZE,
    };
    n.saturating_add(PAYLOAD_SLACK)
}

/// How a fetch sets up its TLS session. Certificate verification is off
/// in both shapes of fetch unless a caller turns it on.
#[derive(Clone, Copy, Debug, PartialEq, Eq, Structural)]
pub struct FetchOptions {
    pub verify_certificates: bool,
    pub tls_buffer_size: usize,
    pub rx_buffer_size: usize,
}

impl FetchOptions {
    /// The options of the settings fetch.
    pub fn settings() -> (r: Self)
        ensures
            !r.verify_certificates,
            r.tls_buffer_size == SETTINGS_TLS_BUFFER,
            r.rx_buffer_size == RESPONSE_RX_BUFFER,
    {
        FetchOptions {
            verify_certificates: false,
            tls_buffer_size: SETTINGS_TLS_BUFFER,
            rx_buffer_size: RESPONSE_RX_BUFFER,
        }
    }

    /// The options of the redirect request and the payload fetch.
    pub fn payload() -> (r: Self)
        ensures
            !r.verify_certificates,
            r.tls_buffer_size == PAYLOAD_TLS_BUFFER,
            r.rx_buffer_size == RESPONSE_RX_BUFFER,
    {
        FetchOptions {
            verify_certificates: false,
            tls_buffer_size: PAYLOAD_TLS_BUFFER,
            rx_buffer_size: RESPONSE_RX_BUFFER,
        }
    }
}

} // verus!
