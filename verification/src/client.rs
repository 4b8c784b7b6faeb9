use vstd::prelude::*;
use vstd::string::StringExecFns;
use vstd::utf8::decode_utf8;
use vstd::utf8::decode_utf8_encode_utf8;
use vstd::utf8::encode_utf8;
use vstd::utf8::valid_utf8;
use crate::codec::Method;
use crate::codec::decode;
use crate::codec::encode;
use crate::codec::spec_decode;
use crate::codec::spec_request_frame;
use crate::error::ImdsError;
use crate::headers::HeaderMap;

verus! {

// ---------------------------------------------------------------------
// Protocol constants: endpoints, fixed paths, fixed header names.
// ---------------------------------------------------------------------

pub open spec fn spec_imds_url_v4() -> Seq<char> {
    "169.254.169.254:80"@
}

pub open spec fn spec_imds_url_v6() -> Seq<char> {
    "[fd00:ec2::254]:80"@
}

/// The token-issuance path, a protocol constant.
pub open spec fn spec_token_path() -> Seq<char> {
    "latest/api/token"@
}

/// The header under which an acquired token travels.
pub open spec fn spec_token_header() -> Seq<char> {
    "X-aws-ec2-metadata-token"@
}

/// The header that asks for a token with the given time-to-live.
pub open spec fn spec_token_ttl_header() -> Seq<char> {
    "X-aws-ec2-metadata-token-ttl-seconds"@
}

pub fn token_path() -> (r: &'static str)
    ensures
        r@ == spec_token_path(),
{
    "latest/api/token"
}

pub fn token_header() -> (r: &'static str)
    ensures
        r@ == spec_token_header(),
{
    "X-aws-ec2-metadata-token"
}

pub fn token_ttl_header() -> (r: &'static str)
    ensures
        r@ == spec_token_ttl_header(),
{
    "X-aws-ec2-metadata-token-ttl-seconds"
}

/// Selects the endpoint for the whole invocation.  The caller reports
/// whether a short, bounded probe connection to the IPv4 link-local
/// endpoint succeeded; when it did not, the IPv6 literal is chosen
/// without further probing.  Selection never fails: if both endpoints
/// are unreachable, that surfaces at the first real request.
pub fn get_imds_url(ipv4_reachable: bool) -> (r: &'static str)
    ensures
        ipv4_reachable ==> r@ == spec_imds_url_v4(),
        !ipv4_reachable ==> r@ == spec_imds_url_v6(),
{
    if ipv4_reachable {
        "169.254.169.254:80"
    } else {
        "[fd00:ec2::254]:80"
    }
}

// ---------------------------------------------------------------------
// Token acquisition.
// ---------------------------------------------------------------------

/// Relies on `String::from_utf8`: it returns `Ok` exactly when the
/// bytes are valid UTF-8, and the returned string holds exactly the
/// characters those bytes encode.
#[verifier::external_body]
fn bytes_to_string(v: Vec<u8>) -> (r: Option<String>)
    ensures
        r is Some <==> valid_utf8(v@),
        r matches Some(s) ==> s@ == decode_utf8(v@),
{
    match String::from_utf8(v) {
        Ok(s) => Some(s),
        Err(_) => None,
    }
}

/// Folds the token response into the header set: the acquisition step
/// of the handshake, applied to the already-parsed reply of the token
/// PUT.  A status other than 200 is fatal (no fallback exists once the
/// probe found a token mandatory); a body that is not valid text is a
/// fatal parse error; otherwise the body is the token and is added
/// under the fixed token header.
pub fn imdsv2_handle(headers: &mut HeaderMap, status: u64, token_bytes: Vec<u8>) -> (r: Result<
    (),
    ImdsError,
>)
    requires
        old(headers).wf(),
        !old(headers).contains_name(spec_token_header()),
    ensures
        r is Ok <==> status == 200 && valid_utf8(token_bytes@),
        status != 200 ==> r == Err::<(), ImdsError>(ImdsError::TokenAcquisitionFailure),
        status == 200 && !valid_utf8(token_bytes@) ==> r == Err::<(), ImdsError>(
            ImdsError::EncodingError,
        ),
        r is Ok ==> final(headers)@ == old(headers)@.push(
            (spec_token_header(), decode_utf8(token_bytes@)),
        ) && encode_utf8(final(headers)@.last().1) == token_bytes@,
        r is Err ==> final(headers)@ == old(headers)@,
        final(headers).wf(),
{
    if status != 200 {
        return Err(ImdsError::TokenAcquisitionFailure);
    }
    let token = match bytes_to_string(token_bytes) {
        Some(t) => t,
        None => {
            return Err(ImdsError::EncodingError);
        },
    };
    proof {
        decode_utf8_encode_utf8(token_bytes@);
    }
    headers.insert(String::from_str(token_header()), token);
    Ok(())
}

// ---------------------------------------------------------------------
// The negotiation state machine.
//
// The caller owns the transport: it opens a connection, writes the
// frame of a `Send` step, reads the connection to its close, and feeds
// the outcome back.  The machine decides everything else.
// ---------------------------------------------------------------------

/// Which request the next reply answers.
#[derive(Clone, Copy, Debug, PartialEq, Eq, Structural)]
pub enum Phase {
    /// The anonymous probe of the service root is in flight.
    Probe,
    /// The token PUT is in flight.
    Acquire,
    /// The caller's own GET is in flight.
    Fetch,
}

/// The state carried between steps of one fetch.
pub struct Client {
    pub path: String,
    pub headers: HeaderMap,
    pub phase: Phase,
}

impl Client {
    pub open spec fn wf(&self) -> bool {
        &&& self.headers.wf()
        &&& !(self.phase is Fetch) ==> self.headers@ =~= Seq::<(Seq<char>, Seq<char>)>::empty()
        &&& self.phase is Fetch ==> !self.headers.contains_name(spec_token_header())
            || self.headers@.len() == 1
    }
}

/// What one send attempt produced: the raw bytes read until the peer
/// closed the connection, or a transport-level failure.
pub enum Outcome {
    Reply { raw: Vec<u8> },
    /// `auth_rejection` is the probe heuristic: the failure's message
    /// looked like an authorization rejection.  `error` is the kind the
    /// failure maps to when it is fatal.
    Failed { auth_rejection: bool, error: ImdsError },
}

/// What the caller must do after feeding a reply in.
pub enum Step {
    /// Put this frame on a fresh connection and feed the result back.
    Send { client: Client, frame: String },
    /// The fetch is complete: the final GET's status and body.
    Done { status: u64, body: Vec<u8> },
    /// The fetch failed; nothing further is sent.
    Fail { error: ImdsError },
}

/// Whether the probe's outcome signals that a token is mandatory: a
/// parsed reply with status 401, or a transport failure whose message
/// signalled an authorization rejection.  (The latter is a heuristic,
/// preserved as-is; any other probe failure means anonymous mode.)
pub open spec fn spec_probe_required(outcome: &Outcome) -> bool {
    match outcome {
        Outcome::Reply { raw } => spec_decode(raw@) matches Some(p) && p.0 == 401,
        Outcome::Failed { auth_rejection, .. } => *auth_rejection,
    }
}

/// The frame of the token PUT: the fixed path, one header asking for a
/// time-to-live of one second (the token serves at most one follow-up
/// request in the same invocation and is never cached).
pub open spec fn spec_acquire_frame() -> Seq<char> {
    spec_request_frame(
        "PUT"@,
        spec_token_path(),
        seq![(spec_token_ttl_header(), "1"@)],
    )
}

/// Starts a fetch of `path`: the client begins in the probe phase, and
/// the first frame is the anonymous GET of the service root.
pub fn start(path: String) -> (r: (Client, String))
    ensures
        r.0.phase is Probe,
        r.0.path@ == path@,
        r.0.wf(),
        r.1@ == spec_request_frame("GET"@, "/"@, Seq::<(Seq<char>, Seq<char>)>::empty()),
{
    let headers = HeaderMap::new();
    let frame = encode(Method::Get, "/", &headers);
    (Client { path, headers, phase: Phase::Probe }, frame)
}

/// Advances the handshake by one reply.
///
/// Probe phase: a reply that parses with status 401, or a transport
/// failure that signalled an authorization rejection, makes the token
/// mandatory and the next frame is the token PUT; any other parsed
/// reply or transport failure settles anonymous mode and the next frame
/// is the caller's GET, with no token header.  Probing itself never
/// fails the fetch, but a malformed reply does (framing errors are
/// fatal on every step).
///
/// Acquire phase: a transport failure is fatal with its own kind; a
/// reply that parses with status 200 and a valid-text body yields the
/// token, which the final GET carries under the fixed token header with
/// exactly the value the body held; anything else is fatal per
/// `imdsv2_handle`.
///
/// Fetch phase: the parsed status and body are handed to the caller.
pub fn feed(client: Client, outcome: Outcome) -> (r: Step)
    requires
        client.wf(),
    ensures
        // a malformed reply is fatal on every step, with no retry
        (outcome matches Outcome::Reply { raw } && spec_decode(raw@) is None) ==> (r matches
            Step::Fail { error } && error == ImdsError::FramingError),
        // probe, token not required: the next and last frame is the
        // caller's GET, unchanged headers — no token PUT is ever sent
        client.phase is Probe && !spec_probe_required(&outcome) && !(outcome matches
            Outcome::Reply { raw } && spec_decode(raw@) is None) ==> (r matches Step::Send {
            client: c2, frame } && c2.phase is Fetch && c2.wf() && c2.path@ == client.path@
            && c2.headers@ == client.headers@ && frame@ == spec_request_frame(
            "GET"@,
            client.path@,
            client.headers@,
        )),
        // probe, token required: the next frame is the token PUT
        client.phase is Probe && spec_probe_required(&outcome) ==> (r matches Step::Send {
            client: c2, frame } && c2.phase is Acquire && c2.wf() && c2.path@ == client.path@
            && frame@ == spec_acquire_frame()),
        // acquire, transport failure: fatal with the transport's kind
        client.phase is Acquire ==> (outcome matches Outcome::Failed { error, .. } ==> (r matches
            Step::Fail { error: e2 } && e2 == error)),
        // acquire, parsed reply: 200 + valid text yields the token and
        // the final GET carries it, byte-exactly, as the only header;
        // a non-200 status is fatal as a token-acquisition failure and
        // no further frame is sent; a 200 with non-text body is fatal
        client.phase is Acquire ==> (outcome matches Outcome::Reply { raw } ==> (spec_decode(raw@)
            matches Some(p) ==> {
            &&& p.0 == 200 && valid_utf8(p.1) ==> (r matches Step::Send { client: c2, frame }
                && c2.phase is Fetch && c2.wf() && c2.path@ == client.path@ && c2.headers@
                == client.headers@.push(
                (spec_token_header(), decode_utf8(p.1)),
            ) && encode_utf8(c2.headers@.last().1) == p.1 && frame@ == spec_request_frame(
                "GET"@,
                client.path@,
                c2.headers@,
            ))
            &&& p.0 != 200 ==> (r matches Step::Fail { error } && error
                == ImdsError::TokenAcquisitionFailure)
            &&& p.0 == 200 && !valid_utf8(p.1) ==> (r matches Step::Fail { error } && error
                == ImdsError::EncodingError)
        })),
        // fetch, transport failure: fatal with the transport's kind
        client.phase is Fetch ==> (outcome matches Outcome::Failed { error, .. } ==> (r matches
            Step::Fail { error: e2 } && e2 == error)),
        // fetch, parsed reply: the status and body go to the caller
        client.phase is Fetch ==> (outcome matches Outcome::Reply { raw } ==> (spec_decode(raw@)
            matches Some(p) ==> (r matches Step::Done { status, body } && status == p.0 && body@
            == p.1))),
{
    match client.phase {
        Phase::Probe => {
            let required: bool;
            match outcome {
                Outcome::Reply { raw } => {
                    let parsed = match decode(raw.as_slice()) {
                        Ok(f) => f,
                        Err(e) => {
                            return Step::Fail { error: e };
                        },
                    };
                    required = parsed.status == 401;
                },
                Outcome::Failed { auth_rejection, .. } => {
                    required = auth_rejection;
                },
            }
            if required {
                let mut put_headers = HeaderMap::new();
                put_headers.insert(
                    String::from_str(token_ttl_header()),
                    String::from_str("1"),
                );
                let frame = encode(Method::Put, token_path(), &put_headers);
                Step::Send {
                    client: Client {
                        path: client.path,
                        headers: client.headers,
                        phase: Phase::Acquire,
                    },
                    frame,
                }
            } else {
                let frame = encode(Method::Get, client.path.as_str(), &client.headers);
                Step::Send {
                    client: Client {
                        path: client.path,
                        headers: client.headers,
                        phase: Phase::Fetch,
                    },
                    frame,
                }
            }
        },
        Phase::Acquire => {
            match outcome {
                Outcome::Failed { error, .. } => Step::Fail { error },
                Outcome::Reply { raw } => {
                    let parsed = match decode(raw.as_slice()) {
                        Ok(f) => f,
                        Err(e) => {
                            return Step::Fail { error: e };
                        },
                    };
                    let mut headers = client.headers;
                    match imdsv2_handle(&mut headers, parsed.status, parsed.body) {
                        Err(e) => Step::Fail { error: e },
                        Ok(()) => {
                            let frame = encode(Method::Get, client.path.as_str(), &headers);
                            Step::Send {
                                client: Client { path: client.path, headers, phase: Phase::Fetch },
                                frame,
                            }
                        },
                    }
                },
            }
        },
        Phase::Fetch => {
            match outcome {
                Outcome::Failed { error, .. } => Step::Fail { error },
                Outcome::Reply { raw } => {
                    match decode(raw.as_slice()) {
                        Ok(f) => Step::Done { status: f.status, body: f.body },
                        Err(e) => Step::Fail { error: e },
                    }
                },
            }
        },
    }
}

/// Token-injection law.  A final GET built over the single acquired
/// token entry is exactly the request line, then the token header line
/// carrying the acquired value, then the closing empty line; one built
/// over an empty header set carries no header line at all, so the token
/// header is absent.
pub proof fn lemma_token_injection(path: Seq<char>, token: Seq<char>)
    ensures
        spec_request_frame("GET"@, path, seq![(spec_token_header(), token)])
            == crate::codec::spec_request_line("GET"@, path) + crate::codec::spec_header_line(
            spec_token_header(),
            token,
        ) + "\r\n"@,
        spec_request_frame("GET"@, path, Seq::<(Seq<char>, Seq<char>)>::empty())
            == crate::codec::spec_request_line("GET"@, path) + "\r\n"@,
{
    let single = seq![(spec_token_header(), token)];
    assert(single.drop_first() =~= Seq::<(Seq<char>, Seq<char>)>::empty());
    assert(crate::codec::spec_header_block(Seq::<(Seq<char>, Seq<char>)>::empty())
        == Seq::<char>::empty());
    assert(single[0] == (spec_token_header(), token));
    assert(crate::codec::spec_header_block(single) == crate::codec::spec_header_line(
        spec_token_header(),
        token,
    ) + Seq::<char>::empty());
    assert(crate::codec::spec_header_block(single) =~= crate::codec::spec_header_line(
        spec_token_header(),
        token,
    ));
    assert(spec_request_frame("GET"@, path, single) =~= crate::codec::spec_request_line(
        "GET"@,
        path,
    ) + crate::codec::spec_header_line(spec_token_header(), token) + "\r\n"@);
    assert(spec_request_frame("GET"@, path, Seq::<(Seq<char>, Seq<char>)>::empty())
        =~= crate::codec::spec_request_line("GET"@, path) + "\r\n"@);
}

} // verus!
