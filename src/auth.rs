//! The authentication gate: decides whether a request carries a valid SigV4
//! signature by the enrolled access key, within the allowed clock skew.
use vstd::prelude::*;
use vstd::string::*;
use aws_credential_types::Credentials;
use aws_sigv4::http_request::{sign, SignableBody, SignableRequest, SigningSettings};
use aws_sigv4::sign::v4::SigningParams;
use std::time::{Duration, UNIX_EPOCH};
use crate::date::{amz_date_of, http_date_of, parse_amz_date, parse_http_date, AmzDateError};
use crate::error::{
    AwsError, IncompleteSignature, InternalServiceError, InvalidClientTokenId,
    InvalidRequestException, MissingAuthenticationToken, SignatureDoesNotMatch,
};
use crate::sigv4::{auth_of, parse_auth_header, AuthView, AwsSigV4Auth};
use crate::text::{constant_time_eq, str_eq};

verus! {

/// The largest allowed distance, in seconds, between the request's date and
/// the server clock.
pub const MAX_CLOCK_SKEW: i64 = 300;

/// The last second of year 9999: the latest request time that can be
/// signed, as the signer formats the date with four-digit years.
pub const MAX_REQUEST_TIME: i64 = 253402300799;

/// A `host` header is among the signed ones; the signer needs it, as it does
/// not take the host from the URI.
pub open spec fn has_host(ps: Seq<(Seq<char>, Seq<char>)>) -> bool {
    exists|k: int| 0 <= k < ps.len() && #[trigger] ps[k].0 == "host"@
}

/// A request header: its lower-case name, and its value where the value is
/// visible ASCII text (`None` where it is not).
pub struct HeaderEntry {
    pub name: String,
    pub value: Option<String>,
}

/// A request: method, URI, headers and body.
pub struct HttpRequest {
    pub method: String,
    pub uri: String,
    pub headers: Vec<HeaderEntry>,
    pub body: Vec<u8>,
}

/// The enrolled credentials.
pub struct AccessCredentials {
    pub access_key_id: String,
    pub secret_access_key: String,
}

pub open spec fn header_view(h: HeaderEntry) -> (Seq<char>, Option<Seq<char>>) {
    (
        h.name@,
        match h.value {
            Some(v) => Some(v@),
            None => None,
        },
    )
}

pub open spec fn headers_view(hs: Seq<HeaderEntry>) -> Seq<(Seq<char>, Option<Seq<char>>)> {
    hs.map_values(|h: HeaderEntry| header_view(h))
}

pub open spec fn pairs_view(ps: Seq<(String, String)>) -> Seq<(Seq<char>, Seq<char>)> {
    ps.map_values(|p: (String, String)| (p.0@, p.1@))
}

/// The value of the first header called `name`: `None` where there is none.
pub open spec fn first_header(hs: Seq<(Seq<char>, Option<Seq<char>>)>, name: Seq<char>) -> Option<
    Option<Seq<char>>,
>
    decreases hs.len(),
{
    if hs.len() == 0 {
        None
    } else if hs[0].0 == name {
        Some(hs[0].1)
    } else {
        first_header(hs.drop_first(), name)
    }
}

/// The request time: from `x-amz-date` where it reads, else from `Date`.
pub open spec fn request_time(hs: Seq<(Seq<char>, Option<Seq<char>>)>) -> Option<int> {
    let amz = match first_header(hs, "x-amz-date"@) {
        Some(Some(v)) => match amz_date_of(v) {
            Ok(t) => Some(t),
            Err(_) => None,
        },
        _ => None,
    };
    match amz {
        Some(t) => Some(t),
        None => match first_header(hs, "date"@) {
            Some(Some(v)) => http_date_of(v),
            _ => None,
        },
    }
}

/// The headers, in order, whose names are signed; `None` where one of them
/// is not text.
pub open spec fn signed_pairs(hs: Seq<(Seq<char>, Option<Seq<char>>)>, names: Seq<Seq<char>>) -> Option<
    Seq<(Seq<char>, Seq<char>)>,
>
    decreases hs.len(),
{
    if hs.len() == 0 {
        Some(Seq::empty())
    } else {
        match signed_pairs(hs.drop_last(), names) {
            None => None,
            Some(prev) => if names.contains(hs.last().0) {
                match hs.last().1 {
                    Some(v) => Some(prev.push((hs.last().0, v))),
                    None => None,
                }
            } else {
                Some(prev)
            },
        }
    }
}

/// What the signature is computed over, once the request passed every check
/// that comes before it.
pub struct GateView {
    pub auth: AuthView,
    pub time: int,
    pub headers: Seq<(Seq<char>, Seq<char>)>,
}

/// The checks before the signature, in order: the `Authorization` header,
/// its form and credential scope, the access key, the request date and the
/// clock skew, the signed headers, which must include `host`.
pub open spec fn gate_of(
    hs: Seq<(Seq<char>, Option<Seq<char>>)>,
    access_key_id: Seq<char>,
    now: int,
) -> Result<GateView, AwsError> {
    match first_header(hs, "authorization"@) {
        None => Err(AwsError::MissingAuthenticationToken(MissingAuthenticationToken)),
        Some(None) => Err(AwsError::InvalidRequestException(InvalidRequestException)),
        Some(Some(a)) => match auth_of(a) {
            Err(_) => Err(AwsError::IncompleteSignature(IncompleteSignature)),
            Ok(auth) => if auth.signing_scope.aws4_request != "aws4_request"@ {
                Err(AwsError::IncompleteSignature(IncompleteSignature))
            } else if auth.signing_scope.access_key_id != access_key_id {
                Err(AwsError::InvalidClientTokenId(InvalidClientTokenId))
            } else {
                match request_time(hs) {
                    None => Err(AwsError::InvalidRequestException(InvalidRequestException)),
                    Some(t) => if t - now > 300 || now - t > 300 || t < 0 || t > MAX_REQUEST_TIME {
                        Err(AwsError::InvalidRequestException(InvalidRequestException))
                    } else {
                        match signed_pairs(hs, auth.signed_headers) {
                            None => Err(AwsError::InvalidRequestException(InvalidRequestException)),
                            Some(pairs) => if has_host(pairs) {
                                Ok(GateView { auth, time: t, headers: pairs })
                            } else {
                                Err(AwsError::IncompleteSignature(IncompleteSignature))
                            },
                        }
                    },
                }
            },
        },
    }
}

/// What the signature is computed over.
pub struct SigningInput<'a> {
    pub auth: AwsSigV4Auth<'a>,
    pub time: i64,
    pub headers: Vec<(String, String)>,
}

fn header_value<'a>(headers: &'a Vec<HeaderEntry>, name: &str) -> (r: Option<&'a Option<String>>)
    ensures
        match first_header(headers_view(headers@), name@) {
            None => r is None,
            Some(v) => r matches Some(x) && v == match *x {
                Some(s) => Some(s@),
                None => None::<Seq<char>>,
            },
        },
{
    let ghost hv = headers_view(headers@);
    let mut k: usize = 0;
    assert(hv.subrange(0, hv.len() as int) =~= hv);
    while k < headers.len()
        invariant
            k <= headers@.len(),
            hv == headers_view(headers@),
            first_header(hv, name@) == first_header(hv.subrange(k as int, hv.len() as int), name@),
        decreases headers@.len() - k,
    {
        let ghost rest = hv.subrange(k as int, hv.len() as int);
        assert(rest[0] == header_view(headers@[k as int]));
        if str_eq(headers[k].name.as_str(), name) {
            return Some(&headers[k].value);
        }
        assert(rest.drop_first() =~= hv.subrange(k + 1, hv.len() as int));
        k = k + 1;
    }
    None
}

fn contains_name(names: &Vec<&str>, name: &String) -> (r: bool)
    ensures
        r == names@.map_values(|x: &str| x@).contains(name@),
{
    let ghost nv = names@.map_values(|x: &str| x@);
    let mut j: usize = 0;
    while j < names.len()
        invariant
            j <= names@.len(),
            nv == names@.map_values(|x: &str| x@),
            forall|q: int| 0 <= q < j ==> nv[q] != name@,
        decreases names@.len() - j,
    {
        if str_eq(names[j], name.as_str()) {
            assert(nv[j as int] == name@);
            return true;
        }
        j = j + 1;
    }
    false
}

fn collect_signed_headers(headers: &Vec<HeaderEntry>, names: &Vec<&str>) -> (r: Option<
    Vec<(String, String)>,
>)
    ensures
        match signed_pairs(headers_view(headers@), names@.map_values(|x: &str| x@)) {
            None => r is None,
            Some(p) => r matches Some(v) && pairs_view(v@) == p,
        },
{
    let ghost hv = headers_view(headers@);
    let ghost nv = names@.map_values(|x: &str| x@);
    let mut out: Vec<(String, String)> = Vec::new();
    let mut k: usize = 0;
    while k < headers.len()
        invariant
            k <= headers@.len(),
            hv == headers_view(headers@),
            nv == names@.map_values(|x: &str| x@),
            signed_pairs(hv.take(k as int), nv) == Some(pairs_view(out@)),
        decreases headers@.len() - k,
    {
        let ghost prev = pairs_view(out@);
        assert(hv.take(k + 1).drop_last() =~= hv.take(k as int));
        assert(hv.take(k + 1).last() == header_view(headers@[k as int]));
        let h = &headers[k];
        if contains_name(names, &h.name) {
            match &h.value {
                Some(v) => {
                    out.push((h.name.clone(), v.clone()));
                    assert(pairs_view(out@) =~= prev.push((h.name@, v@)));
                },
                None => {
                    proof {
                        lemma_signed_pairs_none(hv, nv, k + 1);
                    }
                    return None;
                },
            }
        }
        k = k + 1;
    }
    assert(hv.take(headers@.len() as int) =~= hv);
    Some(out)
}

proof fn lemma_signed_pairs_none(
    hs: Seq<(Seq<char>, Option<Seq<char>>)>,
    names: Seq<Seq<char>>,
    k: int,
)
    requires
        0 < k <= hs.len(),
        signed_pairs(hs.take(k), names) is None,
    ensures
        signed_pairs(hs, names) is None,
    decreases hs.len() - k,
{
    if k < hs.len() {
        assert(hs.take(k + 1).drop_last() =~= hs.take(k));
        lemma_signed_pairs_none(hs, names, k + 1);
    } else {
        assert(hs.take(k) =~= hs);
    }
}

fn signs_host(headers: &Vec<(String, String)>) -> (r: bool)
    ensures
        r == has_host(pairs_view(headers@)),
{
    proof {
        reveal_strlit("host");
    }
    let ghost pv = pairs_view(headers@);
    let mut k: usize = 0;
    while k < headers.len()
        invariant
            k <= headers@.len(),
            pv == pairs_view(headers@),
            forall|q: int| 0 <= q < k ==> pv[q].0 != "host"@,
        decreases headers@.len() - k,
    {
        assert(pv[k as int].0 == headers@[k as int].0@);
        if str_eq(headers[k].0.as_str(), "host") {
            return true;
        }
        k = k + 1;
    }
    false
}

/// Runs every check that comes before the signature; see `gate_of`.
pub fn check_request<'a>(req: &'a HttpRequest, access_key_id: &str, now: i64) -> (r: Result<
    SigningInput<'a>,
    AwsError,
>)
    ensures
        match gate_of(headers_view(req.headers@), access_key_id@, now as int) {
            Err(e) => r == Err::<SigningInput, AwsError>(e),
            Ok(g) => r matches Ok(s) && s.auth@ == g.auth && s.time == g.time && pairs_view(
                s.headers@,
            ) == g.headers,
        },
{
    proof {
        reveal_strlit("aws4_request");
    }
    let authorization = match header_value(&req.headers, "authorization") {
        None => {
            return Err(AwsError::MissingAuthenticationToken(MissingAuthenticationToken));
        },
        Some(None) => {
            return Err(AwsError::InvalidRequestException(InvalidRequestException));
        },
        Some(Some(v)) => v,
    };
    let auth = match parse_auth_header(authorization.as_str()) {
        Ok(a) => a,
        Err(_) => {
            return Err(AwsError::IncompleteSignature(IncompleteSignature));
        },
    };
    if !str_eq(auth.signing_scope.aws4_request, "aws4_request") {
        return Err(AwsError::IncompleteSignature(IncompleteSignature));
    }
    if !str_eq(auth.signing_scope.access_key_id, access_key_id) {
        return Err(AwsError::InvalidClientTokenId(InvalidClientTokenId));
    }
    let amz = match header_value(&req.headers, "x-amz-date") {
        Some(Some(v)) => match parse_amz_date(v.as_str()) {
            Ok(t) => Some(t),
            Err(_) => None,
        },
        _ => None,
    };
    let time = match amz {
        Some(t) => t,
        None => match header_value(&req.headers, "date") {
            Some(Some(v)) => match parse_http_date(v.as_str()) {
                Ok(t) => t,
                Err(_) => {
                    return Err(AwsError::InvalidRequestException(InvalidRequestException));
                },
            },
            _ => {
                return Err(AwsError::InvalidRequestException(InvalidRequestException));
            },
        },
    };
    let skew: i128 = (now as i128) - (time as i128);
    if skew > MAX_CLOCK_SKEW as i128 || skew < -(MAX_CLOCK_SKEW as i128) || time < 0 || time
        > MAX_REQUEST_TIME {
        return Err(AwsError::InvalidRequestException(InvalidRequestException));
    }
    let headers = match collect_signed_headers(&req.headers, &auth.signed_headers) {
        Some(h) => h,
        None => {
            return Err(AwsError::InvalidRequestException(InvalidRequestException));
        },
    };
    if !signs_host(&headers) {
        return Err(AwsError::IncompleteSignature(IncompleteSignature));
    }
    Ok(SigningInput { auth, time, headers })
}

/// What aws-sigv4's signing gives for these inputs: the signature, or the
/// way it failed.
pub uninterp spec fn sigv4_outcome(
    method: Seq<char>,
    uri: Seq<char>,
    headers: Seq<(Seq<char>, Seq<char>)>,
    body: Seq<u8>,
    access_key_id: Seq<char>,
    secret_access_key: Seq<char>,
    region: Seq<char>,
    service: Seq<char>,
    time: int,
) -> Result<Seq<char>, SigningFailure>;

/// Why a signature could not be computed.
#[derive(Debug, PartialEq, Eq, Structural)]
pub enum SigningFailure {
    /// The request could not be made signable (its URI did not parse).
    Request,
    /// The signing parameters or the signing itself failed.
    Signing,
}

/// Relies on `aws_sigv4::http_request::sign` with default settings, the
/// credential scope's region and service and the request time: the
/// outcome is a function of these inputs alone. Takes a time from 1970 to
/// the end of year 9999, which the signer can format, and a signed `host`
/// header, which it reads rather than taking the host from the URI.
#[verifier::external_body]
fn sign_request(
    method: &str,
    uri: &str,
    headers: &Vec<(String, String)>,
    body: &Vec<u8>,
    access_key_id: &str,
    secret_access_key: &str,
    region: &str,
    service: &str,
    time: i64,
) -> (r: Result<String, SigningFailure>)
    requires
        0 <= time <= MAX_REQUEST_TIME,
        has_host(pairs_view(headers@)),
    ensures
        ({
            let o = sigv4_outcome(
                method@,
                uri@,
                pairs_view(headers@),
                body@,
                access_key_id@,
                secret_access_key@,
                region@,
                service@,
                time as int,
            );
            match r {
                Ok(s) => o == Ok::<Seq<char>, SigningFailure>(s@),
                Err(e) => o == Err::<Seq<char>, SigningFailure>(e),
            }
        }),
{
    let identity = Credentials::new(access_key_id, secret_access_key, None, None, "sm").into();
    let params = SigningParams::builder().identity(&identity).region(region).name(service)
        .time(UNIX_EPOCH + Duration::from_secs(time as u64)).settings(SigningSettings::default())
        .build().map_err(|_| SigningFailure::Signing)?.into();
    let headers = headers.iter().map(|(n, v)| (n.as_str(), v.as_str()));
    let request = SignableRequest::new(method, uri, headers, SignableBody::Bytes(body))
        .map_err(|_| SigningFailure::Request)?;
    sign(request, &params).map(|out| out.into_parts().1).map_err(|_| SigningFailure::Signing)
}

/// The outcome once the signature has been computed: it must equal the one
/// the request carries.
pub fn verify_signature(computed: &Result<String, SigningFailure>, provided: &str) -> (r: Result<
    (),
    AwsError,
>)
    ensures
        r == match computed {
            Ok(s) => if s@ == provided@ {
                Ok::<(), AwsError>(())
            } else {
                Err(AwsError::SignatureDoesNotMatch(SignatureDoesNotMatch))
            },
            Err(SigningFailure::Request) => Err(
                AwsError::InvalidRequestException(InvalidRequestException),
            ),
            Err(SigningFailure::Signing) => Err(AwsError::InternalServiceError(InternalServiceError)),
        },
{
    match computed {
        Ok(s) => if constant_time_eq(s.as_str(), provided) {
            Ok(())
        } else {
            Err(AwsError::SignatureDoesNotMatch(SignatureDoesNotMatch))
        },
        Err(SigningFailure::Request) => Err(AwsError::InvalidRequestException(InvalidRequestException)),
        Err(SigningFailure::Signing) => Err(AwsError::InternalServiceError(InternalServiceError)),
    }
}

/// Authenticates a request: the checks of `gate_of`, then the signature,
/// recomputed over the signed headers and the body, must equal the one the
/// request carries.
pub fn authenticate(req: &HttpRequest, credentials: &AccessCredentials, now: i64) -> (r: Result<
    (),
    AwsError,
>)
    ensures
        match gate_of(headers_view(req.headers@), credentials.access_key_id@, now as int) {
            Err(e) => r == Err::<(), AwsError>(e),
            Ok(g) => r == match sigv4_outcome(
                req.method@,
                req.uri@,
                g.headers,
                req.body@,
                credentials.access_key_id@,
                credentials.secret_access_key@,
                g.auth.signing_scope.region,
                g.auth.signing_scope.service,
                g.time,
            ) {
                Ok(s) => if s == g.auth.signature {
                    Ok::<(), AwsError>(())
                } else {
                    Err(AwsError::SignatureDoesNotMatch(SignatureDoesNotMatch))
                },
                Err(SigningFailure::Request) => Err(
                    AwsError::InvalidRequestException(InvalidRequestException),
                ),
                Err(SigningFailure::Signing) => Err(
                    AwsError::InternalServiceError(InternalServiceError),
                ),
            },
        },
{
    let input = match check_request(req, credentials.access_key_id.as_str(), now) {
        Ok(i) => i,
        Err(e) => {
            return Err(e);
        },
    };
    let computed = sign_request(
        req.method.as_str(),
        req.uri.as_str(),
        &input.headers,
        &req.body,
        credentials.access_key_id.as_str(),
        credentials.secret_access_key.as_str(),
        input.auth.signing_scope.region,
        input.auth.signing_scope.service,
        input.time,
    );
    verify_signature(&computed, input.auth.signature)
}

} // verus!
