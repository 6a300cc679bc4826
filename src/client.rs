use vstd::prelude::*;
use vstd::slice::slice_to_vec;
use vstd::string::StringExecFns;
use vstd::string::StringSliceAdditionalSpecFns;

use crate::error::Error;
use crate::request::{
    headers_view, lemma_with_header_single, values_named, with_header, ApiRequest, HeaderView,
};

verus! {

/// The value of the authorization header for a bearer token.
pub open spec fn bearer_value(token: Seq<char>) -> Seq<char> {
    "Bearer "@ + token
}

/// The bytes that a header value may hold: visible ASCII, tab, and bytes of
/// 128 and above (the parts of non-ASCII text).
pub open spec fn is_header_value_byte(b: u8) -> bool {
    (b >= 32 && b != 127) || b == 9
}

pub open spec fn is_header_value(bytes: Seq<u8>) -> bool {
    forall|i: int| 0 <= i < bytes.len() ==> is_header_value_byte(#[trigger] bytes[i])
}

/// The name of the header that carries the credential.
pub open spec fn authorization_name() -> Seq<char> {
    "authorization"@
}

/// Relies on http::HeaderValue::from_str, which accepts a text exactly when
/// each of its bytes is a header value byte; its error text is kept.
#[verifier::external_body]
fn validate_header_value(s: &str) -> (r: Result<(), String>)
    ensures
        r is Ok <==> is_header_value(s.spec_bytes()),
{
    match http::HeaderValue::from_str(s) {
        Ok(_) => Ok(()),
        Err(e) => Err(e.to_string()),
    }
}

/// The transport core: an injected HTTP client and an optional credential.
#[derive(Clone)]
pub struct LichessApi<HttpClient> {
    pub client: HttpClient,
    bearer_auth: Option<String>,
}

impl<HttpClient> LichessApi<HttpClient> {
    /// The injected HTTP client.
    pub closed spec fn client_view(&self) -> HttpClient {
        self.client
    }

    /// The value that goes in the authorization header, if a token was given.
    pub closed spec fn bearer_auth_view(&self) -> Option<Seq<char>> {
        match self.bearer_auth {
            Some(a) => Some(a@),
            None => None,
        }
    }

    /// Builds a client; a token becomes the header value `Bearer <token>`.
    pub fn new(client: HttpClient, auth_token: Option<String>) -> (r: Self)
        ensures
            r.client_view() == client,
            r.bearer_auth_view() == match auth_token {
                Some(t) => Some(bearer_value(t@)),
                None => None::<Seq<char>>,
            },
    {
        let bearer_auth = match auth_token {
            Some(token) => {
                let mut value = String::from_str("Bearer ");
                value.append(token.as_str());
                Some(value)
            },
            None => None,
        };
        LichessApi { client, bearer_auth }
    }

    /// The injected HTTP client: the one the client was built with.
    pub fn client(&self) -> (r: &HttpClient)
        ensures
            *r == self.client_view(),
    {
        &self.client
    }

    /// The configured authorization header value, if any.
    pub fn bearer_auth(&self) -> (r: Option<&String>)
        ensures
            r matches Some(a) ==> self.bearer_auth_view() == Some(a@),
            r is None <==> self.bearer_auth_view() is None,
    {
        match &self.bearer_auth {
            Some(a) => Some(a),
            None => None,
        }
    }

    /// Attaches the credential to `request`, marked sensitive, replacing any
    /// authorization header it had. Without a credential the request is left
    /// as it is. A credential that is no valid header value is refused and the
    /// request is left as it is.
    pub fn authorize(&self, request: &mut ApiRequest) -> (r: Result<(), Error>)
        ensures
            final(request).method@ == old(request).method@,
            final(request).url@ == old(request).url@,
            final(request).body@ == old(request).body@,
            self.bearer_auth_view() is None ==> r is Ok,
            r is Ok <==> match self.bearer_auth_view() {
                Some(a) => is_header_value(vstd::utf8::encode_utf8(a)),
                None => true,
            },
            r is Err ==> r->Err_0 is RequestBuilder,
            (r is Err || self.bearer_auth_view() is None) ==> headers_view(final(request).headers@)
                == headers_view(old(request).headers@),
            r is Ok ==> match self.bearer_auth_view() {
                Some(a) => headers_view(final(request).headers@) == with_header(
                    headers_view(old(request).headers@),
                    authorization_name(),
                    vstd::utf8::encode_utf8(a),
                    true,
                ),
                None => true,
            },
    {
        match &self.bearer_auth {
            None => Ok(()),
            Some(auth) => {
                match validate_header_value(auth.as_str()) {
                    Err(m) => Err(Error::RequestBuilder(m)),
                    Ok(()) => {
                        let value = slice_to_vec(auth.as_str().as_bytes());
                        let name = String::from_str("authorization");
                        request.set_header(name, value, true);
                        Ok(())
                    },
                }
            },
        }
    }

    /// The first item of a typed result sequence, which must have one: the
    /// item itself, or `Response` when the sequence was empty. Items after the
    /// first are not looked at.
    pub fn expect_one_model<Model>(&self, first: Option<Result<Model, Error>>) -> (r: Result<
        Model,
        Error,
    >)
        ensures
            first matches Some(item) ==> r == item,
            first is None ==> (r matches Err(Error::Response(m)) && m@ == "empty response stream"@),
    {
        match first {
            Some(item) => item,
            None => Err(Error::Response(String::from_str("empty response stream"))),
        }
    }

    /// Success exactly when a sequence that must be empty has no first item.
    pub fn expect_empty(&self, first: Option<Result<(), Error>>) -> (r: Result<(), Error>)
        ensures
            first is None ==> r is Ok,
            first is Some ==> (r matches Err(Error::Response(m)) && m@
                == "expected empty response stream"@),
    {
        match first {
            Some(_) => Err(Error::Response(String::from_str("expected empty response stream"))),
            None => Ok(()),
        }
    }
}

/// Once a client with a token has authorized a request, the request carries
/// one authorization value, `Bearer <token>`, whatever it carried before.
pub proof fn lemma_authorized_request_carries_bearer(
    token: Seq<char>,
    before: Seq<HeaderView>,
    after: Seq<HeaderView>,
)
    requires
        after == with_header(
            before,
            authorization_name(),
            vstd::utf8::encode_utf8(bearer_value(token)),
            true,
        ),
    ensures
        values_named(after, authorization_name()) == seq![vstd::utf8::encode_utf8(bearer_value(token))],
{
    lemma_with_header_single(before, authorization_name(), vstd::utf8::encode_utf8(bearer_value(token)), true);
}

} // verus!
