use vstd::prelude::*;
use vstd::string::StringExecFns;

verus! {

/// What can go wrong while issuing a request or consuming its response.
#[derive(Debug, Clone, PartialEq, Eq)]
pub enum Error {
    /// The authorization header value could not be built.
    RequestBuilder(String),
    /// The transport failed to convert or dispatch the request.
    Request(String),
    /// The response body was an HTML page where JSON was expected.
    PageNotFound,
    /// One line of the response could not be decoded into the model.
    Json(String),
    /// The response stream did not have the expected shape.
    Response(String),
    /// Reading the response body failed.
    Io(String),
}

impl Error {
    /// A short text describing the error.
    pub fn message(&self) -> (r: String)
        ensures
            self matches Error::RequestBuilder(m) ==> r@ == m@,
            self matches Error::Request(m) ==> r@ == m@,
            self matches Error::PageNotFound ==> r@ == "page not found"@,
            self matches Error::Json(m) ==> r@ == m@,
            self matches Error::Response(m) ==> r@ == m@,
            self matches Error::Io(m) ==> r@ == m@,
    {
        match self {
            Error::RequestBuilder(m) => m.clone(),
            Error::Request(m) => m.clone(),
            Error::PageNotFound => String::from_str("page not found"),
            Error::Json(m) => m.clone(),
            Error::Response(m) => m.clone(),
            Error::Io(m) => m.clone(),
        }
    }
}

} // verus!
