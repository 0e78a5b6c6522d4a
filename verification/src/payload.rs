use vstd::prelude::*;
use vstd::string::StringExecFns;

verus! {

/// The body formats the request layer understands; `Other` stands for
/// anything else.
#[derive(Clone, Copy, PartialEq, Eq, Structural, Debug)]
pub enum ContentType {
    Json,
    Protobuf,
    Other,
}

impl ContentType {
    /// The format named by a `Content-Type` header value, by exact
    /// match.
    pub fn from_request_content_type(value: &str) -> (r: Self)
        ensures
            value@ == "application/json"@ ==> r == ContentType::Json,
            value@ == "application/protobuf"@ ==> r == ContentType::Protobuf,
            value@ != "application/json"@ && value@ != "application/protobuf"@ ==> r
                == ContentType::Other,
    {
        Self::from_request_header(value)
    }

    /// The format named by an `Accepts` header value.
    pub fn from_request_accepts(value: &str) -> (r: Self)
        ensures
            value@ == "application/json"@ ==> r == ContentType::Json,
            value@ == "application/protobuf"@ ==> r == ContentType::Protobuf,
            value@ != "application/json"@ && value@ != "application/protobuf"@ ==> r
                == ContentType::Other,
    {
        Self::from_request_header(value)
    }

    /// The format named by any header value, by exact match.
    pub fn from_request_header(value: &str) -> (r: Self)
        ensures
            value@ == "application/json"@ ==> r == ContentType::Json,
            value@ == "application/protobuf"@ ==> r == ContentType::Protobuf,
            value@ != "application/json"@ && value@ != "application/protobuf"@ ==> r
                == ContentType::Other,
    {
        proof {
            reveal_strlit("application/json");
            reveal_strlit("application/protobuf");
            assert("application/json"@.len() != "application/protobuf"@.len());
            assert("application/json"@ != "application/protobuf"@);
        }
        let owned = String::from_str(value);
        if owned == String::from_str("application/json") {
            ContentType::Json
        } else if owned == String::from_str("application/protobuf") {
            ContentType::Protobuf
        } else {
            ContentType::Other
        }
    }

    /// Which format a response takes: the `Accepts` choice where it is
    /// supported, else the request's own `Content-Type` where supported,
    /// else the textual format.
    pub fn response_content_type(accepts: Self, request: Self) -> (r: Self)
        ensures
            accepts != ContentType::Other ==> r == accepts,
            accepts == ContentType::Other && request != ContentType::Other ==> r == request,
            accepts == ContentType::Other && request == ContentType::Other ==> r
                == ContentType::Json,
    {
        if accepts != ContentType::Other {
            accepts
        } else if request != ContentType::Other {
            request
        } else {
            ContentType::Json
        }
    }
}

} // verus!
