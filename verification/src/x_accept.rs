use vstd::prelude::*;
use vstd::string::{StrSliceExecFns, StringSliceAdditionalSpecFns};

verus! {

/// The content types a streaming subscriber may negotiate.
#[derive(Clone, Copy, PartialEq, Eq, Structural, Debug)]
pub enum ContentType {
    Json,
    Protobuf,
}

/// The negotiated value of the `X-Accept` header.
#[derive(Clone, Copy, PartialEq, Eq, Structural, Debug)]
pub struct XAccept(pub ContentType);

impl XAccept {
    pub fn content_type(&self) -> (r: ContentType)
        ensures
            r == self.0,
    {
        self.0
    }
}

/// ASCII upper-case letters folded to lower case; other bytes unchanged.
pub open spec fn lower_byte(b: u8) -> u8 {
    if 0x41 <= b <= 0x5a {
        (b + 0x20) as u8
    } else {
        b
    }
}

pub open spec fn lowered(s: Seq<u8>) -> Seq<u8> {
    s.map_values(|b: u8| lower_byte(b))
}

/// Whether the case-folded header value opens with the given prefix.
pub open spec fn starts_lower(h: Seq<u8>, prefix: Seq<u8>) -> bool {
    h.len() >= prefix.len() && lowered(h).subrange(0, prefix.len() as int) == prefix
}

fn starts_with_lower(v: &[u8], prefix: &str) -> (r: bool)
    ensures
        r == starts_lower(v@, prefix.spec_bytes()),
{
    let pb = prefix.as_bytes_vec();
    let n = pb.len();
    if n > v.len() {
        return false;
    }
    let mut k: usize = 0;
    #[verifier::loop_isolation(false)]
    while k < n
        invariant
            k <= n,
            forall|j: int| 0 <= j < k ==> lower_byte(v@[j]) == pb@[j],
        decreases n - k,
    {
        let b = v[k];
        let low: u8 = if 0x41 <= b && b <= 0x5a {
            b + 0x20
        } else {
            b
        };
        if low != pb[k] {
            proof {
                assert(lowered(v@).subrange(0, n as int)[k as int] != pb@[k as int]);
            }
            return false;
        }
        k += 1;
    }
    proof {
        assert(lowered(v@).subrange(0, n as int) =~= pb@);
    }
    true
}

/// The content type named by an `X-Accept` header value, if the
/// case-folded value opens with a supported type; the textual type wins
/// where both prefixes would match.
pub fn get_content_type_x_accept(header: &[u8]) -> (r: Option<ContentType>)
    ensures
        r == Some(ContentType::Json) <==> starts_lower(header@, "application/json".spec_bytes()),
        r == Some(ContentType::Protobuf) <==> (!starts_lower(
            header@,
            "application/json".spec_bytes(),
        ) && starts_lower(header@, "application/protobuf".spec_bytes())),
        r is None <==> (!starts_lower(header@, "application/json".spec_bytes()) && !starts_lower(
            header@,
            "application/protobuf".spec_bytes(),
        )),
{
    if starts_with_lower(header, "application/json") {
        Some(ContentType::Json)
    } else if starts_with_lower(header, "application/protobuf") {
        Some(ContentType::Protobuf)
    } else {
        None
    }
}

/// Negotiates the header once, at subscribe time: an unsupported or
/// absent value is rejected before any client state exists.
pub fn xaccept_from_header(header: &[u8]) -> (r: Option<XAccept>)
    ensures
        match r {
            Some(xa) => get_spec(header@) == Some(xa.0),
            None => get_spec(header@) is None,
        },
{
    match get_content_type_x_accept(header) {
        Some(ct) => Some(XAccept(ct)),
        None => None,
    }
}

/// The negotiated type as a function of the header bytes.
pub open spec fn get_spec(h: Seq<u8>) -> Option<ContentType> {
    if starts_lower(h, "application/json".spec_bytes()) {
        Some(ContentType::Json)
    } else if starts_lower(h, "application/protobuf".spec_bytes()) {
        Some(ContentType::Protobuf)
    } else {
        None
    }
}

} // verus!
