//! Cross-origin headers added to responses.
use vstd::prelude::*;

verus! {

/// What a response carries, as far as the cross-origin policy cares.
#[derive(Clone, Copy, Debug, PartialEq, Eq, Structural)]
pub enum BodyKind {
    Json,
    Plain,
    Other,
}

/// Cross-origin policy allowing one origin.
pub struct CORS {
    pub allowed_origin: String,
}

/// What the policy does to one response.
pub struct CorsAction {
    /// Headers to set, as (name, value).
    pub headers: Vec<(String, String)>,
    /// Replace the body by an empty plain-text one.
    pub empty_plain_body: bool,
}

pub open spec fn cors_headers(origin: Seq<char>) -> Seq<(Seq<char>, Seq<char>)> {
    seq![
        ("Access-Control-Allow-Origin"@, origin),
        ("Access-Control-Allow-Methods"@, "GET, POST, OPTIONS"@),
        ("Access-Control-Allow-Headers"@, "Content-Type"@),
        ("Access-Control-Allow-Credentials"@, "true"@),
    ]
}

pub open spec fn pairs_view(v: Seq<(String, String)>) -> Seq<(Seq<char>, Seq<char>)> {
    v.map_values(|p: (String, String)| (p.0@, p.1@))
}

fn header(name: &str, value: String) -> (r: (String, String))
    ensures
        r.0@ == name@,
        r.1@ == value@,
{
    (name.to_owned(), value)
}

impl CORS {
    pub fn new(allowed_origin: String) -> (r: CORS)
        ensures
            r.allowed_origin@ == allowed_origin@,
    {
        CORS { allowed_origin }
    }

    /// The headers for a response to a request (`is_options` for an OPTIONS
    /// request) with a body of kind `body`: the cross-origin headers for
    /// OPTIONS requests and JSON or plain-text responses, and an empty
    /// plain-text body for OPTIONS requests.
    pub fn on_response(&self, is_options: bool, body: BodyKind) -> (r: CorsAction)
        ensures
            pairs_view(r.headers@) == (if is_options || body == BodyKind::Json || body
                == BodyKind::Plain {
                cors_headers(self.allowed_origin@)
            } else {
                Seq::empty()
            }),
            r.empty_plain_body == is_options,
    {
        let mut headers: Vec<(String, String)> = Vec::new();
        if is_options || body == BodyKind::Json || body == BodyKind::Plain {
            headers.push(header("Access-Control-Allow-Origin", self.allowed_origin.clone()));
            headers.push(header("Access-Control-Allow-Methods", "GET, POST, OPTIONS".to_owned()));
            headers.push(header("Access-Control-Allow-Headers", "Content-Type".to_owned()));
            headers.push(header("Access-Control-Allow-Credentials", "true".to_owned()));
            assert(pairs_view(headers@) =~= cors_headers(self.allowed_origin@));
        } else {
            assert(pairs_view(headers@) =~= Seq::empty());
        }
        CorsAction { headers, empty_plain_body: is_options }
    }
}

} // verus!
