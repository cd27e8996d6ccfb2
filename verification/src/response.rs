//! Configuration for outbound responses: which CORS headers every response
//! carries. The transport collaborator applies [`ResponseConfig::cors_headers`]
//! to each response it builds.

use vstd::prelude::*;

verus! {

/// A configuration struct for creating responses
#[derive(Clone)]
pub struct ResponseConfig {
    /// The Access-Control-Allow-Origin value, if one is to be sent.
    pub access_control_allow_origin: Option<String>,
    /// The Access-Control-Allow-Methods value, if one is to be sent.
    pub access_control_allow_methods: Option<String>,
    /// The Access-Control-Allow-Headers value, if one is to be sent.
    pub access_control_allow_headers: Option<String>,
}

impl ResponseConfig {
    /// The header names and values this configuration asks every response to
    /// carry: origin, then methods, then headers, each present exactly when
    /// set.
    pub open spec fn cors_headers_spec(&self) -> Seq<(Seq<char>, Seq<char>)> {
        (match self.access_control_allow_origin {
            None => Seq::empty(),
            Some(v) => seq![("access-control-allow-origin"@, v@)],
        }) + (match self.access_control_allow_methods {
            None => Seq::empty(),
            Some(v) => seq![("access-control-allow-methods"@, v@)],
        }) + (match self.access_control_allow_headers {
            None => Seq::empty(),
            Some(v) => seq![("access-control-allow-headers"@, v@)],
        })
    }

    /// Create new configuration for responses, with no option set
    pub fn new() -> (r: Self)
        ensures
            r.access_control_allow_origin is None,
            r.access_control_allow_methods is None,
            r.access_control_allow_headers is None,
            r.cors_headers_spec() == Seq::<(Seq<char>, Seq<char>)>::empty(),
    {
        let r = ResponseConfig {
            access_control_allow_origin: None,
            access_control_allow_methods: None,
            access_control_allow_headers: None,
        };
        proof {
            assert(r.cors_headers_spec() =~= Seq::<(Seq<char>, Seq<char>)>::empty());
        }
        r
    }

    /// Compute the header name and value pairs of
    /// [`ResponseConfig::cors_headers_spec`], in order.
    pub fn cors_headers(&self) -> (r: Vec<(String, String)>)
        ensures
            r@.len() == self.cors_headers_spec().len(),
            forall|i: int|
                0 <= i < r@.len() ==> (#[trigger] r@[i]).0@ == self.cors_headers_spec()[i].0
                    && r@[i].1@ == self.cors_headers_spec()[i].1,
    {
        let mut out: Vec<(String, String)> = Vec::new();
        if let Some(v) = &self.access_control_allow_origin {
            out.push(("access-control-allow-origin".to_owned(), v.clone()));
        }
        if let Some(v) = &self.access_control_allow_methods {
            out.push(("access-control-allow-methods".to_owned(), v.clone()));
        }
        if let Some(v) = &self.access_control_allow_headers {
            out.push(("access-control-allow-headers".to_owned(), v.clone()));
        }
        out
    }
}

} // verus!
