use vstd::prelude::*;

use crate::config::Config;
use crate::text::{decimal_digits, decimal_text};

verus! {

/// Origin value that admits every origin.
pub const ANY_ORIGIN: &'static str = "*";

/// Cross-origin policy of the REST API.
pub struct Cors {
    allowed_origins: Vec<String>,
}

impl Cors {
    /// The allowed origins.
    pub closed spec fn origins(&self) -> Seq<Seq<char>> {
        self.allowed_origins@.map_values(|o: String| o@)
    }

    /// A policy admitting the origins allowed by `config`.
    pub fn new(config: &Config) -> (r: Self)
        ensures
            r.origins() == config.cors_allowed_origins@.map_values(|o: String| o@),
    {
        let src = &config.cors_allowed_origins;
        let mut allowed_origins: Vec<String> = Vec::new();
        let mut i: usize = 0;
        while i < src.len()
            invariant
                i <= src@.len(),
                allowed_origins@.map_values(|o: String| o@) == src@.subrange(0, i as int).map_values(
                    |o: String| o@,
                ),
            decreases src@.len() - i,
        {
            let ghost before = allowed_origins@;
            let c = src[i].clone();
            allowed_origins.push(c);
            proof {
                assert(src@.subrange(0, i as int + 1) =~= src@.subrange(0, i as int).push(src@[i as int]));
                assert(allowed_origins@ == before.push(c));
                assert(allowed_origins@.map_values(|o: String| o@) =~= before.map_values(|o: String| o@).push(c@));
                assert(src@.subrange(0, i as int + 1).map_values(|o: String| o@) =~= src@.subrange(0, i as int).map_values(
                    |o: String| o@,
                ).push(src@[i as int]@));
            }
            i = i + 1;
        }
        assert(src@.subrange(0, i as int) =~= src@);
        Cors { allowed_origins }
    }

    /// Whether a request from `origin` may read the response: the origin is
    /// listed, or `*` is.
    pub fn allows(&self, origin: &str) -> (r: bool)
        ensures
            r == (self.origins().contains(origin@) || self.origins().contains(ANY_ORIGIN@)),
    {
        let wanted = origin.to_owned();
        let any = ANY_ORIGIN.to_owned();
        let mut found = false;
        let mut i: usize = 0;
        while i < self.allowed_origins.len()
            invariant
                i <= self.allowed_origins@.len(),
                wanted@ == origin@,
                any@ == ANY_ORIGIN@,
                found == exists|k: int|
                    0 <= k < i && (#[trigger] self.origins()[k] == origin@ || self.origins()[k]
                        == ANY_ORIGIN@),
            decreases self.allowed_origins@.len() - i,
        {
            let hit = self.allowed_origins[i] == wanted || self.allowed_origins[i] == any;
            proof {
                assert(self.origins()[i as int] == self.allowed_origins@[i as int]@);
                if hit {
                    assert(0 <= i < i + 1 && (self.origins()[i as int] == origin@ || self.origins()[i as int] == ANY_ORIGIN@));
                }
            }
            if hit {
                found = true;
            }
            i = i + 1;
        }
        proof {
            if found {
                let k = choose|k: int|
                    0 <= k < i && (#[trigger] self.origins()[k] == origin@ || self.origins()[k]
                        == ANY_ORIGIN@);
                if self.origins()[k] == origin@ {
                    assert(self.origins().contains(origin@));
                } else {
                    assert(self.origins().contains(ANY_ORIGIN@));
                }
            } else {
                if self.origins().contains(origin@) {
                    let k = choose|k: int| 0 <= k < self.origins().len() && self.origins()[k] == origin@;
                    assert(self.origins()[k] == origin@);
                }
                if self.origins().contains(ANY_ORIGIN@) {
                    let k = choose|k: int|
                        0 <= k < self.origins().len() && self.origins()[k] == ANY_ORIGIN@;
                    assert(self.origins()[k] == ANY_ORIGIN@);
                }
            }
        }
        found
    }

    /// Value of the `Access-Control-Allow-Origin` header for a request with
    /// the `Origin` header `origin`: the origin itself where it is allowed;
    /// no header where it is not, or where the request has none.
    pub fn allow_origin_header(&self, origin: Option<&str>) -> (r: Option<String>)
        ensures
            match origin {
                Some(o) => if self.origins().contains(o@) || self.origins().contains(ANY_ORIGIN@) {
                    r is Some && r->Some_0@ == o@
                } else {
                    r is None
                },
                None => r is None,
            },
    {
        match origin {
            Some(o) => if self.allows(o) {
                Some(o.to_owned())
            } else {
                None
            },
            None => None,
        }
    }
}

/// Body of a REST API answer.
#[derive(Debug, Clone)]
pub struct ApiResponse {
    pub status: String,
    pub message: String,
}

/// The answer to a posted `action`: with authentication enabled, an error
/// saying it is not implemented; otherwise `pong` for `ping` and an error
/// for anything else.
pub fn action_response(action: &str, auth_enabled: bool) -> (r: ApiResponse)
    ensures
        auth_enabled ==> r.status@ == "error"@ && r.message@
            == "Authentication required but not implemented."@,
        !auth_enabled && action@ == "ping"@ ==> r.status@ == "success"@ && r.message@ == "pong"@,
        !auth_enabled && action@ != "ping"@ ==> r.status@ == "error"@ && r.message@
            == "Unknown action"@,
{
    if auth_enabled {
        return ApiResponse {
            status: "error".to_owned(),
            message: "Authentication required but not implemented.".to_owned(),
        };
    }
    if action.to_owned() == "ping".to_owned() {
        ApiResponse { status: "success".to_owned(), message: "pong".to_owned() }
    } else {
        ApiResponse { status: "error".to_owned(), message: "Unknown action".to_owned() }
    }
}

/// The answer at the API root: a welcome naming where the API runs.
pub fn welcome_response(host: &str, port: u16) -> (r: ApiResponse)
    ensures
        r.status@ == "success"@,
        r.message@ == "Welcome to the REST API running on "@ + host@ + ":"@ + decimal_digits(
            port as nat,
        ) + "!"@,
{
    let mut message = String::from_str("Welcome to the REST API running on ");
    message.append(host);
    message.append(":");
    let p = decimal_text(port as u128);
    message.append(p.as_str());
    message.append("!");
    ApiResponse { status: "success".to_owned(), message }
}

} // verus!
