use vstd::prelude::*;

pub mod cover;
pub mod error;
pub mod home;
pub mod model;
pub mod net;
pub mod net_laws;
pub mod query;
pub mod search;
pub mod text;

verus! {

/// Root of the site every catalogue address is built from.
pub const BASE_URL: &'static str = "https://dynasty-scans.com";

/// Mark at the end of a cover address that stands for "look the cover up
/// in the work's detail record first".
pub const COVER_QUERY_PARAMETERS_FLAG: &'static str = "?dsCover";

/// How often the site may be asked: so many requests in so many seconds.
#[derive(Debug, Clone, Copy, PartialEq, Eq, Structural)]
pub struct RateLimit {
    pub permits: i32,
    pub period_seconds: i32,
}

/// The adapter for the site. It holds no state of its own.
#[derive(Debug, Clone, Copy, PartialEq, Eq, Structural)]
pub struct DynastyScans;

impl DynastyScans {
    pub fn new() -> (out: Self) {
        DynastyScans
    }

    /// The limit to set on outbound traffic before anything is fetched:
    /// five requests a second.
    pub fn rate_limit(&self) -> (limit: RateLimit)
        ensures
            limit == (RateLimit { permits: 5, period_seconds: 1 }),
    {
        RateLimit { permits: 5, period_seconds: 1 }
    }
}

} // verus!
