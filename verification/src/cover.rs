use vstd::prelude::*;
use vstd::string::*;
use crate::error::SourceError;
use crate::model::{site_url, DynastyScansManga};
use crate::text::{absent, chars_of, find, first_at, join};
use crate::{DynastyScans, BASE_URL, COVER_QUERY_PARAMETERS_FLAG};

verus! {

/// What has to be fetched for an image address.
#[derive(Debug, Clone)]
pub enum ImageRequest {
    /// The address itself is the image.
    Direct(String),
    /// The address stands for a cover still to be looked up: fetch the
    /// detail record at this address and ask [`DynastyScans::cover_request`].
    Details(String),
}

/// The address of the detail record behind a marked cover address whose
/// mark stands at `at`.
pub open spec fn details_url(url: Seq<char>, at: int) -> Seq<char> {
    url.take(at) + ".json"@
}

impl DynastyScans {
    /// Tells a marked cover address from an ordinary image address.
    ///
    /// An address that holds the mark leads to the detail record of the
    /// work: what stands before the first mark, with `.json` behind it. Any
    /// other address is fetched as it is.
    pub fn get_image_request(&self, url: String) -> (out: ImageRequest)
        ensures
            match out {
                ImageRequest::Direct(address) => absent(url@, COVER_QUERY_PARAMETERS_FLAG@) && address@ == url@,
                ImageRequest::Details(address) => exists|at: int|
                    first_at(url@, COVER_QUERY_PARAMETERS_FLAG@, at) && address@ == #[trigger] details_url(url@, at),
            },
    {
        let text = chars_of(url.as_str());
        let mark = chars_of(COVER_QUERY_PARAMETERS_FLAG);
        match find(&text, &mark) {
            Some(at) => {
                let address = join(url.as_str().substring_char(0, at), ".json");
                proof {
                    assert(url@.subrange(0, at as int) =~= url@.take(at as int));
                    assert(address@ == details_url(url@, at as int));
                }
                ImageRequest::Details(address)
            },
            None => ImageRequest::Direct(url),
        }
    }

    /// The address of the cover that a detail record names, or
    /// [`SourceError::MissingCover`] where it names none.
    pub fn cover_request(&self, details: DynastyScansManga) -> (out: Result<String, SourceError>)
        ensures
            match details@.cover_url {
                Some(path) => out matches Ok(address) && address@ == site_url(path),
                None => out == Err::<String, SourceError>(SourceError::MissingCover),
            },
    {
        match details.cover_url {
            Some(path) => Ok(join(BASE_URL, path.as_str())),
            None => Err(SourceError::MissingCover),
        }
    }
}

} // verus!
